//! Random variation of expressions: fresh single nodes, mutation and crossover.

use vstd::prelude::*;
use crate::expression::{unused, Expression, ExpressionKind, Move, Value, ValueType};
use crate::logic_ext::Direction;
use crate::random::{gen_index, gen_number, gen_ratio, pick_one, sample_uniform};
use crate::state::{TurnInput, Unit};

verus! {

/// One of the eight leaves that read a number off the turn.
pub open spec fn is_number_leaf(kind: ExpressionKind) -> bool {
    ||| kind is DistanceToCenter
    ||| kind is DistanceToNearestAlly
    ||| kind is DistanceToNearestEnemy
    ||| kind is AlliedSurroundingTiles
    ||| kind is EnemySurroundingTiles
    ||| kind is Health
    ||| kind is X
    ||| kind is Y
}

/// A node that `generate_move_expression` can return.
pub open spec fn is_fresh_move(kind: ExpressionKind) -> bool {
    ||| kind is AttackNearestEnemy
    ||| kind is MoveToNearestEnemy
    ||| kind is ConstantMove
}

/// A node that `generate_integer_expression` can return for `range`: a constant in
/// the range where there is one, else a number leaf.
pub open spec fn is_fresh_number(kind: ExpressionKind, range: Option<(int, int)>) -> bool {
    match range {
        Some(r) => kind matches ExpressionKind::ConstantNumber(n) && r.0 <= n < r.1,
        None => is_number_leaf(kind),
    }
}

/// A node that `generate_boolean_expression` can return: a comparison of a number
/// leaf with a constant from the leaf's declared range, both not yet evaluated.
pub open spec fn is_fresh_boolean(kind: ExpressionKind) -> bool {
    match kind {
        ExpressionKind::GreaterThan { left, right } => is_fresh_pair(*left, *right),
        ExpressionKind::Equals { left, right } => is_fresh_pair(*left, *right),
        _ => false,
    }
}

pub open spec fn is_fresh_pair(left: Expression, right: Expression) -> bool {
    &&& left.times_used == 0
    &&& right.times_used == 0
    &&& is_number_leaf(left.kind)
    &&& is_fresh_number(right.kind, left.kind.range_spec())
}

/// A fresh single node of type `t`; for a number, one for `range`.
pub open spec fn is_fresh(kind: ExpressionKind, t: ValueType, range: Option<(int, int)>) -> bool {
    match t {
        ValueType::Boolean => is_fresh_boolean(kind),
        ValueType::Number => is_fresh_number(kind, range),
        ValueType::Move => is_fresh_move(kind),
    }
}

/// `after` wraps `before`: it is an `If` with a fresh condition, with `before` as its
/// `then` branch and a fresh node of the type of `before` as the other, all three not
/// yet evaluated.
pub open spec fn wraps(before: ExpressionKind, after: ExpressionKind) -> bool {
    &&& after matches ExpressionKind::If { condition, then, otherwise }
    &&& *then == unused(before)
    &&& condition.times_used == 0
    &&& is_fresh_boolean(condition.kind)
    &&& otherwise.times_used == 0
    &&& is_fresh(otherwise.kind, before.type_spec(), before.range_spec())
}

/// What the step of an `If` does.
#[derive(Debug, Copy, Clone, PartialEq, Eq, Structural)]
pub enum IfStep {
    /// The `If` becomes the kind of the branch that has been evaluated.
    Collapse,
    /// The condition is mutated.
    Condition,
    /// The `then` branch is mutated.
    Then,
    /// The `otherwise` branch is mutated.
    Otherwise,
}

/// An operand of a comparison.
#[derive(Debug, Copy, Clone, PartialEq, Eq, Structural)]
pub enum Side {
    Left,
    Right,
}

/// Exactly one of the two branches has not been evaluated.
pub open spec fn one_unused(then_used: usize, otherwise_used: usize) -> bool {
    (then_used == 0) != (otherwise_used == 0)
}

/// The chance, as a ratio, of the draw that the step of an `If` takes, if it takes
/// one: 1 in 10 for the collapse where, with sanity checks, exactly one branch has
/// not been evaluated; none where neither has; 1 in 2 for the choice of the branch
/// in every other case.
pub open spec fn if_odds(ignore_sanity_checks: bool, then_used: usize, otherwise_used: usize) -> Option<
    (u32, u32),
> {
    if !ignore_sanity_checks && one_unused(then_used, otherwise_used) {
        Some((1u32, 10u32))
    } else if !ignore_sanity_checks && (then_used == 0 || otherwise_used == 0) {
        None
    } else {
        Some((1u32, 2u32))
    }
}

/// What the step of an `If` does, given the outcome of its draw.
///
/// With sanity checks, where exactly one branch has not been evaluated, the `If`
/// collapses where the draw hit and else has its condition mutated; where neither
/// has been evaluated, the condition is mutated.  In every other case the `then`
/// branch is mutated where the draw hit and that branch has been evaluated, and
/// else the `otherwise` branch.
pub open spec fn if_step_of(
    ignore_sanity_checks: bool,
    then_used: usize,
    otherwise_used: usize,
    hit: bool,
) -> IfStep {
    if !ignore_sanity_checks && one_unused(then_used, otherwise_used) {
        if hit {
            IfStep::Collapse
        } else {
            IfStep::Condition
        }
    } else if !ignore_sanity_checks && (then_used == 0 || otherwise_used == 0) {
        IfStep::Condition
    } else if hit && then_used > 0 {
        IfStep::Then
    } else {
        IfStep::Otherwise
    }
}

/// What a health leaf becomes for a drawn index: `Health` becomes the health of the
/// closest enemy for index 0 and that of the closest ally for any other; each of
/// these two becomes `Health` for index 0 and the other of the two for any other.
pub open spec fn health_stepped(kind: ExpressionKind, index: usize) -> ExpressionKind {
    match kind {
        ExpressionKind::Health => if index == 0 {
            ExpressionKind::ClosestEnemyHealth
        } else {
            ExpressionKind::ClosestAllyHealth
        },
        ExpressionKind::ClosestEnemyHealth => if index == 0 {
            ExpressionKind::Health
        } else {
            ExpressionKind::ClosestAllyHealth
        },
        _ => if index == 0 {
            ExpressionKind::Health
        } else {
            ExpressionKind::ClosestEnemyHealth
        },
    }
}

/// The leaf with which a leaf swaps on a rare draw: the two moves towards the nearest
/// enemy are partners, and so are the distances to the nearest ally and to the
/// centre.
pub open spec fn partner(kind: ExpressionKind) -> ExpressionKind {
    match kind {
        ExpressionKind::AttackNearestEnemy => ExpressionKind::MoveToNearestEnemy,
        ExpressionKind::MoveToNearestEnemy => ExpressionKind::AttackNearestEnemy,
        ExpressionKind::DistanceToNearestAlly => ExpressionKind::DistanceToCenter,
        _ => ExpressionKind::DistanceToNearestAlly,
    }
}

/// One of the four leaves that have a partner.
pub open spec fn has_partner(kind: ExpressionKind) -> bool {
    ||| kind is AttackNearestEnemy
    ||| kind is MoveToNearestEnemy
    ||| kind is DistanceToNearestAlly
    ||| kind is DistanceToCenter
}

/// One of the three leaves that read a health.
pub open spec fn is_health_leaf(kind: ExpressionKind) -> bool {
    ||| kind is Health
    ||| kind is ClosestEnemyHealth
    ||| kind is ClosestAllyHealth
}

/// The comparison of two nodes that have not been evaluated yet: an `Equals` where
/// `equals` holds, else a `GreaterThan`.
pub open spec fn comparison_of(left: ExpressionKind, right: ExpressionKind, equals: bool) -> ExpressionKind {
    if equals {
        ExpressionKind::Equals { left: Box::new(unused(left)), right: Box::new(unused(right)) }
    } else {
        ExpressionKind::GreaterThan { left: Box::new(unused(left)), right: Box::new(unused(right)) }
    }
}

/// The sum of `x` and `step` in 32-bit two's complement.
pub open spec fn stepped(x: i32, step: int) -> i32 {
    if x + step > i32::MAX {
        (x + step - 0x1_0000_0000) as i32
    } else if x + step < i32::MIN {
        (x + step + 0x1_0000_0000) as i32
    } else {
        (x + step) as i32
    }
}

impl ExpressionKind {
    /// `after` is a possible outcome of mutating `self`, a node with the counter
    /// `times_used`.
    ///
    /// Where `ignore_sanity_checks` is set or the node has been evaluated, the
    /// outcome may wrap the node.  Else it is an outcome of the step that belongs to
    /// the node's variant.
    pub open spec fn mutates_to(
        self,
        times_used: usize,
        ignore_sanity_checks: bool,
        after: ExpressionKind,
    ) -> bool
        decreases self, 1nat,
    {
        ||| (ignore_sanity_checks || times_used > 0) && wraps(self, after)
        ||| self.steps_to(ignore_sanity_checks, after)
    }

    /// `after` is a possible outcome of the step that belongs to the variant of `self`.
    ///
    /// - A constant number moves by -1, 0 or 1, in two's complement.
    /// - An `If` of which, with sanity checks, a branch has not been evaluated has its
    ///   condition mutated or, where the other branch has been evaluated, collapses to
    ///   the kind of that branch.  Any other `If` has one branch mutated: `then` only
    ///   where that has been evaluated.
    /// - A constant boolean is negated; a constant move becomes a fresh move node.
    /// - `Health` becomes the health of the closest enemy or ally, and each of these
    ///   becomes `Health` or the other.  `X` and `Y` swap, and so do the two counts of
    ///   surrounding tiles.
    /// - The two moves towards the nearest enemy stay or swap; the distances to the
    ///   nearest ally and to the centre stay or swap; the distance to the nearest
    ///   enemy stays.
    /// - A comparison has one operand mutated.
    pub open spec fn steps_to(self, ignore_sanity_checks: bool, after: ExpressionKind) -> bool
        decreases self, 0nat,
    {
        match self {
            ExpressionKind::ConstantNumber(x) => {
                ||| after == ExpressionKind::ConstantNumber(stepped(x, -1))
                ||| after == ExpressionKind::ConstantNumber(x)
                ||| after == ExpressionKind::ConstantNumber(stepped(x, 1))
            },
            ExpressionKind::If { condition, then, otherwise } => {
                if !ignore_sanity_checks && (then.times_used == 0 || otherwise.times_used == 0) {
                    ||| {
                        &&& then.times_used > 0 || otherwise.times_used > 0
                        &&& after == if then.times_used == 0 {
                            otherwise.kind
                        } else {
                            then.kind
                        }
                    }
                    ||| {
                        &&& after matches ExpressionKind::If {
                            condition: c,
                            then: t,
                            otherwise: o,
                        }
                        &&& t == then
                        &&& o == otherwise
                        &&& condition.mutates_into(ignore_sanity_checks, *c)
                    }
                } else {
                    ||| {
                        &&& then.times_used > 0
                        &&& after matches ExpressionKind::If {
                            condition: c,
                            then: t,
                            otherwise: o,
                        }
                        &&& c == condition
                        &&& o == otherwise
                        &&& then.mutates_into(ignore_sanity_checks, *t)
                    }
                    ||| {
                        &&& after matches ExpressionKind::If {
                            condition: c,
                            then: t,
                            otherwise: o,
                        }
                        &&& c == condition
                        &&& t == then
                        &&& otherwise.mutates_into(ignore_sanity_checks, *o)
                    }
                }
            },
            ExpressionKind::ConstantBoolean(b) => after == ExpressionKind::ConstantBoolean(!b),
            ExpressionKind::ConstantMove(_) => is_fresh_move(after),
            ExpressionKind::Health => after is ClosestEnemyHealth || after is ClosestAllyHealth,
            ExpressionKind::X => after is Y,
            ExpressionKind::Y => after is X,
            ExpressionKind::GreaterThan { left, right } => {
                ||| {
                    &&& after matches ExpressionKind::GreaterThan { left: l, right: r }
                    &&& r == right
                    &&& left.mutates_into(ignore_sanity_checks, *l)
                }
                ||| {
                    &&& after matches ExpressionKind::GreaterThan { left: l, right: r }
                    &&& l == left
                    &&& right.mutates_into(ignore_sanity_checks, *r)
                }
            },
            ExpressionKind::Equals { left, right } => {
                ||| {
                    &&& after matches ExpressionKind::Equals { left: l, right: r }
                    &&& r == right
                    &&& left.mutates_into(ignore_sanity_checks, *l)
                }
                ||| {
                    &&& after matches ExpressionKind::Equals { left: l, right: r }
                    &&& l == left
                    &&& right.mutates_into(ignore_sanity_checks, *r)
                }
            },
            ExpressionKind::AlliedSurroundingTiles => after is EnemySurroundingTiles,
            ExpressionKind::EnemySurroundingTiles => after is AlliedSurroundingTiles,
            ExpressionKind::AttackNearestEnemy => after is AttackNearestEnemy
                || after is MoveToNearestEnemy,
            ExpressionKind::MoveToNearestEnemy => after is AttackNearestEnemy
                || after is MoveToNearestEnemy,
            ExpressionKind::DistanceToNearestEnemy => after is DistanceToNearestEnemy,
            ExpressionKind::DistanceToNearestAlly => after is DistanceToNearestAlly
                || after is DistanceToCenter,
            ExpressionKind::DistanceToCenter => after is DistanceToNearestAlly
                || after is DistanceToCenter,
            ExpressionKind::ClosestEnemyHealth => after is Health || after is ClosestAllyHealth,
            ExpressionKind::ClosestAllyHealth => after is Health || after is ClosestEnemyHealth,
        }
    }
}

impl Expression {
    /// `after` is a possible outcome of mutating `self`: the counter of the root is
    /// kept, and the kind is a possible outcome for that counter.
    pub open spec fn mutates_into(self, ignore_sanity_checks: bool, after: Expression) -> bool
        decreases self, 2nat,
    {
        &&& after.times_used == self.times_used
        &&& self.kind.mutates_to(self.times_used, ignore_sanity_checks, after.kind)
    }
}

impl ExpressionKind {
    /// A random single node of type move: with even chances one of the two that head
    /// for the nearest enemy (either with the same chance), else a constant move in a
    /// random direction, which is an attack one time in four.
    pub fn generate_move_expression<R: rand::Rng>(rng: &mut R) -> (kind: ExpressionKind)
        ensures
            is_fresh_move(kind),
    {
        if gen_ratio(rng, 1, 2) {
            return Self::move_towards_enemy(gen_index(rng, 0, 2));
        }
        let directions = vec![
            Direction::North,
            Direction::East,
            Direction::South,
            Direction::West,
        ];
        let direction = match pick_one(rng, &directions) {
            Some(d) => *d,
            None => Direction::North,
        };
        Self::constant_move(direction, gen_ratio(rng, 3, 4))
    }

    /// The node that heads for the nearest enemy and that a drawn index selects: the
    /// attack for index 0, the move for any other.
    pub fn move_towards_enemy(index: usize) -> (kind: ExpressionKind)
        ensures
            kind == if index == 0 {
                ExpressionKind::AttackNearestEnemy
            } else {
                ExpressionKind::MoveToNearestEnemy
            },
    {
        if index == 0 {
            ExpressionKind::AttackNearestEnemy
        } else {
            ExpressionKind::MoveToNearestEnemy
        }
    }

    /// The constant move in a drawn direction: a plain move where `plain` was drawn,
    /// else an attack.
    pub fn constant_move(direction: Direction, plain: bool) -> (kind: ExpressionKind)
        ensures
            kind == ExpressionKind::ConstantMove(
                if plain {
                    Move::Move(direction)
                } else {
                    Move::Attack(direction)
                },
            ),
    {
        if plain {
            ExpressionKind::ConstantMove(Move::Move(direction))
        } else {
            ExpressionKind::ConstantMove(Move::Attack(direction))
        }
    }

    /// A random single node of type number: a constant drawn from `range` where one
    /// is given, else one of the eight number leaves.
    pub fn generate_integer_expression<R: rand::Rng>(rng: &mut R, range: Option<(i64, i64)>) -> (kind:
        ExpressionKind)
        requires
            range matches Some(r) ==> i32::MIN <= r.0 < r.1 <= i32::MAX + 1,
        ensures
            is_fresh_number(
                kind,
                match range {
                    Some(r) => Some((r.0 as int, r.1 as int)),
                    None => None,
                },
            ),
    {
        if let Some(r) = range {
            return ExpressionKind::ConstantNumber(gen_number(rng, r.0 as i32, (r.1 - 1) as i32));
        }
        let leaves = vec![
            ExpressionKind::DistanceToCenter,
            ExpressionKind::DistanceToNearestAlly,
            ExpressionKind::DistanceToNearestEnemy,
            ExpressionKind::AlliedSurroundingTiles,
            ExpressionKind::EnemySurroundingTiles,
            ExpressionKind::Health,
            ExpressionKind::X,
            ExpressionKind::Y,
        ];
        match pick_one(rng, &leaves) {
            Some(leaf) => leaf.clone(),
            None => ExpressionKind::Health,
        }
    }

    /// A random comparison: a number leaf on the left, a constant from the leaf's
    /// declared range on the right, and `Equals` one time in ten, else `GreaterThan`.
    pub fn generate_boolean_expression<R: rand::Rng>(rng: &mut R) -> (kind: ExpressionKind)
        ensures
            is_fresh_boolean(kind),
    {
        let left = Self::generate_integer_expression(rng, None);
        let right = Self::generate_integer_expression(rng, left.get_range());
        Self::comparison(left, right, gen_ratio(rng, 1, 10))
    }

    /// The comparison of two nodes that have not been evaluated yet: an `Equals` where
    /// `equals` was drawn, else a `GreaterThan`.
    pub fn comparison(left: ExpressionKind, right: ExpressionKind, equals: bool) -> (kind:
        ExpressionKind)
        ensures
            kind == comparison_of(left, right, equals),
    {
        let left = Expression::new_box(left);
        let right = Expression::new_box(right);
        if equals {
            ExpressionKind::Equals { left, right }
        } else {
            ExpressionKind::GreaterThan { left, right }
        }
    }

    /// A constant number moved by a drawn step, in 32-bit two's complement.
    pub fn number_step(x: i32, step: i32) -> (moved: i32)
        requires
            -1 <= step <= 1,
        ensures
            moved == stepped(x, step as int),
    {
        x.wrapping_add(step)
    }

    /// What a health leaf becomes for a drawn index.
    pub fn health_step(&self, index: usize) -> (after: ExpressionKind)
        requires
            is_health_leaf(*self),
        ensures
            after == health_stepped(*self, index),
    {
        match self {
            ExpressionKind::Health => if index == 0 {
                ExpressionKind::ClosestEnemyHealth
            } else {
                ExpressionKind::ClosestAllyHealth
            },
            ExpressionKind::ClosestEnemyHealth => if index == 0 {
                ExpressionKind::Health
            } else {
                ExpressionKind::ClosestAllyHealth
            },
            _ => if index == 0 {
                ExpressionKind::Health
            } else {
                ExpressionKind::ClosestEnemyHealth
            },
        }
    }

    /// A leaf that has a partner after its rare draw: the partner where the draw hit,
    /// else the leaf itself.
    pub fn swapped_if(&self, hit: bool) -> (after: ExpressionKind)
        requires
            has_partner(*self),
        ensures
            after == if hit {
                partner(*self)
            } else {
                *self
            },
    {
        match self {
            ExpressionKind::AttackNearestEnemy => if hit {
                ExpressionKind::MoveToNearestEnemy
            } else {
                ExpressionKind::AttackNearestEnemy
            },
            ExpressionKind::MoveToNearestEnemy => if hit {
                ExpressionKind::AttackNearestEnemy
            } else {
                ExpressionKind::MoveToNearestEnemy
            },
            ExpressionKind::DistanceToNearestAlly => if hit {
                ExpressionKind::DistanceToCenter
            } else {
                ExpressionKind::DistanceToNearestAlly
            },
            _ => if hit {
                ExpressionKind::DistanceToNearestAlly
            } else {
                ExpressionKind::DistanceToCenter
            },
        }
    }

    /// The chance, as a ratio, of the draw that the step of an `If` takes, given the
    /// counters of its branches; `None` where it takes none.
    pub fn if_draw(ignore_sanity_checks: bool, then_used: usize, otherwise_used: usize) -> (odds:
        Option<(u32, u32)>)
        ensures
            odds == if_odds(ignore_sanity_checks, then_used, otherwise_used),
    {
        if !ignore_sanity_checks && (then_used == 0) != (otherwise_used == 0) {
            Some((1, 10))
        } else if !ignore_sanity_checks && (then_used == 0 || otherwise_used == 0) {
            None
        } else {
            Some((1, 2))
        }
    }

    /// What the step of an `If` does, given the counters of its branches and the
    /// outcome of its draw.
    pub fn if_step(
        ignore_sanity_checks: bool,
        then_used: usize,
        otherwise_used: usize,
        hit: bool,
    ) -> (step: IfStep)
        ensures
            step == if_step_of(ignore_sanity_checks, then_used, otherwise_used, hit),
    {
        if !ignore_sanity_checks && (then_used == 0) != (otherwise_used == 0) {
            if hit {
                IfStep::Collapse
            } else {
                IfStep::Condition
            }
        } else if !ignore_sanity_checks && (then_used == 0 || otherwise_used == 0) {
            IfStep::Condition
        } else if hit && then_used > 0 {
            IfStep::Then
        } else {
            IfStep::Otherwise
        }
    }

    /// The operand of a comparison that is mutated: the left one where the draw hit,
    /// else the right one.
    pub fn side_for(hit: bool) -> (side: Side)
        ensures
            side == if hit {
                Side::Left
            } else {
                Side::Right
            },
    {
        if hit {
            Side::Left
        } else {
            Side::Right
        }
    }

    /// The node that wraps `self`: an `If` that yields `self` where `condition` holds
    /// and `otherwise` where it does not, none of the three evaluated yet.
    pub fn wrapped(self, condition: ExpressionKind, otherwise: ExpressionKind) -> (node:
        ExpressionKind)
        ensures
            node == (ExpressionKind::If {
                condition: Box::new(unused(condition)),
                then: Box::new(unused(self)),
                otherwise: Box::new(unused(otherwise)),
            }),
    {
        ExpressionKind::If {
            then: Expression::new_box(self),
            otherwise: Expression::new_box(otherwise),
            condition: Expression::new_box(condition),
        }
    }

    /// Mutates the node in place, given its counter.  Every outcome is one that
    /// `mutates_to` admits.
    pub fn mutate<R: rand::Rng>(
        &mut self,
        rng: &mut R,
        times_used: usize,
        ignore_sanity_checks: bool,
    )
        ensures
            old(self).mutates_to(times_used, ignore_sanity_checks, *final(self)),
        decreases *old(self),
    {
        if (ignore_sanity_checks || times_used > 0) && gen_ratio(rng, 1, 5) {
            let otherwise = match self.get_type() {
                ValueType::Boolean => Self::generate_boolean_expression(rng),
                ValueType::Number => Self::generate_integer_expression(rng, self.get_range()),
                ValueType::Move => Self::generate_move_expression(rng),
            };
            let condition = Self::generate_boolean_expression(rng);
            *self = self.clone().wrapped(condition, otherwise);
            return ;
        }
        match self {
            ExpressionKind::ConstantNumber(t) => {
                *t = Self::number_step(*t, sample_uniform(rng, -1, 2));
            },
            ExpressionKind::If { condition, then, otherwise } => {
                let hit = match Self::if_draw(
                    ignore_sanity_checks,
                    then.times_used,
                    otherwise.times_used,
                ) {
                    Some(odds) => gen_ratio(rng, odds.0, odds.1),
                    None => false,
                };
                match Self::if_step(
                    ignore_sanity_checks,
                    then.times_used,
                    otherwise.times_used,
                    hit,
                ) {
                    IfStep::Collapse => {
                        *self = if then.times_used == 0 {
                            otherwise.kind.clone()
                        } else {
                            then.kind.clone()
                        }
                    },
                    IfStep::Condition => condition.mutate(rng, ignore_sanity_checks),
                    IfStep::Then => then.mutate(rng, ignore_sanity_checks),
                    IfStep::Otherwise => otherwise.mutate(rng, ignore_sanity_checks),
                }
            },
            ExpressionKind::ConstantBoolean(b) => *b = !*b,
            ExpressionKind::ConstantMove(_) => *self = Self::generate_move_expression(rng),
            ExpressionKind::Health => *self = self.health_step(gen_index(rng, 0, 2)),
            ExpressionKind::X => *self = ExpressionKind::Y,
            ExpressionKind::Y => *self = ExpressionKind::X,
            ExpressionKind::GreaterThan { left, right } => {
                match Self::side_for(gen_ratio(rng, 1, 2)) {
                    Side::Left => left.mutate(rng, ignore_sanity_checks),
                    Side::Right => right.mutate(rng, ignore_sanity_checks),
                }
            },
            ExpressionKind::Equals { left, right } => {
                match Self::side_for(gen_ratio(rng, 1, 2)) {
                    Side::Left => left.mutate(rng, ignore_sanity_checks),
                    Side::Right => right.mutate(rng, ignore_sanity_checks),
                }
            },
            ExpressionKind::AlliedSurroundingTiles => *self = ExpressionKind::EnemySurroundingTiles,
            ExpressionKind::EnemySurroundingTiles => *self = ExpressionKind::AlliedSurroundingTiles,
            ExpressionKind::AttackNearestEnemy => *self = self.swapped_if(gen_ratio(rng, 1, 20)),
            ExpressionKind::MoveToNearestEnemy => *self = self.swapped_if(gen_ratio(rng, 1, 20)),
            ExpressionKind::DistanceToNearestEnemy => (),
            ExpressionKind::DistanceToNearestAlly => *self = self.swapped_if(
                gen_ratio(rng, 1, 20),
            ),
            ExpressionKind::DistanceToCenter => *self = self.swapped_if(gen_ratio(rng, 1, 20)),
            ExpressionKind::ClosestEnemyHealth => *self = self.health_step(gen_index(rng, 0, 2)),
            ExpressionKind::ClosestAllyHealth => *self = self.health_step(gen_index(rng, 0, 2)),
        }
    }
}

impl Expression {
    /// Mutates the expression in place.  The root keeps its counter, and every outcome
    /// is one that `mutates_into` admits.
    pub fn mutate<R: rand::Rng>(&mut self, rng: &mut R, ignore_sanity_checks: bool)
        ensures
            old(self).mutates_into(ignore_sanity_checks, *final(self)),
        decreases *old(self),
    {
        self.kind.mutate(rng, self.times_used, ignore_sanity_checks)
    }

    /// The child of `self` and `other`: an `If` on a fresh random condition that yields
    /// `self` where the condition holds and `other` where it does not.
    pub fn crossover<R: rand::Rng>(self, other: Expression, rng: &mut R) -> (child: Expression)
        ensures
            child.times_used == 0,
            child.kind matches ExpressionKind::If { condition, then, otherwise } && *then == self
                && *otherwise == other && condition.times_used == 0 && is_fresh_boolean(
                condition.kind,
            ),
    {
        Expression::new(
            ExpressionKind::If {
                condition: Expression::new_box(ExpressionKind::generate_boolean_expression(rng)),
                then: Box::new(self),
                otherwise: Box::new(other),
            },
        )
    }
}

/// A fresh node has the type it was made for, and is well typed.
pub proof fn lemma_fresh_has_type(kind: ExpressionKind, t: ValueType, range: Option<(int, int)>)
    requires
        is_fresh(kind, t, range),
    ensures
        kind.type_spec() == t,
        kind.well_typed(),
{
    reveal_with_fuel(ExpressionKind::well_typed, 2);
}

/// Mutation keeps the static type.  Where both branches of every `If` of an
/// expression have the same type, every outcome of mutating it has the type of the
/// expression, and again both branches of every `If` in it have the same type.
pub proof fn lemma_mutation_keeps_type(
    before: ExpressionKind,
    times_used: usize,
    ignore_sanity_checks: bool,
    after: ExpressionKind,
)
    requires
        before.well_typed(),
        before.mutates_to(times_used, ignore_sanity_checks, after),
    ensures
        after.type_spec() == before.type_spec(),
        after.well_typed(),
    decreases before,
{
    if (ignore_sanity_checks || times_used > 0) && wraps(before, after) {
        let condition = after->condition;
        let otherwise = after->otherwise;
        lemma_fresh_has_type(condition.kind, ValueType::Boolean, None);
        lemma_fresh_has_type(otherwise.kind, before.type_spec(), before.range_spec());
    } else {
        match before {
            ExpressionKind::If { condition, then, otherwise } => {
                if after == otherwise.kind || after == then.kind {
                } else {
                    let c = after->condition;
                    let t = after->then;
                    let o = after->otherwise;
                    if t == then && o == otherwise && condition.mutates_into(
                        ignore_sanity_checks,
                        *c,
                    ) {
                        lemma_mutation_keeps_type(
                            condition.kind,
                            condition.times_used,
                            ignore_sanity_checks,
                            c.kind,
                        );
                    } else if c == condition && o == otherwise && then.mutates_into(
                        ignore_sanity_checks,
                        *t,
                    ) {
                        lemma_mutation_keeps_type(
                            then.kind,
                            then.times_used,
                            ignore_sanity_checks,
                            t.kind,
                        );
                    } else {
                        lemma_mutation_keeps_type(
                            otherwise.kind,
                            otherwise.times_used,
                            ignore_sanity_checks,
                            o.kind,
                        );
                    }
                }
            },
            ExpressionKind::GreaterThan { left, right } => {
                let l = after->GreaterThan_left;
                let r = after->GreaterThan_right;
                if r == right && left.mutates_into(ignore_sanity_checks, *l) {
                    lemma_mutation_keeps_type(
                        left.kind,
                        left.times_used,
                        ignore_sanity_checks,
                        l.kind,
                    );
                } else {
                    lemma_mutation_keeps_type(
                        right.kind,
                        right.times_used,
                        ignore_sanity_checks,
                        r.kind,
                    );
                }
            },
            ExpressionKind::Equals { left, right } => {
                let l = after->Equals_left;
                let r = after->Equals_right;
                if r == right && left.mutates_into(ignore_sanity_checks, *l) {
                    lemma_mutation_keeps_type(
                        left.kind,
                        left.times_used,
                        ignore_sanity_checks,
                        l.kind,
                    );
                } else {
                    lemma_mutation_keeps_type(
                        right.kind,
                        right.times_used,
                        ignore_sanity_checks,
                        r.kind,
                    );
                }
            },
            _ => {},
        }
    }
}

/// A fresh comparison evaluates to a boolean on every input.
pub proof fn lemma_fresh_boolean_has_value(
    kind: ExpressionKind,
    input: &TurnInput,
    id: usize,
    unit: &Unit,
)
    requires
        is_fresh_boolean(kind),
    ensures
        kind.eval_spec(input, id, unit) matches Ok(Value::Boolean(_)),
{
    reveal_with_fuel(ExpressionKind::eval_spec, 2);
}

/// The child of a crossover has the type of its first parent, and on every input it
/// evaluates to what the first parent or the second evaluates to on that input.
pub proof fn lemma_crossover_value(
    child: Expression,
    first: Expression,
    second: Expression,
    input: &TurnInput,
    id: usize,
    unit: &Unit,
)
    requires
        child.kind matches ExpressionKind::If { condition, then, otherwise } && *then == first
            && *otherwise == second && is_fresh_boolean(condition.kind),
    ensures
        child.type_spec() == first.type_spec(),
        child.eval_spec(input, id, unit) == first.eval_spec(input, id, unit) || child.eval_spec(
            input,
            id,
            unit,
        ) == second.eval_spec(input, id, unit),
{
    lemma_fresh_boolean_has_value(child.kind->condition.kind, input, id, unit);
}

} // verus!
