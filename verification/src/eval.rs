//! Evaluation of an expression for one unit in one turn.

use vstd::prelude::*;
use crate::expression::{unused, Expression, ExpressionKind, Move, Value};
use crate::logic_ext::{manhattan, Coords, CoordsExt, Direction, Team, TeamExt};
use crate::state::{find_obj, ObjDetails, TurnInput, Unit, MAX_COORD, MAX_HEALTH};

verus! {

/// The centre of the grid.
pub open spec fn centre() -> Coords {
    Coords(9, 9)
}

/// Where the evaluating unit stands.
pub open spec fn position(input: &TurnInput, id: usize) -> Coords {
    find_obj(input.objs@, id).unwrap().coords
}

/// Distance to the nearest member of `team`, 99 where the team has none.
pub open spec fn distance_to_nearest(input: &TurnInput, id: usize, team: Team) -> int {
    match input.nearest_spec(team, position(input, id)) {
        Some(o) => manhattan(o.coords, position(input, id)) as int,
        None => 99,
    }
}

/// Health of the nearest member of `team`, 0 where the team has none or the nearest
/// is no unit.
pub open spec fn health_of_nearest(input: &TurnInput, id: usize, team: Team) -> int {
    match input.nearest_spec(team, position(input, id)) {
        Some(o) => match o.details {
            ObjDetails::Unit(u) => u.health as int,
            ObjDetails::Terrain => 0,
        },
        None => 0,
    }
}

/// Direction from the evaluating unit to the nearest enemy, East where there is none.
pub open spec fn direction_to_enemy(input: &TurnInput, id: usize) -> Direction {
    match input.nearest_spec(input.team.opposite_spec(), position(input, id)) {
        Some(o) => position(input, id).direction_spec(o.coords),
        None => Direction::East,
    }
}

/// What two evaluated operands give under `>`: defined on two numbers only.
pub open spec fn greater_than(a: Value, b: Value) -> Result<Value, ()> {
    match (a, b) {
        (Value::Number(x), Value::Number(y)) => Ok(Value::Boolean(x > y)),
        _ => Err(()),
    }
}

/// What two evaluated operands give under `==`: defined on two numbers and on two moves.
pub open spec fn equal_to(a: Value, b: Value) -> Result<Value, ()> {
    match (a, b) {
        (Value::Number(x), Value::Number(y)) => Ok(Value::Boolean(x == y)),
        (Value::Move(x), Value::Move(y)) => Ok(Value::Boolean(x == y)),
        _ => Err(()),
    }
}

/// The node after one evaluation: its counter has gone up by one, and the children
/// that the evaluation reaches have been evaluated in turn.
pub open spec fn used_once(e: Expression, input: &TurnInput, id: usize, unit: &Unit) -> Expression
    decreases e,
{
    Expression {
        kind: e.kind.evaluated(input, id, unit),
        times_used: (e.times_used + 1) as usize,
    }
}

impl ExpressionKind {
    /// The value of a node, or `Err(())` for a type error: an `If` whose condition is
    /// no boolean, or a comparison whose operands do not fit it.  An error in a
    /// sub-expression that is evaluated is the error of the whole.
    pub open spec fn eval_spec(self, input: &TurnInput, id: usize, unit: &Unit) -> Result<Value, ()>
        decreases self,
    {
        match self {
            ExpressionKind::If { condition, then, otherwise } => match condition.kind.eval_spec(
                input,
                id,
                unit,
            ) {
                Ok(Value::Boolean(true)) => then.kind.eval_spec(input, id, unit),
                Ok(Value::Boolean(false)) => otherwise.kind.eval_spec(input, id, unit),
                _ => Err(()),
            },
            ExpressionKind::ConstantNumber(n) => Ok(Value::Number(n)),
            ExpressionKind::ConstantBoolean(b) => Ok(Value::Boolean(b)),
            ExpressionKind::ConstantMove(m) => Ok(Value::Move(m)),
            ExpressionKind::Health => Ok(Value::Number(unit.health as i32)),
            ExpressionKind::X => Ok(Value::Number(position(input, id).0 as i32)),
            ExpressionKind::Y => Ok(Value::Number(position(input, id).1 as i32)),
            ExpressionKind::GreaterThan { left, right } => match left.kind.eval_spec(
                input,
                id,
                unit,
            ) {
                Ok(a) => match right.kind.eval_spec(input, id, unit) {
                    Ok(b) => greater_than(a, b),
                    Err(_) => Err(()),
                },
                Err(_) => Err(()),
            },
            ExpressionKind::Equals { left, right } => match left.kind.eval_spec(input, id, unit) {
                Ok(a) => match right.kind.eval_spec(input, id, unit) {
                    Ok(b) => equal_to(a, b),
                    Err(_) => Err(()),
                },
                Err(_) => Err(()),
            },
            ExpressionKind::AlliedSurroundingTiles => Ok(
                Value::Number(input.count_adjacent_spec(position(input, id), true) as i32),
            ),
            ExpressionKind::EnemySurroundingTiles => Ok(
                Value::Number(input.count_adjacent_spec(position(input, id), false) as i32),
            ),
            ExpressionKind::AttackNearestEnemy => Ok(
                Value::Move(Move::Attack(direction_to_enemy(input, id))),
            ),
            ExpressionKind::MoveToNearestEnemy => Ok(
                Value::Move(Move::Move(direction_to_enemy(input, id))),
            ),
            ExpressionKind::DistanceToNearestEnemy => Ok(
                Value::Number(distance_to_nearest(input, id, input.team.opposite_spec()) as i32),
            ),
            ExpressionKind::DistanceToNearestAlly => Ok(
                Value::Number(distance_to_nearest(input, id, input.team) as i32),
            ),
            ExpressionKind::DistanceToCenter => Ok(
                Value::Number(manhattan(position(input, id), centre()) as i32),
            ),
            ExpressionKind::ClosestEnemyHealth => Ok(
                Value::Number(health_of_nearest(input, id, input.team.opposite_spec()) as i32),
            ),
            ExpressionKind::ClosestAllyHealth => Ok(
                Value::Number(health_of_nearest(input, id, input.team) as i32),
            ),
        }
    }

    /// The node after one evaluation: the children that the evaluation reaches have
    /// been evaluated in turn, the others are as they were.
    pub open spec fn evaluated(self, input: &TurnInput, id: usize, unit: &Unit) -> ExpressionKind
        decreases self,
    {
        match self {
            ExpressionKind::If { condition, then, otherwise } => match condition.kind.eval_spec(
                input,
                id,
                unit,
            ) {
                Ok(Value::Boolean(true)) => ExpressionKind::If {
                    condition: Box::new(used_once(*condition, input, id, unit)),
                    then: Box::new(used_once(*then, input, id, unit)),
                    otherwise,
                },
                Ok(Value::Boolean(false)) => ExpressionKind::If {
                    condition: Box::new(used_once(*condition, input, id, unit)),
                    then,
                    otherwise: Box::new(used_once(*otherwise, input, id, unit)),
                },
                _ => ExpressionKind::If {
                    condition: Box::new(used_once(*condition, input, id, unit)),
                    then,
                    otherwise,
                },
            },
            ExpressionKind::GreaterThan { left, right } => ExpressionKind::GreaterThan {
                left: Box::new(used_once(*left, input, id, unit)),
                right: if left.kind.eval_spec(input, id, unit) is Ok {
                    Box::new(used_once(*right, input, id, unit))
                } else {
                    right
                },
            },
            ExpressionKind::Equals { left, right } => ExpressionKind::Equals {
                left: Box::new(used_once(*left, input, id, unit)),
                right: if left.kind.eval_spec(input, id, unit) is Ok {
                    Box::new(used_once(*right, input, id, unit))
                } else {
                    right
                },
            },
            other => other,
        }
    }

    /// Every counter in the tree below this node is below `limit`.
    pub open spec fn counters_below(self, limit: nat) -> bool
        decreases self,
    {
        match self {
            ExpressionKind::If { condition, then, otherwise } => {
                &&& condition.times_used < limit
                &&& then.times_used < limit
                &&& otherwise.times_used < limit
                &&& condition.kind.counters_below(limit)
                &&& then.kind.counters_below(limit)
                &&& otherwise.kind.counters_below(limit)
            },
            ExpressionKind::GreaterThan { left, right } => {
                &&& left.times_used < limit
                &&& right.times_used < limit
                &&& left.kind.counters_below(limit)
                &&& right.kind.counters_below(limit)
            },
            ExpressionKind::Equals { left, right } => {
                &&& left.times_used < limit
                &&& right.times_used < limit
                &&& left.kind.counters_below(limit)
                &&& right.kind.counters_below(limit)
            },
            _ => true,
        }
    }
}

impl Expression {
    pub open spec fn eval_spec(self, input: &TurnInput, id: usize, unit: &Unit) -> Result<Value, ()> {
        self.kind.eval_spec(input, id, unit)
    }

    /// The tree after one evaluation: the counter of every node that the evaluation
    /// reaches has gone up by one, and nothing else has changed.
    pub open spec fn evaluated(self, input: &TurnInput, id: usize, unit: &Unit) -> Expression {
        used_once(self, input, id, unit)
    }

    /// Every counter in the tree is below `limit`.
    pub open spec fn counters_below(self, limit: nat) -> bool {
        self.times_used < limit && self.kind.counters_below(limit)
    }

    /// Evaluates the expression for the unit `id`, whose details are `unit`, and counts
    /// the evaluation in every node it reaches.
    pub fn eval(&mut self, input: &TurnInput, id: usize, unit: &Unit) -> (result: Result<Value, ()>)
        requires
            old(self).counters_below(usize::MAX as nat),
            input.well_formed(),
            input.find_spec(id) is Some,
            unit.health <= MAX_HEALTH,
        ensures
            result == old(self).eval_spec(input, id, unit),
            *final(self) == old(self).evaluated(input, id, unit),
        decreases *old(self),
    {
        self.times_used += 1;
        self.kind.eval(input, id, unit)
    }
}

impl ExpressionKind {
    pub fn eval(&mut self, input: &TurnInput, id: usize, unit: &Unit) -> (result: Result<Value, ()>)
        requires
            old(self).counters_below(usize::MAX as nat),
            input.well_formed(),
            input.find_spec(id) is Some,
            unit.health <= MAX_HEALTH,
        ensures
            result == old(self).eval_spec(input, id, unit),
            *final(self) == old(self).evaluated(input, id, unit),
        decreases *old(self),
    {
        let here = match input.find(id) {
            Some(o) => o.coords,
            None => Coords(0, 0),
        };
        assert(here == position(input, id));
        assert(here.0 <= MAX_COORD && here.1 <= MAX_COORD);
        match self {
            ExpressionKind::If { condition, then, otherwise } => {
                match condition.eval(input, id, unit) {
                    Ok(Value::Boolean(true)) => then.eval(input, id, unit),
                    Ok(Value::Boolean(false)) => otherwise.eval(input, id, unit),
                    _ => Err(()),
                }
            },
            ExpressionKind::ConstantNumber(n) => Ok(Value::Number(*n)),
            ExpressionKind::ConstantBoolean(b) => Ok(Value::Boolean(*b)),
            ExpressionKind::ConstantMove(m) => Ok(Value::Move(*m)),
            ExpressionKind::Health => Ok(Value::Number(unit.health as i32)),
            ExpressionKind::X => Ok(Value::Number(here.0 as i32)),
            ExpressionKind::Y => Ok(Value::Number(here.1 as i32)),
            ExpressionKind::GreaterThan { left, right } => {
                match left.eval(input, id, unit) {
                    Ok(a) => match right.eval(input, id, unit) {
                        Ok(b) => match (a, b) {
                            (Value::Number(x), Value::Number(y)) => Ok(Value::Boolean(x > y)),
                            _ => Err(()),
                        },
                        Err(_) => Err(()),
                    },
                    Err(_) => Err(()),
                }
            },
            ExpressionKind::Equals { left, right } => {
                match left.eval(input, id, unit) {
                    Ok(a) => match right.eval(input, id, unit) {
                        Ok(b) => match (a, b) {
                            (Value::Number(x), Value::Number(y)) => Ok(Value::Boolean(x == y)),
                            (Value::Move(x), Value::Move(y)) => Ok(Value::Boolean(x == y)),
                            _ => Err(()),
                        },
                        Err(_) => Err(()),
                    },
                    Err(_) => Err(()),
                }
            },
            ExpressionKind::AlliedSurroundingTiles => Ok(
                Value::Number(input.count_adjacent(here, true) as i32),
            ),
            ExpressionKind::EnemySurroundingTiles => Ok(
                Value::Number(input.count_adjacent(here, false) as i32),
            ),
            ExpressionKind::AttackNearestEnemy => Ok(
                Value::Move(Move::Attack(direction_to_nearest_enemy(input, here))),
            ),
            ExpressionKind::MoveToNearestEnemy => Ok(
                Value::Move(Move::Move(direction_to_nearest_enemy(input, here))),
            ),
            ExpressionKind::DistanceToNearestEnemy => Ok(
                Value::Number(distance_to_nearest_of(input, here, input.team.opposite())),
            ),
            ExpressionKind::DistanceToNearestAlly => Ok(
                Value::Number(distance_to_nearest_of(input, here, input.team)),
            ),
            ExpressionKind::DistanceToCenter => Ok(
                Value::Number(here.distance(Coords(9, 9)) as i32),
            ),
            ExpressionKind::ClosestEnemyHealth => Ok(
                Value::Number(health_of_nearest_of(input, here, input.team.opposite())),
            ),
            ExpressionKind::ClosestAllyHealth => Ok(
                Value::Number(health_of_nearest_of(input, here, input.team)),
            ),
        }
    }
}

impl Expression {
    /// The same tree with every counter at zero.
    pub open spec fn cleared(self) -> Expression {
        unused(self.kind.cleared())
    }

    /// Sets the counter of every node to zero.
    pub fn clear_times_used(&mut self)
        ensures
            *final(self) == old(self).cleared(),
        decreases *old(self),
    {
        self.times_used = 0;
        self.kind.clear_times_used();
    }
}

impl ExpressionKind {
    /// The same node with every counter below it at zero.
    pub open spec fn cleared(self) -> ExpressionKind
        decreases self,
    {
        match self {
            ExpressionKind::If { condition, then, otherwise } => ExpressionKind::If {
                condition: Box::new(unused(condition.kind.cleared())),
                then: Box::new(unused(then.kind.cleared())),
                otherwise: Box::new(unused(otherwise.kind.cleared())),
            },
            ExpressionKind::GreaterThan { left, right } => ExpressionKind::GreaterThan {
                left: Box::new(unused(left.kind.cleared())),
                right: Box::new(unused(right.kind.cleared())),
            },
            ExpressionKind::Equals { left, right } => ExpressionKind::Equals {
                left: Box::new(unused(left.kind.cleared())),
                right: Box::new(unused(right.kind.cleared())),
            },
            other => other,
        }
    }

    /// Sets the counter of every node below this one to zero.
    pub fn clear_times_used(&mut self)
        ensures
            *final(self) == old(self).cleared(),
        decreases *old(self),
    {
        match self {
            ExpressionKind::If { condition, then, otherwise } => {
                condition.clear_times_used();
                then.clear_times_used();
                otherwise.clear_times_used();
            },
            ExpressionKind::Equals { left, right } => {
                left.clear_times_used();
                right.clear_times_used();
            },
            ExpressionKind::GreaterThan { left, right } => {
                left.clear_times_used();
                right.clear_times_used();
            },
            _ => (),
        }
    }
}

/// The value of an expression does not depend on its counters.
pub proof fn lemma_value_ignores_counters(
    kind: ExpressionKind,
    input: &TurnInput,
    id: usize,
    unit: &Unit,
)
    ensures
        kind.cleared().eval_spec(input, id, unit) == kind.eval_spec(input, id, unit),
    decreases kind,
{
    match kind {
        ExpressionKind::If { condition, then, otherwise } => {
            lemma_value_ignores_counters(condition.kind, input, id, unit);
            lemma_value_ignores_counters(then.kind, input, id, unit);
            lemma_value_ignores_counters(otherwise.kind, input, id, unit);
        },
        ExpressionKind::GreaterThan { left, right } => {
            lemma_value_ignores_counters(left.kind, input, id, unit);
            lemma_value_ignores_counters(right.kind, input, id, unit);
        },
        ExpressionKind::Equals { left, right } => {
            lemma_value_ignores_counters(left.kind, input, id, unit);
            lemma_value_ignores_counters(right.kind, input, id, unit);
        },
        _ => {},
    }
}

/// After the counters have been cleared, one evaluation of an `If` leaves the branch
/// that the condition does not select exactly as clearing left it: every counter in
/// it is still zero.
pub proof fn lemma_unselected_branch_stays_unused(
    condition: Expression,
    then: Expression,
    otherwise: Expression,
    used: usize,
    input: &TurnInput,
    id: usize,
    unit: &Unit,
)
    ensures
        ({
            let node = Expression {
                kind: ExpressionKind::If {
                    condition: Box::new(condition),
                    then: Box::new(then),
                    otherwise: Box::new(otherwise),
                },
                times_used: used,
            };
            let after = node.cleared().evaluated(input, id, unit);
            &&& after.times_used == 1
            &&& after.kind matches ExpressionKind::If { then: t, otherwise: o, .. }
            &&& (condition.eval_spec(input, id, unit) != Ok::<Value, ()>(Value::Boolean(true))
                ==> *t == then.cleared())
            &&& (condition.eval_spec(input, id, unit) != Ok::<Value, ()>(Value::Boolean(false))
                ==> *o == otherwise.cleared())
        }),
{
    lemma_value_ignores_counters(condition.kind, input, id, unit);
    let kind = ExpressionKind::If {
        condition: Box::new(condition),
        then: Box::new(then),
        otherwise: Box::new(otherwise),
    };
    let node = Expression { kind, times_used: used };
    assert(node.cleared().kind == ExpressionKind::If {
        condition: Box::new(condition.cleared()),
        then: Box::new(then.cleared()),
        otherwise: Box::new(otherwise.cleared()),
    });
    assert(condition.cleared().kind.eval_spec(input, id, unit) == condition.eval_spec(
        input,
        id,
        unit,
    ));
}

impl ExpressionKind {
    /// Whether every counter in the tree below this node is below `limit`.
    pub fn counters_are_below(&self, limit: usize) -> (ok: bool)
        ensures
            ok == self.counters_below(limit as nat),
        decreases *self,
    {
        match self {
            ExpressionKind::If { condition, then, otherwise } => {
                condition.times_used < limit && then.times_used < limit && otherwise.times_used
                    < limit && condition.kind.counters_are_below(limit)
                    && then.kind.counters_are_below(limit) && otherwise.kind.counters_are_below(
                    limit,
                )
            },
            ExpressionKind::GreaterThan { left, right } => {
                left.times_used < limit && right.times_used < limit
                    && left.kind.counters_are_below(limit) && right.kind.counters_are_below(limit)
            },
            ExpressionKind::Equals { left, right } => {
                left.times_used < limit && right.times_used < limit
                    && left.kind.counters_are_below(limit) && right.kind.counters_are_below(limit)
            },
            _ => true,
        }
    }
}

impl Expression {
    /// Whether every counter in the tree is below `limit`.
    pub fn counters_are_below(&self, limit: usize) -> (ok: bool)
        ensures
            ok == self.counters_below(limit as nat),
    {
        self.times_used < limit && self.kind.counters_are_below(limit)
    }
}

fn direction_to_nearest_enemy(input: &TurnInput, here: Coords) -> (dir: Direction)
    requires
        input.well_formed(),
        here.0 <= MAX_COORD,
        here.1 <= MAX_COORD,
    ensures
        dir == match input.nearest_spec(input.team.opposite_spec(), here) {
            Some(o) => here.direction_spec(o.coords),
            None => Direction::East,
        },
{
    match input.nearest(input.team.opposite(), here) {
        Some(o) => here.direction(o.coords),
        None => Direction::East,
    }
}

fn distance_to_nearest_of(input: &TurnInput, here: Coords, team: Team) -> (d: i32)
    requires
        input.well_formed(),
        here.0 <= MAX_COORD,
        here.1 <= MAX_COORD,
    ensures
        d == match input.nearest_spec(team, here) {
            Some(o) => manhattan(o.coords, here) as int,
            None => 99,
        },
{
    match input.nearest(team, here) {
        Some(o) => o.coords.distance(here) as i32,
        None => 99,
    }
}

fn health_of_nearest_of(input: &TurnInput, here: Coords, team: Team) -> (h: i32)
    requires
        input.well_formed(),
        here.0 <= MAX_COORD,
        here.1 <= MAX_COORD,
    ensures
        h == match input.nearest_spec(team, here) {
            Some(o) => match o.details {
                ObjDetails::Unit(u) => u.health as int,
                ObjDetails::Terrain => 0,
            },
            None => 0,
        },
{
    match input.nearest(team, here) {
        Some(o) => match o.details {
            ObjDetails::Unit(u) => u.health as i32,
            ObjDetails::Terrain => 0,
        },
        None => 0,
    }
}

} // verus!
