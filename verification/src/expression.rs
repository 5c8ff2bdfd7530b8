//! The expression language in which a bot's logic is written: a typed tree that is
//! evaluated once per unit and turn and yields a number, a boolean or a move.

use vstd::prelude::*;
use vstd::std_specs::cmp::PartialEqSpecImpl;
use crate::logic_ext::Direction;

verus! {

/// What a unit does in a turn.
#[derive(Debug, Copy, Clone, PartialEq, Eq, Structural)]
pub enum Move {
    Attack(Direction),
    Move(Direction),
}

/// The static type of an expression.
#[derive(Debug, Copy, Clone, PartialEq, Eq, Structural)]
pub enum ValueType {
    Number,
    Boolean,
    Move,
}

/// The result of evaluating an expression.
#[derive(Debug, Copy, Clone, PartialEq, Eq, Structural)]
pub enum Value {
    Number(i32),
    Boolean(bool),
    Move(Move),
}

/// A node of the tree together with the number of times it has been evaluated since
/// the counters were last cleared.
#[derive(Debug)]
pub struct Expression {
    pub kind: ExpressionKind,
    pub times_used: usize,
}

#[derive(Debug)]
pub enum ExpressionKind {
    If { condition: Box<Expression>, then: Box<Expression>, otherwise: Box<Expression> },
    ConstantNumber(i32),
    ConstantBoolean(bool),
    ConstantMove(Move),
    AlliedSurroundingTiles,
    EnemySurroundingTiles,
    AttackNearestEnemy,
    MoveToNearestEnemy,
    DistanceToNearestEnemy,
    DistanceToNearestAlly,
    DistanceToCenter,
    Health,
    X,
    Y,
    GreaterThan { left: Box<Expression>, right: Box<Expression> },
    Equals { left: Box<Expression>, right: Box<Expression> },
    ClosestEnemyHealth,
    ClosestAllyHealth,
}

/// The node of the given kind that has not been evaluated yet.
pub open spec fn unused(kind: ExpressionKind) -> Expression {
    Expression { kind, times_used: 0 }
}

impl Clone for Expression {
    fn clone(&self) -> (copy: Expression)
        ensures
            copy == *self,
        decreases *self,
    {
        Expression { kind: self.kind.clone(), times_used: self.times_used }
    }
}

impl Clone for ExpressionKind {
    fn clone(&self) -> (copy: ExpressionKind)
        ensures
            copy == *self,
        decreases *self,
    {
        match self {
            ExpressionKind::If { condition, then, otherwise } => ExpressionKind::If {
                condition: Box::new((&**condition).clone()),
                then: Box::new((&**then).clone()),
                otherwise: Box::new((&**otherwise).clone()),
            },
            ExpressionKind::ConstantNumber(n) => ExpressionKind::ConstantNumber(*n),
            ExpressionKind::ConstantBoolean(b) => ExpressionKind::ConstantBoolean(*b),
            ExpressionKind::ConstantMove(m) => ExpressionKind::ConstantMove(*m),
            ExpressionKind::AlliedSurroundingTiles => ExpressionKind::AlliedSurroundingTiles,
            ExpressionKind::EnemySurroundingTiles => ExpressionKind::EnemySurroundingTiles,
            ExpressionKind::AttackNearestEnemy => ExpressionKind::AttackNearestEnemy,
            ExpressionKind::MoveToNearestEnemy => ExpressionKind::MoveToNearestEnemy,
            ExpressionKind::DistanceToNearestEnemy => ExpressionKind::DistanceToNearestEnemy,
            ExpressionKind::DistanceToNearestAlly => ExpressionKind::DistanceToNearestAlly,
            ExpressionKind::DistanceToCenter => ExpressionKind::DistanceToCenter,
            ExpressionKind::Health => ExpressionKind::Health,
            ExpressionKind::X => ExpressionKind::X,
            ExpressionKind::Y => ExpressionKind::Y,
            ExpressionKind::GreaterThan { left, right } => ExpressionKind::GreaterThan {
                left: Box::new((&**left).clone()),
                right: Box::new((&**right).clone()),
            },
            ExpressionKind::Equals { left, right } => ExpressionKind::Equals {
                left: Box::new((&**left).clone()),
                right: Box::new((&**right).clone()),
            },
            ExpressionKind::ClosestEnemyHealth => ExpressionKind::ClosestEnemyHealth,
            ExpressionKind::ClosestAllyHealth => ExpressionKind::ClosestAllyHealth,
        }
    }
}

impl PartialEq for Expression {
    fn eq(&self, other: &Expression) -> (same: bool) {
        self.times_used == other.times_used && self.kind.same_as(&other.kind)
    }
}

impl PartialEqSpecImpl for Expression {
    open spec fn obeys_eq_spec() -> bool {
        true
    }

    open spec fn eq_spec(&self, other: &Expression) -> bool {
        *self == *other
    }
}

impl Eq for Expression {

}

impl PartialEq for ExpressionKind {
    fn eq(&self, other: &ExpressionKind) -> (same: bool) {
        self.same_as(other)
    }
}

impl PartialEqSpecImpl for ExpressionKind {
    open spec fn obeys_eq_spec() -> bool {
        true
    }

    open spec fn eq_spec(&self, other: &ExpressionKind) -> bool {
        *self == *other
    }
}

impl Eq for ExpressionKind {

}

impl Expression {
    /// A node that has not been evaluated yet.
    pub fn new(kind: ExpressionKind) -> (e: Expression)
        ensures
            e == unused(kind),
    {
        Expression { kind, times_used: 0 }
    }

    /// `new`, boxed.
    pub fn new_box(kind: ExpressionKind) -> (e: Box<Expression>)
        ensures
            *e == unused(kind),
    {
        Box::new(Self::new(kind))
    }

    /// Structural equality, counters included.
    pub fn same_as(&self, other: &Expression) -> (same: bool)
        ensures
            same == (*self == *other),
        decreases *self,
    {
        self.times_used == other.times_used && self.kind.same_as(&other.kind)
    }

    pub open spec fn type_spec(self) -> ValueType {
        self.kind.type_spec()
    }

    pub open spec fn well_typed(self) -> bool {
        self.kind.well_typed()
    }
}

impl ExpressionKind {
    /// The static type: that of the `then` branch for an `If`, boolean for a
    /// comparison, and fixed for each leaf.
    pub open spec fn type_spec(self) -> ValueType
        decreases self,
    {
        match self {
            ExpressionKind::If { then, .. } => then.kind.type_spec(),
            ExpressionKind::ConstantBoolean(_) => ValueType::Boolean,
            ExpressionKind::GreaterThan { .. } => ValueType::Boolean,
            ExpressionKind::Equals { .. } => ValueType::Boolean,
            ExpressionKind::ConstantMove(_) => ValueType::Move,
            ExpressionKind::AttackNearestEnemy => ValueType::Move,
            ExpressionKind::MoveToNearestEnemy => ValueType::Move,
            _ => ValueType::Number,
        }
    }

    /// Both branches of every `If` have the same static type.
    pub open spec fn well_typed(self) -> bool
        decreases self,
    {
        match self {
            ExpressionKind::If { condition, then, otherwise } => {
                &&& then.kind.type_spec() == otherwise.kind.type_spec()
                &&& condition.kind.well_typed()
                &&& then.kind.well_typed()
                &&& otherwise.kind.well_typed()
            },
            ExpressionKind::GreaterThan { left, right } => left.kind.well_typed()
                && right.kind.well_typed(),
            ExpressionKind::Equals { left, right } => left.kind.well_typed()
                && right.kind.well_typed(),
            _ => true,
        }
    }

    /// The half-open interval `[start, end)` in which a number-typed node is declared
    /// to lie, where one is declared.
    pub open spec fn range_spec(self) -> Option<(int, int)> {
        match self {
            ExpressionKind::Health => Some((1, 11)),
            ExpressionKind::X => Some((0, 20)),
            ExpressionKind::Y => Some((0, 20)),
            ExpressionKind::ConstantNumber(n) => Some((n as int, n + 1)),
            ExpressionKind::DistanceToCenter => Some((0, 10)),
            ExpressionKind::DistanceToNearestAlly => Some((0, 10)),
            ExpressionKind::DistanceToNearestEnemy => Some((0, 10)),
            ExpressionKind::AlliedSurroundingTiles => Some((0, 5)),
            ExpressionKind::EnemySurroundingTiles => Some((0, 5)),
            _ => None,
        }
    }

    pub fn get_type(&self) -> (t: ValueType)
        ensures
            t == self.type_spec(),
        decreases *self,
    {
        match self {
            ExpressionKind::If { then, .. } => then.kind.get_type(),
            ExpressionKind::ConstantNumber(_) => ValueType::Number,
            ExpressionKind::ConstantBoolean(_) => ValueType::Boolean,
            ExpressionKind::ConstantMove(_) => ValueType::Move,
            ExpressionKind::Health => ValueType::Number,
            ExpressionKind::X => ValueType::Number,
            ExpressionKind::Y => ValueType::Number,
            ExpressionKind::GreaterThan { .. } => ValueType::Boolean,
            ExpressionKind::Equals { .. } => ValueType::Boolean,
            ExpressionKind::AlliedSurroundingTiles => ValueType::Number,
            ExpressionKind::EnemySurroundingTiles => ValueType::Number,
            ExpressionKind::AttackNearestEnemy => ValueType::Move,
            ExpressionKind::MoveToNearestEnemy => ValueType::Move,
            ExpressionKind::DistanceToNearestEnemy => ValueType::Number,
            ExpressionKind::DistanceToNearestAlly => ValueType::Number,
            ExpressionKind::DistanceToCenter => ValueType::Number,
            ExpressionKind::ClosestAllyHealth => ValueType::Number,
            ExpressionKind::ClosestEnemyHealth => ValueType::Number,
        }
    }

    pub fn get_range(&self) -> (r: Option<(i64, i64)>)
        ensures
            r matches Some(p) ==> self.range_spec() == Some((p.0 as int, p.1 as int)),
            r is None ==> self.range_spec() is None,
    {
        match self {
            ExpressionKind::Health => Some((1, 11)),
            ExpressionKind::X => Some((0, 20)),
            ExpressionKind::Y => Some((0, 20)),
            ExpressionKind::ConstantNumber(m) => {
                let start: i64 = *m as i64;
                Some((start, start + 1))
            },
            ExpressionKind::DistanceToCenter
            | ExpressionKind::DistanceToNearestAlly
            | ExpressionKind::DistanceToNearestEnemy => Some((0, 10)),
            ExpressionKind::AlliedSurroundingTiles | ExpressionKind::EnemySurroundingTiles => Some(
                (0, 5),
            ),
            _ => None,
        }
    }

    /// Structural equality, the counters of the children included.
    pub fn same_as(&self, other: &ExpressionKind) -> (same: bool)
        ensures
            same == (*self == *other),
        decreases *self,
    {
        match (self, other) {
            (
                ExpressionKind::If { condition: c1, then: t1, otherwise: o1 },
                ExpressionKind::If { condition: c2, then: t2, otherwise: o2 },
            ) => (&**c1).same_as(&**c2) && (&**t1).same_as(&**t2) && (&**o1).same_as(&**o2),
            (ExpressionKind::ConstantNumber(a), ExpressionKind::ConstantNumber(b)) => *a == *b,
            (ExpressionKind::ConstantBoolean(a), ExpressionKind::ConstantBoolean(b)) => *a == *b,
            (ExpressionKind::ConstantMove(a), ExpressionKind::ConstantMove(b)) => *a == *b,
            (
                ExpressionKind::AlliedSurroundingTiles,
                ExpressionKind::AlliedSurroundingTiles,
            ) => true,
            (ExpressionKind::EnemySurroundingTiles, ExpressionKind::EnemySurroundingTiles) => true,
            (ExpressionKind::AttackNearestEnemy, ExpressionKind::AttackNearestEnemy) => true,
            (ExpressionKind::MoveToNearestEnemy, ExpressionKind::MoveToNearestEnemy) => true,
            (
                ExpressionKind::DistanceToNearestEnemy,
                ExpressionKind::DistanceToNearestEnemy,
            ) => true,
            (ExpressionKind::DistanceToNearestAlly, ExpressionKind::DistanceToNearestAlly) => true,
            (ExpressionKind::DistanceToCenter, ExpressionKind::DistanceToCenter) => true,
            (ExpressionKind::Health, ExpressionKind::Health) => true,
            (ExpressionKind::X, ExpressionKind::X) => true,
            (ExpressionKind::Y, ExpressionKind::Y) => true,
            (
                ExpressionKind::GreaterThan { left: l1, right: r1 },
                ExpressionKind::GreaterThan { left: l2, right: r2 },
            ) => (&**l1).same_as(&**l2) && (&**r1).same_as(&**r2),
            (
                ExpressionKind::Equals { left: l1, right: r1 },
                ExpressionKind::Equals { left: l2, right: r2 },
            ) => (&**l1).same_as(&**l2) && (&**r1).same_as(&**r2),
            (ExpressionKind::ClosestEnemyHealth, ExpressionKind::ClosestEnemyHealth) => true,
            (ExpressionKind::ClosestAllyHealth, ExpressionKind::ClosestAllyHealth) => true,
            _ => false,
        }
    }
}

} // verus!
