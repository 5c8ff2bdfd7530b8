//! Simplification: a rewrite of the tree by identity, by declared ranges and by
//! constant conditions.

use vstd::prelude::*;
use crate::expression::{unused, Expression, ExpressionKind, Value};
use crate::state::{TurnInput, Unit};

verus! {

/// Two half-open intervals that have no number in common.
pub open spec fn disjoint(a: (int, int), b: (int, int)) -> bool {
    !(a.0 < b.1 && b.0 < a.1)
}

/// Both operands have a declared range, and the two ranges are disjoint.
pub open spec fn ranges_disjoint(left: ExpressionKind, right: ExpressionKind) -> bool {
    match (left.range_spec(), right.range_spec()) {
        (Some(a), Some(b)) => disjoint(a, b),
        _ => false,
    }
}

/// Both operands have a declared range, and all of `high`'s lies at or above the end
/// of `low`'s.
pub open spec fn range_at_or_above(high: ExpressionKind, low: ExpressionKind) -> bool {
    match (high.range_spec(), low.range_spec()) {
        (Some(a), Some(b)) => a.0 >= b.1,
        _ => false,
    }
}

impl ExpressionKind {
    /// One pass of simplification.
    ///
    /// - An `If` whose branches are equal becomes the simplified branch.  Otherwise an
    ///   `If` whose condition is a constant becomes the simplified branch that the
    ///   constant selects.  Any other `If` has its three children simplified.
    /// - An `Equals` of equal operands becomes `true`; one whose operands have disjoint
    ///   declared ranges becomes `false`; any other has its operands simplified.
    /// - A `GreaterThan` of operands of equal kind becomes `true`; one whose left range
    ///   starts at or above the end of the right range becomes `true`; one whose right
    ///   range starts at or above the end of the left range becomes `false`; any other
    ///   has its operands simplified.
    /// - A leaf stays as it is.
    ///
    /// Every child that is rebuilt has its counter at zero.
    pub open spec fn simplify_spec(self) -> ExpressionKind
        decreases self,
    {
        match self {
            ExpressionKind::If { condition, then, otherwise } => {
                if then == otherwise {
                    then.kind.simplify_spec()
                } else {
                    match condition.kind {
                        ExpressionKind::ConstantBoolean(true) => then.kind.simplify_spec(),
                        ExpressionKind::ConstantBoolean(false) => otherwise.kind.simplify_spec(),
                        _ => ExpressionKind::If {
                            condition: Box::new(unused(condition.kind.simplify_spec())),
                            then: Box::new(unused(then.kind.simplify_spec())),
                            otherwise: Box::new(unused(otherwise.kind.simplify_spec())),
                        },
                    }
                }
            },
            ExpressionKind::Equals { left, right } => {
                if left == right {
                    ExpressionKind::ConstantBoolean(true)
                } else if ranges_disjoint(left.kind, right.kind) {
                    ExpressionKind::ConstantBoolean(false)
                } else {
                    ExpressionKind::Equals {
                        left: Box::new(unused(left.kind.simplify_spec())),
                        right: Box::new(unused(right.kind.simplify_spec())),
                    }
                }
            },
            ExpressionKind::GreaterThan { left, right } => {
                if left.kind == right.kind {
                    ExpressionKind::ConstantBoolean(true)
                } else if range_at_or_above(left.kind, right.kind) {
                    ExpressionKind::ConstantBoolean(true)
                } else if range_at_or_above(right.kind, left.kind) {
                    ExpressionKind::ConstantBoolean(false)
                } else {
                    ExpressionKind::GreaterThan {
                        left: Box::new(unused(left.kind.simplify_spec())),
                        right: Box::new(unused(right.kind.simplify_spec())),
                    }
                }
            },
            other => other,
        }
    }

    pub fn simplify(self) -> (simpler: ExpressionKind)
        ensures
            simpler == self.simplify_spec(),
        decreases self,
    {
        match self {
            ExpressionKind::If { condition, then, otherwise } => {
                if (&*then).same_as(&*otherwise) {
                    then.kind.simplify()
                } else {
                    match condition.kind {
                        ExpressionKind::ConstantBoolean(true) => then.kind.simplify(),
                        ExpressionKind::ConstantBoolean(false) => otherwise.kind.simplify(),
                        _ => ExpressionKind::If {
                            condition: Box::new(condition.simplify()),
                            then: Box::new(then.simplify()),
                            otherwise: Box::new(otherwise.simplify()),
                        },
                    }
                }
            },
            ExpressionKind::Equals { left, right } => {
                if (&*left).same_as(&*right) {
                    ExpressionKind::ConstantBoolean(true)
                } else if ranges_are_disjoint(&left.kind, &right.kind) {
                    ExpressionKind::ConstantBoolean(false)
                } else {
                    ExpressionKind::Equals {
                        left: Box::new(left.simplify()),
                        right: Box::new(right.simplify()),
                    }
                }
            },
            ExpressionKind::GreaterThan { left, right } => {
                if left.kind.same_as(&right.kind) {
                    ExpressionKind::ConstantBoolean(true)
                } else if range_is_at_or_above(&left.kind, &right.kind) {
                    ExpressionKind::ConstantBoolean(true)
                } else if range_is_at_or_above(&right.kind, &left.kind) {
                    ExpressionKind::ConstantBoolean(false)
                } else {
                    match (&left.kind, &right.kind) {
                        (ExpressionKind::ConstantNumber(a), ExpressionKind::ConstantNumber(b)) => {
                            ExpressionKind::ConstantBoolean(*a > *b)
                        },
                        _ => ExpressionKind::GreaterThan {
                            left: Box::new(left.simplify()),
                            right: Box::new(right.simplify()),
                        },
                    }
                }
            },
            other => other,
        }
    }
}

impl Expression {
    /// One pass of simplification; the root's counter starts again at zero.
    pub open spec fn simplify_spec(self) -> Expression {
        unused(self.kind.simplify_spec())
    }

    pub fn simplify(self) -> (simpler: Expression)
        ensures
            simpler == self.simplify_spec(),
        decreases self,
    {
        Expression::new(self.kind.simplify())
    }
}

impl ExpressionKind {
    /// Where the node has a declared range, its value on this input is a number in it.
    pub open spec fn in_declared_range(self, input: &TurnInput, id: usize, unit: &Unit) -> bool {
        match self.range_spec() {
            Some(r) => self.eval_spec(input, id, unit) matches Ok(Value::Number(x)) && r.0 <= x
                < r.1,
            None => true,
        }
    }

    /// On this input every operand of every comparison in the tree lies in its declared
    /// range, where it has one.
    pub open spec fn respects_ranges(self, input: &TurnInput, id: usize, unit: &Unit) -> bool
        decreases self,
    {
        match self {
            ExpressionKind::If { condition, then, otherwise } => {
                &&& condition.kind.respects_ranges(input, id, unit)
                &&& then.kind.respects_ranges(input, id, unit)
                &&& otherwise.kind.respects_ranges(input, id, unit)
            },
            ExpressionKind::GreaterThan { left, right } => {
                &&& left.kind.in_declared_range(input, id, unit)
                &&& right.kind.in_declared_range(input, id, unit)
                &&& left.kind.respects_ranges(input, id, unit)
                &&& right.kind.respects_ranges(input, id, unit)
            },
            ExpressionKind::Equals { left, right } => {
                &&& left.kind.in_declared_range(input, id, unit)
                &&& right.kind.in_declared_range(input, id, unit)
                &&& left.kind.respects_ranges(input, id, unit)
                &&& right.kind.respects_ranges(input, id, unit)
            },
            _ => true,
        }
    }

    /// No `GreaterThan` in the tree has two operands of equal kind.
    pub open spec fn no_self_comparison(self) -> bool
        decreases self,
    {
        match self {
            ExpressionKind::If { condition, then, otherwise } => {
                &&& condition.kind.no_self_comparison()
                &&& then.kind.no_self_comparison()
                &&& otherwise.kind.no_self_comparison()
            },
            ExpressionKind::GreaterThan { left, right } => {
                &&& left.kind != right.kind
                &&& left.kind.no_self_comparison()
                &&& right.kind.no_self_comparison()
            },
            ExpressionKind::Equals { left, right } => {
                &&& left.kind.no_self_comparison()
                &&& right.kind.no_self_comparison()
            },
            _ => true,
        }
    }

    /// The number of nodes of the tree.
    pub open spec fn node_count(self) -> nat
        decreases self,
    {
        match self {
            ExpressionKind::If { condition, then, otherwise } => 1 + condition.kind.node_count()
                + then.kind.node_count() + otherwise.kind.node_count(),
            ExpressionKind::GreaterThan { left, right } => 1 + left.kind.node_count()
                + right.kind.node_count(),
            ExpressionKind::Equals { left, right } => 1 + left.kind.node_count()
                + right.kind.node_count(),
            _ => 1,
        }
    }

    /// The node after `passes` passes of simplification.
    pub open spec fn simplified_times(self, passes: nat) -> ExpressionKind
        decreases passes,
    {
        if passes == 0 {
            self
        } else {
            self.simplify_spec().simplified_times((passes - 1) as nat)
        }
    }
}

impl Expression {
    /// The tree after `passes` passes of simplification.
    pub open spec fn simplified_times(self, passes: nat) -> Expression
        decreases passes,
    {
        if passes == 0 {
            self
        } else {
            self.simplify_spec().simplified_times((passes - 1) as nat)
        }
    }
}

/// Simplification keeps the value.  Where an expression evaluates without a type
/// error on an input on which the operands of its comparisons lie in their declared
/// ranges, and no `GreaterThan` in it compares a node with an equal one, one pass of
/// simplification gives an expression that evaluates to the same value.
pub proof fn lemma_simplify_preserves_value(
    kind: ExpressionKind,
    input: &TurnInput,
    id: usize,
    unit: &Unit,
)
    requires
        kind.eval_spec(input, id, unit) is Ok,
        kind.respects_ranges(input, id, unit),
        kind.no_self_comparison(),
    ensures
        kind.simplify_spec().eval_spec(input, id, unit) == kind.eval_spec(input, id, unit),
    decreases kind,
{
    match kind {
        ExpressionKind::If { condition, then, otherwise } => {
            let c = condition.kind.eval_spec(input, id, unit);
            assert(c is Ok);
            lemma_simplify_preserves_value(condition.kind, input, id, unit);
            if c == Ok::<Value, ()>(Value::Boolean(true)) || then == otherwise {
                lemma_simplify_preserves_value(then.kind, input, id, unit);
            }
            if c == Ok::<Value, ()>(Value::Boolean(false)) {
                lemma_simplify_preserves_value(otherwise.kind, input, id, unit);
            }
        },
        ExpressionKind::GreaterThan { left, right } => {
            lemma_simplify_preserves_value(left.kind, input, id, unit);
            lemma_simplify_preserves_value(right.kind, input, id, unit);
        },
        ExpressionKind::Equals { left, right } => {
            lemma_simplify_preserves_value(left.kind, input, id, unit);
            lemma_simplify_preserves_value(right.kind, input, id, unit);
        },
        _ => {},
    }
}

/// A pass of simplification leaves every counter below the root at zero.
pub proof fn lemma_simplify_clears_counters(kind: ExpressionKind)
    ensures
        kind.simplify_spec().cleared() == kind.simplify_spec(),
    decreases kind,
{
    match kind {
        ExpressionKind::If { condition, then, otherwise } => {
            lemma_simplify_clears_counters(condition.kind);
            lemma_simplify_clears_counters(then.kind);
            lemma_simplify_clears_counters(otherwise.kind);
        },
        ExpressionKind::GreaterThan { left, right } => {
            lemma_simplify_clears_counters(left.kind);
            lemma_simplify_clears_counters(right.kind);
        },
        ExpressionKind::Equals { left, right } => {
            lemma_simplify_clears_counters(left.kind);
            lemma_simplify_clears_counters(right.kind);
        },
        _ => {},
    }
}

/// A pass of simplification never adds a node.
pub proof fn lemma_simplify_never_grows(kind: ExpressionKind)
    ensures
        kind.simplify_spec().node_count() <= kind.node_count(),
        kind.node_count() >= 1,
    decreases kind,
{
    match kind {
        ExpressionKind::If { condition, then, otherwise } => {
            lemma_simplify_never_grows(condition.kind);
            lemma_simplify_never_grows(then.kind);
            lemma_simplify_never_grows(otherwise.kind);
        },
        ExpressionKind::GreaterThan { left, right } => {
            lemma_simplify_never_grows(left.kind);
            lemma_simplify_never_grows(right.kind);
        },
        ExpressionKind::Equals { left, right } => {
            lemma_simplify_never_grows(left.kind);
            lemma_simplify_never_grows(right.kind);
        },
        _ => {},
    }
}

/// On a tree whose counters are all zero, a pass of simplification that removes no
/// node changes nothing.
pub proof fn lemma_simplify_without_loss_is_identity(kind: ExpressionKind)
    requires
        kind.cleared() == kind,
        kind.simplify_spec().node_count() == kind.node_count(),
    ensures
        kind.simplify_spec() == kind,
    decreases kind,
{
    match kind {
        ExpressionKind::If { condition, then, otherwise } => {
            lemma_simplify_never_grows(condition.kind);
            lemma_simplify_never_grows(then.kind);
            lemma_simplify_never_grows(otherwise.kind);
            lemma_simplify_without_loss_is_identity(condition.kind);
            lemma_simplify_without_loss_is_identity(then.kind);
            lemma_simplify_without_loss_is_identity(otherwise.kind);
        },
        ExpressionKind::GreaterThan { left, right } => {
            lemma_simplify_never_grows(left.kind);
            lemma_simplify_never_grows(right.kind);
            lemma_simplify_without_loss_is_identity(left.kind);
            lemma_simplify_without_loss_is_identity(right.kind);
        },
        ExpressionKind::Equals { left, right } => {
            lemma_simplify_never_grows(left.kind);
            lemma_simplify_never_grows(right.kind);
            lemma_simplify_without_loss_is_identity(left.kind);
            lemma_simplify_without_loss_is_identity(right.kind);
        },
        _ => {},
    }
}

/// One more pass comes last: `passes + 1` passes are `passes` passes and then one.
pub proof fn lemma_simplified_times_step(kind: ExpressionKind, passes: nat)
    ensures
        kind.simplified_times(passes + 1) == kind.simplified_times(passes).simplify_spec(),
    decreases passes,
{
    let once = kind.simplify_spec();
    assert(kind.simplified_times(passes + 1) == once.simplified_times(passes));
    if passes > 0 {
        lemma_simplified_times_step(once, (passes - 1) as nat);
        assert(kind.simplified_times(passes) == once.simplified_times((passes - 1) as nat));
    } else {
        assert(once.simplified_times(0) == once);
    }
}

/// On a tree whose counters are all zero, simplification has settled after one pass
/// fewer than the tree has nodes.
proof fn lemma_cleared_settles(kind: ExpressionKind, passes: nat)
    requires
        kind.cleared() == kind,
        passes + 1 >= kind.node_count(),
    ensures
        kind.simplified_times(passes).simplify_spec() == kind.simplified_times(passes),
    decreases passes,
{
    lemma_simplify_never_grows(kind);
    lemma_simplify_clears_counters(kind);
    if kind.simplify_spec().node_count() == kind.node_count() {
        lemma_simplify_without_loss_is_identity(kind);
        lemma_fixed_point_stays(kind, passes);
    } else if passes > 0 {
        lemma_cleared_settles(kind.simplify_spec(), (passes - 1) as nat);
    } else {
        lemma_simplify_never_grows(kind.simplify_spec());
    }
}

/// A tree that a pass leaves unchanged is left unchanged by any number of passes.
proof fn lemma_fixed_point_stays(kind: ExpressionKind, passes: nat)
    requires
        kind.simplify_spec() == kind,
    ensures
        kind.simplified_times(passes) == kind,
    decreases passes,
{
    if passes > 0 {
        lemma_fixed_point_stays(kind, (passes - 1) as nat);
    }
}

/// Simplification settles: after as many passes as the tree has nodes, a further pass
/// changes nothing.
pub proof fn lemma_simplify_settles(kind: ExpressionKind, passes: nat)
    requires
        passes >= kind.node_count(),
    ensures
        kind.simplified_times(passes + 1) == kind.simplified_times(passes),
{
    lemma_simplify_never_grows(kind);
    lemma_simplify_clears_counters(kind);
    lemma_cleared_settles(kind.simplify_spec(), (passes - 1) as nat);
    lemma_simplified_times_step(kind, passes);
}

/// From the second pass on, a pass that removes no node changes nothing: if pass
/// `passes + 1` leaves the node count of the result of `passes >= 1` passes as it was,
/// the two results are equal.
pub proof fn lemma_pass_without_loss_changes_nothing(kind: ExpressionKind, passes: nat)
    requires
        passes >= 1,
        kind.simplified_times(passes + 1).node_count() == kind.simplified_times(
            passes,
        ).node_count(),
    ensures
        kind.simplified_times(passes + 1) == kind.simplified_times(passes),
{
    let before = kind.simplified_times((passes - 1) as nat);
    let settled = kind.simplified_times(passes);
    lemma_simplified_times_step(kind, passes);
    lemma_simplified_times_step(kind, (passes - 1) as nat);
    assert(settled == before.simplify_spec()) by {
        assert((passes - 1) as nat + 1 == passes);
    }
    lemma_simplify_clears_counters(before);
    lemma_simplify_without_loss_is_identity(settled);
}

/// Simplification keeps the static type: a pass over a tree in which both branches of
/// every `If` have the same type gives a tree of the same type in which they still
/// have.
pub proof fn lemma_simplify_keeps_type(kind: ExpressionKind)
    requires
        kind.well_typed(),
    ensures
        kind.simplify_spec().type_spec() == kind.type_spec(),
        kind.simplify_spec().well_typed(),
    decreases kind,
{
    match kind {
        ExpressionKind::If { condition, then, otherwise } => {
            lemma_simplify_keeps_type(condition.kind);
            lemma_simplify_keeps_type(then.kind);
            lemma_simplify_keeps_type(otherwise.kind);
        },
        ExpressionKind::GreaterThan { left, right } => {
            lemma_simplify_keeps_type(left.kind);
            lemma_simplify_keeps_type(right.kind);
        },
        ExpressionKind::Equals { left, right } => {
            lemma_simplify_keeps_type(left.kind);
            lemma_simplify_keeps_type(right.kind);
        },
        _ => {},
    }
}

/// Any number of passes keeps the static type, as one does.
pub proof fn lemma_simplified_times_keeps_type(kind: ExpressionKind, passes: nat)
    requires
        kind.well_typed(),
    ensures
        kind.simplified_times(passes).type_spec() == kind.type_spec(),
        kind.simplified_times(passes).well_typed(),
    decreases passes,
{
    if passes > 0 {
        lemma_simplify_keeps_type(kind);
        lemma_simplified_times_keeps_type(kind.simplify_spec(), (passes - 1) as nat);
    }
}

/// From the first pass on, the passes over an expression are the passes over its
/// kind, with the root's counter at zero.
pub proof fn lemma_simplified_times_of_expression(e: Expression, passes: nat)
    requires
        passes >= 1,
    ensures
        e.simplified_times(passes) == unused(e.kind.simplified_times(passes)),
    decreases passes,
{
    if passes > 1 {
        lemma_simplified_times_of_expression(e.simplify_spec(), (passes - 1) as nat);
    } else {
        assert(e.simplify_spec().simplified_times(0) == e.simplify_spec());
        assert(e.kind.simplify_spec().simplified_times(0) == e.kind.simplify_spec());
    }
}

/// Simplification of an expression settles: after as many passes as the tree has
/// nodes, a further pass changes nothing.
pub proof fn lemma_expression_settles(e: Expression, passes: nat)
    requires
        passes >= e.kind.node_count(),
    ensures
        e.simplified_times(passes + 1) == e.simplified_times(passes),
{
    lemma_simplify_never_grows(e.kind);
    lemma_simplify_settles(e.kind, passes);
    lemma_simplified_times_of_expression(e, passes);
    lemma_simplified_times_of_expression(e, passes + 1);
}

fn ranges_are_disjoint(left: &ExpressionKind, right: &ExpressionKind) -> (yes: bool)
    ensures
        yes == ranges_disjoint(*left, *right),
{
    match (left.get_range(), right.get_range()) {
        (Some(a), Some(b)) => !(a.0 < b.1 && b.0 < a.1),
        _ => false,
    }
}

fn range_is_at_or_above(high: &ExpressionKind, low: &ExpressionKind) -> (yes: bool)
    ensures
        yes == range_at_or_above(*high, *low),
{
    match (high.get_range(), low.get_range()) {
        (Some(a), Some(b)) => a.0 >= b.1,
        _ => false,
    }
}

} // verus!
