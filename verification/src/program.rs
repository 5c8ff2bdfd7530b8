//! A bot as the program of a side: one decision for each of the side's units.

use vstd::prelude::*;
use crate::eval::used_once;
use crate::expression::{Expression, ExpressionKind, Move, Value};
use crate::state::{find_obj, ObjDetails, TurnInput, Unit};

verus! {

/// Why a unit got no action.
#[derive(Debug, Copy, Clone, PartialEq, Eq, Structural)]
pub enum RunError {
    /// The evaluation met a type error.
    TypeError,
    /// The expression yielded a value that is no move.
    NotAMove,
}

/// What a value means for the unit it was computed for.
pub open spec fn decision(value: Result<Value, ()>) -> Result<Move, RunError> {
    match value {
        Ok(Value::Move(m)) => Ok(m),
        Ok(_) => Err(RunError::NotAMove),
        Err(_) => Err(RunError::TypeError),
    }
}

/// The details of the unit with this id; those of a unit without health where the
/// id names none.
pub open spec fn unit_of(input: &TurnInput, id: usize) -> Unit {
    match find_obj(input.objs@, id) {
        Some(o) => match o.details {
            ObjDetails::Unit(u) => u,
            ObjDetails::Terrain => Unit { team: input.team, health: 0 },
        },
        None => Unit { team: input.team, health: 0 },
    }
}

/// The decisions of the logic for the units with these ids, in their order.
pub open spec fn decisions(logic: Expression, input: &TurnInput, ids: Seq<usize>) -> Seq<
    (usize, Result<Move, RunError>),
> {
    ids.map_values(
        |id: usize| (id, decision(logic.eval_spec(input, id, &unit_of(input, id)))),
    )
}

/// The logic after it has been evaluated for each of the units with these ids, one
/// after the other.
pub open spec fn used_for(logic: Expression, input: &TurnInput, ids: Seq<usize>) -> Expression
    decreases ids.len(),
{
    if ids.len() == 0 {
        logic
    } else {
        used_once(
            used_for(logic, input, ids.drop_last()),
            input,
            ids.last(),
            &unit_of(input, ids.last()),
        )
    }
}

impl TurnInput {
    /// Every id on the list of the side that is to move names a unit.
    pub open spec fn lists_units(&self) -> bool {
        forall|i: int|
            0 <= i < self.members(self.team).len() ==> (find_obj(
                self.objs@,
                #[trigger] self.members(self.team)[i],
            ) matches Some(o) && o.details is Unit)
    }

    /// Checks `lists_units`.
    pub fn check_lists_units(&self) -> (ok: bool)
        ensures
            ok == self.lists_units(),
    {
        let ids = self.members_of(self.team);
        let mut i: usize = 0;
        while i < ids.len()
            invariant
                i <= ids@.len(),
                ids@ == self.members(self.team),
                forall|j: int|
                    0 <= j < i ==> (find_obj(self.objs@, #[trigger] ids@[j]) matches Some(o)
                        && o.details is Unit),
            decreases ids@.len() - i,
        {
            match self.find(ids[i]) {
                Some(o) => match o.details {
                    ObjDetails::Unit(_) => {},
                    ObjDetails::Terrain => {
                        return false;
                    },
                },
                None => {
                    return false;
                },
            }
            i += 1;
        }
        true
    }
}

/// Evaluating keeps every counter below a limit that is one higher.
pub proof fn lemma_used_once_below(
    kind: ExpressionKind,
    input: &TurnInput,
    id: usize,
    unit: &Unit,
    limit: nat,
)
    requires
        kind.counters_below(limit),
        limit < usize::MAX,
    ensures
        kind.evaluated(input, id, unit).counters_below(limit + 1),
    decreases kind,
{
    match kind {
        ExpressionKind::If { condition, then, otherwise } => {
            lemma_used_once_below(condition.kind, input, id, unit, limit);
            lemma_used_once_below(then.kind, input, id, unit, limit);
            lemma_used_once_below(otherwise.kind, input, id, unit, limit);
            lemma_counters_below_more(then.kind, limit);
            lemma_counters_below_more(otherwise.kind, limit);
        },
        ExpressionKind::GreaterThan { left, right } => {
            lemma_used_once_below(left.kind, input, id, unit, limit);
            lemma_used_once_below(right.kind, input, id, unit, limit);
            lemma_counters_below_more(right.kind, limit);
        },
        ExpressionKind::Equals { left, right } => {
            lemma_used_once_below(left.kind, input, id, unit, limit);
            lemma_used_once_below(right.kind, input, id, unit, limit);
            lemma_counters_below_more(right.kind, limit);
        },
        _ => {},
    }
}

/// Counters below a limit are below a higher one.
pub proof fn lemma_counters_below_more(kind: ExpressionKind, limit: nat)
    requires
        kind.counters_below(limit),
    ensures
        kind.counters_below(limit + 1),
    decreases kind,
{
    match kind {
        ExpressionKind::If { condition, then, otherwise } => {
            lemma_counters_below_more(condition.kind, limit);
            lemma_counters_below_more(then.kind, limit);
            lemma_counters_below_more(otherwise.kind, limit);
        },
        ExpressionKind::GreaterThan { left, right } => {
            lemma_counters_below_more(left.kind, limit);
            lemma_counters_below_more(right.kind, limit);
        },
        ExpressionKind::Equals { left, right } => {
            lemma_counters_below_more(left.kind, limit);
            lemma_counters_below_more(right.kind, limit);
        },
        _ => {},
    }
}

/// Evaluating changes counters only: the value stays.
pub proof fn lemma_value_after_use(
    kind: ExpressionKind,
    input: &TurnInput,
    id: usize,
    unit: &Unit,
    later: &TurnInput,
    later_id: usize,
    later_unit: &Unit,
)
    ensures
        kind.evaluated(input, id, unit).eval_spec(later, later_id, later_unit) == kind.eval_spec(
            later,
            later_id,
            later_unit,
        ),
    decreases kind,
{
    match kind {
        ExpressionKind::If { condition, then, otherwise } => {
            lemma_value_after_use(condition.kind, input, id, unit, later, later_id, later_unit);
            lemma_value_after_use(then.kind, input, id, unit, later, later_id, later_unit);
            lemma_value_after_use(otherwise.kind, input, id, unit, later, later_id, later_unit);
        },
        ExpressionKind::GreaterThan { left, right } => {
            lemma_value_after_use(left.kind, input, id, unit, later, later_id, later_unit);
            lemma_value_after_use(right.kind, input, id, unit, later, later_id, later_unit);
        },
        ExpressionKind::Equals { left, right } => {
            lemma_value_after_use(left.kind, input, id, unit, later, later_id, later_unit);
            lemma_value_after_use(right.kind, input, id, unit, later, later_id, later_unit);
        },
        _ => {},
    }
}

/// The value of a logic that has been used for some units is the value of the logic.
pub proof fn lemma_value_after_uses(
    logic: Expression,
    input: &TurnInput,
    ids: Seq<usize>,
    later_id: usize,
    later_unit: &Unit,
)
    ensures
        used_for(logic, input, ids).eval_spec(input, later_id, later_unit) == logic.eval_spec(
            input,
            later_id,
            later_unit,
        ),
    decreases ids.len(),
{
    if ids.len() > 0 {
        lemma_value_after_uses(logic, input, ids.drop_last(), later_id, later_unit);
        lemma_value_after_use(
            used_for(logic, input, ids.drop_last()).kind,
            input,
            ids.last(),
            &unit_of(input, ids.last()),
            input,
            later_id,
            later_unit,
        );
    }
}

impl Expression {
    /// Runs the logic as the program of the side that is to move: evaluates it once
    /// for each unit on the side's list, in the order of the list, and returns for
    /// each unit its id with the move that the logic yields, or the reason why it
    /// yields none.
    pub fn run(&mut self, input: &TurnInput) -> (actions: Vec<(usize, Result<Move, RunError>)>)
        requires
            input.well_formed(),
            input.lists_units(),
            input.members(input.team).len() < usize::MAX,
            old(self).counters_below((usize::MAX - input.members(input.team).len()) as nat),
        ensures
            actions@ == decisions(*old(self), input, input.members(input.team)),
            *final(self) == used_for(*old(self), input, input.members(input.team)),
    {
        let ghost logic = *self;
        let ids = input.members_of(input.team);
        let ghost all = input.members(input.team);
        let mut actions: Vec<(usize, Result<Move, RunError>)> = Vec::new();
        let mut i: usize = 0;
        while i < ids.len()
            invariant
                i <= ids@.len(),
                ids@ == all,
                all == input.members(input.team),
                all.len() < usize::MAX,
                input.well_formed(),
                input.lists_units(),
                *self == used_for(logic, input, all.take(i as int)),
                self.counters_below((usize::MAX - all.len() + i) as nat),
                actions@ == decisions(logic, input, all).take(i as int),
            decreases ids@.len() - i,
        {
            let id = ids[i];
            proof {
                assert(all.take(i as int + 1).drop_last() == all.take(i as int));
                assert(all.take(i as int + 1).last() == id);
                assert(find_obj(input.objs@, all[i as int]) is Some);
                lemma_value_after_uses(logic, input, all.take(i as int), id, &unit_of(input, id));
                lemma_counters_below_more_by(
                    self.kind,
                    (usize::MAX - all.len() + i) as nat,
                    usize::MAX as nat,
                );
                lemma_used_once_below(
                    self.kind,
                    input,
                    id,
                    &unit_of(input, id),
                    (usize::MAX - all.len() + i) as nat,
                );
            }
            let unit = match input.find(id) {
                Some(o) => match o.details {
                    ObjDetails::Unit(u) => u,
                    ObjDetails::Terrain => Unit { team: input.team, health: 0 },
                },
                None => Unit { team: input.team, health: 0 },
            };
            let action = match self.eval(input, id, &unit) {
                Ok(Value::Move(m)) => Ok(m),
                Ok(_) => Err(RunError::NotAMove),
                Err(_) => Err(RunError::TypeError),
            };
            actions.push((id, action));
            assert(actions@ =~= decisions(logic, input, all).take(i as int + 1));
            i += 1;
        }
        assert(all.take(i as int) == all);
        assert(decisions(logic, input, all).take(i as int) == decisions(logic, input, all));
        actions
    }
}

/// Counters below a limit are below any limit that is no lower.
pub proof fn lemma_counters_below_more_by(kind: ExpressionKind, limit: nat, higher: nat)
    requires
        kind.counters_below(limit),
        limit <= higher,
    ensures
        kind.counters_below(higher),
    decreases higher - limit,
{
    if limit < higher {
        lemma_counters_below_more(kind, limit);
        lemma_counters_below_more_by(kind, limit + 1, higher);
    }
}

} // verus!
