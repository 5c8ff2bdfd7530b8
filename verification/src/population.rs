//! The population: bots, their grouping into species, and culling.

use vstd::prelude::*;
use crate::expression::Expression;
use crate::family_tree::Species;
use crate::random::gen_index;
use crate::ranking::{arranged, keys_of, sorted_order, stable_order, RankKey};
use crate::score::BotScore;

verus! {

/// Fewest members that thinning leaves a species with.
pub const MIN_BOTS_PER_SPECIES: usize = 3;

/// A candidate of the population.
#[derive(Debug, PartialEq, Eq)]
pub struct Bot {
    pub logic: Expression,
    pub species: Species,
    pub score: BotScore,
    pub generation: usize,
    pub parents: Option<(Species, Species)>,
}

impl Clone for Bot {
    fn clone(&self) -> (copy: Bot)
        ensures
            copy == *self,
    {
        Bot {
            logic: self.logic.clone(),
            species: self.species,
            score: self.score,
            generation: self.generation,
            parents: self.parents,
        }
    }
}

/// The number of bots in all groups together.
pub open spec fn total(groups: Seq<Seq<Bot>>) -> nat
    decreases groups.len(),
{
    if groups.len() == 0 {
        0
    } else {
        total(groups.drop_last()) + groups.last().len()
    }
}

/// The groups one after the other.
pub open spec fn concat(groups: Seq<Seq<Bot>>) -> Seq<Bot>
    decreases groups.len(),
{
    if groups.len() == 0 {
        Seq::empty()
    } else {
        concat(groups.drop_last()) + groups.last()
    }
}

/// The first group whose first member is of species `s`.
pub open spec fn position_of(groups: Seq<Seq<Bot>>, s: Species) -> Option<int>
    decreases groups.len(),
{
    if groups.len() == 0 {
        None
    } else {
        match position_of(groups.drop_last(), s) {
            Some(i) => Some(i),
            None => if groups.last().len() > 0 && groups.last()[0].species == s {
                Some(groups.len() - 1)
            } else {
                None
            },
        }
    }
}

/// The bots by species: one group for each species, the groups in the order in which
/// their species first occur, the members of a group in the order in which they occur.
pub open spec fn grouped(bots: Seq<Bot>) -> Seq<Seq<Bot>>
    decreases bots.len(),
{
    if bots.len() == 0 {
        Seq::empty()
    } else {
        let before = grouped(bots.drop_last());
        let bot = bots.last();
        match position_of(before, bot.species) {
            Some(i) => before.update(i, before[i].push(bot)),
            None => before.push(seq![bot]),
        }
    }
}

/// The views of the groups.
pub open spec fn views(groups: Seq<Vec<Bot>>) -> Seq<Seq<Bot>> {
    groups.map_values(|g: Vec<Bot>| g@)
}

/// What `position_of` finds is a group with a first member of that species, and no
/// earlier group has one.
pub proof fn lemma_position_of(groups: Seq<Seq<Bot>>, s: Species)
    ensures
        match position_of(groups, s) {
            Some(i) => {
                &&& 0 <= i < groups.len()
                &&& groups[i].len() > 0
                &&& groups[i][0].species == s
                &&& forall|j: int|
                    0 <= j < i ==> !((#[trigger] groups[j]).len() > 0 && groups[j][0].species == s)
            },
            None => forall|j: int|
                0 <= j < groups.len() ==> !((#[trigger] groups[j]).len() > 0
                    && groups[j][0].species == s),
        },
    decreases groups.len(),
{
    if groups.len() > 0 {
        lemma_position_of(groups.drop_last(), s);
        assert forall|j: int| 0 <= j < groups.len() - 1 implies groups.drop_last()[j]
            == groups[j] by {}
    }
}

/// Finds the group of species `s`.
fn find_group(groups: &Vec<Vec<Bot>>, s: Species) -> (found: Option<usize>)
    ensures
        match found {
            Some(i) => i < groups@.len() && position_of(views(groups@), s) == Some(i as int),
            None => position_of(views(groups@), s) is None,
        },
{
    let ghost all = views(groups@);
    let mut i: usize = 0;
    while i < groups.len()
        invariant
            i <= groups@.len(),
            all == views(groups@),
            forall|j: int|
                0 <= j < i ==> !((#[trigger] all[j]).len() > 0 && all[j][0].species == s),
        decreases groups@.len() - i,
    {
        if groups[i].len() > 0 && groups[i][0].species == s {
            proof {
                lemma_position_of(all, s);
                assert(all[i as int] == groups@[i as int]@);
            }
            return Some(i);
        }
        assert(all[i as int] == groups@[i as int]@);
        i += 1;
    }
    proof {
        lemma_position_of(all, s);
    }
    None
}

/// Sorts the bots into species.
pub fn group_by_species(bots: &Vec<Bot>) -> (groups: Vec<Vec<Bot>>)
    ensures
        views(groups@) == grouped(bots@),
{
    let mut groups: Vec<Vec<Bot>> = Vec::new();
    let mut n: usize = 0;
    assert(views(groups@) =~= grouped(bots@.take(0)));
    while n < bots.len()
        invariant
            n <= bots@.len(),
            views(groups@) == grouped(bots@.take(n as int)),
        decreases bots@.len() - n,
    {
        let bot = bots[n].clone();
        proof {
            assert(bots@.take(n as int + 1).drop_last() == bots@.take(n as int));
            assert(bots@.take(n as int + 1).last() == bot);
        }
        let ghost before = views(groups@);
        match find_group(&groups, bot.species) {
            Some(i) => {
                let mut group = groups.remove(i);
                group.push(bot);
                groups.insert(i, group);
                assert(views(groups@) =~= before.update(i as int, before[i as int].push(bot)));
            },
            None => {
                let mut group: Vec<Bot> = Vec::new();
                group.push(bot);
                groups.push(group);
                assert(views(groups@) =~= before.push(seq![bot]));
            },
        }
        n += 1;
    }
    assert(bots@.take(n as int) == bots@);
    groups
}

/// Every group has a member, and all its members are of one species.
pub open spec fn are_species(groups: Seq<Seq<Bot>>) -> bool {
    forall|i: int|
        0 <= i < groups.len() ==> (#[trigger] groups[i]).len() > 0 && forall|k: int|
            0 <= k < groups[i].len() ==> (#[trigger] groups[i][k]).species
                == groups[i][0].species
}

/// No two groups are of the same species.
pub open spec fn are_distinct(groups: Seq<Seq<Bot>>) -> bool {
    forall|i: int, j: int|
        0 <= i < j < groups.len() ==> (#[trigger] groups[i])[0].species != (
        #[trigger] groups[j])[0].species
}

/// Changing one group changes the total by as much as the group's size changes.
pub proof fn lemma_total_update(groups: Seq<Seq<Bot>>, i: int, group: Seq<Bot>)
    requires
        0 <= i < groups.len(),
    ensures
        total(groups.update(i, group)) == total(groups) - groups[i].len() + group.len(),
    decreases groups.len(),
{
    let updated = groups.update(i, group);
    if i == groups.len() - 1 {
        assert(updated.drop_last() =~= groups.drop_last());
    } else {
        assert(updated.drop_last() =~= groups.drop_last().update(i, group));
        lemma_total_update(groups.drop_last(), i, group);
    }
}

/// Taking one group out takes its members off the total.
pub proof fn lemma_total_remove(groups: Seq<Seq<Bot>>, i: int)
    requires
        0 <= i < groups.len(),
    ensures
        total(groups.remove(i)) == total(groups) - groups[i].len(),
    decreases groups.len(),
{
    let removed = groups.remove(i);
    if i == groups.len() - 1 {
        assert(removed =~= groups.drop_last());
    } else {
        assert(removed.drop_last() =~= groups.drop_last().remove(i));
        assert(removed.last() == groups.last());
        lemma_total_remove(groups.drop_last(), i);
    }
}

/// Grouping sorts every bot into exactly one species: every group has a member, the
/// members of a group are of one species, no two groups are of the same species, and
/// the groups together hold as many bots as there were.
pub proof fn lemma_grouped_partitions(bots: Seq<Bot>)
    ensures
        are_species(grouped(bots)),
        are_distinct(grouped(bots)),
        total(grouped(bots)) == bots.len(),
    decreases bots.len(),
{
    if bots.len() > 0 {
        let before = grouped(bots.drop_last());
        let bot = bots.last();
        let after = grouped(bots);
        lemma_grouped_partitions(bots.drop_last());
        lemma_position_of(before, bot.species);
        match position_of(before, bot.species) {
            Some(i) => {
                lemma_total_update(before, i, before[i].push(bot));
                assert forall|j: int| 0 <= j < after.len() implies (#[trigger] after[j]).len() > 0
                    && forall|k: int|
                    0 <= k < after[j].len() ==> (#[trigger] after[j][k]).species
                        == after[j][0].species by {
                    if j != i {
                        assert(after[j] == before[j]);
                    } else {
                        assert forall|k: int| 0 <= k < after[j].len() implies (
                        #[trigger] after[j][k]).species == after[j][0].species by {
                            if k < before[i].len() {
                                assert(after[j][k] == before[i][k]);
                            }
                        }
                    }
                }
                assert forall|a: int, b: int| 0 <= a < b < after.len() implies (
                #[trigger] after[a])[0].species != (#[trigger] after[b])[0].species by {
                    assert(after[a][0] == before[a][0]);
                    assert(after[b][0] == before[b][0]);
                }
            },
            None => {
                assert(after.drop_last() =~= before);
                assert forall|j: int| 0 <= j < after.len() implies (#[trigger] after[j]).len() > 0
                    && forall|k: int|
                    0 <= k < after[j].len() ==> (#[trigger] after[j][k]).species
                        == after[j][0].species by {
                    if j < before.len() {
                        assert(after[j] == before[j]);
                    }
                }
                assert forall|a: int, b: int| 0 <= a < b < after.len() implies (
                #[trigger] after[a])[0].species != (#[trigger] after[b])[0].species by {
                    if b < before.len() {
                        assert(after[a] == before[a] && after[b] == before[b]);
                    } else {
                        assert(after[a] == before[a]);
                    }
                }
            },
        }
    }
}

/// The best score among the members of a group.
pub open spec fn best_score(group: Seq<Bot>) -> BotScore
    decreases group.len(),
{
    if group.len() <= 1 {
        group[0].score
    } else {
        best_score(group.drop_last()).max_spec(group.last().score)
    }
}

/// The species and best score of each group.
pub open spec fn standings(groups: Seq<Seq<Bot>>) -> Seq<(Species, BotScore)> {
    groups.map_values(|g: Seq<Bot>| (g[0].species, best_score(g)))
}

/// The rank keys of a list of standings: the score alone counts.
pub open spec fn standing_keys(entries: Seq<(Species, BotScore)>) -> Seq<Seq<int>> {
    keys_of(entries.map_values(|e: (Species, BotScore)| RankKey { major: 0, score: e.1 }))
}

/// The standings from the best species to the worst; of species with the same score,
/// the one whose group comes later stands first.
pub open spec fn ranked(groups: Seq<Seq<Bot>>) -> Seq<(Species, BotScore)> {
    arranged(
        standings(groups),
        stable_order(standing_keys(standings(groups)), groups.len()),
    ).reverse()
}

/// Computes the best score among the members of a group.
pub fn best_of(group: &Vec<Bot>) -> (best: BotScore)
    requires
        group@.len() > 0,
    ensures
        best == best_score(group@),
{
    let mut best = group[0].score;
    let mut n: usize = 1;
    assert(group@.take(1).len() == 1);
    while n < group.len()
        invariant
            1 <= n <= group@.len(),
            best == best_score(group@.take(n as int)),
        decreases group@.len() - n,
    {
        assert(group@.take(n as int + 1).drop_last() == group@.take(n as int));
        best = best.max(group[n].score);
        n += 1;
    }
    assert(group@.take(n as int) == group@);
    best
}

/// Computes the species and best score of each group.
pub fn standings_of(groups: &Vec<Vec<Bot>>) -> (entries: Vec<(Species, BotScore)>)
    requires
        are_species(views(groups@)),
    ensures
        entries@ == standings(views(groups@)),
{
    let mut entries: Vec<(Species, BotScore)> = Vec::new();
    let mut n: usize = 0;
    while n < groups.len()
        invariant
            n <= groups@.len(),
            are_species(views(groups@)),
            entries@ == standings(views(groups@)).take(n as int),
        decreases groups@.len() - n,
    {
        assert(views(groups@)[n as int] == groups@[n as int]@);
        entries.push((groups[n][0].species, best_of(&groups[n])));
        assert(entries@ =~= standings(views(groups@)).take(n as int + 1));
        n += 1;
    }
    assert(standings(views(groups@)).take(n as int) == standings(views(groups@)));
    entries
}

/// Ranks standings from the best score to the worst; of entries with the same score,
/// the later one comes first.
pub fn rank_standings(entries: &Vec<(Species, BotScore)>) -> (top: Vec<(Species, BotScore)>)
    ensures
        top@ == arranged(entries@, stable_order(standing_keys(entries@), entries@.len())).reverse(),
{
    let mut ranks: Vec<RankKey> = Vec::new();
    let mut n: usize = 0;
    while n < entries.len()
        invariant
            n <= entries@.len(),
            ranks@ == entries@.map_values(
                |e: (Species, BotScore)| RankKey { major: 0, score: e.1 },
            ).take(n as int),
        decreases entries@.len() - n,
    {
        ranks.push(RankKey { major: 0, score: entries[n].1 });
        assert(ranks@ =~= entries@.map_values(
            |e: (Species, BotScore)| RankKey { major: 0, score: e.1 },
        ).take(n as int + 1));
        n += 1;
    }
    assert(ranks@ =~= entries@.map_values(
        |e: (Species, BotScore)| RankKey { major: 0, score: e.1 },
    ));
    let order = sorted_order(&ranks);
    let ghost ascending = arranged(entries@, order@);
    let mut top: Vec<(Species, BotScore)> = Vec::new();
    let mut k: usize = order.len();
    while k > 0
        invariant
            k <= order@.len(),
            order@.len() == entries@.len(),
            forall|i: int| 0 <= i < order@.len() ==> (#[trigger] order@[i]) < entries@.len(),
            ascending == arranged(entries@, order@),
            top@ == ascending.reverse().take(order@.len() - k),
        decreases k,
    {
        k -= 1;
        top.push(entries[order[k]]);
        assert(top@ =~= ascending.reverse().take(order@.len() - k));
    }
    assert(ascending.reverse().take(order@.len() as int) == ascending.reverse());
    top
}

/// The group with the worst best score; of several, the first.
pub open spec fn weakest(groups: Seq<Seq<Bot>>) -> int
    decreases groups.len(),
{
    if groups.len() <= 1 {
        0
    } else {
        let before = weakest(groups.drop_last());
        if best_score(groups.last()).precedes_spec(best_score(groups[before])) {
            groups.len() - 1
        } else {
            before
        }
    }
}

/// What is left when, as long as there are more than `target_species` groups, the
/// weakest is taken out, unless that would leave fewer than `target_bots` bots.
pub open spec fn pruned(groups: Seq<Seq<Bot>>, target_species: nat, target_bots: nat) -> Seq<
    Seq<Bot>,
>
    decreases groups.len(),
{
    if groups.len() > target_species && total(groups) - groups[weakest(groups)].len()
        >= target_bots {
        proof {
            lemma_weakest_in_range(groups);
        }
        pruned(groups.remove(weakest(groups)), target_species, target_bots)
    } else {
        groups
    }
}

/// The weakest group is one of the groups.
pub proof fn lemma_weakest_in_range(groups: Seq<Seq<Bot>>)
    requires
        groups.len() > 0,
    ensures
        0 <= weakest(groups) < groups.len(),
    decreases groups.len(),
{
    if groups.len() > 1 {
        lemma_weakest_in_range(groups.drop_last());
    }
}

pub open spec fn min_nat(a: nat, b: nat) -> nat {
    if a <= b {
        a
    } else {
        b
    }
}

pub open spec fn max_nat(a: nat, b: nat) -> nat {
    if a >= b {
        a
    } else {
        b
    }
}

/// The fewest bots that thinning can leave: for each group its size, but no more than
/// `MIN_BOTS_PER_SPECIES`.
pub open spec fn floor_size(groups: Seq<Seq<Bot>>) -> nat
    decreases groups.len(),
{
    if groups.len() == 0 {
        0
    } else {
        floor_size(groups.drop_last()) + min_nat(groups.last().len(), MIN_BOTS_PER_SPECIES as nat)
    }
}

/// `after` is `before` with some members taken out, but not the first, and not so
/// many that fewer than `MIN_BOTS_PER_SPECIES` are left of a group that had as many.
pub open spec fn is_thinning_of(before: Seq<Bot>, after: Seq<Bot>) -> bool {
    &&& after.len() <= before.len()
    &&& after.len() >= min_nat(before.len(), MIN_BOTS_PER_SPECIES as nat)
    &&& before.len() > 0 ==> after.len() > 0 && after[0] == before[0]
    &&& after.to_multiset().subset_of(before.to_multiset())
}

/// `after` has the groups of `before`, each thinned.
pub open spec fn thinned_from(before: Seq<Seq<Bot>>, after: Seq<Seq<Bot>>) -> bool {
    &&& after.len() == before.len()
    &&& forall|i: int| 0 <= i < before.len() ==> is_thinning_of(#[trigger] before[i], after[i])
}

/// The number of bots that culling leaves of groups that have been pruned: the
/// target where thinning can reach it, else the fewest that thinning can leave; and
/// all of them where there are no more than the target to begin with.
pub open spec fn culled_size(kept: Seq<Seq<Bot>>, target_bots: nat) -> nat {
    if total(kept) > target_bots {
        max_nat(target_bots, floor_size(kept))
    } else {
        total(kept)
    }
}

/// The total is at least the floor.
pub proof fn lemma_floor_below_total(groups: Seq<Seq<Bot>>)
    ensures
        floor_size(groups) <= total(groups),
    decreases groups.len(),
{
    if groups.len() > 0 {
        lemma_floor_below_total(groups.drop_last());
    }
}

/// Where no group has more than `MIN_BOTS_PER_SPECIES` members, the total is the floor.
pub proof fn lemma_floor_reached(groups: Seq<Seq<Bot>>)
    requires
        forall|i: int| 0 <= i < groups.len() ==> (#[trigger] groups[i]).len() <= MIN_BOTS_PER_SPECIES,
    ensures
        floor_size(groups) == total(groups),
    decreases groups.len(),
{
    if groups.len() > 0 {
        assert forall|i: int| 0 <= i < groups.drop_last().len() implies (
        #[trigger] groups.drop_last()[i]).len() <= MIN_BOTS_PER_SPECIES by {
            assert(groups.drop_last()[i] == groups[i]);
        }
        lemma_floor_reached(groups.drop_last());
    }
}

/// Changing one group changes the floor by as much as the group's share changes.
pub proof fn lemma_floor_update(groups: Seq<Seq<Bot>>, i: int, group: Seq<Bot>)
    requires
        0 <= i < groups.len(),
    ensures
        floor_size(groups.update(i, group)) == floor_size(groups) - min_nat(
            groups[i].len(),
            MIN_BOTS_PER_SPECIES as nat,
        ) + min_nat(group.len(), MIN_BOTS_PER_SPECIES as nat),
    decreases groups.len(),
{
    let updated = groups.update(i, group);
    if i == groups.len() - 1 {
        assert(updated.drop_last() =~= groups.drop_last());
    } else {
        assert(updated.drop_last() =~= groups.drop_last().update(i, group));
        lemma_floor_update(groups.drop_last(), i, group);
    }
}

/// Counts the bots in all groups.
pub fn count_bots(groups: &Vec<Vec<Bot>>) -> (n: usize)
    requires
        total(views(groups@)) <= usize::MAX,
    ensures
        n == total(views(groups@)),
{
    let ghost all = views(groups@);
    let mut n: usize = 0;
    let mut i: usize = 0;
    assert(all.take(groups@.len() as int) == all);
    while i < groups.len()
        invariant
            i <= groups@.len(),
            all == views(groups@),
            n == total(all.take(i as int)),
            total(all) <= usize::MAX,
            all.take(groups@.len() as int) == all,
        decreases groups@.len() - i,
    {
        proof {
            assert(all.take(i as int + 1).drop_last() == all.take(i as int));
            assert(all.take(i as int + 1).last() == groups@[i as int]@);
            lemma_total_take(all, groups@.len() as int, i as int + 1);
        }
        n += groups[i].len();
        i += 1;
    }
    assert(all.take(i as int) == all);
    n
}

/// The total of the first groups is no more than the total of the first few more.
pub proof fn lemma_total_take(groups: Seq<Seq<Bot>>, more: int, fewer: int)
    requires
        0 <= fewer <= more <= groups.len(),
    ensures
        total(groups.take(fewer)) <= total(groups.take(more)),
    decreases more - fewer,
{
    if fewer < more {
        assert(groups.take(more).drop_last() == groups.take(more - 1));
        lemma_total_take(groups, more - 1, fewer);
    }
}

/// Finds the group with the worst best score; of several, the first.
pub fn find_weakest(groups: &Vec<Vec<Bot>>) -> (at: usize)
    requires
        groups@.len() > 0,
        are_species(views(groups@)),
    ensures
        at == weakest(views(groups@)),
        at < groups@.len(),
{
    let ghost all = views(groups@);
    assert(all[0] == groups@[0]@);
    let mut at: usize = 0;
    let mut worst = best_of(&groups[0]);
    let mut n: usize = 1;
    assert(all.take(1).len() == 1);
    while n < groups.len()
        invariant
            1 <= n <= groups@.len(),
            all == views(groups@),
            are_species(all),
            at < n,
            at == weakest(all.take(n as int)),
            worst == best_score(all[at as int]),
        decreases groups@.len() - n,
    {
        proof {
            assert(all.take(n as int + 1).drop_last() == all.take(n as int));
            assert(all.take(n as int + 1).last() == all[n as int]);
            assert(all.take(n as int + 1)[at as int] == all[at as int]);
            assert(all[n as int] == groups@[n as int]@);
        }
        let best = best_of(&groups[n]);
        if best.precedes(&worst) {
            at = n;
            worst = best;
        }
        n += 1;
    }
    assert(all.take(n as int) == all);
    at
}

/// Takes out the weakest species, one after the other, as long as more than
/// `target_species` are left and at least `target_bots` bots would remain.
pub fn prune_species(groups: &mut Vec<Vec<Bot>>, target_species: usize, target_bots: usize)
    requires
        are_species(views(old(groups)@)),
        total(views(old(groups)@)) <= usize::MAX,
    ensures
        views(final(groups)@) == pruned(
            views(old(groups)@),
            target_species as nat,
            target_bots as nat,
        ),
        are_species(views(final(groups)@)),
        total(views(final(groups)@)) <= total(views(old(groups)@)),
{
    let mut remaining = count_bots(groups);
    while groups.len() > target_species
        invariant
            are_species(views(groups@)),
            remaining == total(views(groups@)),
            total(views(groups@)) <= total(views(old(groups)@)),
            pruned(views(groups@), target_species as nat, target_bots as nat) == pruned(
                views(old(groups)@),
                target_species as nat,
                target_bots as nat,
            ),
        ensures
            views(groups@) == pruned(
                views(old(groups)@),
                target_species as nat,
                target_bots as nat,
            ),
            are_species(views(groups@)),
            total(views(groups@)) <= total(views(old(groups)@)),
        decreases groups@.len(),
    {
        let at = find_weakest(groups);
        let ghost before = views(groups@);
        assert(before[at as int] == groups@[at as int]@);
        proof {
            lemma_total_remove(before, at as int);
        }
        if remaining - groups[at].len() >= target_bots {
            let removed = groups.remove(at);
            remaining -= removed.len();
            assert(views(groups@) =~= before.remove(at as int));
            assert forall|i: int| 0 <= i < views(groups@).len() implies (
            #[trigger] views(groups@)[i]).len() > 0 && forall|k: int|
                0 <= k < views(groups@)[i].len() ==> (#[trigger] views(
                    groups@,
                )[i][k]).species == views(groups@)[i][0].species by {
                if i < at {
                    assert(views(groups@)[i] == before[i]);
                } else {
                    assert(views(groups@)[i] == before[i + 1]);
                }
            }
        } else {
            break ;
        }
    }
}

/// A group from which the member at `member` has been taken, the last member moving
/// into its place.
pub open spec fn without_member(group: Seq<Bot>, member: int) -> Seq<Bot> {
    group.update(member, group.last()).drop_last()
}

/// Taking out a member other than the first leaves a thinning of the group, as long
/// as `MIN_BOTS_PER_SPECIES` members remain.
pub proof fn lemma_without_member_thins(whole: Seq<Bot>, group: Seq<Bot>, member: int)
    requires
        is_thinning_of(whole, group),
        1 <= member < group.len(),
        group.len() > MIN_BOTS_PER_SPECIES,
    ensures
        is_thinning_of(whole, without_member(group, member)),
{
    broadcast use vstd::multiset::group_multiset_axioms;

    let moved = group.update(member, group.last());
    let after = without_member(group, member);
    vstd::seq_lib::to_multiset_update(group, member, group.last());
    assert(after =~= moved.remove(group.len() - 1));
    vstd::seq_lib::to_multiset_remove(moved, group.len() - 1);
    assert(after.to_multiset() =~= group.to_multiset().insert(group.last()).remove(
        group[member],
    ).remove(moved[group.len() - 1]));
    assert(after.to_multiset().subset_of(group.to_multiset())) by {
        assert forall|b: Bot| after.to_multiset().count(b) <= group.to_multiset().count(b) by {
            if member == group.len() - 1 {
            } else {
                assert(moved[group.len() - 1] == group.last());
            }
        }
    }
}

/// Takes the member at `member` out of the group at `group`; the group's last member
/// moves into its place.
pub fn remove_member(groups: &mut Vec<Vec<Bot>>, group: usize, member: usize) -> (removed: Bot)
    requires
        group < old(groups)@.len(),
        member < old(groups)@[group as int]@.len(),
    ensures
        removed == old(groups)@[group as int]@[member as int],
        views(final(groups)@) == views(old(groups)@).update(
            group as int,
            without_member(old(groups)@[group as int]@, member as int),
        ),
{
    let ghost before = views(groups@);
    let mut members = groups.remove(group);
    let removed = members.swap_remove(member);
    groups.insert(group, members);
    assert(views(groups@) =~= before.update(
        group as int,
        without_member(before[group as int], member as int),
    ));
    removed
}

/// The later of two places.
pub open spec fn later_of(first: usize, second: usize) -> usize {
    if first >= second {
        first
    } else {
        second
    }
}

/// Takes one member out of the group at `group`, given two drawn places: the member
/// at the later of the two.  The group's last member moves into its place.
pub fn thin_once(groups: &mut Vec<Vec<Bot>>, group: usize, first: usize, second: usize) -> (removed:
    Bot)
    requires
        group < old(groups)@.len(),
        first < old(groups)@[group as int]@.len(),
        second < old(groups)@[group as int]@.len(),
    ensures
        removed == old(groups)@[group as int]@[later_of(first, second) as int],
        views(final(groups)@) == views(old(groups)@).update(
            group as int,
            without_member(old(groups)@[group as int]@, later_of(first, second) as int),
        ),
{
    let member = if first >= second {
        first
    } else {
        second
    };
    remove_member(groups, group, member)
}

/// Lists the groups that have more than `MIN_BOTS_PER_SPECIES` members, in order.
pub fn eligible_groups(groups: &Vec<Vec<Bot>>) -> (candidates: Vec<usize>)
    ensures
        forall|k: int|
            0 <= k < candidates@.len() ==> (#[trigger] candidates@[k]) < groups@.len()
                && groups@[candidates@[k] as int]@.len() > MIN_BOTS_PER_SPECIES,
        forall|i: int|
            0 <= i < groups@.len() && (#[trigger] groups@[i])@.len() > MIN_BOTS_PER_SPECIES
                ==> candidates@.contains(i as usize),
        forall|k: int, l: int|
            0 <= k < l < candidates@.len() ==> (#[trigger] candidates@[k]) < (
            #[trigger] candidates@[l]),
{
    let mut candidates: Vec<usize> = Vec::new();
    let mut i: usize = 0;
    while i < groups.len()
        invariant
            i <= groups@.len(),
            forall|k: int|
                0 <= k < candidates@.len() ==> (#[trigger] candidates@[k]) < i
                    && groups@[candidates@[k] as int]@.len() > MIN_BOTS_PER_SPECIES,
            forall|j: int|
                0 <= j < i && (#[trigger] groups@[j])@.len() > MIN_BOTS_PER_SPECIES
                    ==> candidates@.contains(j as usize),
            forall|k: int, l: int|
                0 <= k < l < candidates@.len() ==> (#[trigger] candidates@[k]) < (
                #[trigger] candidates@[l]),
        decreases groups@.len() - i,
    {
        if groups[i].len() >= MIN_BOTS_PER_SPECIES + 1 {
            let ghost before = candidates@;
            candidates.push(i);
            assert forall|j: int|
                0 <= j < i + 1 && (#[trigger] groups@[j])@.len()
                    > MIN_BOTS_PER_SPECIES implies candidates@.contains(j as usize) by {
                if j < i {
                    assert(before.contains(j as usize));
                    let k = choose|k: int| 0 <= k < before.len() && before[k] == j as usize;
                    assert(candidates@[k] == j as usize);
                } else {
                    assert(candidates@[candidates@.len() - 1] == j as usize);
                }
            }
        }
        i += 1;
    }
    candidates
}

/// Takes bots out of the larger species, at random, until `target_bots` are left or
/// no species has more than `MIN_BOTS_PER_SPECIES` members.  The species is drawn
/// from those that have more; the member is the later of two draws from all members
/// but the first.
pub fn thin_species<R: rand::Rng>(groups: &mut Vec<Vec<Bot>>, target_bots: usize, rng: &mut R)
    requires
        total(views(old(groups)@)) <= usize::MAX,
    ensures
        thinned_from(views(old(groups)@), views(final(groups)@)),
        total(views(final(groups)@)) == culled_size(views(old(groups)@), target_bots as nat),
{
    let ghost whole = views(groups@);
    let mut remaining = count_bots(groups);
    proof {
        lemma_floor_below_total(whole);
        assert forall|i: int| 0 <= i < whole.len() implies is_thinning_of(
            #[trigger] whole[i],
            views(groups@)[i],
        ) by {}
    }
    while remaining > target_bots
        invariant
            whole == views(old(groups)@),
            thinned_from(whole, views(groups@)),
            remaining == total(views(groups@)),
            remaining <= total(whole),
            floor_size(views(groups@)) == floor_size(whole),
            floor_size(whole) <= remaining,
            total(whole) > target_bots ==> remaining >= target_bots,
            total(whole) <= target_bots ==> remaining == total(whole),
        ensures
            thinned_from(whole, views(groups@)),
            total(views(groups@)) == culled_size(whole, target_bots as nat),
        decreases remaining,
    {
        let ghost before = views(groups@);
        let candidates = eligible_groups(groups);
        if candidates.len() == 0 {
            proof {
                assert forall|i: int| 0 <= i < before.len() implies (#[trigger] before[i]).len()
                    <= MIN_BOTS_PER_SPECIES by {
                    if groups@[i]@.len() > MIN_BOTS_PER_SPECIES {
                        assert(candidates@.contains(i as usize));
                    }
                }
                lemma_floor_reached(before);
            }
            break ;
        }
        let picked = candidates[gen_index(rng, 0, candidates.len())];
        let size = groups[picked].len();
        let first = gen_index(rng, 1, size);
        let second = gen_index(rng, 1, size);
        let ghost member = later_of(first, second);
        proof {
            assert(before[picked as int] == groups@[picked as int]@);
            lemma_without_member_thins(
                whole[picked as int],
                before[picked as int],
                member as int,
            );
            lemma_total_update(
                before,
                picked as int,
                without_member(before[picked as int], member as int),
            );
            lemma_floor_update(
                before,
                picked as int,
                without_member(before[picked as int], member as int),
            );
            lemma_floor_below_total(before);
        }
        thin_once(groups, picked, first, second);
        remaining -= 1;
        proof {
            lemma_floor_below_total(views(groups@));
            assert forall|i: int| 0 <= i < whole.len() implies is_thinning_of(
                #[trigger] whole[i],
                views(groups@)[i],
            ) by {
                if i != picked {
                    assert(views(groups@)[i] == before[i]);
                }
            }
        }
    }
    proof {
        lemma_floor_below_total(views(groups@));
    }
}

/// Puts the groups one after the other.
pub fn flatten(groups: &Vec<Vec<Bot>>) -> (bots: Vec<Bot>)
    ensures
        bots@ == concat(views(groups@)),
{
    let ghost all = views(groups@);
    let mut bots: Vec<Bot> = Vec::new();
    let mut i: usize = 0;
    while i < groups.len()
        invariant
            i <= groups@.len(),
            all == views(groups@),
            bots@ == concat(all.take(i as int)),
        decreases groups@.len() - i,
    {
        let ghost done = bots@;
        let mut k: usize = 0;
        while k < groups[i as usize].len()
            invariant
                i < groups@.len(),
                k <= groups@[i as int]@.len(),
                bots@ == done + groups@[i as int]@.take(k as int),
            decreases groups@[i as int]@.len() - k,
        {
            bots.push(groups[i][k].clone());
            assert(bots@ =~= done + groups@[i as int]@.take(k as int + 1));
            k += 1;
        }
        proof {
            assert(groups@[i as int]@.take(k as int) == groups@[i as int]@);
            assert(all.take(i as int + 1).drop_last() == all.take(i as int));
            assert(all.take(i as int + 1).last() == groups@[i as int]@);
        }
        i += 1;
    }
    assert(all.take(i as int) == all);
    bots
}

/// The length of the groups put together is their total.
pub proof fn lemma_concat_len(groups: Seq<Seq<Bot>>)
    ensures
        concat(groups).len() == total(groups),
    decreases groups.len(),
{
    if groups.len() > 0 {
        lemma_concat_len(groups.drop_last());
    }
}

/// Culls the population after a tournament.
///
/// The bots are sorted into species.  As long as there are more than
/// `target_species`, the species with the worst best score is dropped, unless fewer
/// than `target_bots` bots would remain.  Then bots are taken out of the species that
/// have more than `MIN_BOTS_PER_SPECIES` members, at random but never the first of
/// a species, until `target_bots` are left or no such species remains.
///
/// Returns the survivors, species by species, and the standings of all species that
/// there were, from the best to the worst.
pub fn cull_bots<R: rand::Rng>(
    bots: Vec<Bot>,
    target_species: usize,
    target_bots: usize,
    rng: &mut R,
) -> (culled: (Vec<Bot>, Vec<(Species, BotScore)>))
    ensures
        culled.1@ == ranked(grouped(bots@)),
        exists|survivors: Seq<Seq<Bot>>|
            {
                &&& #[trigger] thinned_from(
                    pruned(grouped(bots@), target_species as nat, target_bots as nat),
                    survivors,
                )
                &&& culled.0@ == concat(survivors)
            },
        culled.0@.len() == culled_size(
            pruned(grouped(bots@), target_species as nat, target_bots as nat),
            target_bots as nat,
        ),
{
    let mut species = group_by_species(&bots);
    proof {
        lemma_grouped_partitions(bots@);
        assert(bots@.len() == bots.len());
    }
    let standings = standings_of(&species);
    let top_species = rank_standings(&standings);
    prune_species(&mut species, target_species, target_bots);
    thin_species(&mut species, target_bots, rng);
    let survivors = flatten(&species);
    proof {
        lemma_concat_len(views(species@));
        assert(thinned_from(
            pruned(grouped(bots@), target_species as nat, target_bots as nat),
            views(species@),
        ));
    }
    (survivors, top_species)
}

/// Every member of every group is one of the bots.
pub open spec fn are_drawn_from(groups: Seq<Seq<Bot>>, bots: Seq<Bot>) -> bool {
    forall|i: int, k: int|
        0 <= i < groups.len() && 0 <= k < groups[i].len() ==> bots.contains(
            #[trigger] groups[i][k],
        )
}

/// Grouping invents no bot: every member of a group is one of the bots.
pub proof fn lemma_grouped_drawn_from(bots: Seq<Bot>)
    ensures
        are_drawn_from(grouped(bots), bots),
    decreases bots.len(),
{
    if bots.len() > 0 {
        let before = grouped(bots.drop_last());
        let bot = bots.last();
        let after = grouped(bots);
        lemma_grouped_drawn_from(bots.drop_last());
        lemma_position_of(before, bot.species);
        assert forall|i: int, k: int|
            0 <= i < after.len() && 0 <= k < after[i].len() implies bots.contains(
            #[trigger] after[i][k],
        ) by {
            let member = after[i][k];
            if member == bot {
                assert(bots[bots.len() - 1] == bot);
            } else {
                assert(i < before.len() && k < before[i].len() && before[i][k] == member) by {
                    match position_of(before, bot.species) {
                        Some(p) => {
                            if i == p {
                                assert(after[i] == before[i].push(bot));
                            } else {
                                assert(after[i] == before[i]);
                            }
                        },
                        None => {
                        },
                    }
                }
                assert(bots.drop_last().contains(before[i][k]));
                let at = choose|at: int|
                    0 <= at < bots.drop_last().len() && bots.drop_last()[at] == member;
                assert(bots[at] == member);
            }
        }
    }
}

/// Adding a bot to a group adds it to the groups put together.
pub proof fn lemma_concat_push(groups: Seq<Seq<Bot>>, i: int, bot: Bot)
    requires
        0 <= i < groups.len(),
    ensures
        concat(groups.update(i, groups[i].push(bot))).to_multiset() == concat(
            groups,
        ).to_multiset().insert(bot),
    decreases groups.len(),
{
    let updated = groups.update(i, groups[i].push(bot));
    if i == groups.len() - 1 {
        assert(updated.drop_last() =~= groups.drop_last());
        assert(concat(updated) =~= concat(groups).push(bot));
        vstd::seq_lib::to_multiset_build(concat(groups), bot);
    } else {
        assert(updated.drop_last() =~= groups.drop_last().update(
            i,
            groups.drop_last()[i].push(bot),
        ));
        assert(updated.last() == groups.last());
        lemma_concat_push(groups.drop_last(), i, bot);
        vstd::seq_lib::lemma_multiset_commutative(concat(updated.drop_last()), groups.last());
        vstd::seq_lib::lemma_multiset_commutative(concat(groups.drop_last()), groups.last());
        assert(concat(updated).to_multiset() =~= concat(groups).to_multiset().insert(bot));
    }
}

/// Grouping loses no bot and doubles none: the groups put together hold the same
/// bots, each as often as before.
pub proof fn lemma_grouped_holds_all(bots: Seq<Bot>)
    ensures
        concat(grouped(bots)).to_multiset() == bots.to_multiset(),
    decreases bots.len(),
{
    if bots.len() == 0 {
        assert(concat(grouped(bots)) =~= bots);
    } else {
        let before = grouped(bots.drop_last());
        let bot = bots.last();
        lemma_grouped_holds_all(bots.drop_last());
        lemma_position_of(before, bot.species);
        assert(bots =~= bots.drop_last().push(bot));
        vstd::seq_lib::to_multiset_build(bots.drop_last(), bot);
        match position_of(before, bot.species) {
            Some(i) => {
                lemma_concat_push(before, i, bot);
            },
            None => {
                assert(before.push(seq![bot]).drop_last() =~= before);
                assert(concat(before.push(seq![bot])) =~= concat(before).push(bot));
                vstd::seq_lib::to_multiset_build(concat(before), bot);
            },
        }
    }
}

/// Pruning keeps groups as they are: what is left are species, no two the same, every
/// member one of the bots that the groups were drawn from, and no fewer than the
/// target where there were that many.
pub proof fn lemma_pruned_keeps(
    groups: Seq<Seq<Bot>>,
    target_species: nat,
    target_bots: nat,
    bots: Seq<Bot>,
)
    requires
        are_species(groups),
        are_distinct(groups),
        are_drawn_from(groups, bots),
    ensures
        are_species(pruned(groups, target_species, target_bots)),
        are_distinct(pruned(groups, target_species, target_bots)),
        are_drawn_from(pruned(groups, target_species, target_bots), bots),
        total(groups) >= target_bots ==> total(pruned(groups, target_species, target_bots))
            >= target_bots,
        total(pruned(groups, target_species, target_bots)) <= total(groups),
    decreases groups.len(),
{
    if groups.len() > target_species && total(groups) - groups[weakest(groups)].len()
        >= target_bots {
        lemma_weakest_in_range(groups);
        let at = weakest(groups);
        let rest = groups.remove(at);
        lemma_total_remove(groups, at);
        assert forall|i: int| 0 <= i < rest.len() implies (#[trigger] rest[i]).len() > 0
            && forall|k: int|
            0 <= k < rest[i].len() ==> (#[trigger] rest[i][k]).species == rest[i][0].species by {
            if i < at {
                assert(rest[i] == groups[i]);
            } else {
                assert(rest[i] == groups[i + 1]);
            }
        }
        assert forall|i: int, j: int| 0 <= i < j < rest.len() implies (
        #[trigger] rest[i])[0].species != (#[trigger] rest[j])[0].species by {
            let a = if i < at {
                i
            } else {
                i + 1
            };
            let b = if j < at {
                j
            } else {
                j + 1
            };
            assert(rest[i] == groups[a] && rest[j] == groups[b]);
        }
        assert forall|i: int, k: int|
            0 <= i < rest.len() && 0 <= k < rest[i].len() implies bots.contains(
            #[trigger] rest[i][k],
        ) by {
            let a = if i < at {
                i
            } else {
                i + 1
            };
            assert(rest[i] == groups[a]);
            assert(bots.contains(groups[a][k]));
        }
        lemma_pruned_keeps(rest, target_species, target_bots, bots);
    }
}

/// The groups put together begin with the first group.
pub proof fn lemma_concat_first(groups: Seq<Seq<Bot>>)
    requires
        groups.len() > 0,
    ensures
        concat(groups) == groups[0] + concat(groups.skip(1)),
    decreases groups.len(),
{
    if groups.len() == 1 {
        assert(concat(groups.drop_last()) =~= Seq::<Bot>::empty());
        assert(concat(groups.skip(1)) =~= Seq::<Bot>::empty());
        assert(groups.last() == groups[0]);
        assert(concat(groups) == concat(groups.drop_last()) + groups.last());
        assert(concat(groups) =~= groups[0] + concat(groups.skip(1)));
    } else {
        lemma_concat_first(groups.drop_last());
        assert(groups.drop_last().skip(1) =~= groups.skip(1).drop_last());
        assert(groups.skip(1).last() == groups.last());
        assert(groups.drop_last()[0] == groups[0]);
        assert(concat(groups) =~= groups[0] + concat(groups.skip(1)));
    }
}

/// Every bot of the groups put together is a member of one of the groups.
pub proof fn lemma_concat_members(groups: Seq<Seq<Bot>>, at: int)
    requires
        0 <= at < concat(groups).len(),
    ensures
        exists|i: int, k: int|
            0 <= i < groups.len() && 0 <= k < groups[i].len() && #[trigger] groups[i][k] == concat(
                groups,
            )[at],
    decreases groups.len(),
{
    if groups.len() > 0 {
        let head = concat(groups.drop_last());
        if at < head.len() {
            lemma_concat_members(groups.drop_last(), at);
            let (i, k) = choose|i: int, k: int|
                0 <= i < groups.drop_last().len() && 0 <= k < groups.drop_last()[i].len()
                    && #[trigger] groups.drop_last()[i][k] == head[at];
            assert(groups[i][k] == concat(groups)[at]);
        } else {
            assert(groups[groups.len() - 1][at - head.len()] == concat(groups)[at]);
        }
    }
}

/// No thinning leaves fewer bots than the floor.
pub proof fn lemma_thinned_above_floor(before: Seq<Seq<Bot>>, after: Seq<Seq<Bot>>)
    requires
        thinned_from(before, after),
    ensures
        total(after) >= floor_size(before),
    decreases before.len(),
{
    if before.len() > 0 {
        assert forall|i: int| 0 <= i < before.drop_last().len() implies is_thinning_of(
            #[trigger] before.drop_last()[i],
            after.drop_last()[i],
        ) by {
            assert(before.drop_last()[i] == before[i]);
            assert(is_thinning_of(before[i], after[i]));
        }
        lemma_thinned_above_floor(before.drop_last(), after.drop_last());
        assert(is_thinning_of(before[before.len() - 1], after[before.len() - 1]));
    }
}

/// Culling a population of at least `target_bots` bots leaves `target_bots` where the
/// floor of the species that are kept is no higher, and else the floor, which is the
/// fewest that any thinning of them leaves; in no case more than there were.
pub proof fn lemma_culled_size(bots: Seq<Bot>, target_species: nat, target_bots: nat)
    requires
        bots.len() >= target_bots,
    ensures
        ({
            let kept = pruned(grouped(bots), target_species, target_bots);
            let left = culled_size(kept, target_bots);
            &&& target_bots <= left <= bots.len()
            &&& floor_size(kept) <= target_bots ==> left == target_bots
            &&& floor_size(kept) > target_bots ==> left == floor_size(kept)
            &&& forall|after: Seq<Seq<Bot>>| #[trigger]
                thinned_from(kept, after) ==> total(after) >= floor_size(kept)
        }),
{
    let kept = pruned(grouped(bots), target_species, target_bots);
    lemma_grouped_partitions(bots);
    lemma_grouped_drawn_from(bots);
    lemma_pruned_keeps(grouped(bots), target_species, target_bots, bots);
    lemma_floor_below_total(kept);
    assert forall|after: Seq<Seq<Bot>>| #[trigger] thinned_from(kept, after) implies total(after)
        >= floor_size(kept) by {
        lemma_thinned_above_floor(kept, after);
    }
}

} // verus!
