//! Species and the record of when each appeared and died out.

use vstd::prelude::*;
use vstd::string::*;
use crate::population::Bot;
use crate::score::BotScore;

verus! {

/// The identity of a lineage: an opaque 64-bit number.
#[derive(Copy, Clone, Debug, PartialEq, Eq, Hash, Structural)]
pub struct Species(pub u64);

/// The number of entries in each of the two name tables.
pub const NAME_TABLE_SIZE: u64 = 4096;

impl Species {
    /// The places in the table of first names and in the table of last names at which
    /// the name of the species is found: the identifier modulo the table size, and
    /// the identifier divided by the table size, modulo the table size.
    pub fn name_indices(&self) -> (indices: (usize, usize))
        ensures
            indices.0 == self.0 % 4096,
            indices.1 == (self.0 / 4096) % 4096,
    {
        ((self.0 % NAME_TABLE_SIZE) as usize, ((self.0 / NAME_TABLE_SIZE) % NAME_TABLE_SIZE) as usize)
    }
}

/// What is recorded of a species.
#[derive(Debug, Copy, Clone, PartialEq, Eq)]
pub struct SpeciesInfo {
    pub round_introduced: usize,
    pub round_extinct: Option<usize>,
    pub parents: Option<(Species, Species)>,
    pub best_score: BotScore,
}

/// The record of one species.
#[derive(Debug, Copy, Clone, PartialEq, Eq)]
pub struct Entry {
    pub species: Species,
    pub info: SpeciesInfo,
}

/// The record of every species that has been seen, in the order in which they were
/// first seen.
#[derive(Debug)]
pub struct FamilyTree(Vec<Entry>);

impl View for FamilyTree {
    type V = Seq<Entry>;

    /// The entries, in the order in which their species were first seen.
    closed spec fn view(&self) -> Seq<Entry> {
        self.0@
    }
}

impl Clone for FamilyTree {
    fn clone(&self) -> (copy: FamilyTree)
        ensures
            copy@ == self@,
    {
        proof {
            use_type_invariant(self);
        }
        FamilyTree(copy_of(&self.0))
    }
}

/// What the entries record of species `s`: the first entry for it counts.
pub open spec fn lookup(entries: Seq<Entry>, s: Species) -> Option<SpeciesInfo>
    decreases entries.len(),
{
    if entries.len() == 0 {
        None
    } else {
        match lookup(entries.drop_last(), s) {
            Some(info) => Some(info),
            None => if entries.last().species == s {
                Some(entries.last().info)
            } else {
                None
            },
        }
    }
}

/// No species has two entries.
pub open spec fn distinct(entries: Seq<Entry>) -> bool {
    forall|i: int, j: int|
        0 <= i < j < entries.len() ==> (#[trigger] entries[i]).species != (
        #[trigger] entries[j]).species
}

/// What is recorded of species `s` after the bots have been taken in at round
/// `round`, where `before` was recorded of it: each bot of the species, in turn,
/// opens the record if there is none yet, with the round, the bot's parents and
/// its score, and else raises the best score of the record to its own where that
/// is better.
pub open spec fn taken_in(
    before: Option<SpeciesInfo>,
    bots: Seq<Bot>,
    s: Species,
    round: usize,
) -> Option<SpeciesInfo>
    decreases bots.len(),
{
    if bots.len() == 0 {
        before
    } else {
        let so_far = taken_in(before, bots.drop_last(), s, round);
        let bot = bots.last();
        if bot.species != s {
            so_far
        } else {
            match so_far {
                Some(info) => Some(
                    SpeciesInfo { best_score: info.best_score.max_spec(bot.score), ..info },
                ),
                None => Some(
                    SpeciesInfo {
                        round_introduced: round,
                        round_extinct: None,
                        parents: bot.parents,
                        best_score: bot.score,
                    },
                ),
            }
        }
    }
}

/// Whether a bot of species `s` is among the bots.
pub open spec fn is_present(bots: Seq<Bot>, s: Species) -> bool {
    exists|i: int| 0 <= i < bots.len() && (#[trigger] bots[i]).species == s
}

/// The record with the round of extinction set to `round`, unless one is set already.
pub open spec fn marked_extinct(info: SpeciesInfo, round: usize) -> SpeciesInfo {
    SpeciesInfo {
        round_extinct: match info.round_extinct {
            Some(r) => Some(r),
            None => Some(round),
        },
        ..info
    }
}

/// What is recorded of species `s` after a generation: where the species is among
/// the bots, what taking them in gives; where it is not, what was recorded, marked
/// extinct.
pub open spec fn analysed(
    before: Option<SpeciesInfo>,
    bots: Seq<Bot>,
    s: Species,
    round: usize,
) -> Option<SpeciesInfo> {
    if is_present(bots, s) {
        taken_in(before, bots, s, round)
    } else {
        match before {
            Some(info) => Some(marked_extinct(info, round)),
            None => None,
        }
    }
}

/// Where no bot is of species `s`, taking the bots in changes nothing of its record.
pub proof fn lemma_absent_not_taken_in(
    before: Option<SpeciesInfo>,
    bots: Seq<Bot>,
    s: Species,
    round: usize,
)
    requires
        !is_present(bots, s),
    ensures
        taken_in(before, bots, s, round) == before,
    decreases bots.len(),
{
    if bots.len() > 0 {
        assert(bots[bots.len() - 1].species != s);
        assert forall|i: int| 0 <= i < bots.drop_last().len() implies (
        #[trigger] bots.drop_last()[i]).species != s by {
            assert(bots.drop_last()[i] == bots[i]);
        }
        lemma_absent_not_taken_in(before, bots.drop_last(), s, round);
    }
}

/// Taking bots in keeps what a record says of the rounds and the parents, and never
/// lowers its best score.
pub proof fn lemma_taken_in_keeps(info: SpeciesInfo, bots: Seq<Bot>, s: Species, round: usize)
    ensures
        taken_in(Some(info), bots, s, round) matches Some(after) && after.round_introduced
            == info.round_introduced && after.round_extinct == info.round_extinct && after.parents
            == info.parents && !after.best_score.precedes_spec(info.best_score),
    decreases bots.len(),
{
    crate::score::lemma_lex_less_irreflexive(info.best_score.key());
    if bots.len() > 0 {
        lemma_taken_in_keeps(info, bots.drop_last(), s, round);
        let so_far = taken_in(Some(info), bots.drop_last(), s, round).unwrap();
        let bot = bots.last();
        if bot.species == s && so_far.best_score.precedes_spec(bot.score) {
            if bot.score.precedes_spec(info.best_score) {
                crate::score::lemma_lex_less_transitive(
                    so_far.best_score.key(),
                    bot.score.key(),
                    info.best_score.key(),
                );
            }
        }
    }
}

/// What one generation does to the record of a species: the record is never
/// deleted, a species that was marked extinct stays marked with the same round, the
/// round of introduction stays, and the best score is never lowered.
pub proof fn lemma_analysed_keeps(info: SpeciesInfo, bots: Seq<Bot>, s: Species, round: usize)
    ensures
        analysed(Some(info), bots, s, round) matches Some(after) && after.round_introduced
            == info.round_introduced && (info.round_extinct is Some ==> after.round_extinct
            == info.round_extinct) && after.parents == info.parents
            && !after.best_score.precedes_spec(info.best_score),
{
    lemma_taken_in_keeps(info, bots, s, round);
    crate::score::lemma_lex_less_irreflexive(info.best_score.key());
}

/// A species that has been marked extinct stays so, with the same round, through any
/// two generations that follow one another.
pub proof fn lemma_extinct_stays_extinct(
    info: SpeciesInfo,
    first: Seq<Bot>,
    first_round: usize,
    second: Seq<Bot>,
    second_round: usize,
    s: Species,
)
    requires
        info.round_extinct is Some,
    ensures
        analysed(analysed(Some(info), first, s, first_round), second, s, second_round) matches Some(
            after,
        ) && after.round_extinct == info.round_extinct,
{
    lemma_analysed_keeps(info, first, s, first_round);
    lemma_analysed_keeps(
        analysed(Some(info), first, s, first_round).unwrap(),
        second,
        s,
        second_round,
    );
}

impl FamilyTree {
    /// No species has two entries.
    #[verifier::type_invariant]
    spec fn is_distinct(self) -> bool {
        distinct(self.0@)
    }

    /// What the tree records of species `s`.
    pub open spec fn info_spec(&self, s: Species) -> Option<SpeciesInfo> {
        lookup(self@, s)
    }

    /// A tree without entries.
    pub fn new() -> (tree: FamilyTree)
        ensures
            tree@.len() == 0,
    {
        FamilyTree(Vec::new())
    }

    /// The tree with these entries: `None` where a species has two of them.
    pub fn from_entries(entries: Vec<Entry>) -> (tree: Option<FamilyTree>)
        ensures
            match tree {
                Some(t) => t@ == entries@ && distinct(entries@),
                None => !distinct(entries@),
            },
    {
        let mut j: usize = 0;
        while j < entries.len()
            invariant
                j <= entries@.len(),
                forall|a: int, b: int|
                    0 <= a < b < j ==> (#[trigger] entries@[a]).species != (
                    #[trigger] entries@[b]).species,
            decreases entries@.len() - j,
        {
            let mut i: usize = 0;
            while i < j
                invariant
                    i <= j < entries@.len(),
                    forall|a: int| 0 <= a < i ==> (#[trigger] entries@[a]).species != entries@[j as int].species,
                decreases j - i,
            {
                if entries[i].species == entries[j].species {
                    return None;
                }
                i += 1;
            }
            j += 1;
        }
        Some(FamilyTree(entries))
    }

    /// The entries, in the order in which their species were first seen.
    pub fn entries(&self) -> (entries: &Vec<Entry>)
        ensures
            entries@ == self@,
            distinct(self@),
    {
        proof {
            use_type_invariant(self);
        }
        &self.0
    }

    /// What the tree records of species `s`.
    pub fn info(&self, s: Species) -> (found: Option<SpeciesInfo>)
        ensures
            found == self.info_spec(s),
    {
        proof {
            use_type_invariant(self);
        }
        match position(&self.0, s) {
            Some(i) => Some(self.0[i].info),
            None => None,
        }
    }

    /// Takes in the bots of a generation at round `round_number`.
    ///
    /// Every species among the bots has a record afterwards: the one it had, with the
    /// best score raised where a bot has a better one, or a new one that starts at
    /// this round.  Every species that has a record but no bot is marked extinct at
    /// this round, unless it was marked before.  No record is deleted, and the
    /// entries that there were stay in their places.
    pub fn analize(&mut self, bots: &[Bot], round_number: usize)
        ensures
            forall|s: Species|
                #[trigger] final(self).info_spec(s) == analysed(
                    old(self).info_spec(s),
                    bots@,
                    s,
                    round_number,
                ),
            final(self)@.len() >= old(self)@.len(),
            forall|i: int|
                0 <= i < old(self)@.len() ==> (#[trigger] final(self)@[i]).species == old(
                    self,
                )@[i].species,
    {
        proof {
            use_type_invariant(&*self);
        }
        let mut list = copy_of(&self.0);
        take_in(&mut list, bots, round_number);
        self.0 = list;
    }
}

/// A copy of a list of entries.
fn copy_of(entries: &Vec<Entry>) -> (copy: Vec<Entry>)
    ensures
        copy@ == entries@,
{
    let mut copy: Vec<Entry> = Vec::new();
    let mut i: usize = 0;
    while i < entries.len()
        invariant
            i <= entries@.len(),
            copy@ == entries@.take(i as int),
        decreases entries@.len() - i,
    {
        copy.push(entries[i]);
        assert(copy@ =~= entries@.take(i as int + 1));
        i += 1;
    }
    assert(entries@.take(i as int) == entries@);
    copy
}

/// Finds the entry of species `s`.
fn position(entries: &Vec<Entry>, s: Species) -> (found: Option<usize>)
    requires
        distinct(entries@),
    ensures
        match found {
            Some(i) => i < entries@.len() && entries@[i as int].species == s && lookup(entries@, s)
                == Some(entries@[i as int].info),
            None => lookup(entries@, s) is None && forall|j: int|
                0 <= j < entries@.len() ==> (#[trigger] entries@[j]).species != s,
        },
{
    let mut i: usize = 0;
    while i < entries.len()
        invariant
            i <= entries@.len(),
            forall|j: int| 0 <= j < i ==> (#[trigger] entries@[j]).species != s,
        decreases entries@.len() - i,
    {
        if entries[i].species == s {
            proof {
                lemma_lookup_distinct(entries@, i as int);
            }
            return Some(i);
        }
        i += 1;
    }
    proof {
        lemma_lookup_absent(entries@, s);
    }
    None
}

/// Takes the bots of a generation into a list of entries.
fn take_in(list: &mut Vec<Entry>, bots: &[Bot], round_number: usize)
    requires
        distinct(old(list)@),
    ensures
        distinct(final(list)@),
        forall|s: Species|
            #[trigger] lookup(final(list)@, s) == analysed(
                lookup(old(list)@, s),
                bots@,
                s,
                round_number,
            ),
        final(list)@.len() >= old(list)@.len(),
        forall|i: int|
            0 <= i < old(list)@.len() ==> (#[trigger] final(list)@[i]).species == old(list)@[i].species,
{
    let ghost before = list@;
    let known = list.len();
    let mut present: Vec<bool> = Vec::new();
    let mut k: usize = 0;
    while k < known
        invariant
            k <= known,
            present@.len() == k,
            forall|j: int| 0 <= j < k ==> !(#[trigger] present@[j]),
        decreases known - k,
    {
        present.push(false);
        k += 1;
    }
    let mut n: usize = 0;
    while n < bots.len()
        invariant
            n <= bots@.len(),
            known == before.len(),
            distinct(before),
            distinct(list@),
            list@.len() >= known,
            present@.len() == known,
            forall|j: int|
                0 <= j < known ==> (#[trigger] list@[j]).species == before[j].species,
            forall|j: int|
                0 <= j < known ==> (#[trigger] present@[j]) == is_present(
                    bots@.take(n as int),
                    before[j].species,
                ),
            forall|j: int|
                known <= j < list@.len() ==> is_present(
                    bots@.take(n as int),
                    (#[trigger] list@[j]).species,
                ),
            forall|s: Species|
                #[trigger] lookup(list@, s) == taken_in(
                    lookup(before, s),
                    bots@.take(n as int),
                    s,
                    round_number,
                ),
        decreases bots@.len() - n,
    {
        let ghost entries = list@;
        let ghost seen = bots@.take(n as int);
        let ghost next = bots@.take(n as int + 1);
        let species = bots[n].species;
        let score = bots[n].score;
        proof {
            assert(next.drop_last() == seen);
            assert(next.last() == bots@[n as int]);
            assert forall|s: Species| is_present(next, s) == (is_present(seen, s) || s
                == species) by {
                if is_present(seen, s) {
                    let i = choose|i: int| 0 <= i < seen.len() && (#[trigger] seen[i]).species == s;
                    assert(next[i].species == s);
                }
                if s == species {
                    assert(next[n as int].species == s);
                }
                if is_present(next, s) {
                    let i = choose|i: int| 0 <= i < next.len() && (#[trigger] next[i]).species == s;
                    if i < n {
                        assert(seen[i].species == s);
                    }
                }
            }
        }
        match position(list, species) {
            Some(i) => {
                let best = list[i].info.best_score.max(score);
                list[i].info.best_score = best;
                if i < known {
                    present[i] = true;
                }
                proof {
                    let after = list@;
                    assert forall|a: int, b: int| 0 <= a < b < after.len() implies (
                    #[trigger] after[a]).species != (#[trigger] after[b]).species by {
                        assert(entries[a].species == after[a].species);
                        assert(entries[b].species == after[b].species);
                    }
                    assert forall|s: Species| #[trigger]
                        lookup(after, s) == taken_in(
                            lookup(before, s),
                            next,
                            s,
                            round_number,
                        ) by {
                        lemma_lookup_update(entries, i as int, after[i as int].info, s);
                        assert(after =~= entries.update(
                            i as int,
                            Entry { species, info: after[i as int].info },
                        ));
                        assert(lookup(entries, s) == taken_in(
                            lookup(before, s),
                            seen,
                            s,
                            round_number,
                        ));
                    }
                    assert forall|j: int| known <= j < after.len() implies is_present(
                        next,
                        (#[trigger] after[j]).species,
                    ) by {
                        assert(after[j].species == entries[j].species);
                        assert(is_present(seen, entries[j].species));
                    }
                    assert forall|j: int| 0 <= j < known implies (#[trigger] present@[j])
                        == is_present(next, before[j].species) by {
                        assert(entries[j].species == before[j].species);
                        if j == i {
                        } else {
                            assert(entries[j].species != entries[i as int].species);
                        }
                    }
                }
            },
            None => {
                list.push(
                    Entry {
                        species,
                        info: SpeciesInfo {
                            round_introduced: round_number,
                            round_extinct: None,
                            parents: bots[n].parents,
                            best_score: score,
                        },
                    },
                );
                proof {
                    let after = list@;
                    assert(after.drop_last() == entries);
                    assert forall|s: Species| #[trigger]
                        lookup(after, s) == taken_in(
                            lookup(before, s),
                            next,
                            s,
                            round_number,
                        ) by {
                        assert(lookup(entries, s) == taken_in(
                            lookup(before, s),
                            seen,
                            s,
                            round_number,
                        ));
                    }
                    assert forall|j: int| known <= j < after.len() implies is_present(
                        next,
                        (#[trigger] after[j]).species,
                    ) by {
                        if j < entries.len() {
                            assert(after[j] == entries[j]);
                            assert(is_present(seen, entries[j].species));
                        }
                    }
                    assert forall|j: int| 0 <= j < known implies (#[trigger] present@[j])
                        == is_present(next, before[j].species) by {
                        assert(entries[j].species == before[j].species);
                    }
                }
            },
        }
        n += 1;
    }
    assert(bots@.take(n as int) == bots@);
    let ghost taken = list@;
    let mut j: usize = 0;
    while j < known
        invariant
            j <= known,
            known == before.len(),
            known <= taken.len(),
            list@.len() == taken.len(),
            present@.len() == known,
            distinct(taken),
            forall|i: int|
                0 <= i < known ==> (#[trigger] present@[i]) == is_present(
                    bots@,
                    taken[i].species,
                ),
            forall|i: int|
                0 <= i < taken.len() ==> #[trigger] list@[i] == if i < j && !present@[i] {
                    Entry { species: taken[i].species, info: marked_extinct(taken[i].info, round_number) }
                } else {
                    taken[i]
                },
        decreases known - j,
    {
        if !present[j] {
            let extinct = list[j].info.round_extinct;
            list[j].info.round_extinct = match extinct {
                Some(r) => Some(r),
                None => Some(round_number),
            };
        }
        j += 1;
    }
    proof {
        let after = list@;
        assert forall|a: int, b: int| 0 <= a < b < after.len() implies (
        #[trigger] after[a]).species != (#[trigger] after[b]).species by {
            assert(taken[a].species == after[a].species);
            assert(taken[b].species == after[b].species);
        }
        assert forall|s: Species| #[trigger]
            lookup(after, s) == analysed(lookup(before, s), bots@, s, round_number) by {
            assert(lookup(taken, s) == taken_in(lookup(before, s), bots@, s, round_number));
            lemma_lookup_pointwise(taken, after, s);
            lemma_lookup_absent_or_found(taken, s);
            lemma_lookup_absent_or_found(before, s);
            if is_present(bots@, s) {
                if lookup(taken, s) is Some {
                    let i = choose|i: int|
                        0 <= i < taken.len() && (#[trigger] taken[i]).species == s && lookup(
                            taken,
                            s,
                        ) == Some(taken[i].info);
                    if i < known {
                        assert(present@[i]);
                    }
                    assert(after[i] == taken[i]);
                }
            } else {
                lemma_absent_not_taken_in(lookup(before, s), bots@, s, round_number);
                if lookup(taken, s) is Some {
                    let i = choose|i: int|
                        0 <= i < taken.len() && (#[trigger] taken[i]).species == s && lookup(
                            taken,
                            s,
                        ) == Some(taken[i].info);
                    if i >= known {
                        assert(is_present(bots@, taken[i].species));
                    }
                    assert(!present@[i]);
                }
            }
        }
    }
}

/// In a list without doubles, what is recorded of the species of an entry is that
/// entry.
pub proof fn lemma_lookup_distinct(entries: Seq<Entry>, i: int)
    requires
        0 <= i < entries.len(),
        forall|j: int| 0 <= j < i ==> (#[trigger] entries[j]).species != entries[i].species,
    ensures
        lookup(entries, entries[i].species) == Some(entries[i].info),
    decreases entries.len(),
{
    if i < entries.len() - 1 {
        assert(entries.drop_last()[i] == entries[i]);
        assert forall|j: int| 0 <= j < i implies (#[trigger] entries.drop_last()[j]).species
            != entries.drop_last()[i].species by {
            assert(entries.drop_last()[j] == entries[j]);
        }
        lemma_lookup_distinct(entries.drop_last(), i);
    } else {
        lemma_lookup_absent(entries.drop_last(), entries[i].species);
    }
}

/// Nothing is recorded of a species that no entry is for.
pub proof fn lemma_lookup_absent(entries: Seq<Entry>, s: Species)
    requires
        forall|j: int| 0 <= j < entries.len() ==> (#[trigger] entries[j]).species != s,
    ensures
        lookup(entries, s) is None,
    decreases entries.len(),
{
    if entries.len() > 0 {
        assert forall|j: int| 0 <= j < entries.drop_last().len() implies (
        #[trigger] entries.drop_last()[j]).species != s by {
            assert(entries.drop_last()[j] == entries[j]);
        }
        lemma_lookup_absent(entries.drop_last(), s);
        assert(entries[entries.len() - 1].species != s);
    }
}

/// What is recorded of a species is the record of one of the entries for it, and
/// nothing is recorded only where there is no entry for it.
pub proof fn lemma_lookup_absent_or_found(entries: Seq<Entry>, s: Species)
    ensures
        match lookup(entries, s) {
            Some(info) => exists|i: int|
                0 <= i < entries.len() && (#[trigger] entries[i]).species == s && lookup(
                    entries,
                    s,
                ) == Some(entries[i].info),
            None => forall|j: int| 0 <= j < entries.len() ==> (#[trigger] entries[j]).species != s,
        },
    decreases entries.len(),
{
    if entries.len() > 0 {
        lemma_lookup_absent_or_found(entries.drop_last(), s);
        match lookup(entries.drop_last(), s) {
            Some(info) => {
                let i = choose|i: int|
                    0 <= i < entries.drop_last().len() && (
                    #[trigger] entries.drop_last()[i]).species == s && lookup(
                        entries.drop_last(),
                        s,
                    ) == Some(entries.drop_last()[i].info);
                assert(entries[i] == entries.drop_last()[i]);
            },
            None => {
                assert forall|j: int| 0 <= j < entries.len() - 1 implies (
                #[trigger] entries[j]).species != s by {
                    assert(entries[j] == entries.drop_last()[j]);
                }
                if entries.last().species == s {
                    assert(entries[entries.len() - 1].species == s);
                }
            },
        }
    }
}

/// Changing the record of one entry of a list without doubles changes what is
/// recorded of that entry's species, and of no other.
pub proof fn lemma_lookup_update(entries: Seq<Entry>, i: int, info: SpeciesInfo, s: Species)
    requires
        0 <= i < entries.len(),
        distinct(entries),
    ensures
        lookup(entries.update(i, Entry { species: entries[i].species, info }), s) == if s
            == entries[i].species {
            Some(info)
        } else {
            lookup(entries, s)
        },
{
    let updated = entries.update(i, Entry { species: entries[i].species, info });
    if s == entries[i].species {
        assert(updated[i].species == s);
        assert forall|j: int| 0 <= j < i implies (#[trigger] updated[j]).species
            != updated[i].species by {
            assert(entries[j].species != entries[i].species);
        }
        lemma_lookup_distinct(updated, i);
    } else {
        lemma_lookup_same_species(entries, updated, s);
    }
}

/// Two lists that agree in every entry for species `s`, place by place, and are for
/// the same species throughout record the same of `s`.
pub proof fn lemma_lookup_same_species(a: Seq<Entry>, b: Seq<Entry>, s: Species)
    requires
        a.len() == b.len(),
        forall|j: int| 0 <= j < a.len() ==> (#[trigger] a[j]).species == b[j].species,
        forall|j: int| 0 <= j < a.len() && (#[trigger] a[j]).species == s ==> a[j] == b[j],
    ensures
        lookup(a, s) == lookup(b, s),
    decreases a.len(),
{
    if a.len() > 0 {
        assert forall|j: int| 0 <= j < a.drop_last().len() implies (
        #[trigger] a.drop_last()[j]).species == b.drop_last()[j].species by {
            assert(a.drop_last()[j] == a[j] && b.drop_last()[j] == b[j]);
        }
        assert forall|j: int|
            0 <= j < a.drop_last().len() && (#[trigger] a.drop_last()[j]).species
                == s implies a.drop_last()[j] == b.drop_last()[j] by {
            assert(a.drop_last()[j] == a[j] && b.drop_last()[j] == b[j]);
        }
        lemma_lookup_same_species(a.drop_last(), b.drop_last(), s);
        assert(a[a.len() - 1].species == b[a.len() - 1].species);
    }
}

/// In two lists for the same species throughout, without doubles, what is recorded
/// of a species is the record of the same place in both.
pub proof fn lemma_lookup_pointwise(a: Seq<Entry>, b: Seq<Entry>, s: Species)
    requires
        a.len() == b.len(),
        distinct(a),
        forall|j: int| 0 <= j < a.len() ==> (#[trigger] a[j]).species == b[j].species,
    ensures
        match lookup(a, s) {
            Some(info) => exists|i: int|
                0 <= i < a.len() && (#[trigger] a[i]).species == s && info == a[i].info && lookup(
                    b,
                    s,
                ) == Some(b[i].info),
            None => lookup(b, s) is None,
        },
{
    lemma_lookup_absent_or_found(a, s);
    match lookup(a, s) {
        Some(info) => {
            let i = choose|i: int|
                0 <= i < a.len() && (#[trigger] a[i]).species == s && lookup(a, s) == Some(
                    a[i].info,
                );
            assert forall|j: int| 0 <= j < i implies (#[trigger] b[j]).species
                != b[i].species by {
                assert(a[j].species != a[i].species);
            }
            lemma_lookup_distinct(b, i);
        },
        None => {
            assert forall|j: int| 0 <= j < b.len() implies (#[trigger] b[j]).species != s by {
                assert(a[j].species != s);
            }
            lemma_lookup_absent(b, s);
        },
    }
}

/// `text` begins with `word`.
pub open spec fn begins_with(text: Seq<char>, word: Seq<char>) -> bool {
    word.len() <= text.len() && text.take(word.len() as int) == word
}

/// `name` is made of `first`, one more character, and then something that begins
/// with `last`.
pub open spec fn is_named(name: Seq<char>, first: Seq<char>, last: Seq<char>) -> bool {
    &&& begins_with(name, first)
    &&& name.len() > first.len()
    &&& begins_with(name.skip(first.len() as int + 1), last)
}

/// The first last name from `from` on that, with `first`, makes `name`.
pub open spec fn last_name_from(
    name: Seq<char>,
    first: Seq<char>,
    last_names: Seq<String>,
    from: int,
) -> Option<int>
    decreases last_names.len() - from,
{
    if from < 0 || from >= last_names.len() {
        None
    } else if is_named(name, first, last_names[from]@) {
        Some(from)
    } else {
        last_name_from(name, first, last_names, from + 1)
    }
}

/// The first pair of a first name, from `from` on, and a last name that make `name`:
/// the earliest first name that has a last name, and for it the earliest last name.
pub open spec fn names_from(
    name: Seq<char>,
    first_names: Seq<String>,
    last_names: Seq<String>,
    from: int,
) -> Option<(int, int)>
    decreases first_names.len() - from,
{
    if from < 0 || from >= first_names.len() {
        None
    } else {
        match last_name_from(name, first_names[from]@, last_names, 0) {
            Some(j) => Some((from, j)),
            None => names_from(name, first_names, last_names, from + 1),
        }
    }
}

/// Whether `text` holds `word` at `at`.
fn holds_at(text: &str, at: usize, word: &str) -> (yes: bool)
    requires
        at <= text@.len(),
    ensures
        yes == begins_with(text@.skip(at as int), word@),
{
    let text_len = text.unicode_len();
    let word_len = word.unicode_len();
    if word_len > text_len - at {
        return false;
    }
    let mut k: usize = 0;
    while k < word_len
        invariant
            k <= word_len,
            word_len == word@.len(),
            text_len == text@.len(),
            at <= text_len,
            word_len <= text_len - at,
            forall|j: int| 0 <= j < k ==> text@[at + j] == word@[j],
        decreases word_len - k,
    {
        if text.get_char(at + k) != word.get_char(k) {
            assert(text@.skip(at as int).take(word_len as int)[k as int] != word@[k as int]);
            return false;
        }
        k += 1;
    }
    assert(text@.skip(at as int).take(word_len as int) =~= word@);
    true
}

impl Species {
    /// The species whose name `name` is, given the two tables of names: the place of
    /// the first name plus the place of the last name times the size of the table of
    /// first names.
    ///
    /// A name is read as a first name, one separating character and something that
    /// begins with a last name.  Of several readings, the one with the earliest first
    /// name counts, and of those the one with the earliest last name.  `None` where
    /// there is no reading.
    pub fn from_name(name: &str, first_names: &Vec<String>, last_names: &Vec<String>) -> (found:
        Option<Species>)
        requires
            first_names@.len() * last_names@.len() <= u64::MAX,
        ensures
            match names_from(name@, first_names@, last_names@, 0) {
                Some(p) => found == Some(Species((p.0 + p.1 * first_names@.len()) as u64)),
                None => found is None,
            },
    {
        let name_len = name.unicode_len();
        let mut i: usize = 0;
        while i < first_names.len()
            invariant
                i <= first_names@.len(),
                name_len == name@.len(),
                first_names@.len() * last_names@.len() <= u64::MAX,
                names_from(name@, first_names@, last_names@, 0) == names_from(
                    name@,
                    first_names@,
                    last_names@,
                    i as int,
                ),
            decreases first_names@.len() - i,
        {
            let first = first_names[i].as_str();
            let first_len = first.unicode_len();
            proof {
                assert(name@.skip(0) == name@);
            }
            if first_len < name_len && holds_at(name, 0, first) {
                let mut j: usize = 0;
                while j < last_names.len()
                    invariant
                        j <= last_names@.len(),
                        i < first_names@.len(),
                        first@ == first_names@[i as int]@,
                        first_len == first@.len(),
                        first_len < name_len,
                        name_len == name@.len(),
                        begins_with(name@, first@),
                        first_names@.len() * last_names@.len() <= u64::MAX,
                        names_from(name@, first_names@, last_names@, 0) == names_from(
                            name@,
                            first_names@,
                            last_names@,
                            i as int,
                        ),
                        last_name_from(name@, first@, last_names@, 0) == last_name_from(
                            name@,
                            first@,
                            last_names@,
                            j as int,
                        ),
                    decreases last_names@.len() - j,
                {
                    if holds_at(name, first_len + 1, last_names[j].as_str()) {
                        proof {
                            assert(i + j * first_names@.len() <= u64::MAX) by (nonlinear_arith)
                                requires
                                    i < first_names@.len(),
                                    j < last_names@.len(),
                                    first_names@.len() * last_names@.len() <= u64::MAX,
                            ;
                            assert(j * first_names@.len() <= u64::MAX) by (nonlinear_arith)
                                requires
                                    j < last_names@.len(),
                                    first_names@.len() * last_names@.len() <= u64::MAX,
                            ;
                        }
                        proof {
                            assert(is_named(name@, first@, last_names@[j as int]@));
                            assert(last_name_from(name@, first@, last_names@, j as int) == Some(
                                j as int,
                            ));
                            assert(names_from(name@, first_names@, last_names@, i as int) == Some(
                                (i as int, j as int),
                            ));
                        }
                        let width = first_names.len() as u64;
                        return Some(Species(i as u64 + j as u64 * width));
                    }
                    j += 1;
                }
            }
            proof {
                if !(first_len < name_len && begins_with(name@, first@)) {
                    lemma_no_last_name(name@, first@, last_names@, 0);
                }
            }
            i += 1;
        }
        None
    }
}

/// Where the first name does not fit, no last name does.
pub proof fn lemma_no_last_name(
    name: Seq<char>,
    first: Seq<char>,
    last_names: Seq<String>,
    from: int,
)
    requires
        !(first.len() < name.len() && begins_with(name, first)),
    ensures
        last_name_from(name, first, last_names, from) is None,
    decreases last_names.len() - from,
{
    if 0 <= from < last_names.len() {
        lemma_no_last_name(name, first, last_names, from + 1);
    }
}

impl Species {
    /// The name of the species: its first name from the one table, a blank, and its
    /// last name from the other.
    pub fn name(&self, first_names: &Vec<String>, last_names: &Vec<String>) -> (text: String)
        requires
            first_names@.len() == NAME_TABLE_SIZE,
            last_names@.len() == NAME_TABLE_SIZE,
        ensures
            text@ == first_names@[(self.0 % 4096) as int]@ + " "@ + last_names@[((self.0 / 4096)
                % 4096) as int]@,
    {
        let (first, last) = self.name_indices();
        let mut text = String::from_str(first_names[first].as_str());
        text.append(" ");
        text.append(last_names[last].as_str());
        text
    }
}

} // verus!
