//! The part of a generation that follows the tournament: the best bot is picked, the
//! next generation is bred, and the family tree is brought up to date.

use vstd::prelude::*;
use crate::family_tree::{analysed, FamilyTree, Species};
use crate::population::{grouped, ranked, Bot};
use crate::reproduction::{best_first, can_reproduce, is_next_generation, reproduce};
use crate::score::BotScore;
use crate::sockets::TrainingProgressAnnouncement;

verus! {

/// What a generation ends with.
#[derive(Debug)]
pub struct GenerationOutcome {
    /// The bots of the next generation.
    pub bots: Vec<Bot>,
    /// The standings of the species of the generation that ends, the best first.
    pub standings: Vec<(Species, BotScore)>,
    /// The snapshot for the observers.
    pub announcement: TrainingProgressAnnouncement,
}

/// The marks by which the first species are told apart in the histogram of a
/// generation, and the mark of every further species.
pub open spec fn mark(place: int) -> char {
    if place == 0 {
        '-'
    } else if place == 1 {
        '#'
    } else if place == 2 {
        '*'
    } else if place == 3 {
        '&'
    } else if place == 4 {
        '$'
    } else if 5 <= place < 15 {
        crate::render::digit(place - 5)
    } else {
        '_'
    }
}

/// The species of the bots, each once, in the order in which they first occur.
pub open spec fn species_seen(bots: Seq<Bot>) -> Seq<Species>
    decreases bots.len(),
{
    if bots.len() == 0 {
        Seq::empty()
    } else {
        let before = species_seen(bots.drop_last());
        if before.contains(bots.last().species) {
            before
        } else {
            before.push(bots.last().species)
        }
    }
}

/// The histogram of a generation: for each of the first `width` bots the mark of its
/// species, the species marked in the order in which they first occur among all bots.
pub open spec fn histogram_of(bots: Seq<Bot>, width: nat) -> Seq<char> {
    Seq::new(
        if width <= bots.len() {
            width
        } else {
            bots.len()
        },
        |i: int| mark(species_seen(bots).index_of(bots[i].species)),
    )
}

fn mark_for(place: usize) -> (c: char)
    ensures
        c == mark(place as int),
{
    if place == 0 {
        '-'
    } else if place == 1 {
        '#'
    } else if place == 2 {
        '*'
    } else if place == 3 {
        '&'
    } else if place == 4 {
        '$'
    } else if place == 5 {
        '0'
    } else if place == 6 {
        '1'
    } else if place == 7 {
        '2'
    } else if place == 8 {
        '3'
    } else if place == 9 {
        '4'
    } else if place == 10 {
        '5'
    } else if place == 11 {
        '6'
    } else if place == 12 {
        '7'
    } else if place == 13 {
        '8'
    } else if place == 14 {
        '9'
    } else {
        '_'
    }
}

/// The place of a species in a list that holds it once.
fn place_of(seen: &Vec<Species>, s: Species) -> (place: Option<usize>)
    requires
        seen@.no_duplicates(),
    ensures
        match place {
            Some(p) => seen@.contains(s) && p == seen@.index_of(s) && p < seen@.len(),
            None => !seen@.contains(s),
        },
{
    let mut i: usize = 0;
    while i < seen.len()
        invariant
            i <= seen@.len(),
            seen@.no_duplicates(),
            forall|j: int| 0 <= j < i ==> seen@[j] != s,
        decreases seen@.len() - i,
    {
        if seen[i] == s {
            proof {
                assert(seen@.contains(s));
                let at = seen@.index_of(s);
                assert(seen@[at] == s);
            }
            return Some(i);
        }
        i += 1;
    }
    None
}

/// The species that have been seen are listed once each.
pub proof fn lemma_species_seen(bots: Seq<Bot>)
    ensures
        species_seen(bots).no_duplicates(),
        forall|i: int| 0 <= i < bots.len() ==> species_seen(bots).contains(#[trigger] bots[i].species),
    decreases bots.len(),
{
    if bots.len() > 0 {
        let before = species_seen(bots.drop_last());
        let after = species_seen(bots);
        lemma_species_seen(bots.drop_last());
        assert forall|i: int| 0 <= i < bots.len() implies after.contains(
            #[trigger] bots[i].species,
        ) by {
            if i < bots.len() - 1 {
                assert(bots.drop_last()[i] == bots[i]);
                let at = choose|at: int| 0 <= at < before.len() && before[at] == bots[i].species;
                assert(after[at] == bots[i].species);
            } else if before.contains(bots.last().species) {
            } else {
                assert(after[after.len() - 1] == bots[i].species);
            }
        }
    }
}

/// Draws the histogram of a generation.
pub fn histogram(bots: &Vec<Bot>, width: usize) -> (marks: Vec<char>)
    ensures
        marks@ == histogram_of(bots@, width as nat),
{
    let mut seen: Vec<Species> = Vec::new();
    let mut n: usize = 0;
    assert(bots@.take(0).len() == 0);
    while n < bots.len()
        invariant
            n <= bots@.len(),
            seen@ == species_seen(bots@.take(n as int)),
            seen@.no_duplicates(),
        decreases bots@.len() - n,
    {
        proof {
            assert(bots@.take(n as int + 1).drop_last() == bots@.take(n as int));
            assert(bots@.take(n as int + 1).last() == bots@[n as int]);
            lemma_species_seen(bots@.take(n as int + 1));
        }
        match place_of(&seen, bots[n].species) {
            Some(_) => {},
            None => {
                seen.push(bots[n].species);
            },
        }
        n += 1;
    }
    proof {
        assert(bots@.take(n as int) == bots@);
        lemma_species_seen(bots@);
    }
    let mut marks: Vec<char> = Vec::new();
    let mut i: usize = 0;
    while i < bots.len() && i < width
        invariant
            i <= bots@.len(),
            i <= width,
            seen@ == species_seen(bots@),
            seen@.no_duplicates(),
            forall|k: int| 0 <= k < bots@.len() ==> seen@.contains(#[trigger] bots@[k].species),
            marks@.len() == i,
            forall|k: int|
                0 <= k < i ==> marks@[k] == mark(seen@.index_of(bots@[k].species)),
        decreases bots@.len() - i,
    {
        let place = match place_of(&seen, bots[i].species) {
            Some(p) => p,
            None => 0,
        };
        marks.push(mark_for(place));
        i += 1;
    }
    assert(marks@ =~= histogram_of(bots@, width as nat));
    marks
}

/// Ends a generation, given its bots in the order in which the tournament left them:
/// the strongest last.
///
/// The best bot is the last of them.  The next generation is bred from the bots, the
/// strongest first, and the family tree takes in the next generation at round
/// `iteration`.
pub fn conclude_generation<R: rand::Rng>(
    ranked_bots: Vec<Bot>,
    iteration: usize,
    tree: &mut FamilyTree,
    rng: &mut R,
) -> (outcome: GenerationOutcome)
    requires
        can_reproduce(ranked_bots@.reverse(), iteration),
    ensures
        outcome.announcement.best_bot == ranked_bots@.last(),
        outcome.announcement.iteration_number == iteration,
        outcome.announcement.species@ == final(tree)@,
        outcome.standings@ == ranked(grouped(ranked_bots@.reverse())),
        is_next_generation(ranked_bots@.reverse(), iteration, outcome.bots@),
        forall|s: Species|
            #[trigger] final(tree).info_spec(s) == analysed(
                old(tree).info_spec(s),
                outcome.bots@,
                s,
                iteration,
            ),
{
    let bots = best_first(ranked_bots);
    let best_bot = bots[0].clone();
    let (next, standings) = reproduce(bots, iteration, rng);
    tree.analize(next.as_slice(), iteration);
    let announcement = TrainingProgressAnnouncement {
        best_bot,
        species: tree.clone(),
        iteration_number: iteration,
    };
    GenerationOutcome { bots: next, standings, announcement }
}

} // verus!
