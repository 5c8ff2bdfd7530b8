//! How a generation begins and how the next one is bred: fresh bots, crossover of
//! species, and offspring by mutation.

use vstd::prelude::*;
use crate::expression::{unused, Expression, ExpressionKind, Move, ValueType};
use crate::family_tree::Species;
use crate::logic_ext::Direction;
use crate::mutate::{is_fresh_boolean, lemma_fresh_has_type, lemma_mutation_keeps_type};
use crate::population::{
    concat, cull_bots, culled_size, group_by_species, grouped, lemma_concat_first, lemma_concat_len, lemma_concat_members, lemma_floor_below_total, lemma_grouped_drawn_from, lemma_grouped_partitions, lemma_pruned_keeps, prune_species, pruned, ranked, thinned_from, total, Bot,
};
use crate::random::{gen_index, next_u64, shuffle};
use crate::score::{zero_score, BotScore};
use crate::simplify::{lemma_simplified_times_keeps_type, lemma_simplify_keeps_type};

verus! {

/// The size of the population.
pub const NUM_ROBOTS: usize = 200;

/// The number of bots that culling aims at.
pub const SURVIVING_ROBOTS: usize = 50;

/// The number of species that culling aims at.
pub const NUM_SPECIES: usize = 15;

/// One generation in this many ends with a crossover.
pub const CROSSOVER_INTERVAL: usize = 5;

/// The number of mutations that make a fresh bot.
pub const SEED_MUTATIONS: usize = 10;

/// The logic from which every fresh bot starts: always attack to the south.
pub open spec fn seed() -> Expression {
    unused(ExpressionKind::ConstantMove(Move::Attack(Direction::South)))
}

/// `after` is a possible outcome of `count` mutations of `before`, one after the
/// other.
pub open spec fn mutated_times(
    before: Expression,
    count: nat,
    ignore_sanity_checks: bool,
    after: Expression,
) -> bool
    decreases count,
{
    if count == 0 {
        after == before
    } else {
        exists|mid: Expression|
            mutated_times(before, (count - 1) as nat, ignore_sanity_checks, mid)
                && #[trigger] mid.mutates_into(ignore_sanity_checks, after)
    }
}

/// The logic of a bot is fit to play: both branches of every `If` have the same type,
/// and the whole yields a move.
pub open spec fn is_playable(logic: Expression) -> bool {
    logic.well_typed() && logic.type_spec() == ValueType::Move
}

/// The logic is that of a fresh bot: a possible outcome of `SEED_MUTATIONS`
/// mutations of the seed without sanity checks, simplified once.
pub open spec fn is_fresh_logic(logic: Expression) -> bool {
    exists|raw: Expression|
        #[trigger] mutated_times(seed(), SEED_MUTATIONS as nat, true, raw) && logic
            == raw.simplify_spec()
}

/// A bot with random logic and a random species of its own: the seed, mutated
/// `SEED_MUTATIONS` times without sanity checks and simplified once.
pub fn generate_bot<R: rand::Rng>(rng: &mut R) -> (bot: Bot)
    ensures
        is_fresh_logic(bot.logic),
        is_playable(bot.logic),
        bot.score == zero_score(),
        bot.generation == 0,
        bot.parents is None,
{
    let mut expression = Expression {
        kind: ExpressionKind::ConstantMove(Move::Attack(Direction::South)),
        times_used: 0,
    };
    let mut i: usize = 0;
    while i < SEED_MUTATIONS
        invariant
            i <= SEED_MUTATIONS,
            mutated_times(seed(), i as nat, true, expression),
            is_playable(expression),
        decreases SEED_MUTATIONS - i,
    {
        let ghost before = expression;
        expression.mutate(rng, true);
        proof {
            lemma_mutation_keeps_type(before.kind, before.times_used, true, expression.kind);
            assert(before.mutates_into(true, expression));
        }
        i += 1;
    }
    proof {
        lemma_simplify_keeps_type(expression.kind);
    }
    Bot {
        logic: expression.simplify(),
        species: Species(next_u64(rng)),
        score: BotScore::default(),
        generation: 0,
        parents: None,
    }
}

/// The logic of the bot that is written by hand: go west in the eastern half of the
/// grid, and else east.
pub open spec fn reference_logic() -> Expression {
    unused(
        ExpressionKind::If {
            condition: Box::new(
                unused(
                    ExpressionKind::GreaterThan {
                        left: Box::new(unused(ExpressionKind::X)),
                        right: Box::new(unused(ExpressionKind::ConstantNumber(9))),
                    },
                ),
            ),
            then: Box::new(unused(ExpressionKind::ConstantMove(Move::Move(Direction::West)))),
            otherwise: Box::new(unused(ExpressionKind::ConstantMove(Move::Move(Direction::East)))),
        },
    )
}

/// The bot that is written by hand, of species 0.
pub fn reference_bot() -> (bot: Bot)
    ensures
        bot.logic == reference_logic(),
        is_playable(bot.logic),
        bot.species == Species(0),
        bot.score == zero_score(),
        bot.generation == 0,
        bot.parents is None,
{
    proof {
        reveal_with_fuel(ExpressionKind::well_typed, 3);
    }
    Bot {
        species: Species(0),
        logic: Expression::new(
            ExpressionKind::If {
                condition: Expression::new_box(
                    ExpressionKind::GreaterThan {
                        left: Expression::new_box(ExpressionKind::X),
                        right: Expression::new_box(ExpressionKind::ConstantNumber(9)),
                    },
                ),
                then: Expression::new_box(ExpressionKind::ConstantMove(Move::Move(Direction::West))),
                otherwise: Expression::new_box(
                    ExpressionKind::ConstantMove(Move::Move(Direction::East)),
                ),
            },
        ),
        score: BotScore::default(),
        generation: 0,
        parents: None,
    }
}

/// The first population: fresh bots, and as the last of `NUM_ROBOTS` the bot that is
/// written by hand.
pub fn initial_population<R: rand::Rng>(rng: &mut R) -> (bots: Vec<Bot>)
    ensures
        bots@.len() == NUM_ROBOTS,
        bots@[NUM_ROBOTS - 1].logic == reference_logic(),
        bots@[NUM_ROBOTS - 1].species == Species(0),
        forall|i: int| 0 <= i < NUM_ROBOTS - 1 ==> is_fresh_logic(#[trigger] bots@[i].logic),
        forall|i: int|
            0 <= i < NUM_ROBOTS ==> {
                &&& is_playable(#[trigger] bots@[i].logic)
                &&& bots@[i].score == zero_score()
                &&& bots@[i].generation == 0
                &&& bots@[i].parents is None
            },
{
    let mut bots: Vec<Bot> = Vec::new();
    while bots.len() < NUM_ROBOTS - 1
        invariant
            bots@.len() <= NUM_ROBOTS - 1,
            forall|i: int| 0 <= i < bots@.len() ==> is_fresh_logic(#[trigger] bots@[i].logic),
            forall|i: int|
                0 <= i < bots@.len() ==> {
                    &&& is_playable(#[trigger] bots@[i].logic)
                    &&& bots@[i].score == zero_score()
                    &&& bots@[i].generation == 0
                    &&& bots@[i].parents is None
                },
        decreases NUM_ROBOTS - 1 - bots@.len(),
    {
        bots.push(generate_bot(rng));
    }
    bots.push(reference_bot());
    bots
}

/// The number of bots at the head of the list that are of species `s`.
pub open spec fn leading(bots: Seq<Bot>, s: Species) -> nat
    decreases bots.len(),
{
    if bots.len() == 0 || bots[0].species != s {
        0
    } else {
        1 + leading(bots.skip(1), s)
    }
}

/// `child` is a crossover of the first bot and the first bot of another species: its
/// logic yields the logic of the one where a fresh condition holds and that of the
/// other where it does not, the two are recorded as its parents, and it has not
/// played.
pub open spec fn is_crossover_of(bots: Seq<Bot>, child: Bot) -> bool {
    let mate = leading(bots, bots[0].species) as int;
    &&& child.logic.times_used == 0
    &&& child.logic.kind matches ExpressionKind::If { condition, then, otherwise }
    &&& *then == bots[0].logic
    &&& *otherwise == bots[mate].logic
    &&& condition.times_used == 0
    &&& is_fresh_boolean(condition.kind)
    &&& child.score == zero_score()
    &&& child.generation == 0
    &&& child.parents == Some((bots[0].species, bots[mate].species))
}

/// The first bot that is not of the species of the first bot, if there is one.
pub fn find_mate(bots: &[Bot]) -> (mate: Option<usize>)
    requires
        bots@.len() > 0,
    ensures
        match mate {
            Some(k) => k == leading(bots@, bots@[0].species) && k < bots@.len(),
            None => leading(bots@, bots@[0].species) == bots@.len(),
        },
{
    let first = bots[0].species;
    let mut k: usize = 0;
    assert(bots@.skip(0) == bots@);
    while k < bots.len()
        invariant
            k <= bots@.len(),
            first == bots@[0].species,
            leading(bots@, first) == k + leading(bots@.skip(k as int), first),
        decreases bots@.len() - k,
    {
        assert(bots@.skip(k as int)[0] == bots@[k as int]);
        if bots[k].species != first {
            return Some(k);
        }
        assert(bots@.skip(k as int).skip(1) == bots@.skip(k as int + 1));
        k += 1;
    }
    None
}

/// Crosses the first bot with the first bot of another species.  The child is of a
/// new, random species.
pub fn crossover<R: rand::Rng>(bots: &[Bot], rng: &mut R) -> (child: Bot)
    requires
        bots@.len() > 0,
        leading(bots@, bots@[0].species) < bots@.len(),
    ensures
        is_crossover_of(bots@, child),
{
    let first_species = bots[0].species;
    let next_bot_index = match find_mate(bots) {
        Some(k) => k,
        None => 0,
    };
    let next_genome = bots[0].logic.clone().crossover(bots[next_bot_index].logic.clone(), rng);
    Bot {
        logic: next_genome,
        species: Species(next_u64(rng)),
        score: BotScore::default(),
        generation: 0,
        parents: Some((first_species, bots[next_bot_index].species)),
    }
}

/// A crossover of two playable bots is playable.
pub proof fn lemma_crossover_is_playable(bots: Seq<Bot>, child: Bot)
    requires
        bots.len() > 0,
        leading(bots, bots[0].species) < bots.len(),
        is_crossover_of(bots, child),
        forall|i: int| 0 <= i < bots.len() ==> is_playable(#[trigger] bots[i].logic),
    ensures
        is_playable(child.logic),
{
    let mate = leading(bots, bots[0].species) as int;
    assert(is_playable(bots[0].logic));
    assert(is_playable(bots[mate].logic));
    lemma_fresh_has_type(child.logic.kind->condition.kind, ValueType::Boolean, None);
}

/// `child` is an offspring of `parent`: the parent with one generation more and its
/// logic mutated once, with sanity checks, and simplified three times.
pub open spec fn is_offspring_of(parent: Bot, child: Bot) -> bool {
    &&& child.species == parent.species
    &&& child.score == parent.score
    &&& child.parents == parent.parents
    &&& child.generation == parent.generation + 1
    &&& exists|mutated: Expression|
        #[trigger] parent.logic.mutates_into(false, mutated) && child.logic
            == mutated.simplified_times(3)
}

/// `child` is an offspring of one of the bots.
pub open spec fn is_offspring_among(parents: Seq<Bot>, child: Bot) -> bool {
    exists|p: int| 0 <= p < parents.len() && is_offspring_of(#[trigger] parents[p], child)
}

/// An offspring of a playable bot is playable.
pub proof fn lemma_offspring_is_playable(parent: Bot, child: Bot)
    requires
        is_playable(parent.logic),
        is_offspring_of(parent, child),
    ensures
        is_playable(child.logic),
{
    let mutated = choose|mutated: Expression|
        #[trigger] parent.logic.mutates_into(false, mutated) && child.logic
            == mutated.simplified_times(3);
    lemma_mutation_keeps_type(parent.logic.kind, parent.logic.times_used, false, mutated.kind);
    crate::simplify::lemma_simplified_times_of_expression(mutated, 3);
    lemma_simplified_times_keeps_type(mutated.kind, 3);
}

/// Breeds one offspring of `parent`.
pub fn breed<R: rand::Rng>(parent: &Bot, rng: &mut R) -> (child: Bot)
    requires
        parent.generation < usize::MAX,
    ensures
        is_offspring_of(*parent, child),
{
    let mut bot_copy = parent.clone();
    bot_copy.generation += 1;
    bot_copy.logic.mutate(rng, false);
    let ghost mutated = bot_copy.logic;
    bot_copy.logic = bot_copy.logic.simplify().simplify().simplify();
    proof {
        reveal_with_fuel(Expression::simplified_times, 4);
        assert(parent.logic.mutates_into(false, mutated));
        assert(bot_copy.logic == mutated.simplified_times(3));
    }
    bot_copy
}

/// The place of the parent, given two drawn places: the earlier of the two.
pub fn parent_place(first: usize, second: usize) -> (place: usize)
    ensures
        place == if first <= second {
            first
        } else {
            second
        },
{
    if first <= second {
        first
    } else {
        second
    }
}

/// Fills the population up to `population` bots with offspring of the first
/// `parents` bots; each parent is the earlier of two that are drawn.
pub fn refill<R: rand::Rng>(bots: &mut Vec<Bot>, population: usize, parents: usize, rng: &mut R)
    requires
        0 < parents <= old(bots)@.len(),
        forall|i: int| 0 <= i < parents ==> (#[trigger] old(bots)@[i]).generation < usize::MAX,
    ensures
        final(bots)@.len() == if old(bots)@.len() >= population {
            old(bots)@.len()
        } else {
            population as nat
        },
        final(bots)@.take(old(bots)@.len() as int) == old(bots)@,
        forall|i: int|
            old(bots)@.len() <= i < final(bots)@.len() ==> is_offspring_among(
                old(bots)@.take(parents as int),
                #[trigger] final(bots)@[i],
            ),
{
    let ghost before = bots@;
    assert(bots@.take(before.len() as int) == before);
    while bots.len() < population
        invariant
            0 < parents <= before.len() <= bots@.len(),
            bots@.len() <= population || bots@.len() == before.len(),
            bots@.take(before.len() as int) == before,
            forall|i: int| 0 <= i < parents ==> (#[trigger] before[i]).generation < usize::MAX,
            forall|i: int|
                before.len() <= i < bots@.len() ==> is_offspring_among(
                    before.take(parents as int),
                    #[trigger] bots@[i],
                ),
        decreases population - bots@.len(),
    {
        let first = gen_index(rng, 0, parents);
        let second = gen_index(rng, 0, parents);
        let parent = parent_place(first, second);
        assert(bots@[parent as int] == bots@.take(before.len() as int)[parent as int]);
        let child = breed(&bots[parent], rng);
        let ghost grown = bots@;
        bots.push(child);
        proof {
            assert(before.take(parents as int)[parent as int] == before[parent as int]);
            assert(is_offspring_among(before.take(parents as int), child));
            assert(bots@.take(before.len() as int) =~= grown.take(before.len() as int));
            assert forall|i: int| before.len() <= i < bots@.len() implies is_offspring_among(
                before.take(parents as int),
                #[trigger] bots@[i],
            ) by {
                if i < grown.len() {
                    assert(bots@[i] == grown[i]);
                }
            }
        }
    }
}

/// The bot with every counter of its logic at zero.
pub open spec fn rested(bot: Bot) -> Bot {
    Bot { logic: bot.logic.cleared(), ..bot }
}

/// Sets every counter of every bot's logic to zero.
pub fn clear_usage(bots: &mut Vec<Bot>)
    ensures
        final(bots)@ == old(bots)@.map_values(|b: Bot| rested(b)),
{
    let ghost before = bots@;
    let mut i: usize = 0;
    while i < bots.len()
        invariant
            i <= bots@.len(),
            bots@.len() == before.len(),
            forall|j: int|
                0 <= j < bots@.len() ==> #[trigger] bots@[j] == if j < i {
                    rested(before[j])
                } else {
                    before[j]
                },
        decreases bots@.len() - i,
    {
        bots[i].logic.clear_times_used();
        i += 1;
    }
    assert(bots@ =~= before.map_values(|b: Bot| rested(b)));
}

/// The bot with the score of one that has not played.
pub open spec fn unscored(bot: Bot) -> Bot {
    Bot { score: zero_score(), ..bot }
}

/// Begins a generation: every bot's score starts again at zero, and the bots are put
/// in a random order.
pub fn begin_generation<R: rand::Rng>(bots: &mut Vec<Bot>, rng: &mut R)
    ensures
        final(bots)@.to_multiset() == old(bots)@.map_values(|b: Bot| unscored(b)).to_multiset(),
        final(bots)@.len() == old(bots)@.len(),
{
    let ghost before = bots@;
    let mut i: usize = 0;
    while i < bots.len()
        invariant
            i <= bots@.len(),
            bots@.len() == before.len(),
            forall|j: int|
                0 <= j < bots@.len() ==> #[trigger] bots@[j] == if j < i {
                    unscored(before[j])
                } else {
                    before[j]
                },
        decreases bots@.len() - i,
    {
        bots[i].score = BotScore::default();
        i += 1;
    }
    assert(bots@ =~= before.map_values(|b: Bot| unscored(b)));
    let ghost reset = bots@;
    shuffle(rng, bots);
    proof {
        vstd::seq_lib::to_multiset_len(bots@);
        vstd::seq_lib::to_multiset_len(reset);
    }
}

/// Puts the bots in the opposite order: after a tournament, the strongest first.
pub fn best_first(bots: Vec<Bot>) -> (reversed: Vec<Bot>)
    ensures
        reversed@ == bots@.reverse(),
{
    let mut bots = bots;
    let ghost before = bots@;
    let mut reversed: Vec<Bot> = Vec::new();
    while bots.len() > 0
        invariant
            bots@.len() <= before.len(),
            bots@ == before.take(bots@.len() as int),
            reversed@ == before.reverse().take(before.len() - bots@.len()),
        decreases bots@.len(),
    {
        let ghost rest = bots@;
        match bots.pop() {
            Some(bot) => {
                assert(bot == before[rest.len() - 1]);
                reversed.push(bot);
            },
            None => {},
        }
        assert(bots@ =~= before.take(bots@.len() as int));
        assert(reversed@ =~= before.reverse().take(before.len() - bots@.len()));
    }
    assert(before.reverse().take(before.len() as int) == before.reverse());
    reversed
}

/// Whether the generation with this number ends with a crossover.
pub open spec fn is_crossover_round(iteration: usize) -> bool {
    iteration % CROSSOVER_INTERVAL == CROSSOVER_INTERVAL - 1
}

/// The number of species that culling aims at in the generation with this number: one
/// fewer where a crossover is to add one.
pub open spec fn species_target(iteration: usize) -> nat {
    if is_crossover_round(iteration) {
        (NUM_SPECIES - 1) as nat
    } else {
        NUM_SPECIES as nat
    }
}

/// The species that culling keeps of the bots in the generation with this number.
pub open spec fn kept_species(bots: Seq<Bot>, iteration: usize) -> Seq<Seq<Bot>> {
    pruned(grouped(bots), species_target(iteration), SURVIVING_ROBOTS as nat)
}

/// The next generation can be bred: there are bots enough to draw parents from, no
/// bot's generation is at the top of its range, and where a crossover is due, culling
/// keeps two species at least.
pub open spec fn can_reproduce(bots: Seq<Bot>, iteration: usize) -> bool {
    &&& bots.len() >= SURVIVING_ROBOTS
    &&& forall|i: int| 0 <= i < bots.len() ==> (#[trigger] bots[i]).generation < usize::MAX
    &&& is_crossover_round(iteration) ==> kept_species(bots, iteration).len() >= 2
}

/// Checks `can_reproduce`.
pub fn check_can_reproduce(bots: &Vec<Bot>, iteration: usize) -> (ok: bool)
    ensures
        ok == can_reproduce(bots@, iteration),
{
    if bots.len() < SURVIVING_ROBOTS {
        return false;
    }
    let mut i: usize = 0;
    while i < bots.len()
        invariant
            i <= bots@.len(),
            forall|j: int| 0 <= j < i ==> (#[trigger] bots@[j]).generation < usize::MAX,
        decreases bots@.len() - i,
    {
        if bots[i].generation == usize::MAX {
            return false;
        }
        i += 1;
    }
    if iteration % CROSSOVER_INTERVAL == CROSSOVER_INTERVAL - 1 {
        let mut species = group_by_species(bots);
        proof {
            lemma_grouped_partitions(bots@);
            assert(bots@.len() == bots.len());
        }
        prune_species(&mut species, NUM_SPECIES - 1, SURVIVING_ROBOTS);
        species.len() >= 2
    } else {
        true
    }
}

/// The bots from which the next generation is bred: the survivors, and where a
/// crossover is due, behind them a crossover of the first survivor and the first of
/// another species.
pub open spec fn is_base_of(survivors: Seq<Seq<Bot>>, base: Seq<Bot>, iteration: usize) -> bool {
    if is_crossover_round(iteration) {
        &&& base.len() == concat(survivors).len() + 1
        &&& base.drop_last() == concat(survivors)
        &&& is_crossover_of(concat(survivors), base.last())
    } else {
        base == concat(survivors)
    }
}

/// `next` is bred from `base`: it begins with the bots of `base` and is filled up to
/// `NUM_ROBOTS` with offspring of the first `SURVIVING_ROBOTS` of them, and the logic
/// of every bot has its counters at zero.
pub open spec fn is_bred_from(base: Seq<Bot>, next: Seq<Bot>) -> bool {
    &&& next.len() == if base.len() >= NUM_ROBOTS {
        base.len()
    } else {
        NUM_ROBOTS as nat
    }
    &&& forall|i: int| 0 <= i < base.len() ==> #[trigger] next[i] == rested(base[i])
    &&& forall|i: int|
        base.len() <= i < next.len() ==> is_rested_offspring(
            base.take(SURVIVING_ROBOTS as int),
            #[trigger] next[i],
        )
}

/// `bot` is an offspring of one of the parents, with the counters of its logic at
/// zero.
pub open spec fn is_rested_offspring(parents: Seq<Bot>, bot: Bot) -> bool {
    exists|child: Bot| #[trigger] is_offspring_among(parents, child) && bot == rested(child)
}

/// `next` is a possible next generation of `bots`: the species are culled to the
/// target of the generation and thinned to `SURVIVING_ROBOTS` bots, as far as that
/// goes, and the next generation is bred from the survivors.
pub open spec fn is_next_generation(bots: Seq<Bot>, iteration: usize, next: Seq<Bot>) -> bool {
    exists|survivors: Seq<Seq<Bot>>, base: Seq<Bot>|
        {
            &&& thinned_from(kept_species(bots, iteration), survivors)
            &&& total(survivors) == culled_size(
                kept_species(bots, iteration),
                SURVIVING_ROBOTS as nat,
            )
            &&& #[trigger] is_base_of(survivors, base, iteration)
            &&& is_bred_from(base, next)
        }
}

/// Where all of `head` is of species `s` and `tail` does not begin with a bot of it,
/// the bots of `s` at the head of the two put together are those of `head`.
pub proof fn lemma_leading_head(head: Seq<Bot>, tail: Seq<Bot>, s: Species)
    requires
        forall|i: int| 0 <= i < head.len() ==> (#[trigger] head[i]).species == s,
        tail.len() == 0 || tail[0].species != s,
    ensures
        leading(head + tail, s) == head.len(),
    decreases head.len(),
{
    if head.len() == 0 {
        assert(head + tail =~= tail);
    } else {
        assert((head + tail)[0] == head[0]);
        assert((head + tail).skip(1) =~= head.skip(1) + tail);
        assert forall|i: int| 0 <= i < head.skip(1).len() implies (
        #[trigger] head.skip(1)[i]).species == s by {
            assert(head.skip(1)[i] == head[i + 1]);
        }
        lemma_leading_head(head.skip(1), tail, s);
    }
}

/// There are `SURVIVING_ROBOTS` survivors at least, and where a crossover is due,
/// they hold, behind the bots of the first species, a bot of another.
pub proof fn lemma_survivors(bots: Seq<Bot>, iteration: usize, survivors: Seq<Seq<Bot>>)
    requires
        can_reproduce(bots, iteration),
        thinned_from(kept_species(bots, iteration), survivors),
        total(survivors) == culled_size(kept_species(bots, iteration), SURVIVING_ROBOTS as nat),
    ensures
        concat(survivors).len() >= SURVIVING_ROBOTS,
        is_crossover_round(iteration) ==> leading(
            concat(survivors),
            concat(survivors)[0].species,
        ) < concat(survivors).len(),
{
    let kept = kept_species(bots, iteration);
    lemma_grouped_partitions(bots);
    lemma_grouped_drawn_from(bots);
    lemma_pruned_keeps(grouped(bots), species_target(iteration), SURVIVING_ROBOTS as nat, bots);
    lemma_concat_len(survivors);
    lemma_floor_below_total(kept);
    if is_crossover_round(iteration) {
        lemma_kept_has_mate(bots, iteration, survivors);
    }
}

/// A member of a thinned group is a member of the group.
pub proof fn lemma_member_of_thinned(group: Seq<Bot>, thinned: Seq<Bot>, k: int)
    requires
        crate::population::is_thinning_of(group, thinned),
        0 <= k < thinned.len(),
    ensures
        group.contains(thinned[k]),
{
    vstd::seq_lib::to_multiset_contains(thinned, thinned[k]);
    vstd::seq_lib::to_multiset_contains(group, thinned[k]);
    assert(thinned.contains(thinned[k]));
}

/// Breeds the next generation.
///
/// The bots are culled to the species target of the generation and to
/// `SURVIVING_ROBOTS` bots.  Where a crossover is due, a crossover of the first
/// survivor and the first of another species joins them.  The population is filled
/// up to `NUM_ROBOTS` with offspring of the first `SURVIVING_ROBOTS`, and all
/// counters are set to zero.
///
/// Returns the next generation and the standings of the species of this one.
pub fn reproduce<R: rand::Rng>(bots: Vec<Bot>, iteration: usize, rng: &mut R) -> (next: (
    Vec<Bot>,
    Vec<(Species, BotScore)>,
))
    requires
        can_reproduce(bots@, iteration),
    ensures
        next.1@ == ranked(grouped(bots@)),
        is_next_generation(bots@, iteration, next.0@),
{
    let crossing = iteration % CROSSOVER_INTERVAL == CROSSOVER_INTERVAL - 1;
    let target_species = if crossing {
        NUM_SPECIES - 1
    } else {
        NUM_SPECIES
    };
    let ghost before = bots@;
    let (mut bots, species_scores) = cull_bots(bots, target_species, SURVIVING_ROBOTS, rng);
    let ghost survivors = choose|survivors: Seq<Seq<Bot>>|
        #[trigger] thinned_from(kept_species(before, iteration), survivors) && bots@ == concat(
            survivors,
        );
    proof {
        lemma_concat_len(survivors);
        lemma_survivors(before, iteration, survivors);
    }
    if crossing {
        let child = crossover(bots.as_slice(), rng);
        bots.push(child);
    }
    let ghost base = bots@;
    proof {
        assert(is_base_of(survivors, base, iteration)) by {
            if crossing {
                assert(base.drop_last() =~= concat(survivors));
            }
        }
        assert forall|i: int| 0 <= i < SURVIVING_ROBOTS implies (#[trigger] base[i]).generation
            < usize::MAX by {
            assert(base[i] == concat(survivors)[i]);
            lemma_survivor_is_one_of(before, iteration, survivors, i);
            let at = choose|at: int| 0 <= at < before.len() && before[at] == base[i];
            assert(before[at].generation < usize::MAX);
        }
    }
    refill(&mut bots, NUM_ROBOTS, SURVIVING_ROBOTS, rng);
    let ghost filled = bots@;
    clear_usage(&mut bots);
    proof {
        assert forall|i: int| 0 <= i < base.len() implies #[trigger] bots@[i] == rested(
            base[i],
        ) by {
            assert(filled.take(base.len() as int)[i] == filled[i]);
        }
        assert forall|i: int| base.len() <= i < bots@.len() implies is_rested_offspring(
            base.take(SURVIVING_ROBOTS as int),
            #[trigger] bots@[i],
        ) by {
            assert(is_offspring_among(base.take(SURVIVING_ROBOTS as int), filled[i]));
        }
        assert(is_bred_from(base, bots@));
    }
    (bots, species_scores)
}

/// Clearing the counters keeps the static type.
pub proof fn lemma_cleared_keeps_type(kind: ExpressionKind)
    ensures
        kind.cleared().type_spec() == kind.type_spec(),
        kind.well_typed() ==> kind.cleared().well_typed(),
    decreases kind,
{
    match kind {
        ExpressionKind::If { condition, then, otherwise } => {
            lemma_cleared_keeps_type(condition.kind);
            lemma_cleared_keeps_type(then.kind);
            lemma_cleared_keeps_type(otherwise.kind);
        },
        ExpressionKind::GreaterThan { left, right } => {
            lemma_cleared_keeps_type(left.kind);
            lemma_cleared_keeps_type(right.kind);
        },
        ExpressionKind::Equals { left, right } => {
            lemma_cleared_keeps_type(left.kind);
            lemma_cleared_keeps_type(right.kind);
        },
        _ => {},
    }
}

/// A population of playable bots breeds playable bots: where the logic of every bot
/// is fit to play, so is the logic of every bot of the next generation.
pub proof fn lemma_next_generation_is_playable(bots: Seq<Bot>, iteration: usize, next: Seq<Bot>)
    requires
        can_reproduce(bots, iteration),
        is_next_generation(bots, iteration, next),
        forall|i: int| 0 <= i < bots.len() ==> is_playable(#[trigger] bots[i].logic),
    ensures
        forall|i: int| 0 <= i < next.len() ==> is_playable(#[trigger] next[i].logic),
{
    let (survivors, base) = choose|survivors: Seq<Seq<Bot>>, base: Seq<Bot>|
        {
            &&& thinned_from(kept_species(bots, iteration), survivors)
            &&& total(survivors) == culled_size(
                kept_species(bots, iteration),
                SURVIVING_ROBOTS as nat,
            )
            &&& #[trigger] is_base_of(survivors, base, iteration)
            &&& is_bred_from(base, next)
        };
    let all = concat(survivors);
    lemma_survivors(bots, iteration, survivors);
    assert forall|i: int| 0 <= i < all.len() implies is_playable(#[trigger] all[i].logic) by {
        lemma_survivor_is_one_of(bots, iteration, survivors, i);
        let at = choose|at: int| 0 <= at < bots.len() && bots[at] == all[i];
        assert(is_playable(bots[at].logic));
    }
    assert forall|i: int| 0 <= i < base.len() implies is_playable(#[trigger] base[i].logic) by {
        if is_crossover_round(iteration) {
            if i < all.len() {
                assert(base[i] == base.drop_last()[i]);
            } else {
                lemma_kept_has_mate(bots, iteration, survivors);
                lemma_crossover_is_playable(all, base.last());
            }
        }
    }
    assert forall|i: int| 0 <= i < next.len() implies is_playable(#[trigger] next[i].logic) by {
        if i < base.len() {
            assert(next[i] == rested(base[i]));
            assert(is_playable(base[i].logic));
            lemma_cleared_keeps_type(base[i].logic.kind);
        } else {
            assert(is_rested_offspring(base.take(SURVIVING_ROBOTS as int), next[i]));
            let child = choose|child: Bot|
                #[trigger] is_offspring_among(base.take(SURVIVING_ROBOTS as int), child) && next[i]
                    == rested(child);
            let p = choose|p: int|
                0 <= p < base.take(SURVIVING_ROBOTS as int).len() && is_offspring_of(
                    #[trigger] base.take(SURVIVING_ROBOTS as int)[p],
                    child,
                );
            assert(base.take(SURVIVING_ROBOTS as int)[p] == base[p]);
            assert(is_playable(base[p].logic));
            lemma_offspring_is_playable(base[p], child);
            lemma_cleared_keeps_type(child.logic.kind);
        }
    }
}

/// Every survivor is one of the bots that were culled.
pub proof fn lemma_survivor_is_one_of(
    bots: Seq<Bot>,
    iteration: usize,
    survivors: Seq<Seq<Bot>>,
    i: int,
)
    requires
        thinned_from(kept_species(bots, iteration), survivors),
        0 <= i < concat(survivors).len(),
    ensures
        bots.contains(concat(survivors)[i]),
{
    let kept = kept_species(bots, iteration);
    let all = concat(survivors);
    lemma_grouped_partitions(bots);
    lemma_grouped_drawn_from(bots);
    lemma_pruned_keeps(grouped(bots), species_target(iteration), SURVIVING_ROBOTS as nat, bots);
    lemma_concat_members(survivors, i);
    let (g, k) = choose|g: int, k: int|
        0 <= g < survivors.len() && 0 <= k < survivors[g].len() && #[trigger] survivors[g][k]
            == all[i];
    lemma_member_of_thinned(kept[g], survivors[g], k);
    let at = choose|at: int| 0 <= at < kept[g].len() && kept[g][at] == survivors[g][k];
    assert(bots.contains(kept[g][at]));
}

/// Survivors of two species or more hold, behind the bots of the first species, a bot
/// of another.
pub proof fn lemma_kept_has_mate(bots: Seq<Bot>, iteration: usize, survivors: Seq<Seq<Bot>>)
    requires
        kept_species(bots, iteration).len() >= 2,
        thinned_from(kept_species(bots, iteration), survivors),
    ensures
        concat(survivors).len() > 0,
        leading(concat(survivors), concat(survivors)[0].species) < concat(survivors).len(),
{
    let kept = kept_species(bots, iteration);
    let all = concat(survivors);
    lemma_grouped_partitions(bots);
    lemma_grouped_drawn_from(bots);
    lemma_pruned_keeps(grouped(bots), species_target(iteration), SURVIVING_ROBOTS as nat, bots);
    let s = kept[0][0].species;
    lemma_concat_first(survivors);
    lemma_concat_first(survivors.skip(1));
    assert(survivors.skip(1)[0] == survivors[1]);
    assert forall|i: int| 0 <= i < survivors[0].len() implies (#[trigger] survivors[0][i]).species
        == s by {
        lemma_member_of_thinned(kept[0], survivors[0], i);
        let at = choose|at: int| 0 <= at < kept[0].len() && kept[0][at] == survivors[0][i];
        assert(kept[0][at].species == kept[0][0].species);
    }
    assert(survivors[1][0] == kept[1][0]);
    assert(kept[0][0].species != kept[1][0].species);
    let tail = concat(survivors.skip(1));
    assert(tail[0] == survivors[1][0]);
    lemma_leading_head(survivors[0], tail, s);
    assert(all[0] == survivors[0][0]);
}

} // verus!
