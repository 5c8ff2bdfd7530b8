use bot_evolution::evolution::{conclude_generation, histogram};
use bot_evolution::expression::{Expression, ExpressionKind, Move, ValueType};
use bot_evolution::family_tree::{FamilyTree, Species};
use bot_evolution::logic_ext::Direction;
use bot_evolution::population::Bot;
use bot_evolution::render::snapshot_text;
use bot_evolution::reproduction::{
    begin_generation, best_first, breed, check_can_reproduce, clear_usage, crossover, find_mate,
    generate_bot, initial_population, parent_place, reference_bot, refill, reproduce,
    CROSSOVER_INTERVAL, NUM_ROBOTS, NUM_SPECIES, SURVIVING_ROBOTS,
};
use bot_evolution::score::BotScore;
use bot_evolution::sockets::{CHANNEL_CAPACITY, DEFAULT_ADDRESS};
use rand::rngs::StdRng;
use rand::SeedableRng;
use std::collections::HashSet;

fn score(wins: usize) -> BotScore {
    BotScore { wins: [wins, 0, 0], ..BotScore::default() }
}

fn go(direction: Direction) -> Expression {
    Expression::new(ExpressionKind::ConstantMove(Move::Move(direction)))
}

fn bot(species: u64, wins: usize, generation: usize) -> Bot {
    Bot {
        logic: go(Direction::North),
        species: Species(species),
        score: score(wins),
        generation,
        parents: None,
    }
}

fn population(count: u64, size: usize) -> Vec<Bot> {
    let mut bots = vec![];
    for member in 0..size {
        for s in 0..count {
            bots.push(bot(s, s as usize + member, member));
        }
    }
    bots
}

fn well_typed(kind: &ExpressionKind) -> bool {
    match kind {
        ExpressionKind::If { condition, then, otherwise } => {
            then.kind.get_type() == otherwise.kind.get_type()
                && well_typed(&condition.kind)
                && well_typed(&then.kind)
                && well_typed(&otherwise.kind)
        }
        ExpressionKind::GreaterThan { left, right } | ExpressionKind::Equals { left, right } => {
            well_typed(&left.kind) && well_typed(&right.kind)
        }
        _ => true,
    }
}

fn is_playable(logic: &Expression) -> bool {
    well_typed(&logic.kind) && logic.kind.get_type() == ValueType::Move
}

#[test]
fn the_constants_of_the_engine() {
    assert_eq!(NUM_ROBOTS, 200);
    assert_eq!(SURVIVING_ROBOTS, 50);
    assert_eq!(NUM_SPECIES, 15);
    assert_eq!(CROSSOVER_INTERVAL, 5);
    assert_eq!(CHANNEL_CAPACITY, 16);
    assert_eq!(DEFAULT_ADDRESS, "127.0.0.1:8080");
}

#[test]
fn fresh_bots_are_playable_and_differ() {
    let mut logics = HashSet::new();
    let mut species = HashSet::new();
    for seed in 0..200 {
        let mut rng = StdRng::seed_from_u64(seed);
        let bot = generate_bot(&mut rng);
        assert!(is_playable(&bot.logic));
        assert!(bot.logic.counters_are_below(1));
        assert_eq!(bot.score, BotScore::default());
        assert_eq!(bot.generation, 0);
        assert_eq!(bot.parents, None);
        logics.insert(bot.logic.render());
        species.insert(bot.species);
    }
    assert!(logics.len() > 50);
    assert_eq!(species.len(), 200);
}

#[test]
fn a_crossover_mates_the_first_bot_with_the_first_of_another_species() {
    let mut bots = vec![bot(4, 0, 0), bot(4, 1, 1), bot(4, 2, 2), bot(9, 3, 3), bot(4, 4, 4), bot(2, 5, 5)];
    bots[0].logic = go(Direction::West);
    bots[3].logic = go(Direction::East);
    assert_eq!(find_mate(&bots), Some(3));
    assert_eq!(find_mate(&bots[..3]), None);
    assert_eq!(find_mate(&bots[3..]), Some(1));
    let mut rng = StdRng::seed_from_u64(1);
    let child = crossover(&bots, &mut rng);
    assert_eq!(child.parents, Some((Species(4), Species(9))));
    assert_eq!(child.score, BotScore::default());
    assert_eq!(child.generation, 0);
    match &child.logic.kind {
        ExpressionKind::If { condition, then, otherwise } => {
            assert_eq!(**then, go(Direction::West));
            assert_eq!(**otherwise, go(Direction::East));
            assert_eq!(condition.kind.get_type(), ValueType::Boolean);
        }
        _ => panic!("a crossover is an If"),
    }
    assert!(is_playable(&child.logic));
    let mut other = StdRng::seed_from_u64(2);
    assert_ne!(crossover(&bots, &mut other).species, child.species);
}

#[test]
fn offspring_inherit_the_species() {
    let mut parent = bot(6, 3, 7);
    parent.parents = Some((Species(1), Species(2)));
    parent.logic = Expression::new(ExpressionKind::If {
        condition: Expression::new_box(ExpressionKind::GreaterThan {
            left: Expression::new_box(ExpressionKind::X),
            right: Expression::new_box(ExpressionKind::ConstantNumber(9)),
        }),
        then: Box::new(go(Direction::West)),
        otherwise: Box::new(go(Direction::East)),
    });
    parent.logic.times_used = 5;
    let mut changed = 0;
    for seed in 0..100 {
        let mut rng = StdRng::seed_from_u64(seed);
        let child = breed(&parent, &mut rng);
        assert_eq!(child.species, parent.species);
        assert_eq!(child.score, parent.score);
        assert_eq!(child.parents, parent.parents);
        assert_eq!(child.generation, 8);
        assert!(is_playable(&child.logic));
        assert!(child.logic.counters_are_below(1));
        if child.logic.kind != parent.logic.kind {
            changed += 1;
        }
    }
    assert!(changed > 50);
}

#[test]
fn refilling_breeds_from_the_first_bots() {
    let mut rng = StdRng::seed_from_u64(4);
    let mut bots: Vec<Bot> = (0..8).map(|i| bot(i, i as usize, 0)).collect();
    let before = bots.clone();
    refill(&mut bots, 40, 3, &mut rng);
    assert_eq!(bots.len(), 40);
    assert_eq!(&bots[..8], &before[..]);
    let mut parents = [0usize; 3];
    for child in &bots[8..] {
        assert!(child.species.0 < 3);
        assert_eq!(child.generation, 1);
        assert_eq!(child.score, before[child.species.0 as usize].score);
        parents[child.species.0 as usize] += 1;
    }
    // the earlier of two draws: the first bot is the parent most often
    assert!(parents[0] > parents[2], "{:?}", parents);
    let full = bots.clone();
    refill(&mut bots, 40, 3, &mut rng);
    assert_eq!(bots, full);
    refill(&mut bots, 10, 40, &mut rng);
    assert_eq!(bots, full);
}

#[test]
fn clearing_usage_resets_every_bot() {
    let mut bots: Vec<Bot> = (0..4).map(|i| bot(i, 0, 0)).collect();
    for (i, b) in bots.iter_mut().enumerate() {
        b.logic.times_used = i;
    }
    clear_usage(&mut bots);
    assert_eq!(bots, (0..4).map(|i| bot(i, 0, 0)).collect::<Vec<_>>());
}

#[test]
fn a_generation_begins_with_no_scores_and_a_new_order() {
    let mut rng = StdRng::seed_from_u64(9);
    let mut bots = population(10, 3);
    begin_generation(&mut bots, &mut rng);
    assert_eq!(bots.len(), 30);
    assert!(bots.iter().all(|b| b.score == BotScore::default()));
    let mut expected: Vec<(u64, usize)> =
        population(10, 3).iter().map(|b| (b.species.0, b.generation)).collect();
    let mut found: Vec<(u64, usize)> = bots.iter().map(|b| (b.species.0, b.generation)).collect();
    assert_ne!(found, expected);
    found.sort();
    expected.sort();
    assert_eq!(found, expected);
}

#[test]
fn best_first_reverses_the_ranking() {
    let bots: Vec<Bot> = (0..5).map(|i| bot(i, i as usize, 0)).collect();
    let order: Vec<u64> = best_first(bots).iter().map(|b| b.species.0).collect();
    assert_eq!(order, vec![4, 3, 2, 1, 0]);
    assert!(best_first(vec![]).is_empty());
}

#[test]
fn reproduction_needs_parents_and_mates() {
    assert!(check_can_reproduce(&population(20, 10), 0));
    assert!(check_can_reproduce(&population(20, 10), 4));
    assert!(!check_can_reproduce(&population(7, 7), 0));
    assert!(check_can_reproduce(&population(1, 50), 3));
    // a crossover needs a second species
    assert!(!check_can_reproduce(&population(1, 50), 4));
    assert!(!check_can_reproduce(&population(1, 50), 9));
    assert!(check_can_reproduce(&population(2, 25), 9));
    let mut old = population(20, 10);
    old[150].generation = usize::MAX;
    assert!(!check_can_reproduce(&old, 0));
}

#[test]
fn the_next_generation() {
    for iteration in [0usize, 3, 5, 11] {
        let mut rng = StdRng::seed_from_u64(iteration as u64);
        let mut bots = population(20, 10);
        for b in bots.iter_mut() {
            b.logic.times_used = 2;
        }
        let (next, standings) = reproduce(bots, iteration, &mut rng);
        assert_eq!(next.len(), NUM_ROBOTS);
        assert_eq!(standings.len(), 20);
        assert_eq!(standings[0].0, Species(19));
        let survivors = &next[..SURVIVING_ROBOTS];
        let species: HashSet<Species> = survivors.iter().map(|b| b.species).collect();
        assert_eq!(species.len(), NUM_SPECIES);
        assert!(survivors.iter().all(|b| b.generation < 10));
        for child in &next[SURVIVING_ROBOTS..] {
            assert!(species.contains(&child.species));
            let parent = survivors
                .iter()
                .find(|p| p.species == child.species && p.generation + 1 == child.generation);
            assert!(parent.is_some());
        }
        for b in &next {
            assert!(b.logic.counters_are_below(1));
            assert!(is_playable(&b.logic));
        }
    }
}

#[test]
fn every_fifth_generation_ends_with_a_crossover() {
    for iteration in [4usize, 9, 104] {
        let mut rng = StdRng::seed_from_u64(iteration as u64);
        let (next, _) = reproduce(population(20, 10), iteration, &mut rng);
        assert_eq!(next.len(), NUM_ROBOTS);
        let species: HashSet<Species> = next[..SURVIVING_ROBOTS].iter().map(|b| b.species).collect();
        assert_eq!(species.len(), NUM_SPECIES - 1);
        let child = &next[SURVIVING_ROBOTS];
        assert!(!species.contains(&child.species));
        let mate = next.iter().find(|b| b.species != next[0].species).unwrap();
        assert_eq!(child.parents, Some((next[0].species, mate.species)));
        assert_eq!(child.generation, 0);
        assert_eq!(child.score, BotScore::default());
        assert!(matches!(child.logic.kind, ExpressionKind::If { .. }));
        // the child is no parent in the generation in which it is born
        assert!(next[SURVIVING_ROBOTS + 1..].iter().all(|b| b.species != child.species));
        assert!(next.iter().all(|b| is_playable(&b.logic)));
    }
}

#[test]
fn a_generation_ends_with_an_announcement() {
    let mut rng = StdRng::seed_from_u64(21);
    let mut tree = FamilyTree::new();
    // the tournament leaves the strongest last
    let mut ranked = population(20, 10);
    ranked.sort_by_key(|b| b.score.wins[0]);
    let best = ranked[199].clone();
    let outcome = conclude_generation(ranked, 7, &mut tree, &mut rng);
    assert_eq!(outcome.announcement.best_bot, best);
    assert_eq!(outcome.announcement.iteration_number, 7);
    assert_eq!(outcome.announcement.species.entries(), tree.entries());
    assert_eq!(outcome.bots.len(), NUM_ROBOTS);
    assert_eq!(outcome.standings.len(), 20);
    assert_eq!(outcome.standings[0], (Species(19), score(28)));
    // the species of the next generation are in the tree
    assert_eq!(tree.entries().len(), NUM_SPECIES);
    for b in &outcome.bots {
        let info = tree.info(b.species).unwrap();
        assert_eq!(info.round_introduced, 7);
        assert_eq!(info.round_extinct, None);
    }
    // the species of the best bot comes first
    assert_eq!(outcome.bots[0].species, best.species);
    let again = conclude_generation(outcome.bots, 8, &mut tree, &mut rng);
    assert_eq!(again.announcement.species.entries().len(), NUM_SPECIES);
    assert!(tree.entries().iter().all(|e| e.info.round_introduced == 7));
}

#[test]
fn the_first_population() {
    let mut rng = StdRng::seed_from_u64(2);
    let bots = initial_population(&mut rng);
    assert_eq!(bots.len(), NUM_ROBOTS);
    assert_eq!(bots[NUM_ROBOTS - 1], reference_bot());
    assert_eq!(
        reference_bot().logic.render(),
        "(Action.move(Direction.West)) if ((unit.coords.x) >= (9)) else (Action.move(Direction.East))"
    );
    assert_eq!(reference_bot().species, Species(0));
    for b in &bots {
        assert!(is_playable(&b.logic));
        assert_eq!(b.score, BotScore::default());
        assert_eq!(b.generation, 0);
        assert_eq!(b.parents, None);
    }
    let species: HashSet<Species> = bots.iter().map(|b| b.species).collect();
    assert_eq!(species.len(), NUM_ROBOTS);
}

#[test]
fn the_histogram_marks_species_in_the_order_of_their_appearance() {
    let order = [7u64, 7, 3, 7, 9, 3, 1];
    let bots: Vec<Bot> = order.iter().map(|s| bot(*s, 0, 0)).collect();
    let text = |width: usize| histogram(&bots, width).into_iter().collect::<String>();
    assert_eq!(text(100), "--#-*#&");
    assert_eq!(text(7), "--#-*#&");
    assert_eq!(text(3), "--#");
    assert_eq!(text(0), "");
    let many: Vec<Bot> = (0..18).map(|s| bot(s, 0, 0)).collect();
    assert_eq!(histogram(&many, 100).into_iter().collect::<String>(), "-#*&$0123456789___");
    // the species are marked by their place among all bots, not among those shown
    let mut late = many.clone();
    late.reverse();
    late.push(bot(17, 0, 0));
    assert_eq!(histogram(&late, 2).into_iter().collect::<String>(), "-#");
    assert!(histogram(&vec![], 5).is_empty());
}

#[test]
fn the_snapshot_of_a_bot() {
    assert_eq!(
        snapshot_text("{\"kind\":\"Health\"}", "Ada Berg", &Expression::new(ExpressionKind::Health)),
        "# {\"kind\":\"Health\"}\n# Ada Berg\nunit.health"
    );
    assert_eq!(snapshot_text("", "", &go(Direction::East)), "# \n# \nAction.move(Direction.East)");
}

#[test]
fn the_parent_is_the_earlier_of_two_places() {
    assert_eq!(parent_place(3, 7), 3);
    assert_eq!(parent_place(7, 3), 3);
    assert_eq!(parent_place(5, 5), 5);
    assert_eq!(parent_place(0, 49), 0);
}

#[test]
fn the_first_population_is_made_of_fresh_bots() {
    let mut rng = StdRng::seed_from_u64(6);
    let bots = initial_population(&mut rng);
    let logics: HashSet<String> = bots[..NUM_ROBOTS - 1].iter().map(|b| b.logic.render()).collect();
    // the generator is used: the bots differ from one another and from the one written by hand
    assert!(logics.len() > 50);
    let by_hand = reference_bot().logic.render();
    assert!(bots[..NUM_ROBOTS - 1].iter().filter(|b| b.logic.render() == by_hand).count() < 5);
    for b in &bots[..NUM_ROBOTS - 1] {
        assert!(b.logic.counters_are_below(1));
    }
}
