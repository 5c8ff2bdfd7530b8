use bot_evolution::expression::{Expression, ExpressionKind, Move};
use bot_evolution::family_tree::Species;
use bot_evolution::logic_ext::{Coords, Direction, Team};
use bot_evolution::population::Bot;
use bot_evolution::score::{BotScore, NUMER_OF_PLAYOFF_ROUNDS};
use bot_evolution::state::{Obj, ObjDetails, Unit};
use bot_evolution::tournament::{
    can_run, can_split, check_consistent, coarsen, divisor, rank_segment, record_match, tally,
    Action, Segment, Tally, Tournament, NUMER_OF_GAMES_PER_BOT_PER_ROUND, TURN_LIMIT,
};

fn bot(id: u64) -> Bot {
    Bot {
        logic: Expression::new(ExpressionKind::ConstantMove(Move::Move(Direction::North))),
        species: Species(id),
        score: BotScore::default(),
        generation: 0,
        parents: None,
    }
}

fn bots(n: u64) -> Vec<Bot> {
    (0..n).map(bot).collect()
}

fn even(units: isize, health: isize) -> Tally {
    Tally { red_health: health, blue_health: health, red_units: units, blue_units: units }
}

fn unit(id: usize, team: Team, health: usize) -> Obj {
    Obj { id, coords: Coords(id, 0), details: ObjDetails::Unit(Unit { team, health }) }
}

/// Plays a whole tournament in which the bot of the higher species always wins, and
/// returns the bots and the matches that were played, in order.
fn play(n: u64, games: usize) -> (Vec<Bot>, Vec<(u64, u64)>) {
    let mut tournament = Tournament::new(bots(n), games);
    let mut matches = vec![];
    let mut steps = 0;
    loop {
        steps += 1;
        assert!(steps < 1_000_000);
        match tournament.step() {
            Action::Play { blue, red } => {
                let b = tournament.bots[blue].species.0;
                let r = tournament.bots[red].species.0;
                matches.push((b, r));
                let (winner, t) = if b > r {
                    (Some(Team::Blue), Tally { red_health: 1, blue_health: 9, red_units: 1, blue_units: 3 })
                } else {
                    (Some(Team::Red), Tally { red_health: 9, blue_health: 1, red_units: 3, blue_units: 1 })
                };
                assert!(tournament.can_record(winner, &t));
                tournament.record(winner, &t);
            }
            Action::Proceed => {}
            Action::Finished => break,
        }
    }
    assert_eq!(tournament.step(), Action::Finished);
    (tournament.into_bots(), matches)
}

#[test]
fn tournament_scoring() {
    // three bots, one game each: the first beats the second and draws with the third
    let mut three = bots(3);
    let win = Tally { red_health: 2, blue_health: 7, red_units: 1, blue_units: 2 };
    record_match(&mut three, 0, 1, 0, Some(Team::Blue), &win);
    record_match(&mut three, 1, 2, 0, None, &even(2, 5));
    record_match(&mut three, 2, 0, 0, None, &even(1, 4));
    assert_eq!(three[0].score.wins, [3, 0, 0]);
    assert_eq!(three[1].score.wins, [1, 0, 0]);
    assert_eq!(three[2].score.wins, [2, 0, 0]);
    // four fifths of one game round down to nothing: the divisor is one
    assert_eq!(divisor(1), 1);
    coarsen(&mut three, 0, 3, 0, divisor(1));
    assert_eq!(three[0].score.wins, [3, 0, 0]);
    assert_eq!(three[1].score.wins, [1, 0, 0]);
    assert_eq!(three[2].score.wins, [2, 0, 0]);
}

#[test]
fn a_match_is_credited_to_both_sides() {
    let mut two = bots(2);
    let t = Tally { red_health: 2, blue_health: 7, red_units: 1, blue_units: 3 };
    record_match(&mut two, 1, 0, 2, Some(Team::Blue), &t);
    // the bot at 1 played blue
    assert_eq!(
        two[1].score,
        BotScore {
            wins: [0, 0, 2],
            friendly_units: 3,
            enemy_units: -1,
            friendly_health: 7,
            enemy_health: -2,
            total_wins: 0
        }
    );
    assert_eq!(
        two[0].score,
        BotScore {
            wins: [0, 0, 0],
            friendly_units: 1,
            enemy_units: -3,
            friendly_health: 2,
            enemy_health: -7,
            total_wins: 0
        }
    );
    let back = Tally { red_health: 5, blue_health: 1, red_units: 4, blue_units: 2 };
    record_match(&mut two, 1, 0, 2, Some(Team::Red), &back);
    assert_eq!(two[1].score.wins, [0, 0, 2]);
    assert_eq!(two[0].score.wins, [0, 0, 2]);
    assert_eq!(two[0].score.friendly_units, 5);
    assert_eq!(two[0].score.enemy_units, -5);
    assert_eq!(two[0].score.friendly_health, 7);
    assert_eq!(two[0].score.enemy_health, -8);
    assert_eq!(two[1].score.friendly_units, 5);
    assert_eq!(two[1].score.enemy_health, -7);
    record_match(&mut two, 0, 1, 1, None, &even(2, 2));
    assert_eq!(two[0].score.wins, [0, 1, 2]);
    assert_eq!(two[1].score.wins, [0, 1, 2]);
    // nothing else of a bot changes
    assert_eq!(two[0].species, Species(0));
    assert_eq!(two[0].logic, bot(0).logic);
}

#[test]
fn scores_have_room_until_they_are_full() {
    let t = Tally { red_health: 2, blue_health: 7, red_units: 1, blue_units: 3 };
    let zero = BotScore::default();
    assert!(zero.can_credit(0, &t));
    assert!(zero.can_credit(2, &t));
    assert!(!zero.can_credit(NUMER_OF_PLAYOFF_ROUNDS, &t));
    assert!(BotScore { wins: [usize::MAX - 2, 0, 0], ..zero }.can_credit(0, &t));
    assert!(!BotScore { wins: [usize::MAX - 1, 0, 0], ..zero }.can_credit(0, &t));
    assert!(BotScore { wins: [usize::MAX - 1, 0, 0], ..zero }.can_credit(1, &t));
    assert!(BotScore { friendly_units: isize::MAX - 4, ..zero }.can_credit(0, &t));
    assert!(!BotScore { friendly_units: isize::MAX - 3, ..zero }.can_credit(0, &t));
    assert!(BotScore { enemy_health: isize::MIN + 9, ..zero }.can_credit(0, &t));
    assert!(!BotScore { enemy_health: isize::MIN + 8, ..zero }.can_credit(0, &t));
    assert!(!zero.can_credit(0, &Tally { red_units: -1, ..t }));
    assert!(!zero.can_credit(0, &Tally { red_units: isize::MAX, blue_units: 1, ..t }));
    let mut score = zero;
    score.credit(1, Some(Team::Red), &t, Team::Red);
    assert_eq!(score.wins, [0, 2, 0]);
    assert_eq!(score.friendly_units, 1);
    assert_eq!(score.enemy_units, -3);
    assert_eq!(score.friendly_health, 2);
    assert_eq!(score.enemy_health, -7);
    score.credit(1, Some(Team::Red), &t, Team::Blue);
    assert_eq!(score.wins, [0, 2, 0]);
    assert_eq!(score.friendly_units, 4);
}

#[test]
fn tally_adds_up_units_and_health() {
    let objs = vec![
        unit(1, Team::Red, 5),
        unit(2, Team::Blue, 3),
        Obj { id: 3, coords: Coords(0, 1), details: ObjDetails::Terrain },
        unit(4, Team::Red, 2),
        unit(5, Team::Red, 0),
    ];
    assert_eq!(
        tally(&objs),
        Some(Tally { red_health: 7, blue_health: 3, red_units: 3, blue_units: 1 })
    );
    assert_eq!(
        tally(&vec![]),
        Some(Tally { red_health: 0, blue_health: 0, red_units: 0, blue_units: 0 })
    );
    let most = isize::MAX as usize;
    assert_eq!(
        tally(&vec![unit(1, Team::Red, most)]),
        Some(Tally { red_health: isize::MAX, blue_health: 0, red_units: 1, blue_units: 0 })
    );
    assert_eq!(tally(&vec![unit(1, Team::Red, most), unit(2, Team::Red, 1)]), None);
    assert_eq!(tally(&vec![unit(1, Team::Blue, most + 1)]), None);
    assert_eq!(
        tally(&vec![unit(1, Team::Red, most), unit(2, Team::Blue, most)]),
        Some(Tally { red_health: isize::MAX, blue_health: isize::MAX, red_units: 1, blue_units: 1 })
    );
}

#[test]
fn the_declared_winner_has_more_units() {
    let red = Tally { red_health: 0, blue_health: 9, red_units: 2, blue_units: 1 };
    assert!(check_consistent(Some(Team::Red), &red));
    assert!(!check_consistent(Some(Team::Blue), &red));
    assert!(!check_consistent(None, &red));
    assert!(check_consistent(None, &even(2, 1)));
    assert!(!check_consistent(Some(Team::Red), &even(2, 1)));
    assert!(!check_consistent(Some(Team::Blue), &even(2, 1)));
    let blue = Tally { red_health: 9, blue_health: 0, red_units: 1, blue_units: 2 };
    assert!(check_consistent(Some(Team::Blue), &blue));
}

#[test]
fn coarsening_divides_the_wins_of_the_round() {
    assert_eq!(divisor(0), 1);
    assert_eq!(divisor(1), 1);
    assert_eq!(divisor(2), 1);
    assert_eq!(divisor(3), 2);
    assert_eq!(divisor(5), 4);
    assert_eq!(divisor(10), 8);
    assert_eq!(divisor(NUMER_OF_GAMES_PER_BOT_PER_ROUND), 1);
    assert_eq!(NUMER_OF_GAMES_PER_BOT_PER_ROUND, 2);
    assert_eq!(NUMER_OF_PLAYOFF_ROUNDS, 3);
    assert_eq!(TURN_LIMIT, 100);
    let mut five = bots(5);
    for (i, b) in five.iter_mut().enumerate() {
        b.score.wins = [10 + i, 20 + i, 30 + i];
    }
    coarsen(&mut five, 1, 4, 1, 4);
    let wins: Vec<[usize; 3]> = five.iter().map(|b| b.score.wins).collect();
    assert_eq!(wins, vec![[10, 20, 30], [11, 5, 31], [12, 5, 32], [13, 5, 33], [14, 24, 34]]);
    coarsen(&mut five, 0, 5, 0, 1);
    coarsen(&mut five, 2, 2, 2, 7);
    let after: Vec<[usize; 3]> = five.iter().map(|b| b.score.wins).collect();
    assert_eq!(after, wins);
}

#[test]
fn ranking_a_segment_puts_the_strongest_last() {
    let mut six = bots(6);
    let wins = [[5, 0, 0], [1, 4, 0], [9, 2, 0], [1, 3, 0], [9, 2, 0], [0, 9, 9]];
    for (b, w) in six.iter_mut().zip(wins) {
        b.score.wins = w;
    }
    six[2].score.friendly_units = 1;
    rank_segment(&mut six, 1, 5, 0);
    let order: Vec<u64> = six.iter().map(|b| b.species.0).collect();
    // equal wins of the round are ranked by the whole score
    assert_eq!(order, vec![0, 3, 1, 4, 2, 5]);
    let mut six = bots(6);
    for (b, w) in six.iter_mut().zip(wins) {
        b.score.wins = w;
    }
    rank_segment(&mut six, 0, 6, 1);
    let order: Vec<u64> = six.iter().map(|b| b.species.0).collect();
    // equal ranks stay in their order
    assert_eq!(order, vec![0, 2, 4, 3, 1, 5]);
    rank_segment(&mut six, 3, 3, 0);
    rank_segment(&mut six, 6, 6, 0);
    assert_eq!(six.len(), 6);
}

#[test]
fn tournaments_need_segments_larger_than_the_number_of_games() {
    assert!(can_run(200, 2));
    assert!(can_run(27, 2));
    assert!(!can_run(26, 2));
    assert!(!can_run(3, 1));
    assert!(can_run(18, 1));
    assert!(!can_run(17, 1));
    assert!(can_run(0, 2));
    assert!(can_run(9, 0));
    assert!(!can_run(8, 0));
    assert!(!can_run(10, usize::MAX));
    assert!(!can_run(usize::MAX, 2));
    assert!(can_split(5, 2, 9));
    assert!(can_split(9, 1, 2));
    assert!(!can_split(8, 1, 2));
}

#[test]
fn a_tournament_plays_three_rounds() {
    let (ranked, matches) = play(27, 2);
    assert_eq!(ranked.len(), 27);
    // every bot meets two others as blue in each of the three rounds
    assert_eq!(matches.len(), 27 * 2 * 3);
    // the first round pairs each bot with the next two
    assert_eq!(&matches[..4], &[(0, 1), (0, 2), (1, 2), (1, 3)]);
    assert_eq!(&matches[52..54], &[(26, 0), (26, 1)]);
    // the stronger bot always won, so the strongest bots are in the last third
    let order: Vec<u64> = ranked.iter().map(|b| b.species.0).collect();
    let mut last: Vec<u64> = order[18..].to_vec();
    last.sort();
    assert_eq!(last, (18..27).collect::<Vec<_>>());
    let mut first: Vec<u64> = order[..9].to_vec();
    first.sort();
    assert_eq!(first, (0..9).collect::<Vec<_>>());
    // the strongest three of the strongest third are in its last third
    let mut top: Vec<u64> = order[24..].to_vec();
    top.sort();
    assert_eq!(top, vec![24, 25, 26]);
    for b in &ranked {
        assert!(b.score.wins.iter().all(|w| *w <= 8));
    }
}

#[test]
fn the_remainder_of_a_split_goes_to_the_last_third() {
    let mut tournament = Tournament::new(bots(29), 2);
    let mut played = 0;
    loop {
        match tournament.step() {
            Action::Play { .. } => {
                played += 1;
                tournament.record(None, &even(1, 1));
                if played == 29 * 2 {
                    break;
                }
            }
            Action::Proceed => {}
            Action::Finished => panic!("the first round has 58 matches"),
        }
    }
    assert_eq!(tournament.step(), Action::Proceed);
    assert_eq!(
        tournament.pending,
        vec![
            Segment { start: 18, end: 29, round: 1 },
            Segment { start: 9, end: 18, round: 1 },
            Segment { start: 0, end: 9, round: 1 }
        ]
    );
    assert_eq!(tournament.blue, 0);
    assert_eq!(tournament.offset, 1);
    assert_eq!(tournament.step(), Action::Play { blue: 0, red: 1 });
    assert_eq!(tournament.playing, Some((0, 1)));
}

#[test]
fn an_empty_tournament_is_over_at_once() {
    let mut tournament = Tournament::new(vec![], 2);
    assert_eq!(tournament.step(), Action::Proceed);
    assert_eq!(tournament.step(), Action::Finished);
    assert!(tournament.into_bots().is_empty());
}

#[test]
fn a_tournament_without_games_only_ranks() {
    let (ranked, matches) = play(9, 0);
    assert!(matches.is_empty());
    assert_eq!(ranked, bots(9));
}

#[test]
fn pairings_wrap_around_the_segment() {
    let (_, matches) = play(18, 1);
    assert_eq!(matches.len(), 18 * 3);
    assert_eq!(matches[17], (17, 0));
}

#[test]
fn a_dropped_match_changes_no_score() {
    let mut tournament = Tournament::new(bots(27), 2);
    assert_eq!(tournament.step(), Action::Play { blue: 0, red: 1 });
    tournament.drop_match();
    assert_eq!(tournament.playing, None);
    assert_eq!(tournament.bots, bots(27));
    assert_eq!(tournament.step(), Action::Play { blue: 0, red: 2 });
}

#[test]
fn a_tournament_stays_well_formed() {
    let mut tournament = Tournament::new(bots(27), 2);
    assert!(tournament.check_well_formed());
    for _ in 0..200 {
        match tournament.step() {
            Action::Play { .. } => {
                assert!(tournament.check_well_formed());
                tournament.record(None, &even(1, 1));
            }
            Action::Proceed => {}
            Action::Finished => break,
        }
        assert!(tournament.check_well_formed());
    }
    let mut short = Tournament::new(bots(27), 2);
    short.bots.pop();
    assert!(!short.check_well_formed());
    let mut lost = Tournament::new(bots(27), 2);
    lost.offset = 3;
    assert!(!lost.check_well_formed());
    lost.offset = 0;
    assert!(!lost.check_well_formed());
    let mut odd = Tournament::new(bots(27), 2);
    odd.playing = Some((3, 3));
    assert!(!odd.check_well_formed());
    odd.playing = Some((3, 27));
    assert!(!odd.check_well_formed());
    odd.playing = Some((3, 26));
    assert!(odd.check_well_formed());
    odd.pending.push(Segment { start: 0, end: 8, round: 1 });
    assert!(!odd.check_well_formed());
    odd.pending.pop();
    odd.pending.push(Segment { start: 0, end: 9, round: 1 });
    odd.playing = Some((3, 8));
    assert!(odd.check_well_formed());
    odd.blue = 10;
    assert!(!odd.check_well_formed());
}
