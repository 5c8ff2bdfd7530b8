use bot_evolution::expression::{Expression, ExpressionKind, Move, Value, ValueType};
use bot_evolution::logic_ext::{Coords, Direction, Team};
use bot_evolution::mutate::{IfStep, Side};
use bot_evolution::state::{Obj, ObjDetails, TurnInput, Unit};
use rand::rngs::StdRng;
use rand::SeedableRng;
use std::collections::HashSet;

fn leaf(kind: ExpressionKind) -> Box<Expression> {
    Expression::new_box(kind)
}

fn number(n: i32) -> Box<Expression> {
    leaf(ExpressionKind::ConstantNumber(n))
}

fn used(mut e: Box<Expression>, times: usize) -> Box<Expression> {
    e.times_used = times;
    e
}

fn is_number_leaf(kind: &ExpressionKind) -> bool {
    matches!(
        kind,
        ExpressionKind::DistanceToCenter
            | ExpressionKind::DistanceToNearestAlly
            | ExpressionKind::DistanceToNearestEnemy
            | ExpressionKind::AlliedSurroundingTiles
            | ExpressionKind::EnemySurroundingTiles
            | ExpressionKind::Health
            | ExpressionKind::X
            | ExpressionKind::Y
    )
}

fn is_fresh_move(kind: &ExpressionKind) -> bool {
    matches!(
        kind,
        ExpressionKind::AttackNearestEnemy
            | ExpressionKind::MoveToNearestEnemy
            | ExpressionKind::ConstantMove(_)
    )
}

fn is_fresh_number(kind: &ExpressionKind, range: Option<(i64, i64)>) -> bool {
    match range {
        Some((start, end)) => match kind {
            ExpressionKind::ConstantNumber(n) => start <= *n as i64 && (*n as i64) < end,
            _ => false,
        },
        None => is_number_leaf(kind),
    }
}

fn is_fresh_boolean(kind: &ExpressionKind) -> bool {
    match kind {
        ExpressionKind::GreaterThan { left, right } | ExpressionKind::Equals { left, right } => {
            left.times_used == 0
                && right.times_used == 0
                && is_number_leaf(&left.kind)
                && is_fresh_number(&right.kind, left.kind.get_range())
        }
        _ => false,
    }
}

fn is_fresh(kind: &ExpressionKind, t: ValueType, range: Option<(i64, i64)>) -> bool {
    match t {
        ValueType::Boolean => is_fresh_boolean(kind),
        ValueType::Number => is_fresh_number(kind, range),
        ValueType::Move => is_fresh_move(kind),
    }
}

fn wraps(before: &ExpressionKind, after: &ExpressionKind) -> bool {
    match after {
        ExpressionKind::If { condition, then, otherwise } => {
            then.times_used == 0
                && then.kind == *before
                && condition.times_used == 0
                && is_fresh_boolean(&condition.kind)
                && otherwise.times_used == 0
                && is_fresh(&otherwise.kind, before.get_type(), before.get_range())
        }
        _ => false,
    }
}

fn mutates_into(before: &Expression, ignore: bool, after: &Expression) -> bool {
    after.times_used == before.times_used
        && mutates_to(&before.kind, before.times_used, ignore, &after.kind)
}

fn mutates_to(before: &ExpressionKind, times_used: usize, ignore: bool, after: &ExpressionKind) -> bool {
    ((ignore || times_used > 0) && wraps(before, after)) || steps_to(before, ignore, after)
}

fn steps_to(before: &ExpressionKind, ignore: bool, after: &ExpressionKind) -> bool {
    match before {
        ExpressionKind::ConstantNumber(x) => {
            *after == ExpressionKind::ConstantNumber(x.wrapping_sub(1))
                || *after == ExpressionKind::ConstantNumber(*x)
                || *after == ExpressionKind::ConstantNumber(x.wrapping_add(1))
        }
        ExpressionKind::If { condition, then, otherwise } => {
            if !ignore && (then.times_used == 0 || otherwise.times_used == 0) {
                let collapsed = if then.times_used == 0 { &otherwise.kind } else { &then.kind };
                ((then.times_used > 0 || otherwise.times_used > 0) && after == collapsed)
                    || match after {
                        ExpressionKind::If { condition: c, then: t, otherwise: o } => {
                            t == then && o == otherwise && mutates_into(condition, ignore, c)
                        }
                        _ => false,
                    }
            } else {
                match after {
                    ExpressionKind::If { condition: c, then: t, otherwise: o } => {
                        (then.times_used > 0
                            && c == condition
                            && o == otherwise
                            && mutates_into(then, ignore, t))
                            || (c == condition && t == then && mutates_into(otherwise, ignore, o))
                    }
                    _ => false,
                }
            }
        }
        ExpressionKind::ConstantBoolean(b) => *after == ExpressionKind::ConstantBoolean(!b),
        ExpressionKind::ConstantMove(_) => is_fresh_move(after),
        ExpressionKind::Health => matches!(after, ExpressionKind::ClosestEnemyHealth | ExpressionKind::ClosestAllyHealth),
        ExpressionKind::X => *after == ExpressionKind::Y,
        ExpressionKind::Y => *after == ExpressionKind::X,
        ExpressionKind::GreaterThan { left, right } => match after {
            ExpressionKind::GreaterThan { left: l, right: r } => {
                (r == right && mutates_into(left, ignore, l))
                    || (l == left && mutates_into(right, ignore, r))
            }
            _ => false,
        },
        ExpressionKind::Equals { left, right } => match after {
            ExpressionKind::Equals { left: l, right: r } => {
                (r == right && mutates_into(left, ignore, l))
                    || (l == left && mutates_into(right, ignore, r))
            }
            _ => false,
        },
        ExpressionKind::AlliedSurroundingTiles => *after == ExpressionKind::EnemySurroundingTiles,
        ExpressionKind::EnemySurroundingTiles => *after == ExpressionKind::AlliedSurroundingTiles,
        ExpressionKind::AttackNearestEnemy | ExpressionKind::MoveToNearestEnemy => {
            matches!(after, ExpressionKind::AttackNearestEnemy | ExpressionKind::MoveToNearestEnemy)
        }
        ExpressionKind::DistanceToNearestEnemy => *after == ExpressionKind::DistanceToNearestEnemy,
        ExpressionKind::DistanceToNearestAlly | ExpressionKind::DistanceToCenter => {
            matches!(after, ExpressionKind::DistanceToNearestAlly | ExpressionKind::DistanceToCenter)
        }
        ExpressionKind::ClosestEnemyHealth => matches!(after, ExpressionKind::Health | ExpressionKind::ClosestAllyHealth),
        ExpressionKind::ClosestAllyHealth => matches!(after, ExpressionKind::Health | ExpressionKind::ClosestEnemyHealth),
    }
}

fn well_typed(kind: &ExpressionKind) -> bool {
    match kind {
        ExpressionKind::If { condition, then, otherwise } => {
            then.kind.get_type() == otherwise.kind.get_type()
                && well_typed(&condition.kind)
                && well_typed(&then.kind)
                && well_typed(&otherwise.kind)
        }
        ExpressionKind::GreaterThan { left, right } | ExpressionKind::Equals { left, right } => {
            well_typed(&left.kind) && well_typed(&right.kind)
        }
        _ => true,
    }
}

fn every_leaf() -> Vec<ExpressionKind> {
    vec![
        ExpressionKind::ConstantNumber(3),
        ExpressionKind::ConstantBoolean(true),
        ExpressionKind::ConstantMove(Move::Attack(Direction::South)),
        ExpressionKind::AlliedSurroundingTiles,
        ExpressionKind::EnemySurroundingTiles,
        ExpressionKind::AttackNearestEnemy,
        ExpressionKind::MoveToNearestEnemy,
        ExpressionKind::DistanceToNearestEnemy,
        ExpressionKind::DistanceToNearestAlly,
        ExpressionKind::DistanceToCenter,
        ExpressionKind::Health,
        ExpressionKind::X,
        ExpressionKind::Y,
        ExpressionKind::ClosestEnemyHealth,
        ExpressionKind::ClosestAllyHealth,
    ]
}

fn outcomes(kind: &ExpressionKind, times_used: usize, ignore: bool, tries: u64) -> Vec<ExpressionKind> {
    let mut seen = vec![];
    for seed in 0..tries {
        let mut rng = StdRng::seed_from_u64(seed);
        let mut mutated = kind.clone();
        mutated.mutate(&mut rng, times_used, ignore);
        assert!(mutates_to(kind, times_used, ignore, &mutated), "{:?} -> {:?}", kind, mutated);
        if !seen.contains(&mutated) {
            seen.push(mutated);
        }
    }
    seen
}

#[test]
fn mutation_keeps_the_type() {
    for seed in 0..300 {
        let mut rng = StdRng::seed_from_u64(seed);
        let mut e = Expression::new(ExpressionKind::ConstantMove(Move::Attack(Direction::South)));
        for step in 0..25 {
            let before = e.clone();
            e.mutate(&mut rng, step % 2 == 0);
            assert_eq!(e.kind.get_type(), ValueType::Move);
            assert!(well_typed(&e.kind));
            assert!(mutates_into(&before, step % 2 == 0, &e));
            if step % 5 == 4 {
                e.times_used = step;
            }
        }
    }
    for kind in every_leaf() {
        for seed in 0..50 {
            let mut rng = StdRng::seed_from_u64(seed);
            let mut e = Expression::new(kind.clone());
            for _ in 0..10 {
                e.mutate(&mut rng, true);
                assert_eq!(e.kind.get_type(), kind.get_type());
            }
        }
    }
}

#[test]
fn mutation_of_an_unused_node_with_sanity_checks_never_wraps() {
    for kind in every_leaf() {
        for after in outcomes(&kind, 0, false, 200) {
            assert!(steps_to(&kind, false, &after));
            assert!(!matches!(after, ExpressionKind::If { .. }));
        }
    }
}

#[test]
fn mutation_steps_of_the_leaves() {
    let steps = |kind: ExpressionKind| outcomes(&kind, 0, false, 400);
    let set = |kinds: Vec<ExpressionKind>| kinds;
    let same = |mut a: Vec<ExpressionKind>, mut b: Vec<ExpressionKind>| {
        a.sort_by_key(|k| format!("{:?}", k));
        b.sort_by_key(|k| format!("{:?}", k));
        assert_eq!(a, b);
    };
    same(
        steps(ExpressionKind::ConstantNumber(7)),
        set(vec![
            ExpressionKind::ConstantNumber(6),
            ExpressionKind::ConstantNumber(7),
            ExpressionKind::ConstantNumber(8),
        ]),
    );
    same(steps(ExpressionKind::ConstantBoolean(true)), set(vec![ExpressionKind::ConstantBoolean(false)]));
    same(steps(ExpressionKind::ConstantBoolean(false)), set(vec![ExpressionKind::ConstantBoolean(true)]));
    same(
        steps(ExpressionKind::Health),
        set(vec![ExpressionKind::ClosestEnemyHealth, ExpressionKind::ClosestAllyHealth]),
    );
    same(steps(ExpressionKind::X), set(vec![ExpressionKind::Y]));
    same(steps(ExpressionKind::Y), set(vec![ExpressionKind::X]));
    same(
        steps(ExpressionKind::AlliedSurroundingTiles),
        set(vec![ExpressionKind::EnemySurroundingTiles]),
    );
    same(
        steps(ExpressionKind::EnemySurroundingTiles),
        set(vec![ExpressionKind::AlliedSurroundingTiles]),
    );
    same(
        steps(ExpressionKind::AttackNearestEnemy),
        set(vec![ExpressionKind::AttackNearestEnemy, ExpressionKind::MoveToNearestEnemy]),
    );
    same(
        steps(ExpressionKind::MoveToNearestEnemy),
        set(vec![ExpressionKind::AttackNearestEnemy, ExpressionKind::MoveToNearestEnemy]),
    );
    same(
        steps(ExpressionKind::DistanceToNearestEnemy),
        set(vec![ExpressionKind::DistanceToNearestEnemy]),
    );
    same(
        steps(ExpressionKind::DistanceToNearestAlly),
        set(vec![ExpressionKind::DistanceToNearestAlly, ExpressionKind::DistanceToCenter]),
    );
    same(
        steps(ExpressionKind::DistanceToCenter),
        set(vec![ExpressionKind::DistanceToNearestAlly, ExpressionKind::DistanceToCenter]),
    );
    same(
        steps(ExpressionKind::ClosestEnemyHealth),
        set(vec![ExpressionKind::Health, ExpressionKind::ClosestAllyHealth]),
    );
    same(
        steps(ExpressionKind::ClosestAllyHealth),
        set(vec![ExpressionKind::Health, ExpressionKind::ClosestEnemyHealth]),
    );
    let moves = steps(ExpressionKind::ConstantMove(Move::Attack(Direction::South)));
    assert!(moves.iter().all(is_fresh_move));
    // both moves towards the enemy, and a move and an attack in each direction
    assert_eq!(moves.len(), 10);
}

#[test]
fn mutation_of_a_constant_wraps_around_at_the_ends() {
    let top = outcomes(&ExpressionKind::ConstantNumber(i32::MAX), 0, false, 200);
    assert!(top.contains(&ExpressionKind::ConstantNumber(i32::MIN)));
    assert!(top.contains(&ExpressionKind::ConstantNumber(i32::MAX - 1)));
    let bottom = outcomes(&ExpressionKind::ConstantNumber(i32::MIN), 0, false, 200);
    assert!(bottom.contains(&ExpressionKind::ConstantNumber(i32::MAX)));
    // wrapping the largest constant draws the other branch from its range of one
    for after in outcomes(&ExpressionKind::ConstantNumber(i32::MAX), 1, false, 200) {
        if let ExpressionKind::If { otherwise, .. } = after {
            assert_eq!(otherwise.kind, ExpressionKind::ConstantNumber(i32::MAX));
        }
    }
}

#[test]
fn mutation_wraps_used_nodes_about_one_time_in_five() {
    for kind in every_leaf() {
        let mut wrapped = 0;
        for seed in 0..1000 {
            let mut rng = StdRng::seed_from_u64(seed);
            let mut mutated = kind.clone();
            mutated.mutate(&mut rng, 1, false);
            if wraps(&kind, &mutated) {
                wrapped += 1;
            }
        }
        assert!(wrapped > 120 && wrapped < 280, "{:?}: {}", kind, wrapped);
    }
    // without sanity checks an unused node is wrapped as well
    let seen = outcomes(&ExpressionKind::X, 0, true, 200);
    assert!(seen.iter().any(|k| wraps(&ExpressionKind::X, k)));
    assert!(seen.contains(&ExpressionKind::Y));
}

#[test]
fn mutation_of_an_if_with_an_unused_branch() {
    let go = |d: Direction| leaf(ExpressionKind::ConstantMove(Move::Move(d)));
    let condition = || leaf(ExpressionKind::GreaterThan { left: leaf(ExpressionKind::X), right: number(4) });
    // the then branch was never taken: collapse to the other branch, or mutate the condition
    let node = ExpressionKind::If {
        condition: used(condition(), 3),
        then: go(Direction::West),
        otherwise: used(go(Direction::East), 3),
    };
    let seen = outcomes(&node, 0, false, 600);
    assert!(seen.contains(&ExpressionKind::ConstantMove(Move::Move(Direction::East))));
    assert!(!seen.contains(&ExpressionKind::ConstantMove(Move::Move(Direction::West))));
    for after in &seen {
        if let ExpressionKind::If { then, otherwise, .. } = after {
            assert_eq!(then, &go(Direction::West));
            assert_eq!(otherwise, &used(go(Direction::East), 3));
        }
    }
    // the otherwise branch was never taken
    let node = ExpressionKind::If {
        condition: used(condition(), 3),
        then: used(go(Direction::West), 3),
        otherwise: go(Direction::East),
    };
    let seen = outcomes(&node, 0, false, 600);
    assert!(seen.contains(&ExpressionKind::ConstantMove(Move::Move(Direction::West))));
    assert!(!seen.contains(&ExpressionKind::ConstantMove(Move::Move(Direction::East))));
    // both were taken: one of them is mutated, the condition is not
    let node = ExpressionKind::If {
        condition: used(condition(), 3),
        then: used(go(Direction::West), 2),
        otherwise: used(go(Direction::East), 1),
    };
    let mut then_changed = false;
    let mut otherwise_changed = false;
    for after in outcomes(&node, 0, false, 600) {
        match after {
            ExpressionKind::If { condition: c, then, otherwise } => {
                assert_eq!(c, used(condition(), 3));
                then_changed |= then != used(go(Direction::West), 2);
                otherwise_changed |= otherwise != used(go(Direction::East), 1);
                assert!(then == used(go(Direction::West), 2) || otherwise == used(go(Direction::East), 1));
            }
            _ => panic!("an If with two used branches does not collapse"),
        }
    }
    assert!(then_changed && otherwise_changed);
    // neither was taken: the condition is mutated, and nothing collapses
    let node = ExpressionKind::If {
        condition: condition(),
        then: go(Direction::West),
        otherwise: go(Direction::East),
    };
    let mut condition_changed = false;
    for after in outcomes(&node, 0, false, 600) {
        match after {
            ExpressionKind::If { condition: c, then, otherwise } => {
                condition_changed |= c != condition();
                assert_eq!(then, go(Direction::West));
                assert_eq!(otherwise, go(Direction::East));
            }
            _ => panic!("an If without a used branch does not collapse"),
        }
    }
    assert!(condition_changed);
    // without sanity checks an unused then branch is never the one that is mutated
    let node = ExpressionKind::If {
        condition: condition(),
        then: go(Direction::West),
        otherwise: go(Direction::East),
    };
    for after in outcomes(&node, 0, true, 600) {
        if !wraps(&node, &after) {
            match after {
                ExpressionKind::If { condition: c, then, .. } => {
                    assert_eq!(c, condition());
                    assert_eq!(then, go(Direction::West));
                }
                _ => panic!("no collapse without sanity checks"),
            }
        }
    }
}

#[test]
fn mutation_of_a_comparison_changes_one_operand() {
    let node = ExpressionKind::GreaterThan { left: leaf(ExpressionKind::X), right: number(4) };
    let mut left_changed = false;
    let mut right_changed = false;
    for after in outcomes(&node, 0, false, 400) {
        match after {
            ExpressionKind::GreaterThan { left, right } => {
                left_changed |= left != leaf(ExpressionKind::X);
                right_changed |= right != number(4);
                assert!(left == leaf(ExpressionKind::X) || right == number(4));
            }
            _ => panic!("an unused comparison stays a comparison"),
        }
    }
    assert!(left_changed && right_changed);
}

#[test]
fn fresh_nodes() {
    let mut moves = HashSet::new();
    let mut numbers = HashSet::new();
    let mut constants = HashSet::new();
    let mut booleans = 0;
    let mut equalities = 0;
    for seed in 0..2000 {
        let mut rng = StdRng::seed_from_u64(seed);
        let kind = ExpressionKind::generate_move_expression(&mut rng);
        assert!(is_fresh_move(&kind));
        moves.insert(format!("{:?}", kind));
        let kind = ExpressionKind::generate_integer_expression(&mut rng, None);
        assert!(is_number_leaf(&kind));
        numbers.insert(format!("{:?}", kind));
        let kind = ExpressionKind::generate_integer_expression(&mut rng, Some((-3, 4)));
        assert!(is_fresh_number(&kind, Some((-3, 4))));
        constants.insert(format!("{:?}", kind));
        let kind = ExpressionKind::generate_boolean_expression(&mut rng);
        assert!(is_fresh_boolean(&kind));
        assert_eq!(kind.get_type(), ValueType::Boolean);
        booleans += 1;
        if matches!(kind, ExpressionKind::Equals { .. }) {
            equalities += 1;
        }
    }
    assert_eq!(moves.len(), 10);
    assert_eq!(numbers.len(), 8);
    assert_eq!(constants.len(), 7);
    // one comparison in ten is an equality
    assert!(equalities > booleans / 20 && equalities < booleans / 5);
    let mut rng = StdRng::seed_from_u64(1);
    assert_eq!(
        ExpressionKind::generate_integer_expression(&mut rng, Some((i32::MAX as i64, i32::MAX as i64 + 1))),
        ExpressionKind::ConstantNumber(i32::MAX)
    );
    assert_eq!(
        ExpressionKind::generate_integer_expression(&mut rng, Some((i32::MIN as i64, i32::MIN as i64 + 1))),
        ExpressionKind::ConstantNumber(i32::MIN)
    );
}

#[test]
fn fresh_moves_are_attacks_one_time_in_four() {
    let mut towards = 0;
    let mut attacks = 0;
    let mut plain = 0;
    for seed in 0..4000 {
        let mut rng = StdRng::seed_from_u64(seed);
        match ExpressionKind::generate_move_expression(&mut rng) {
            ExpressionKind::ConstantMove(Move::Attack(_)) => attacks += 1,
            ExpressionKind::ConstantMove(Move::Move(_)) => plain += 1,
            _ => towards += 1,
        }
    }
    assert!(towards > 1700 && towards < 2300, "{}", towards);
    assert!(attacks * 2 < plain && attacks * 4 > plain, "{} {}", attacks, plain);
}

#[test]
fn wrapped_builds_an_if_around_the_node() {
    let node = ExpressionKind::X.wrapped(
        ExpressionKind::ConstantBoolean(true),
        ExpressionKind::ConstantNumber(2),
    );
    assert_eq!(
        node,
        ExpressionKind::If {
            condition: leaf(ExpressionKind::ConstantBoolean(true)),
            then: leaf(ExpressionKind::X),
            otherwise: number(2),
        }
    );
}

#[test]
fn crossover_yields_one_parent_or_the_other() {
    let a = Expression { kind: ExpressionKind::ConstantMove(Move::Move(Direction::West)), times_used: 4 };
    let b = Expression { kind: ExpressionKind::AttackNearestEnemy, times_used: 2 };
    let me = Unit { team: Team::Blue, health: 5 };
    let mut firsts = 0;
    let mut seconds = 0;
    for seed in 0..200 {
        let mut rng = StdRng::seed_from_u64(seed);
        let mut child = a.clone().crossover(b.clone(), &mut rng);
        assert_eq!(child.times_used, 0);
        assert_eq!(child.kind.get_type(), a.kind.get_type());
        match &child.kind {
            ExpressionKind::If { condition, then, otherwise } => {
                assert_eq!(**then, a);
                assert_eq!(**otherwise, b);
                assert_eq!(condition.times_used, 0);
                assert!(is_fresh_boolean(&condition.kind));
            }
            _ => panic!("a crossover is an If"),
        }
        for x in [0usize, 7, 15] {
            let input = TurnInput {
                objs: vec![
                    Obj { id: 1, coords: Coords(x, 3), details: ObjDetails::Unit(me) },
                    Obj {
                        id: 2,
                        coords: Coords(x, 9),
                        details: ObjDetails::Unit(Unit { team: Team::Red, health: 1 }),
                    },
                ],
                red: vec![2],
                blue: vec![1],
                team: Team::Blue,
            };
            let value = child.eval(&input, 1, &me);
            let first = a.clone().eval(&input, 1, &me);
            let second = b.clone().eval(&input, 1, &me);
            assert!(value == first || value == second);
            if value == first {
                firsts += 1;
            } else {
                seconds += 1;
                assert_eq!(value, Ok(Value::Move(Move::Attack(Direction::East))));
            }
        }
    }
    assert!(firsts > 0 && seconds > 0);
}

#[test]
fn a_fresh_move_is_made_of_its_draws() {
    assert_eq!(ExpressionKind::move_towards_enemy(0), ExpressionKind::AttackNearestEnemy);
    assert_eq!(ExpressionKind::move_towards_enemy(1), ExpressionKind::MoveToNearestEnemy);
    for direction in [Direction::North, Direction::East, Direction::South, Direction::West] {
        assert_eq!(
            ExpressionKind::constant_move(direction, true),
            ExpressionKind::ConstantMove(Move::Move(direction))
        );
        assert_eq!(
            ExpressionKind::constant_move(direction, false),
            ExpressionKind::ConstantMove(Move::Attack(direction))
        );
    }
}

#[test]
fn a_health_leaf_steps_by_its_draw() {
    assert_eq!(ExpressionKind::Health.health_step(0), ExpressionKind::ClosestEnemyHealth);
    assert_eq!(ExpressionKind::Health.health_step(1), ExpressionKind::ClosestAllyHealth);
    assert_eq!(ExpressionKind::ClosestEnemyHealth.health_step(0), ExpressionKind::Health);
    assert_eq!(ExpressionKind::ClosestEnemyHealth.health_step(1), ExpressionKind::ClosestAllyHealth);
    assert_eq!(ExpressionKind::ClosestAllyHealth.health_step(0), ExpressionKind::Health);
    assert_eq!(ExpressionKind::ClosestAllyHealth.health_step(1), ExpressionKind::ClosestEnemyHealth);
}

#[test]
fn a_leaf_swaps_with_its_partner_where_the_draw_hits() {
    let pairs = [
        (ExpressionKind::AttackNearestEnemy, ExpressionKind::MoveToNearestEnemy),
        (ExpressionKind::MoveToNearestEnemy, ExpressionKind::AttackNearestEnemy),
        (ExpressionKind::DistanceToNearestAlly, ExpressionKind::DistanceToCenter),
        (ExpressionKind::DistanceToCenter, ExpressionKind::DistanceToNearestAlly),
    ];
    for (leaf, partner) in pairs {
        assert_eq!(leaf.swapped_if(true), partner);
        assert_eq!(leaf.swapped_if(false), leaf);
    }
}

#[test]
fn a_constant_steps_by_its_draw() {
    assert_eq!(ExpressionKind::number_step(7, -1), 6);
    assert_eq!(ExpressionKind::number_step(7, 0), 7);
    assert_eq!(ExpressionKind::number_step(7, 1), 8);
    assert_eq!(ExpressionKind::number_step(i32::MAX, 1), i32::MIN);
    assert_eq!(ExpressionKind::number_step(i32::MIN, -1), i32::MAX);
    assert_eq!(ExpressionKind::number_step(i32::MIN, 1), i32::MIN + 1);
}

#[test]
fn the_step_of_an_if_follows_the_counters_and_the_draw() {
    // with sanity checks and exactly one unused branch: one draw in ten collapses
    for (then_used, otherwise_used) in [(0, 3), (3, 0)] {
        assert_eq!(ExpressionKind::if_draw(false, then_used, otherwise_used), Some((1, 10)));
        assert_eq!(ExpressionKind::if_step(false, then_used, otherwise_used, true), IfStep::Collapse);
        assert_eq!(
            ExpressionKind::if_step(false, then_used, otherwise_used, false),
            IfStep::Condition
        );
    }
    // neither branch used: the condition, without a draw
    assert_eq!(ExpressionKind::if_draw(false, 0, 0), None);
    assert_eq!(ExpressionKind::if_step(false, 0, 0, false), IfStep::Condition);
    assert_eq!(ExpressionKind::if_step(false, 0, 0, true), IfStep::Condition);
    // both used: an even draw between the branches
    assert_eq!(ExpressionKind::if_draw(false, 2, 5), Some((1, 2)));
    assert_eq!(ExpressionKind::if_step(false, 2, 5, true), IfStep::Then);
    assert_eq!(ExpressionKind::if_step(false, 2, 5, false), IfStep::Otherwise);
    // without sanity checks: an even draw, but an unused then branch is never taken
    for (then_used, otherwise_used) in [(0, 0), (0, 3), (3, 0), (2, 5)] {
        assert_eq!(ExpressionKind::if_draw(true, then_used, otherwise_used), Some((1, 2)));
        assert_eq!(
            ExpressionKind::if_step(true, then_used, otherwise_used, false),
            IfStep::Otherwise
        );
        assert_eq!(
            ExpressionKind::if_step(true, then_used, otherwise_used, true),
            if then_used > 0 { IfStep::Then } else { IfStep::Otherwise }
        );
    }
}

#[test]
fn the_operand_of_a_comparison_follows_the_draw() {
    assert_eq!(ExpressionKind::side_for(true), Side::Left);
    assert_eq!(ExpressionKind::side_for(false), Side::Right);
}

#[test]
fn a_comparison_is_made_of_its_draws() {
    assert_eq!(
        ExpressionKind::comparison(ExpressionKind::X, ExpressionKind::ConstantNumber(4), true),
        ExpressionKind::Equals { left: leaf(ExpressionKind::X), right: number(4) }
    );
    assert_eq!(
        ExpressionKind::comparison(ExpressionKind::Health, ExpressionKind::ConstantNumber(9), false),
        ExpressionKind::GreaterThan { left: leaf(ExpressionKind::Health), right: number(9) }
    );
}
