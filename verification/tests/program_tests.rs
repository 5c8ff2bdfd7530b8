use bot_evolution::expression::{Expression, ExpressionKind, Move};
use bot_evolution::logic_ext::{Coords, Direction, Team};
use bot_evolution::program::RunError;
use bot_evolution::state::{Obj, ObjDetails, TurnInput, Unit};

fn unit(id: usize, x: usize, y: usize, team: Team, health: usize) -> Obj {
    Obj { id, coords: Coords(x, y), details: ObjDetails::Unit(Unit { team, health }) }
}

fn leaf(kind: ExpressionKind) -> Box<Expression> {
    Expression::new_box(kind)
}

fn battle(team: Team) -> TurnInput {
    TurnInput {
        objs: vec![
            unit(10, 2, 2, Team::Blue, 5),
            unit(11, 8, 2, Team::Blue, 3),
            unit(20, 2, 6, Team::Red, 5),
            Obj { id: 30, coords: Coords(0, 0), details: ObjDetails::Terrain },
            unit(12, 14, 14, Team::Blue, 9),
        ],
        red: vec![20],
        blue: vec![12, 10, 11],
        team,
    }
}

#[test]
fn a_program_decides_for_every_unit_of_its_side() {
    // retreat west when hurt, else attack the nearest enemy
    let mut logic = Expression::new(ExpressionKind::If {
        condition: leaf(ExpressionKind::GreaterThan {
            left: leaf(ExpressionKind::ConstantNumber(4)),
            right: leaf(ExpressionKind::Health),
        }),
        then: leaf(ExpressionKind::ConstantMove(Move::Move(Direction::West))),
        otherwise: leaf(ExpressionKind::AttackNearestEnemy),
    });
    let input = battle(Team::Blue);
    assert!(input.is_well_formed());
    assert!(input.check_lists_units());
    let actions = logic.run(&input);
    assert_eq!(
        actions,
        vec![
            (12, Ok(Move::Attack(Direction::South))),
            (10, Ok(Move::Attack(Direction::East))),
            (11, Ok(Move::Move(Direction::West))),
        ]
    );
    assert_eq!(logic.times_used, 3);
    match &logic.kind {
        ExpressionKind::If { condition, then, otherwise } => {
            assert_eq!(condition.times_used, 3);
            assert_eq!(then.times_used, 1);
            assert_eq!(otherwise.times_used, 2);
        }
        _ => unreachable!(),
    }
    let actions = logic.run(&battle(Team::Red));
    assert_eq!(actions, vec![(20, Ok(Move::Attack(Direction::West)))]);
    assert_eq!(logic.times_used, 4);
}

#[test]
fn a_type_error_is_a_failure_of_the_unit() {
    let mut logic = Expression::new(ExpressionKind::If {
        condition: leaf(ExpressionKind::Health),
        then: leaf(ExpressionKind::AttackNearestEnemy),
        otherwise: leaf(ExpressionKind::AttackNearestEnemy),
    });
    let actions = logic.run(&battle(Team::Red));
    assert_eq!(actions, vec![(20, Err(RunError::TypeError))]);
}

#[test]
fn a_value_that_is_no_move_is_a_failure_of_the_unit() {
    let mut logic = Expression::new(ExpressionKind::Health);
    let actions = logic.run(&battle(Team::Blue));
    assert_eq!(
        actions,
        vec![
            (12, Err(RunError::NotAMove)),
            (10, Err(RunError::NotAMove)),
            (11, Err(RunError::NotAMove))
        ]
    );
    let mut logic = Expression::new(ExpressionKind::ConstantBoolean(true));
    assert_eq!(logic.run(&battle(Team::Red)), vec![(20, Err(RunError::NotAMove))]);
}

#[test]
fn a_side_without_units_gets_no_decisions() {
    let mut input = battle(Team::Red);
    input.red = vec![];
    let mut logic = Expression::new(ExpressionKind::AttackNearestEnemy);
    assert!(logic.run(&input).is_empty());
    assert_eq!(logic.times_used, 0);
}

#[test]
fn the_list_of_a_side_names_units() {
    let mut input = battle(Team::Blue);
    assert!(input.check_lists_units());
    input.blue.push(30);
    assert!(!input.check_lists_units());
    input.blue = vec![10, 99];
    assert!(!input.check_lists_units());
    // only the side that is to move is looked at
    input.team = Team::Red;
    assert!(input.check_lists_units());
}
