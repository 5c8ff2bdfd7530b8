use bot_evolution::expression::{Expression, ExpressionKind, Move};
use bot_evolution::logic_ext::Direction;
use bot_evolution::render::push_decimal;

fn leaf(kind: ExpressionKind) -> Box<Expression> {
    Expression::new_box(kind)
}

fn decimal(n: i32) -> String {
    let mut text = String::new();
    push_decimal(&mut text, n);
    text
}

#[test]
fn leaves_are_fixed_phrases() {
    let phrases = [
        (ExpressionKind::Health, "unit.health"),
        (ExpressionKind::X, "unit.coords.x"),
        (ExpressionKind::Y, "unit.coords.y"),
        (
            ExpressionKind::AlliedSurroundingTiles,
            "friendly_surrounding_tiles(unit.coords, state)",
        ),
        (ExpressionKind::EnemySurroundingTiles, "unsafe_surrounding_tiles(unit.coords, state)"),
        (
            ExpressionKind::AttackNearestEnemy,
            "Action.attack(unit.coords.direction_to(closest_enemy.coords))",
        ),
        (
            ExpressionKind::MoveToNearestEnemy,
            "Action.move(unit.coords.direction_to(closest_enemy.coords))",
        ),
        (ExpressionKind::DistanceToNearestEnemy, "closest_enemy.coords.distance_to(unit.coords)"),
        (ExpressionKind::DistanceToNearestAlly, "closest_ally.coords.distance_to(unit.coords)"),
        (ExpressionKind::DistanceToCenter, "Coords(9,9).distance_to(unit.coords)"),
        (ExpressionKind::ClosestEnemyHealth, "closest_enemy.health"),
        (ExpressionKind::ClosestAllyHealth, "closest_ally.health"),
        (ExpressionKind::ConstantBoolean(true), "True"),
        (ExpressionKind::ConstantBoolean(false), "False"),
    ];
    for (kind, text) in phrases {
        assert_eq!(kind.render(), text);
        assert_eq!(Expression::new(kind).render(), text);
    }
}

#[test]
fn numbers_are_written_in_decimal() {
    assert_eq!(decimal(0), "0");
    assert_eq!(decimal(7), "7");
    assert_eq!(decimal(10), "10");
    assert_eq!(decimal(-1), "-1");
    assert_eq!(decimal(-10), "-10");
    assert_eq!(decimal(1234567890), "1234567890");
    assert_eq!(decimal(i32::MAX), "2147483647");
    assert_eq!(decimal(i32::MIN), "-2147483648");
    for n in [-100005, -99, -9, 9, 99, 100, 101, 65536, 1000000] {
        assert_eq!(decimal(n), n.to_string());
    }
    assert_eq!(ExpressionKind::ConstantNumber(-42).render(), "-42");
    let mut text = String::from("x = ");
    push_decimal(&mut text, 305);
    assert_eq!(text, "x = 305");
}

#[test]
fn moves_and_directions() {
    assert_eq!(Direction::North.render(), "Direction.North");
    assert_eq!(Direction::East.render(), "Direction.East");
    assert_eq!(Direction::South.render(), "Direction.South");
    assert_eq!(Direction::West.render(), "Direction.West");
    assert_eq!(Move::Attack(Direction::South).render(), "Action.attack(Direction.South)");
    assert_eq!(Move::Move(Direction::West).render(), "Action.move(Direction.West)");
    assert_eq!(
        ExpressionKind::ConstantMove(Move::Move(Direction::East)).render(),
        "Action.move(Direction.East)"
    );
}

#[test]
fn nodes_are_written_with_brackets() {
    let comparison = || {
        leaf(ExpressionKind::GreaterThan {
            left: leaf(ExpressionKind::X),
            right: leaf(ExpressionKind::ConstantNumber(9)),
        })
    };
    // greater than is written as at least
    assert_eq!(comparison().render(), "(unit.coords.x) >= (9)");
    let same = ExpressionKind::Equals {
        left: leaf(ExpressionKind::Health),
        right: leaf(ExpressionKind::ConstantNumber(-3)),
    };
    assert_eq!(same.render(), "(unit.health) == (-3)");
    let e = Expression::new(ExpressionKind::If {
        condition: comparison(),
        then: leaf(ExpressionKind::ConstantMove(Move::Move(Direction::West))),
        otherwise: leaf(ExpressionKind::ConstantMove(Move::Move(Direction::East))),
    });
    assert_eq!(
        e.render(),
        "(Action.move(Direction.West)) if ((unit.coords.x) >= (9)) else (Action.move(Direction.East))"
    );
    let nested = Expression::new(ExpressionKind::If {
        condition: leaf(ExpressionKind::ConstantBoolean(false)),
        then: Box::new(e.clone()),
        otherwise: leaf(ExpressionKind::AttackNearestEnemy),
    });
    assert_eq!(
        nested.render(),
        format!(
            "({}) if (False) else (Action.attack(unit.coords.direction_to(closest_enemy.coords)))",
            e.render()
        )
    );
    let mut text = String::from("# ");
    e.kind.render_into(&mut text);
    assert_eq!(text, format!("# {}", e.render()));
}

#[test]
fn the_text_does_not_show_counters() {
    let mut e = Expression::new(ExpressionKind::Health);
    e.times_used = 12;
    assert_eq!(e.render(), "unit.health");
}
