//! The text form of an expression, as external tooling reads it.

use vstd::prelude::*;
use vstd::string::*;
use crate::expression::{Expression, ExpressionKind, Move};
use crate::logic_ext::Direction;

verus! {

/// Appends one character through `String::push`, which adds the character at the end
/// of the string.
#[verifier::external_body]
fn push_char(text: &mut String, c: char)
    ensures
        final(text)@ == old(text)@.push(c),
{
    text.push(c)
}

/// The character of a decimal digit.
pub open spec fn digit(d: int) -> char {
    if d == 0 {
        '0'
    } else if d == 1 {
        '1'
    } else if d == 2 {
        '2'
    } else if d == 3 {
        '3'
    } else if d == 4 {
        '4'
    } else if d == 5 {
        '5'
    } else if d == 6 {
        '6'
    } else if d == 7 {
        '7'
    } else if d == 8 {
        '8'
    } else {
        '9'
    }
}

/// The decimal digits of a natural number, without leading zeros.
pub open spec fn digits(n: nat) -> Seq<char>
    decreases n,
{
    if n < 10 {
        seq![digit(n as int)]
    } else {
        digits(n / 10).push(digit((n % 10) as int))
    }
}

/// The decimal form of an integer: a minus sign before the digits of a negative one.
pub open spec fn decimal(n: int) -> Seq<char> {
    if n < 0 {
        seq!['-'] + digits((-n) as nat)
    } else {
        digits(n as nat)
    }
}

pub open spec fn direction_text(d: Direction) -> Seq<char> {
    match d {
        Direction::North => "Direction.North"@,
        Direction::East => "Direction.East"@,
        Direction::South => "Direction.South"@,
        Direction::West => "Direction.West"@,
    }
}

pub open spec fn move_text(m: Move) -> Seq<char> {
    match m {
        Move::Attack(d) => "Action.attack("@ + direction_text(d) + ")"@,
        Move::Move(d) => "Action.move("@ + direction_text(d) + ")"@,
    }
}

impl ExpressionKind {
    /// The text form of the node.
    ///
    /// An `If` reads "(then) if (condition) else (otherwise)", a `GreaterThan`
    /// "(left) >= (right)" and an `Equals` "(left) == (right)".  A constant number is
    /// written in decimal, a constant boolean as "True" or "False", a constant move as
    /// "Action.attack(Direction.North)" and the like, and every other leaf as a fixed
    /// phrase.
    pub open spec fn rendered(self) -> Seq<char>
        decreases self,
    {
        match self {
            ExpressionKind::If { condition, then, otherwise } => "("@ + then.kind.rendered()
                + ") if ("@ + condition.kind.rendered() + ") else ("@ + otherwise.kind.rendered()
                + ")"@,
            ExpressionKind::ConstantNumber(n) => decimal(n as int),
            ExpressionKind::ConstantBoolean(b) => if b {
                "True"@
            } else {
                "False"@
            },
            ExpressionKind::ConstantMove(m) => move_text(m),
            ExpressionKind::Health => "unit.health"@,
            ExpressionKind::X => "unit.coords.x"@,
            ExpressionKind::Y => "unit.coords.y"@,
            ExpressionKind::GreaterThan { left, right } => "("@ + left.kind.rendered()
                + ") >= ("@ + right.kind.rendered() + ")"@,
            ExpressionKind::Equals { left, right } => "("@ + left.kind.rendered() + ") == ("@
                + right.kind.rendered() + ")"@,
            ExpressionKind::AlliedSurroundingTiles => "friendly_surrounding_tiles(unit.coords, state)"@,
            ExpressionKind::EnemySurroundingTiles => "unsafe_surrounding_tiles(unit.coords, state)"@,
            ExpressionKind::AttackNearestEnemy => "Action.attack(unit.coords.direction_to(closest_enemy.coords))"@,
            ExpressionKind::MoveToNearestEnemy => "Action.move(unit.coords.direction_to(closest_enemy.coords))"@,
            ExpressionKind::DistanceToNearestEnemy => "closest_enemy.coords.distance_to(unit.coords)"@,
            ExpressionKind::DistanceToNearestAlly => "closest_ally.coords.distance_to(unit.coords)"@,
            ExpressionKind::DistanceToCenter => "Coords(9,9).distance_to(unit.coords)"@,
            ExpressionKind::ClosestEnemyHealth => "closest_enemy.health"@,
            ExpressionKind::ClosestAllyHealth => "closest_ally.health"@,
        }
    }

    /// Appends the text form of the node.
    pub fn render_into(&self, text: &mut String)
        ensures
            final(text)@ == old(text)@ + self.rendered(),
        decreases *self,
    {
        let ghost before = text@;
        match self {
            ExpressionKind::If { condition, then, otherwise } => {
                text.append("(");
                then.kind.render_into(text);
                text.append(") if (");
                condition.kind.render_into(text);
                text.append(") else (");
                otherwise.kind.render_into(text);
                text.append(")");
                assert(text@ =~= before + self.rendered());
            },
            ExpressionKind::ConstantNumber(n) => {
                push_decimal(text, *n);
            },
            ExpressionKind::ConstantBoolean(b) => {
                if *b {
                    text.append("True");
                } else {
                    text.append("False");
                }
            },
            ExpressionKind::ConstantMove(m) => {
                push_move(text, *m);
            },
            ExpressionKind::Health => text.append("unit.health"),
            ExpressionKind::X => text.append("unit.coords.x"),
            ExpressionKind::Y => text.append("unit.coords.y"),
            ExpressionKind::GreaterThan { left, right } => {
                text.append("(");
                left.kind.render_into(text);
                text.append(") >= (");
                right.kind.render_into(text);
                text.append(")");
                assert(text@ =~= before + self.rendered());
            },
            ExpressionKind::Equals { left, right } => {
                text.append("(");
                left.kind.render_into(text);
                text.append(") == (");
                right.kind.render_into(text);
                text.append(")");
                assert(text@ =~= before + self.rendered());
            },
            ExpressionKind::AlliedSurroundingTiles => text.append(
                "friendly_surrounding_tiles(unit.coords, state)",
            ),
            ExpressionKind::EnemySurroundingTiles => text.append(
                "unsafe_surrounding_tiles(unit.coords, state)",
            ),
            ExpressionKind::AttackNearestEnemy => text.append(
                "Action.attack(unit.coords.direction_to(closest_enemy.coords))",
            ),
            ExpressionKind::MoveToNearestEnemy => text.append(
                "Action.move(unit.coords.direction_to(closest_enemy.coords))",
            ),
            ExpressionKind::DistanceToNearestEnemy => text.append(
                "closest_enemy.coords.distance_to(unit.coords)",
            ),
            ExpressionKind::DistanceToNearestAlly => text.append(
                "closest_ally.coords.distance_to(unit.coords)",
            ),
            ExpressionKind::DistanceToCenter => text.append("Coords(9,9).distance_to(unit.coords)"),
            ExpressionKind::ClosestEnemyHealth => text.append("closest_enemy.health"),
            ExpressionKind::ClosestAllyHealth => text.append("closest_ally.health"),
        }
    }

    /// The text form of the node.
    pub fn render(&self) -> (text: String)
        ensures
            text@ == self.rendered(),
    {
        let mut text = String::new();
        self.render_into(&mut text);
        assert(Seq::<char>::empty() + self.rendered() =~= self.rendered());
        text
    }
}

impl Expression {
    pub open spec fn rendered(self) -> Seq<char> {
        self.kind.rendered()
    }

    /// The text form of the expression.
    pub fn render(&self) -> (text: String)
        ensures
            text@ == self.rendered(),
    {
        self.kind.render()
    }
}

impl Direction {
    /// The text form of the direction.
    pub fn render(&self) -> (text: String)
        ensures
            text@ == direction_text(*self),
    {
        String::from_str(
            match self {
                Direction::North => "Direction.North",
                Direction::East => "Direction.East",
                Direction::South => "Direction.South",
                Direction::West => "Direction.West",
            },
        )
    }
}

impl Move {
    /// The text form of the move.
    pub fn render(&self) -> (text: String)
        ensures
            text@ == move_text(*self),
    {
        let mut text = String::new();
        push_move(&mut text, *self);
        assert(Seq::<char>::empty() + move_text(*self) =~= move_text(*self));
        text
    }
}

fn push_move(text: &mut String, m: Move)
    ensures
        final(text)@ == old(text)@ + move_text(m),
{
    let ghost before = text@;
    let direction = match m {
        Move::Attack(d) => {
            text.append("Action.attack(");
            d
        },
        Move::Move(d) => {
            text.append("Action.move(");
            d
        },
    };
    match direction {
        Direction::North => text.append("Direction.North"),
        Direction::East => text.append("Direction.East"),
        Direction::South => text.append("Direction.South"),
        Direction::West => text.append("Direction.West"),
    }
    text.append(")");
    assert(text@ =~= before + move_text(m));
}

fn digit_char(d: u32) -> (c: char)
    requires
        d < 10,
    ensures
        c == digit(d as int),
{
    if d == 0 {
        '0'
    } else if d == 1 {
        '1'
    } else if d == 2 {
        '2'
    } else if d == 3 {
        '3'
    } else if d == 4 {
        '4'
    } else if d == 5 {
        '5'
    } else if d == 6 {
        '6'
    } else if d == 7 {
        '7'
    } else if d == 8 {
        '8'
    } else {
        '9'
    }
}

fn push_digits(text: &mut String, n: u32)
    ensures
        final(text)@ == old(text)@ + digits(n as nat),
    decreases n,
{
    let ghost before = text@;
    if n >= 10 {
        push_digits(text, n / 10);
    }
    push_char(text, digit_char(n % 10));
    assert(text@ =~= before + digits(n as nat));
}

/// Appends the decimal form of a number.
pub fn push_decimal(text: &mut String, n: i32)
    ensures
        final(text)@ == old(text)@ + decimal(n as int),
{
    let ghost before = text@;
    if n < 0 {
        push_char(text, '-');
        push_digits(text, (-(n as i64)) as u32);
        assert(text@ =~= before + decimal(n as int));
    } else {
        push_digits(text, n as u32);
    }
}

/// The text under which a bot is kept on disk: a comment line with its logic as
/// JSON, a comment line with the name of its species, and the text form of its
/// logic.
pub open spec fn snapshot(json: Seq<char>, species: Seq<char>, logic: Expression) -> Seq<char> {
    "# "@ + json + "\n# "@ + species + "\n"@ + logic.rendered()
}

/// Writes the text under which a bot is kept on disk.
pub fn snapshot_text(json: &str, species: &str, logic: &Expression) -> (text: String)
    ensures
        text@ == snapshot(json@, species@, *logic),
{
    let mut text = String::from_str("# ");
    text.append(json);
    text.append("\n# ");
    text.append(species);
    text.append("\n");
    logic.kind.render_into(&mut text);
    text
}

} // verus!
