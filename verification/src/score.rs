//! The score by which bots and species are ranked.

use vstd::prelude::*;
use vstd::std_specs::cmp::PartialEqSpecImpl;

verus! {

/// The depth of the playoff: the number of rounds a tournament has.
pub const NUMER_OF_PLAYOFF_ROUNDS: usize = 3;

/// What a bot has achieved in the current tournament.
///
/// Scores are ordered by their fields in the order in which they are declared, the
/// earlier field deciding: the wins of each round, then the units and the health
/// that were left at the end of the matches.  The two fields that count the
/// opponents' units and health hold the negated sums, so that in every field a larger
/// number is better.
#[derive(Debug, Copy, Clone)]
pub struct BotScore {
    pub wins: [usize; 3],
    pub friendly_units: isize,
    pub enemy_units: isize,
    pub friendly_health: isize,
    pub enemy_health: isize,
    pub total_wins: usize,
}

/// Lexicographic order on sequences of integers: the first place in which the two
/// differ decides; a proper prefix comes first.
pub open spec fn lex_less(a: Seq<int>, b: Seq<int>) -> bool
    decreases a.len(),
{
    if b.len() == 0 {
        false
    } else if a.len() == 0 {
        true
    } else if a[0] != b[0] {
        a[0] < b[0]
    } else {
        lex_less(a.skip(1), b.skip(1))
    }
}

impl BotScore {
    /// The fields in the order in which they decide.
    pub open spec fn key(self) -> Seq<int> {
        seq![
            self.wins@[0] as int,
            self.wins@[1] as int,
            self.wins@[2] as int,
            self.friendly_units as int,
            self.enemy_units as int,
            self.friendly_health as int,
            self.enemy_health as int,
            self.total_wins as int,
        ]
    }

    /// `self` is the worse score of the two.
    pub open spec fn precedes_spec(self, other: BotScore) -> bool {
        lex_less(self.key(), other.key())
    }

    /// The better of the two scores; `self` where they rank the same.
    pub open spec fn max_spec(self, other: BotScore) -> BotScore {
        if self.precedes_spec(other) {
            other
        } else {
            self
        }
    }

    /// Whether `self` is the worse score of the two.
    pub fn precedes(&self, other: &BotScore) -> (worse: bool)
        ensures
            worse == self.precedes_spec(*other),
    {
        proof {
            lemma_lex_less_of_eight(self.key(), other.key());
        }
        if self.wins[0] != other.wins[0] {
            self.wins[0] < other.wins[0]
        } else if self.wins[1] != other.wins[1] {
            self.wins[1] < other.wins[1]
        } else if self.wins[2] != other.wins[2] {
            self.wins[2] < other.wins[2]
        } else if self.friendly_units != other.friendly_units {
            self.friendly_units < other.friendly_units
        } else if self.enemy_units != other.enemy_units {
            self.enemy_units < other.enemy_units
        } else if self.friendly_health != other.friendly_health {
            self.friendly_health < other.friendly_health
        } else if self.enemy_health != other.enemy_health {
            self.enemy_health < other.enemy_health
        } else {
            self.total_wins < other.total_wins
        }
    }

    /// The better of the two scores; `self` where they rank the same.
    pub fn max(self, other: BotScore) -> (best: BotScore)
        ensures
            best == self.max_spec(other),
    {
        if self.precedes(&other) {
            other
        } else {
            self
        }
    }
}

impl PartialEq for BotScore {
    fn eq(&self, other: &BotScore) -> (same: bool) {
        let same = self.wins[0] == other.wins[0] && self.wins[1] == other.wins[1] && self.wins[2]
            == other.wins[2] && self.friendly_units == other.friendly_units && self.enemy_units
            == other.enemy_units && self.friendly_health == other.friendly_health
            && self.enemy_health == other.enemy_health && self.total_wins == other.total_wins;
        proof {
            if same {
                assert(self.wins@ =~= other.wins@);
                assert(self.wins =~= other.wins);
            }
        }
        same
    }
}

impl PartialEqSpecImpl for BotScore {
    open spec fn obeys_eq_spec() -> bool {
        true
    }

    open spec fn eq_spec(&self, other: &BotScore) -> bool {
        *self == *other
    }
}

impl Eq for BotScore {

}

/// The score of a bot that has not played: zero in every field.
pub open spec fn zero_score() -> BotScore {
    BotScore {
        wins: [0, 0, 0],
        friendly_units: 0,
        enemy_units: 0,
        friendly_health: 0,
        enemy_health: 0,
        total_wins: 0,
    }
}

impl Default for BotScore {
    fn default() -> (zero: BotScore)
        ensures
            zero == zero_score(),
    {
        BotScore {
            wins: [0, 0, 0],
            friendly_units: 0,
            enemy_units: 0,
            friendly_health: 0,
            enemy_health: 0,
            total_wins: 0,
        }
    }
}

/// What `lex_less` says of two sequences of eight numbers, written out.
pub proof fn lemma_lex_less_of_eight(a: Seq<int>, b: Seq<int>)
    requires
        a.len() == 8,
        b.len() == 8,
    ensures
        lex_less(a, b) == if a[0] != b[0] {
            a[0] < b[0]
        } else if a[1] != b[1] {
            a[1] < b[1]
        } else if a[2] != b[2] {
            a[2] < b[2]
        } else if a[3] != b[3] {
            a[3] < b[3]
        } else if a[4] != b[4] {
            a[4] < b[4]
        } else if a[5] != b[5] {
            a[5] < b[5]
        } else if a[6] != b[6] {
            a[6] < b[6]
        } else {
            a[7] < b[7]
        },
{
    reveal_with_fuel(lex_less, 10);
    assert(a.skip(1).skip(1) =~= a.skip(2));
    assert(a.skip(2).skip(1) =~= a.skip(3));
    assert(a.skip(3).skip(1) =~= a.skip(4));
    assert(a.skip(4).skip(1) =~= a.skip(5));
    assert(a.skip(5).skip(1) =~= a.skip(6));
    assert(a.skip(6).skip(1) =~= a.skip(7));
    assert(a.skip(7).skip(1) =~= a.skip(8));
    assert(b.skip(1).skip(1) =~= b.skip(2));
    assert(b.skip(2).skip(1) =~= b.skip(3));
    assert(b.skip(3).skip(1) =~= b.skip(4));
    assert(b.skip(4).skip(1) =~= b.skip(5));
    assert(b.skip(5).skip(1) =~= b.skip(6));
    assert(b.skip(6).skip(1) =~= b.skip(7));
    assert(b.skip(7).skip(1) =~= b.skip(8));
}

/// No sequence comes before itself.
pub proof fn lemma_lex_less_irreflexive(a: Seq<int>)
    ensures
        !lex_less(a, a),
    decreases a.len(),
{
    if a.len() > 0 {
        lemma_lex_less_irreflexive(a.skip(1));
    }
}

/// The order is transitive.
pub proof fn lemma_lex_less_transitive(a: Seq<int>, b: Seq<int>, c: Seq<int>)
    requires
        lex_less(a, b),
        lex_less(b, c),
    ensures
        lex_less(a, c),
    decreases a.len(),
{
    if a.len() > 0 && b.len() > 0 && c.len() > 0 && a[0] == b[0] && b[0] == c[0] {
        lemma_lex_less_transitive(a.skip(1), b.skip(1), c.skip(1));
    }
}

} // verus!
