//! The tournament: who plays whom, how a match is scored, and how the bots are ranked
//! and split for the next round.

use vstd::prelude::*;
use crate::logic_ext::Team;
use crate::population::Bot;
use crate::ranking::{arranged, keys_of, sorted_order, stable_order, RankKey};
use crate::score::{BotScore, NUMER_OF_PLAYOFF_ROUNDS};
use crate::state::{Obj, ObjDetails};

verus! {

/// The number of opponents that each bot of a segment meets as the blue side.
pub const NUMER_OF_GAMES_PER_BOT_PER_ROUND: usize = 2;

/// The number of turns after which a match ends.
pub const TURN_LIMIT: usize = 100;

/// The units and the health that each side has left at the end of a match.
#[derive(Debug, Copy, Clone, PartialEq, Eq, Structural)]
pub struct Tally {
    pub red_health: isize,
    pub blue_health: isize,
    pub red_units: isize,
    pub blue_units: isize,
}

pub open spec fn is_unit_on(obj: Obj, team: Team) -> bool {
    obj.details matches ObjDetails::Unit(u) && u.team == team
}

/// The number of units of `team` among the objects.
pub open spec fn units_of(objs: Seq<Obj>, team: Team) -> nat
    decreases objs.len(),
{
    if objs.len() == 0 {
        0
    } else {
        units_of(objs.drop_last(), team) + if is_unit_on(objs.last(), team) {
            1nat
        } else {
            0nat
        }
    }
}

/// The health of all units of `team` among the objects together.
pub open spec fn health_of(objs: Seq<Obj>, team: Team) -> nat
    decreases objs.len(),
{
    if objs.len() == 0 {
        0
    } else {
        health_of(objs.drop_last(), team) + match objs.last().details {
            ObjDetails::Unit(u) => if u.team == team {
                u.health as nat
            } else {
                0nat
            },
            ObjDetails::Terrain => 0nat,
        }
    }
}

/// All four sums fit the fields of a tally.
pub open spec fn tally_fits(objs: Seq<Obj>) -> bool {
    &&& units_of(objs, Team::Red) <= isize::MAX
    &&& units_of(objs, Team::Blue) <= isize::MAX
    &&& health_of(objs, Team::Red) <= isize::MAX
    &&& health_of(objs, Team::Blue) <= isize::MAX
}

/// The sums over the first objects are no more than the sums over a few more.
pub proof fn lemma_sums_grow(objs: Seq<Obj>, fewer: int, more: int, team: Team)
    requires
        0 <= fewer <= more <= objs.len(),
    ensures
        units_of(objs.take(fewer), team) <= units_of(objs.take(more), team),
        health_of(objs.take(fewer), team) <= health_of(objs.take(more), team),
    decreases more - fewer,
{
    if fewer < more {
        assert(objs.take(more).drop_last() == objs.take(more - 1));
        lemma_sums_grow(objs, fewer, more - 1, team);
    }
}

/// Adds up what each side has left: `None` where a sum does not fit.
pub fn tally(objs: &Vec<Obj>) -> (sums: Option<Tally>)
    ensures
        match sums {
            Some(t) => {
                &&& t.red_units == units_of(objs@, Team::Red)
                &&& t.blue_units == units_of(objs@, Team::Blue)
                &&& t.red_health == health_of(objs@, Team::Red)
                &&& t.blue_health == health_of(objs@, Team::Blue)
            },
            None => !tally_fits(objs@),
        },
{
    let mut t = Tally { red_health: 0, blue_health: 0, red_units: 0, blue_units: 0 };
    let mut n: usize = 0;
    assert(objs@.take(objs@.len() as int) == objs@);
    while n < objs.len()
        invariant
            n <= objs@.len(),
            objs@.take(objs@.len() as int) == objs@,
            t.red_units == units_of(objs@.take(n as int), Team::Red),
            t.blue_units == units_of(objs@.take(n as int), Team::Blue),
            t.red_health == health_of(objs@.take(n as int), Team::Red),
            t.blue_health == health_of(objs@.take(n as int), Team::Blue),
        decreases objs@.len() - n,
    {
        proof {
            assert(objs@.take(n as int + 1).drop_last() == objs@.take(n as int));
            assert(objs@.take(n as int + 1).last() == objs@[n as int]);
            lemma_sums_grow(objs@, n as int + 1, objs@.len() as int, Team::Red);
            lemma_sums_grow(objs@, n as int + 1, objs@.len() as int, Team::Blue);
        }
        match objs[n].details {
            ObjDetails::Unit(u) => {
                if u.health > isize::MAX as usize {
                    return None;
                }
                let health = u.health as isize;
                match u.team {
                    Team::Red => {
                        if t.red_health > isize::MAX - health || t.red_units == isize::MAX {
                            return None;
                        }
                        t.red_health = t.red_health + health;
                        t.red_units = t.red_units + 1;
                    },
                    Team::Blue => {
                        if t.blue_health > isize::MAX - health || t.blue_units == isize::MAX {
                            return None;
                        }
                        t.blue_health = t.blue_health + health;
                        t.blue_units = t.blue_units + 1;
                    },
                }
            },
            ObjDetails::Terrain => {},
        }
        n += 1;
    }
    Some(t)
}

/// The side that a match declares the winner has more units left than the other; a
/// match without a winner leaves both sides with the same number.
pub open spec fn is_consistent(winner: Option<Team>, t: Tally) -> bool {
    match winner {
        Some(Team::Red) => t.red_units > t.blue_units,
        Some(Team::Blue) => t.blue_units > t.red_units,
        None => t.red_units == t.blue_units,
    }
}

/// Checks `is_consistent`.
pub fn check_consistent(winner: Option<Team>, t: &Tally) -> (ok: bool)
    ensures
        ok == is_consistent(winner, *t),
{
    match winner {
        Some(Team::Red) => t.red_units > t.blue_units,
        Some(Team::Blue) => t.blue_units > t.red_units,
        None => t.red_units == t.blue_units,
    }
}

/// The wins that a match brings `side`: two for the winner, one each for a tie.
pub open spec fn points_for(winner: Option<Team>, side: Team) -> nat {
    match winner {
        None => 1,
        Some(w) => if w == side {
            2
        } else {
            0
        },
    }
}

/// What `side` has left at the end of a match, and what the other side has.
pub open spec fn own_units(t: Tally, side: Team) -> int {
    match side {
        Team::Red => t.red_units as int,
        Team::Blue => t.blue_units as int,
    }
}

pub open spec fn own_health(t: Tally, side: Team) -> int {
    match side {
        Team::Red => t.red_health as int,
        Team::Blue => t.blue_health as int,
    }
}

pub open spec fn other(side: Team) -> Team {
    match side {
        Team::Red => Team::Blue,
        Team::Blue => Team::Red,
    }
}

/// `wins` with `points` more where `hit` holds.
pub open spec fn raised(wins: usize, hit: bool, points: nat) -> usize {
    if hit {
        (wins + points) as usize
    } else {
        wins
    }
}

impl BotScore {
    /// The score after a match of round `round` that `side` played: the wins of the
    /// round go up by the points, the own units and health are added, and those of the
    /// other side are subtracted.
    pub open spec fn credited(self, round: int, winner: Option<Team>, t: Tally, side: Team) -> BotScore {
        BotScore {
            wins: [
                raised(self.wins@[0], round == 0, points_for(winner, side)),
                raised(self.wins@[1], round == 1, points_for(winner, side)),
                raised(self.wins@[2], round == 2, points_for(winner, side)),
            ],
            friendly_units: (self.friendly_units + own_units(t, side)) as isize,
            enemy_units: (self.enemy_units - own_units(t, other(side))) as isize,
            friendly_health: (self.friendly_health + own_health(t, side)) as isize,
            enemy_health: (self.enemy_health - own_health(t, other(side))) as isize,
            total_wins: self.total_wins,
        }
    }

    /// Every field can take what a match adds to it.
    pub open spec fn has_room(self, round: int, t: Tally) -> bool {
        &&& 0 <= round < NUMER_OF_PLAYOFF_ROUNDS
        &&& self.wins@[round] + 2 <= usize::MAX
        &&& t.red_units >= 0
        &&& t.blue_units >= 0
        &&& t.red_health >= 0
        &&& t.blue_health >= 0
        &&& self.friendly_units + t.red_units + t.blue_units <= isize::MAX
        &&& self.friendly_health + t.red_health + t.blue_health <= isize::MAX
        &&& self.enemy_units - t.red_units - t.blue_units >= isize::MIN
        &&& self.enemy_health - t.red_health - t.blue_health >= isize::MIN
        &&& self.friendly_units >= 0
        &&& self.friendly_health >= 0
        &&& self.enemy_units <= 0
        &&& self.enemy_health <= 0
    }

    /// Checks `has_room`.
    pub fn can_credit(&self, round: usize, t: &Tally) -> (ok: bool)
        ensures
            ok == self.has_room(round as int, *t),
    {
        if round >= NUMER_OF_PLAYOFF_ROUNDS || t.red_units < 0 || t.blue_units < 0 || t.red_health
            < 0 || t.blue_health < 0 || self.friendly_units < 0 || self.friendly_health < 0
            || self.enemy_units > 0 || self.enemy_health > 0 {
            return false;
        }
        if self.wins[round] > usize::MAX - 2 {
            return false;
        }
        if t.red_units > isize::MAX - t.blue_units || t.red_health > isize::MAX - t.blue_health {
            return false;
        }
        let units = t.red_units + t.blue_units;
        let health = t.red_health + t.blue_health;
        self.friendly_units <= isize::MAX - units && self.friendly_health <= isize::MAX - health
            && self.enemy_units >= isize::MIN + units && self.enemy_health >= isize::MIN + health
    }

    /// Credits a match of round `round` that `side` played.
    pub fn credit(&mut self, round: usize, winner: Option<Team>, t: &Tally, side: Team)
        requires
            old(self).has_room(round as int, *t),
        ensures
            *final(self) == old(self).credited(round as int, winner, *t, side),
            final(self).friendly_units >= 0,
            final(self).friendly_health >= 0,
            final(self).enemy_units <= 0,
            final(self).enemy_health <= 0,
    {
        let points: usize = match winner {
            None => 1,
            Some(w) => if w == side {
                2
            } else {
                0
            },
        };
        let (units, health, their_units, their_health) = match side {
            Team::Red => (t.red_units, t.red_health, t.blue_units, t.blue_health),
            Team::Blue => (t.blue_units, t.blue_health, t.red_units, t.red_health),
        };
        let ghost before = *self;
        self.wins[round] += points;
        self.friendly_units += units;
        self.enemy_units -= their_units;
        self.friendly_health += health;
        self.enemy_health -= their_health;
        assert(self.wins =~= before.credited(round as int, winner, *t, side).wins);
    }
}

/// Scores a match of round `round` between the bot at `blue`, which played the blue
/// side, and the bot at `red`.
pub fn record_match(
    bots: &mut Vec<Bot>,
    blue: usize,
    red: usize,
    round: usize,
    winner: Option<Team>,
    t: &Tally,
)
    requires
        blue < old(bots)@.len(),
        red < old(bots)@.len(),
        blue != red,
        is_consistent(winner, *t),
        old(bots)@[blue as int].score.has_room(round as int, *t),
        old(bots)@[red as int].score.has_room(round as int, *t),
    ensures
        final(bots)@ == scored(old(bots)@, blue as int, red as int, round as int, winner, *t),
{
    let ghost before = bots@;
    bots[blue].score.credit(round, winner, t, Team::Blue);
    bots[red].score.credit(round, winner, t, Team::Red);
    assert(bots@ =~= scored(before, blue as int, red as int, round as int, winner, *t));
}

/// The bot with another score.
pub open spec fn with_score(bot: Bot, score: BotScore) -> Bot {
    Bot { score, ..bot }
}

/// The bots after a match between those at `blue` and `red`: the two have the match
/// credited, each for its side; all else is as it was.
pub open spec fn scored(
    bots: Seq<Bot>,
    blue: int,
    red: int,
    round: int,
    winner: Option<Team>,
    t: Tally,
) -> Seq<Bot> {
    bots.update(
        blue,
        with_score(bots[blue], bots[blue].score.credited(round, winner, t, Team::Blue)),
    ).update(red, with_score(bots[red], bots[red].score.credited(round, winner, t, Team::Red)))
}

/// The divisor by which the wins of a round are coarsened: four fifths of the games
/// of a round, rounded down, but at least one.
pub open spec fn coarsening_divisor(games_per_bot: nat) -> nat {
    if 4 * games_per_bot / 5 == 0 {
        1
    } else {
        4 * games_per_bot / 5
    }
}

/// Computes `coarsening_divisor`.
pub fn divisor(games_per_bot: usize) -> (d: usize)
    requires
        4 * games_per_bot <= usize::MAX,
    ensures
        d == coarsening_divisor(games_per_bot as nat),
        d >= 1,
{
    let d = 4 * games_per_bot / 5;
    if d == 0 {
        1
    } else {
        d
    }
}

impl BotScore {
    /// The score with the wins of round `round` divided by `d`, rounded down.
    pub open spec fn coarsened(self, round: int, d: nat) -> BotScore {
        BotScore {
            wins: [
                lowered(self.wins@[0], round == 0, d),
                lowered(self.wins@[1], round == 1, d),
                lowered(self.wins@[2], round == 2, d),
            ],
            ..self
        }
    }

    /// What the bots of a round are ranked by: the wins of the round, then the score.
    pub open spec fn rank(self, round: int) -> RankKey {
        RankKey { major: self.wins@[round], score: self }
    }
}

/// `wins` divided by `d` where `hit` holds.
pub open spec fn lowered(wins: usize, hit: bool, d: nat) -> usize {
    if hit {
        (wins as nat / d) as usize
    } else {
        wins
    }
}

/// The bots with the wins of round `round` of those from `start` up to `end`
/// coarsened by `d`.
pub open spec fn coarsened(bots: Seq<Bot>, start: int, end: int, round: int, d: nat) -> Seq<Bot> {
    Seq::new(
        bots.len(),
        |i: int|
            if start <= i < end {
                with_score(bots[i], bots[i].score.coarsened(round, d))
            } else {
                bots[i]
            },
    )
}

/// Divides the wins of round `round` of the bots from `start` up to `end` by `d`.
pub fn coarsen(bots: &mut Vec<Bot>, start: usize, end: usize, round: usize, d: usize)
    requires
        start <= end <= old(bots)@.len(),
        round < NUMER_OF_PLAYOFF_ROUNDS,
        d >= 1,
    ensures
        final(bots)@ == coarsened(old(bots)@, start as int, end as int, round as int, d as nat),
        final(bots)@.len() == old(bots)@.len(),
{
    let ghost before = bots@;
    let mut i: usize = start;
    while i < end
        invariant
            start <= i <= end <= bots@.len(),
            bots@.len() == before.len(),
            round < NUMER_OF_PLAYOFF_ROUNDS,
            d >= 1,
            forall|j: int|
                0 <= j < bots@.len() ==> #[trigger] bots@[j] == if start <= j < i {
                    with_score(before[j], before[j].score.coarsened(round as int, d as nat))
                } else {
                    before[j]
                },
        decreases end - i,
    {
        let ghost score = bots@[i as int].score;
        bots[i].score.wins[round] /= d;
        assert(bots@[i as int].score.wins =~= score.coarsened(round as int, d as nat).wins);
        i += 1;
    }
    assert(bots@ =~= coarsened(before, start as int, end as int, round as int, d as nat));
}

/// The rank keys of the bots of a round.
pub open spec fn rank_keys(bots: Seq<Bot>, round: int) -> Seq<Seq<int>> {
    keys_of(bots.map_values(|b: Bot| b.score.rank(round)))
}

/// The bots with those from `start` up to `end` put in ascending order of their rank
/// in round `round`, bots of the same rank in the order in which they were.
pub open spec fn ranked_segment(bots: Seq<Bot>, start: int, end: int, round: int) -> Seq<Bot> {
    let segment = bots.subrange(start, end);
    bots.subrange(0, start) + arranged(
        segment,
        stable_order(rank_keys(segment, round), segment.len()),
    ) + bots.subrange(end, bots.len() as int)
}

/// Ranking a segment reorders it and nothing else: the bots outside the segment stay
/// where they are, the segment holds the bots that it held, and they stand in
/// ascending order of their rank.
pub proof fn lemma_ranked_segment(bots: Seq<Bot>, start: int, end: int, round: int)
    requires
        0 <= start <= end <= bots.len(),
        end - start <= usize::MAX,
    ensures
        ({
            let ranked = ranked_segment(bots, start, end, round);
            &&& ranked.len() == bots.len()
            &&& forall|i: int|
                0 <= i < start || end <= i < bots.len() ==> #[trigger] ranked[i] == bots[i]
            &&& forall|i: int, j: int|
                start <= i < j < end ==> !crate::score::lex_less(
                    (#[trigger] ranked[j]).score.rank(round).key(),
                    (#[trigger] ranked[i]).score.rank(round).key(),
                )
            &&& forall|p: int| start <= p < end ==> holds(ranked, start, end, #[trigger] bots[p])
            &&& forall|k: int| start <= k < end ==> holds(bots, start, end, #[trigger] ranked[k])
        }),
{
    let segment = bots.subrange(start, end);
    let keys = rank_keys(segment, round);
    let order = stable_order(keys, segment.len());
    let ranked = ranked_segment(bots, start, end, round);
    crate::ranking::lemma_stable_order_sorts(keys, segment.len());
    assert forall|k: int| start <= k < end implies ranked[k] == bots[start + order[k - start]]
        && 0 <= order[k - start] < segment.len() by {
        assert(order[k - start] < segment.len());
        assert(segment[order[k - start] as int] == bots[start + order[k - start]]);
    }
    assert forall|i: int, j: int| start <= i < j < end implies !crate::score::lex_less(
        (#[trigger] ranked[j]).score.rank(round).key(),
        (#[trigger] ranked[i]).score.rank(round).key(),
    ) by {
        let a = order[i - start];
        let b = order[j - start];
        assert(keys[a as int] == segment[a as int].score.rank(round).key());
        assert(keys[b as int] == segment[b as int].score.rank(round).key());
    }
    assert forall|p: int| start <= p < end implies holds(
        ranked,
        start,
        end,
        #[trigger] bots[p],
    ) by {
        assert(order.contains((p - start) as usize));
        let at = choose|at: int| 0 <= at < order.len() && order[at] == (p - start) as usize;
        assert(ranked[start + at] == bots[p]);
    }
    assert forall|k: int| start <= k < end implies holds(
        bots,
        start,
        end,
        #[trigger] ranked[k],
    ) by {
        assert(ranked[k] == bots[start + order[k - start]]);
    }
}

/// `bot` is one of the bots from `start` up to `end`.
pub open spec fn holds(bots: Seq<Bot>, start: int, end: int, bot: Bot) -> bool {
    exists|k: int| start <= k < end && #[trigger] bots[k] == bot
}

/// Puts the bots from `start` up to `end` in ascending order of their rank in round
/// `round`: the strongest come last.
pub fn rank_segment(bots: &mut Vec<Bot>, start: usize, end: usize, round: usize)
    requires
        start <= end <= old(bots)@.len(),
        round < NUMER_OF_PLAYOFF_ROUNDS,
    ensures
        final(bots)@ == ranked_segment(old(bots)@, start as int, end as int, round as int),
        final(bots)@.len() == old(bots)@.len(),
{
    let ghost before = bots@;
    let ghost segment = before.subrange(start as int, end as int);
    let mut ranks: Vec<RankKey> = Vec::new();
    let mut i: usize = start;
    while i < end
        invariant
            start <= i <= end <= bots@.len(),
            bots@ == before,
            round < NUMER_OF_PLAYOFF_ROUNDS,
            segment == before.subrange(start as int, end as int),
            ranks@ == segment.map_values(|b: Bot| b.score.rank(round as int)).take(i - start),
        decreases end - i,
    {
        let score = bots[i].score;
        ranks.push(RankKey { major: score.wins[round], score });
        assert(ranks@ =~= segment.map_values(|b: Bot| b.score.rank(round as int)).take(
            i - start + 1,
        ));
        i += 1;
    }
    assert(ranks@ =~= segment.map_values(|b: Bot| b.score.rank(round as int)));
    let order = sorted_order(&ranks);
    let ghost sorted = arranged(segment, order@);
    let mut arranged_bots: Vec<Bot> = Vec::new();
    let mut k: usize = 0;
    while k < order.len()
        invariant
            k <= order@.len(),
            start <= end <= bots@.len(),
            bots@ == before,
            segment == before.subrange(start as int, end as int),
            order@.len() == segment.len(),
            forall|i: int| 0 <= i < order@.len() ==> (#[trigger] order@[i]) < segment.len(),
            sorted == arranged(segment, order@),
            arranged_bots@ == sorted.take(k as int),
        decreases order@.len() - k,
    {
        arranged_bots.push(bots[start + order[k]].clone());
        assert(arranged_bots@ =~= sorted.take(k as int + 1));
        k += 1;
    }
    assert(sorted.take(k as int) == sorted);
    let mut n: usize = end - start;
    while n > 0
        invariant
            n <= end - start,
            start <= end <= bots@.len(),
            bots@.len() == before.len(),
            sorted.len() == end - start,
            arranged_bots@ == sorted.take(n as int),
            forall|j: int|
                0 <= j < bots@.len() ==> #[trigger] bots@[j] == if start + n <= j < end {
                    sorted[j - start]
                } else {
                    before[j]
                },
        decreases n,
    {
        n -= 1;
        match arranged_bots.pop() {
            Some(bot) => {
                bots[start + n] = bot;
            },
            None => {},
        }
        assert(arranged_bots@ =~= sorted.take(n as int));
    }
    assert(bots@ =~= ranked_segment(before, start as int, end as int, round as int));
}

/// A run of bots that play a round among themselves: those from `start` up to `end`.
#[derive(Debug, Copy, Clone, PartialEq, Eq, Structural)]
pub struct Segment {
    pub start: usize,
    pub end: usize,
    pub round: usize,
}

/// What the tournament asks of its driver.
#[derive(Debug, Copy, Clone, PartialEq, Eq, Structural)]
pub enum Action {
    /// Run a match between the bots at these two places and record its result.
    Play { blue: usize, red: usize },
    /// Nothing to run: ask again.
    Proceed,
    /// The tournament is over.
    Finished,
}

/// A tournament in progress.
///
/// `pending` holds the segments that have not finished their round; the last of them
/// is the one that is being played.  `blue` and `offset` say which pairing of that
/// segment comes next, and `playing` holds the match that has been handed out and
/// not yet recorded.
#[derive(Debug)]
pub struct Tournament {
    pub bots: Vec<Bot>,
    pub games_per_bot: usize,
    pub pending: Vec<Segment>,
    pub blue: usize,
    pub offset: usize,
    pub playing: Option<(usize, usize)>,
}

/// The state of a tournament as plain values.
pub struct Standing {
    pub bots: Seq<Bot>,
    pub games_per_bot: usize,
    pub pending: Seq<Segment>,
    pub blue: usize,
    pub offset: usize,
    pub playing: Option<(usize, usize)>,
}

/// A segment of `n` bots in round `round` can be split for the rounds to come: unless
/// it is empty or in the last round, each third is larger than `games_per_bot` and
/// can be split in turn.
pub open spec fn splittable(n: nat, round: nat, games_per_bot: nat) -> bool
    decreases NUMER_OF_PLAYOFF_ROUNDS - round,
{
    n == 0 || round + 1 >= NUMER_OF_PLAYOFF_ROUNDS || {
        &&& n / 3 > games_per_bot
        &&& splittable(n / 3, round + 1, games_per_bot)
        &&& splittable((n - 2 * (n / 3)) as nat, round + 1, games_per_bot)
    }
}

/// The three thirds of a segment for the next round, the last third first: the first
/// two have a third of the bots each, rounded down, and the last has the rest.
pub open spec fn thirds(seg: Segment) -> Seq<Segment> {
    let third = (seg.end - seg.start) / 3;
    seq![
        Segment {
            start: (seg.start + 2 * third) as usize,
            end: seg.end,
            round: (seg.round + 1) as usize,
        },
        Segment {
            start: (seg.start + third) as usize,
            end: (seg.start + 2 * third) as usize,
            round: (seg.round + 1) as usize,
        },
        Segment {
            start: seg.start,
            end: (seg.start + third) as usize,
            round: (seg.round + 1) as usize,
        },
    ]
}

impl Standing {
    pub open spec fn segment_ok(self, seg: Segment) -> bool {
        &&& seg.start <= seg.end <= self.bots.len()
        &&& seg.round < NUMER_OF_PLAYOFF_ROUNDS
        &&& splittable((seg.end - seg.start) as nat, seg.round as nat, self.games_per_bot as nat)
    }

    /// The numbers fit the machine, every pending segment lies within the bots and can
    /// be split, and the next pairing and the match in play belong to the segment
    /// that is being played.
    pub open spec fn well_formed(self) -> bool {
        &&& 4 * self.games_per_bot <= usize::MAX
        &&& self.bots.len() + self.games_per_bot <= usize::MAX
        &&& forall|i: int| 0 <= i < self.pending.len() ==> self.segment_ok(#[trigger] self.pending[i])
        &&& 1 <= self.offset
        &&& self.games_per_bot > 0 ==> self.offset <= self.games_per_bot
        &&& self.pending.len() > 0 ==> self.blue <= self.pending.last().end
            - self.pending.last().start
        &&& self.playing matches Some(m) ==> {
            &&& self.pending.len() > 0
            &&& m.0 != m.1
            &&& self.pending.last().start <= m.0 < self.pending.last().end
            &&& self.pending.last().start <= m.1 < self.pending.last().end
        }
    }

    /// The state after the next pairing of the segment in play has been passed.
    pub open spec fn moved_on(self) -> Standing {
        if self.offset < self.games_per_bot {
            Standing { offset: (self.offset + 1) as usize, ..self }
        } else {
            Standing { blue: (self.blue + 1) as usize, offset: 1, ..self }
        }
    }

    /// The state after the segment in play has finished its round: the wins of the
    /// round are coarsened and the segment is ranked, and unless that was the last
    /// round its thirds are pending in its place, the first third to be played next.
    /// An empty segment just leaves.
    pub open spec fn closed(self) -> Standing {
        let seg = self.pending.last();
        let rest = self.pending.drop_last();
        if seg.end - seg.start == 0 {
            Standing { pending: rest, blue: 0, offset: 1, ..self }
        } else {
            Standing {
                bots: ranked_segment(
                    coarsened(
                        self.bots,
                        seg.start as int,
                        seg.end as int,
                        seg.round as int,
                        coarsening_divisor(self.games_per_bot as nat),
                    ),
                    seg.start as int,
                    seg.end as int,
                    seg.round as int,
                ),
                pending: if seg.round + 1 < NUMER_OF_PLAYOFF_ROUNDS {
                    rest + thirds(seg)
                } else {
                    rest
                },
                blue: 0,
                offset: 1,
                ..self
            }
        }
    }

    /// The state after one step, and what the step asks for.
    ///
    /// With no segment pending the tournament is finished.  Else the next pairing of
    /// the segment in play is the bot `blue` places into it against the one `offset`
    /// places further on, counting round the segment; where the two are different
    /// bots, that match is to be played; where they are one bot, the pairing is passed
    /// over.  When every bot of the segment has had `games_per_bot` pairings, the
    /// segment is closed.
    pub open spec fn step(self) -> (Standing, Action) {
        if self.pending.len() == 0 {
            (self, Action::Finished)
        } else {
            let seg = self.pending.last();
            let n = seg.end - seg.start;
            if self.blue < n && self.games_per_bot > 0 {
                let red = (self.blue + self.offset) % n;
                if red != self.blue {
                    let blue_at = (seg.start + self.blue) as usize;
                    let red_at = (seg.start + red) as usize;
                    (
                        Standing { playing: Some((blue_at, red_at)), ..self.moved_on() },
                        Action::Play { blue: blue_at, red: red_at },
                    )
                } else {
                    (self.moved_on(), Action::Proceed)
                }
            } else {
                (self.closed(), Action::Proceed)
            }
        }
    }

    /// The state after the match in play has been recorded.
    pub open spec fn recorded(self, winner: Option<Team>, t: Tally) -> Standing {
        Standing {
            bots: scored(
                self.bots,
                self.playing.unwrap().0 as int,
                self.playing.unwrap().1 as int,
                self.pending.last().round as int,
                winner,
                t,
            ),
            playing: None,
            ..self
        }
    }
}

/// Whether a tournament of `n` bots with `games_per_bot` games can be run: the numbers
/// fit the machine and the bots can be split for every round.
pub fn can_run(n: usize, games_per_bot: usize) -> (ok: bool)
    ensures
        ok == (4 * games_per_bot <= usize::MAX && n + games_per_bot <= usize::MAX && splittable(
            n as nat,
            0,
            games_per_bot as nat,
        )),
{
    if games_per_bot > usize::MAX / 4 || n > usize::MAX - games_per_bot {
        return false;
    }
    can_split(n, 0, games_per_bot)
}

/// Checks `splittable`.
pub fn can_split(n: usize, round: usize, games_per_bot: usize) -> (ok: bool)
    requires
        round < NUMER_OF_PLAYOFF_ROUNDS,
    ensures
        ok == splittable(n as nat, round as nat, games_per_bot as nat),
    decreases NUMER_OF_PLAYOFF_ROUNDS - round,
{
    if n == 0 || round + 1 >= NUMER_OF_PLAYOFF_ROUNDS {
        true
    } else {
        let third = n / 3;
        third > games_per_bot && can_split(third, round + 1, games_per_bot) && can_split(
            n - 2 * third,
            round + 1,
            games_per_bot,
        )
    }
}

impl View for Tournament {
    type V = Standing;

    open spec fn view(&self) -> Standing {
        Standing {
            bots: self.bots@,
            games_per_bot: self.games_per_bot,
            pending: self.pending@,
            blue: self.blue,
            offset: self.offset,
            playing: self.playing,
        }
    }
}

impl Tournament {
    /// A tournament that is about to start: all bots play round 0 together.
    pub fn new(bots: Vec<Bot>, games_per_bot: usize) -> (tournament: Tournament)
        requires
            4 * games_per_bot <= usize::MAX,
            bots@.len() + games_per_bot <= usize::MAX,
            splittable(bots@.len(), 0, games_per_bot as nat),
        ensures
            tournament@ == (Standing {
                bots: bots@,
                games_per_bot,
                pending: seq![Segment { start: 0, end: bots@.len() as usize, round: 0 }],
                blue: 0,
                offset: 1,
                playing: None,
            }),
            tournament@.well_formed(),
    {
        let mut pending: Vec<Segment> = Vec::new();
        pending.push(Segment { start: 0, end: bots.len(), round: 0 });
        let tournament = Tournament {
            bots,
            games_per_bot,
            pending,
            blue: 0,
            offset: 1,
            playing: None,
        };
        assert(tournament@.pending =~= seq![
            Segment { start: 0, end: bots@.len() as usize, round: 0 },
        ]);
        tournament
    }

    /// Checks that the tournament is well formed.
    pub fn check_well_formed(&self) -> (ok: bool)
        ensures
            ok == self@.well_formed(),
    {
        if self.games_per_bot > usize::MAX / 4 || self.bots.len() > usize::MAX
            - self.games_per_bot {
            return false;
        }
        let mut i: usize = 0;
        while i < self.pending.len()
            invariant
                i <= self.pending@.len(),
                forall|j: int| 0 <= j < i ==> self@.segment_ok(#[trigger] self.pending@[j]),
            decreases self.pending@.len() - i,
        {
            let seg = self.pending[i];
            if !(seg.start <= seg.end && seg.end <= self.bots.len() && seg.round
                < NUMER_OF_PLAYOFF_ROUNDS) {
                assert(!self@.segment_ok(self@.pending[i as int]));
                return false;
            }
            if !can_split(seg.end - seg.start, seg.round, self.games_per_bot) {
                assert(!self@.segment_ok(self@.pending[i as int]));
                return false;
            }
            i += 1;
        }
        if self.offset < 1 || (self.games_per_bot > 0 && self.offset > self.games_per_bot) {
            return false;
        }
        if self.pending.len() == 0 {
            return self.playing.is_none();
        }
        let current = self.pending[self.pending.len() - 1];
        if self.blue > current.end - current.start {
            return false;
        }
        match self.playing {
            Some(m) => m.0 != m.1 && current.start <= m.0 && m.0 < current.end && current.start
                <= m.1 && m.1 < current.end,
            None => true,
        }
    }

    /// Takes one step: hands out the next match, passes over a pairing of a bot with
    /// itself, closes a segment whose round is over, or reports the end.
    pub fn step(&mut self) -> (action: Action)
        requires
            old(self)@.well_formed(),
            old(self).playing is None,
        ensures
            (final(self)@, action) == old(self)@.step(),
            final(self)@.well_formed(),
    {
        if self.pending.len() == 0 {
            return Action::Finished;
        }
        let ghost before = self@;
        let seg = self.pending[self.pending.len() - 1];
        let n = seg.end - seg.start;
        if self.blue < n && self.games_per_bot > 0 {
            let blue = self.blue;
            let red = (blue + self.offset) % n;
            if self.offset < self.games_per_bot {
                self.offset += 1;
            } else {
                self.blue += 1;
                self.offset = 1;
            }
            assert(self@ == before.moved_on());
            proof {
                let after = self@;
                assert forall|i: int| 0 <= i < after.pending.len() implies after.segment_ok(
                    #[trigger] after.pending[i],
                ) by {
                    assert(before.segment_ok(before.pending[i]));
                }
            }
            if red != blue {
                self.playing = Some((seg.start + blue, seg.start + red));
                Action::Play { blue: seg.start + blue, red: seg.start + red }
            } else {
                Action::Proceed
            }
        } else {
            self.pending.pop();
            self.blue = 0;
            self.offset = 1;
            if n > 0 {
                let d = divisor(self.games_per_bot);
                coarsen(&mut self.bots, seg.start, seg.end, seg.round, d);
                rank_segment(&mut self.bots, seg.start, seg.end, seg.round);
                if seg.round + 1 < NUMER_OF_PLAYOFF_ROUNDS {
                    let third = n / 3;
                    self.pending.push(
                        Segment { start: seg.start + 2 * third, end: seg.end, round: seg.round + 1 },
                    );
                    self.pending.push(
                        Segment {
                            start: seg.start + third,
                            end: seg.start + 2 * third,
                            round: seg.round + 1,
                        },
                    );
                    self.pending.push(
                        Segment { start: seg.start, end: seg.start + third, round: seg.round + 1 },
                    );
                    assert(self.pending@ =~= before.pending.drop_last() + thirds(seg));
                }
            }
            assert(self@.pending =~= before.closed().pending);
            assert(self@ == before.closed());
            proof {
                let after = self@;
                assert forall|i: int| 0 <= i < after.pending.len() implies after.segment_ok(
                    #[trigger] after.pending[i],
                ) by {
                    if i < before.pending.len() - 1 {
                        assert(after.pending[i] == before.pending[i]);
                        assert(before.segment_ok(before.pending[i]));
                    } else {
                        assert(before.segment_ok(seg));
                    }
                }
            }
            Action::Proceed
        }
    }

    /// Whether the result of the match in play can be recorded: it is consistent, and
    /// the scores of the two bots have room for it.
    pub fn can_record(&self, winner: Option<Team>, t: &Tally) -> (ok: bool)
        requires
            self@.well_formed(),
            self.playing is Some,
        ensures
            ok == self.accepts(winner, *t),
    {
        match self.playing {
            Some(m) => {
                let round = self.pending[self.pending.len() - 1].round;
                check_consistent(winner, t) && self.bots[m.0].score.can_credit(round, t)
                    && self.bots[m.1].score.can_credit(round, t)
            },
            None => false,
        }
    }

    /// The result is consistent, and the scores of the two bots in play have room for
    /// it.
    pub open spec fn accepts(&self, winner: Option<Team>, t: Tally) -> bool {
        &&& is_consistent(winner, t)
        &&& self.bots@[self.playing.unwrap().0 as int].score.has_room(
            self.pending@.last().round as int,
            t,
        )
        &&& self.bots@[self.playing.unwrap().1 as int].score.has_room(
            self.pending@.last().round as int,
            t,
        )
    }

    /// Records the result of the match in play.
    pub fn record(&mut self, winner: Option<Team>, t: &Tally)
        requires
            old(self)@.well_formed(),
            old(self).playing is Some,
            old(self).accepts(winner, *t),
        ensures
            final(self)@ == old(self)@.recorded(winner, *t),
            final(self)@.well_formed(),
    {
        let round = self.pending[self.pending.len() - 1].round;
        match self.playing {
            Some(m) => {
                record_match(&mut self.bots, m.0, m.1, round, winner, t);
            },
            None => {},
        }
        self.playing = None;
    }

    /// Drops the match in play: no score changes.
    pub fn drop_match(&mut self)
        requires
            old(self)@.well_formed(),
        ensures
            final(self)@ == (Standing { playing: None, ..old(self)@ }),
            final(self)@.well_formed(),
    {
        let ghost before = self@;
        self.playing = None;
        proof {
            let after = self@;
            assert forall|i: int| 0 <= i < after.pending.len() implies after.segment_ok(
                #[trigger] after.pending[i],
            ) by {
                assert(before.segment_ok(before.pending[i]));
            }
        }
    }

    /// Ends the tournament and hands back the bots.
    pub fn into_bots(self) -> (bots: Vec<Bot>)
        ensures
            bots@ == self@.bots,
    {
        self.bots
    }
}

} // verus!
