//! What one turn of a match looks like to a program: the objects on the grid, the
//! members of each team, and the side the program plays.

use vstd::prelude::*;
use crate::logic_ext::{manhattan, Coords, CoordsExt, Team};

verus! {

/// Largest coordinate a well-formed turn may hold, so that distances fit a number value.
pub const MAX_COORD: usize = 0x3FFF_FFFF;

/// Largest health a well-formed turn may hold, so that it fits a number value.
pub const MAX_HEALTH: usize = 0x7FFF_FFFF;

/// A piece that can move and fight.
#[derive(Debug, Copy, Clone, PartialEq, Eq, Structural)]
pub struct Unit {
    pub team: Team,
    pub health: usize,
}

#[derive(Debug, Copy, Clone, PartialEq, Eq, Structural)]
pub enum ObjDetails {
    Terrain,
    Unit(Unit),
}

/// Anything that occupies a cell.
#[derive(Debug, Copy, Clone, PartialEq, Eq, Structural)]
pub struct Obj {
    pub id: usize,
    pub coords: Coords,
    pub details: ObjDetails,
}

/// The state of the current turn as handed to a program.
///
/// `objs` lists every object; where two entries share an id or a cell, the earlier
/// one is the one that lookups find.  `red` and `blue` list the ids of each team's
/// units in the order in which the team is walked.
#[derive(Debug, Clone)]
pub struct TurnInput {
    pub objs: Vec<Obj>,
    pub red: Vec<usize>,
    pub blue: Vec<usize>,
    pub team: Team,
}

/// The first object of `objs` that carries `id`.
pub open spec fn find_obj(objs: Seq<Obj>, id: usize) -> Option<Obj>
    decreases objs.len(),
{
    if objs.len() == 0 {
        None
    } else if objs[0].id == id {
        Some(objs[0])
    } else {
        find_obj(objs.skip(1), id)
    }
}

/// The first object of `objs` that stands on cell `(x, y)`.
pub open spec fn obj_at(objs: Seq<Obj>, x: int, y: int) -> Option<Obj>
    decreases objs.len(),
{
    if objs.len() == 0 {
        None
    } else if objs[0].coords.0 == x && objs[0].coords.1 == y {
        Some(objs[0])
    } else {
        obj_at(objs.skip(1), x, y)
    }
}

/// Whether the object is a unit, and one of `team` (`same`) or of the other team (`!same`).
pub open spec fn is_unit_of(obj: Option<Obj>, team: Team, same: bool) -> bool {
    match obj {
        Some(o) => match o.details {
            ObjDetails::Unit(u) => (u.team == team) == same,
            ObjDetails::Terrain => false,
        },
        None => false,
    }
}

pub open spec fn one_if(b: bool) -> nat {
    if b {
        1
    } else {
        0
    }
}

/// How many of the four cells that share an edge with `(x, y)` hold a unit of `team`
/// (`same`) or of the other team (`!same`).
pub open spec fn count_adjacent(objs: Seq<Obj>, x: int, y: int, team: Team, same: bool) -> nat {
    one_if(is_unit_of(obj_at(objs, x, y + 1), team, same))
        + one_if(is_unit_of(obj_at(objs, x - 1, y), team, same))
        + one_if(is_unit_of(obj_at(objs, x + 1, y), team, same))
        + one_if(is_unit_of(obj_at(objs, x, y - 1), team, same))
}

/// The object among those named by `ids` that lies nearest to `from`; of several at
/// the same distance, the one named first.  Ids that name no object are passed over.
pub open spec fn nearest_of(ids: Seq<usize>, objs: Seq<Obj>, from: Coords) -> Option<Obj>
    decreases ids.len(),
{
    if ids.len() == 0 {
        None
    } else {
        let before = nearest_of(ids.drop_last(), objs, from);
        match find_obj(objs, ids.last()) {
            None => before,
            Some(o) => match before {
                None => Some(o),
                Some(b) => if manhattan(o.coords, from) < manhattan(b.coords, from) {
                    Some(o)
                } else {
                    Some(b)
                },
            },
        }
    }
}

impl TurnInput {
    /// Coordinates and health are small enough to be number values.
    pub open spec fn well_formed(&self) -> bool {
        forall|i: int|
            0 <= i < self.objs@.len() ==> {
                &&& (#[trigger] self.objs@[i]).coords.0 <= MAX_COORD
                &&& self.objs@[i].coords.1 <= MAX_COORD
                &&& (self.objs@[i].details matches ObjDetails::Unit(u) ==> u.health <= MAX_HEALTH)
            }
    }

    pub open spec fn members(&self, team: Team) -> Seq<usize> {
        match team {
            Team::Red => self.red@,
            Team::Blue => self.blue@,
        }
    }

    pub open spec fn find_spec(&self, id: usize) -> Option<Obj> {
        find_obj(self.objs@, id)
    }

    pub open spec fn nearest_spec(&self, team: Team, from: Coords) -> Option<Obj> {
        nearest_of(self.members(team), self.objs@, from)
    }

    pub open spec fn count_adjacent_spec(&self, at: Coords, same: bool) -> nat {
        count_adjacent(self.objs@, at.0 as int, at.1 as int, self.team, same)
    }

    /// The ids of the units of `team`, in the order in which the team is walked.
    pub fn members_of(&self, team: Team) -> (ids: &Vec<usize>)
        ensures
            ids@ == self.members(team),
    {
        match team {
            Team::Red => &self.red,
            Team::Blue => &self.blue,
        }
    }

    /// Checks `well_formed` at run time.
    pub fn is_well_formed(&self) -> (ok: bool)
        ensures
            ok == self.well_formed(),
    {
        let mut i: usize = 0;
        while i < self.objs.len()
            invariant
                i <= self.objs@.len(),
                forall|j: int|
                    0 <= j < i ==> {
                        &&& (#[trigger] self.objs@[j]).coords.0 <= MAX_COORD
                        &&& self.objs@[j].coords.1 <= MAX_COORD
                        &&& (self.objs@[j].details matches ObjDetails::Unit(u) ==> u.health
                            <= MAX_HEALTH)
                    },
            decreases self.objs@.len() - i,
        {
            let o = self.objs[i];
            if o.coords.0 > MAX_COORD || o.coords.1 > MAX_COORD {
                return false;
            }
            match o.details {
                ObjDetails::Unit(u) => {
                    if u.health > MAX_HEALTH {
                        return false;
                    }
                },
                ObjDetails::Terrain => {},
            }
            i += 1;
        }
        true
    }

    /// The object that carries `id`, if there is one.
    pub fn find(&self, id: usize) -> (found: Option<Obj>)
        ensures
            found == self.find_spec(id),
            found matches Some(o) ==> self.objs@.contains(o),
    {
        let mut i: usize = 0;
        assert(self.objs@.skip(0) == self.objs@);
        while i < self.objs.len()
            invariant
                i <= self.objs@.len(),
                find_obj(self.objs@, id) == find_obj(self.objs@.skip(i as int), id),
            decreases self.objs@.len() - i,
        {
            let o = self.objs[i];
            assert(self.objs@.skip(i as int)[0] == o);
            if o.id == id {
                return Some(o);
            }
            assert(self.objs@.skip(i as int).skip(1) == self.objs@.skip(i as int + 1));
            i += 1;
        }
        None
    }

    /// The object that stands on cell `(x, y)`, if there is one.
    pub fn at(&self, x: usize, y: usize) -> (found: Option<Obj>)
        ensures
            found == obj_at(self.objs@, x as int, y as int),
    {
        let mut i: usize = 0;
        assert(self.objs@.skip(0) == self.objs@);
        while i < self.objs.len()
            invariant
                i <= self.objs@.len(),
                obj_at(self.objs@, x as int, y as int) == obj_at(
                    self.objs@.skip(i as int),
                    x as int,
                    y as int,
                ),
            decreases self.objs@.len() - i,
        {
            let o = self.objs[i];
            assert(self.objs@.skip(i as int)[0] == o);
            if o.coords.0 == x && o.coords.1 == y {
                return Some(o);
            }
            assert(self.objs@.skip(i as int).skip(1) == self.objs@.skip(i as int + 1));
            i += 1;
        }
        None
    }

    /// Whether cell `(x, y)` holds a unit of this side (`same`) or of the other side.
    fn holds_unit(&self, x: usize, y: usize, same: bool) -> (yes: bool)
        ensures
            yes == is_unit_of(obj_at(self.objs@, x as int, y as int), self.team, same),
    {
        match self.at(x, y) {
            Some(o) => match o.details {
                ObjDetails::Unit(u) => (u.team == self.team) == same,
                ObjDetails::Terrain => false,
            },
            None => false,
        }
    }

    /// Counts the units of this side (`same`) or of the other side on the four cells
    /// that share an edge with `at`.
    pub fn count_adjacent(&self, at: Coords, same: bool) -> (n: usize)
        requires
            at.0 <= MAX_COORD,
            at.1 <= MAX_COORD,
        ensures
            n == self.count_adjacent_spec(at, same),
            n <= 4,
    {
        let mut n: usize = 0;
        if self.holds_unit(at.0, at.1 + 1, same) {
            n += 1;
        }
        if at.0 > 0 {
            if self.holds_unit(at.0 - 1, at.1, same) {
                n += 1;
            }
        } else {
            proof {
                lemma_no_obj_off_grid(self.objs@, -1, at.1 as int);
            }
        }
        if self.holds_unit(at.0 + 1, at.1, same) {
            n += 1;
        }
        if at.1 > 0 {
            if self.holds_unit(at.0, at.1 - 1, same) {
                n += 1;
            }
        } else {
            proof {
                lemma_no_obj_off_grid(self.objs@, at.0 as int, -1);
            }
        }
        n
    }

    /// The member of `team` nearest to `from`; of several at the same distance, the one
    /// that comes first in the team's list.
    pub fn nearest(&self, team: Team, from: Coords) -> (found: Option<Obj>)
        requires
            self.well_formed(),
            from.0 <= MAX_COORD,
            from.1 <= MAX_COORD,
        ensures
            found == self.nearest_spec(team, from),
            found matches Some(o) ==> self.objs@.contains(o),
    {
        let ids = self.members_of(team);
        let mut best: Option<Obj> = None;
        let mut best_distance: usize = 0;
        let mut i: usize = 0;
        while i < ids.len()
            invariant
                i <= ids@.len(),
                ids@ == self.members(team),
                self.well_formed(),
                from.0 <= MAX_COORD,
                from.1 <= MAX_COORD,
                best == nearest_of(ids@.take(i as int), self.objs@, from),
                best matches Some(b) ==> best_distance == manhattan(b.coords, from)
                    && self.objs@.contains(b),
            decreases ids@.len() - i,
        {
            assert(ids@.take(i as int + 1).drop_last() == ids@.take(i as int));
            assert(ids@.take(i as int + 1).last() == ids@[i as int]);
            match self.find(ids[i]) {
                Some(o) => {
                    assert(self.objs@.contains(o));
                    let d = o.coords.distance(from);
                    if best.is_none() || d < best_distance {
                        best = Some(o);
                        best_distance = d;
                    }
                },
                None => {},
            }
            i += 1;
        }
        assert(ids@.take(i as int) == ids@);
        best
    }
}

/// What `nearest_of` finds is the object of one of the ids, no other object that the
/// ids name lies nearer, and every one that is named earlier lies farther.  It finds
/// nothing only where no id names an object.
pub proof fn lemma_nearest_of(ids: Seq<usize>, objs: Seq<Obj>, from: Coords)
    ensures
        match nearest_of(ids, objs, from) {
            Some(o) => exists|k: int|
                {
                    &&& 0 <= k < ids.len()
                    &&& find_obj(objs, #[trigger] ids[k]) == Some(o)
                    &&& forall|j: int|
                        0 <= j < ids.len() ==> (find_obj(objs, #[trigger] ids[j]) matches Some(p)
                            ==> manhattan(o.coords, from) <= manhattan(p.coords, from))
                    &&& forall|j: int|
                        0 <= j < k ==> (find_obj(objs, #[trigger] ids[j]) matches Some(p)
                            ==> manhattan(o.coords, from) < manhattan(p.coords, from))
                },
            None => forall|j: int| 0 <= j < ids.len() ==> find_obj(objs, #[trigger] ids[j]) is None,
        },
    decreases ids.len(),
{
    if ids.len() > 0 {
        let rest = ids.drop_last();
        let last = ids.len() - 1;
        lemma_nearest_of(rest, objs, from);
        assert forall|j: int| 0 <= j < rest.len() implies rest[j] == ids[j] by {}
        match nearest_of(rest, objs, from) {
            None => {
                match find_obj(objs, ids.last()) {
                    Some(o) => {
                        assert(find_obj(objs, ids[last]) == Some(o));
                        assert forall|j: int| 0 <= j < last implies find_obj(
                            objs,
                            #[trigger] ids[j],
                        ) is None by {
                            assert(rest[j] == ids[j]);
                        }
                    },
                    None => {
                        assert forall|j: int| 0 <= j < ids.len() implies find_obj(
                            objs,
                            #[trigger] ids[j],
                        ) is None by {
                            if j < last {
                                assert(rest[j] == ids[j]);
                            }
                        }
                    },
                }
            },
            Some(b) => {
                let kb = choose|k: int|
                    {
                        &&& 0 <= k < rest.len()
                        &&& find_obj(objs, #[trigger] rest[k]) == Some(b)
                        &&& forall|j: int|
                            0 <= j < rest.len() ==> (find_obj(
                                objs,
                                #[trigger] rest[j],
                            ) matches Some(p) ==> manhattan(b.coords, from) <= manhattan(
                                p.coords,
                                from,
                            ))
                        &&& forall|j: int|
                            0 <= j < k ==> (find_obj(objs, #[trigger] rest[j]) matches Some(p)
                                ==> manhattan(b.coords, from) < manhattan(p.coords, from))
                    };
                let found = nearest_of(ids, objs, from).unwrap();
                let k = if found == b && !(find_obj(objs, ids.last()) matches Some(o) && manhattan(
                    o.coords,
                    from,
                ) < manhattan(b.coords, from)) {
                    kb
                } else {
                    last
                };
                assert(find_obj(objs, ids[k]) == Some(found)) by {
                    assert(rest[kb] == ids[kb]);
                }
                assert forall|j: int| 0 <= j < ids.len() implies (find_obj(
                    objs,
                    #[trigger] ids[j],
                ) matches Some(p) ==> manhattan(found.coords, from) <= manhattan(
                    p.coords,
                    from,
                )) by {
                    if j < last {
                        assert(rest[j] == ids[j]);
                    }
                }
                assert forall|j: int| 0 <= j < k implies (find_obj(
                    objs,
                    #[trigger] ids[j],
                ) matches Some(p) ==> manhattan(found.coords, from) < manhattan(
                    p.coords,
                    from,
                )) by {
                    assert(rest[j] == ids[j]);
                }
            },
        }
    }
}

/// No object stands on a cell with a negative coordinate.
pub proof fn lemma_no_obj_off_grid(objs: Seq<Obj>, x: int, y: int)
    requires
        x < 0 || y < 0,
    ensures
        obj_at(objs, x, y) is None,
    decreases objs.len(),
{
    if objs.len() > 0 {
        lemma_no_obj_off_grid(objs.skip(1), x, y);
    }
}

/// The number of rows and of columns of the picture of a turn.
pub const PICTURE_SIZE: usize = 19;

/// The character that stands for an object in the picture of a turn.
pub open spec fn symbol(details: ObjDetails) -> char {
    match details {
        ObjDetails::Terrain => '#',
        ObjDetails::Unit(u) => match u.team {
            Team::Blue => '.',
            Team::Red => '^',
        },
    }
}

/// The character of cell `(x, y)` in the picture: the symbol of the last object that
/// stands on the cell, a blank where none does.
pub open spec fn cell_symbol(objs: Seq<Obj>, x: int, y: int) -> char
    decreases objs.len(),
{
    if objs.len() == 0 {
        ' '
    } else if objs.last().coords.0 == x && objs.last().coords.1 == y {
        symbol(objs.last().details)
    } else {
        cell_symbol(objs.drop_last(), x, y)
    }
}

/// `rows` has `PICTURE_SIZE` rows of `PICTURE_SIZE` characters, and each is the one
/// that `cell_symbol` gives for the objects.
pub open spec fn is_picture_of(rows: Seq<Vec<char>>, objs: Seq<Obj>) -> bool {
    &&& rows.len() == PICTURE_SIZE
    &&& forall|y: int| 0 <= y < PICTURE_SIZE ==> (#[trigger] rows[y])@.len() == PICTURE_SIZE
    &&& forall|x: int, y: int|
        0 <= x < PICTURE_SIZE && 0 <= y < PICTURE_SIZE ==> (#[trigger] rows[y]@[x])
            == cell_symbol(objs, x, y)
}

/// Draws the objects of a turn: one row of characters for each row of the grid, from
/// row 0 on.
pub fn picture(objs: &Vec<Obj>) -> (rows: Vec<Vec<char>>)
    requires
        forall|i: int|
            0 <= i < objs@.len() ==> (#[trigger] objs@[i]).coords.0 < PICTURE_SIZE
                && objs@[i].coords.1 < PICTURE_SIZE,
    ensures
        is_picture_of(rows@, objs@),
{
    let mut rows: Vec<Vec<char>> = Vec::new();
    let mut y: usize = 0;
    while y < PICTURE_SIZE
        invariant
            y <= PICTURE_SIZE,
            rows@.len() == y,
            forall|r: int| 0 <= r < y ==> (#[trigger] rows@[r])@.len() == PICTURE_SIZE,
            forall|r: int, c: int|
                0 <= r < y && 0 <= c < PICTURE_SIZE ==> (#[trigger] rows@[r]@[c]) == ' ',
        decreases PICTURE_SIZE - y,
    {
        let mut row: Vec<char> = Vec::new();
        let mut x: usize = 0;
        while x < PICTURE_SIZE
            invariant
                x <= PICTURE_SIZE,
                row@.len() == x,
                forall|c: int| 0 <= c < x ==> row@[c] == ' ',
            decreases PICTURE_SIZE - x,
        {
            row.push(' ');
            x += 1;
        }
        rows.push(row);
        y += 1;
    }
    let mut n: usize = 0;
    assert(objs@.take(0).len() == 0);
    while n < objs.len()
        invariant
            n <= objs@.len(),
            forall|i: int|
                0 <= i < objs@.len() ==> (#[trigger] objs@[i]).coords.0 < PICTURE_SIZE
                    && objs@[i].coords.1 < PICTURE_SIZE,
            is_picture_of(rows@, objs@.take(n as int)),
        decreases objs@.len() - n,
    {
        let o = objs[n];
        let ghost before = rows@;
        proof {
            assert(objs@.take(n as int + 1).drop_last() == objs@.take(n as int));
            assert(objs@.take(n as int + 1).last() == o);
        }
        let mark = match o.details {
            ObjDetails::Terrain => '#',
            ObjDetails::Unit(u) => match u.team {
                Team::Blue => '.',
                Team::Red => '^',
            },
        };
        rows[o.coords.1][o.coords.0] = mark;
        proof {
            assert forall|x: int, y: int|
                0 <= x < PICTURE_SIZE && 0 <= y < PICTURE_SIZE implies (#[trigger] rows@[y]@[x])
                == cell_symbol(objs@.take(n as int + 1), x, y) by {
                assert(before[y]@[x] == cell_symbol(objs@.take(n as int), x, y));
            }
        }
        n += 1;
    }
    assert(objs@.take(n as int) == objs@);
    rows
}

} // verus!
