use vstd::prelude::*;
use crate::raster::{Loc, pt, raster, on_line, bresenham};
use crate::storage::Entity;

verus! {

/// A room: its corner, width and height. Its walls are its outer cells.
pub type Room = (Loc, i16, i16);

/// A corridor: the straight segment between two ends.
pub type Corridor = (Loc, Loc);

/// The fixed layout of one level.
pub struct Floor {
    pub rooms: Vec<Room>,
    pub lines: Vec<Corridor>,
    pub monsters: Vec<Entity>,
    pub stairs: Vec<Entity>,
}

/// `p` lies strictly inside the room's walls.
pub open spec fn in_room(room: Room, p: (int, int)) -> bool {
    &&& room.0[0] < p.0 < room.0[0] + room.1
    &&& room.0[1] < p.1 < room.0[1] + room.2
}

/// `p` is one of the points of the corridor's digital line.
pub open spec fn on_corridor(line: Corridor, p: (int, int)) -> bool {
    raster(line.0, line.1).contains(p)
}

impl Floor {
    /// Whether a move may end on `p`.
    pub open spec fn admits(&self, p: (int, int)) -> bool {
        (exists|k: int| 0 <= k < self.rooms@.len() && in_room(#[trigger] self.rooms@[k], p)) || (
        exists|k: int| 0 <= k < self.lines@.len() && on_corridor(#[trigger] self.lines@[k], p))
    }

    pub fn in_any_room(&self, p: Loc) -> (r: bool)
        ensures
            r == exists|k: int| 0 <= k < self.rooms@.len() && in_room(#[trigger] self.rooms@[k], pt(p)),
    {
        let mut k: usize = 0;
        while k < self.rooms.len()
            invariant
                k <= self.rooms@.len(),
                forall|i: int| 0 <= i < k ==> !in_room(#[trigger] self.rooms@[i], pt(p)),
            decreases self.rooms@.len() - k,
        {
            if room_contains(self.rooms[k], p) {
                return true;
            }
            k = k + 1;
        }
        false
    }

    pub fn on_any_corridor(&self, p: Loc) -> (r: bool)
        ensures
            r == exists|k: int| 0 <= k < self.lines@.len() && on_corridor(#[trigger] self.lines@[k], pt(p)),
    {
        let mut k: usize = 0;
        while k < self.lines.len()
            invariant
                k <= self.lines@.len(),
                forall|i: int| 0 <= i < k ==> !on_corridor(#[trigger] self.lines@[i], pt(p)),
            decreases self.lines@.len() - k,
        {
            let line = self.lines[k];
            if on_line(line.0, line.1, p) {
                return true;
            }
            k = k + 1;
        }
        false
    }

    /// Rooms are tried first; corridors only when no room holds `p`.
    pub fn admits_position(&self, p: Loc) -> (r: bool)
        ensures
            r == self.admits(pt(p)),
    {
        if self.in_any_room(p) {
            true
        } else {
            self.on_any_corridor(p)
        }
    }
}

pub fn room_contains(room: Room, p: Loc) -> (r: bool)
    ensures
        r == in_room(room, pt(p)),
{
    let (o, w, h) = room;
    let x = p[0] as i32;
    let y = p[1] as i32;
    (o[0] as i32) < x && x < o[0] as i32 + w as i32 && (o[1] as i32) < y && y < o[1] as i32 + h as i32
}

/// The levels of the dungeon, top first.
pub fn dungeon() -> (r: Vec<Floor>)
    ensures
        r@.len() == 1,
        r@[0].rooms@ == seq![([10i16, 10i16], 20i16, 20i16)],
        r@[0].lines@ == seq![([5i16, 5i16], [25i16, 25i16])],
        r@[0].monsters@.len() == 0,
        r@[0].stairs@.len() == 0,
{
    let mut floors: Vec<Floor> = Vec::new();
    let rooms: Vec<Room> = vec![([10, 10], 20, 20)];
    let lines: Vec<Corridor> = vec![([5, 5], [25, 25])];
    floors.push(Floor { rooms, lines, monsters: Vec::new(), stairs: Vec::new() });
    floors
}

/// A glyph to draw at a map position.
pub open spec fn glyph_view(g: (Loc, char)) -> ((int, int), char) {
    (pt(g.0), g.1)
}

/// The glyph of the cell `x` columns and `y` rows into a room: wall on the
/// border, ground inside.
pub open spec fn room_cell(room: Room, x: int, y: int) -> ((int, int), char) {
    (
        (room.0[0] + x, room.0[1] + y),
        if x == 0 || y == 0 || x == room.1 - 1 || y == room.2 - 1 {
            '='
        } else {
            '.'
        },
    )
}

pub open spec fn room_column(room: Room, x: int) -> Seq<((int, int), char)> {
    Seq::new(if room.2 > 0 { room.2 as nat } else { 0 }, |y: int| room_cell(room, x, y))
}

/// The cells of the first `n` columns of a room, column by column.
pub open spec fn room_columns(room: Room, n: int) -> Seq<((int, int), char)>
    decreases n,
{
    if n <= 0 {
        Seq::empty()
    } else {
        room_columns(room, n - 1) + room_column(room, n - 1)
    }
}

pub open spec fn room_glyphs(room: Room) -> Seq<((int, int), char)> {
    room_columns(room, room.1 as int)
}

pub open spec fn rooms_glyphs(rooms: Seq<Room>) -> Seq<((int, int), char)>
    decreases rooms.len(),
{
    if rooms.len() == 0 {
        Seq::empty()
    } else {
        rooms_glyphs(rooms.drop_last()) + room_glyphs(rooms.last())
    }
}

pub open spec fn lines_glyphs(lines: Seq<Corridor>) -> Seq<((int, int), char)>
    decreases lines.len(),
{
    if lines.len() == 0 {
        Seq::empty()
    } else {
        lines_glyphs(lines.drop_last()) + raster(lines.last().0, lines.last().1).map_values(
            |p: (int, int)| (p, '.'),
        )
    }
}

/// Every room's cells fit in the range of a location.
pub open spec fn rooms_fit(rooms: Seq<Room>) -> bool {
    forall|k: int|
        0 <= k < rooms.len() ==> #[trigger] rooms[k].0[0] + rooms[k].1 <= 0x8000 && rooms[k].0[1]
            + rooms[k].2 <= 0x8000
}

pub fn rooms_in_range(rooms: &Vec<Room>) -> (r: bool)
    ensures
        r == rooms_fit(rooms@),
{
    let mut k: usize = 0;
    while k < rooms.len()
        invariant
            k <= rooms@.len(),
            forall|i: int|
                0 <= i < k ==> #[trigger] rooms@[i].0[0] + rooms@[i].1 <= 0x8000 && rooms@[i].0[1]
                    + rooms@[i].2 <= 0x8000,
        decreases rooms@.len() - k,
    {
        let room = rooms[k];
        if room.0[0] as i32 + room.1 as i32 > 0x8000 || room.0[1] as i32 + room.2 as i32 > 0x8000 {
            return false;
        }
        k = k + 1;
    }
    true
}

/// What drawing the floor puts on the map: each room cell by cell, then each
/// corridor point by point as ground.
pub fn floor_glyphs(floor: &Floor) -> (r: Vec<(Loc, char)>)
    requires
        rooms_fit(floor.rooms@),
    ensures
        r@.map_values(|g: (Loc, char)| glyph_view(g)) == rooms_glyphs(floor.rooms@) + lines_glyphs(
            floor.lines@,
        ),
{
    let mut out: Vec<(Loc, char)> = Vec::new();
    let mut k: usize = 0;
    while k < floor.rooms.len()
        invariant
            k <= floor.rooms@.len(),
            rooms_fit(floor.rooms@),
            out@.map_values(|g: (Loc, char)| glyph_view(g)) == rooms_glyphs(floor.rooms@.take(k as int)),
        decreases floor.rooms@.len() - k,
    {
        let room = floor.rooms[k];
        assert(room.0[0] + room.1 <= 0x8000 && room.0[1] + room.2 <= 0x8000);
        let ghost base = out@.map_values(|g: (Loc, char)| glyph_view(g));
        let mut x: i16 = 0;
        while x < room.1
            invariant
                0 <= x,
                room.1 > 0 ==> x <= room.1,
                room.1 <= 0 ==> x == 0,
                room.0[0] + room.1 <= 0x8000,
                room.0[1] + room.2 <= 0x8000,
                out@.map_values(|g: (Loc, char)| glyph_view(g)) == base + room_columns(room, x as int),
            decreases room.1 - x,
        {
            let mut y: i16 = 0;
            while y < room.2
                invariant
                    0 <= x < room.1,
                    0 <= y,
                    room.2 > 0 ==> y <= room.2,
                    room.2 <= 0 ==> y == 0,
                    room.0[0] + room.1 <= 0x8000,
                    room.0[1] + room.2 <= 0x8000,
                    out@.map_values(|g: (Loc, char)| glyph_view(g)) == base + room_columns(room, x as int)
                        + room_column(room, x as int).take(y as int),
                decreases room.2 - y,
            {
                let c = if x == 0 || y == 0 || x == room.1 - 1 || y == room.2 - 1 {
                    '='
                } else {
                    '.'
                };
                let ghost before = out@.map_values(|g: (Loc, char)| glyph_view(g));
                out.push(([room.0[0] + x, room.0[1] + y], c));
                assert(out@.map_values(|g: (Loc, char)| glyph_view(g)) =~= before.push(
                    room_cell(room, x as int, y as int),
                ));
                assert(room_column(room, x as int).take(y + 1) =~= room_column(room, x as int).take(
                    y as int,
                ).push(room_cell(room, x as int, y as int)));
                y = y + 1;
            }
            assert(room_column(room, x as int).len() == y as int);
            assert(room_column(room, x as int).take(y as int) =~= room_column(room, x as int));
            assert(base + room_columns(room, x as int) + room_column(room, x as int) =~= base
                + room_columns(room, x + 1));
            x = x + 1;
        }
        assert(floor.rooms@.take(k + 1).drop_last() =~= floor.rooms@.take(k as int));
        assert(floor.rooms@.take(k + 1).last() == room);
        assert(x == room.1 || room.1 <= 0);
        assert(room.1 <= 0 ==> room_columns(room, room.1 as int) =~= Seq::empty());
        assert(room_columns(room, x as int) == room_glyphs(room));
        assert(base + room_glyphs(room) =~= rooms_glyphs(floor.rooms@.take(k + 1)));
        k = k + 1;
    }
    assert(floor.rooms@.take(k as int) =~= floor.rooms@);
    let ghost rooms_part = out@.map_values(|g: (Loc, char)| glyph_view(g));
    let mut j: usize = 0;
    while j < floor.lines.len()
        invariant
            j <= floor.lines@.len(),
            out@.map_values(|g: (Loc, char)| glyph_view(g)) == rooms_part + lines_glyphs(
                floor.lines@.take(j as int),
            ),
        decreases floor.lines@.len() - j,
    {
        let line = floor.lines[j];
        let pts = bresenham(line.0, line.1);
        let ghost base = out@.map_values(|g: (Loc, char)| glyph_view(g));
        let ghost line_pts = raster(line.0, line.1).map_values(|p: (int, int)| (p, '.'));
        let mut i: usize = 0;
        while i < pts.len()
            invariant
                i <= pts@.len(),
                pts@.map_values(|l: Loc| pt(l)) == raster(line.0, line.1),
                line_pts == raster(line.0, line.1).map_values(|p: (int, int)| (p, '.')),
                out@.map_values(|g: (Loc, char)| glyph_view(g)) == base + line_pts.take(i as int),
            decreases pts@.len() - i,
        {
            let ghost before = out@.map_values(|g: (Loc, char)| glyph_view(g));
            out.push((pts[i], '.'));
            assert(pts@.map_values(|l: Loc| pt(l))[i as int] == pt(pts@[i as int]));
            assert(out@.map_values(|g: (Loc, char)| glyph_view(g)) =~= before.push(line_pts[i as int]));
            assert(line_pts.take(i + 1) =~= line_pts.take(i as int).push(line_pts[i as int]));
            i = i + 1;
        }
        assert(line_pts.take(i as int) =~= line_pts);
        assert(floor.lines@.take(j + 1).drop_last() =~= floor.lines@.take(j as int));
        assert(floor.lines@.take(j + 1).last() == line);
        assert(base + line_pts =~= rooms_part + lines_glyphs(floor.lines@.take(j + 1)));
        j = j + 1;
    }
    assert(floor.lines@.take(j as int) =~= floor.lines@);
    out
}

} // verus!
