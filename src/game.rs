use vstd::prelude::*;
use crate::raster::{Loc, pt};
use crate::storage::{
    Component, ComponentStorage, Entity, EntityType, Slot, StorageError, StorageView, RecordView,
    layout_of, loc_bytes, point_bytes, loc_from_bytes, lemma_location_write_read, sum_widths, ids, first_at,
};
use crate::messages::{MessageKind, MessageLog, MessageView, posted, dismissed, refreshed};
use crate::geometry::{Floor, dungeon};

verus! {

/// One of the eight directions of a move.
#[derive(Clone, Copy, PartialEq, Eq, Structural, Debug)]
pub enum Dir {
    Up,
    Down,
    Left,
    Right,
    UpLeft,
    UpRight,
    DownLeft,
    DownRight,
}

/// Where `mag` steps in direction `d` from `p` lead.
pub open spec fn shifted(p: (int, int), d: Dir, mag: int) -> (int, int) {
    match d {
        Dir::Up => (p.0, p.1 - mag),
        Dir::Down => (p.0, p.1 + mag),
        Dir::Left => (p.0 - mag, p.1),
        Dir::Right => (p.0 + mag, p.1),
        Dir::UpLeft => (p.0 - mag, p.1 - mag),
        Dir::UpRight => (p.0 + mag, p.1 - mag),
        Dir::DownLeft => (p.0 - mag, p.1 + mag),
        Dir::DownRight => (p.0 + mag, p.1 + mag),
    }
}

pub open spec fn fits_i16(p: (int, int)) -> bool {
    -0x8000 <= p.0 <= 0x7fff && -0x8000 <= p.1 <= 0x7fff
}

/// The position `mag` steps in direction `d` from `l`, or `None` where it leaves
/// the range of a location.
pub fn candidate(l: Loc, d: Dir, mag: i16) -> (r: Option<Loc>)
    ensures
        match r {
            Some(c) => pt(c) == shifted(pt(l), d, mag as int),
            None => !fits_i16(shifted(pt(l), d, mag as int)),
        },
{
    let x = l[0] as i32;
    let y = l[1] as i32;
    let m = mag as i32;
    let (nx, ny): (i32, i32) = match d {
        Dir::Up => (x, y - m),
        Dir::Down => (x, y + m),
        Dir::Left => (x - m, y),
        Dir::Right => (x + m, y),
        Dir::UpLeft => (x - m, y - m),
        Dir::UpRight => (x + m, y - m),
        Dir::DownLeft => (x - m, y + m),
        Dir::DownRight => (x + m, y + m),
    };
    if -0x8000 <= nx && nx <= 0x7fff && -0x8000 <= ny && ny <= 0x7fff {
        Some([nx as i16, ny as i16])
    } else {
        None
    }
}

/// Where map position `p` appears on screen when the view is shifted by
/// `frame`: nowhere if it falls above or left of the shifted origin.
pub open spec fn screen_of(p: (int, int), frame: (i16, i16)) -> Option<(int, int)> {
    let x = p.0 + frame.0;
    let y = p.1 + frame.1;
    if x < frame.0 || y < frame.1 || x < 0 || y < 0 {
        None
    } else {
        Some((x, y))
    }
}

pub fn screen_position(pos: Loc, frame: (i16, i16)) -> (r: Option<(usize, usize)>)
    ensures
        match r {
            Some(c) => screen_of(pt(pos), frame) == Some((c.0 as int, c.1 as int)),
            None => screen_of(pt(pos), frame) is None,
        },
{
    let x = pos[0] as i32 + frame.0 as i32;
    let y = pos[1] as i32 + frame.1 as i32;
    if x < frame.0 as i32 || y < frame.1 as i32 || x < 0 || y < 0 {
        None
    } else {
        Some((x as usize, y as usize))
    }
}

/// A key as the game reads it.
#[derive(Clone, Copy, PartialEq, Eq, Structural, Debug)]
pub enum Key {
    Up,
    Down,
    Left,
    Right,
    Char(char),
    Other,
}

/// What a key asks for.
#[derive(Clone, Copy, PartialEq, Eq, Structural, Debug)]
pub enum Command {
    /// Dismiss the message on show.
    Acknowledge,
    /// Move the player one step.
    Move(Dir),
}

pub open spec fn key_command(k: Key) -> Option<Command> {
    match k {
        Key::Char(']') => Some(Command::Acknowledge),
        Key::Up => Some(Command::Move(Dir::Up)),
        Key::Down => Some(Command::Move(Dir::Down)),
        Key::Left => Some(Command::Move(Dir::Left)),
        Key::Right => Some(Command::Move(Dir::Right)),
        Key::Char('i') => Some(Command::Move(Dir::UpLeft)),
        Key::Char('o') => Some(Command::Move(Dir::UpRight)),
        Key::Char('k') => Some(Command::Move(Dir::DownLeft)),
        Key::Char('l') => Some(Command::Move(Dir::DownRight)),
        _ => None,
    }
}

pub fn command_for(k: Key) -> (r: Option<Command>)
    ensures
        r == key_command(k),
{
    match k {
        Key::Char(']') => Some(Command::Acknowledge),
        Key::Up => Some(Command::Move(Dir::Up)),
        Key::Down => Some(Command::Move(Dir::Down)),
        Key::Left => Some(Command::Move(Dir::Left)),
        Key::Right => Some(Command::Move(Dir::Right)),
        Key::Char('i') => Some(Command::Move(Dir::UpLeft)),
        Key::Char('o') => Some(Command::Move(Dir::UpRight)),
        Key::Char('k') => Some(Command::Move(Dir::DownLeft)),
        Key::Char('l') => Some(Command::Move(Dir::DownRight)),
        _ => None,
    }
}

/// The core of a running game: the entity store with its schema, the levels,
/// the player and the message log.
pub struct Game {
    ecs: ComponentStorage,
    player: Entity,
    floors: Vec<Floor>,
    current_floor: usize,
    location: Component,
    monster_type: EntityType,
    item_type: EntityType,
    messages: MessageLog,
    scroll_frame: (i16, i16),
}

impl Game {
    /// The store is well formed, the location component is four bytes wide,
    /// the player's type holds it, and the current level exists.
    pub open spec fn wf(&self) -> bool {
        &&& self.store().wf()
        &&& self.location_component().0 < self.store().widths.len()
        &&& self.store().widths[self.location_component().0 as int] == 4
        &&& self.store().has(self.player_entity(), self.location_component())
        &&& self.current_index() < self.levels().len()
    }

    /// What stays fixed while the game runs: the schema handles, the player,
    /// the levels, the level being played and the scroll frame.
    pub open spec fn same_setup(&self, other: Game) -> bool {
        &&& self.location_component() == other.location_component()
        &&& self.monster_type() == other.monster_type()
        &&& self.item_type() == other.item_type()
        &&& self.player_entity() == other.player_entity()
        &&& self.levels() == other.levels()
        &&& self.current_index() == other.current_index()
        &&& self.frame() == other.frame()
    }

    pub closed spec fn store(&self) -> StorageView {
        self.ecs@
    }

    /// The component that holds a location.
    pub closed spec fn location_component(&self) -> Component {
        self.location
    }

    pub closed spec fn player_entity(&self) -> Entity {
        self.player
    }

    pub closed spec fn log(&self) -> MessageView {
        self.messages@
    }

    pub closed spec fn monster_type(&self) -> EntityType {
        self.monster_type
    }

    pub closed spec fn item_type(&self) -> EntityType {
        self.item_type
    }

    /// Index of the level being played.
    pub closed spec fn current_index(&self) -> usize {
        self.current_floor
    }

    /// The level being played.
    pub open spec fn floor(&self) -> Floor {
        self.levels()[self.current_index() as int]
    }

    pub closed spec fn levels(&self) -> Seq<Floor> {
        self.floors@
    }

    pub closed spec fn frame(&self) -> (i16, i16) {
        self.scroll_frame
    }

    /// The location stored for entity `e`.
    pub open spec fn position(&self, e: Entity) -> (int, int) {
        loc_from_bytes(self.store().slot_bytes(e, self.location_component()))
    }

    /// Whether moving entity `e` by `mag` steps towards `d` is accepted.
    pub open spec fn move_accepted(&self, e: Entity, d: Dir, mag: int) -> bool {
        let t = shifted(self.position(e), d, mag);
        fits_i16(t) && self.floor().admits(t)
    }

    /// Sets up the component schema, the player and the levels.
    pub fn new() -> (r: Game)
        ensures
            r.wf(),
            r.store().widths == seq![2usize, 2, 2, 4, 4, 4, 4, 4, 2],
            r.store().layouts == seq![
                layout_of(r.store().widths, seq![0usize, 1, 2, 3, 4, 5, 6]),
                layout_of(r.store().widths, seq![7usize, 8, 3]),
            ],
            r.store().layouts[0].size == 22,
            r.store().layouts[0].offsets == seq![0int, 2, 4, 6, 10, 14, 18],
            r.store().layouts[1].size == 10,
            r.store().layouts[1].offsets == seq![0int, 4, 6],
            r.store().records == seq![RecordView { ty: 0, bytes: Seq::new(22, |i: int| 0u8) }],
            r.monster_type() == EntityType(0),
            r.item_type() == EntityType(1),
            r.player_entity() == Entity(0),
            r.location_component() == Component(3),
            r.store().offset(r.player_entity(), r.location_component()) == 6,
            r.position(r.player_entity()) == (0int, 0int),
            r.log().len() == 0,
            r.levels().len() == 1,
            r.current_index() == 0,
            r.floor().rooms@ == seq![([10i16, 10i16], 20i16, 20i16)],
            r.floor().lines@ == seq![([5i16, 5i16], [25i16, 25i16])],
            r.floor().monsters@.len() == 0,
            r.floor().stairs@.len() == 0,
            r.frame() == (0i16, 1i16),
    {
        let mut ecs = ComponentStorage::new();
        let gold = ecs.create_component(2);
        let hp = ecs.create_component(2);
        let ai = ecs.create_component(2);
        let location = ecs.create_component(4);
        let spells = ecs.create_component(4);
        let inventory = ecs.create_component(4);
        let equipment = ecs.create_component(4);
        let item_id = ecs.create_component(4);
        let item_count = ecs.create_component(2);
        let ghost widths = ecs@.widths;
        assert(widths =~= seq![2usize, 2, 2, 4, 4, 4, 4, 4, 2]);
        let monster = vec![gold, hp, ai, location, spells, inventory, equipment];
        let item = vec![item_id, item_count, location];
        proof {
            assert(ids(monster@) =~= seq![0usize, 1, 2, 3, 4, 5, 6]);
            assert(ids(item@) =~= seq![7usize, 8, 3]);
            reveal_with_fuel(sum_widths, 8);
            assert(sum_widths(widths, ids(monster@)) == 22);
            assert(sum_widths(widths, ids(item@)) == 10);
        }
        let monster_type = ecs.create_entity_type(monster);
        let item_type = ecs.create_entity_type(item);
        let player = match ecs.create_entity(monster_type) {
            Ok(p) => p,
            Err(_) => {
                assert(false);
                Entity(0)
            },
        };
        let g = Game {
            ecs,
            player,
            floors: dungeon(),
            current_floor: 0,
            location,
            monster_type,
            item_type,
            messages: MessageLog::new(),
            scroll_frame: (0, 1),
        };
        proof {
            let v = g.ecs@;
            let comps = v.layouts[0].components;
            assert(comps[3] == 3);
            assert(comps.contains(3usize));
            assert(v.has(player, location));
            assert(first_at(comps, 3usize, 3));
            let k = v.index_in(player, location);
            assert(first_at(comps, 3usize, k));
            assert(k == 3);
            reveal_with_fuel(sum_widths, 4);
            assert(comps.take(3) =~= seq![0usize, 1, 2]);
            assert(v.offset(player, location) == 6);
            assert(g.position(player) == (0int, 0int));
        }
        g
    }

    /// Places the player on its starting square and greets.
    pub fn start(&mut self)
        requires
            old(self).wf(),
        ensures
            final(self).wf(),
            final(self).same_setup(*old(self)),
            final(self).position(final(self).player_entity()) == (15int, 15int),
            final(self).log() == posted(old(self).log(), MessageKind::Notice, "Hello!"@),
            final(self).floor() == old(self).floor(),
    {
        let _ = self.ecs.set_location(self.player, self.location, [15, 15]);
        proof {
            lemma_location_write_read(old(self).ecs@, self.player, self.location, [15, 15]);
        }
        self.messages.post(MessageKind::Notice, "Hello!".to_owned());
        proof {
            reveal_strlit("Hello!");
        }
    }

    pub fn player(&self) -> (r: Entity)
        ensures
            r == self.player_entity(),
    {
        self.player
    }

    pub fn scroll_frame(&self) -> (r: (i16, i16))
        ensures
            r == self.frame(),
    {
        self.scroll_frame
    }

    /// The level at `index`, if there is one.
    pub fn floor_geometry(&self, index: usize) -> (r: Option<&Floor>)
        ensures
            match r {
                Some(f) => index < self.levels().len() && *f == self.levels()[index as int],
                None => index >= self.levels().len(),
            },
    {
        if index < self.floors.len() {
            Some(&self.floors[index])
        } else {
            None
        }
    }

    /// The level being played.
    pub fn current_floor(&self) -> (r: &Floor)
        requires
            self.wf(),
        ensures
            *r == self.floor(),
    {
        &self.floors[self.current_floor]
    }

    /// The location of entity `e`.
    pub fn get_location(&self, e: Entity) -> (r: Result<Loc, StorageError>)
        requires
            self.wf(),
        ensures
            match r {
                Ok(l) => self.store().lookup(e, self.location_component()) is Ok && pt(l)
                    == self.position(e),
                Err(err) => self.store().lookup(e, self.location_component()) == Err::<
                    Slot,
                    StorageError,
                >(err),
            },
    {
        self.ecs.location(e, self.location)
    }

    pub fn player_location(&self) -> (r: Loc)
        requires
            self.wf(),
        ensures
            pt(r) == self.position(self.player_entity()),
    {
        match self.ecs.location(self.player, self.location) {
            Ok(l) => l,
            Err(_) => {
                assert(false);
                [0, 0]
            },
        }
    }

    /// Where entity `e` ends up when it tries to step onto `new_pos`: there if the
    /// level admits it, else where it stands. `normal` marks an ordinary move; it
    /// is where effects of stepping on a square would hook in.
    pub fn process_move(&self, e: Entity, new_pos: Loc, normal: bool) -> (r: Result<
        Loc,
        StorageError,
    >)
        requires
            self.wf(),
        ensures
            match r {
                Ok(l) => self.store().lookup(e, self.location_component()) is Ok && pt(l) == (
                if self.floor().admits(pt(new_pos)) {
                    pt(new_pos)
                } else {
                    self.position(e)
                }),
                Err(err) => self.store().lookup(e, self.location_component()) == Err::<
                    Slot,
                    StorageError,
                >(err),
            },
    {
        let old_pos = match self.ecs.location(e, self.location) {
            Ok(l) => l,
            Err(err) => {
                return Err(err);
            },
        };
        let fl = &self.floors[self.current_floor];
        if fl.admits_position(new_pos) {
            Ok(new_pos)
        } else {
            Ok(old_pos)
        }
    }

    /// Tries to move entity `e` by `mag` steps towards `d` and returns where it
    /// stands afterwards. A rejected move changes nothing.
    pub fn propose_move(&mut self, e: Entity, d: Dir, mag: i16) -> (r: Result<Loc, StorageError>)
        requires
            old(self).wf(),
        ensures
            final(self).wf(),
            final(self).same_setup(*old(self)),
            final(self).log() == old(self).log(),
            final(self).floor() == old(self).floor(),
            final(self).player_entity() == old(self).player_entity(),
            final(self).location_component() == old(self).location_component(),
            match r {
                Ok(l) => {
                    &&& old(self).store().lookup(e, old(self).location_component()) is Ok
                    &&& if old(self).move_accepted(e, d, mag as int) {
                        &&& pt(l) == shifted(old(self).position(e), d, mag as int)
                        &&& final(self).store() == old(self).store().with_slot(
                            e,
                            old(self).location_component(),
                            loc_bytes(l),
                        )
                    } else {
                        &&& pt(l) == old(self).position(e)
                        &&& final(self).store() == old(self).store()
                    }
                    &&& final(self).position(e) == pt(l)
                },
                Err(err) => {
                    &&& old(self).store().lookup(e, old(self).location_component()) == Err::<
                        Slot,
                        StorageError,
                    >(err)
                    &&& final(self).store() == old(self).store()
                },
            },
    {
        let cur = match self.ecs.location(e, self.location) {
            Ok(l) => l,
            Err(err) => {
                return Err(err);
            },
        };
        let target = match candidate(cur, d, mag) {
            Some(c) => c,
            None => {
                return Ok(cur);
            },
        };
        if !self.floors[self.current_floor].admits_position(target) {
            return Ok(cur);
        }
        let ghost before = self.ecs@;
        let _ = self.ecs.set_location(e, self.location, target);
        proof {
            lemma_location_write_read(before, e, self.location, target);
        }
        Ok(target)
    }

    /// Moves the player; see `propose_move`.
    pub fn move_player(&mut self, d: Dir, mag: i16)
        requires
            old(self).wf(),
        ensures
            final(self).wf(),
            final(self).same_setup(*old(self)),
            final(self).log() == old(self).log(),
            final(self).floor() == old(self).floor(),
            final(self).player_entity() == old(self).player_entity(),
            final(self).position(final(self).player_entity()) == if old(self).move_accepted(
                old(self).player_entity(),
                d,
                mag as int,
            ) {
                shifted(old(self).position(old(self).player_entity()), d, mag as int)
            } else {
                old(self).position(old(self).player_entity())
            },
            old(self).move_accepted(old(self).player_entity(), d, mag as int) ==> final(self).store()
                == old(self).store().with_slot(
                old(self).player_entity(),
                old(self).location_component(),
                point_bytes(shifted(old(self).position(old(self).player_entity()), d, mag as int)),
            ),
            !old(self).move_accepted(old(self).player_entity(), d, mag as int) ==> final(self).store() == old(self).store(),
    {
        let p = self.player;
        let _ = self.propose_move(p, d, mag);
    }

    pub fn post_message(&mut self, kind: MessageKind, text: String)
        requires
            old(self).wf(),
        ensures
            final(self).wf(),
            final(self).same_setup(*old(self)),
            final(self).log() == posted(old(self).log(), kind, text@),
            final(self).store() == old(self).store(),
            final(self).floor() == old(self).floor(),
            final(self).player_entity() == old(self).player_entity(),
    {
        self.messages.post(kind, text);
    }

    /// The message on show, if any.
    pub fn front_message(&self) -> (r: Option<(String, MessageKind)>)
        ensures
            match r {
                Some(m) => self.log().len() > 0 && (m.0@, m.1) == self.log()[0],
                None => self.log().len() == 0,
            },
    {
        self.messages.front()
    }

    pub fn acknowledge_front_message(&mut self)
        requires
            old(self).wf(),
        ensures
            final(self).wf(),
            final(self).same_setup(*old(self)),
            final(self).log() == dismissed(old(self).log()),
            final(self).store() == old(self).store(),
            final(self).floor() == old(self).floor(),
            final(self).player_entity() == old(self).player_entity(),
    {
        self.messages.acknowledge();
    }

    /// Records that the screen was redrawn; `resized` tells a redraw caused by a
    /// change of the terminal's size.
    pub fn finish_refresh(&mut self, resized: bool)
        requires
            old(self).wf(),
        ensures
            final(self).wf(),
            final(self).same_setup(*old(self)),
            final(self).log() == refreshed(old(self).log(), resized),
            final(self).store() == old(self).store(),
            final(self).floor() == old(self).floor(),
            final(self).player_entity() == old(self).player_entity(),
    {
        self.messages.after_refresh(resized);
    }

    /// Carries out what key `k` asks for; a key without a meaning posts a
    /// transient message naming it as `shown`.
    pub fn process_key(&mut self, k: Key, shown: &str)
        requires
            old(self).wf(),
        ensures
            final(self).wf(),
            final(self).same_setup(*old(self)),
            final(self).floor() == old(self).floor(),
            final(self).player_entity() == old(self).player_entity(),
            match key_command(k) {
                Some(Command::Acknowledge) => {
                    &&& final(self).log() == dismissed(old(self).log())
                    &&& final(self).store() == old(self).store()
                },
                Some(Command::Move(d)) => {
                    &&& final(self).log() == old(self).log()
                    &&& old(self).move_accepted(old(self).player_entity(), d, 1) ==> final(self).store()
                        == old(self).store().with_slot(
                        old(self).player_entity(),
                        old(self).location_component(),
                        point_bytes(shifted(old(self).position(old(self).player_entity()), d, 1)),
                    )
                    &&& old(self).move_accepted(old(self).player_entity(), d, 1) ==> final(self).position(
                        final(self).player_entity(),
                    ) == shifted(old(self).position(old(self).player_entity()), d, 1)
                    &&& !old(self).move_accepted(old(self).player_entity(), d, 1) ==> final(self).store()
                        == old(self).store()
                },
                None => {
                    &&& final(self).log() == posted(
                        old(self).log(),
                        MessageKind::Temp,
                        "I don't know how to "@ + shown@,
                    )
                    &&& final(self).store() == old(self).store()
                },
            },
    {
        match command_for(k) {
            Some(Command::Acknowledge) => self.acknowledge_front_message(),
            Some(Command::Move(d)) => self.move_player(d, 1),
            None => {
                let mut text = "I don't know how to ".to_owned();
                text.append(shown);
                self.post_message(MessageKind::Temp, text);
            },
        }
    }
}

} // verus!
