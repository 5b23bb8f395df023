use dungeon_core::game::{candidate, command_for, screen_position, Command, Dir, Game, Key};
use dungeon_core::geometry::{dungeon, floor_glyphs, room_contains, rooms_in_range, Floor};
use dungeon_core::messages::{MessageKind, MessageLog};

fn plain_floor() -> Floor {
    Floor {
        rooms: vec![([10, 10], 20, 20)],
        lines: vec![([5, 5], [25, 25])],
        monsters: vec![],
        stairs: vec![],
    }
}

#[test]
fn room_interior_is_strict() {
    let room = ([10, 10], 20, 20);
    assert!(room_contains(room, [15, 15]));
    assert!(!room_contains(room, [10, 15]));
    assert!(!room_contains(room, [30, 15]));
    assert!(room_contains(room, [29, 29]));
    let f = plain_floor();
    assert!(f.admits_position([15, 15]));
    assert!(!f.admits_position([15, 10]));
}

#[test]
fn corridor_membership() {
    let f = plain_floor();
    assert!(f.admits_position([10, 10]));
    assert!(f.admits_position([5, 5]));
    assert!(!f.admits_position([10, 11]));
    assert!(!f.admits_position([4, 4]));
}

#[test]
fn dungeon_has_one_level() {
    let floors = dungeon();
    assert_eq!(floors.len(), 1);
    assert_eq!(floors[0].rooms, vec![([10, 10], 20, 20)]);
    assert_eq!(floors[0].lines, vec![([5, 5], [25, 25])]);
    assert!(floors[0].monsters.is_empty() && floors[0].stairs.is_empty());
}

#[test]
fn candidate_steps_and_range() {
    assert_eq!(candidate([15, 15], Dir::Up, 1), Some([15, 14]));
    assert_eq!(candidate([15, 15], Dir::DownLeft, 3), Some([12, 18]));
    assert_eq!(candidate([15, 15], Dir::UpRight, -2), Some([13, 17]));
    assert_eq!(candidate([32767, 0], Dir::Right, 1), None);
    assert_eq!(candidate([0, -32768], Dir::Up, 1), None);
}

#[test]
fn new_game_and_start() {
    let mut g = Game::new();
    assert_eq!(g.player_location(), [0, 0]);
    assert_eq!(g.front_message(), None);
    g.start();
    assert_eq!(g.player_location(), [15, 15]);
    assert_eq!(g.front_message(), Some(("Hello!".to_string(), MessageKind::Notice)));
    assert_eq!(g.get_location(g.player()), Ok([15, 15]));
    assert_eq!(g.scroll_frame(), (0, 1));
    assert!(g.floor_geometry(0).is_some());
    assert!(g.floor_geometry(1).is_none());
}

#[test]
fn moves_inside_room_and_along_corridor() {
    let mut g = Game::new();
    g.start();
    g.move_player(Dir::Right, 1);
    assert_eq!(g.player_location(), [16, 15]);
    g.move_player(Dir::UpLeft, 1);
    assert_eq!(g.player_location(), [15, 14]);
    g.move_player(Dir::DownRight, 3);
    assert_eq!(g.player_location(), [18, 17]);
}

#[test]
fn rejected_move_keeps_location() {
    let mut g = Game::new();
    g.start();
    for _ in 0..4 {
        g.move_player(Dir::Up, 1);
    }
    assert_eq!(g.player_location(), [15, 11]);
    g.move_player(Dir::Up, 1);
    assert_eq!(g.player_location(), [15, 11]);
    g.move_player(Dir::Left, 100);
    assert_eq!(g.player_location(), [15, 11]);
    g.move_player(Dir::Right, 32767);
    assert_eq!(g.player_location(), [15, 11]);
}

#[test]
fn corridor_leads_out_of_the_room() {
    let mut g = Game::new();
    g.start();
    for _ in 0..4 {
        g.move_player(Dir::UpLeft, 1);
    }
    assert_eq!(g.player_location(), [11, 11]);
    g.move_player(Dir::UpLeft, 1);
    assert_eq!(g.player_location(), [10, 10]);
    g.move_player(Dir::UpLeft, 5);
    assert_eq!(g.player_location(), [5, 5]);
    g.move_player(Dir::UpLeft, 1);
    assert_eq!(g.player_location(), [5, 5]);
    assert_eq!(g.process_move(g.player(), [10, 10], true), Ok([10, 10]));
    assert_eq!(g.process_move(g.player(), [10, 11], true), Ok([5, 5]));
}

#[test]
fn transient_messages_coalesce() {
    let mut log = MessageLog::new();
    log.post(MessageKind::Temp, "A".to_string());
    log.post(MessageKind::Temp, "B".to_string());
    assert_eq!(log.front(), Some(("B".to_string(), MessageKind::Temp)));
    assert_eq!(log.len(), 1);
}

#[test]
fn persistent_message_waits_behind_transient() {
    let mut g = Game::new();
    g.post_message(MessageKind::Notice, "N1".to_string());
    g.post_message(MessageKind::Temp, "T1".to_string());
    assert_eq!(g.front_message(), Some(("T1".to_string(), MessageKind::Temp)));
    g.finish_refresh(false);
    assert_eq!(g.front_message(), Some(("N1".to_string(), MessageKind::Notice)));
    g.finish_refresh(false);
    g.finish_refresh(false);
    assert_eq!(g.front_message(), Some(("N1".to_string(), MessageKind::Notice)));
    g.acknowledge_front_message();
    assert_eq!(g.front_message(), None);
    g.acknowledge_front_message();
    assert_eq!(g.front_message(), None);
}

#[test]
fn resize_refresh_keeps_transient() {
    let mut log = MessageLog::new();
    log.post(MessageKind::Temp, "T".to_string());
    assert!(log.front_is_transient());
    log.after_refresh(true);
    assert_eq!(log.len(), 1);
    log.after_refresh(false);
    assert_eq!(log.len(), 0);
}

#[test]
fn non_transient_messages_queue_in_order() {
    let mut log = MessageLog::new();
    log.post(MessageKind::Critical, "C".to_string());
    log.post(MessageKind::Notice, "N".to_string());
    log.post(MessageKind::Temp, "T".to_string());
    assert_eq!(log.len(), 3);
    log.acknowledge();
    assert_eq!(log.front(), Some(("C".to_string(), MessageKind::Critical)));
    log.acknowledge();
    assert_eq!(log.front(), Some(("N".to_string(), MessageKind::Notice)));
}

#[test]
fn keys_map_to_commands() {
    assert_eq!(command_for(Key::Char(']')), Some(Command::Acknowledge));
    assert_eq!(command_for(Key::Up), Some(Command::Move(Dir::Up)));
    assert_eq!(command_for(Key::Char('i')), Some(Command::Move(Dir::UpLeft)));
    assert_eq!(command_for(Key::Char('o')), Some(Command::Move(Dir::UpRight)));
    assert_eq!(command_for(Key::Char('k')), Some(Command::Move(Dir::DownLeft)));
    assert_eq!(command_for(Key::Char('l')), Some(Command::Move(Dir::DownRight)));
    assert_eq!(command_for(Key::Char('x')), None);
    assert_eq!(command_for(Key::Other), None);
}

#[test]
fn process_key_moves_acknowledges_and_complains() {
    let mut g = Game::new();
    g.start();
    g.process_key(Key::Down, "Down");
    assert_eq!(g.player_location(), [15, 16]);
    g.process_key(Key::Char('x'), "Char('x')");
    assert_eq!(
        g.front_message(),
        Some(("I don't know how to Char('x')".to_string(), MessageKind::Temp))
    );
    g.finish_refresh(false);
    assert_eq!(g.front_message(), Some(("Hello!".to_string(), MessageKind::Notice)));
    g.process_key(Key::Char(']'), "Char(']')");
    assert_eq!(g.front_message(), None);
}

#[test]
fn screen_positions() {
    assert_eq!(screen_position([15, 15], (0, 1)), Some((15, 16)));
    assert_eq!(screen_position([0, 0], (0, 1)), Some((0, 1)));
    assert_eq!(screen_position([-1, 3], (0, 1)), None);
    assert_eq!(screen_position([3, -1], (0, 1)), None);
}

#[test]
fn glyphs_of_a_small_room_and_corridor() {
    let f = Floor {
        rooms: vec![([0, 0], 3, 3)],
        lines: vec![([5, 0], [6, 0])],
        monsters: vec![],
        stairs: vec![],
    };
    let g = floor_glyphs(&f);
    assert_eq!(
        g,
        vec![
            ([0, 0], '='), ([0, 1], '='), ([0, 2], '='),
            ([1, 0], '='), ([1, 1], '.'), ([1, 2], '='),
            ([2, 0], '='), ([2, 1], '='), ([2, 2], '='),
            ([5, 0], '.'), ([6, 0], '.'),
        ]
    );
    let all = floor_glyphs(&plain_floor());
    assert_eq!(all.len(), 400 + 21);
    assert!(rooms_in_range(&plain_floor().rooms));
    assert!(!rooms_in_range(&vec![([32760, 0], 10, 2)]));
}

#[test]
fn non_move_keys_keep_the_player() {
    let mut g = Game::new();
    g.start();
    g.process_key(Key::Char('z'), "Char('z')");
    assert_eq!(g.player_location(), [15, 15]);
    g.finish_refresh(false);
    g.process_key(Key::Char(']'), "Char(']')");
    assert_eq!(g.player_location(), [15, 15]);
    assert_eq!(g.process_move(g.player(), [15, 15], true), Ok([15, 15]));
}
