use colony::structs::{Cell, EntityData, EntityDataMutation, GridKey, Position, ChanError};
use colony::usage::{Usage, UsageData};
use colony::channel::{reply_outcome, send_outcome};
use colony::broadcaster::PrintBroadcaster;
use colony::sdl2_ttf::ErrorMessage;

fn record() -> EntityData {
    EntityData {
        id: 7,
        last_pos: Position { x: 0, y: 0 },
        pos: Position { x: 1, y: 1 },
        kind: "human".to_string(),
        data: "{}".to_string(),
        last_tick_failed: false,
    }
}

#[test]
fn position_rel_and_neighbors() {
    let p = Position { x: 3, y: -4 };
    assert_eq!(p.rel(2, 5), Position { x: 5, y: 1 });
    let n = p.neighbors();
    assert_eq!(n.len(), 8);
    assert_eq!(n[0], (Position { x: 2, y: -4 }, 1));
    assert_eq!(n[1], (Position { x: 4, y: -4 }, 1));
    assert_eq!(n[2], (Position { x: 3, y: -5 }, 1));
    assert_eq!(n[3], (Position { x: 3, y: -3 }, 1));
    assert_eq!(n[4], (Position { x: 2, y: -5 }, 2));
    assert_eq!(n[7], (Position { x: 4, y: -3 }, 2));
}

#[test]
fn position_from_pair_and_default() {
    assert_eq!(Position::from((-3, 9)), Position { x: -3, y: 9 });
    assert_eq!(Position::from_pair((i32::MIN, i32::MAX)), Position { x: i32::MIN as i64, y: i32::MAX as i64 });
    assert_eq!(Position::default(), Position { x: 0, y: 0 });
    assert_eq!(Cell::default(), Cell { terrain: 0, ground: 0, structure_id: 0, is_structure_center: false });
}

#[test]
fn entity_data_apply_in_order() {
    let mut d = record();
    d.apply(vec![
        EntityDataMutation::UpdatePosition(Position { x: 2, y: 2 }),
        EntityDataMutation::UpdatePosition(Position { x: 3, y: 2 }),
        EntityDataMutation::LastTickEventFailed,
    ]);
    assert_eq!(d.pos, Position { x: 3, y: 2 });
    assert_eq!(d.last_pos, Position { x: 2, y: 2 });
    assert!(d.last_tick_failed);
    let mut e = record();
    e.apply(vec![]);
    assert_eq!(e.pos, Position { x: 1, y: 1 });
    assert!(!e.last_tick_failed);
}

#[test]
fn usage_insert_get_and_count() {
    let mut u: Usage<GridKey, u32> = Usage::new(232);
    let k = GridKey { x: 1, y: -1 };
    assert!(!u.contains_key(&k));
    assert_eq!(u.get(&k), None);
    assert_eq!(u.insert(k, 5), None);
    assert!(u.contains_key(&k));
    assert_eq!(u.get(&k), Some(&5));
    *u.get_mut(&k).unwrap() = 6;
    assert_eq!(u.get(&k), Some(&6));
    assert_eq!(u.insert(k, 9), Some(6));
    assert_eq!(u.get(&GridKey { x: 1, y: -1 }), Some(&9));
    assert!(u.get_mut(&GridKey { x: 0, y: 0 }).is_none());
    let d = UsageData::new("x");
    let _ = d;
}

#[test]
fn channel_outcomes_name_the_message() {
    assert!(send_outcome(true, "Msg::A").is_ok());
    match send_outcome(false, "Msg::A") {
        Err(ChanError::SendError(p)) => assert_eq!(p, "Msg::A"),
        _ => panic!("expected a send error"),
    }
    assert_eq!(reply_outcome(true, Some(3u32), "Msg::B").unwrap(), 3);
    match reply_outcome::<u32>(true, None, "Msg::B") {
        Err(ChanError::RecvError(p)) => assert_eq!(p, "Msg::B"),
        _ => panic!("expected a receive error"),
    }
    match reply_outcome(false, Some(3u32), "Msg::C") {
        Err(ChanError::SendError(p)) => assert_eq!(p, "Msg::C"),
        _ => panic!("expected a send error"),
    }
}

#[test]
fn text_concat_appends() {
    assert_eq!(colony::text::joined("ab", "cd"), "abcd");
    assert_eq!(colony::text::joined("", ""), "");
}

#[test]
fn print_broadcaster_line() {
    let b = PrintBroadcaster::new("hello".to_string());
    assert_eq!(b.msg(), "hello");
    assert_eq!(b.line(), "BCAST: hello");
}

#[test]
fn error_message_text_and_equality() {
    let e = ErrorMessage::from("font missing".to_string());
    assert_eq!(e.message(), "SDL error: font missing");
    assert_eq!(e.description(), "SDL error");
    assert!(e == ErrorMessage("font missing".to_string()));
    assert!(e != ErrorMessage("other".to_string()));
}
