use colony::entity_thread::{EntityThreadNews, TickEvent, Error as EntityError};
use colony::environment_thread::{EnvironmentState, LocalEntityData, TickCollector, Error as EnvError};
use colony::mapmemory::{MapGrid, MapMemory, RoutingInstructions};
use colony::structs::{Cell, ChanError, EntityDataMutation, Position};

fn p(x: i64, y: i64) -> Position {
    Position { x, y }
}

fn three() -> EnvironmentState {
    let mut s = EnvironmentState::new();
    s.add_entity(1, p(0, 0));
    s.add_entity(2, p(1, 0));
    s.add_entity(3, p(5, 5));
    s
}

#[test]
fn environment_lookup() {
    let s = three();
    assert_eq!(s.find_entity(2), Some(1));
    assert_eq!(s.find_entity(9), None);
    assert!(s.is_occupied(p(5, 5)));
    assert!(!s.is_occupied(p(5, 6)));
    assert_eq!(s.entities().len(), 3);
    assert_eq!(s.entities()[0], LocalEntityData { id: 1, pos: p(0, 0), last_pos: p(0, 0) });
}

#[test]
fn environment_moves_and_conflicts() {
    let mut s = three();
    let events = vec![(1, TickEvent::Move(p(1, 0))), (2, TickEvent::Move(p(2, 0))), (1, TickEvent::Move(p(1, 0))), (3, TickEvent::Idle)];
    assert!(s.events_registered(&events));
    let news = s.apply_tick_events(events);
    assert_eq!(news.len(), 3);
    assert_eq!(news[0].0, 1);
    assert!(matches!(news[0].1.as_slice(), [EntityThreadNews::LastTickEventFailed]));
    assert_eq!(news[1].0, 2);
    match news[1].1.as_slice() {
        [EntityThreadNews::UpdateEntityData(m)] => assert_eq!(m, &vec![EntityDataMutation::UpdatePosition(p(2, 0))]),
        _ => panic!("expected a position update"),
    }
    assert_eq!(news[2].0, 1);
    assert!(matches!(news[2].1.as_slice(), [EntityThreadNews::UpdateEntityData(_)]));
    assert_eq!(s.entities()[0], LocalEntityData { id: 1, pos: p(1, 0), last_pos: p(0, 0) });
    assert_eq!(s.entities()[1], LocalEntityData { id: 2, pos: p(2, 0), last_pos: p(1, 0) });
    assert_eq!(s.entities()[2].pos, p(5, 5));
}

#[test]
fn environment_unknown_entities_are_detected() {
    let s = three();
    // an idle event needs no entity; a move does
    assert!(s.events_registered(&vec![(9, TickEvent::Idle)]));
    assert!(!s.events_registered(&vec![(9, TickEvent::Move(Position { x: 5, y: 5 }))]));
    assert!(s.events_registered(&vec![]));
}

#[test]
fn environment_area_in_any_corner_order() {
    let s = three();
    let a = s.get_entities_by_area(p(0, 0), p(1, 1));
    assert_eq!(a.iter().map(|e| e.id).collect::<Vec<_>>(), vec![1, 2]);
    let b = s.get_entities_by_area(p(1, 1), p(0, 0));
    assert_eq!(a, b);
    let c = s.get_entities_by_area(p(1, 0), p(0, 1));
    assert_eq!(a, c);
    assert!(s.get_entities_by_area(p(2, 2), p(4, 4)).is_empty());
    assert_eq!(s.get_entities_by_area(p(5, 5), p(5, 5)).len(), 1);
}

#[test]
fn tick_collector_answers_and_time_out() {
    let s = three();
    let mut c = TickCollector::new(&s);
    assert!(!c.is_done());
    c.receive(2, TickEvent::Move(p(3, 3)));
    c.receive(2, TickEvent::Idle);
    assert!(!c.is_done());
    c.time_out();
    assert!(c.is_done());
    let events = c.into_events();
    assert_eq!(events.len(), 4);
    assert_eq!(events[0], (2, TickEvent::Move(p(3, 3))));
    assert_eq!(events[2], (1, TickEvent::Idle));
    assert_eq!(events[3], (3, TickEvent::Idle));
    let mut d = TickCollector::new(&s);
    d.receive(1, TickEvent::Idle);
    d.receive(2, TickEvent::Idle);
    d.receive(3, TickEvent::Idle);
    assert!(d.is_done());
}

#[test]
fn environment_errors_from_channel_errors() {
    assert!(matches!(EnvError::from(ChanError::SendError("a")), EnvError::SendError("a")));
    assert!(matches!(EntityError::from(ChanError::RecvError("b")), EntityError::RecvError("b")));
}

#[test]
fn map_grid_keeps_the_latest_cell() {
    let mut g = MapGrid::new();
    let c1 = Cell { terrain: 1, ..Cell::default() };
    let c2 = Cell { terrain: 2, ..Cell::default() };
    g.push(vec![(p(0, 0), c1), (p(1, 0), c1), (p(0, 0), c2)]);
    assert_eq!(g.get_cell(&p(0, 0)), Some(c2));
    assert_eq!(g.get_cell(&p(1, 0)), Some(c1));
    assert_eq!(g.get_cell(&p(2, 0)), None);
}

#[test]
fn map_memory_marks_remembered_cells() {
    let mut m = MapMemory::new();
    let c = Cell { terrain: 1, ..Cell::default() };
    m.push(vec![(p(0, 0), c), (p(0, 1), c)]);
    m.push(vec![(p(0, 1), c)]);
    let area = m.get_area(p(0, 0), p(1, 3));
    assert_eq!(area.len(), 2);
    assert_eq!(area[0].pos, p(0, 0));
    assert!(area[0].is_from_memory);
    assert_eq!(area[1].pos, p(0, 1));
    assert!(!area[1].is_from_memory);
    assert!(m.get_area(p(4, 4), p(5, 5)).is_empty());
}

#[test]
fn routing_follows_falling_costs() {
    let r = RoutingInstructions::new(vec![(p(0, 0), 0), (p(1, 0), 1), (p(2, 0), 2)], p(2, 0));
    assert!(r.reaches(p(0, 0)));
    assert_eq!(r.get_next(p(0, 0)), Some(p(1, 0)));
    assert!(r.reaches(p(1, 0)));
    assert_eq!(r.get_next(p(1, 0)), Some(p(2, 0)));
    assert!(r.reaches(p(2, 0)));
    assert_eq!(r.get_next(p(2, 0)), None);
    // from a position the route does not lead back to, the walk never ends
    assert!(!r.reaches(p(9, 9)));
}

#[test]
fn routing_prefers_cheaper_neighbours_in_order() {
    // two ways back from (2, 2): the diagonal is cheaper
    let r = RoutingInstructions::new(
        vec![(p(0, 0), 0), (p(1, 1), 2), (p(1, 0), 1), (p(2, 2), 4), (p(2, 1), 3)],
        p(2, 2),
    );
    assert!(r.reaches(p(0, 0)));
    assert_eq!(r.get_next(p(0, 0)), Some(p(1, 1)));
}

#[test]
fn route_positions_must_be_distinct() {
    let p = |x: i64, y: i64| Position { x, y };
    assert!(colony::mapmemory::positions_distinct(&vec![(p(0, 0), 0), (p(1, 0), 1)]));
    assert!(!colony::mapmemory::positions_distinct(&vec![(p(0, 0), 0), (p(1, 0), 1), (p(0, 0), 2)]));
    assert!(colony::mapmemory::positions_distinct(&vec![]));
}
