use colony::human::{Human, HumanAction, StateStack};
use colony::mapmemory::RoutingInstructions;
use colony::structs::{EntityData, Position};

fn p(x: i64, y: i64) -> Position {
    Position { x, y }
}

fn at(pos: Position) -> EntityData {
    EntityData { id: 1, last_pos: pos, pos, kind: "human".to_string(), data: "{}".to_string(), last_tick_failed: false }
}

#[test]
fn state_stack_keeps_its_bottom() {
    let mut s = StateStack::new(1);
    assert_eq!(s.pop(), None);
    assert_eq!(*s.get_current(), 1);
    s.push(2);
    s.push(3);
    assert_eq!(*s.get_current(), 3);
    assert_eq!(s.pop(), Some(3));
    assert_eq!(s.replace_current(4), 2);
    assert_eq!(s.replace_first(5), 1);
    assert_eq!(s.pop(), Some(4));
    assert_eq!(s.pop(), None);
    assert_eq!(*s.get_current(), 5);
    *s.get_current() = 6;
    assert_eq!(s.replace_current(7), 6);
}

#[test]
fn state_stack_pop_undoes_push() {
    let mut s = StateStack::new("idle");
    s.push("explore");
    assert_eq!(s.pop(), Some("explore"));
    assert_eq!(*s.get_current(), "idle");
}

#[test]
fn idle_human_plans_a_route_nearby() {
    let mut h = Human::new();
    let d = at(p(100, -40));
    assert!(h.can_tick(d.pos));
    for _ in 0..20 {
        match h.tick(&d) {
            HumanAction::PlanRoute { origin, target } => {
                assert_eq!(origin, d.pos);
                assert!(-10 <= target.x - origin.x && target.x - origin.x < 10);
                assert!(-10 <= target.y - origin.y && target.y - origin.y < 10);
            }
            other => panic!("unexpected action: {:?}", other),
        }
    }
    assert!(!h.can_tick(p(i64::MAX, 0)));
}

#[test]
fn exploring_human_walks_its_route_then_rests() {
    let mut h = Human::new();
    let route = RoutingInstructions::new(vec![(p(0, 0), 0), (p(1, 0), 1), (p(2, 0), 2)], p(2, 0));
    h.start_explore(p(2, 0), route);
    assert!(h.can_tick(p(0, 0)));
    assert_eq!(h.tick(&at(p(0, 0))), HumanAction::Move(p(1, 0)));
    assert_eq!(h.tick(&at(p(1, 0))), HumanAction::Move(p(2, 0)));
    assert_eq!(h.tick(&at(p(2, 0))), HumanAction::Wait);
    // back to idle: the next tick plans a new route
    assert!(matches!(h.tick(&at(p(2, 0))), HumanAction::PlanRoute { .. }));
    assert!(h.get_memory().get_area(p(0, 0), p(3, 3)).is_empty());
}
