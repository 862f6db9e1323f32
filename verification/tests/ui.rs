use colony::frame::UIRect;
use colony::splitter::{Splitter, SplitterEntry};
use colony::window::{UiEvent, Window, WindowManipulationKind};
use colony::viewport::Viewport;

#[test]
fn rect_contains_is_strict() {
    let r = UIRect::new(10, 20, 30, 40);
    assert!(r.contains(11, 21));
    assert!(!r.contains(10, 21));
    assert!(r.contains(39, 59));
    assert!(!r.contains(40, 59));
    assert!(!r.contains(39, 60));
    assert_eq!(UIRect::default(), UIRect::new(0, 0, 0, 0));
}

#[test]
fn window_geometry() {
    let w = Window::new(3, 9);
    assert_eq!(w.id, 3);
    assert_eq!(w.content, 9);
    assert_eq!(w.title, "Untitled Window");
    assert_eq!(w.get_window_details(), (25, 4, UIRect::new(30, 30, 380, 175)));
    assert_eq!(w.get_menu_rect(), UIRect::new(30, 30, 380, 29));
    assert!(w.contains(30, 30));
    assert!(w.contains(410, 205));
    assert!(!w.contains(411, 205));
    assert!(!w.contains(29, 100));
}

#[test]
fn window_drag_moves_by_title_bar_and_resizes_elsewhere() {
    let mut w = Window::new(1, 1);
    w.handle_event(UiEvent::MouseButtonDown { x: 40, y: 40, left: true });
    assert_eq!(w.cur_manipulation, WindowManipulationKind::Move);
    w.handle_event(UiEvent::MouseMotion { x: 50, y: 45, xrel: 10, yrel: 5, left: true });
    assert_eq!(w.size, UIRect::new(40, 35, 380, 175));
    w.handle_event(UiEvent::MouseButtonDown { x: 100, y: 150, left: true });
    assert_eq!(w.cur_manipulation, WindowManipulationKind::Resize);
    w.handle_event(UiEvent::MouseMotion { x: 0, y: 0, xrel: 20, yrel: -50, left: true });
    // never below the least size
    assert_eq!(w.size, UIRect::new(40, 35, 400, 175));
    w.handle_event(UiEvent::MouseMotion { x: 0, y: 0, xrel: 20, yrel: 20, left: false });
    assert_eq!(w.size, UIRect::new(40, 35, 400, 175));
}

#[test]
fn window_render_leaves_room_for_border_and_title() {
    let mut w = Window::new(1, 7);
    let r = w.render(UIRect::new(0, 0, 100, 80));
    assert_eq!(r, vec![(UIRect::new(4, 29, 92, 47), 7)]);
    w.no_border = true;
    let r = w.render(UIRect::new(5, 6, 100, 80));
    assert_eq!(r, vec![(UIRect::new(5, 6, 100, 80), 7)]);
}

#[test]
fn splitter_lays_out_static_then_dynamic() {
    let mut s = Splitter::new(vec![SplitterEntry::Static(1, 30), SplitterEntry::Dynamic(2)]);
    assert!(!s.is_vert);
    assert_eq!(s.depth, 100);
    let r = s.render(UIRect::new(0, 0, 200, 50));
    assert_eq!(r, vec![(UIRect::new(0, 0, 30, 50), 1), (UIRect::new(30, 0, 170, 50), 2)]);
    s.is_vert = true;
    let r = s.render(UIRect::new(0, 0, 200, 50));
    assert_eq!(r, vec![(UIRect::new(0, 0, 200, 30), 1), (UIRect::new(0, 30, 200, 20), 2)]);
}

#[test]
fn viewport_grid_region_centres_the_focus() {
    let mut v = Viewport::new();
    v.set_window_size(640, 480);
    let r = v.get_render_params();
    assert_eq!(r.GridRegion.x, -320);
    assert_eq!(r.GridRegion.y, -240);
    assert_eq!(r.GridRegion.w, 640);
    assert_eq!(r.GridRegion.h, 480);
}
