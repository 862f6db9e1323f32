use colony::frame::UIRect;
use colony::window::{UiEvent, Window, WindowManipulationKind};
use colony::frame::Frame;
use colony::splitter::{Splitter, SplitterEntry};
use colony::windowmanager::{RegionLookupKind, RootFrame, WorkKind};
use colony::manager::{RenderRegion, RootManager, Manager};
use colony::buttonmenu::{ButtonKind, ButtonMenu, StoredButton};
use colony::button::Button;
use colony::broadcaster::Broadcaster;
use colony::ui_old::windowframe::Windowframe;
use colony::ui_old::windowmanager::{FrameOption, WindowManager};

/// Renders every region of the root frame; frames other than windows hold nothing.
fn render_all(root: &mut RootFrame, full: UIRect) {
    let mut t = root.begin_render();
    while let Some(work) = t.next_work() {
        match work {
            WorkKind::Root => {
                let (parent, lookup, frames) = root.render_root(full);
                t.complete(parent, lookup, frames);
            }
            WorkKind::Window(id) => {
                let (parent, lookup, frames) = root.render_window(id);
                t.complete(parent, lookup, frames);
            }
            WorkKind::Frame(rect, id) => {
                t.complete(rect, RegionLookupKind::Frame(rect, id), vec![]);
            }
        }
    }
    root.end_render(t);
}

#[test]
fn root_frame_routes_events_to_the_topmost_region() {
    let mut root = RootFrame::new(0);
    root.push_window(Window::new(1, 5));
    render_all(&mut root, UIRect::new(0, 0, 640, 480));
    let frames = vec![0, 5];
    // inside the window's content: the press binds its frame
    assert_eq!(root.handle_event(&frames, UiEvent::MouseButtonDown { x: 100, y: 100, left: true }), Some(5));
    // while bound, events go to the bound frame wherever they are
    assert_eq!(root.handle_event(&frames, UiEvent::MouseMotion { x: 600, y: 400, xrel: 1, yrel: 1, left: true }), Some(5));
    assert_eq!(root.handle_event(&frames, UiEvent::MouseButtonUp { x: 600, y: 400 }), Some(5));
    // after the release, the root frame's content gets it
    assert_eq!(root.handle_event(&frames, UiEvent::MouseMotion { x: 600, y: 400, xrel: 1, yrel: 1, left: false }), Some(0));
    assert_eq!(root.handle_event(&frames, UiEvent::Other), None);
}

#[test]
fn root_frame_drags_windows_by_their_title_bar() {
    let mut root = RootFrame::new(0);
    root.push_window(Window::new(1, 5));
    render_all(&mut root, UIRect::new(0, 0, 640, 480));
    let frames = vec![0, 5];
    assert_eq!(root.handle_event(&frames, UiEvent::MouseButtonDown { x: 40, y: 40, left: true }), None);
    assert_eq!(root.borrow_window(1).unwrap().cur_manipulation, WindowManipulationKind::Move);
    root.handle_event(&frames, UiEvent::MouseMotion { x: 45, y: 42, xrel: 5, yrel: 2, left: true });
    assert_eq!(root.borrow_window(1).unwrap().size, UIRect::new(35, 32, 380, 175));
}

#[test]
fn root_frame_destroys_windows() {
    let mut root = RootFrame::new(0);
    root.push_window(Window::new(1, 5));
    root.push_window(Window::new(2, 6));
    root.push_window(Window::new(3, 7));
    root.destroy_window(1);
    assert!(root.borrow_window(1).is_none());
    assert_eq!(root.borrow_window(3).unwrap().content, 7);
    assert_eq!(root.borrow_window(2).unwrap().content, 6);
    root.destroy_window(9);
    assert!(root.borrow_window(2).is_some());
}

#[test]
fn closing_window_goes_after_render() {
    let mut root = RootFrame::new(0);
    root.push_window(Window::new(1, 5));
    root.borrow_window(1).unwrap().cur_manipulation = WindowManipulationKind::Close;
    let (_, lookup, frames) = root.render_window(1);
    assert_eq!(lookup, RegionLookupKind::Window(UIRect::new(30, 30, 380, 175), 1));
    assert_eq!(frames.len(), 1);
    assert!(root.borrow_window(1).is_none());
    let (_, lookup, frames) = root.render_window(1);
    assert_eq!(lookup, RegionLookupKind::Nothing);
    assert!(frames.is_empty());
}

#[test]
fn root_manager_numbers_frames() {
    let mut m: RootManager<&str> = RootManager::new();
    assert_eq!(m.push_frame(RenderRegion::new("a")), 0);
    assert_eq!(m.push_frame(RenderRegion::new("b")), 1);
    let mut given = RenderRegion::new("c");
    given.id = Some(40);
    assert_eq!(m.push_frame(given), 40);
    assert_eq!(m.frame_ids(), vec![0, 1, 40]);
    assert_eq!(m.next_frame_id(), 2);
    assert_eq!(m.borrow_frame_by_id(1).unwrap().frame, "b");
    m.borrow_frame_by_id(1).unwrap().viewport = Some(UIRect::new(1, 2, 3, 4));
    let taken = m.take_frame_by_id(0).unwrap();
    assert_eq!(taken.frame, "a");
    assert!(m.take_frame_by_id(0).is_none());
    assert_eq!(m.borrow_frame_by_id(40).unwrap().frame, "c");
    assert_eq!(m.borrow_frame_by_id(1).unwrap().viewport, Some(UIRect::new(1, 2, 3, 4)));
    let w = m.create_window("d");
    assert_eq!(w.id, 0);
    assert_eq!(w.content, 2);
    assert_eq!(m.next_window_id(), 1);
    assert_eq!(Manager::push_frame(&mut m, RenderRegion::new("e")), 3);
}

#[test]
fn button_menu_lays_out_a_row_and_registers_buttons() {
    let mut m: RootManager<&str> = RootManager::new();
    m.push_frame(RenderRegion::new("x"));
    let mut menu = ButtonMenu::new(vec![
        ButtonKind::Button(StoredButton::Button("play")),
        ButtonKind::Spacer(10),
        ButtonKind::Button(StoredButton::Nothing),
        ButtonKind::Button(StoredButton::Button("pause")),
        ButtonKind::Button(StoredButton::Frame(0)),
    ]);
    assert_eq!(menu.background, (255, 100, 100));
    let r = menu.render(&mut m, UIRect::new(0, 0, 300, 40));
    assert_eq!(
        r,
        vec![(UIRect::new(0, 0, 40, 40), 1), (UIRect::new(50, 0, 40, 40), 2), (UIRect::new(90, 0, 40, 40), 0)]
    );
    assert!(matches!(menu.buttons[0], ButtonKind::Button(StoredButton::Frame(1))));
    assert!(matches!(menu.buttons[3], ButtonKind::Button(StoredButton::Frame(2))));
    assert_eq!(m.borrow_frame_by_id(2).unwrap().frame, "pause");
    // rendering again registers nothing new
    let again = menu.render(&mut m, UIRect::new(0, 0, 300, 40));
    assert_eq!(again, r);
    assert_eq!(m.next_frame_id(), 3);
}

#[test]
fn button_menu_lays_out_a_column() {
    let mut m: RootManager<u8> = RootManager::new();
    let mut menu = ButtonMenu::new(vec![ButtonKind::Spacer(5), ButtonKind::Button(StoredButton::Button(1))]);
    let r = menu.render(&mut m, UIRect::new(0, 0, 30, 200));
    assert_eq!(r, vec![(UIRect::new(0, 5, 30, 30), 0)]);
}

struct Counter(u32);

impl Broadcaster for Counter {
    fn broadcast(&mut self) {
        self.0 += 1;
    }
}

#[test]
fn button_broadcasts_on_left_press() {
    let mut b = Button::new(Counter(0));
    assert_eq!(b.color, (0, 0, 0));
    assert!(b.handle_event(UiEvent::MouseButtonDown { x: 1, y: 1, left: true }));
    assert!(!b.handle_event(UiEvent::MouseButtonDown { x: 1, y: 1, left: false }));
    assert!(!b.handle_event(UiEvent::MouseButtonUp { x: 1, y: 1 }));
    assert_eq!(b.bcast.0, 1);
}

#[test]
fn old_window_frame_geometry() {
    let w = Windowframe::new(());
    assert_eq!(w.title, "Untitled Window");
    assert!(!w.no_border);
    assert_eq!(w.get_window_details(), (25, 4, UIRect::new(30, 30, 388, 208)));
    assert!(w.contains(30, 30));
    assert!(w.contains(418, 238));
    assert!(!w.contains(419, 238));
    assert!(!w.contains(29, 31));
}

#[test]
fn old_window_manager_routes_by_position() {
    let mut wm = WindowManager::new("root");
    assert_eq!(wm.window_count(), 0);
    wm.push_window(Windowframe::new("a"));
    let mut b = Windowframe::new("b");
    b.position = (300, 300);
    wm.push_window(b);
    assert_eq!(wm.window_count(), 2);
    assert_eq!(wm.handle_event(UiEvent::MouseButtonDown { x: 40, y: 40, left: true }), FrameOption::SomeWindow(0));
    assert_eq!(wm.handle_event(UiEvent::MouseMotion { x: 350, y: 350, xrel: 0, yrel: 0, left: true }), FrameOption::SomeWindow(1));
    assert_eq!(wm.handle_event(UiEvent::MouseButtonUp { x: 10, y: 10 }), FrameOption::SomeRoot);
    assert_eq!(wm.handle_event(UiEvent::MouseWheel { y: 1 }), FrameOption::Nothing);
    assert_eq!(wm.window(1).unwrap().content, "b");
    assert!(wm.window(2).is_none());
    assert!(wm.root_mut().no_border);
}

#[test]
fn windowframe_render_areas() {
    let mut w = Windowframe::new(());
    // the window covers (30, 30) with the border and the title bar; the content
    // sits inside the border, below the title bar
    assert_eq!(
        w.render_areas(),
        Some((UIRect { x: 30, y: 30, w: 388, h: 208 }, UIRect { x: 34, y: 59, w: 380, h: 175 }))
    );
    w.no_border = true;
    assert_eq!(w.render_areas(), None);
}

#[test]
fn root_frame_renders_nested_frames() {
    let mut m: RootManager<Window> = RootManager::new();
    // frame 0 holds frame 1 over its whole area; frame 1 holds frame 99, which is not registered
    let mut outer = Window::new(10, 1);
    outer.no_border = true;
    let outer_id = m.push_frame(RenderRegion::new(outer));
    let inner_id = m.push_frame(RenderRegion::new(Window::new(11, 99)));
    assert_eq!((outer_id, inner_id), (0, 1));
    let mut root = RootFrame::new(outer_id);
    root.push_window(Window::new(1, 99));
    assert!(root.render_all(&mut m, UIRect::new(0, 0, 640, 480), 100));
    // both frames were rendered over the whole screen, the inner one inside the outer
    assert_eq!(m.borrow_frame_by_id(0).unwrap().frame.size, UIRect::new(0, 0, 640, 480));
    assert_eq!(m.borrow_frame_by_id(1).unwrap().frame.size, UIRect::new(0, 0, 640, 480));
    assert_eq!(m.frame_ids().len(), 2);
    assert_eq!(m.next_frame_id(), 2);
    // with too few pieces the render stops before it is done
    let mut root2 = RootFrame::new(outer_id);
    assert!(!root2.render_all(&mut m, UIRect::new(0, 0, 640, 480), 1));
}

#[test]
fn window_and_splitter_are_frames() {
    let mut w = Window::new(3, 7);
    assert!(Frame::fits(&w, UIRect::new(0, 0, 8, 33)));
    assert!(!Frame::fits(&w, UIRect::new(0, 0, 7, 33)));
    assert_eq!(Frame::render(&mut w, UIRect::new(0, 0, 100, 100)), vec![(UIRect::new(4, 29, 92, 67), 7)]);
    let mut s = Splitter::new(vec![SplitterEntry::Static(1, 50), SplitterEntry::Dynamic(2)]);
    assert!(Frame::fits(&s, UIRect::new(0, 0, 200, 10)));
    // the rest starts after the end of a too narrow area
    assert!(!Frame::fits(&s, UIRect::new(0, 0, 40, 10)));
    assert_eq!(
        Frame::render(&mut s, UIRect::new(0, 0, 200, 10)),
        vec![(UIRect::new(0, 0, 50, 10), 1), (UIRect::new(50, 0, 150, 10), 2)]
    );
}

#[test]
fn a_frame_that_cannot_be_drawn_stops_the_render() {
    let mut m: RootManager<Window> = RootManager::new();
    // a bordered window as the root's content cannot be drawn in a 5 by 5 screen
    let content = m.push_frame(RenderRegion::new(Window::new(9, 99)));
    let mut root = RootFrame::new(content);
    assert!(!root.render_all(&mut m, UIRect::new(0, 0, 5, 5), 10));
    // in a large screen it is drawn; the frame it holds (99) is not registered
    assert!(root.render_all(&mut m, UIRect::new(0, 0, 640, 480), 10));
    assert_eq!(m.frame_ids(), vec![content]);
}

#[test]
fn root_frame_hands_events_to_frames() {
    let mut m: RootManager<Window> = RootManager::new();
    let mut outer = Window::new(10, 1);
    outer.no_border = true;
    let outer_id = m.push_frame(RenderRegion::new(outer));
    let inner_id = m.push_frame(RenderRegion::new(Window::new(11, 99)));
    let mut root = RootFrame::new(outer_id);
    assert!(root.render_all(&mut m, UIRect::new(0, 0, 640, 480), 100));
    // the innermost frame under the mouse gets the click and the drag that follows
    assert_eq!(root.dispatch_event(&mut m, UiEvent::MouseButtonDown { x: 100, y: 100, left: true }), Some(inner_id));
    assert_eq!(
        root.dispatch_event(&mut m, UiEvent::MouseMotion { x: 110, y: 105, xrel: 10, yrel: 5, left: true }),
        Some(inner_id)
    );
    assert_eq!(m.borrow_frame_by_id(inner_id).unwrap().frame.size, UIRect::new(0, 0, 650, 485));
    assert_eq!(m.borrow_frame_by_id(outer_id).unwrap().frame.size, UIRect::new(0, 0, 640, 480));
    // an event that reaches no region is handed to no frame
    assert_eq!(root.dispatch_event(&mut m, UiEvent::Other), None);
}
