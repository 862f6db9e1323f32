use colony::frame::UIRect;
use colony::map_input::{step_in_range_check, InputState, MapAction, MapEvent, MapInput, MouseButtonKind};
use colony::mapframe::{map_frame_layout, tile_rect, MapFrameLayout};
use colony::mapdraw::{draw_batches, DrawKind};
use colony::environment_thread::LocalEntityData;
use colony::structs::{Cell, Position};

fn press(pressed: bool) -> MapEvent {
    MapEvent::MouseInput { pressed, button: MouseButtonKind::Left }
}

#[test]
fn map_click_is_press_then_release() {
    let mut m = MapInput::new();
    assert_eq!(m.handle_event(MapEvent::MouseMoved((5, 5))), MapAction::Nothing);
    assert_eq!(m.handle_event(press(true)), MapAction::Nothing);
    assert_eq!(m.mouse_state, InputState::Input((5, 5), true, MouseButtonKind::Left));
    assert_eq!(m.handle_event(MapEvent::MouseMoved((8, 9))), MapAction::Nothing);
    assert_eq!(m.handle_event(press(false)), MapAction::Click);
    let right = MapEvent::MouseInput { pressed: false, button: MouseButtonKind::Right };
    assert_eq!(m.handle_event(right), MapAction::Nothing);
}

#[test]
fn map_drag_beyond_ten_pixels_pans() {
    let mut m = MapInput::new();
    m.handle_event(MapEvent::MouseMoved((100, 100)));
    m.handle_event(press(true));
    // the distance is measured from the press to the position before this motion
    assert_eq!(m.handle_event(MapEvent::MouseMoved((106, 106))), MapAction::Nothing);
    assert_eq!(m.handle_event(MapEvent::MouseMoved((112, 110))), MapAction::Pan(-6, 4));
    assert_eq!(m.mouse_state, InputState::Panning);
    assert_eq!(m.handle_event(MapEvent::MouseMoved((110, 110))), MapAction::Pan(2, 0));
    // releasing after a pan is no click
    assert_eq!(m.handle_event(press(false)), MapAction::Nothing);
    assert_eq!(m.handle_event(MapEvent::MouseMoved((0, 0))), MapAction::Nothing);
}

#[test]
fn map_wheel_zooms_and_range_checks() {
    let mut m = MapInput::new();
    assert_eq!(m.handle_event(MapEvent::MouseWheel), MapAction::Zoom);
    assert_eq!(m.handle_event(MapEvent::Other), MapAction::Nothing);
    assert!(step_in_range_check(&m, MapEvent::MouseMoved((10, 10))));
    m.last_pos = (i32::MIN, 0);
    assert!(!step_in_range_check(&m, MapEvent::MouseMoved((10, 10))));
    assert!(step_in_range_check(&m, MapEvent::MouseWheel));
}

#[test]
fn map_frame_layout_centres_the_focus() {
    let window = UIRect::new(0, 0, 640, 480);
    let l = map_frame_layout(window, 100, 0, 0);
    // 640 / 100 + 4 = 10 tiles across, 480 / 100 + 4 = 8 down
    assert_eq!(l.start_tile, Position { x: -5, y: -4 });
    assert_eq!(l.end_tile, Position { x: 5, y: 4 });
    // -0 - 50 + (5 * 100 - 320) = 130; -0 - 50 + (4 * 100 - 240) = 110
    assert_eq!((l.recenter_x, l.recenter_y), (130, 110));
    assert_eq!(tile_rect(&l, Position { x: 0, y: 0 }, 100, 0, 0), UIRect::new(270, 190, 100, 100));
    assert_eq!(tile_rect(&l, Position { x: 1, y: 0 }, 100, 20, 30), UIRect::new(350, 160, 100, 100));
    let moved = map_frame_layout(UIRect::new(10, 20, 640, 480), 100, 0, 0);
    assert_eq!((moved.recenter_x, moved.recenter_y), (120, 90));
}

#[test]
fn map_frame_wraps_far_coordinates() {
    // the end tile wraps around the range of i64
    let l = map_frame_layout(UIRect::new(0, 0, 640, 480), 100, i64::MAX, 0);
    assert_eq!(l.start_tile.x, i64::MAX - 5);
    assert_eq!(l.end_tile.x, i64::MIN + 4);
    // a far tile's coordinates wrap around the range of i32
    let z = MapFrameLayout { start_tile: Position { x: 0, y: 0 }, end_tile: Position { x: 1, y: 1 }, recenter_x: 0, recenter_y: 0 };
    let far = tile_rect(&z, Position { x: 21_474_838, y: 1 }, 100, 0, 0);
    // (21474838 - 1) * 100 = 2147483700, which is i32::MIN + 52 once wrapped
    assert_eq!(far, UIRect::new(i32::MIN + 52, 0, 100, 100));
    // a wide tile size is read as a negative i32, as the frame computes half a tile
    let wide = map_frame_layout(UIRect::new(0, 0, 0, 0), 0x8000_0002, 0, 0);
    assert_eq!(wide.start_tile.x, -2);
}

fn terrain(t: u64) -> Cell {
    Cell { terrain: t, ..Cell::default() }
}

#[test]
fn draw_batches_group_by_first_occurrence() {
    let p = |x: i64, y: i64| Position { x, y };
    let cells = vec![(p(0, 0), terrain(1)), (p(0, 1), terrain(0)), (p(1, 0), terrain(1)), (p(1, 1), terrain(7))];
    let ents = vec![
        LocalEntityData { id: 5, pos: p(1, 1), last_pos: p(1, 1) },
        LocalEntityData { id: 2, pos: p(0, 0), last_pos: p(0, 0) },
        LocalEntityData { id: 5, pos: p(3, 3), last_pos: p(3, 3) },
    ];
    let r = draw_batches(&cells, &ents);
    let kinds: Vec<DrawKind> = r.iter().map(|b| b.kind).collect();
    assert_eq!(
        kinds,
        vec![DrawKind::Terrain(1), DrawKind::Terrain(0), DrawKind::Terrain(7), DrawKind::Entity(5), DrawKind::Entity(2)]
    );
    assert_eq!(r[0].tiles, vec![p(0, 0), p(1, 0)]);
    assert_eq!(r[1].tiles, vec![p(0, 1)]);
    assert_eq!(r[2].tiles, vec![p(1, 1)]);
    assert_eq!(r[3].tiles, vec![p(1, 1), p(3, 3)]);
    assert_eq!(r[4].tiles, vec![p(0, 0)]);
}

#[test]
fn draw_batches_of_nothing_is_empty() {
    assert!(draw_batches(&vec![], &vec![]).is_empty());
}
