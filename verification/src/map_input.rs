//! The mouse input of the map view: a press and release of the left button
//! without much motion in between is a click; a press followed by motion of
//! more than ten pixels starts panning, which lasts until the next button event.
use vstd::prelude::*;

verus! {

/// A mouse button.
#[derive(Debug, Clone, Copy, PartialEq, Eq, Structural)]
pub enum MouseButtonKind {
    Left,
    Right,
    Middle,
    Other(u8),
}

/// What the mouse is doing: nothing yet, a button event at a position, or panning.
#[derive(Debug, Clone, Copy, PartialEq, Eq)]
pub enum InputState {
    Nothing,
    Input((i32, i32), bool, MouseButtonKind),
    Panning,
}

/// A mouse event of the map view, as plain values.
#[derive(Debug, Clone, Copy, PartialEq, Eq)]
pub enum MapEvent {
    /// A button was pressed (`pressed`) or released.
    MouseInput { pressed: bool, button: MouseButtonKind },
    /// The pointer moved to the position.
    MouseMoved((i32, i32)),
    /// The wheel turned.
    MouseWheel,
    Other,
}

/// What the map view does after an event.
#[derive(Debug, Clone, Copy, PartialEq, Eq, Structural)]
pub enum MapAction {
    Nothing,
    /// A click at the last pointer position.
    Click,
    /// Move the view by the pointer's motion: left/right reversed, up/down as is.
    Pan(i32, i32),
    /// Zoom by the wheel's turn.
    Zoom,
}

/// The mouse input state of the map view.
#[derive(Debug, Clone, Copy, PartialEq, Eq)]
pub struct MapInput {
    pub mouse_state: InputState,
    pub last_pos: (i32, i32),
}

/// `|a| + |b|`.
pub open spec fn manhattan(a: int, b: int) -> int {
    (if a < 0 { -a } else { a }) + (if b < 0 { -b } else { b })
}

/// The input state and the action after an event.
pub open spec fn map_step(s: MapInput, ev: MapEvent) -> (MapInput, MapAction) {
    match ev {
        MapEvent::MouseInput { pressed, button } => (
            MapInput { mouse_state: InputState::Input(s.last_pos, pressed, button), ..s },
            if (s.mouse_state matches InputState::Input(_, true, MouseButtonKind::Left)) && !pressed {
                MapAction::Click
            } else {
                MapAction::Nothing
            },
        ),
        MapEvent::MouseMoved(pos) => {
            let (state, pan) = match s.mouse_state {
                InputState::Input(start, true, MouseButtonKind::Left) => if manhattan(
                    start.0 - s.last_pos.0,
                    start.1 - s.last_pos.1,
                ) > 10 {
                    (InputState::Panning, true)
                } else {
                    (s.mouse_state, false)
                },
                InputState::Panning => (InputState::Panning, true),
                _ => (s.mouse_state, false),
            };
            (
                MapInput { mouse_state: state, last_pos: pos },
                if pan {
                    MapAction::Pan((s.last_pos.0 - pos.0) as i32, (pos.1 - s.last_pos.1) as i32)
                } else {
                    MapAction::Nothing
                },
            )
        },
        MapEvent::MouseWheel => (s, MapAction::Zoom),
        MapEvent::Other => (s, MapAction::Nothing),
    }
}

/// Whether the differences that an event makes the map view compute are 32-bit numbers.
pub open spec fn step_in_range(s: MapInput, ev: MapEvent) -> bool {
    match ev {
        MapEvent::MouseMoved(pos) => {
            &&& (s.mouse_state matches InputState::Input(start, true, MouseButtonKind::Left) ==> {
                &&& i32::MIN < start.0 - s.last_pos.0 <= i32::MAX
                &&& i32::MIN < start.1 - s.last_pos.1 <= i32::MAX
                &&& manhattan(start.0 - s.last_pos.0, start.1 - s.last_pos.1) <= i32::MAX
            })
            &&& i32::MIN <= s.last_pos.0 - pos.0 <= i32::MAX
            &&& i32::MIN <= pos.1 - s.last_pos.1 <= i32::MAX
        },
        _ => true,
    }
}

/// Whether `step_in_range` holds: the event can be taken in.
pub fn step_in_range_check(s: &MapInput, ev: MapEvent) -> (r: bool)
    ensures
        r == step_in_range(*s, ev),
{
    match ev {
        MapEvent::MouseMoved(pos) => {
            let ok_start = match s.mouse_state {
                InputState::Input(start, true, MouseButtonKind::Left) => {
                    let dx = start.0 as i64 - s.last_pos.0 as i64;
                    let dy = start.1 as i64 - s.last_pos.1 as i64;
                    let adx = if dx < 0 { -dx } else { dx };
                    let ady = if dy < 0 { -dy } else { dy };
                    (i32::MIN as i64) < dx && dx <= i32::MAX as i64 && (i32::MIN as i64) < dy && dy <= i32::MAX as i64
                        && adx + ady <= i32::MAX as i64
                },
                _ => true,
            };
            let px = s.last_pos.0 as i64 - pos.0 as i64;
            let py = pos.1 as i64 - s.last_pos.1 as i64;
            ok_start && i32::MIN as i64 <= px && px <= i32::MAX as i64 && i32::MIN as i64 <= py && py
                <= i32::MAX as i64
        },
        _ => true,
    }
}

impl MapInput {
    /// No button event yet; the pointer at the origin.
    pub fn new() -> (r: Self)
        ensures
            r == (MapInput { mouse_state: InputState::Nothing, last_pos: (0i32, 0i32) }),
    {
        MapInput { mouse_state: InputState::Nothing, last_pos: (0, 0) }
    }

    /// Takes in an event; returns what the view does.
    pub fn handle_event(&mut self, ev: MapEvent) -> (r: MapAction)
        requires
            step_in_range(*old(self), ev),
        ensures
            (*final(self), r) == map_step(*old(self), ev),
    {
        match ev {
            MapEvent::MouseInput { pressed, button } => {
                let click = match self.mouse_state {
                    InputState::Input(_, true, MouseButtonKind::Left) => !pressed,
                    _ => false,
                };
                self.mouse_state = InputState::Input(self.last_pos, pressed, button);
                if click {
                    MapAction::Click
                } else {
                    MapAction::Nothing
                }
            },
            MapEvent::MouseMoved(pos) => {
                let should_pan = match self.mouse_state {
                    InputState::Input(start_pos, true, MouseButtonKind::Left) => {
                        let dx: i32 = start_pos.0 - self.last_pos.0;
                        let dy: i32 = start_pos.1 - self.last_pos.1;
                        let adx: i32 = if dx < 0 { -dx } else { dx };
                        let ady: i32 = if dy < 0 { -dy } else { dy };
                        if adx + ady > 10 {
                            self.mouse_state = InputState::Panning;
                            true
                        } else {
                            false
                        }
                    },
                    InputState::Panning => true,
                    _ => false,
                };
                let action = if should_pan {
                    MapAction::Pan(self.last_pos.0 - pos.0, pos.1 - self.last_pos.1)
                } else {
                    MapAction::Nothing
                };
                self.last_pos = pos;
                action
            },
            MapEvent::MouseWheel => MapAction::Zoom,
            MapEvent::Other => MapAction::Nothing,
        }
    }
}

/// A press and a release of the left button, with no motion between them, is a click.
pub proof fn lemma_press_release_clicks(s: MapInput)
    ensures
        ({
            let (s1, a1) = map_step(s, MapEvent::MouseInput { pressed: true, button: MouseButtonKind::Left });
            let (s2, a2) = map_step(s1, MapEvent::MouseInput { pressed: false, button: MouseButtonKind::Left });
            a2 == MapAction::Click
        }),
{
}

/// Once panning, every motion pans, until a button event; and a release that
/// ends a pan is no click.
pub proof fn lemma_panning_is_no_click(s: MapInput, pos: (i32, i32), button: MouseButtonKind)
    requires
        s.mouse_state == InputState::Panning,
    ensures
        map_step(s, MapEvent::MouseMoved(pos)).0.mouse_state == InputState::Panning,
        map_step(s, MapEvent::MouseMoved(pos)).1 is Pan,
        map_step(s, MapEvent::MouseInput { pressed: false, button }).1 == MapAction::Nothing,
{
}

/// Motion of ten pixels or less after a press of the left button does not pan.
pub proof fn lemma_small_motion_does_not_pan(s: MapInput, start: (i32, i32), pos: (i32, i32))
    requires
        s.mouse_state == InputState::Input(start, true, MouseButtonKind::Left),
        manhattan(start.0 - s.last_pos.0, start.1 - s.last_pos.1) <= 10,
    ensures
        map_step(s, MapEvent::MouseMoved(pos)).1 == MapAction::Nothing,
        map_step(s, MapEvent::MouseMoved(pos)).0.mouse_state == s.mouse_state,
{
}

} // verus!
