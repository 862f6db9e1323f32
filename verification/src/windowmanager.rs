//! The root of the user interface: the root window and the floating windows,
//! which region of the screen an event goes to, and the order in which windows
//! and frames are rendered.
use vstd::prelude::*;
use crate::frame::{Frame, FrameId, UIRect, rect_contains, contains_in_range};
use crate::window::{Window, WindowId, UiEvent, WindowManipulationKind, window_after, window_event_in_range};
use crate::manager::{RenderRegion, RootManager, first_with_frame_id, registered_ids, swap_removed, lemma_first_with_frame_id};

verus! {

/// How an event changes which region the events are bound to.
#[derive(Debug, Clone, Copy, PartialEq, Eq, Structural)]
pub enum EventBindBehavior {
    Bind,
    Unbind,
    Unmodified,
}

/// How an event is routed.
#[derive(Debug, Clone, Copy, PartialEq, Eq, Structural)]
pub enum EventRoutingBehavior {
    Calculate(EventBindBehavior),
    AlwaysRoot,
}

/// A region of the screen, as rendered last.
#[derive(Debug, Clone, Copy, PartialEq, Eq, Structural)]
pub enum RegionLookupKind {
    Nothing,
    Root,
    Window(UIRect, WindowId),
    Frame(UIRect, FrameId),
}

/// The region that events are bound to.
#[derive(Debug, Clone, Copy, PartialEq, Eq, Structural)]
pub enum StoredBound {
    Nothing,
    Window(WindowId),
    Frame(FrameId),
}

/// A piece of rendering work.
#[derive(Debug, Clone, Copy, PartialEq, Eq, Structural)]
pub enum WorkKind {
    Root,
    Window(WindowId),
    Frame(UIRect, FrameId),
}

/// Whether a window has id `id`.
pub open spec fn has_window(ws: Seq<Window>, id: WindowId) -> bool {
    exists|i: int| 0 <= i < ws.len() && ws[i].id == id
}

/// The index of the first window with id `id`.
pub open spec fn first_window(ws: Seq<Window>, id: WindowId) -> int {
    choose|i: int| 0 <= i < ws.len() && ws[i].id == id && forall|j: int| 0 <= j < i ==> ws[j].id != id
}

/// The windows after the first one with id `id` is removed, the last one taking its place.
pub open spec fn without_window(ws: Seq<Window>, id: WindowId) -> Seq<Window> {
    if has_window(ws, id) {
        ws.update(first_window(ws, id), ws.last()).drop_last()
    } else {
        ws
    }
}

/// The single region a window gives its content when laid out in `size`.
pub open spec fn window_layout(w: Window, size: UIRect) -> (UIRect, FrameId) {
    if w.no_border {
        (size, w.content)
    } else {
        (UIRect { x: 4, y: 29, w: (size.w - 8) as u32, h: (size.h - 33) as u32 }, w.content)
    }
}

/// The part of the root frame that events change.
pub struct EventState {
    pub windows: Seq<Window>,
    pub current_bound: StoredBound,
    pub last_mouse_pos: (i32, i32),
}

/// The windows after the event reached the window with id `id`.
pub open spec fn deliver_to_window(ws: Seq<Window>, id: WindowId, ev: UiEvent) -> Seq<Window> {
    let i = first_window(ws, id);
    ws.update(i, window_after(ws[i], ev))
}

/// The region an event at `point` goes to: the bound one, else the candidate if
/// the point lies in its rectangle.
pub open spec fn bind_target(bound: StoredBound, rect: UIRect, point: (i32, i32), new_bound: StoredBound) -> StoredBound {
    match bound {
        StoredBound::Nothing => if rect_contains(rect, point.0, point.1) {
            new_bound
        } else {
            StoredBound::Nothing
        },
        b => b,
    }
}

/// The state after an event is offered to the region `new_bound` with rectangle
/// `rect`, whether the event was handled, and the frame it must be delivered to.
/// A binding event at a point inside the rectangle binds the region; the event
/// goes to the bound region, or, with none bound, to the region if the point lies
/// in it; a window handles it if it exists, a frame if it is one of `frames`. An
/// unbinding event leaves no region bound.
#[verifier::opaque]
pub open spec fn bind_spec(
    s: EventState,
    frames: Seq<FrameId>,
    rect: UIRect,
    point: (i32, i32),
    behavior: EventBindBehavior,
    new_bound: StoredBound,
    ev: UiEvent,
) -> (EventState, bool, Option<FrameId>) {
    let bound = if behavior == EventBindBehavior::Bind && rect_contains(rect, point.0, point.1) {
        new_bound
    } else {
        s.current_bound
    };
    let after = if behavior == EventBindBehavior::Unbind {
        StoredBound::Nothing
    } else {
        bound
    };
    match bind_target(bound, rect, point, new_bound) {
        StoredBound::Window(id) => if has_window(s.windows, id) {
            (
                EventState { windows: deliver_to_window(s.windows, id, ev), current_bound: after, last_mouse_pos: point },
                true,
                None,
            )
        } else {
            (EventState { current_bound: after, last_mouse_pos: point, ..s }, false, None)
        },
        StoredBound::Frame(id) => if frames.contains(id) {
            (EventState { current_bound: after, last_mouse_pos: point, ..s }, true, Some(id))
        } else {
            (EventState { current_bound: after, last_mouse_pos: point, ..s }, false, None)
        },
        StoredBound::Nothing => (EventState { current_bound: after, last_mouse_pos: point, ..s }, false, None),
    }
}

/// Routing an event through the regions, last rendered first, until one handles
/// it: the state after, and the frame the event must be delivered to.
#[verifier::opaque]
pub open spec fn route_spec(
    s: EventState,
    frames: Seq<FrameId>,
    table: Seq<RegionLookupKind>,
    point: (i32, i32),
    behavior: EventBindBehavior,
    ev: UiEvent,
) -> (EventState, Option<FrameId>)
    decreases table.len(),
{
    if table.len() == 0 {
        (s, None)
    } else {
        match table.last() {
            RegionLookupKind::Nothing => route_spec(s, frames, table.drop_last(), point, behavior, ev),
            RegionLookupKind::Root => (s, None),
            RegionLookupKind::Window(rect, id) => {
                let (s2, handled, f) = bind_spec(s, frames, rect, point, behavior, StoredBound::Window(id), ev);
                if handled {
                    (s2, f)
                } else {
                    route_spec(s2, frames, table.drop_last(), point, behavior, ev)
                }
            },
            RegionLookupKind::Frame(rect, id) => {
                let (s2, handled, f) = bind_spec(s, frames, rect, point, behavior, StoredBound::Frame(id), ev);
                if handled {
                    (s2, f)
                } else {
                    route_spec(s2, frames, table.drop_last(), point, behavior, ev)
                }
            },
        }
    }
}

/// An event that is not handled leaves the windows as they were.
pub proof fn lemma_unhandled_keeps_windows(
    s: EventState,
    frames: Seq<FrameId>,
    rect: UIRect,
    point: (i32, i32),
    behavior: EventBindBehavior,
    new_bound: StoredBound,
    ev: UiEvent,
)
    ensures
        !bind_spec(s, frames, rect, point, behavior, new_bound, ev).1 ==> bind_spec(
            s,
            frames,
            rect,
            point,
            behavior,
            new_bound,
            ev,
        ).0.windows == s.windows,
{
    reveal(bind_spec);
}

/// Whether routing an event at `point` stays in the range of the integer types.
pub open spec fn route_in_range(s: EventState, table: Seq<RegionLookupKind>, point: (i32, i32), ev: UiEvent) -> bool {
    &&& forall|i: int| 0 <= i < s.windows.len() ==> window_event_in_range(#[trigger] s.windows[i], ev)
    &&& forall|i: int|
        0 <= i < table.len() ==> match #[trigger] table[i] {
            RegionLookupKind::Window(rect, _) => contains_in_range(rect, point.0, point.1),
            RegionLookupKind::Frame(rect, _) => contains_in_range(rect, point.0, point.1),
            _ => true,
        }
}

/// The root window, the floating windows, and the regions rendered last.
pub struct RootFrame {
    root: Window,
    windows: Vec<Window>,
    lookup_table: Vec<RegionLookupKind>,
    current_bound: StoredBound,
    last_mouse_pos: (i32, i32),
}

impl RootFrame {
    pub closed spec fn root(&self) -> Window {
        self.root
    }

    pub closed spec fn windows(&self) -> Seq<Window> {
        self.windows@
    }

    pub closed spec fn lookup_table(&self) -> Seq<RegionLookupKind> {
        self.lookup_table@
    }

    pub closed spec fn event_state(&self) -> EventState {
        EventState {
            windows: self.windows@,
            current_bound: self.current_bound,
            last_mouse_pos: self.last_mouse_pos,
        }
    }

    /// A root frame over frame `root`, shown without border, with no window.
    pub fn new(root: FrameId) -> (r: Self)
        ensures
            r.root().id == 0,
            r.root().content == root,
            r.root().no_border,
            r.wf(),
            r.root().size == (UIRect { x: 30, y: 30, w: 380, h: 175 }),
            r.root().title@ == "Untitled Window"@,
            r.root().min_width == 380,
            r.root().min_height == 175,
            r.root().cur_manipulation == WindowManipulationKind::Nothing,
            r.windows() == Seq::<Window>::empty(),
            r.event_state().windows == r.windows(),
            r.lookup_table() == Seq::<RegionLookupKind>::empty(),
            r.event_state().current_bound == StoredBound::Nothing,
            r.event_state().last_mouse_pos == (0i32, 0i32),
    {
        let mut root = Window::new(0, root);
        root.no_border = true;
        RootFrame {
            root: root,
            windows: Vec::new(),
            lookup_table: Vec::new(),
            current_bound: StoredBound::Nothing,
            last_mouse_pos: (0, 0),
        }
    }

    /// Adds a floating window on top of the others.
    pub fn push_window(&mut self, window: Window)
        ensures
            final(self).windows() == old(self).windows().push(window),
            final(self).event_state().windows == final(self).windows(),
            final(self).root() == old(self).root(),
            final(self).lookup_table() == old(self).lookup_table(),
            final(self).event_state().current_bound == old(self).event_state().current_bound,
            final(self).event_state().last_mouse_pos == old(self).event_state().last_mouse_pos,
    {
        self.windows.push(window);
    }

    /// The index of the first window with id `id`.
    fn find_window(&self, id: WindowId) -> (r: Option<usize>)
        ensures
            r is None <==> !has_window(self.windows@, id),
            r matches Some(i) ==> i < self.windows@.len() && self.windows@[i as int].id == id && i == first_window(
                self.windows@,
                id,
            ),
    {
        let mut i: usize = 0;
        while i < self.windows.len()
            invariant
                i <= self.windows@.len(),
                forall|j: int| 0 <= j < i ==> self.windows@[j].id != id,
            decreases self.windows@.len() - i,
        {
            if self.windows[i].id == id {
                let ghost c = first_window(self.windows@, id);
                assert(self.windows@[i as int].id == id && forall|j: int| 0 <= j < i ==> self.windows@[j].id != id);
                assert(c == i) by {
                    if c < i {
                        assert(self.windows@[c].id != id);
                    }
                    if c > i {
                        assert(self.windows@[i as int].id != id);
                    }
                }
                return Some(i);
            }
            i = i + 1;
        }
        None
    }

    /// The first window with id `id`, for change in place.
    pub fn borrow_window(&mut self, id: WindowId) -> (r: Option<&mut Window>)
        ensures
            final(self).root() == old(self).root(),
            final(self).lookup_table() == old(self).lookup_table(),
            final(self).event_state().current_bound == old(self).event_state().current_bound,
            final(self).event_state().last_mouse_pos == old(self).event_state().last_mouse_pos,
            has_window(old(self).windows(), id) ==> (r matches Some(w) && {
                let i = first_window(old(self).windows(), id);
                &&& *w == old(self).windows()[i]
                &&& final(self).windows() == old(self).windows().update(i, *final(w))
            }),
            !has_window(old(self).windows(), id) ==> r is None && final(self).windows() == old(self).windows(),
            final(self).event_state().windows == final(self).windows(),
    {
        match self.find_window(id) {
            Some(i) => Some(&mut self.windows[i]),
            None => None,
        }
    }

    /// Removes the first window with id `id`; the last window takes its place.
    pub fn destroy_window(&mut self, id: WindowId)
        ensures
            final(self).root() == old(self).root(),
            final(self).lookup_table() == old(self).lookup_table(),
            final(self).event_state().current_bound == old(self).event_state().current_bound,
            final(self).event_state().last_mouse_pos == old(self).event_state().last_mouse_pos,
            final(self).windows() == without_window(old(self).windows(), id),
            final(self).event_state().windows == final(self).windows(),
    {
        if let Some(i) = self.find_window(id) {
            self.windows.swap_remove(i);
        }
    }

    /// Hands the event to the first window with id `id`, if there is one.
    fn deliver_window_event(&mut self, id: WindowId, event: &UiEvent) -> (r: bool)
        requires
            forall|i: int| 0 <= i < old(self).windows().len() ==> window_event_in_range(#[trigger] old(self).windows()[i], *event),
        ensures
            final(self).root == old(self).root,
            final(self).lookup_table == old(self).lookup_table,
            final(self).current_bound == old(self).current_bound,
            final(self).last_mouse_pos == old(self).last_mouse_pos,
            r == has_window(old(self).windows@, id),
            final(self).windows@ == (if r {
                deliver_to_window(old(self).windows@, id, *event)
            } else {
                old(self).windows@
            }),
    {
        match self.find_window(id) {
            Some(i) => {
                assert(window_event_in_range(old(self).windows()[i as int], *event));
                self.windows[i].handle_event(*event);
                true
            },
            None => false,
        }
    }

    /// Offers the event to region `new_bound` with rectangle `rect` (see
    /// `bind_spec`); `frames` are the frames that exist. Returns whether the event
    /// was handled, and the frame it must be delivered to.
    pub fn handle_bind(
        &mut self,
        frames: &Vec<FrameId>,
        rect: UIRect,
        point: (i32, i32),
        behavior: &EventBindBehavior,
        new_bound: StoredBound,
        event: &UiEvent,
    ) -> (r: (bool, Option<FrameId>))
        requires
            contains_in_range(rect, point.0, point.1),
            forall|i: int| 0 <= i < old(self).windows().len() ==> window_event_in_range(#[trigger] old(self).windows()[i], *event),
        ensures
            final(self).root() == old(self).root(),
            final(self).lookup_table() == old(self).lookup_table(),
            old(self).event_state().windows == old(self).windows(),
            final(self).event_state().windows == final(self).windows(),
            (final(self).event_state(), r.0, r.1) == bind_spec(
                old(self).event_state(),
                frames@,
                rect,
                point,
                *behavior,
                new_bound,
                *event,
            ),
    {
        reveal(bind_spec);
        let mut was_handled = false;
        let mut frame: Option<FrameId> = None;
        self.last_mouse_pos = point;
        let inside = rect.contains(point.0, point.1);
        if *behavior == EventBindBehavior::Bind {
            if inside {
                self.current_bound = new_bound;
            }
        }
        let target = match self.current_bound {
            StoredBound::Nothing => if inside {
                new_bound
            } else {
                StoredBound::Nothing
            },
            b => b,
        };
        match target {
            StoredBound::Window(window_id) => {
                assert(self.windows() == old(self).windows());
                was_handled = self.deliver_window_event(window_id, event);
            },
            StoredBound::Frame(frame_id) => {
                if contains_frame(frames, frame_id) {
                    was_handled = true;
                    frame = Some(frame_id);
                }
            },
            StoredBound::Nothing => {},
        }
        if *behavior == EventBindBehavior::Unbind {
            self.current_bound = StoredBound::Nothing;
        }
        (was_handled, frame)
    }
}

/// Whether `id` is one of `frames`.
fn contains_frame(frames: &Vec<FrameId>, id: FrameId) -> (r: bool)
    ensures
        r == frames@.contains(id),
{
    let mut i: usize = 0;
    while i < frames.len()
        invariant
            i <= frames@.len(),
            forall|j: int| 0 <= j < i ==> frames@[j] != id,
        decreases frames@.len() - i,
    {
        if frames[i] == id {
            assert(frames@[i as int] == id);
            return true;
        }
        i = i + 1;
    }
    false
}

/// Where an event lands on the screen, and how it changes the binding: a
/// press binds, a release unbinds, a motion leaves the binding; a wheel event
/// lands where the mouse was last; other events are not routed.
pub open spec fn event_route(ev: UiEvent, last: (i32, i32)) -> Option<((i32, i32), EventBindBehavior)> {
    match ev {
        UiEvent::MouseButtonDown { x, y, .. } => Some(((x, y), EventBindBehavior::Bind)),
        UiEvent::MouseButtonUp { x, y } => Some(((x, y), EventBindBehavior::Unbind)),
        UiEvent::MouseMotion { x, y, .. } => Some(((x, y), EventBindBehavior::Unmodified)),
        UiEvent::MouseWheel { .. } => Some((last, EventBindBehavior::Unmodified)),
        UiEvent::Other => None,
    }
}

/// A press, a release or a motion lands where it happened, whatever the last
/// position of the mouse: a press binds, a release unbinds, a motion leaves
/// the binding. A wheel event lands at the last position, leaving the binding;
/// other events are not routed.
pub proof fn lemma_events_land_where_they_happen(ev: UiEvent, last: (i32, i32), other_last: (i32, i32))
    ensures
        !(ev is MouseWheel) ==> event_route(ev, last) == event_route(ev, other_last),
        match ev {
            UiEvent::MouseButtonDown { x, y, .. } => event_route(ev, last) == Some(((x, y), EventBindBehavior::Bind)),
            UiEvent::MouseButtonUp { x, y } => event_route(ev, last) == Some(((x, y), EventBindBehavior::Unbind)),
            UiEvent::MouseMotion { x, y, .. } => event_route(ev, last) == Some(((x, y), EventBindBehavior::Unmodified)),
            UiEvent::MouseWheel { .. } => event_route(ev, last) == Some((last, EventBindBehavior::Unmodified)),
            UiEvent::Other => event_route(ev, last) is None,
        },
{
}

/// A wheel event and a motion without a button held change no window, and
/// are offered to a region alike.
proof fn lemma_bind_same_effect(
    s: EventState,
    frames: Seq<FrameId>,
    rect: UIRect,
    point: (i32, i32),
    b: EventBindBehavior,
    nb: StoredBound,
    e1: UiEvent,
    e2: UiEvent,
)
    requires
        e1 is MouseWheel,
        e2 matches UiEvent::MouseMotion { left, .. } && !left,
    ensures
        bind_spec(s, frames, rect, point, b, nb, e1) == bind_spec(s, frames, rect, point, b, nb, e2),
{
    reveal(bind_spec);
    reveal(window_after);
    if let StoredBound::Window(id) = bind_target(
        if b == EventBindBehavior::Bind && rect_contains(rect, point.0, point.1) {
            nb
        } else {
            s.current_bound
        },
        rect,
        point,
        nb,
    ) {
        let ws = s.windows;
        let i = first_window(ws, id);
        assert(window_after(ws[i], e1) == window_after(ws[i], e2));
        assert(deliver_to_window(ws, id, e1) == deliver_to_window(ws, id, e2));
    }
}

/// A region offered an event at `point` records the mouse at `point`.
proof fn lemma_bind_records_point(
    s: EventState,
    frames: Seq<FrameId>,
    rect: UIRect,
    point: (i32, i32),
    b: EventBindBehavior,
    nb: StoredBound,
    ev: UiEvent,
)
    ensures
        bind_spec(s, frames, rect, point, b, nb, ev).0.last_mouse_pos == point,
{
    reveal(bind_spec);
}

/// A wheel event and a motion without a button held are routed alike.
proof fn lemma_route_same_effect(
    s: EventState,
    frames: Seq<FrameId>,
    table: Seq<RegionLookupKind>,
    point: (i32, i32),
    b: EventBindBehavior,
    e1: UiEvent,
    e2: UiEvent,
)
    requires
        e1 is MouseWheel,
        e2 matches UiEvent::MouseMotion { left, .. } && !left,
    ensures
        route_spec(s, frames, table, point, b, e1) == route_spec(s, frames, table, point, b, e2),
    decreases table.len(),
{
    reveal(route_spec);
    if table.len() > 0 {
        match table.last() {
            RegionLookupKind::Window(rect, id) => {
                lemma_bind_same_effect(s, frames, rect, point, b, StoredBound::Window(id), e1, e2);
                let (s2, h, f) = bind_spec(s, frames, rect, point, b, StoredBound::Window(id), e1);
                lemma_route_same_effect(s2, frames, table.drop_last(), point, b, e1, e2);
            },
            RegionLookupKind::Frame(rect, id) => {
                lemma_bind_same_effect(s, frames, rect, point, b, StoredBound::Frame(id), e1, e2);
                let (s2, h, f) = bind_spec(s, frames, rect, point, b, StoredBound::Frame(id), e1);
                lemma_route_same_effect(s2, frames, table.drop_last(), point, b, e1, e2);
            },
            RegionLookupKind::Nothing => {
                lemma_route_same_effect(s, frames, table.drop_last(), point, b, e1, e2);
            },
            RegionLookupKind::Root => {},
        }
    }
}

/// Routing from a state that last saw the mouse at `point` keeps it there.
proof fn lemma_route_keeps_point(
    s: EventState,
    frames: Seq<FrameId>,
    table: Seq<RegionLookupKind>,
    point: (i32, i32),
    b: EventBindBehavior,
    ev: UiEvent,
)
    requires
        s.last_mouse_pos == point,
    ensures
        route_spec(s, frames, table, point, b, ev).0.last_mouse_pos == point,
    decreases table.len(),
{
    reveal(route_spec);
    if table.len() > 0 {
        match table.last() {
            RegionLookupKind::Window(rect, id) => {
                lemma_bind_records_point(s, frames, rect, point, b, StoredBound::Window(id), ev);
                let (s2, h, f) = bind_spec(s, frames, rect, point, b, StoredBound::Window(id), ev);
                lemma_route_keeps_point(s2, frames, table.drop_last(), point, b, ev);
            },
            RegionLookupKind::Frame(rect, id) => {
                lemma_bind_records_point(s, frames, rect, point, b, StoredBound::Frame(id), ev);
                let (s2, h, f) = bind_spec(s, frames, rect, point, b, StoredBound::Frame(id), ev);
                lemma_route_keeps_point(s2, frames, table.drop_last(), point, b, ev);
            },
            RegionLookupKind::Nothing => {
                lemma_route_keeps_point(s, frames, table.drop_last(), point, b, ev);
            },
            RegionLookupKind::Root => {},
        }
    }
}

/// An event routed at `point` whose topmost region is a window or a frame
/// leaves the mouse recorded at `point`.
pub proof fn lemma_route_records_point(
    s: EventState,
    frames: Seq<FrameId>,
    table: Seq<RegionLookupKind>,
    point: (i32, i32),
    b: EventBindBehavior,
    ev: UiEvent,
)
    requires
        table.len() > 0,
        table.last() is Window || table.last() is Frame,
    ensures
        route_spec(s, frames, table, point, b, ev).0.last_mouse_pos == point,
{
    reveal(route_spec);
    match table.last() {
        RegionLookupKind::Window(rect, id) => {
            lemma_bind_records_point(s, frames, rect, point, b, StoredBound::Window(id), ev);
            let (s2, h, f) = bind_spec(s, frames, rect, point, b, StoredBound::Window(id), ev);
            lemma_route_keeps_point(s2, frames, table.drop_last(), point, b, ev);
        },
        RegionLookupKind::Frame(rect, id) => {
            lemma_bind_records_point(s, frames, rect, point, b, StoredBound::Frame(id), ev);
            let (s2, h, f) = bind_spec(s, frames, rect, point, b, StoredBound::Frame(id), ev);
            lemma_route_keeps_point(s2, frames, table.drop_last(), point, b, ev);
        },
        _ => {},
    }
}

/// A wheel event is routed where the mouse was last seen, leaving the binding
/// as it is: it reaches the same region, and changes the state the same way,
/// as a motion of the mouse to that position without a button held. (After a
/// motion to `(x, y)` that reached a window or a frame, the mouse was last seen
/// at `(x, y)`; see `lemma_route_records_point`.)
pub proof fn lemma_wheel_routed_at_last_position(
    s: EventState,
    frames: Seq<FrameId>,
    table: Seq<RegionLookupKind>,
    dy: i32,
    xrel: i32,
    yrel: i32,
)
    ensures
        event_route(UiEvent::MouseWheel { y: dy }, s.last_mouse_pos) matches Some((p, b)) && route_spec(
            s,
            frames,
            table,
            p,
            b,
            UiEvent::MouseWheel { y: dy },
        ) == route_spec(
            s,
            frames,
            table,
            s.last_mouse_pos,
            EventBindBehavior::Unmodified,
            UiEvent::MouseMotion { x: s.last_mouse_pos.0, y: s.last_mouse_pos.1, xrel: xrel, yrel: yrel, left: false },
        ),
{
    let motion = UiEvent::MouseMotion { x: s.last_mouse_pos.0, y: s.last_mouse_pos.1, xrel: xrel, yrel: yrel, left: false };
    lemma_route_same_effect(
        s,
        frames,
        table,
        s.last_mouse_pos,
        EventBindBehavior::Unmodified,
        UiEvent::MouseWheel { y: dy },
        motion,
    );
}

impl RootFrame {
    /// Routes the event through the regions rendered last, the topmost first,
    /// until one handles it (see `route_spec`); returns the frame the event must
    /// be delivered to.
    pub fn route_event(
        &mut self,
        frames: &Vec<FrameId>,
        point: (i32, i32),
        event: UiEvent,
        behavior: EventRoutingBehavior,
    ) -> (r: Option<FrameId>)
        requires
            behavior is Calculate,
            route_in_range(old(self).event_state(), old(self).lookup_table(), point, event),
        ensures
            final(self).root() == old(self).root(),
            final(self).lookup_table() == old(self).lookup_table(),
            (final(self).event_state(), r) == route_spec(
                old(self).event_state(),
                frames@,
                old(self).lookup_table(),
                point,
                behavior->Calculate_0,
                event,
            ),
    {
        let b = match behavior {
            EventRoutingBehavior::Calculate(b) => b,
            EventRoutingBehavior::AlwaysRoot => EventBindBehavior::Unmodified,
        };
        let ghost table = self.lookup_table@;
        let mut i = self.lookup_table.len();
        assert(table.take(i as int) =~= table);
        while i > 0
            invariant
                i <= table.len(),
                self.lookup_table@ == table,
                table == old(self).lookup_table(),
                b == behavior->Calculate_0,
                self.root() == old(self).root(),
                route_in_range(self.event_state(), table, point, event),
                route_spec(old(self).event_state(), frames@, table, point, b, event) == route_spec(
                    self.event_state(),
                    frames@,
                    table.take(i as int),
                    point,
                    b,
                    event,
                ),
            decreases i,
        {
            let entry = self.lookup_table[i - 1];
            assert(table.take(i as int).drop_last() =~= table.take(i - 1));
            assert(table.take(i as int).last() == table[i - 1]);
            proof {
                reveal(route_spec);
            }
            match entry {
                RegionLookupKind::Nothing => {},
                RegionLookupKind::Root => {
                    return None;
                },
                RegionLookupKind::Window(rect, window_id) => {
                    assert(contains_in_range(rect, point.0, point.1));
                    proof {
                        lemma_unhandled_keeps_windows(self.event_state(), frames@, rect, point, b, StoredBound::Window(window_id), event);
                    }
                    let (handled, f) = self.handle_bind(frames, rect, point, &b, StoredBound::Window(window_id), &event);
                    if handled {
                        return f;
                    }
                },
                RegionLookupKind::Frame(rect, frame_id) => {
                    assert(contains_in_range(rect, point.0, point.1));
                    proof {
                        lemma_unhandled_keeps_windows(self.event_state(), frames@, rect, point, b, StoredBound::Frame(frame_id), event);
                    }
                    let (handled, f) = self.handle_bind(frames, rect, point, &b, StoredBound::Frame(frame_id), &event);
                    if handled {
                        return f;
                    }
                },
            }
            i = i - 1;
        }
        proof {
            reveal(route_spec);
        }
        None
    }

    /// Routes a mouse event (see `event_route`); returns the frame it must be
    /// delivered to.
    pub fn handle_event(&mut self, frames: &Vec<FrameId>, event: UiEvent) -> (r: Option<FrameId>)
        requires
            event_route(event, old(self).event_state().last_mouse_pos) matches Some((p, _)) ==> route_in_range(
                old(self).event_state(),
                old(self).lookup_table(),
                p,
                event,
            ),
        ensures
            final(self).root() == old(self).root(),
            final(self).lookup_table() == old(self).lookup_table(),
            match event_route(event, old(self).event_state().last_mouse_pos) {
                Some((p, b)) => (final(self).event_state(), r) == route_spec(
                    old(self).event_state(),
                    frames@,
                    old(self).lookup_table(),
                    p,
                    b,
                    event,
                ),
                None => final(self).event_state() == old(self).event_state() && r is None,
            },
    {
        match event {
            UiEvent::MouseButtonDown { x, y, .. } => self.route_event(
                frames,
                (x, y),
                event,
                EventRoutingBehavior::Calculate(EventBindBehavior::Bind),
            ),
            UiEvent::MouseButtonUp { x, y } => self.route_event(
                frames,
                (x, y),
                event,
                EventRoutingBehavior::Calculate(EventBindBehavior::Unbind),
            ),
            UiEvent::MouseMotion { x, y, .. } => self.route_event(
                frames,
                (x, y),
                event,
                EventRoutingBehavior::Calculate(EventBindBehavior::Unmodified),
            ),
            UiEvent::MouseWheel { .. } => {
                let pos = self.last_mouse_pos;
                self.route_event(frames, pos, event, EventRoutingBehavior::Calculate(EventBindBehavior::Unmodified))
            },
            UiEvent::Other => None,
        }
    }

    /// Routes a mouse event (see `handle_event`) among the frames registered
    /// in `manager`, and hands it to the frame it reaches where that frame
    /// takes it (see `frames_after_event`); returns that frame.
    pub fn dispatch_event<F: Frame>(&mut self, manager: &mut RootManager<F>, event: UiEvent) -> (r: Option<FrameId>)
        requires
            event_route(event, old(self).event_state().last_mouse_pos) matches Some((p, _)) ==> route_in_range(
                old(self).event_state(),
                old(self).lookup_table(),
                p,
                event,
            ),
        ensures
            final(self).root() == old(self).root(),
            final(self).lookup_table() == old(self).lookup_table(),
            final(manager).next_id() == old(manager).next_id(),
            final(manager).next_window() == old(manager).next_window(),
            match event_route(event, old(self).event_state().last_mouse_pos) {
                Some((p, b)) => {
                    let (state, target) = route_spec(
                        old(self).event_state(),
                        registered_ids(old(manager).frames()),
                        old(self).lookup_table(),
                        p,
                        b,
                        event,
                    );
                    &&& final(self).event_state() == state
                    &&& match target {
                        Some(id) => {
                            &&& final(manager).frames() == frames_after_event(old(manager).frames(), id, event)
                            &&& r == (if takes_event(old(manager).frames(), id, event) {
                                Some(id)
                            } else {
                                None
                            })
                        },
                        None => final(manager).frames() == old(manager).frames() && r is None,
                    }
                },
                None => {
                    &&& final(self).event_state() == old(self).event_state()
                    &&& final(manager).frames() == old(manager).frames()
                    &&& r is None
                },
            },
    {
        let ghost before = manager.frames();
        let ids = manager.frame_ids();
        let target = self.handle_event(&ids, event);
        match target {
            Some(id) => match manager.borrow_frame_by_id(id) {
                Some(region) => {
                    if region.frame.takes(event) {
                        region.frame.handle_event(event);
                        assert(manager.frames() == frames_after_event(before, id, event));
                        Some(id)
                    } else {
                        proof {
                            lemma_first_with_frame_id(before, id);
                        }
                        assert(manager.frames() =~= before);
                        None
                    }
                },
                None => None,
            },
            None => None,
        }
    }
}

/// Whether the first frame with id `id` takes event `ev`.
pub open spec fn takes_event<F: Frame>(frames: Seq<RenderRegion<F>>, id: FrameId, ev: UiEvent) -> bool {
    first_with_frame_id(frames, id) matches Some(i) && frames[i].frame.accepts(ev)
}

/// The registered frames after event `ev` is handed to the first frame with id
/// `id`, where that frame takes it; otherwise they are unchanged.
pub open spec fn frames_after_event<F: Frame>(frames: Seq<RenderRegion<F>>, id: FrameId, ev: UiEvent) -> Seq<
    RenderRegion<F>,
> {
    match first_with_frame_id(frames, id) {
        Some(i) => if frames[i].frame.accepts(ev) {
            frames.update(
                i,
                RenderRegion { id: frames[i].id, viewport: frames[i].viewport, frame: frames[i].frame.after_event(ev) },
            )
        } else {
            frames
        },
        None => frames,
    }
}

/// A rectangle moved by the origin of its parent (the sums wrap around the
/// range of `i32`).
pub open spec fn offset_rect(r: UIRect, parent: UIRect) -> UIRect {
    UIRect { x: r.x.wrapping_add(parent.x), y: r.y.wrapping_add(parent.y), ..r }
}

/// The work that the frames returned by a render add: one frame each, placed
/// relative to the parent.
pub open spec fn child_work(parent: UIRect, frames: Seq<(UIRect, FrameId)>) -> Seq<WorkKind> {
    frames.map_values(|f: (UIRect, FrameId)| WorkKind::Frame(offset_rect(f.0, parent), f.1))
}

/// The frames that a rendered piece holds are queued at their place on the
/// screen: each one's rectangle moved by its parent's origin on both axes (the
/// sums wrapping around the range of `i32`; where they fit, plain sums), with
/// its size and its frame kept, in order.
pub proof fn lemma_children_placed_in_parent(parent: UIRect, frames: Seq<(UIRect, FrameId)>)
    ensures
        child_work(parent, frames).len() == frames.len(),
        forall|i: int|
            0 <= i < frames.len() ==> #[trigger] child_work(parent, frames)[i] == WorkKind::Frame(
                UIRect {
                    x: frames[i].0.x.wrapping_add(parent.x),
                    y: frames[i].0.y.wrapping_add(parent.y),
                    w: frames[i].0.w,
                    h: frames[i].0.h,
                },
                frames[i].1,
            ),
        forall|i: int|
            0 <= i < frames.len() && i32::MIN <= frames[i].0.x + parent.x <= i32::MAX && i32::MIN <= frames[i].0.y
                + parent.y <= i32::MAX ==> (#[trigger] child_work(parent, frames)[i] matches WorkKind::Frame(r, _) && r.x
                == frames[i].0.x + parent.x && r.y == frames[i].0.y + parent.y),
{
}

/// The rendering work of one frame of the interface: what is still to render
/// (the next piece last, so the pieces added last come first) and the regions
/// rendered so far, in order.
pub struct RenderTraversal {
    queue: Vec<WorkKind>,
    lookup_table: Vec<RegionLookupKind>,
}

impl RenderTraversal {
    /// The work still to do; the next piece is the last.
    pub closed spec fn queue(&self) -> Seq<WorkKind> {
        self.queue@
    }

    /// The regions rendered so far.
    pub closed spec fn table(&self) -> Seq<RegionLookupKind> {
        self.lookup_table@
    }

    /// The next piece of work, if any is left, without taking it.
    pub fn peek_work(&self) -> (r: Option<WorkKind>)
        ensures
            self.queue().len() == 0 ==> r is None,
            self.queue().len() > 0 ==> r == Some(self.queue().last()),
    {
        if self.queue.len() == 0 {
            None
        } else {
            Some(self.queue[self.queue.len() - 1])
        }
    }

    /// The next piece of work, if any is left.
    pub fn next_work(&mut self) -> (r: Option<WorkKind>)
        ensures
            final(self).table() == old(self).table(),
            old(self).queue().len() == 0 ==> r is None && final(self).queue() == old(self).queue(),
            old(self).queue().len() > 0 ==> r == Some(old(self).queue().last()) && final(self).queue()
                == old(self).queue().drop_last(),
    {
        self.queue.pop()
    }

    /// Records a rendered piece: its region, and the frames it holds, placed
    /// relative to `parent`, to be rendered next, the last one first.
    pub fn complete(&mut self, parent: UIRect, lookup: RegionLookupKind, new_frames: Vec<(UIRect, FrameId)>)
        ensures
            final(self).table() == old(self).table().push(lookup),
            final(self).queue() == old(self).queue() + child_work(parent, new_frames@),
            final(self).queue().len() == old(self).queue().len() + new_frames@.len(),
            forall|i: int|
                0 <= i < new_frames@.len() ==> #[trigger] final(self).queue()[old(self).queue().len() + i]
                    == WorkKind::Frame(
                    UIRect {
                        x: new_frames@[i].0.x.wrapping_add(parent.x),
                        y: new_frames@[i].0.y.wrapping_add(parent.y),
                        w: new_frames@[i].0.w,
                        h: new_frames@[i].0.h,
                    },
                    new_frames@[i].1,
                ),
    {
        proof {
            lemma_children_placed_in_parent(parent, new_frames@);
        }
        self.lookup_table.push(lookup);
        let mut i: usize = 0;
        while i < new_frames.len()
            invariant
                i <= new_frames@.len(),
                self.lookup_table@ == old(self).lookup_table@.push(lookup),
                self.queue@ == old(self).queue@ + child_work(parent, new_frames@.take(i as int)),
            decreases new_frames@.len() - i,
        {
            let (mut rect, frame) = new_frames[i];
            rect.x = rect.x.wrapping_add(parent.x);
            rect.y = rect.y.wrapping_add(parent.y);
            self.queue.push(WorkKind::Frame(rect, frame));
            assert(child_work(parent, new_frames@.take(i + 1)) =~= child_work(parent, new_frames@.take(i as int)).push(
                WorkKind::Frame(rect, frame),
            ));
            i = i + 1;
        }
        assert(new_frames@.take(i as int) =~= new_frames@);
    }
}

/// The work a render starts with: the windows, the first one deepest, then the
/// root on top, to be rendered first.
pub open spec fn initial_work(ws: Seq<Window>) -> Seq<WorkKind> {
    ws.map_values(|w: Window| WorkKind::Window(w.id)).push(WorkKind::Root)
}

impl RootFrame {
    /// The root window is shown without border.
    pub closed spec fn wf(&self) -> bool {
        self.root.no_border
    }

    /// Starts rendering a frame of the interface: the root first, then the
    /// windows, the last added (the topmost) first.
    pub fn begin_render(&self) -> (r: RenderTraversal)
        ensures
            r.queue() == initial_work(self.windows()),
            r.table() == Seq::<RegionLookupKind>::empty(),
    {
        let mut queue: Vec<WorkKind> = Vec::new();
        let mut i: usize = 0;
        while i < self.windows.len()
            invariant
                i <= self.windows@.len(),
                queue@ == self.windows@.take(i as int).map_values(|w: Window| WorkKind::Window(w.id)),
            decreases self.windows@.len() - i,
        {
            queue.push(WorkKind::Window(self.windows[i].id));
            assert(self.windows@.take(i + 1).map_values(|w: Window| WorkKind::Window(w.id)) =~= queue@);
            i = i + 1;
        }
        assert(self.windows@.take(i as int) =~= self.windows@);
        queue.push(WorkKind::Root);
        let r = RenderTraversal { queue: queue, lookup_table: Vec::new() };
        assert(r.table() =~= Seq::<RegionLookupKind>::empty());
        r
    }

    /// Renders the root window over the whole screen: its region is the root
    /// region, and its content takes all of it.
    pub fn render_root(&mut self, full_size: UIRect) -> (r: (UIRect, RegionLookupKind, Vec<(UIRect, FrameId)>))
        requires
            old(self).wf(),
        ensures
            final(self).wf(),
            final(self).root() == (Window { size: full_size, ..old(self).root() }),
            final(self).windows() == old(self).windows(),
            final(self).lookup_table() == old(self).lookup_table(),
            final(self).event_state() == old(self).event_state(),
            r.0 == full_size,
            r.1 == RegionLookupKind::Root,
            r.2@ == seq![(full_size, old(self).root().content)],
    {
        let frames = self.root.render(full_size);
        (full_size, RegionLookupKind::Root, frames)
    }

    /// Renders window `i` in its own rectangle, which it keeps.
    fn render_window_at(&mut self, i: usize) -> (r: Vec<(UIRect, FrameId)>)
        requires
            i < old(self).windows@.len(),
            !old(self).windows@[i as int].no_border ==> old(self).windows@[i as int].size.w >= 8
                && old(self).windows@[i as int].size.h >= 33,
        ensures
            final(self).windows@ == old(self).windows@,
            final(self).root == old(self).root,
            final(self).lookup_table@ == old(self).lookup_table@,
            final(self).current_bound == old(self).current_bound,
            final(self).last_mouse_pos == old(self).last_mouse_pos,
            r@ == seq![window_layout(old(self).windows@[i as int], old(self).windows@[i as int].size)],
    {
        let size = self.windows[i].size;
        let ghost w0 = self.windows@[i as int];
        let w = &mut self.windows[i];
        let frames = w.render(size);
        assert(*w == w0);
        assert(self.windows@ =~= old(self).windows@);
        frames
    }

    /// Renders the first window with id `window_id` in its own rectangle (see
    /// `Window::render`); a window being closed is destroyed after it is
    /// rendered. Without such a window, nothing is rendered.
    #[verifier::spinoff_prover]
    pub fn render_window(&mut self, window_id: WindowId) -> (r: (UIRect, RegionLookupKind, Vec<(UIRect, FrameId)>))
        requires
            has_window(old(self).windows(), window_id) ==> {
                let w = old(self).windows()[first_window(old(self).windows(), window_id)];
                !w.no_border ==> w.size.w >= 8 && w.size.h >= 33
            },
        ensures
            final(self).root() == old(self).root(),
            final(self).lookup_table() == old(self).lookup_table(),
            final(self).event_state().current_bound == old(self).event_state().current_bound,
            final(self).event_state().last_mouse_pos == old(self).event_state().last_mouse_pos,
            has_window(old(self).windows(), window_id) ==> {
                let w = old(self).windows()[first_window(old(self).windows(), window_id)];
                &&& r.0 == w.size
                &&& r.1 == RegionLookupKind::Window(w.size, window_id)
                &&& r.2@ == seq![window_layout(w, w.size)]
                &&& final(self).windows() == (if w.cur_manipulation == WindowManipulationKind::Close {
                    without_window(old(self).windows(), window_id)
                } else {
                    old(self).windows()
                })
            },
            !has_window(old(self).windows(), window_id) ==> r.0 == (UIRect { x: 0, y: 0, w: 0, h: 0 }) && r.1
                == RegionLookupKind::Nothing && r.2@.len() == 0 && final(self).windows() == old(self).windows(),
    {
        match self.find_window(window_id) {
            Some(i) => {
                let size = self.windows[i].size;
                let frames = self.render_window_at(i);
                let closing = self.windows[i].cur_manipulation == WindowManipulationKind::Close;
                if closing {
                    self.destroy_window(window_id);
                }
                (size, RegionLookupKind::Window(size, window_id), frames)
            },
            None => (UIRect::default(), RegionLookupKind::Nothing, Vec::new()),
        }
    }

    /// Ends a render: the regions rendered become the ones events are routed through.
    pub fn end_render(&mut self, t: RenderTraversal)
        ensures
            final(self).lookup_table() == t.table(),
            final(self).root() == old(self).root(),
            final(self).windows() == old(self).windows(),
            final(self).event_state() == old(self).event_state(),
    {
        self.lookup_table = t.lookup_table;
    }
}

/// What a render changes as it goes: the work still to do, the windows, and
/// the registered frames.
pub type RenderState<F> = (Seq<WorkKind>, Seq<Window>, Seq<RenderRegion<F>>);

/// Whether the window with id `id`, if there is one, is large enough for its
/// border and title bar.
pub open spec fn window_renderable(ws: Seq<Window>, id: WindowId) -> bool {
    has_window(ws, id) ==> {
        let w = ws[first_window(ws, id)];
        !w.no_border ==> w.size.w >= 8 && w.size.h >= 33
    }
}

/// The registered frames after frame `id` is rendered: it is taken out (the
/// last frame taking its place) and registered again, last, under its own id
/// and with its own viewport. Without such a frame nothing changes.
pub open spec fn frame_rendered<F>(fs: Seq<RenderRegion<F>>, id: FrameId, fs2: Seq<RenderRegion<F>>) -> bool {
    match first_with_frame_id(fs, id) {
        Some(i) => {
            &&& fs2.len() == fs.len()
            &&& fs2.drop_last() == swap_removed(fs, i)
            &&& fs2.last().id == Some(id)
            &&& fs2.last().viewport == fs[i].viewport
        },
        None => fs2 == fs,
    }
}

/// One piece of a render, over a screen of `full` and a root window holding
/// `root_content`: the last piece of work is taken and rendered, and gives
/// its region (`lookup`) and the frames it holds, to be rendered next. The root
/// holds its content over the whole screen; a window holds its content
/// inside its border, and is destroyed once rendered when it is being closed;
/// a frame is taken from the registry, rendered and registered again, and
/// holds the frames of its `layout` in its area. A window or frame that is not there gives the
/// region `Nothing` and holds nothing.
pub open spec fn render_step<F: Frame>(
    root_content: FrameId,
    full: UIRect,
    before: RenderState<F>,
    lookup: RegionLookupKind,
    after: RenderState<F>,
) -> bool {
    let (q, ws, fs) = before;
    let (q2, ws2, fs2) = after;
    &&& q.len() > 0
    &&& match q.last() {
        WorkKind::Root => {
            &&& lookup == RegionLookupKind::Root
            &&& ws2 == ws
            &&& fs2 == fs
            &&& q2 == q.drop_last() + child_work(full, seq![(full, root_content)])
        },
        WorkKind::Window(id) => {
            &&& fs2 == fs
            &&& if has_window(ws, id) {
                let w = ws[first_window(ws, id)];
                &&& lookup == RegionLookupKind::Window(w.size, id)
                &&& q2 == q.drop_last() + child_work(w.size, seq![window_layout(w, w.size)])
                &&& ws2 == (if w.cur_manipulation == WindowManipulationKind::Close {
                    without_window(ws, id)
                } else {
                    ws
                })
            } else {
                &&& lookup == RegionLookupKind::Nothing
                &&& q2 == q.drop_last()
                &&& ws2 == ws
            }
        },
        WorkKind::Frame(rect, id) => {
            &&& ws2 == ws
            &&& frame_rendered(fs, id, fs2)
            &&& if first_with_frame_id(fs, id) is Some {
                &&& lookup == RegionLookupKind::Frame(rect, id)
                &&& q2 == q.drop_last() + child_work(
                    rect,
                    fs[first_with_frame_id(fs, id)->0].frame.layout(UIRect { x: 0, y: 0, w: rect.w, h: rect.h }),
                )
            } else {
                &&& lookup == RegionLookupKind::Nothing
                &&& q2 == q.drop_last()
            }
        },
    }
}

/// A render step keeps the work that was left, and queues after it the frames
/// that the piece it rendered holds, each at its place on the screen: a
/// bordered window's content inside its border and under its title bar, moved
/// by the window's corner; each frame a frame holds, in the order of its
/// layout, moved by that frame's corner (the sums wrapping around the range of
/// `i32`).
#[verifier::spinoff_prover]
pub proof fn lemma_render_step_places_children<F: Frame>(
    root_content: FrameId,
    full: UIRect,
    before: RenderState<F>,
    lookup: RegionLookupKind,
    after: RenderState<F>,
)
    requires
        render_step(root_content, full, before, lookup, after),
    ensures
        after.0.len() >= before.0.len() - 1,
        after.0.take(before.0.len() - 1) == before.0.drop_last(),
        match before.0.last() {
            WorkKind::Window(id) => has_window(before.1, id) && !before.1[first_window(before.1, id)].no_border ==> {
            let w = before.1[first_window(before.1, id)];
            after.0 == before.0.drop_last().push(
                WorkKind::Frame(
                    UIRect {
                        x: 4i32.wrapping_add(w.size.x),
                        y: 29i32.wrapping_add(w.size.y),
                        w: (w.size.w - 8) as u32,
                        h: (w.size.h - 33) as u32,
                    },
                    w.content,
                ),
            )
            },
            WorkKind::Frame(rect, id) => first_with_frame_id(before.2, id) is Some ==> {
            let l = before.2[first_with_frame_id(before.2, id)->0].frame.layout(
                UIRect { x: 0, y: 0, w: rect.w, h: rect.h },
            );
            &&& after.0.len() == before.0.len() - 1 + l.len()
            &&& forall|i: int|
                0 <= i < l.len() ==> #[trigger] after.0[before.0.len() - 1 + i] == WorkKind::Frame(
                    UIRect {
                        x: l[i].0.x.wrapping_add(rect.x),
                        y: l[i].0.y.wrapping_add(rect.y),
                        w: l[i].0.w,
                        h: l[i].0.h,
                    },
                    l[i].1,
                )
            },
            WorkKind::Root => true,
        },
{
}

/// Whether `states` is the run of a render through the regions `lookups`, one
/// piece of work after the other (see `render_step`).
pub open spec fn render_trace<F: Frame>(
    root_content: FrameId,
    full: UIRect,
    states: Seq<RenderState<F>>,
    lookups: Seq<RegionLookupKind>,
) -> bool {
    &&& states.len() == lookups.len() + 1
    &&& forall|i: int|
        0 <= i < lookups.len() ==> #[trigger] render_step(root_content, full, states[i], lookups[i], states[i + 1])
}

/// Whether the first frame with id `id`, if there is one, can be drawn in an
/// area of the size of `rect`.
pub open spec fn frame_renderable<F: Frame>(fs: Seq<RenderRegion<F>>, rect: UIRect, id: FrameId) -> bool {
    match first_with_frame_id(fs, id) {
        Some(i) => fs[i].frame.can_render(UIRect { x: 0, y: 0, w: rect.w, h: rect.h }),
        None => true,
    }
}

/// Whether the next piece of work cannot be rendered: a window too small for
/// its border, or a frame that cannot be drawn in its area.
pub open spec fn blocked<F: Frame>(q: Seq<WorkKind>, ws: Seq<Window>, fs: Seq<RenderRegion<F>>) -> bool {
    q.len() > 0 && match q.last() {
        WorkKind::Window(id) => !window_renderable(ws, id),
        WorkKind::Frame(rect, id) => !frame_renderable(fs, rect, id),
        WorkKind::Root => false,
    }
}

/// Whether the first frame with id `id` can be drawn in an area of the size
/// of `rect` (see `frame_renderable`).
pub fn frame_fits<F: Frame>(manager: &RootManager<F>, rect: UIRect, id: FrameId) -> (r: bool)
    ensures
        r == frame_renderable(manager.frames(), rect, id),
{
    match manager.frame_by_id(id) {
        Some(region) => region.frame.fits(UIRect { x: 0, y: 0, w: rect.w, h: rect.h }),
        None => true,
    }
}

/// A render from the windows `ws` and frames `fs` to the windows `ws2` and
/// frames `fs2`, recording the regions `lookups`: it starts from the work of
/// `initial_work(ws)`. When `finished`, no work is left; otherwise it stopped
/// after `max_pieces` pieces, or before a piece that cannot be rendered.
pub open spec fn rendered<F: Frame>(
    root_content: FrameId,
    full: UIRect,
    ws: Seq<Window>,
    fs: Seq<RenderRegion<F>>,
    lookups: Seq<RegionLookupKind>,
    ws2: Seq<Window>,
    fs2: Seq<RenderRegion<F>>,
    finished: bool,
    max_pieces: usize,
) -> bool {
    exists|states: Seq<RenderState<F>>|
        #[trigger] render_trace(root_content, full, states, lookups) && states[0] == (initial_work(ws), ws, fs)
            && states.last().1 == ws2 && states.last().2 == fs2 && (finished ==> states.last().0.len() == 0) && (
        !finished ==> (lookups.len() == max_pieces || blocked(states.last().0, ws2, fs2)))
}

impl RootFrame {
    /// Whether the window with id `id` can be rendered (see `window_renderable`).
    pub fn can_render_window(&self, id: WindowId) -> (r: bool)
        ensures
            r == window_renderable(self.windows(), id),
    {
        match self.find_window(id) {
            Some(i) => self.windows[i].no_border || (self.windows[i].size.w >= 8 && self.windows[i].size.h >= 33),
            None => true,
        }
    }

    /// Renders the next piece of work of `t` (see `render_step`).
    fn render_piece<F: Frame>(&mut self, manager: &mut RootManager<F>, t: &mut RenderTraversal, full: UIRect)
        requires
            old(self).wf(),
            old(t).queue().len() > 0,
            !blocked(old(t).queue(), old(self).windows(), old(manager).frames()),
        ensures
            final(self).wf(),
            final(self).root().id == old(self).root().id,
            final(self).root().content == old(self).root().content,
            final(self).event_state().current_bound == old(self).event_state().current_bound,
            final(self).event_state().last_mouse_pos == old(self).event_state().last_mouse_pos,
            final(manager).next_id() == old(manager).next_id(),
            final(manager).next_window() == old(manager).next_window(),
            final(t).table().len() == old(t).table().len() + 1,
            final(t).table().drop_last() == old(t).table(),
            render_step(
                old(self).root().content,
                full,
                (old(t).queue(), old(self).windows(), old(manager).frames()),
                final(t).table().last(),
                (final(t).queue(), final(self).windows(), final(manager).frames()),
            ),
    {
        match t.peek_work() {
            Some(WorkKind::Root) => self.render_root_piece(manager, t, full),
            Some(WorkKind::Window(_)) => self.render_window_piece(manager, t, full),
            _ => self.render_frame_piece(manager, t, full),
        }
    }

    /// Renders the root, the next piece of work of `t`.
    fn render_root_piece<F: Frame>(&mut self, manager: &mut RootManager<F>, t: &mut RenderTraversal, full: UIRect)
        requires
            old(self).wf(),
            old(t).queue().len() > 0,
            old(t).queue().last() is Root,
        ensures
            final(self).wf(),
            final(self).root().id == old(self).root().id,
            final(self).root().content == old(self).root().content,
            final(self).event_state().current_bound == old(self).event_state().current_bound,
            final(self).event_state().last_mouse_pos == old(self).event_state().last_mouse_pos,
            final(manager).next_id() == old(manager).next_id(),
            final(manager).next_window() == old(manager).next_window(),
            final(t).table().len() == old(t).table().len() + 1,
            final(t).table().drop_last() == old(t).table(),
            render_step(
                old(self).root().content,
                full,
                (old(t).queue(), old(self).windows(), old(manager).frames()),
                final(t).table().last(),
                (final(t).queue(), final(self).windows(), final(manager).frames()),
            ),
    {
        let ghost table0 = t.table();
        let _ = t.next_work();
        let (parent, lookup, frames) = self.render_root(full);
        t.complete(parent, lookup, frames);
        assert(t.table().drop_last() =~= table0);
    }

    /// Renders a window, the next piece of work of `t`.
    fn render_window_piece<F: Frame>(&mut self, manager: &mut RootManager<F>, t: &mut RenderTraversal, full: UIRect)
        requires
            old(self).wf(),
            old(t).queue().len() > 0,
            old(t).queue().last() matches WorkKind::Window(id) && window_renderable(old(self).windows(), id),
        ensures
            final(self).wf(),
            final(self).root().id == old(self).root().id,
            final(self).root().content == old(self).root().content,
            final(self).event_state().current_bound == old(self).event_state().current_bound,
            final(self).event_state().last_mouse_pos == old(self).event_state().last_mouse_pos,
            final(manager).next_id() == old(manager).next_id(),
            final(manager).next_window() == old(manager).next_window(),
            final(t).table().len() == old(t).table().len() + 1,
            final(t).table().drop_last() == old(t).table(),
            render_step(
                old(self).root().content,
                full,
                (old(t).queue(), old(self).windows(), old(manager).frames()),
                final(t).table().last(),
                (final(t).queue(), final(self).windows(), final(manager).frames()),
            ),
    {
        let ghost table0 = t.table();
        if let Some(WorkKind::Window(id)) = t.next_work() {
            let (parent, lookup, frames) = self.render_window(id);
            t.complete(parent, lookup, frames);
        }
        assert(t.table().drop_last() =~= table0);
    }

    /// Renders a frame, the next piece of work of `t`.
    #[verifier::spinoff_prover]
    #[verifier::rlimit(100)]
    fn render_frame_piece<F: Frame>(&mut self, manager: &mut RootManager<F>, t: &mut RenderTraversal, full: UIRect)
        requires
            old(self).wf(),
            old(t).queue().len() > 0,
            old(t).queue().last() is Frame,
            !blocked(old(t).queue(), old(self).windows(), old(manager).frames()),
        ensures
            final(self).wf(),
            final(self).root().id == old(self).root().id,
            final(self).root().content == old(self).root().content,
            final(self).event_state().current_bound == old(self).event_state().current_bound,
            final(self).event_state().last_mouse_pos == old(self).event_state().last_mouse_pos,
            final(manager).next_id() == old(manager).next_id(),
            final(manager).next_window() == old(manager).next_window(),
            final(t).table().len() == old(t).table().len() + 1,
            final(t).table().drop_last() == old(t).table(),
            render_step(
                old(self).root().content,
                full,
                (old(t).queue(), old(self).windows(), old(manager).frames()),
                final(t).table().last(),
                (final(t).queue(), final(self).windows(), final(manager).frames()),
            ),
    {
        let ghost table0 = t.table();
        let ghost q0 = t.queue();
        if let Some(WorkKind::Frame(rect, id)) = t.next_work() {
            let ghost fs0 = manager.frames();
            match manager.take_frame_by_id(id) {
                Some(mut region) => {
                    let sent = UIRect { x: 0, y: 0, w: rect.w, h: rect.h };
                    let ghost taken = manager.frames();
                    let ghost i = first_with_frame_id(fs0, id)->0;
                    proof {
                        lemma_first_with_frame_id(fs0, id);
                    }
                    let held = region.frame.render(sent);
                    assert(region.id == Some(id));
                    assert(region.viewport == fs0[i].viewport);
                    manager.push_frame(region);
                    t.complete(rect, RegionLookupKind::Frame(rect, id), held);
                    proof {
                        assert(manager.frames().drop_last() =~= taken);
                        assert(t.queue() == q0.drop_last() + child_work(rect, held@));
                    }
                },
                None => {
                    let nowhere = UIRect::default();
                    t.complete(nowhere, RegionLookupKind::Nothing, Vec::new());
                    proof {
                        assert(child_work(nowhere, Seq::<(UIRect, FrameId)>::empty()) =~= Seq::<WorkKind>::empty());
                        assert(t.queue() =~= q0.drop_last());
                    }
                },
            }
        }
        assert(t.table().drop_last() =~= table0);
    }

    /// Renders the interface on a screen of `full`: the root, then the windows,
    /// the topmost first, then the frames each holds, taken from `manager`,
    /// rendered and registered again (see `rendered`); the regions rendered
    /// become the ones events are routed through. At most `max_pieces` pieces
    /// are rendered; a window too small for its border, or a frame that cannot
    /// be drawn in its area, stops the render too.
    /// Returns whether the render finished.
    pub fn render_all<F: Frame>(&mut self, manager: &mut RootManager<F>, full: UIRect, max_pieces: usize) -> (done:
        bool)
        requires
            old(self).wf(),
        ensures
            final(self).wf(),
            final(self).root().id == old(self).root().id,
            final(self).root().content == old(self).root().content,
            final(self).event_state().current_bound == old(self).event_state().current_bound,
            final(self).event_state().last_mouse_pos == old(self).event_state().last_mouse_pos,
            final(manager).next_id() == old(manager).next_id(),
            final(manager).next_window() == old(manager).next_window(),
            rendered(
                old(self).root().content,
                full,
                old(self).windows(),
                old(manager).frames(),
                final(self).lookup_table(),
                final(self).windows(),
                final(manager).frames(),
                done,
                max_pieces,
            ),
            max_pieces > 0 ==> final(self).lookup_table().len() > 0 && final(self).lookup_table()[0]
                == RegionLookupKind::Root,
    {
        let ghost content = self.root().content;
        let mut t = self.begin_render();
        let ghost mut states: Seq<RenderState<F>> = seq![(t.queue(), self.windows(), manager.frames())];
        let mut steps: usize = 0;
        let mut done = false;
        let mut stuck = false;
        while steps < max_pieces && !done && !stuck
            invariant
                self.wf(),
                self.root().id == old(self).root().id,
                self.root().content == content,
                content == old(self).root().content,
                self.event_state().current_bound == old(self).event_state().current_bound,
                self.event_state().last_mouse_pos == old(self).event_state().last_mouse_pos,
                manager.next_id() == old(manager).next_id(),
                manager.next_window() == old(manager).next_window(),
                states.len() >= 1,
                states[0] == (initial_work(old(self).windows()), old(self).windows(), old(manager).frames()),
                render_trace(content, full, states, t.table()),
                states.last() == (t.queue(), self.windows(), manager.frames()),
                done ==> t.queue().len() == 0,
                steps <= max_pieces,
                !done && !stuck ==> t.table().len() == steps,
                stuck ==> blocked(t.queue(), self.windows(), manager.frames()),
                steps == 0 ==> t.queue() == initial_work(old(self).windows()) && t.table().len() == 0,
                steps > 0 ==> t.table().len() > 0 && t.table()[0] == RegionLookupKind::Root,
            decreases max_pieces - steps,
        {
            match t.peek_work() {
                None => {
                    done = true;
                },
                Some(WorkKind::Window(id)) if !self.can_render_window(id) => {
                    stuck = true;
                },
                Some(WorkKind::Frame(rect, id)) if !frame_fits(manager, rect, id) => {
                    stuck = true;
                },
                Some(_) => {
                    let ghost table0 = t.table();
                    let ghost old_states = states;
                    let ghost q0 = t.queue();
                    self.render_piece(manager, &mut t, full);
                    proof {
                        if steps == 0 {
                            assert(q0.last() == WorkKind::Root);
                            assert(t.table()[0] == t.table().last());
                        } else {
                            assert(t.table()[0] == t.table().drop_last()[0]);
                        }
                    }
                    proof {
                        lemma_trace_push(content, full, old_states, table0, (t.queue(), self.windows(), manager.frames()), t.table());
                        states = old_states.push((t.queue(), self.windows(), manager.frames()));
                    }
                },
            }
            steps = steps + 1;
        }
        self.end_render(t);
        done
    }
}

/// A trace extended by one more piece is a trace.
proof fn lemma_trace_push<F: Frame>(
    content: FrameId,
    full: UIRect,
    states: Seq<RenderState<F>>,
    lookups: Seq<RegionLookupKind>,
    next: RenderState<F>,
    lookups2: Seq<RegionLookupKind>,
)
    requires
        render_trace(content, full, states, lookups),
        lookups2.len() == lookups.len() + 1,
        lookups2.drop_last() == lookups,
        render_step(content, full, states.last(), lookups2.last(), next),
    ensures
        render_trace(content, full, states.push(next), lookups2),
{
    let s2 = states.push(next);
    assert forall|i: int| 0 <= i < lookups2.len() implies #[trigger] render_step(content, full, s2[i], lookups2[i], s2[i + 1]) by {
        if i < lookups.len() {
            assert(s2[i] == states[i]);
            assert(s2[i + 1] == states[i + 1]);
            assert(lookups2[i] == lookups2.drop_last()[i]);
        } else {
            assert(s2[i] == states.last());
        }
    }
}

} // verus!
