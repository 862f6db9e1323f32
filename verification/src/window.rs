//! A window of the user interface: a bordered, movable, resizable frame with a
//! title bar, holding one content frame.
use vstd::prelude::*;
use crate::frame::{Frame, FrameId, UIRect};

verus! {

pub type WindowId = i32;

/// The mouse events that the interface reacts to, as plain values.
#[derive(Debug, Clone, Copy, PartialEq, Eq, Structural)]
pub enum UiEvent {
    MouseButtonDown { x: i32, y: i32, left: bool },
    MouseButtonUp { x: i32, y: i32 },
    MouseMotion { x: i32, y: i32, xrel: i32, yrel: i32, left: bool },
    MouseWheel { y: i32 },
    Other,
}

/// What dragging the mouse does to a window.
#[derive(Debug, Clone, Copy, PartialEq, Eq, Structural)]
pub enum WindowManipulationKind {
    Move,
    Resize,
    Nothing,
    Close,
}

/// Height of the title bar.
pub const MENU_SIZE: u32 = 25;

/// Width of the border.
pub const BORDER_SIZE: u32 = 4;

/// Whether `(x, y)` lies in the rectangle, left and top edges included, right
/// and bottom edges excluded.
pub open spec fn point_in(r: UIRect, x: i32, y: i32) -> bool {
    r.x <= x < r.x + (r.w as i32) && r.y <= y < r.y + (r.h as i32)
}

/// The title bar of a window of the given size: the top of the window, as high
/// as the title bar and the top border.
pub open spec fn menu_rect_of(size: UIRect) -> UIRect {
    UIRect { x: size.x, y: size.y, w: size.w, h: (MENU_SIZE + BORDER_SIZE) as u32 }
}

/// Whether `(x, y)` lies in the window of the given size, all edges included.
pub open spec fn window_contains(size: UIRect, x: u32, y: u32) -> bool {
    &&& size.x <= (x as i32)
    &&& size.y <= (y as i32)
    &&& size.x + (size.w as i32) >= (x as i32)
    &&& size.y + (size.h as i32) >= (y as i32)
}

/// Whether the tests of `window_contains` stay in the range of 32-bit numbers.
pub open spec fn window_contains_in_range(size: UIRect) -> bool {
    &&& i32::MIN <= size.x + (size.w as i32) <= i32::MAX
    &&& i32::MIN <= size.y + (size.h as i32) <= i32::MAX
}

/// The window after an event: a left click in the title bar starts a move, one
/// elsewhere a resize; dragging with the left button moves the window by the
/// motion, or resizes it, never below its least size.
#[verifier::opaque]
pub open spec fn window_after(w: Window, ev: UiEvent) -> Window {
    match ev {
        UiEvent::MouseButtonDown { x, y, left } => if left {
            Window {
                cur_manipulation: if point_in(menu_rect_of(w.size), x, y) {
                    WindowManipulationKind::Move
                } else {
                    WindowManipulationKind::Resize
                },
                ..w
            }
        } else {
            w
        },
        UiEvent::MouseMotion { xrel, yrel, left, .. } => if left {
            match w.cur_manipulation {
                WindowManipulationKind::Move => Window {
                    size: UIRect { x: (w.size.x + xrel) as i32, y: (w.size.y + yrel) as i32, ..w.size },
                    ..w
                },
                WindowManipulationKind::Resize => Window {
                    size: UIRect {
                        w: max_u32(w.min_width, ((w.size.w as i32) + xrel) as i32 as u32),
                        h: max_u32(w.min_height, ((w.size.h as i32) + yrel) as i32 as u32),
                        ..w.size
                    },
                    ..w
                },
                _ => w,
            }
        } else {
            w
        },
        _ => w,
    }
}

pub open spec fn max_u32(a: u32, b: u32) -> u32 {
    if a >= b {
        a
    } else {
        b
    }
}

/// Whether the window can take the event without leaving the range of the integer types.
pub open spec fn window_event_in_range(w: Window, ev: UiEvent) -> bool {
    match ev {
        UiEvent::MouseButtonDown { left, .. } => left ==> (i32::MIN <= w.size.x + (w.size.w as i32) <= i32::MAX
            && i32::MIN <= w.size.y + 29 <= i32::MAX),
        UiEvent::MouseMotion { xrel, yrel, left, .. } => left ==> match w.cur_manipulation {
            WindowManipulationKind::Move => i32::MIN <= w.size.x + xrel <= i32::MAX && i32::MIN <= w.size.y + yrel
                <= i32::MAX,
            WindowManipulationKind::Resize => i32::MIN <= (w.size.w as i32) + xrel <= i32::MAX && i32::MIN <= (
            w.size.h as i32) + yrel <= i32::MAX,
            _ => true,
        },
        _ => true,
    }
}

/// A window.
#[derive(Debug)]
pub struct Window {
    pub id: WindowId,
    pub no_border: bool,
    pub title: String,
    pub content: FrameId,
    pub size: UIRect,
    pub cur_manipulation: WindowManipulationKind,
    pub min_width: u32,
    pub min_height: u32,
}

impl Window {
    /// An untitled bordered window at (30, 30), of its least size 380 by 175.
    pub fn new(id: WindowId, content: FrameId) -> (r: Self)
        ensures
            r.id == id,
            !r.no_border,
            r.title@ == "Untitled Window"@,
            r.content == content,
            r.size == (UIRect { x: 30, y: 30, w: 380, h: 175 }),
            r.min_width == 380,
            r.min_height == 175,
            r.cur_manipulation == WindowManipulationKind::Nothing,
    {
        Window {
            id: id,
            no_border: false,
            title: "Untitled Window".to_owned(),
            content: content,
            size: UIRect { x: 30, y: 30, w: 380, h: 175 },
            min_width: 380,
            min_height: 175,
            cur_manipulation: WindowManipulationKind::Nothing,
        }
    }

    /// The height of the title bar, the width of the border, and the window's rectangle.
    pub fn get_window_details(&self) -> (r: (u32, u32, UIRect))
        ensures
            r == (MENU_SIZE, BORDER_SIZE, self.size),
    {
        (MENU_SIZE, BORDER_SIZE, self.size)
    }

    /// The rectangle of the title bar.
    pub fn get_menu_rect(&self) -> (r: UIRect)
        ensures
            r == menu_rect_of(self.size),
    {
        let (menu_size, border_size, mut window_rect) = self.get_window_details();
        window_rect.h = menu_size + border_size;
        window_rect
    }

    /// Whether `(x, y)` lies in the window, all edges included.
    pub fn contains(&self, x: u32, y: u32) -> (r: bool)
        requires
            window_contains_in_range(self.size),
        ensures
            r == window_contains(self.size, x, y),
    {
        let (_, _, window_rect) = self.get_window_details();
        window_rect.x <= x as i32 && window_rect.y <= y as i32 && window_rect.x + window_rect.w as i32 >= x as i32
            && window_rect.y + window_rect.h as i32 >= y as i32
    }

    /// Takes in a mouse event (see `window_after`).
    pub fn handle_event(&mut self, event: UiEvent)
        requires
            window_event_in_range(*old(self), event),
        ensures
            *final(self) == window_after(*old(self), event),
    {
        reveal(window_after);
        match event {
            UiEvent::MouseButtonDown { x, y, left } => {
                if left {
                    let menu_rect = self.get_menu_rect();
                    let inside = menu_rect.x <= x && x < menu_rect.x + menu_rect.w as i32 && menu_rect.y <= y && y
                        < menu_rect.y + menu_rect.h as i32;
                    self.cur_manipulation = if inside {
                        WindowManipulationKind::Move
                    } else {
                        WindowManipulationKind::Resize
                    };
                }
            },
            UiEvent::MouseMotion { xrel, yrel, left, .. } => {
                if left {
                    match self.cur_manipulation {
                        WindowManipulationKind::Move => {
                            self.size.x = self.size.x + xrel;
                            self.size.y = self.size.y + yrel;
                        },
                        WindowManipulationKind::Resize => {
                            let w = ((self.size.w as i32) + xrel) as u32;
                            let h = ((self.size.h as i32) + yrel) as u32;
                            self.size.w = if self.min_width >= w { self.min_width } else { w };
                            self.size.h = if self.min_height >= h { self.min_height } else { h };
                        },
                        _ => {},
                    }
                }
            },
            _ => {},
        }
    }

    /// Lays out the window in `size`: it takes `size` as its own; a window
    /// without border gives all of it to its content, a bordered one the inside
    /// of its border under the title bar.
    pub fn render(&mut self, size: UIRect) -> (r: Vec<(UIRect, FrameId)>)
        requires
            !old(self).no_border ==> size.w >= 2 * BORDER_SIZE && size.h >= 2 * BORDER_SIZE + MENU_SIZE,
        ensures
            *final(self) == (Window { size: size, ..*old(self) }),
            r@ == seq![crate::windowmanager::window_layout(*old(self), size)],
    {
        self.size = size;
        if self.no_border {
            vec![(size, self.content)]
        } else {
            let (menu_size, border_size, _) = self.get_window_details();
            let inner_rect = UIRect {
                x: border_size as i32,
                y: (border_size + menu_size) as i32,
                w: (self.size.w - border_size * 2) as u32,
                h: (self.size.h - border_size * 2 - menu_size) as u32,
            };
            vec![(inner_rect, self.content)]
        }
    }
}

impl Window {
    /// Whether the window can take the event (see `window_event_in_range`).
    pub fn event_fits(&self, ev: UiEvent) -> (r: bool)
        ensures
            r == window_event_in_range(*self, ev),
    {
        match ev {
            UiEvent::MouseButtonDown { left, .. } => !left || {
                let a = self.size.x as i64 + (self.size.w as i32) as i64;
                let b = self.size.y as i64 + 29;
                i32::MIN as i64 <= a && a <= i32::MAX as i64 && i32::MIN as i64 <= b && b <= i32::MAX as i64
            },
            UiEvent::MouseMotion { xrel, yrel, left, .. } => !left || match self.cur_manipulation {
                WindowManipulationKind::Move => {
                    let a = self.size.x as i64 + xrel as i64;
                    let b = self.size.y as i64 + yrel as i64;
                    i32::MIN as i64 <= a && a <= i32::MAX as i64 && i32::MIN as i64 <= b && b <= i32::MAX as i64
                },
                WindowManipulationKind::Resize => {
                    let a = (self.size.w as i32) as i64 + xrel as i64;
                    let b = (self.size.h as i32) as i64 + yrel as i64;
                    i32::MIN as i64 <= a && a <= i32::MAX as i64 && i32::MIN as i64 <= b && b <= i32::MAX as i64
                },
                _ => true,
            },
            _ => true,
        }
    }
}

impl Frame for Window {
    /// A bordered window needs room for its border and title bar.
    open spec fn can_render(&self, size: UIRect) -> bool {
        !self.no_border ==> size.w >= 2 * BORDER_SIZE && size.h >= 2 * BORDER_SIZE + MENU_SIZE
    }

    /// Its content, inside its border (see `window_layout`).
    open spec fn layout(&self, size: UIRect) -> Seq<(UIRect, FrameId)> {
        seq![crate::windowmanager::window_layout(*self, size)]
    }

    open spec fn accepts(&self, ev: UiEvent) -> bool {
        window_event_in_range(*self, ev)
    }

    open spec fn after_event(&self, ev: UiEvent) -> Window {
        window_after(*self, ev)
    }

    fn takes(&self, ev: UiEvent) -> (r: bool) {
        self.event_fits(ev)
    }

    /// See `Window::handle_event`.
    fn handle_event(&mut self, ev: UiEvent) {
        Window::handle_event(self, ev)
    }

    fn fits(&self, size: UIRect) -> (r: bool) {
        self.no_border || (size.w >= 2 * BORDER_SIZE && size.h >= 2 * BORDER_SIZE + MENU_SIZE)
    }

    /// See `Window::render`.
    fn render(&mut self, size: UIRect) -> (r: Vec<(UIRect, FrameId)>)
        ensures
            *final(self) == (Window { size: size, ..*old(self) }),
            r@ == seq![crate::windowmanager::window_layout(*old(self), size)],
    {
        Window::render(self, size)
    }
}

} // verus!
