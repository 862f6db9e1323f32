//! A bordered window with a title bar around a content frame.
use vstd::prelude::*;
use crate::frame::UIRect;
use crate::window::{window_contains, window_contains_in_range, MENU_SIZE, BORDER_SIZE};

verus! {

/// Something that can stand in a window.
pub trait WindowElement {
}

/// A window: its title, where it stands, and the size of its content area.
/// `content` is what it shows.
pub struct Windowframe<C> {
    pub no_border: bool,
    pub title: String,
    pub content: C,
    pub position: (u32, u32),
    pub inner_size: (u32, u32),
}

/// The area a window covers: its content area with the border around it and
/// the title bar above it.
pub open spec fn frame_rect(position: (u32, u32), inner_size: (u32, u32)) -> UIRect {
    UIRect {
        x: position.0 as i32,
        y: position.1 as i32,
        w: (inner_size.0 + 2 * BORDER_SIZE) as u32,
        h: (inner_size.1 + 2 * BORDER_SIZE + MENU_SIZE) as u32,
    }
}

/// The content area of a window: inside the border, below the title bar.
pub open spec fn content_rect(position: (u32, u32), inner_size: (u32, u32)) -> UIRect {
    UIRect {
        x: (position.0 + BORDER_SIZE) as i32,
        y: (position.1 + BORDER_SIZE + MENU_SIZE) as i32,
        w: inner_size.0,
        h: inner_size.1,
    }
}

/// Whether the size of the window fits a rectangle: its width and height, with
/// the border and the title bar, are positive 32-bit numbers.
pub open spec fn frame_size_ok(inner_size: (u32, u32)) -> bool {
    &&& inner_size.0 + 2 * BORDER_SIZE <= i32::MAX
    &&& inner_size.1 + 2 * BORDER_SIZE + MENU_SIZE <= i32::MAX
}

/// Whether the window's size fits a rectangle, and the sums that `contains`
/// computes stay in range.
pub open spec fn frame_ok(position: (u32, u32), inner_size: (u32, u32)) -> bool {
    frame_size_ok(inner_size) && window_contains_in_range(frame_rect(position, inner_size))
}

impl<C> Windowframe<C> {
    /// An untitled bordered window at (30, 30) with a content area of 380 by 175.
    pub fn new(content: C) -> (r: Self)
        ensures
            r.no_border == false,
            r.title@ == "Untitled Window"@,
            r.content == content,
            r.position == (30u32, 30u32),
            r.inner_size == (380u32, 175u32),
    {
        Windowframe {
            no_border: false,
            title: "Untitled Window".to_string(),
            content: content,
            inner_size: (380, 175),
            position: (30, 30),
        }
    }

    /// The height of the title bar, the width of the border, and the area the
    /// window covers.
    pub fn get_window_details(&self) -> (r: (u32, u32, UIRect))
        requires
            frame_size_ok(self.inner_size),
        ensures
            r == (MENU_SIZE, BORDER_SIZE, frame_rect(self.position, self.inner_size)),
    {
        let menu_size: u32 = MENU_SIZE;
        let border_size: u32 = BORDER_SIZE;
        let window_rect = UIRect {
            x: self.position.0 as i32,
            y: self.position.1 as i32,
            w: self.inner_size.0 + border_size * 2,
            h: self.inner_size.1 + border_size * 2 + menu_size,
        };
        (menu_size, border_size, window_rect)
    }

    /// Where a render draws: for a bordered window, the area it covers, which
    /// is filled, and the content area, in which the content draws; `None` for
    /// a window without border, whose content draws where it stands.
    pub fn render_areas(&self) -> (r: Option<(UIRect, UIRect)>)
        requires
            !self.no_border ==> frame_size_ok(self.inner_size),
            !self.no_border ==> self.position.0 + BORDER_SIZE <= u32::MAX,
            !self.no_border ==> self.position.1 + BORDER_SIZE + MENU_SIZE <= u32::MAX,
        ensures
            self.no_border ==> r is None,
            !self.no_border ==> r == Some(
                (frame_rect(self.position, self.inner_size), content_rect(self.position, self.inner_size)),
            ),
    {
        if self.no_border {
            None
        } else {
            let (menu_size, border_size, window_rect) = self.get_window_details();
            let inner_rect = UIRect {
                x: (self.position.0 + border_size) as i32,
                y: (self.position.1 + border_size + menu_size) as i32,
                w: self.inner_size.0,
                h: self.inner_size.1,
            };
            Some((window_rect, inner_rect))
        }
    }

    /// Whether `(x, y)` lies in the area the window covers, edges included.
    pub fn contains(&self, x: u32, y: u32) -> (r: bool)
        requires
            frame_ok(self.position, self.inner_size),
        ensures
            r == window_contains(frame_rect(self.position, self.inner_size), x, y),
    {
        let (_, _, window_rect) = self.get_window_details();
        window_rect.x <= x as i32 && window_rect.y <= y as i32 && window_rect.x + window_rect.w as i32
            >= x as i32 && window_rect.y + window_rect.h as i32 >= y as i32
    }
}

} // verus!
