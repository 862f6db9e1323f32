//! Rectangles of the user interface.
use vstd::prelude::*;
use crate::window::UiEvent;

verus! {

pub type FrameId = usize;

/// A frame of the interface: drawn in an area (placed at the origin), it
/// returns the frames it holds, each with its area inside it.
pub trait Frame: Sized {
    /// Whether the frame can be drawn in an area of `size`.
    spec fn can_render(&self, size: UIRect) -> bool;

    /// The frames it holds when drawn in an area of `size`, each with its area.
    spec fn layout(&self, size: UIRect) -> Seq<(UIRect, FrameId)>;

    /// Whether the frame can be drawn in an area of `size`.
    fn fits(&self, size: UIRect) -> (r: bool)
        ensures
            r == self.can_render(size),
    ;

    /// Whether the frame can take event `ev`.
    spec fn accepts(&self, ev: UiEvent) -> bool;

    /// The frame after it took event `ev`.
    spec fn after_event(&self, ev: UiEvent) -> Self;

    /// Whether the frame can take event `ev`.
    fn takes(&self, ev: UiEvent) -> (r: bool)
        ensures
            r == self.accepts(ev),
    ;

    /// Takes event `ev`.
    fn handle_event(&mut self, ev: UiEvent)
        requires
            old(self).accepts(ev),
        ensures
            *final(self) == old(self).after_event(ev),
    ;

    /// Draws the frame in an area of `size`; returns the frames it holds (see
    /// `layout`).
    fn render(&mut self, size: UIRect) -> (r: Vec<(UIRect, FrameId)>)
        requires
            old(self).can_render(size),
        ensures
            r@ == old(self).layout(size),
    ;
}

/// A rectangle on screen: its top left corner, its width and its height.
#[derive(Debug, Clone, Copy, PartialEq, Eq, Structural)]
pub struct UIRect {
    pub x: i32,
    pub y: i32,
    pub w: u32,
    pub h: u32,
}

/// Whether `(x, y)` lies strictly inside the rectangle, its width and height
/// read as 32-bit signed numbers.
pub open spec fn rect_contains(r: UIRect, x: i32, y: i32) -> bool {
    &&& r.x < x
    &&& r.y < y
    &&& r.x + (r.w as i32) > x
    &&& r.y + (r.h as i32) > y
}

/// Whether the test of `rect_contains` stays in the range of 32-bit numbers,
/// as far as it gets before an earlier part fails.
pub open spec fn contains_in_range(r: UIRect, x: i32, y: i32) -> bool {
    &&& (r.x < x && r.y < y) ==> i32::MIN <= r.x + (r.w as i32) <= i32::MAX
    &&& (r.x < x && r.y < y && r.x + (r.w as i32) > x) ==> i32::MIN <= r.y + (r.h as i32) <= i32::MAX
}

impl UIRect {
    pub fn new(x: i32, y: i32, w: u32, h: u32) -> (r: Self)
        ensures
            r == (UIRect { x: x, y: y, w: w, h: h }),
    {
        UIRect { x: x, y: y, w: w, h: h }
    }

    /// The empty rectangle at the origin.
    pub fn default() -> (r: Self)
        ensures
            r == (UIRect { x: 0, y: 0, w: 0, h: 0 }),
    {
        UIRect { x: 0, y: 0, w: 0, h: 0 }
    }

    /// Whether `(x, y)` lies strictly inside the rectangle.
    pub fn contains(&self, x: i32, y: i32) -> (r: bool)
        requires
            contains_in_range(*self, x, y),
        ensures
            r == rect_contains(*self, x, y),
    {
        self.x < x && self.y < y && self.x + self.w as i32 > x && self.y + self.h as i32 > y
    }
}

} // verus!
