//! Which part of the tile grid a window of a given size shows.
use vstd::prelude::*;

verus! {

#[derive(Debug, Clone, Copy, PartialEq, Eq, Structural)]
pub struct Point {
    pub x: i64,
    pub y: i64,
}

impl Point {
    pub fn empty() -> (r: Self)
        ensures
            r == (Point { x: 0, y: 0 }),
    {
        Point { x: 0, y: 0 }
    }
}

#[derive(Debug, Clone, Copy, PartialEq, Eq, Structural)]
pub struct Rect {
    pub x: i64,
    pub y: i64,
    pub w: u64,
    pub h: u64,
}

impl Rect {
    pub fn empty() -> (r: Self)
        ensures
            r == (Rect { x: 0, y: 0, w: 0, h: 0 }),
    {
        Rect { x: 0, y: 0, w: 0, h: 0 }
    }
}

#[derive(Debug, Clone, Copy, PartialEq, Eq, Structural)]
pub struct Sized {
    pub w: u64,
    pub h: u64,
}

impl Sized {
    pub fn empty() -> (r: Self)
        ensures
            r == (Sized { w: 0, h: 0 }),
    {
        Sized { w: 0, h: 0 }
    }
}

/// What to draw: the region of the grid in view.
#[allow(non_snake_case)]
#[derive(Debug, Clone, Copy, PartialEq, Eq, Structural)]
pub struct RenderParams {
    pub GridRegion: Rect,
}

/// The region of the grid that a window shows: as many tiles as the window
/// holds at the zoom, centred on the focus.
pub open spec fn grid_region(focus: Point, window: Sized, zoom: u64) -> Rect {
    let grid_w = window.w / zoom;
    let grid_h = window.h / zoom;
    Rect { x: (focus.x - grid_w / 2) as i64, y: (focus.y - grid_h / 2) as i64, w: grid_w, h: grid_h }
}

/// A view of the grid: where it is centred, the window size, and the zoom.
#[derive(Debug)]
pub struct Viewport {
    focus: Point,
    window: Sized,
    zoom: u64,
}

impl Viewport {
    pub closed spec fn focus(&self) -> Point {
        self.focus
    }

    pub closed spec fn window(&self) -> Sized {
        self.window
    }

    pub closed spec fn zoom(&self) -> u64 {
        self.zoom
    }

    /// The zoom is never zero.
    pub closed spec fn wf(&self) -> bool {
        self.zoom >= 1
    }

    /// A view centred on the origin, of an empty window, at zoom 1.
    pub fn new() -> (r: Self)
        ensures
            r.wf(),
            r.focus() == (Point { x: 0, y: 0 }),
            r.window() == (Sized { w: 0, h: 0 }),
            r.zoom() == 1,
    {
        Viewport { focus: Point::empty(), window: Sized::empty(), zoom: 1 }
    }

    pub fn set_window_size(&mut self, w: u64, h: u64)
        ensures
            final(self).window() == (Sized { w: w, h: h }),
            final(self).focus() == old(self).focus(),
            final(self).zoom() == old(self).zoom(),
            old(self).wf() ==> final(self).wf(),
    {
        self.window.w = w;
        self.window.h = h;
    }

    /// The region of the grid in view (see `grid_region`).
    pub fn get_render_params(&self) -> (r: RenderParams)
        requires
            self.wf(),
            i64::MIN <= self.focus().x - (self.window().w / self.zoom()) / 2,
            i64::MIN <= self.focus().y - (self.window().h / self.zoom()) / 2,
        ensures
            r.GridRegion == grid_region(self.focus(), self.window(), self.zoom()),
    {
        let grid_w = self.window.w / self.zoom;
        let grid_h = self.window.h / self.zoom;
        RenderParams {
            GridRegion: Rect {
                x: self.focus.x - ((grid_w / 2) as i64),
                y: self.focus.y - ((grid_h / 2) as i64),
                w: grid_w,
                h: grid_h,
            },
        }
    }
}

} // verus!
