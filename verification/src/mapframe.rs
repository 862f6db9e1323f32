//! Where a map frame draws its tiles: which tiles fill the frame around the
//! focused one, and the screen rectangle of each tile.
use vstd::prelude::*;
use crate::frame::UIRect;
use crate::structs::Position;

verus! {

/// The tiles a map frame shows, from `start_tile` to `end_tile`, and the shift
/// that puts the focused tile in the middle of the frame.
#[derive(Debug, Clone, Copy, PartialEq, Eq, Structural)]
pub struct MapFrameLayout {
    pub start_tile: Position,
    pub end_tile: Position,
    pub recenter_x: i32,
    pub recenter_y: i32,
}

/// How many tiles, half of them on each side of the focused one, fill a
/// length of `len` pixels with tiles `tile_size` wide: those that fit, and four more.
pub open spec fn tiles_across(len: u32, tile_size: u32) -> int {
    (len / tile_size) as int + 4
}

/// Half a tile, as the map frame computes it: the tile size read as an `i32`,
/// halved toward zero.
pub open spec fn half_tile(tile_size: u32) -> int {
    let v = (tile_size as i32) as int;
    if v >= 0 {
        v / 2
    } else {
        -((-v) / 2)
    }
}

/// The shift along one axis: the frame's corner, half a tile, and the distance
/// of the focused tile from the first one shown, less half the frame (the last
/// cut to 32 bits).
pub open spec fn recenter_spec(origin: i32, len: u32, tile_size: u32) -> int {
    -origin + (-half_tile(tile_size)) + ((tiles_across(len, tile_size) / 2) * tile_size - (len / 2) as int) as i32
}

/// The layout of a frame at `window`, for tiles `tile_size` pixels wide, with
/// the focused tile at `(x_tile, y_tile)`; positions and shifts wrap around
/// the range of their integer types.
pub open spec fn layout_spec(window: UIRect, tile_size: u32, x_tile: i64, y_tile: i64) -> MapFrameLayout {
    let mx = tiles_across(window.w, tile_size);
    let my = tiles_across(window.h, tile_size);
    MapFrameLayout {
        start_tile: Position { x: (x_tile - mx / 2) as i64, y: (y_tile - my / 2) as i64 },
        end_tile: Position { x: (x_tile + mx / 2) as i64, y: (y_tile + my / 2) as i64 },
        recenter_x: recenter_spec(window.x, window.w, tile_size) as i32,
        recenter_y: recenter_spec(window.y, window.h, tile_size) as i32,
    }
}

/// Where the tile at `t` is drawn: one tile left and up of its place counted
/// from the first tile shown, shifted by the layout and by the pixel offsets
/// of the focus within its tile; the coordinates wrap around the range of `i32`.
pub open spec fn tile_rect_spec(l: MapFrameLayout, t: Position, tile_size: u32, x_pixels: i64, y_pixels: i64) -> UIRect {
    UIRect {
        x: (-l.recenter_x + (((t.x - 1) - l.start_tile.x) * tile_size) as i32 - (x_pixels as i32)) as i32,
        y: (-l.recenter_y + (((t.y - 1) - l.start_tile.y) * tile_size) as i32 - (y_pixels as i32)) as i32,
        w: tile_size,
        h: tile_size,
    }
}

/// The value of `v` cut to 32 bits, as `as i32` does.
fn cut_i32(v: i128) -> (r: i128)
    ensures
        r == v as i32,
{
    (v as i32) as i128
}

/// The value of `v` cut to 64 bits, as `as i64` does.
fn cut_i64(v: i128) -> (r: i128)
    ensures
        r == v as i64,
{
    (v as i64) as i128
}

/// Half a tile (see `half_tile`).
fn half_of(tile_size: u32) -> (r: i128)
    ensures
        r == half_tile(tile_size),
{
    let v = (tile_size as i32) as i128;
    if v >= 0 {
        v / 2
    } else {
        -((-v) / 2)
    }
}

/// The shift along one axis (see `recenter_spec`), cut to 32 bits.
fn recenter(origin: i32, len: u32, tile_size: u32) -> (r: i32)
    requires
        tile_size > 0,
    ensures
        r == recenter_spec(origin, len, tile_size) as i32,
{
    let m: i128 = (len / tile_size) as i128 + 4;
    assert(m == tiles_across(len, tile_size));
    assert(0 <= (m / 2) * (tile_size as i128) <= 0x1_0000_0000 * 0x1_0000_0000) by (nonlinear_arith)
        requires
            0 <= m <= 0x1_0000_0004,
            0 < tile_size <= 0xffff_ffff,
    ;
    let d = cut_i32((m / 2) * (tile_size as i128) - (len / 2) as i128);
    let v = -(origin as i128) + -half_of(tile_size) + d;
    cut_i32(v) as i32
}

/// The layout of a frame at `window`, given the render offsets of its viewport:
/// the tile size in pixels and the focused tile.
pub fn map_frame_layout(window: UIRect, tile_size: u32, x_tile: i64, y_tile: i64) -> (r: MapFrameLayout)
    requires
        tile_size > 0,
    ensures
        r == layout_spec(window, tile_size, x_tile, y_tile),
{
    let mx: i128 = (window.w / tile_size) as i128 + 4;
    let my: i128 = (window.h / tile_size) as i128 + 4;
    assert(mx == tiles_across(window.w, tile_size));
    assert(my == tiles_across(window.h, tile_size));
    let start_tile = Position {
        x: cut_i64(x_tile as i128 - mx / 2) as i64,
        y: cut_i64(y_tile as i128 - my / 2) as i64,
    };
    let end_tile = Position {
        x: cut_i64(x_tile as i128 + mx / 2) as i64,
        y: cut_i64(y_tile as i128 + my / 2) as i64,
    };
    MapFrameLayout {
        start_tile: start_tile,
        end_tile: end_tile,
        recenter_x: recenter(window.x, window.w, tile_size),
        recenter_y: recenter(window.y, window.h, tile_size),
    }
}

/// One coordinate of a tile's rectangle (see `tile_rect_spec`).
fn tile_coord(recenter: i32, t: i64, start: i64, tile_size: u32, pixels: i64) -> (r: i32)
    ensures
        r == (-recenter + (((t - 1) - start) * tile_size) as i32 - (pixels as i32)) as i32,
{
    let e: i128 = (t as i128 - 1) - start as i128;
    assert(-0x1_0000_0000_0000_0000 * 0x1_0000_0000 <= e * (tile_size as i128) <= 0x1_0000_0000_0000_0000
        * 0x1_0000_0000) by (nonlinear_arith)
        requires
            -0x1_0000_0000_0000_0000 <= e <= 0x1_0000_0000_0000_0000,
            0 <= tile_size <= 0x1_0000_0000,
    ;
    let v = -(recenter as i128) + cut_i32(e * (tile_size as i128)) - cut_i32(pixels as i128);
    cut_i32(v) as i32
}

/// Where the tile at `t` is drawn in a frame with layout `l`.
pub fn tile_rect(l: &MapFrameLayout, t: Position, tile_size: u32, x_pixels: i64, y_pixels: i64) -> (r: UIRect)
    ensures
        r == tile_rect_spec(*l, t, tile_size, x_pixels, y_pixels),
{
    UIRect {
        x: tile_coord(l.recenter_x, t.x, l.start_tile.x, tile_size, x_pixels),
        y: tile_coord(l.recenter_y, t.y, l.start_tile.y, tile_size, y_pixels),
        w: tile_size,
        h: tile_size,
    }
}

} // verus!
