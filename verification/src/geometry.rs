//! Integer geometry shared by the homescreen: logical rectangles and
//! pointer positions in Wayland fixed-point units (1/256 of a logical pixel).

use vstd::prelude::*;

verus! {

/// Sub-pixel steps per logical pixel in a pointer position (`wl_fixed`).
pub const FIXED_ONE: i64 = 256;

/// An axis-aligned rectangle in logical pixels: `[x, x + w) × [y, y + h)`.
#[derive(Clone, Copy, Debug, PartialEq, Eq, Structural)]
pub struct Rect {
    pub x: i32,
    pub y: i32,
    pub w: i32,
    pub h: i32,
}

/// A pointer position in 1/256 logical pixels.
#[derive(Clone, Copy, Debug, PartialEq, Eq, Structural)]
pub struct Pos {
    pub x: i64,
    pub y: i64,
}

/// A point in whole logical pixels.
#[derive(Clone, Copy, Debug, PartialEq, Eq, Structural)]
pub struct Point {
    pub x: i32,
    pub y: i32,
}

pub open spec fn is_i32(v: int) -> bool {
    i32::MIN <= v <= i32::MAX
}

/// `v / 256` rounded toward zero (what `as i32` does to a float).
pub open spec fn fx_trunc(v: int) -> int {
    if v >= 0 {
        v / 256
    } else {
        -((-v) / 256)
    }
}

/// `v / 256` rounded to the nearest integer, halves away from zero
/// (what `f64::round` does).
pub open spec fn fx_round(v: int) -> int {
    if v >= 0 {
        (v + 128) / 256
    } else {
        -((-v + 128) / 256)
    }
}

/// Whole pixels as a fixed-point value.
pub open spec fn fx(px: int) -> int {
    px * 256
}

pub open spec fn rect_contains_fx(r: Rect, p: Pos) -> bool {
    &&& p.x >= fx(r.x as int)
    &&& p.x < fx(r.x + r.w)
    &&& p.y >= fx(r.y as int)
    &&& p.y < fx(r.y + r.h)
}

pub open spec fn rect_contains_px(r: Rect, x: int, y: int) -> bool {
    &&& x >= r.x
    &&& x < r.x + r.w
    &&& y >= r.y
    &&& y < r.y + r.h
}

pub fn rect(x: i32, y: i32, w: i32, h: i32) -> (r: Rect)
    ensures
        r == (Rect { x, y, w, h }),
{
    Rect { x, y, w, h }
}

/// Position of a whole-pixel point.
pub fn pos_px(x: i32, y: i32) -> (p: Pos)
    ensures
        p.x == fx(x as int),
        p.y == fx(y as int),
{
    Pos { x: x as i64 * FIXED_ONE, y: y as i64 * FIXED_ONE }
}

/// A fixed-point coordinate truncated toward zero to whole pixels.
pub fn trunc_px(v: i64) -> (r: i64)
    ensures
        r == fx_trunc(v as int),
{
    if v >= 0 {
        v / FIXED_ONE
    } else {
        -((-(v as i128)) / (FIXED_ONE as i128)) as i64
    }
}

/// A fixed-point coordinate rounded to whole pixels, halves away from zero.
pub fn round_px(v: i64) -> (r: i64)
    ensures
        r == fx_round(v as int),
{
    if v >= 0 {
        ((v as i128 + 128) / 256) as i64
    } else {
        -((-(v as i128) + 128) / 256) as i64
    }
}

/// Whether `pos` lies in `r` (the half-open box, sub-pixel exact).
pub fn contains(r: Rect, pos: Pos) -> (b: bool)
    ensures
        b == rect_contains_fx(r, pos),
{
    let x0 = r.x as i64 * FIXED_ONE;
    let y0 = r.y as i64 * FIXED_ONE;
    let x1 = (r.x as i64 + r.w as i64) * FIXED_ONE;
    let y1 = (r.y as i64 + r.h as i64) * FIXED_ONE;
    pos.x >= x0 && pos.x < x1 && pos.y >= y0 && pos.y < y1
}

/// Whether the whole-pixel point `(x, y)` lies in `r`.
pub fn contains_px(r: Rect, x: i64, y: i64) -> (b: bool)
    ensures
        b == rect_contains_px(r, x as int, y as int),
{
    x >= r.x as i64 && x < r.x as i64 + r.w as i64 && y >= r.y as i64 && y < r.y as i64
        + r.h as i64
}

} // verus!
