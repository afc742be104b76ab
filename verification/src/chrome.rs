//! Edit chrome. Every control is one rectangle: the pixels we draw are the hit.

use vstd::prelude::*;

use crate::geometry::{
    Point, Pos, Rect, contains, fx, fx_round, rect, rect_contains_fx, round_px,
};

verus! {

pub const HANDLE_W: i32 = 24;
pub const HANDLE_H: i32 = 16;
pub const CLOSE: i32 = 20;
pub const BORDER: i32 = 2;
pub const HOLE_BORDER_W: i32 = 2;
pub const IDLE_BORDER: i32 = 2;
pub const DOT: i32 = 5;

/// What a fill is painted with; the renderer maps each paint to a colour.
#[derive(Clone, Copy, Debug, PartialEq, Eq, Structural)]
pub enum Paint {
    CloseFill,
    HandleFill,
    KnobEdge,
    BorderFill,
    HoleBorder,
    ShadowFill,
    IdleBorderFill,
    DotFill,
    /// An icon tile; the index picks its hue.
    Icon(u32),
}

/// Axis-aligned fill. Submitted in painter order (later draws on top).
#[derive(Clone, Copy, Debug, PartialEq, Eq, Structural)]
pub struct Fill {
    pub rect: Rect,
    pub paint: Paint,
}

#[derive(Clone, Copy, Debug, PartialEq, Eq, Structural)]
pub enum Handle {
    Left,
    Right,
    Top,
    Bottom,
    TopLeft,
    TopRight,
    BottomLeft,
    BottomRight,
}

/// Handles in hit-test order.
pub open spec fn all_handles_spec() -> Seq<Handle> {
    seq![
        Handle::TopLeft,
        Handle::TopRight,
        Handle::BottomLeft,
        Handle::BottomRight,
        Handle::Left,
        Handle::Right,
        Handle::Top,
        Handle::Bottom,
    ]
}

pub open spec fn is_west(h: Handle) -> bool {
    h is Left || h is TopLeft || h is BottomLeft
}

pub open spec fn is_east(h: Handle) -> bool {
    h is Right || h is TopRight || h is BottomRight
}

pub open spec fn is_north(h: Handle) -> bool {
    h is Top || h is TopLeft || h is TopRight
}

pub open spec fn is_south(h: Handle) -> bool {
    h is Bottom || h is BottomLeft || h is BottomRight
}

impl Handle {
    /// Handles in hit-test order: corners first, then edges.
    pub fn all() -> (r: [Handle; 8])
        ensures
            r@ == all_handles_spec(),
    {
        let r = [
            Handle::TopLeft,
            Handle::TopRight,
            Handle::BottomLeft,
            Handle::BottomRight,
            Handle::Left,
            Handle::Right,
            Handle::Top,
            Handle::Bottom,
        ];
        assert(r@ =~= all_handles_spec());
        r
    }

    pub fn west(self) -> (b: bool)
        ensures
            b == is_west(self),
    {
        matches!(self, Handle::Left | Handle::TopLeft | Handle::BottomLeft)
    }

    pub fn east(self) -> (b: bool)
        ensures
            b == is_east(self),
    {
        matches!(self, Handle::Right | Handle::TopRight | Handle::BottomRight)
    }

    pub fn north(self) -> (b: bool)
        ensures
            b == is_north(self),
    {
        matches!(self, Handle::Top | Handle::TopLeft | Handle::TopRight)
    }

    pub fn south(self) -> (b: bool)
        ensures
            b == is_south(self),
    {
        matches!(self, Handle::Bottom | Handle::BottomLeft | Handle::BottomRight)
    }
}

/// A handle is on at most one of the west/east sides and one of north/south,
/// and on at least one side.
pub proof fn lemma_handle_sides(h: Handle)
    ensures
        !(is_west(h) && is_east(h)),
        !(is_north(h) && is_south(h)),
        is_west(h) || is_east(h) || is_north(h) || is_south(h),
{
}

/// Coordinates are far enough from the `i32` limits for every control
/// drawn around the tile.
pub open spec fn tile_safe(t: Rect) -> bool {
    &&& i32::MIN + 64 <= t.x
    &&& t.x + t.w <= i32::MAX - 64
    &&& i32::MIN + 64 <= t.x + t.w
    &&& t.x <= i32::MAX - 64
    &&& i32::MIN + 64 <= t.y
    &&& t.y + t.h <= i32::MAX - 64
    &&& i32::MIN + 64 <= t.y + t.h
    &&& t.y <= i32::MAX - 64
}

/// Anchor of `handle` on `tile`, in fixed-point units.
pub open spec fn anchor_spec(t: Rect, h: Handle) -> Pos {
    let x = fx(t.x as int);
    let y = fx(t.y as int);
    let w = fx(t.w as int);
    let hh = fx(t.h as int);
    match h {
        Handle::Left => Pos { x: x as i64, y: (y + hh / 2) as i64 },
        Handle::Right => Pos { x: (x + w) as i64, y: (y + hh / 2) as i64 },
        Handle::Top => Pos { x: (x + w / 2) as i64, y: y as i64 },
        Handle::Bottom => Pos { x: (x + w / 2) as i64, y: (y + hh) as i64 },
        Handle::TopLeft => Pos { x: x as i64, y: y as i64 },
        Handle::TopRight => Pos { x: (x + w) as i64, y: y as i64 },
        Handle::BottomLeft => Pos { x: x as i64, y: (y + hh) as i64 },
        Handle::BottomRight => Pos { x: (x + w) as i64, y: (y + hh) as i64 },
    }
}

/// Point on the frame that this handle owns. Resize keeps `pointer - anchor`
/// constant so the grabbed pixel of the handle stays under the cursor.
pub fn handle_anchor(tile: Rect, handle: Handle) -> (a: Pos)
    ensures
        a == anchor_spec(tile, handle),
{
    let x = tile.x as i64 * 256;
    let y = tile.y as i64 * 256;
    let w = tile.w as i64 * 256;
    let h = tile.h as i64 * 256;
    match handle {
        Handle::Left => Pos { x, y: y + h / 2 },
        Handle::Right => Pos { x: x + w, y: y + h / 2 },
        Handle::Top => Pos { x: x + w / 2, y },
        Handle::Bottom => Pos { x: x + w / 2, y: y + h },
        Handle::TopLeft => Pos { x, y },
        Handle::TopRight => Pos { x: x + w, y },
        Handle::BottomLeft => Pos { x, y: y + h },
        Handle::BottomRight => Pos { x: x + w, y: y + h },
    }
}

pub open spec fn handle_size_spec(h: Handle) -> (i32, i32) {
    match h {
        Handle::Left | Handle::Right => (HANDLE_H, HANDLE_W),
        Handle::Top | Handle::Bottom => (HANDLE_W, HANDLE_H),
        _ => (HANDLE_W, HANDLE_W),
    }
}

pub fn handle_size(handle: Handle) -> (r: (i32, i32))
    ensures
        r == handle_size_spec(handle),
{
    match handle {
        Handle::Left | Handle::Right => (HANDLE_H, HANDLE_W),
        Handle::Top | Handle::Bottom => (HANDLE_W, HANDLE_H),
        _ => (HANDLE_W, HANDLE_W),
    }
}

pub open spec fn handle_rect_spec(t: Rect, h: Handle) -> Rect {
    let a = anchor_spec(t, h);
    let (w, hh) = handle_size_spec(h);
    Rect {
        x: (fx_round(a.x as int) - w / 2) as i32,
        y: (fx_round(a.y as int) - hh / 2) as i32,
        w,
        h: hh,
    }
}

proof fn lemma_round_between(lo: int, hi: int, v: int)
    requires
        lo <= hi,
        fx(lo) <= v <= fx(hi),
    ensures
        lo <= fx_round(v) <= hi,
{
}

pub fn handle_rect(tile: Rect, handle: Handle) -> (r: Rect)
    requires
        tile_safe(tile),
    ensures
        r == handle_rect_spec(tile, handle),
{
    let a = handle_anchor(tile, handle);
    let (w, h) = handle_size(handle);
    let rx = round_px(a.x);
    let ry = round_px(a.y);
    proof {
        let lox = if tile.x <= tile.x + tile.w { tile.x as int } else { tile.x + tile.w };
        let hix = if tile.x <= tile.x + tile.w { tile.x + tile.w } else { tile.x as int };
        let loy = if tile.y <= tile.y + tile.h { tile.y as int } else { tile.y + tile.h };
        let hiy = if tile.y <= tile.y + tile.h { tile.y + tile.h } else { tile.y as int };
        lemma_round_between(lox, hix, a.x as int);
        lemma_round_between(loy, hiy, a.y as int);
    }
    rect(rx as i32 - w / 2, ry as i32 - h / 2, w, h)
}

pub open spec fn close_rect_spec(t: Rect) -> Rect {
    Rect {
        x: (t.x + t.w - CLOSE - BORDER - 6) as i32,
        y: (t.y + BORDER + 6) as i32,
        w: CLOSE,
        h: CLOSE,
    }
}

pub fn close_rect(tile: Rect) -> (r: Rect)
    requires
        tile_safe(tile),
    ensures
        r == close_rect_spec(tile),
{
    rect(tile.x + tile.w - CLOSE - BORDER - 6, tile.y + BORDER + 6, CLOSE, CLOSE)
}

pub fn hit_close(tile: Rect, pos: Pos) -> (b: bool)
    requires
        tile_safe(tile),
    ensures
        b == rect_contains_fx(close_rect_spec(tile), pos),
{
    contains(close_rect(tile), pos)
}

/// First handle (in hit-test order, from index `i`) whose rectangle holds `pos`.
pub open spec fn hit_handle_from(t: Rect, pos: Pos, i: int) -> Option<Handle>
    decreases 8 - i,
{
    if i < 0 || i >= 8 {
        None
    } else if rect_contains_fx(handle_rect_spec(t, all_handles_spec()[i]), pos) {
        Some(all_handles_spec()[i])
    } else {
        hit_handle_from(t, pos, i + 1)
    }
}

pub fn hit_handle(tile: Rect, pos: Pos) -> (r: Option<Handle>)
    requires
        tile_safe(tile),
    ensures
        r == hit_handle_from(tile, pos, 0),
{
    let all = Handle::all();
    let mut i: usize = 0;
    while i < 8
        invariant
            0 <= i <= 8,
            tile_safe(tile),
            all@ == all_handles_spec(),
            hit_handle_from(tile, pos, 0) == hit_handle_from(tile, pos, i as int),
        decreases 8 - i,
    {
        let h = all[i];
        if contains(handle_rect(tile, h), pos) {
            return Some(h);
        }
        i = i + 1;
    }
    None
}

pub open spec fn knob_spec(r: Rect, paint: Paint) -> Seq<Fill> {
    seq![
        Fill { rect: r, paint: Paint::KnobEdge },
        Fill {
            rect: Rect {
                x: (r.x + 1) as i32,
                y: (r.y + 1) as i32,
                w: (r.w - 2) as i32,
                h: (r.h - 2) as i32,
            },
            paint,
        },
    ]
}

/// Dark 1px ring inside `r`, fill on top. Hit target is `r` itself.
fn knob(r: Rect, paint: Paint, out: &mut Vec<Fill>)
    requires
        i32::MIN + 2 <= r.x <= i32::MAX - 2,
        i32::MIN + 2 <= r.y <= i32::MAX - 2,
        i32::MIN + 2 <= r.w <= i32::MAX - 2,
        i32::MIN + 2 <= r.h <= i32::MAX - 2,
    ensures
        final(out)@ == old(out)@ + knob_spec(r, paint),
{
    out.push(Fill { rect: r, paint: Paint::KnobEdge });
    out.push(Fill { rect: rect(r.x + 1, r.y + 1, r.w - 2, r.h - 2), paint });
    assert(out@ =~= old(out)@ + knob_spec(r, paint));
}

pub open spec fn grid_dot_spec(c: Point) -> Fill {
    Fill {
        rect: Rect { x: (c.x - DOT / 2) as i32, y: (c.y - DOT / 2) as i32, w: DOT, h: DOT },
        paint: Paint::DotFill,
    }
}

pub fn grid_dot(center: Point) -> (f: Fill)
    requires
        i32::MIN + 2 <= center.x,
        i32::MIN + 2 <= center.y,
    ensures
        f == grid_dot_spec(center),
{
    let half = DOT / 2;
    Fill { rect: rect(center.x - half, center.y - half, DOT, DOT), paint: Paint::DotFill }
}

pub open spec fn outside_strips_spec(r: Rect, t: i32) -> Seq<Rect> {
    seq![
        Rect { x: (r.x - t) as i32, y: (r.y - t) as i32, w: (r.w + t * 2) as i32, h: t },
        Rect { x: (r.x - t) as i32, y: (r.y + r.h) as i32, w: (r.w + t * 2) as i32, h: t },
        Rect { x: (r.x - t) as i32, y: r.y, w: t, h: r.h },
        Rect { x: (r.x + r.w) as i32, y: r.y, w: t, h: r.h },
    ]
}

pub open spec fn strips_ok(r: Rect) -> bool {
    &&& tile_safe(r)
    &&& i32::MIN + 8 <= r.w <= i32::MAX - 8
}

fn push_strips(r: Rect, t: i32, paint: Paint, out: &mut Vec<Fill>)
    requires
        strips_ok(r),
        0 <= t <= 2,
    ensures
        final(out)@ == old(out)@ + outside_strips_spec(r, t).map_values(
            |s: Rect| Fill { rect: s, paint },
        ),
{
    out.push(Fill { rect: rect(r.x - t, r.y - t, r.w + t * 2, t), paint });
    out.push(Fill { rect: rect(r.x - t, r.y + r.h, r.w + t * 2, t), paint });
    out.push(Fill { rect: rect(r.x - t, r.y, t, r.h), paint });
    out.push(Fill { rect: rect(r.x + r.w, r.y, t, r.h), paint });
    assert(out@ =~= old(out)@ + outside_strips_spec(r, t).map_values(
        |s: Rect| Fill { rect: s, paint },
    ));
}

pub open spec fn strips_fill(r: Rect, t: i32, paint: Paint) -> Seq<Fill> {
    outside_strips_spec(r, t).map_values(|s: Rect| Fill { rect: s, paint })
}

/// Knobs for every handle, in hit-test order.
pub open spec fn handle_knobs(t: Rect, n: int) -> Seq<Fill>
    decreases n,
{
    if n <= 0 {
        Seq::empty()
    } else {
        handle_knobs(t, n - 1) + knob_spec(
            handle_rect_spec(t, all_handles_spec()[n - 1]),
            Paint::HandleFill,
        )
    }
}

pub open spec fn frame_spec(t: Rect, with_handles: bool, with_close: bool) -> Seq<Fill> {
    strips_fill(t, BORDER, Paint::BorderFill) + (if with_handles {
        handle_knobs(t, 8)
    } else {
        Seq::empty()
    }) + (if with_close {
        knob_spec(close_rect_spec(t), Paint::CloseFill)
    } else {
        Seq::empty()
    })
}

proof fn lemma_handle_rect_small(t: Rect, h: Handle)
    requires
        tile_safe(t),
    ensures
        i32::MIN + 40 <= handle_rect_spec(t, h).x <= i32::MAX - 40,
        i32::MIN + 40 <= handle_rect_spec(t, h).y <= i32::MAX - 40,
        handle_rect_spec(t, h).w == handle_size_spec(h).0,
        handle_rect_spec(t, h).h == handle_size_spec(h).1,
{
    let a = anchor_spec(t, h);
    let lox = if t.x <= t.x + t.w { t.x as int } else { t.x + t.w };
    let hix = if t.x <= t.x + t.w { t.x + t.w } else { t.x as int };
    let loy = if t.y <= t.y + t.h { t.y as int } else { t.y + t.h };
    let hiy = if t.y <= t.y + t.h { t.y + t.h } else { t.y as int };
    lemma_round_between(lox, hix, a.x as int);
    lemma_round_between(loy, hiy, a.y as int);
}

fn frame(tile: Rect, with_handles: bool, with_close: bool, out: &mut Vec<Fill>)
    requires
        strips_ok(tile),
    ensures
        final(out)@ == old(out)@ + frame_spec(tile, with_handles, with_close),
{
    let ghost start = out@;
    push_strips(tile, BORDER, Paint::BorderFill, out);
    let ghost after_strips = out@;
    if with_handles {
        let all = Handle::all();
        let mut i: usize = 0;
        while i < 8
            invariant
                0 <= i <= 8,
                strips_ok(tile),
                all@ == all_handles_spec(),
                out@ == after_strips + handle_knobs(tile, i as int),
            decreases 8 - i,
        {
            proof {
                lemma_handle_rect_small(tile, all@[i as int]);
            }
            let hr = handle_rect(tile, all[i]);
            knob(hr, Paint::HandleFill, out);
            proof {
                assert(out@ =~= after_strips + handle_knobs(tile, i + 1));
            }
            i = i + 1;
        }
    }
    let ghost after_handles = out@;
    if with_close {
        let c = close_rect(tile);
        knob(c, Paint::CloseFill, out);
    }
    assert(out@ =~= start + frame_spec(tile, with_handles, with_close));
}

pub fn hole_overlay(tile: Rect) -> (v: Vec<Fill>)
    requires
        strips_ok(tile),
    ensures
        v@ == strips_fill(tile, HOLE_BORDER_W, Paint::HoleBorder),
{
    let mut out = Vec::new();
    push_strips(tile, HOLE_BORDER_W, Paint::HoleBorder, &mut out);
    assert(out@ =~= strips_fill(tile, HOLE_BORDER_W, Paint::HoleBorder));
    out
}

pub open spec fn lift_overlay_spec(t: Rect) -> Seq<Fill> {
    seq![
        Fill {
            rect: Rect { x: (t.x + 6) as i32, y: (t.y + 10) as i32, w: t.w, h: t.h },
            paint: Paint::ShadowFill,
        },
    ] + frame_spec(t, false, false)
}

pub fn lift_overlay(tile: Rect) -> (v: Vec<Fill>)
    requires
        strips_ok(tile),
    ensures
        v@ == lift_overlay_spec(tile),
{
    let mut out = Vec::new();
    out.push(Fill { rect: rect(tile.x + 6, tile.y + 10, tile.w, tile.h), paint: Paint::ShadowFill });
    frame(tile, false, false, &mut out);
    assert(out@ =~= lift_overlay_spec(tile));
    out
}

pub fn idle_border(tile: Rect) -> (v: Vec<Fill>)
    requires
        strips_ok(tile),
    ensures
        v@ == strips_fill(tile, IDLE_BORDER, Paint::IdleBorderFill),
{
    let mut out = Vec::new();
    push_strips(tile, IDLE_BORDER, Paint::IdleBorderFill, &mut out);
    assert(out@ =~= strips_fill(tile, IDLE_BORDER, Paint::IdleBorderFill));
    out
}

pub fn edit_overlay(tile: Rect, with_handles: bool) -> (v: Vec<Fill>)
    requires
        strips_ok(tile),
    ensures
        v@ == frame_spec(tile, with_handles, true),
{
    let mut out = Vec::new();
    frame(tile, with_handles, true, &mut out);
    assert(out@ =~= frame_spec(tile, with_handles, true));
    out
}

/// The close button is a `CLOSE`-sized square inside the tile's right edge,
/// right of the tile's middle and above its middle, once the tile is wide
/// and tall enough to hold it there.
pub proof fn lemma_close_in_top_right(tile: Rect)
    requires
        tile_safe(tile),
        tile.w >= 57,
        tile.h >= 18,
    ensures
        close_rect_spec(tile).w == CLOSE,
        close_rect_spec(tile).h == CLOSE,
        close_rect_spec(tile).x > tile.x + tile.w / 2,
        close_rect_spec(tile).y < tile.y + tile.h / 2,
        close_rect_spec(tile).x + close_rect_spec(tile).w <= tile.x + tile.w,
{
}

/// Each handle's rectangle has the handle's size, its centre is less than
/// one pixel from the handle's anchor, and a press on the anchor hits a handle.
pub proof fn lemma_handle_rect_centered(tile: Rect, h: Handle)
    requires
        tile_safe(tile),
    ensures
        handle_rect_spec(tile, h).w == handle_size_spec(h).0,
        handle_rect_spec(tile, h).h == handle_size_spec(h).1,
        ({
            let r = handle_rect_spec(tile, h);
            let a = anchor_spec(tile, h);
            let cx2 = fx(2 * r.x + r.w);
            let cy2 = fx(2 * r.y + r.h);
            -512 < cx2 - 2 * a.x < 512 && -512 < cy2 - 2 * a.y < 512
        }),
        rect_contains_fx(handle_rect_spec(tile, h), anchor_spec(tile, h)),
        hit_handle_from(tile, anchor_spec(tile, h), 0) is Some,
{
    lemma_handle_rect_small(tile, h);
    let k = handle_index(h);
    assert(all_handles_spec()[k] == h);
    lemma_hit_some_from(tile, anchor_spec(tile, h), h, 0);
}

spec fn handle_index(h: Handle) -> int {
    match h {
        Handle::TopLeft => 0,
        Handle::TopRight => 1,
        Handle::BottomLeft => 2,
        Handle::BottomRight => 3,
        Handle::Left => 4,
        Handle::Right => 5,
        Handle::Top => 6,
        Handle::Bottom => 7,
    }
}

proof fn lemma_hit_some_from(t: Rect, p: Pos, h: Handle, i: int)
    requires
        tile_safe(t),
        0 <= i <= 8,
        rect_contains_fx(handle_rect_spec(t, h), p),
        exists|k: int| i <= k < 8 && all_handles_spec()[k] == h,
    ensures
        hit_handle_from(t, p, i) is Some,
    decreases 8 - i,
{
    if i < 8 {
        if !rect_contains_fx(handle_rect_spec(t, all_handles_spec()[i]), p) {
            assert(all_handles_spec()[i] != h);
            let k = choose|k: int| i <= k < 8 && all_handles_spec()[k] == h;
            assert(k != i);
            lemma_hit_some_from(t, p, h, i + 1);
        }
    }
}

} // verus!
