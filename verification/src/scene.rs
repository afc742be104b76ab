//! What the homescreen paints over its widgets: grid dots while editing or
//! carrying, icon tiles, idle borders, and the overlay of the lifted or
//! selected item.

use vstd::prelude::*;

use crate::chrome::{
    self, Fill, HOLE_BORDER_W, IDLE_BORDER, Paint, frame_spec, grid_dot_spec, lift_overlay_spec,
    strips_fill,
};
use crate::geometry::{Point, Rect};
use crate::grid::GAP;
use crate::home::{
    Home, HomeView, Item, Kind, PX_TERM, cell_spec, lemma_grid_small, lemma_page_diff, lemma_term, pitch_x, pitch_y, width_abs, cells_of_spec, chrome_tile_spec, home_wf,
    item_is_widget, lemma_cell_bounds, lemma_cells_of_in_limits, lemma_rect_of_bounds,
    lift_rect_spec, lifted_spec, rect_in_limits, rect_of_spec, shift_x_spec,
    snapshot_cells_spec,
};
use crate::widgets::page_nearby_spec;

verus! {

/// Centre of the grid dot at gap intersection (`c`, `r`) of the current page.
pub open spec fn dot_center(h: HomeView, c: int, r: int) -> Point {
    let (cw, ch) = cell_spec(h);
    Point {
        x: (GAP / 2 + c * (cw + GAP) + h.pages.current * h.output_w + shift_x_spec(h)) as i32,
        y: (GAP / 2 + r * (ch + GAP)) as i32,
    }
}

/// Row `r` of dots, left to right.
pub open spec fn dot_row(h: HomeView, r: int) -> Seq<Fill> {
    Seq::new((h.columns + 1) as nat, |c: int| grid_dot_spec(dot_center(h, c, r)))
}

/// The first `n` rows of dots, top to bottom.
pub open spec fn dot_rows(h: HomeView, n: int) -> Seq<Fill>
    decreases n,
{
    if n <= 0 {
        Seq::empty()
    } else {
        dot_rows(h, n - 1) + dot_row(h, n - 1)
    }
}

/// Dots at every gap intersection of the current page, `(rows + 1)` rows
/// of `(columns + 1)`.
pub open spec fn grid_dots_spec(h: HomeView) -> Seq<Fill> {
    dot_rows(h, h.rows + 1)
}

/// Icon tiles on or next to the current page, and the lifted icon wherever
/// it is, each painted with its colour.
pub open spec fn icon_fills(h: HomeView, items: Seq<Item>) -> Seq<Fill>
    decreases items.len(),
{
    if items.len() == 0 {
        Seq::empty()
    } else {
        let rest = icon_fills(h, items.drop_last());
        let i = items.last();
        match i.kind {
            Kind::Icon { hue, .. } => if page_nearby_spec(h, i.cells.page) || lifted_spec(h) == Some(
                i.id,
            ) {
                rest.push(Fill { rect: chrome_tile_spec(h, i.id), paint: Paint::Icon(hue) })
            } else {
                rest
            },
            Kind::Widget { .. } => rest,
        }
    }
}

/// Idle borders around the items on or next to the current page, except
/// the lifted and the selected one.
pub open spec fn idle_borders(h: HomeView, items: Seq<Item>) -> Seq<Fill>
    decreases items.len(),
{
    if items.len() == 0 {
        Seq::empty()
    } else {
        let rest = idle_borders(h, items.drop_last());
        let i = items.last();
        if lifted_spec(h) == Some(i.id) || h.selected == Some(i.id) || !page_nearby_spec(
            h,
            i.cells.page,
        ) {
            rest
        } else {
            rest + strips_fill(
                rect_of_spec(h, cells_of_spec(h, i.id)),
                IDLE_BORDER,
                Paint::IdleBorderFill,
            )
        }
    }
}

/// The hole and the lifted tile while carrying, else the edit frame of the
/// selected item while editing.
pub open spec fn overlay_spec(h: HomeView) -> Seq<Fill> {
    match lifted_spec(h) {
        Some(id) => strips_fill(
            rect_of_spec(h, cells_of_spec(h, id)),
            HOLE_BORDER_W,
            Paint::HoleBorder,
        ) + lift_overlay_spec(lift_rect_spec(h, id)),
        None => match h.selected {
            Some(id) => if h.edit {
                frame_spec(chrome_tile_spec(h, id), item_is_widget(h, id), true)
            } else {
                Seq::empty()
            },
            None => Seq::empty(),
        },
    }
}

/// Everything the homescreen paints, bottom to top.
pub open spec fn fills_spec(h: HomeView) -> Seq<Fill> {
    (if h.edit || lifted_spec(h) is Some {
        grid_dots_spec(h)
    } else {
        Seq::empty()
    }) + icon_fills(h, h.items) + (if h.edit {
        idle_borders(h, h.items)
    } else {
        Seq::empty()
    }) + overlay_spec(h)
}

impl Home {
    /// Dots at every gap intersection on the current page.
    fn grid_dots(&self) -> (v: Vec<Fill>)
        requires
            home_wf(self@),
        ensures
            v@ == grid_dots_spec(self@),
    {
        proof {
            lemma_cell_bounds(self@);
        }
        let (cw, ch) = self.cell();
        let cols = self.columns;
        let rows = self.rows;
        let ghost h = self@;
        let cur = self.pages.current as i64;
        let w = self.output_w as i64;
        proof {
            assert(cur * w + (0 - cur) * w == 0) by (nonlinear_arith);
            lemma_grid_small(h);
            lemma_page_diff(cur as int, 0, w as int);
            assert(0 * w == 0) by (nonlinear_arith);
            assert((0 - cur) * w == -(cur * w)) by (nonlinear_arith);
        }
        let origin_x = cur * w + ((0 - cur) * w + self.drag_px as i64);
        let mut out: Vec<Fill> = Vec::new();
        let mut r: u32 = 0;
        while r <= rows
            invariant
                h == self@,
                home_wf(h),
                cols == h.columns,
                rows == h.rows,
                cols <= 0x40_0000,
                rows <= 0x40_0000,
                cw == cell_spec(h).0,
                ch == cell_spec(h).1,
                1 <= cw <= PX_TERM,
                1 <= ch <= PX_TERM,
                origin_x == h.pages.current * h.output_w + shift_x_spec(h),
                -PX_TERM <= origin_x <= PX_TERM,
                0 <= r <= rows + 1,
                out@ == dot_rows(h, r as int),
            decreases rows + 1 - r,
        {
            let mut c: u32 = 0;
            let ghost before = out@;
            while c <= cols
                invariant
                    h == self@,
                    home_wf(h),
                    cols == h.columns,
                    rows == h.rows,
                    cols <= 0x40_0000,
                    rows <= 0x40_0000,
                    cw == cell_spec(h).0,
                    ch == cell_spec(h).1,
                    1 <= cw <= PX_TERM,
                    1 <= ch <= PX_TERM,
                    origin_x == h.pages.current * h.output_w + shift_x_spec(h),
                    -PX_TERM <= origin_x <= PX_TERM,
                    0 <= r <= rows,
                    0 <= c <= cols + 1,
                    before == dot_rows(h, r as int),
                    out@ == before + dot_row(h, r as int).take(c as int),
                decreases cols + 1 - c,
            {
                let ci = c as i64;
                let ri = r as i64;
                proof {
                    lemma_cell_bounds(h);
                    lemma_term(ci as int, cols as int, cw + GAP, PX_TERM as int);
                    lemma_term(ri as int, rows as int, ch + GAP, PX_TERM as int);
                }
                let x = GAP as i64 / 2 + ci * (cw as i64 + GAP as i64) + origin_x;
                let y = GAP as i64 / 2 + ri * (ch as i64 + GAP as i64);
                out.push(chrome::grid_dot(Point { x: x as i32, y: y as i32 }));
                proof {
                    assert(dot_center(h, c as int, r as int) == Point { x: x as i32, y: y as i32 });
                    assert(out@ =~= before + dot_row(h, r as int).take(c + 1));
                }
                c = c + 1;
            }
            proof {
                assert(dot_row(h, r as int).take(c as int) =~= dot_row(h, r as int));
            }
            r = r + 1;
        }
        out
    }

    /// Everything the homescreen paints (see `fills_spec`).
    pub fn fills(&self) -> (v: Vec<Fill>)
        requires
            home_wf(self@),
        ensures
            v@ == fills_spec(self@),
    {
        let ghost h = self@;
        let lifted = self.lifted();
        let mut out: Vec<Fill> = if self.edit || lifted.is_some() {
            self.grid_dots()
        } else {
            Vec::new()
        };
        let ghost base = out@;
        let mut k: usize = 0;
        assert(h.items.take(0) =~= Seq::<Item>::empty());
        while k < self.items.len()
            invariant
                h == self@,
                home_wf(h),
                lifted == lifted_spec(h),
                0 <= k <= h.items.len(),
                out@ == base + icon_fills(h, h.items.take(k as int)),
            decreases h.items.len() - k,
        {
            proof {
                assert(h.items.take(k + 1).drop_last() =~= h.items.take(k as int));
                assert(h.items.take(k + 1).last() == h.items[k as int]);
            }
            let item = &self.items[k];
            match &item.kind {
                Kind::Icon { hue, .. } => {
                    if self.page_nearby(item.cells.page) || lifted == Some(item.id) {
                        let tile = self.chrome_tile(item.id);
                        out.push(Fill { rect: tile, paint: Paint::Icon(*hue) });
                    }
                },
                Kind::Widget { .. } => {},
            }
            proof {
                assert(out@ =~= base + icon_fills(h, h.items.take(k + 1)));
            }
            k = k + 1;
        }
        assert(h.items.take(k as int) =~= h.items);
        let ghost after_icons = out@;
        if self.edit {
            let mut k: usize = 0;
            assert(after_icons + idle_borders(h, h.items.take(0)) =~= after_icons);
            while k < self.items.len()
                invariant
                    h == self@,
                    home_wf(h),
                    lifted == lifted_spec(h),
                    0 <= k <= h.items.len(),
                    out@ == after_icons + idle_borders(h, h.items.take(k as int)),
                decreases h.items.len() - k,
            {
                proof {
                    assert(h.items.take(k + 1).drop_last() =~= h.items.take(k as int));
                    assert(h.items.take(k + 1).last() == h.items[k as int]);
                }
                let id = self.items[k].id;
                if !(lifted == Some(id) || self.selected == Some(id)) && self.page_nearby(
                    self.items[k].cells.page,
                ) {
                    proof {
                        lemma_cells_of_in_limits(h, id);
                        lemma_rect_of_bounds(h, cells_of_spec(h, id));
                    }
                    let mut border = chrome::idle_border(self.item_rect(id));
                    out.append(&mut border);
                }
                proof {
                    assert(out@ =~= after_icons + idle_borders(h, h.items.take(k + 1)));
                }
                k = k + 1;
            }
            assert(h.items.take(k as int) =~= h.items);
        }
        let ghost after_borders = out@;
        match lifted {
            Some(id) => {
                proof {
                    lemma_cells_of_in_limits(h, id);
                    lemma_rect_of_bounds(h, cells_of_spec(h, id));
                    lemma_rect_of_bounds(h, snapshot_cells_spec(h, id));
                }
                let mut hole = chrome::hole_overlay(self.item_rect(id));
                out.append(&mut hole);
                let mut lift = chrome::lift_overlay(self.lift_rect(id));
                out.append(&mut lift);
            },
            None => {
                if self.edit {
                    match self.selected {
                        Some(id) => {
                            let tile = self.chrome_tile(id);
                            let mut frame = chrome::edit_overlay(tile, self.is_widget_item(id));
                            out.append(&mut frame);
                        },
                        None => {},
                    }
                }
            },
        }
        assert(out@ =~= fills_spec(h));
        out
    }
}

} // verus!
