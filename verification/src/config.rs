//! The homescreen file model: grid size, widget slots and launcher icons.

use vstd::prelude::*;

use crate::grid::RectCells;

verus! {

#[derive(Debug, Clone)]
pub struct HomeConfig {
    pub columns: u32,
    pub rows: u32,
    pub slots: Vec<SlotConfig>,
    pub icons: Vec<IconConfig>,
}

#[derive(Debug, Clone)]
pub struct SlotConfig {
    pub page: u32,
    pub col: u32,
    pub row: u32,
    pub col_span: u32,
    pub row_span: u32,
    pub command: String,
}

#[derive(Debug, Clone)]
pub struct IconConfig {
    pub page: u32,
    pub col: u32,
    pub row: u32,
    pub desktop: String,
}

/// A slot as plain values.
pub struct SlotView {
    pub page: u32,
    pub col: u32,
    pub row: u32,
    pub col_span: u32,
    pub row_span: u32,
    pub command: Seq<char>,
}

/// An icon as plain values.
pub struct IconView {
    pub page: u32,
    pub col: u32,
    pub row: u32,
    pub desktop: Seq<char>,
}

/// A configuration as plain values.
pub struct HomeConfigView {
    pub columns: u32,
    pub rows: u32,
    pub slots: Seq<SlotView>,
    pub icons: Seq<IconView>,
}

impl View for SlotConfig {
    type V = SlotView;

    open spec fn view(&self) -> SlotView {
        SlotView {
            page: self.page,
            col: self.col,
            row: self.row,
            col_span: self.col_span,
            row_span: self.row_span,
            command: self.command@,
        }
    }
}

impl View for IconConfig {
    type V = IconView;

    open spec fn view(&self) -> IconView {
        IconView { page: self.page, col: self.col, row: self.row, desktop: self.desktop@ }
    }
}

impl View for HomeConfig {
    type V = HomeConfigView;

    open spec fn view(&self) -> HomeConfigView {
        HomeConfigView {
            columns: self.columns,
            rows: self.rows,
            slots: self.slots@.map_values(|s: SlotConfig| s@),
            icons: self.icons@.map_values(|i: IconConfig| i@),
        }
    }
}

/// Grid columns when the file names none.
pub fn default_columns() -> (r: u32)
    ensures
        r == 4,
{
    4
}

/// Grid rows when the file names none.
pub fn default_rows() -> (r: u32)
    ensures
        r == 6,
{
    6
}

/// Slot span when the file names none.
pub fn default_span() -> (r: u32)
    ensures
        r == 1,
{
    1
}

fn slot(page: u32, col: u32, row: u32, col_span: u32, row_span: u32, command: &str) -> (s:
    SlotConfig)
    ensures
        s@ == (SlotView { page, col, row, col_span, row_span, command: command@ }),
{
    SlotConfig { page, col, row, col_span, row_span, command: String::from_str(command) }
}

/// The checked-in layout: a 4 × 6 grid with two widgets on the first page,
/// one on the second, and one launcher icon.
pub open spec fn default_config_view() -> HomeConfigView {
    HomeConfigView {
        columns: 4,
        rows: 6,
        slots: seq![
            SlotView {
                page: 0,
                col: 0,
                row: 0,
                col_span: 2,
                row_span: 2,
                command: "weston-simple-egl"@,
            },
            SlotView {
                page: 0,
                col: 2,
                row: 0,
                col_span: 2,
                row_span: 2,
                command: "weston-simple-shm"@,
            },
            SlotView {
                page: 1,
                col: 0,
                row: 0,
                col_span: 2,
                row_span: 2,
                command: "weston-simple-shm"@,
            },
        ],
        icons: seq![
            IconView {
                page: 0,
                col: 0,
                row: 4,
                desktop: "/usr/share/applications/org.gtk.Demo4.desktop"@,
            },
        ],
    }
}

impl Default for HomeConfig {
    fn default() -> (c: Self)
        ensures
            c@ == default_config_view(),
    {
        let mut slots = Vec::new();
        slots.push(slot(0, 0, 0, 2, 2, "weston-simple-egl"));
        slots.push(slot(0, 2, 0, 2, 2, "weston-simple-shm"));
        slots.push(slot(1, 0, 0, 2, 2, "weston-simple-shm"));
        let mut icons = Vec::new();
        icons.push(
            IconConfig {
                page: 0,
                col: 0,
                row: 4,
                desktop: String::from_str("/usr/share/applications/org.gtk.Demo4.desktop"),
            },
        );
        let c = HomeConfig { columns: 4, rows: 6, slots, icons };
        assert(c@.slots =~= default_config_view().slots);
        assert(c@.icons =~= default_config_view().icons);
        c
    }
}

pub open spec fn max1(v: u32) -> u32 {
    if v >= 1 {
        v
    } else {
        1
    }
}

pub open spec fn slot_cells(s: SlotView) -> RectCells {
    RectCells {
        page: s.page,
        col: s.col,
        row: s.row,
        col_span: max1(s.col_span),
        row_span: max1(s.row_span),
    }
}

pub open spec fn icon_cells(i: IconView) -> RectCells {
    RectCells { page: i.page, col: i.col, row: i.row, col_span: 1, row_span: 1 }
}

/// Cells of a widget slot; spans are at least one cell.
pub fn cells_of_slot(slot: &SlotConfig) -> (c: RectCells)
    ensures
        c == slot_cells(slot@),
{
    RectCells {
        page: slot.page,
        col: slot.col,
        row: slot.row,
        col_span: if slot.col_span >= 1 {
            slot.col_span
        } else {
            1
        },
        row_span: if slot.row_span >= 1 {
            slot.row_span
        } else {
            1
        },
    }
}

/// Cells of an icon: always one cell.
pub fn cells_of_icon(icon: &IconConfig) -> (c: RectCells)
    ensures
        c == icon_cells(icon@),
{
    RectCells { page: icon.page, col: icon.col, row: icon.row, col_span: 1, row_span: 1 }
}

pub open spec fn slot_eq(a: SlotView, b: SlotView) -> bool {
    &&& a.page == b.page
    &&& a.col == b.col
    &&& a.row == b.row
    &&& a.col_span == b.col_span
    &&& a.row_span == b.row_span
    &&& a.command == b.command
}

pub open spec fn icon_eq(a: IconView, b: IconView) -> bool {
    &&& a.page == b.page
    &&& a.col == b.col
    &&& a.row == b.row
    &&& a.desktop == b.desktop
}

/// Same grid, same slots and same icons, in the same order.
pub open spec fn config_eq(a: HomeConfigView, b: HomeConfigView) -> bool {
    &&& a.columns == b.columns
    &&& a.rows == b.rows
    &&& a.slots.len() == b.slots.len()
    &&& a.icons.len() == b.icons.len()
    &&& forall|i: int| 0 <= i < a.slots.len() ==> slot_eq(#[trigger] a.slots[i], b.slots[i])
    &&& forall|i: int| 0 <= i < a.icons.len() ==> icon_eq(#[trigger] a.icons[i], b.icons[i])
}

/// Field-by-field equality of two configurations.
pub fn same_config(a: &HomeConfig, b: &HomeConfig) -> (r: bool)
    ensures
        r == config_eq(a@, b@),
{
    if a.columns != b.columns || a.rows != b.rows || a.slots.len() != b.slots.len()
        || a.icons.len() != b.icons.len() {
        return false;
    }
    let mut i: usize = 0;
    while i < a.slots.len()
        invariant
            0 <= i <= a.slots@.len(),
            a.slots@.len() == b.slots@.len(),
            forall|k: int| 0 <= k < i ==> slot_eq(#[trigger] a@.slots[k], b@.slots[k]),
        decreases a.slots@.len() - i,
    {
        let x = &a.slots[i];
        let y = &b.slots[i];
        if !(x.page == y.page && x.col == y.col && x.row == y.row && x.col_span == y.col_span
            && x.row_span == y.row_span && x.command == y.command) {
            assert(!slot_eq(a@.slots[i as int], b@.slots[i as int]));
            return false;
        }
        i = i + 1;
    }
    let mut i: usize = 0;
    while i < a.icons.len()
        invariant
            0 <= i <= a.icons@.len(),
            a.icons@.len() == b.icons@.len(),
            forall|k: int| 0 <= k < i ==> icon_eq(#[trigger] a@.icons[k], b@.icons[k]),
        decreases a.icons@.len() - i,
    {
        let x = &a.icons[i];
        let y = &b.icons[i];
        if !(x.page == y.page && x.col == y.col && x.row == y.row && x.desktop == y.desktop) {
            assert(!icon_eq(a@.icons[i as int], b@.icons[i as int]));
            return false;
        }
        i = i + 1;
    }
    true
}

/// `rel` placed under `base` the way `Path::join` places a relative path:
/// after one `/`, none added when `base` is empty or already ends in one.
pub open spec fn join_spec(base: Seq<char>, rel: Seq<char>) -> Seq<char> {
    if base.len() == 0 {
        rel
    } else if base.last() == '/' {
        base + rel
    } else {
        base + seq!['/'] + rel
    }
}

pub open spec fn opt_view(o: Option<&str>) -> Option<Seq<char>> {
    match o {
        Some(s) => Some(s@),
        None => None,
    }
}

/// Where the layout file lives: `explicit` (the `MECHANIX_HOME_CONFIG`
/// override) if given; else `mechanix/homescreen.toml` under the XDG config
/// directory, which is `xdg` (`XDG_CONFIG_HOME`) if set, else `.config`
/// under `home` (`HOME`), else the working directory.
pub open spec fn config_path_spec(
    explicit: Option<Seq<char>>,
    xdg: Option<Seq<char>>,
    home: Option<Seq<char>>,
) -> Seq<char> {
    match explicit {
        Some(p) => p,
        None => {
            let base = match xdg {
                Some(x) => x,
                None => match home {
                    Some(h) => join_spec(h, ".config"@),
                    None => "."@,
                },
            };
            join_spec(base, "mechanix/homescreen.toml"@)
        },
    }
}

fn join(base: &str, rel: &str) -> (r: String)
    ensures
        r@ == join_spec(base@, rel@),
{
    let chars = crate::text::to_chars(base);
    let mut out = String::from_str(base);
    if chars.len() > 0 && chars[chars.len() - 1] != '/' {
        proof {
            reveal_strlit("/");
        }
        out.append("/");
    }
    out.append(rel);
    proof {
        if base@.len() == 0 {
            assert(out@ =~= rel@);
        }
    }
    out
}

/// The layout file's path from the three settings that choose it (see
/// `config_path_spec`); the caller reads them from the environment.
pub fn config_path(explicit: Option<&str>, xdg: Option<&str>, home: Option<&str>) -> (r: String)
    ensures
        r@ == config_path_spec(opt_view(explicit), opt_view(xdg), opt_view(home)),
{
    proof {
        reveal_strlit(".config");
        reveal_strlit(".");
        reveal_strlit("mechanix/homescreen.toml");
    }
    match explicit {
        Some(p) => String::from_str(p),
        None => {
            let base = match xdg {
                Some(x) => String::from_str(x),
                None => match home {
                    Some(h) => join(h, ".config"),
                    None => String::from_str("."),
                },
            };
            join(base.as_str(), "mechanix/homescreen.toml")
        },
    }
}

} // verus!
