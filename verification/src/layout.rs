//! The parts of an architecture that the device grid is built from: its tiles,
//! its layouts and their grid-location rules, with what each rule does to a grid.
use vstd::prelude::*;
use crate::grid::{GridModel, place_named, tile_size_of};
use crate::grid_expr::{outcome_value, spec_eval_grid_expr};
use crate::pb_type::PBType;
use crate::primitive::Model;

verus! {

/// A tile type: its name and its size in grid cells.
pub struct Tile {
    pub name: String,
    pub width: usize,
    pub height: usize,
    pub sub_tiles: Vec<SubTile>,
}

/// A sub-tile of a tile: the complex blocks (equivalent sites) that may sit in it.
pub struct SubTile {
    pub name: String,
    pub capacity: usize,
    pub equivalent_sites: Vec<EquivalentSite>,
}

/// A complex block that a sub-tile may hold.
pub struct EquivalentSite {
    pub pb_type: String,
}

/// Fill the whole grid with a tile.
pub struct FillGridLocation {
    pub pb_type: String,
    pub priority: i32,
}

/// Place a tile along the four edges of the grid.
pub struct PerimeterGridLocation {
    pub pb_type: String,
    pub priority: i32,
}

/// Place a tile in the four corners of the grid.
pub struct CornersGridLocation {
    pub pb_type: String,
    pub priority: i32,
}

/// Place a tile once, at `(x, y)`.
pub struct SingleGridLocation {
    pub pb_type: String,
    pub priority: i32,
    pub x_expr: String,
    pub y_expr: String,
}

/// Place a tile in columns: from `start_x` every `repeat_x` columns, and in each
/// from `start_y` every `incr_y` rows.
pub struct ColGridLocation {
    pub pb_type: String,
    pub priority: i32,
    pub start_x_expr: String,
    pub repeat_x_expr: Option<String>,
    pub start_y_expr: String,
    pub incr_y_expr: String,
}

/// Place a tile in rows: from `start_y` every `repeat_y` rows, and in each from
/// `start_x` every `incr_x` columns.
pub struct RowGridLocation {
    pub pb_type: String,
    pub priority: i32,
    pub start_x_expr: String,
    pub incr_x_expr: String,
    pub start_y_expr: String,
    pub repeat_y_expr: Option<String>,
}

/// Place a tile over a region, every `incr_x` columns and `incr_y` rows.
pub struct RegionGridLocation {
    pub pb_type: String,
    pub priority: i32,
    pub start_x_expr: String,
    pub end_x_expr: String,
    pub incr_x_expr: String,
    pub start_y_expr: String,
    pub end_y_expr: String,
    pub incr_y_expr: String,
}

/// One rule of a layout.
pub enum GridLocation {
    Fill(FillGridLocation),
    Perimeter(PerimeterGridLocation),
    Corners(CornersGridLocation),
    Single(SingleGridLocation),
    Col(ColGridLocation),
    Row(RowGridLocation),
    Region(RegionGridLocation),
}

/// A layout whose size is chosen when the grid is built.
pub struct AutoLayout {
    pub grid_locations: Vec<GridLocation>,
}

/// A layout of a fixed size.
pub struct FixedLayout {
    pub name: String,
    pub width: usize,
    pub height: usize,
    pub grid_locations: Vec<GridLocation>,
}

/// A layout of the device.
pub enum Layout {
    AutoLayout(AutoLayout),
    FixedLayout(FixedLayout),
}

/// What of an architecture the library reads: its tiles and layouts, the
/// primitives (models) and the complex blocks.
pub struct FPGAArch {
    pub tiles: Vec<Tile>,
    pub layouts: Vec<Layout>,
    pub models: Vec<Model>,
    pub complex_block_list: Vec<PBType>,
}

// ------------------------------------------------------------------
// What the rules do
// ------------------------------------------------------------------

/// How far `a` is below `b` (0 when it is not).
pub open spec fn gap(a: int, b: int) -> nat {
    if a < b {
        (b - a) as nat
    } else {
        0
    }
}

/// The value of a position expression on a grid of `w` x `h` for a tile of
/// `tw` x `th` (`None` where it has none).
pub open spec fn ev(e: Seq<char>, tw: usize, th: usize, w: int, h: int) -> Option<usize> {
    outcome_value(spec_eval_grid_expr(e, tw, th, w as usize, h as usize))
}

/// Evaluating `e` does not overflow.
pub open spec fn ev_ok(e: Seq<char>, tw: usize, th: usize, w: int, h: int) -> bool {
    !(spec_eval_grid_expr(e, tw, th, w as usize, h as usize) is Overflow)
}

/// Along row `row` from column `col`: place the tile, then move past it where it
/// was placed, else one column on.
pub open spec fn along_row(g: GridModel, table: Seq<(Seq<char>, usize, usize)>, pb: Seq<char>, prio: i32, w: int, row: int, col: int) -> GridModel
    decreases gap(col, w),
{
    if col >= w || tile_size_of(table, pb).0 == 0 {
        g
    } else {
        let (g2, ok) = place_named(g, table, row, col, pb, prio);
        along_row(g2, table, pb, prio, w, row, if ok { col + tile_size_of(table, pb).0 } else { col + 1 })
    }
}

/// Down column `col` from row `row`: place the tile, then move past it where it
/// was placed, else one row on.
pub open spec fn down_col(g: GridModel, table: Seq<(Seq<char>, usize, usize)>, pb: Seq<char>, prio: i32, h: int, col: int, row: int) -> GridModel
    decreases gap(row, h),
{
    if row >= h || tile_size_of(table, pb).1 == 0 {
        g
    } else {
        let (g2, ok) = place_named(g, table, row, col, pb, prio);
        down_col(g2, table, pb, prio, h, col, if ok { row + tile_size_of(table, pb).1 } else { row + 1 })
    }
}

/// Fill from row `row` on: each row as `along_row`, rows a tile's height apart.
pub open spec fn fill_rows(g: GridModel, table: Seq<(Seq<char>, usize, usize)>, pb: Seq<char>, prio: i32, w: int, h: int, row: int) -> GridModel
    decreases gap(row, h),
{
    if row >= h || tile_size_of(table, pb).1 == 0 {
        g
    } else {
        fill_rows(along_row(g, table, pb, prio, w, row, 0), table, pb, prio, w, h, row + tile_size_of(table, pb).1)
    }
}

/// The perimeter: the top row, the bottom row (when there are two rows), the left
/// column and the right column (when there are two columns).
pub open spec fn perimeter(g: GridModel, table: Seq<(Seq<char>, usize, usize)>, pb: Seq<char>, prio: i32, w: int, h: int) -> GridModel {
    let g1 = along_row(g, table, pb, prio, w, 0, 0);
    let g2 = if h > 1 { along_row(g1, table, pb, prio, w, h - 1, 0) } else { g1 };
    let g3 = down_col(g2, table, pb, prio, h, 0, 0);
    if w > 1 { down_col(g3, table, pb, prio, h, w - 1, 0) } else { g3 }
}

/// Places the tile at `(row, col)` when that cell is in the grid.
pub open spec fn place_if_inside(g: GridModel, table: Seq<(Seq<char>, usize, usize)>, pb: Seq<char>, prio: i32, w: int, h: int, row: int, col: int) -> GridModel {
    if 0 <= row < h && 0 <= col < w {
        place_named(g, table, row, col, pb, prio).0
    } else {
        g
    }
}

/// The four corners, in the order top-left, top-right, bottom-left, bottom-right.
pub open spec fn corners(g: GridModel, table: Seq<(Seq<char>, usize, usize)>, pb: Seq<char>, prio: i32, w: int, h: int) -> GridModel {
    let last_col = if w > 0 { w - 1 } else { 0 };
    let last_row = if h > 0 { h - 1 } else { 0 };
    let g1 = place_if_inside(g, table, pb, prio, w, h, 0, 0);
    let g2 = place_if_inside(g1, table, pb, prio, w, h, 0, last_col);
    let g3 = place_if_inside(g2, table, pb, prio, w, h, last_row, 0);
    place_if_inside(g3, table, pb, prio, w, h, last_row, last_col)
}

/// In column `x`, rows `y`, `y + incr`, ... below `h`.
pub open spec fn col_steps(g: GridModel, table: Seq<(Seq<char>, usize, usize)>, pb: Seq<char>, prio: i32, h: int, x: int, y: int, incr: int) -> GridModel
    decreases gap(y, h),
{
    if y >= h || incr <= 0 {
        g
    } else {
        col_steps(place_named(g, table, y, x, pb, prio).0, table, pb, prio, h, x, y + incr, incr)
    }
}

/// Columns `x`, `x + repeat`, ... left of `w`, each as `col_steps` from `start_y`.
pub open spec fn col_repeats(g: GridModel, table: Seq<(Seq<char>, usize, usize)>, pb: Seq<char>, prio: i32, w: int, h: int, x: int, start_y: int, incr: int, repeat: int) -> GridModel
    decreases gap(x, w),
{
    if x >= w || repeat <= 0 {
        g
    } else {
        col_repeats(col_steps(g, table, pb, prio, h, x, start_y, incr), table, pb, prio, w, h, x + repeat, start_y, incr, repeat)
    }
}

/// In row `y`, columns `x`, `x + incr`, ... up to `last`.
pub open spec fn row_steps(g: GridModel, table: Seq<(Seq<char>, usize, usize)>, pb: Seq<char>, prio: i32, last: int, y: int, x: int, incr: int) -> GridModel
    decreases gap(x, last + 1),
{
    if x > last || incr <= 0 {
        g
    } else {
        row_steps(place_named(g, table, y, x, pb, prio).0, table, pb, prio, last, y, x + incr, incr)
    }
}

/// Rows `y`, `y + repeat`, ... up to `last_y`, each as `row_steps` from `start_x`
/// up to `last_x`.
pub open spec fn row_repeats(g: GridModel, table: Seq<(Seq<char>, usize, usize)>, pb: Seq<char>, prio: i32, last_x: int, last_y: int, y: int, start_x: int, incr: int, repeat: int) -> GridModel
    decreases gap(y, last_y + 1),
{
    if y > last_y || repeat <= 0 {
        g
    } else {
        row_repeats(
            row_steps(g, table, pb, prio, last_x, y, start_x, incr),
            table,
            pb,
            prio,
            last_x,
            last_y,
            y + repeat,
            start_x,
            incr,
            repeat,
        )
    }
}

/// The smaller of two integers.
pub open spec fn min_int(a: int, b: int) -> int {
    if a < b { a } else { b }
}

/// The grid after applying the rule `loc` to `g`.
pub open spec fn apply_location(g: GridModel, table: Seq<(Seq<char>, usize, usize)>, loc: GridLocation) -> GridModel {
    let w = g.width;
    let h = g.height;
    match loc {
        GridLocation::Fill(f) => fill_rows(g, table, f.pb_type@, f.priority, w, h, 0),
        GridLocation::Perimeter(p) => perimeter(g, table, p.pb_type@, p.priority, w, h),
        GridLocation::Corners(c) => corners(g, table, c.pb_type@, c.priority, w, h),
        GridLocation::Single(s) => {
            let (tw, th) = tile_size_of(table, s.pb_type@);
            match (ev(s.x_expr@, tw, th, w, h), ev(s.y_expr@, tw, th, w, h)) {
                (Some(x), Some(y)) => place_if_inside(g, table, s.pb_type@, s.priority, w, h, y as int, x as int),
                _ => g,
            }
        },
        GridLocation::Col(c) => {
            let (tw, th) = tile_size_of(table, c.pb_type@);
            match (ev(c.start_x_expr@, tw, th, w, h), ev(c.start_y_expr@, tw, th, w, h)) {
                (Some(sx), Some(sy)) => {
                    let incr = match ev(c.incr_y_expr@, tw, th, w, h) {
                        Some(v) => v as int,
                        None => th as int,
                    };
                    let repeat = match c.repeat_x_expr {
                        Some(e) => match ev(e@, tw, th, w, h) {
                            Some(v) => v as int,
                            None => w,
                        },
                        None => w,
                    };
                    col_repeats(g, table, c.pb_type@, c.priority, w, h, sx as int, sy as int, incr, repeat)
                },
                _ => g,
            }
        },
        GridLocation::Row(r) => {
            let (tw, th) = tile_size_of(table, r.pb_type@);
            match (ev(r.start_x_expr@, tw, th, w, h), ev(r.start_y_expr@, tw, th, w, h)) {
                (Some(sx), Some(sy)) => {
                    let incr = match ev(r.incr_x_expr@, tw, th, w, h) {
                        Some(v) => v as int,
                        None => tw as int,
                    };
                    let repeat = match r.repeat_y_expr {
                        Some(e) => match ev(e@, tw, th, w, h) {
                            Some(v) => v as int,
                            None => h,
                        },
                        None => h,
                    };
                    row_repeats(g, table, r.pb_type@, r.priority, w - 1, h - 1, sy as int, sx as int, incr, repeat)
                },
                _ => g,
            }
        },
        GridLocation::Region(r) => {
            let (tw, th) = tile_size_of(table, r.pb_type@);
            match (
                ev(r.start_x_expr@, tw, th, w, h),
                ev(r.end_x_expr@, tw, th, w, h),
                ev(r.start_y_expr@, tw, th, w, h),
                ev(r.end_y_expr@, tw, th, w, h),
            ) {
                (Some(sx), Some(ex), Some(sy), Some(ey)) => {
                    let incr_x = match ev(r.incr_x_expr@, tw, th, w, h) {
                        Some(v) => v as int,
                        None => ex - sx + 1,
                    };
                    let incr_y = match ev(r.incr_y_expr@, tw, th, w, h) {
                        Some(v) => v as int,
                        None => ey - sy + 1,
                    };
                    row_repeats(
                        g,
                        table,
                        r.pb_type@,
                        r.priority,
                        min_int(ex as int, w - 1),
                        min_int(ey as int, h - 1),
                        sy as int,
                        sx as int,
                        incr_x,
                        incr_y,
                    )
                },
                _ => g,
            }
        },
    }
}

/// Applying the rule `loc` to a grid of `w` x `h` runs to its end: no expression
/// overflows, no step is zero, and no size is taken one below zero.
pub open spec fn location_ok(table: Seq<(Seq<char>, usize, usize)>, loc: GridLocation, w: int, h: int) -> bool {
    match loc {
        GridLocation::Fill(_) => true,
        GridLocation::Perimeter(_) => true,
        GridLocation::Corners(_) => true,
        GridLocation::Single(s) => {
            let (tw, th) = tile_size_of(table, s.pb_type@);
            ev_ok(s.x_expr@, tw, th, w, h) && ev_ok(s.y_expr@, tw, th, w, h)
        },
        GridLocation::Col(c) => {
            let (tw, th) = tile_size_of(table, c.pb_type@);
            &&& ev_ok(c.start_x_expr@, tw, th, w, h)
            &&& ev_ok(c.start_y_expr@, tw, th, w, h)
            &&& match (ev(c.start_x_expr@, tw, th, w, h), ev(c.start_y_expr@, tw, th, w, h)) {
                (Some(sx), Some(_)) => {
                    &&& ev_ok(c.incr_y_expr@, tw, th, w, h)
                    &&& (sx < w ==> ev(c.incr_y_expr@, tw, th, w, h) != Some(0usize))
                    &&& match c.repeat_x_expr {
                        Some(e) => ev_ok(e@, tw, th, w, h) && match ev(e@, tw, th, w, h) {
                            Some(v) => v != 0,
                            None => w != 0,
                        },
                        None => w != 0,
                    }
                },
                _ => true,
            }
        },
        GridLocation::Row(r) => {
            let (tw, th) = tile_size_of(table, r.pb_type@);
            &&& ev_ok(r.start_x_expr@, tw, th, w, h)
            &&& ev_ok(r.start_y_expr@, tw, th, w, h)
            &&& match (ev(r.start_x_expr@, tw, th, w, h), ev(r.start_y_expr@, tw, th, w, h)) {
                (Some(_), Some(sy)) => {
                    &&& ev_ok(r.incr_x_expr@, tw, th, w, h)
                    &&& (sy < h ==> ev(r.incr_x_expr@, tw, th, w, h) != Some(0usize))
                    &&& match r.repeat_y_expr {
                        Some(e) => ev_ok(e@, tw, th, w, h) && match ev(e@, tw, th, w, h) {
                            Some(v) => v != 0,
                            None => h != 0,
                        },
                        None => h != 0,
                    }
                },
                _ => true,
            }
        },
        GridLocation::Region(r) => {
            let (tw, th) = tile_size_of(table, r.pb_type@);
            &&& ev_ok(r.start_x_expr@, tw, th, w, h)
            &&& ev_ok(r.end_x_expr@, tw, th, w, h)
            &&& ev_ok(r.start_y_expr@, tw, th, w, h)
            &&& ev_ok(r.end_y_expr@, tw, th, w, h)
            &&& match (
                ev(r.start_x_expr@, tw, th, w, h),
                ev(r.end_x_expr@, tw, th, w, h),
                ev(r.start_y_expr@, tw, th, w, h),
                ev(r.end_y_expr@, tw, th, w, h),
            ) {
                (Some(sx), Some(ex), Some(sy), Some(ey)) => {
                    &&& ev_ok(r.incr_x_expr@, tw, th, w, h)
                    &&& ev_ok(r.incr_y_expr@, tw, th, w, h)
                    &&& sx <= ex && ex - sx + 1 <= usize::MAX
                    &&& sy <= ey && ey - sy + 1 <= usize::MAX
                    &&& h >= 1
                    &&& ev(r.incr_y_expr@, tw, th, w, h) != Some(0usize)
                    &&& (sy <= min_int(ey as int, h - 1) ==> w >= 1 && ev(r.incr_x_expr@, tw, th, w, h) != Some(0usize))
                },
                _ => true,
            }
        },
    }
}

/// The size table of a list of tiles, in order.
pub open spec fn arch_table(tiles: Seq<Tile>) -> Seq<(Seq<char>, usize, usize)> {
    tiles.map_values(|t: Tile| (t.name@, t.width, t.height))
}

/// The grid after applying the rules `locs`, first to last, to `g`.
pub open spec fn apply_all(g: GridModel, table: Seq<(Seq<char>, usize, usize)>, locs: Seq<GridLocation>) -> GridModel
    decreases locs.len(),
{
    if locs.len() == 0 {
        g
    } else {
        apply_location(apply_all(g, table, locs.drop_last()), table, locs.last())
    }
}

/// Every rule of `locs` runs to its end on a grid of `w` x `h`.
pub open spec fn locations_ok(table: Seq<(Seq<char>, usize, usize)>, locs: Seq<GridLocation>, w: int, h: int) -> bool {
    forall|i: int| 0 <= i < locs.len() ==> location_ok(table, #[trigger] locs[i], w, h)
}

/// The name of the layout at `index`: `"Auto Layout"`, `"Fixed: "` with its
/// name, or `"No Layout"` where there is none.
pub open spec fn layout_name(layouts: Seq<Layout>, index: usize) -> Seq<char> {
    if index < layouts.len() {
        match layouts[index as int] {
            Layout::AutoLayout(_) => "Auto Layout"@,
            Layout::FixedLayout(fl) => "Fixed: "@ + fl.name@,
        }
    } else {
        "No Layout"@
    }
}

/// The name shown for the layout at `index` of `arch`.
pub fn get_layout_name(arch: &FPGAArch, index: usize) -> (r: String)
    ensures
        r@ == layout_name(arch.layouts@, index),
{
    if index < arch.layouts.len() {
        match &arch.layouts[index] {
            Layout::AutoLayout(_) => String::from_str("Auto Layout"),
            Layout::FixedLayout(fl) => {
                let mut s = String::from_str("Fixed: ");
                s.append(fl.name.as_str());
                s
            },
        }
    } else {
        String::from_str("No Layout")
    }
}

} // verus!
