//! The device grid: tiles placed on a grid of cells by the grid-location rules of
//! a layout (fill, perimeter, corners, single, col, row, region), where a
//! placement of equal or higher priority replaces the tiles it overlaps.
use vstd::prelude::*;
use crate::grid_expr::eval_grid_expr;
use crate::layout::{
    along_row, down_col, fill_rows, perimeter, corners, place_if_inside, col_steps, col_repeats, row_steps,
    row_repeats, ev, ev_ok, apply_location, location_ok, GridLocation, apply_all, locations_ok, arch_table,
    FPGAArch, Layout, AutoLayout, ColGridLocation, gap,
};

use crate::grid_view::{sorted_strict, name_views, insert_sorted};

verus! {

broadcast use vstd::string::group_string_axioms;

/// A single cell of the grid.
#[derive(Debug, Clone, PartialEq)]
pub enum GridCell {
    Empty,
    /// The top-left cell of a tile, with the tile's name and size.
    BlockAnchor { pb_type: String, width: usize, height: usize },
    /// Another cell of a multi-cell tile, with the coordinates of its anchor.
    BlockOccupied { pb_type: String, anchor_row: usize, anchor_col: usize },
}

/// The value of a cell.
pub enum CellView {
    Empty,
    Anchor(Seq<char>, usize, usize),
    Occupied(Seq<char>, usize, usize),
}

impl View for GridCell {
    type V = CellView;

    open spec fn view(&self) -> CellView {
        match self {
            GridCell::Empty => CellView::Empty,
            GridCell::BlockAnchor { pb_type, width, height } => CellView::Anchor(pb_type@, *width, *height),
            GridCell::BlockOccupied { pb_type, anchor_row, anchor_col } => CellView::Occupied(
                pb_type@,
                *anchor_row,
                *anchor_col,
            ),
        }
    }
}

/// The values of the cells of a grid, row by row.
pub open spec fn cells_view(cells: Seq<Vec<GridCell>>) -> Seq<Seq<CellView>> {
    cells.map_values(|row: Vec<GridCell>| row@.map_values(|c: GridCell| c@))
}

/// The priorities of the cells of a grid, row by row.
pub open spec fn prios_view(p: Seq<Vec<i32>>) -> Seq<Seq<i32>> {
    p.map_values(|row: Vec<i32>| row@)
}

/// A grid of `h` rows of `w` cells.
pub open spec fn has_dims<T>(g: Seq<Seq<T>>, w: int, h: int) -> bool {
    g.len() == h && forall|r: int| 0 <= r < h ==> #[trigger] g[r].len() == w
}

/// `(r, c)` lies in the `w` x `h` rectangle whose top-left cell is `(row, col)`.
pub open spec fn in_rect(r: int, c: int, row: int, col: int, w: int, h: int) -> bool {
    row <= r < row + h && col <= c < col + w
}

/// The anchor of the tile that covers a cell holding `cv` at `(r, c)`.
pub open spec fn tile_anchor(cv: CellView, r: int, c: int) -> Option<(int, int)> {
    match cv {
        CellView::Empty => None,
        CellView::Anchor(_, _, _) => Some((r, c)),
        CellView::Occupied(_, ar, ac) => Some((ar as int, ac as int)),
    }
}

/// The cell `(r, c)` is consistent: an anchor's rectangle lies in the grid and
/// each of its other cells points back to it with the same name; an occupied
/// cell points into the grid and, unless it was left by an `EMPTY` tile (whose
/// anchor cell is left empty), lies in the rectangle of the anchor it points to,
/// with the same name.
pub open spec fn cell_ok(cells: Seq<Seq<CellView>>, w: int, h: int, r: int, c: int) -> bool {
    match cells[r][c] {
        CellView::Empty => true,
        CellView::Anchor(pb, tw, th) => {
            &&& tw >= 1 && th >= 1 && r + th <= h && c + tw <= w
            &&& forall|r2: int, c2: int|
                #![trigger cells[r2][c2]]
                in_rect(r2, c2, r, c, tw as int, th as int) && !(r2 == r && c2 == c) ==> cells[r2][c2]
                    == CellView::Occupied(pb, r as usize, c as usize)
        },
        CellView::Occupied(pb, ar, ac) => {
            &&& 0 <= ar < h && 0 <= ac < w
            &&& pb == empty_name() || (cells[ar as int][ac as int] matches CellView::Anchor(pb2, tw, th) && pb2 == pb
                && in_rect(r, c, ar as int, ac as int, tw as int, th as int))
        },
    }
}

/// Every tile of the grid that has an anchor is whole, and every occupied cell
/// points into the grid.
pub open spec fn tiles_consistent(cells: Seq<Seq<CellView>>, w: int, h: int) -> bool {
    forall|r: int, c: int| 0 <= r < h && 0 <= c < w ==> #[trigger] cell_ok(cells, w, h, r, c)
}

/// The size of the tile named `name`: the last entry of the table with that name,
/// or 1 x 1 when there is none.
pub open spec fn tile_size_of(table: Seq<(Seq<char>, usize, usize)>, name: Seq<char>) -> (usize, usize)
    decreases table.len(),
{
    if table.len() == 0 {
        (1, 1)
    } else if table.last().0 == name {
        (table.last().1, table.last().2)
    } else {
        tile_size_of(table.drop_last(), name)
    }
}

/// A table of tile sizes, each name taken by its characters.
pub open spec fn size_table(v: Seq<(String, usize, usize)>) -> Seq<(Seq<char>, usize, usize)> {
    v.map_values(|t: (String, usize, usize)| (t.0@, t.1, t.2))
}

/// The name that places an empty cell.
pub open spec fn empty_name() -> Seq<char> {
    seq!['E', 'M', 'P', 'T', 'Y']
}

/// A table of tile sizes the grid can be built from: every size at least 1 x 1.
pub open spec fn table_ok(table: Seq<(Seq<char>, usize, usize)>) -> bool {
    forall|i: int| 0 <= i < table.len() ==> #[trigger] table[i].1 >= 1 && table[i].2 >= 1
}

// ------------------------------------------------------------------
// Placing one tile
// ------------------------------------------------------------------

/// Some cell under the new tile has a higher priority than the placement.
pub open spec fn place_blocked(prios: Seq<Seq<i32>>, row: int, col: int, tw: int, th: int, prio: i32) -> bool {
    exists|r: int, c: int| in_rect(r, c, row, col, tw, th) && prio < #[trigger] prios[r][c]
}

/// The cell `(ar, ac)` is the anchor of a tile whose rectangle covers `(r, c)`.
pub open spec fn covers(cells: Seq<Seq<CellView>>, ar: int, ac: int, r: int, c: int) -> bool {
    &&& 0 <= ar < cells.len()
    &&& 0 <= ac < cells[ar].len()
    &&& cells[ar][ac] matches CellView::Anchor(_, tw, th) && in_rect(r, c, ar, ac, tw as int, th as int)
}

/// Some cell of the `tw` x `th` rectangle at `(row, col)` belongs to the tile
/// anchored at `(ar, ac)` (it is that anchor, or points to it).
pub open spec fn overlapped(cells: Seq<Seq<CellView>>, ar: int, ac: int, row: int, col: int, tw: int, th: int) -> bool {
    exists|r2: int, c2: int|
        in_rect(r2, c2, row, col, tw, th) && #[trigger] tile_anchor(cells[r2][c2], r2, c2) == Some((ar, ac))
}

/// The cell `(r, c)` lies in the rectangle of a tile that the new tile overlaps:
/// a tile whose anchor some cell under the new tile is, or points to.
pub open spec fn cleared_by(cells: Seq<Seq<CellView>>, r: int, c: int, row: int, col: int, tw: int, th: int) -> bool {
    exists|ar: int, ac: int| #[trigger] covers(cells, ar, ac, r, c) && overlapped(cells, ar, ac, row, col, tw, th)
}

/// The cell `(r, c)` after placing the tile `pb` of `tw` x `th` at `(row, col)`:
/// the new tile where it lies, empty where an overlapped tile was, else as before.
pub open spec fn placed_cell(cells: Seq<Seq<CellView>>, r: int, c: int, row: int, col: int, pb: Seq<char>, tw: usize, th: usize) -> CellView {
    if r == row && c == col {
        if pb == empty_name() {
            CellView::Empty
        } else {
            CellView::Anchor(pb, tw, th)
        }
    } else if in_rect(r, c, row, col, tw as int, th as int) {
        CellView::Occupied(pb, row as usize, col as usize)
    } else if cleared_by(cells, r, c, row, col, tw as int, th as int) {
        CellView::Empty
    } else {
        cells[r][c]
    }
}

/// The priority of `(r, c)` after the same placement.
pub open spec fn placed_prio(cells: Seq<Seq<CellView>>, prios: Seq<Seq<i32>>, r: int, c: int, row: int, col: int, tw: usize, th: usize, prio: i32) -> i32 {
    if in_rect(r, c, row, col, tw as int, th as int) {
        prio
    } else if cleared_by(cells, r, c, row, col, tw as int, th as int) {
        i32::MIN
    } else {
        prios[r][c]
    }
}

/// The state of a grid: its size, the value of each cell and the priority of
/// each cell.
pub struct GridModel {
    pub width: int,
    pub height: int,
    pub cells: Seq<Seq<CellView>>,
    pub prios: Seq<Seq<i32>>,
}

/// The grid after placing the tile `pb` of `tw` x `th` at `(row, col)` with the
/// priority `prio`, and whether it was placed: it is not where it does not fit or
/// where a cell under it has a higher priority; otherwise every tile it overlaps
/// is removed whole and the new tile takes its rectangle.
pub open spec fn place(g: GridModel, row: int, col: int, pb: Seq<char>, tw: usize, th: usize, prio: i32) -> (GridModel, bool) {
    if row + th > g.height || col + tw > g.width || place_blocked(g.prios, row, col, tw as int, th as int, prio) {
        (g, false)
    } else {
        (
            GridModel {
                width: g.width,
                height: g.height,
                cells: Seq::new(
                    g.height as nat,
                    |r: int| Seq::new(g.width as nat, |c: int| placed_cell(g.cells, r, c, row, col, pb, tw, th)),
                ),
                prios: Seq::new(
                    g.height as nat,
                    |r: int| Seq::new(g.width as nat, |c: int| placed_prio(g.cells, g.prios, r, c, row, col, tw, th, prio)),
                ),
            },
            true,
        )
    }
}

/// The same placement, with the tile's size taken from the size table.
pub open spec fn place_named(g: GridModel, table: Seq<(Seq<char>, usize, usize)>, row: int, col: int, pb: Seq<char>, prio: i32) -> (GridModel, bool) {
    place(g, row, col, pb, tile_size_of(table, pb).0, tile_size_of(table, pb).1, prio)
}

/// A grid of `w` x `h` empty cells, each with the lowest priority.
pub open spec fn empty_grid(w: int, h: int) -> GridModel {
    GridModel {
        width: w,
        height: h,
        cells: Seq::new(h as nat, |r: int| Seq::new(w as nat, |c: int| CellView::Empty)),
        prios: Seq::new(h as nat, |r: int| Seq::new(w as nat, |c: int| i32::MIN)),
    }
}

/// A well-formed grid state: `width` x `height` cells and priorities, every tile whole.
pub open spec fn model_wf(g: GridModel) -> bool {
    &&& 0 <= g.width <= usize::MAX
    &&& 0 <= g.height <= usize::MAX
    &&& has_dims(g.cells, g.width, g.height)
    &&& has_dims(g.prios, g.width, g.height)
    &&& tiles_consistent(g.cells, g.width, g.height)
}

/// In a consistent grid an anchor lies in the rectangle of no other tile.
proof fn lemma_anchor_alone(cells: Seq<Seq<CellView>>, w: int, h: int, ar: int, ac: int, r: int, c: int)
    requires
        tiles_consistent(cells, w, h),
        has_dims(cells, w, h),
        0 <= ar < h,
        0 <= ac < w,
        0 <= r < h,
        0 <= c < w,
        cells[r][c] is Anchor,
        covers(cells, ar, ac, r, c),
    ensures
        ar == r && ac == c,
{
    assert(cell_ok(cells, w, h, ar, ac));
}

/// Placing a tile keeps every tile of the grid whole: what a placement overlaps
/// is removed whole, so no cell is left pointing to an anchor that is gone (but
/// the cells an `EMPTY` tile leaves, which point to its empty anchor cell).
pub proof fn lemma_place_consistent(g: GridModel, row: int, col: int, pb: Seq<char>, tw: usize, th: usize, prio: i32)
    requires
        model_wf(g),
        tw >= 1,
        th >= 1,
        0 <= row,
        0 <= col,
    ensures
        model_wf(place(g, row, col, pb, tw, th, prio).0),
{
    let n = place(g, row, col, pb, tw, th, prio).0;
    if n != g {
        let o = g.cells;
        let w = g.width;
        let h = g.height;
        let rw = tw as int;
        let rh = th as int;
        assert(has_dims(n.cells, w, h));
        assert(has_dims(n.prios, w, h));
        assert forall|r: int, c: int| 0 <= r < h && 0 <= c < w implies #[trigger] cell_ok(n.cells, w, h, r, c) by {
            assert(n.cells[r][c] == placed_cell(o, r, c, row, col, pb, tw, th));
            if r == row && c == col {
                if pb != empty_name() {
                    assert forall|r2: int, c2: int|
                        in_rect(r2, c2, r, c, rw, rh) && !(r2 == r && c2 == c) implies #[trigger] n.cells[r2][c2]
                        == CellView::Occupied(pb, r as usize, c as usize) by {
                        assert(n.cells[r2][c2] == placed_cell(o, r2, c2, row, col, pb, tw, th));
                    }
                }
            } else if in_rect(r, c, row, col, rw, rh) {
                assert(n.cells[row][col] == placed_cell(o, row, col, row, col, pb, tw, th));
            } else if cleared_by(o, r, c, row, col, rw, rh) {
            } else {
                assert(cell_ok(o, w, h, r, c));
                match o[r][c] {
                    CellView::Empty => {},
                    CellView::Anchor(pb1, tw1, th1) => {
                        assert(covers(o, r, c, r, c));
                        assert forall|r2: int, c2: int|
                            in_rect(r2, c2, r, c, tw1 as int, th1 as int) && !(r2 == r && c2 == c) implies #[trigger] n.cells[r2][c2]
                            == CellView::Occupied(pb1, r as usize, c as usize) by {
                            assert(o[r2][c2] == CellView::Occupied(pb1, r as usize, c as usize));
                            assert(n.cells[r2][c2] == placed_cell(o, r2, c2, row, col, pb, tw, th));
                            if in_rect(r2, c2, row, col, rw, rh) {
                                assert(tile_anchor(o[r2][c2], r2, c2) == Some((r, c)));
                                assert(overlapped(o, r, c, row, col, rw, rh));
                                assert(cleared_by(o, r, c, row, col, rw, rh));
                            }
                            if cleared_by(o, r2, c2, row, col, rw, rh) {
                                let (ar, ac) = choose|ar: int, ac: int|
                                    #[trigger] covers(o, ar, ac, r2, c2) && overlapped(o, ar, ac, row, col, rw, rh);
                                if !(ar == r2 && ac == c2) {
                                    assert(cell_ok(o, w, h, ar, ac));
                                    assert(ar == r && ac == c);
                                }
                                assert(cleared_by(o, r, c, row, col, rw, rh));
                            }
                        }
                    },
                    CellView::Occupied(pb1, ar, ac) => {
                        let ari = ar as int;
                        let aci = ac as int;
                        if pb1 != empty_name() {
                            assert(covers(o, ari, aci, r, c));
                            assert(n.cells[ari][aci] == placed_cell(o, ari, aci, row, col, pb, tw, th));
                            if in_rect(ari, aci, row, col, rw, rh) {
                                assert(tile_anchor(o[ari][aci], ari, aci) == Some((ari, aci)));
                                assert(overlapped(o, ari, aci, row, col, rw, rh));
                                assert(cleared_by(o, r, c, row, col, rw, rh));
                            }
                            if cleared_by(o, ari, aci, row, col, rw, rh) {
                                let (br, bc) = choose|br: int, bc: int|
                                    #[trigger] covers(o, br, bc, ari, aci) && overlapped(o, br, bc, row, col, rw, rh);
                                lemma_anchor_alone(o, w, h, br, bc, ari, aci);
                                assert(cleared_by(o, r, c, row, col, rw, rh));
                            }
                        }
                    },
                }
            }
        }
    }
}

/// Placing a tile by name, with its size from a usable size table, keeps a
/// well-formed grid well formed, whether or not the tile is placed.
pub proof fn law_placement_keeps_grid_well_formed(
    g: GridModel,
    table: Seq<(Seq<char>, usize, usize)>,
    row: int,
    col: int,
    pb: Seq<char>,
    prio: i32,
)
    requires
        model_wf(g),
        table_ok(table),
        0 <= row,
        0 <= col,
    ensures
        model_wf(place_named(g, table, row, col, pb, prio).0),
{
    lemma_tile_size_pos(table, pb);
    lemma_place_consistent(g, row, col, pb, tile_size_of(table, pb).0, tile_size_of(table, pb).1, prio);
}

/// The occupied cell `(r, c)` lies in the rectangle of the anchor it points to,
/// with the same name.
pub open spec fn occupied_in_tile(cells: Seq<Seq<CellView>>, r: int, c: int) -> bool {
    match cells[r][c] {
        CellView::Occupied(pb, ar, ac) => cells[ar as int][ac as int] matches CellView::Anchor(pb2, tw, th) && pb2 == pb
            && in_rect(r, c, ar as int, ac as int, tw as int, th as int),
        _ => true,
    }
}

/// The occupied cell `(r, c)` has the priority of the anchor it points to.
pub open spec fn prio_of_tile(cells: Seq<Seq<CellView>>, prios: Seq<Seq<i32>>, r: int, c: int) -> bool {
    match cells[r][c] {
        CellView::Occupied(_, ar, ac) => prios[r][c] == prios[ar as int][ac as int],
        _ => true,
    }
}

/// A grid whose tiles are all whole: well formed, every occupied cell in the
/// rectangle of its anchor, and all cells of a tile of one priority.
pub open spec fn model_whole(g: GridModel) -> bool {
    &&& model_wf(g)
    &&& forall|r: int, c: int| 0 <= r < g.height && 0 <= c < g.width ==> #[trigger] occupied_in_tile(g.cells, r, c)
    &&& forall|r: int, c: int| 0 <= r < g.height && 0 <= c < g.width ==> #[trigger] prio_of_tile(g.cells, g.prios, r, c)
}

/// An empty grid has all its tiles whole.
pub proof fn lemma_empty_grid_whole(w: int, h: int)
    requires
        0 <= w <= usize::MAX,
        0 <= h <= usize::MAX,
    ensures
        model_whole(empty_grid(w, h)),
{
    let g = empty_grid(w, h);
    assert forall|r: int, c: int| 0 <= r < h && 0 <= c < w implies #[trigger] cell_ok(g.cells, w, h, r, c) by {
        assert(g.cells[r][c] == CellView::Empty);
    }
    assert forall|r: int, c: int| 0 <= r < h && 0 <= c < w implies #[trigger] occupied_in_tile(g.cells, r, c) by {
        assert(g.cells[r][c] == CellView::Empty);
    }
    assert forall|r: int, c: int| 0 <= r < h && 0 <= c < w implies #[trigger] prio_of_tile(g.cells, g.prios, r, c) by {
        assert(g.cells[r][c] == CellView::Empty);
    }
}

/// Placing a tile by name, with its size from a usable size table in which
/// `EMPTY` is 1 x 1, keeps every tile of a grid whole, whether or not the tile is
/// placed: no occupied cell is left pointing to an anchor that is gone or partly
/// overwritten, and the cells of each tile keep one priority.
pub proof fn law_placement_keeps_tiles_whole(
    g: GridModel,
    table: Seq<(Seq<char>, usize, usize)>,
    row: int,
    col: int,
    pb: Seq<char>,
    prio: i32,
)
    requires
        model_whole(g),
        table_ok(table),
        tile_size_of(table, empty_name()) == (1usize, 1usize),
        0 <= row,
        0 <= col,
    ensures
        model_whole(place_named(g, table, row, col, pb, prio).0),
{
    let tw = tile_size_of(table, pb).0;
    let th = tile_size_of(table, pb).1;
    law_placement_keeps_grid_well_formed(g, table, row, col, pb, prio);
    lemma_tile_size_pos(table, pb);
    let n = place(g, row, col, pb, tw, th, prio).0;
    if n != g {
        let o = g.cells;
        let op = g.prios;
        let w = g.width;
        let h = g.height;
        let rw = tw as int;
        let rh = th as int;
        assert forall|r: int, c: int|
            0 <= r < h && 0 <= c < w implies #[trigger] occupied_in_tile(n.cells, r, c) && prio_of_tile(n.cells, n.prios, r, c) by {
            assert(n.cells[r][c] == placed_cell(o, r, c, row, col, pb, tw, th));
            assert(n.prios[r][c] == placed_prio(o, op, r, c, row, col, tw, th, prio));
            if r == row && c == col {
            } else if in_rect(r, c, row, col, rw, rh) {
                if pb == empty_name() {
                    assert(tw == 1 && th == 1);
                }
                assert(n.cells[row][col] == placed_cell(o, row, col, row, col, pb, tw, th));
                assert(n.prios[row][col] == placed_prio(o, op, row, col, row, col, tw, th, prio));
            } else if cleared_by(o, r, c, row, col, rw, rh) {
            } else {
                assert(occupied_in_tile(o, r, c));
                assert(prio_of_tile(o, op, r, c));
                assert(n.cells[r][c] == o[r][c]);
                assert(n.prios[r][c] == op[r][c]);
                if let CellView::Occupied(pb1, ar, ac) = o[r][c] {
                    let ari = ar as int;
                    let aci = ac as int;
                    assert(cell_ok(o, w, h, r, c));
                    assert(covers(o, ari, aci, r, c));
                    assert(n.cells[ari][aci] == placed_cell(o, ari, aci, row, col, pb, tw, th));
                    assert(n.prios[ari][aci] == placed_prio(o, op, ari, aci, row, col, tw, th, prio));
                    if in_rect(ari, aci, row, col, rw, rh) {
                        assert(tile_anchor(o[ari][aci], ari, aci) == Some((ari, aci)));
                        assert(overlapped(o, ari, aci, row, col, rw, rh));
                        assert(cleared_by(o, r, c, row, col, rw, rh));
                    }
                    if cleared_by(o, ari, aci, row, col, rw, rh) {
                        let (br, bc) = choose|br: int, bc: int|
                            #[trigger] covers(o, br, bc, ari, aci) && overlapped(o, br, bc, row, col, rw, rh);
                        lemma_anchor_alone(o, w, h, br, bc, ari, aci);
                        assert(cleared_by(o, r, c, row, col, rw, rh));
                    }
                    assert(n.cells[ari][aci] == o[ari][aci]);
                    assert(n.prios[ari][aci] == op[ari][aci]);
                }
            }
        }
        assert forall|r: int, c: int| 0 <= r < h && 0 <= c < w implies #[trigger] prio_of_tile(n.cells, n.prios, r, c) by {
            assert(occupied_in_tile(n.cells, r, c));
        }
    }
}

// ------------------------------------------------------------------
// A column of tiles
// ------------------------------------------------------------------

/// The grid has its width and height, in cells and priorities.
pub open spec fn model_dims(g: GridModel) -> bool {
    &&& 0 <= g.width
    &&& 0 <= g.height
    &&& has_dims(g.cells, g.width, g.height)
    &&& has_dims(g.prios, g.width, g.height)
}

/// Every cell in row `y` or below is empty, with the lowest priority.
pub open spec fn free_from_row(g: GridModel, y: int) -> bool {
    forall|r: int, c: int|
        y <= r < g.height && 0 <= c < g.width ==> #[trigger] g.cells[r][c] == CellView::Empty && g.prios[r][c] == i32::MIN
}

/// The row `k` steps of `step` rows below `y`.
pub open spec fn step_row(y: int, k: nat, step: int) -> int {
    y + k * step
}

/// A tile placed where everything from its row down is free is placed, takes
/// its rectangle, and leaves the rows above alone and the rows below it free.
proof fn lemma_place_in_free_rows(
    g: GridModel,
    table: Seq<(Seq<char>, usize, usize)>,
    y: int,
    x: int,
    pb: Seq<char>,
    prio: i32,
    tw: usize,
    th: usize,
)
    requires
        model_dims(g),
        free_from_row(g, y),
        0 <= y,
        y + th <= g.height,
        0 <= x,
        x + tw <= g.width,
        tile_size_of(table, pb) == (tw, th),
        tw >= 1,
        th >= 1,
        pb != empty_name(),
    ensures
        place_named(g, table, y, x, pb, prio).1,
        model_dims(place_named(g, table, y, x, pb, prio).0),
        place_named(g, table, y, x, pb, prio).0.width == g.width,
        place_named(g, table, y, x, pb, prio).0.height == g.height,
        free_from_row(place_named(g, table, y, x, pb, prio).0, y + th),
        place_named(g, table, y, x, pb, prio).0.cells[y][x] == CellView::Anchor(pb, tw, th),
        forall|r: int, c: int|
            0 <= r < y && 0 <= c < g.width ==> #[trigger] place_named(g, table, y, x, pb, prio).0.cells[r][c] == g.cells[r][c],
{
    let rw = tw as int;
    let rh = th as int;
    assert(!place_blocked(g.prios, y, x, rw, rh, prio)) by {
        if place_blocked(g.prios, y, x, rw, rh, prio) {
            let (r, c) = choose|r: int, c: int| in_rect(r, c, y, x, rw, rh) && prio < #[trigger] g.prios[r][c];
            assert(g.cells[r][c] == CellView::Empty && g.prios[r][c] == i32::MIN);
        }
    }
    let n = place(g, y, x, pb, tw, th, prio).0;
    assert forall|r: int, c: int| 0 <= r < g.height && 0 <= c < g.width && !in_rect(r, c, y, x, rw, rh) implies
        !cleared_by(g.cells, r, c, y, x, rw, rh) by {
        if cleared_by(g.cells, r, c, y, x, rw, rh) {
            let (ar, ac) = choose|ar: int, ac: int|
                #[trigger] covers(g.cells, ar, ac, r, c) && overlapped(g.cells, ar, ac, y, x, rw, rh);
            let (r2, c2) = choose|r2: int, c2: int|
                in_rect(r2, c2, y, x, rw, rh) && #[trigger] tile_anchor(g.cells[r2][c2], r2, c2) == Some((ar, ac));
            assert(g.cells[r2][c2] == CellView::Empty);
        }
    }
    assert(n.cells[y][x] == placed_cell(g.cells, y, x, y, x, pb, tw, th));
    assert forall|r: int, c: int| 0 <= r < y && 0 <= c < g.width implies #[trigger] n.cells[r][c] == g.cells[r][c] by {
        assert(n.cells[r][c] == placed_cell(g.cells, r, c, y, x, pb, tw, th));
    }
    assert forall|r: int, c: int| y + th <= r < n.height && 0 <= c < n.width implies #[trigger] n.cells[r][c]
        == CellView::Empty && n.prios[r][c] == i32::MIN by {
        assert(n.cells[r][c] == placed_cell(g.cells, r, c, y, x, pb, tw, th));
        assert(n.prios[r][c] == placed_prio(g.cells, g.prios, r, c, y, x, tw, th, prio));
        assert(g.cells[r][c] == CellView::Empty && g.prios[r][c] == i32::MIN);
    }
}

/// Placing a column of tiles, a tile's height apart, from row `y` down, where
/// everything from row `y` down is free: the rows above stay as they were, and
/// every tile that fits is there.
proof fn lemma_col_steps_stack(
    g: GridModel,
    table: Seq<(Seq<char>, usize, usize)>,
    pb: Seq<char>,
    prio: i32,
    x: int,
    y: int,
    tw: usize,
    th: usize,
)
    requires
        model_dims(g),
        free_from_row(g, y),
        0 <= y,
        0 <= x,
        x + tw <= g.width,
        tile_size_of(table, pb) == (tw, th),
        tw >= 1,
        th >= 1,
        pb != empty_name(),
    ensures
        forall|r: int, c: int|
            0 <= r < y && 0 <= c < g.width ==> #[trigger] col_steps(g, table, pb, prio, g.height, x, y, th as int).cells[r][c]
                == g.cells[r][c],
        forall|k: nat|
            #![trigger step_row(y, k, th as int)]
            step_row(y, k, th as int) + th <= g.height ==> col_steps(g, table, pb, prio, g.height, x, y, th as int).cells[step_row(
                y,
                k,
                th as int,
            )][x] == CellView::Anchor(pb, tw, th),
    decreases gap(y, g.height),
{
    let h = g.height;
    let rh = th as int;
    if y >= h {
        assert forall|k: nat|
            #![trigger step_row(y, k, rh)]
            step_row(y, k, rh) + th <= h implies col_steps(g, table, pb, prio, h, x, y, rh).cells[step_row(y, k, rh)][x]
                == CellView::Anchor(pb, tw, th) by {
            assert(k * rh >= 0) by (nonlinear_arith)
                requires
                    rh >= 1,
            ;
        }
    } else if y + th > h {
        assert(place_named(g, table, y, x, pb, prio).0 == g);
        lemma_col_steps_stack(g, table, pb, prio, x, y + rh, tw, th);
        assert forall|k: nat|
            #![trigger step_row(y, k, rh)]
            step_row(y, k, rh) + th <= h implies col_steps(g, table, pb, prio, h, x, y, rh).cells[step_row(y, k, rh)][x]
                == CellView::Anchor(pb, tw, th) by {
            assert(k * rh >= 0) by (nonlinear_arith)
                requires
                    rh >= 1,
            ;
        }
    } else {
        lemma_place_in_free_rows(g, table, y, x, pb, prio, tw, th);
        let g1 = place_named(g, table, y, x, pb, prio).0;
        lemma_col_steps_stack(g1, table, pb, prio, x, y + rh, tw, th);
        let f = col_steps(g, table, pb, prio, h, x, y, rh);
        assert(f == col_steps(g1, table, pb, prio, h, x, y + rh, rh));
        assert forall|r: int, c: int| 0 <= r < y && 0 <= c < g.width implies #[trigger] f.cells[r][c] == g.cells[r][c] by {
            assert(g1.cells[r][c] == g.cells[r][c]);
        }
        assert forall|k: nat|
            #![trigger step_row(y, k, rh)]
            step_row(y, k, rh) + th <= h implies f.cells[step_row(y, k, rh)][x] == CellView::Anchor(pb, tw, th) by {
            if k == 0 {
                assert(step_row(y, k, rh) == y);
                assert(f.cells[y][x] == g1.cells[y][x]);
            } else {
                let k1 = (k - 1) as nat;
                assert(step_row(y, k, rh) == step_row(y + rh, k1, rh)) by (nonlinear_arith)
                    requires
                        k1 + 1 == k,
                ;
            }
        }
    }
}

/// A column rule whose row step has no value places its tiles a tile's height
/// apart: on an empty grid, in the start column, from the start row down, there
/// is an anchor of the tile at every multiple of the tile's height from the start
/// row at which the whole tile fits, whatever the tile's width.
pub proof fn law_col_default_step_is_tile_height(
    w: int,
    h: int,
    table: Seq<(Seq<char>, usize, usize)>,
    c: ColGridLocation,
    sx: usize,
    sy: usize,
    k: nat,
)
    requires
        0 <= w <= usize::MAX,
        0 <= h <= usize::MAX,
        table_ok(table),
        c.pb_type@ != empty_name(),
        ev(c.start_x_expr@, tile_size_of(table, c.pb_type@).0, tile_size_of(table, c.pb_type@).1, w, h) == Some(sx),
        ev(c.start_y_expr@, tile_size_of(table, c.pb_type@).0, tile_size_of(table, c.pb_type@).1, w, h) == Some(sy),
        ev(c.incr_y_expr@, tile_size_of(table, c.pb_type@).0, tile_size_of(table, c.pb_type@).1, w, h) is None,
        c.repeat_x_expr is None,
        sx + tile_size_of(table, c.pb_type@).0 <= w,
        sy + (k + 1) * tile_size_of(table, c.pb_type@).1 <= h,
    ensures
        apply_location(empty_grid(w, h), table, GridLocation::Col(c)).cells[sy + k * tile_size_of(table, c.pb_type@).1][sx as int]
            == CellView::Anchor(c.pb_type@, tile_size_of(table, c.pb_type@).0, tile_size_of(table, c.pb_type@).1),
{
    let pb = c.pb_type@;
    let (tw, th) = tile_size_of(table, pb);
    lemma_tile_size_pos(table, pb);
    let g = empty_grid(w, h);
    assert(model_dims(g));
    assert(free_from_row(g, sy as int));
    lemma_col_steps_stack(g, table, pb, c.priority, sx as int, sy as int, tw, th);
    let steps = col_steps(g, table, pb, c.priority, h, sx as int, sy as int, th as int);
    assert(col_repeats(steps, table, pb, c.priority, w, h, sx + w, sy as int, th as int, w) == steps);
    assert(apply_location(g, table, GridLocation::Col(c)) == steps);
    assert(step_row(sy as int, k, th as int) + th <= h) by (nonlinear_arith)
        requires
            sy + (k + 1) * th <= h,
    ;
}

/// A placement where some cell under the tile has a higher priority than the
/// placement changes nothing and is refused.
pub proof fn law_lower_priority_never_overrides(
    g: GridModel,
    row: int,
    col: int,
    pb: Seq<char>,
    tw: usize,
    th: usize,
    prio: i32,
    r: int,
    c: int,
)
    requires
        in_rect(r, c, row, col, tw as int, th as int),
        prio < g.prios[r][c],
    ensures
        place(g, row, col, pb, tw, th, prio) == (g, false),
{
    assert(place_blocked(g.prios, row, col, tw as int, th as int, prio));
}

/// A placement that fits in the grid over cells none of which has a higher
/// priority is made: where priorities tie, the later placement wins.
pub proof fn law_ties_go_to_later_placement(g: GridModel, row: int, col: int, pb: Seq<char>, tw: usize, th: usize, prio: i32)
    requires
        0 <= row,
        0 <= col,
        row + th <= g.height,
        col + tw <= g.width,
        forall|r: int, c: int| in_rect(r, c, row, col, tw as int, th as int) ==> #[trigger] g.prios[r][c] <= prio,
    ensures
        place(g, row, col, pb, tw, th, prio).1,
{
}

/// Once a placement is made, each cell of its rectangle holds the new tile (its
/// anchor, or a cell pointing to the anchor) with the placement's priority.
pub proof fn law_placed_tile_takes_its_rectangle(
    g: GridModel,
    row: int,
    col: int,
    pb: Seq<char>,
    tw: usize,
    th: usize,
    prio: i32,
    r: int,
    c: int,
)
    requires
        0 <= row,
        0 <= col,
        place(g, row, col, pb, tw, th, prio).1,
        in_rect(r, c, row, col, tw as int, th as int),
    ensures
        place(g, row, col, pb, tw, th, prio).0.cells[r][c] == new_cell(r, c, row, col, pb, tw, th),
        place(g, row, col, pb, tw, th, prio).0.prios[r][c] == prio,
{
}

/// A placement leaves alone every cell that is neither under the new tile nor
/// part of a tile the new one overlaps.
pub proof fn law_placement_is_local(
    g: GridModel,
    row: int,
    col: int,
    pb: Seq<char>,
    tw: usize,
    th: usize,
    prio: i32,
    r: int,
    c: int,
)
    requires
        tw >= 1,
        th >= 1,
        0 <= r < g.height,
        0 <= c < g.width,
        !in_rect(r, c, row, col, tw as int, th as int),
        !cleared_by(g.cells, r, c, row, col, tw as int, th as int),
    ensures
        place(g, row, col, pb, tw, th, prio).0.cells[r][c] == g.cells[r][c],
        place(g, row, col, pb, tw, th, prio).0.prios[r][c] == g.prios[r][c],
{
    let n = place(g, row, col, pb, tw, th, prio);
    if n.1 {
        assert(n.0.cells[r][c] == placed_cell(g.cells, r, c, row, col, pb, tw, th));
        assert(n.0.prios[r][c] == placed_prio(g.cells, g.prios, r, c, row, col, tw, th, prio));
    }
}

/// A pair of coordinates as integers.
pub open spec fn pair_int(p: (usize, usize)) -> (int, int) {
    (p.0 as int, p.1 as int)
}

/// `(r, c)` is among the cells of the `tw`-wide rectangle at `(row, col)` visited
/// row by row up to, not including, `(row + dy, col + dx)`.
pub open spec fn scanned(r: int, c: int, row: int, col: int, tw: int, dy: int, dx: int) -> bool {
    &&& row <= r
    &&& col <= c < col + tw
    &&& (r < row + dy || (r == row + dy && c < col + dx))
}

/// The cell `(r, c)` of `o` lies in the rectangle of a tile anchored at one of `s`.
spec fn covered_by_set(o: Seq<Seq<CellView>>, s: Set<(int, int)>, r: int, c: int) -> bool {
    exists|ar: int, ac: int| s.contains((ar, ac)) && #[trigger] covers(o, ar, ac, r, c)
}

/// The cell `(r, c)` of `o` once the tiles anchored at `s` are removed.
spec fn clear_state(o: Seq<Seq<CellView>>, s: Set<(int, int)>, r: int, c: int) -> CellView {
    if covered_by_set(o, s, r, c) {
        CellView::Empty
    } else {
        o[r][c]
    }
}

/// The priority of `(r, c)` once the tiles anchored at `s` are removed.
spec fn clear_prio(o: Seq<Seq<CellView>>, op: Seq<Seq<i32>>, s: Set<(int, int)>, r: int, c: int) -> i32 {
    if covered_by_set(o, s, r, c) {
        i32::MIN
    } else {
        op[r][c]
    }
}

/// The cell `(r, c)` of the new tile `pb` of `tw` x `th` anchored at `(row, col)`.
pub open spec fn new_cell(r: int, c: int, row: int, col: int, pb: Seq<char>, tw: usize, th: usize) -> CellView {
    if r == row && c == col {
        if pb == empty_name() {
            CellView::Empty
        } else {
            CellView::Anchor(pb, tw, th)
        }
    } else {
        CellView::Occupied(pb, row as usize, col as usize)
    }
}

/// Every size in a usable table is at least 1 x 1.
proof fn lemma_tile_size_pos(table: Seq<(Seq<char>, usize, usize)>, name: Seq<char>)
    requires
        forall|i: int| 0 <= i < table.len() ==> #[trigger] table[i].1 >= 1 && table[i].2 >= 1,
    ensures
        tile_size_of(table, name).0 >= 1,
        tile_size_of(table, name).1 >= 1,
    decreases table.len(),
{
    if table.len() > 0 {
        assert(table.last() == table[table.len() - 1]);
        let t = table.drop_last();
        assert forall|i: int| 0 <= i < t.len() implies #[trigger] t[i].1 >= 1 && t[i].2 >= 1 by {
            assert(t[i] == table[i]);
        }
        lemma_tile_size_pos(t, name);
    }
}

/// The device grid.
pub struct DeviceGrid {
    pub width: usize,
    pub height: usize,
    pub cells: Vec<Vec<GridCell>>,
    tile_sizes: Vec<(String, usize, usize)>,
    grid_priorities: Vec<Vec<i32>>,
}

impl DeviceGrid {
    /// The state of the grid.
    pub closed spec fn model(&self) -> GridModel {
        GridModel {
            width: self.width as int,
            height: self.height as int,
            cells: cells_view(self.cells@),
            prios: prios_view(self.grid_priorities@),
        }
    }

    /// The number of columns: the model's width.
    pub fn width(&self) -> (r: usize)
        ensures
            r == self.model().width,
    {
        self.width
    }

    /// The number of rows: the model's height.
    pub fn height(&self) -> (r: usize)
        ensures
            r == self.model().height,
    {
        self.height
    }

    /// The cells, row by row: their values are the model's cells.
    pub fn cells(&self) -> (r: &Vec<Vec<GridCell>>)
        ensures
            cells_view(r@) == self.model().cells,
    {
        &self.cells
    }

    /// The tile-size table the grid was built with.
    pub closed spec fn tile_table(&self) -> Seq<(Seq<char>, usize, usize)> {
        size_table(self.tile_sizes@)
    }

    /// The cells and priorities have the grid's size and the size table is usable.
    closed spec fn shape_ok(&self) -> bool {
        &&& has_dims(self.model().cells, self.width as int, self.height as int)
        &&& has_dims(self.model().prios, self.width as int, self.height as int)
        &&& table_ok(self.tile_table())
    }

    /// A well-formed grid: right sizes, a usable size table, and every tile whole.
    pub closed spec fn wf(&self) -> bool {
        &&& self.shape_ok()
        &&& tiles_consistent(self.model().cells, self.width as int, self.height as int)
    }

    /// What `wf` gives callers.
    pub proof fn lemma_wf(&self)
        requires
            self.wf(),
        ensures
            model_wf(self.model()),
            table_ok(self.tile_table()),
    {
    }

    /// The size of the tile named `pb_type` (1 x 1 when the table has none).
    fn get_tile_size(&self, pb_type: &str) -> (r: (usize, usize))
        ensures
            r == tile_size_of(self.tile_table(), pb_type@),
    {
        let mut i = self.tile_sizes.len();
        let ghost table = self.tile_table();
        assert(table.take(i as int) =~= table);
        while i > 0
            invariant
                i <= self.tile_sizes.len(),
                table == size_table(self.tile_sizes@),
                tile_size_of(table, pb_type@) == tile_size_of(table.take(i as int), pb_type@),
            decreases i,
        {
            let ghost t = table.take(i as int);
            assert(t.drop_last() =~= table.take(i - 1));
            assert(t.last() == table[i - 1]);
            if str_eq(self.tile_sizes[i - 1].0.as_str(), pb_type) {
                return (self.tile_sizes[i - 1].1, self.tile_sizes[i - 1].2);
            }
            i = i - 1;
        }
        (1, 1)
    }

    /// The highest priority under the `tw` x `th` rectangle at `(row, col)`
    /// (`i32::MIN` for an empty rectangle).
    fn max_priority_in(&self, row: usize, col: usize, tw: usize, th: usize) -> (m: i32)
        requires
            self.shape_ok(),
            row + th <= self.height,
            col + tw <= self.width,
        ensures
            forall|r: int, c: int|
                in_rect(r, c, row as int, col as int, tw as int, th as int) ==> #[trigger] self.model().prios[r][c] <= m,
            m == i32::MIN || exists|r: int, c: int|
                in_rect(r, c, row as int, col as int, tw as int, th as int) && #[trigger] self.model().prios[r][c] == m,
    {
        let ghost p = self.model().prios;
        let mut m: i32 = i32::MIN;
        let mut dy: usize = 0;
        while dy < th
            invariant
                self.shape_ok(),
                p == self.model().prios,
                row + th <= self.height,
                col + tw <= self.width,
                dy <= th,
                forall|r: int, c: int|
                    scanned(r, c, row as int, col as int, tw as int, dy as int, 0) ==> #[trigger] p[r][c] <= m,
                m == i32::MIN || exists|r: int, c: int|
                    scanned(r, c, row as int, col as int, tw as int, dy as int, 0) && #[trigger] p[r][c] == m,
            decreases th - dy,
        {
            let mut dx: usize = 0;
            while dx < tw
                invariant
                    self.shape_ok(),
                    p == self.model().prios,
                    row + th <= self.height,
                    col + tw <= self.width,
                    dy < th,
                    dx <= tw,
                    forall|r: int, c: int|
                        scanned(r, c, row as int, col as int, tw as int, dy as int, dx as int) ==> #[trigger] p[r][c] <= m,
                    m == i32::MIN || exists|r: int, c: int|
                        scanned(r, c, row as int, col as int, tw as int, dy as int, dx as int) && #[trigger] p[r][c] == m,
                decreases tw - dx,
            {
                let r = row + dy;
                let c = col + dx;
                assert(p[r as int].len() == self.width);
                let v = self.grid_priorities[r][c];
                assert(p[r as int][c as int] == v);
                if v > m {
                    m = v;
                }
                dx = dx + 1;
            }
            dy = dy + 1;
        }
        m
    }

    /// The anchors of the tiles under the `tw` x `th` rectangle at `(row, col)`,
    /// each listed for every cell of its tile met there.
    fn anchors_in(&self, row: usize, col: usize, tw: usize, th: usize) -> (res: (Vec<(usize, usize)>, Ghost<Seq<(int, int)>>))
        requires
            self.wf(),
            row + th <= self.height,
            col + tw <= self.width,
        ensures
            res.1@.len() == res.0.len(),
            forall|j: int|
                #![trigger res.1@[j]]
                0 <= j < res.0.len() ==> in_rect(res.1@[j].0, res.1@[j].1, row as int, col as int, tw as int, th as int)
                    && tile_anchor(self.model().cells[res.1@[j].0][res.1@[j].1], res.1@[j].0, res.1@[j].1) == Some(
                    pair_int(res.0@[j]),
                ),
            forall|r: int, c: int|
                in_rect(r, c, row as int, col as int, tw as int, th as int) && #[trigger] tile_anchor(
                    self.model().cells[r][c],
                    r,
                    c,
                ) is Some ==> exists|j: int|
                    0 <= j < res.0.len() && Some(pair_int(#[trigger] res.0@[j])) == tile_anchor(self.model().cells[r][c], r, c),
    {
        let ghost o = self.model().cells;
        let mut v: Vec<(usize, usize)> = Vec::new();
        let ghost mut wit: Seq<(int, int)> = Seq::empty();
        let mut dy: usize = 0;
        while dy < th
            invariant
                self.wf(),
                o == self.model().cells,
                row + th <= self.height,
                col + tw <= self.width,
                dy <= th,
                wit.len() == v.len(),
                forall|j: int|
                    #![trigger wit[j]]
                    0 <= j < v.len() ==> in_rect(wit[j].0, wit[j].1, row as int, col as int, tw as int, th as int)
                        && tile_anchor(o[wit[j].0][wit[j].1], wit[j].0, wit[j].1) == Some(pair_int(v@[j])),
                forall|r: int, c: int|
                    scanned(r, c, row as int, col as int, tw as int, dy as int, 0) && #[trigger] tile_anchor(
                        o[r][c],
                        r,
                        c,
                    ) is Some ==> exists|j: int|
                        0 <= j < v.len() && Some(pair_int(#[trigger] v@[j])) == tile_anchor(o[r][c], r, c),
            decreases th - dy,
        {
            let mut dx: usize = 0;
            while dx < tw
                invariant
                    self.wf(),
                    o == self.model().cells,
                    row + th <= self.height,
                    col + tw <= self.width,
                    dy < th,
                    dx <= tw,
                    wit.len() == v.len(),
                    forall|j: int|
                        #![trigger wit[j]]
                        0 <= j < v.len() ==> in_rect(wit[j].0, wit[j].1, row as int, col as int, tw as int, th as int)
                            && tile_anchor(o[wit[j].0][wit[j].1], wit[j].0, wit[j].1) == Some(pair_int(v@[j])),
                    forall|r: int, c: int|
                        scanned(r, c, row as int, col as int, tw as int, dy as int, dx as int) && #[trigger] tile_anchor(
                            o[r][c],
                            r,
                            c,
                        ) is Some ==> exists|j: int|
                            0 <= j < v.len() && Some(pair_int(#[trigger] v@[j])) == tile_anchor(o[r][c], r, c),
                decreases tw - dx,
            {
                let r = row + dy;
                let c = col + dx;
                assert(o[r as int].len() == self.width);
                let ghost before = v@;
                let ghost wbefore = wit;
                assert(o[r as int][c as int] == self.cells@[r as int]@[c as int]@);
                match &self.cells[r][c] {
                    GridCell::BlockAnchor { .. } => {
                        v.push((r, c));
                    },
                    GridCell::BlockOccupied { anchor_row, anchor_col, .. } => {
                        v.push((*anchor_row, *anchor_col));
                    },
                    GridCell::Empty => {},
                }
                proof {
                    if v.len() > before.len() {
                        wit = wit.push((r as int, c as int));
                    }
                }
                assert forall|j: int|
                    #![trigger wit[j]]
                    0 <= j < v.len() implies in_rect(wit[j].0, wit[j].1, row as int, col as int, tw as int, th as int)
                        && tile_anchor(o[wit[j].0][wit[j].1], wit[j].0, wit[j].1) == Some(pair_int(v@[j])) by {
                    if j < before.len() {
                        assert(v@[j] == before[j]);
                        assert(wit[j] == wbefore[j]);
                    }
                }
                assert forall|r2: int, c2: int|
                    scanned(r2, c2, row as int, col as int, tw as int, dy as int, dx + 1) && #[trigger] tile_anchor(
                        o[r2][c2],
                        r2,
                        c2,
                    ) is Some implies exists|j: int|
                        0 <= j < v.len() && Some(pair_int(#[trigger] v@[j])) == tile_anchor(o[r2][c2], r2, c2) by {
                    if r2 == r && c2 == c {
                        assert(Some(pair_int(v@[v.len() - 1])) == tile_anchor(o[r2][c2], r2, c2));
                    } else {
                        assert(scanned(r2, c2, row as int, col as int, tw as int, dy as int, dx as int));
                        let j = choose|j: int|
                            0 <= j < before.len() && Some(pair_int(#[trigger] before[j])) == tile_anchor(o[r2][c2], r2, c2);
                        assert(v@[j] == before[j]);
                    }
                }
                dx = dx + 1;
            }
            assert forall|r2: int, c2: int|
                scanned(r2, c2, row as int, col as int, tw as int, dy + 1, 0) && #[trigger] tile_anchor(
                    o[r2][c2],
                    r2,
                    c2,
                ) is Some implies exists|j: int|
                    0 <= j < v.len() && Some(pair_int(#[trigger] v@[j])) == tile_anchor(o[r2][c2], r2, c2) by {
                assert(scanned(r2, c2, row as int, col as int, tw as int, dy as int, tw as int));
            }
            dy = dy + 1;
        }
        (v, Ghost(wit))
    }

    /// Sets the cell `(r, c)` to `v` and its priority to `p`.
    fn set_cell(&mut self, r: usize, c: usize, v: GridCell, p: i32)
        requires
            old(self).shape_ok(),
            r < old(self).height,
            c < old(self).width,
        ensures
            final(self).shape_ok(),
            final(self).width == old(self).width,
            final(self).height == old(self).height,
            final(self).tile_table() == old(self).tile_table(),
            final(self).model().cells == old(self).model().cells.update(
                r as int,
                old(self).model().cells[r as int].update(c as int, v@),
            ),
            final(self).model().prios == old(self).model().prios.update(
                r as int,
                old(self).model().prios[r as int].update(c as int, p),
            ),
    {
        let ghost c0 = self.model().cells;
        let ghost p0 = self.model().prios;
        assert(c0[r as int].len() == self.width);
        assert(p0[r as int].len() == self.width);
        let ghost vv = v@;
        let ghost vg = v;
        let ghost cv = self.cells@;
        self.cells[r][c] = v;
        self.grid_priorities[r][c] = p;
        assert(self.cells@[r as int]@ == cv[r as int]@.update(c as int, vg));
        assert forall|i: int| 0 <= i < c0.len() implies #[trigger] self.model().cells[i] == c0.update(
            r as int,
            c0[r as int].update(c as int, vv),
        )[i] by {
            if i == r {
                assert(self.model().cells[i] =~= c0[r as int].update(c as int, vv));
            } else {
                assert(self.cells@[i] == cv[i]);
            }
        }
        assert(self.model().cells =~= c0.update(r as int, c0[r as int].update(c as int, vv)));
        assert(self.model().prios =~= p0.update(r as int, p0[r as int].update(c as int, p)));
    }

    /// Removes the tile anchored at `(ar, ac)` (when it is still there), given the
    /// grid `o` it was consistent in and the anchors `s` already removed from it.
    fn clear_anchor(
        &mut self,
        ar: usize,
        ac: usize,
        Ghost(o): Ghost<Seq<Seq<CellView>>>,
        Ghost(op): Ghost<Seq<Seq<i32>>>,
        Ghost(s): Ghost<Set<(int, int)>>,
    )
        requires
            old(self).shape_ok(),
            tiles_consistent(o, old(self).width as int, old(self).height as int),
            has_dims(o, old(self).width as int, old(self).height as int),
            has_dims(op, old(self).width as int, old(self).height as int),
            ar < old(self).height,
            ac < old(self).width,
            forall|r: int, c: int|
                0 <= r < old(self).height && 0 <= c < old(self).width ==> #[trigger] old(self).model().cells[r][c]
                    == clear_state(o, s, r, c) && old(self).model().prios[r][c] == clear_prio(o, op, s, r, c),
        ensures
            final(self).shape_ok(),
            final(self).width == old(self).width,
            final(self).height == old(self).height,
            final(self).tile_table() == old(self).tile_table(),
            forall|r: int, c: int|
                0 <= r < final(self).height && 0 <= c < final(self).width ==> #[trigger] final(self).model().cells[r][c]
                    == clear_state(o, s.insert((ar as int, ac as int)), r, c) && final(self).model().prios[r][c]
                    == clear_prio(o, op, s.insert((ar as int, ac as int)), r, c),
    {
        let ghost a = (ar as int, ac as int);
        let ghost w = self.width as int;
        let ghost h = self.height as int;
        assert(self.model().cells[ar as int][ac as int] == clear_state(o, s, ar as int, ac as int));
        assert(cell_ok(o, w, h, ar as int, ac as int));
        assert(self.model().cells[ar as int].len() == w);
        let size = match &self.cells[ar][ac] {
            GridCell::BlockAnchor { width, height, .. } => Some((*width, *height)),
            _ => None,
        };
        if let Some((ow, oh)) = size {
            assert(!covered_by_set(o, s, ar as int, ac as int));
            assert(o[ar as int][ac as int] matches CellView::Anchor(_, tw, th) && tw == ow && th == oh);
            let ghost c0 = self.model().cells;
            let ghost p0 = self.model().prios;
            let mut dy: usize = 0;
            while dy < oh
                invariant
                    self.shape_ok(),
                    self.width == w,
                    self.height == h,
                    self.tile_table() == old(self).tile_table(),
                    ar + oh <= h,
                    ac + ow <= w,
                    dy <= oh,
                    forall|r: int, c: int|
                        0 <= r < h && 0 <= c < w ==> #[trigger] self.model().cells[r][c] == (if scanned(
                            r,
                            c,
                            ar as int,
                            ac as int,
                            ow as int,
                            dy as int,
                            0,
                        ) {
                            CellView::Empty
                        } else {
                            c0[r][c]
                        }) && self.model().prios[r][c] == (if scanned(r, c, ar as int, ac as int, ow as int, dy as int, 0) {
                            i32::MIN
                        } else {
                            p0[r][c]
                        }),
                decreases oh - dy,
            {
                let mut dx: usize = 0;
                while dx < ow
                    invariant
                        self.shape_ok(),
                        self.width == w,
                        self.height == h,
                        self.tile_table() == old(self).tile_table(),
                        ar + oh <= h,
                        ac + ow <= w,
                        dy < oh,
                        dx <= ow,
                        forall|r: int, c: int|
                            0 <= r < h && 0 <= c < w ==> #[trigger] self.model().cells[r][c] == (if scanned(
                                r,
                                c,
                                ar as int,
                                ac as int,
                                ow as int,
                                dy as int,
                                dx as int,
                            ) {
                                CellView::Empty
                            } else {
                                c0[r][c]
                            }) && self.model().prios[r][c] == (if scanned(
                                r,
                                c,
                                ar as int,
                                ac as int,
                                ow as int,
                                dy as int,
                                dx as int,
                            ) {
                                i32::MIN
                            } else {
                                p0[r][c]
                            }),
                    decreases ow - dx,
                {
                    let cr = ar + dy;
                    let cc = ac + dx;
                    if cr < self.height && cc < self.width {
                        self.set_cell(cr, cc, GridCell::Empty, i32::MIN);
                    }
                    dx = dx + 1;
                }
                dy = dy + 1;
            }
            assert forall|r: int, c: int| 0 <= r < h && 0 <= c < w implies #[trigger] self.model().cells[r][c]
                == clear_state(o, s.insert(a), r, c) && self.model().prios[r][c] == clear_prio(o, op, s.insert(a), r, c) by {
                assert(c0[r][c] == clear_state(o, s, r, c));
                if covers(o, ar as int, ac as int, r, c) {
                    assert(s.insert(a).contains((ar as int, ac as int)));
                    assert(covered_by_set(o, s.insert(a), r, c));
                } else {
                    if covered_by_set(o, s.insert(a), r, c) {
                        let (br, bc) = choose|br: int, bc: int| s.insert(a).contains((br, bc)) && #[trigger] covers(o, br, bc, r, c);
                        assert(s.contains((br, bc)));
                    }
                }
            }
        } else {
            proof {
                if o[ar as int][ac as int] is Anchor {
                    assert(covered_by_set(o, s, ar as int, ac as int));
                    let (br, bc) = choose|br: int, bc: int| s.contains((br, bc)) && #[trigger] covers(o, br, bc, ar as int, ac as int);
                    lemma_anchor_alone(o, w, h, br, bc, ar as int, ac as int);
                    assert(s.insert(a) =~= s);
                } else {
                    assert forall|r: int, c: int| 0 <= r < h && 0 <= c < w implies #[trigger] self.model().cells[r][c]
                        == clear_state(o, s.insert(a), r, c) && self.model().prios[r][c] == clear_prio(o, op, s.insert(a), r, c) by {
                        if covered_by_set(o, s.insert(a), r, c) {
                            let (br, bc) = choose|br: int, bc: int| s.insert(a).contains((br, bc)) && #[trigger] covers(o, br, bc, r, c);
                            assert(s.contains((br, bc)));
                        }
                    }
                }
            }
        }
    }

    /// Writes the tile `pb_type` of `tw` x `th` at `(row, col)` with `priority`.
    fn put_tile(&mut self, row: usize, col: usize, pb_type: &str, tw: usize, th: usize, priority: i32)
        requires
            old(self).shape_ok(),
            row + th <= old(self).height,
            col + tw <= old(self).width,
            tw >= 1,
            th >= 1,
        ensures
            final(self).shape_ok(),
            final(self).width == old(self).width,
            final(self).height == old(self).height,
            final(self).tile_table() == old(self).tile_table(),
            forall|r: int, c: int|
                0 <= r < final(self).height && 0 <= c < final(self).width ==> #[trigger] final(self).model().cells[r][c]
                    == (if in_rect(r, c, row as int, col as int, tw as int, th as int) {
                    new_cell(r, c, row as int, col as int, pb_type@, tw, th)
                } else {
                    old(self).model().cells[r][c]
                }) && final(self).model().prios[r][c] == (if in_rect(r, c, row as int, col as int, tw as int, th as int) {
                    priority
                } else {
                    old(self).model().prios[r][c]
                }),
    {
        let ghost w = self.width as int;
        let ghost h = self.height as int;
        let ghost c0 = self.model().cells;
        let ghost p0 = self.model().prios;
        let empty = "EMPTY";
        proof {
            reveal_strlit("EMPTY");
        }
        assert(row < h && col < w);
        assert(empty@ =~= empty_name());
        if str_eq(pb_type, empty) {
            self.set_cell(row, col, GridCell::Empty, priority);
        } else {
            let name = pb_type.to_string();
            assert(name@ == pb_type@);
            self.set_cell(row, col, GridCell::BlockAnchor { pb_type: name, width: tw, height: th }, priority);
        }
        assert(self.model().cells[row as int][col as int] == new_cell(row as int, col as int, row as int, col as int, pb_type@, tw, th));
        let mut dy: usize = 0;
        while dy < th
            invariant
                self.shape_ok(),
                self.width == w,
                self.height == h,
                self.tile_table() == old(self).tile_table(),
                row + th <= h,
                col + tw <= w,
                tw >= 1,
                dy <= th,
                forall|r: int, c: int|
                    0 <= r < h && 0 <= c < w ==> #[trigger] self.model().cells[r][c] == (if (r == row && c == col)
                        || scanned(r, c, row as int, col as int, tw as int, dy as int, 0) {
                        new_cell(r, c, row as int, col as int, pb_type@, tw, th)
                    } else {
                        c0[r][c]
                    }) && self.model().prios[r][c] == (if (r == row && c == col) || scanned(
                        r,
                        c,
                        row as int,
                        col as int,
                        tw as int,
                        dy as int,
                        0,
                    ) {
                        priority
                    } else {
                        p0[r][c]
                    }),
            decreases th - dy,
        {
            let mut dx: usize = 0;
            while dx < tw
                invariant
                    self.shape_ok(),
                    self.width == w,
                    self.height == h,
                    self.tile_table() == old(self).tile_table(),
                    row + th <= h,
                    col + tw <= w,
                    dy < th,
                    dx <= tw,
                    forall|r: int, c: int|
                        0 <= r < h && 0 <= c < w ==> #[trigger] self.model().cells[r][c] == (if (r == row && c == col)
                            || scanned(r, c, row as int, col as int, tw as int, dy as int, dx as int) {
                            new_cell(r, c, row as int, col as int, pb_type@, tw, th)
                        } else {
                            c0[r][c]
                        }) && self.model().prios[r][c] == (if (r == row && c == col) || scanned(
                            r,
                            c,
                            row as int,
                            col as int,
                            tw as int,
                            dy as int,
                            dx as int,
                        ) {
                            priority
                        } else {
                            p0[r][c]
                        }),
                decreases tw - dx,
            {
                if !(dx == 0 && dy == 0) && row + dy < self.height && col + dx < self.width {
                    let occupied = GridCell::BlockOccupied { pb_type: pb_type.to_string(), anchor_row: row, anchor_col: col };
                    self.set_cell(row + dy, col + dx, occupied, priority);
                }
                dx = dx + 1;
            }
            dy = dy + 1;
        }
    }

    /// Places the tile `pb_type`, with its size from the table, at `(row, col)`
    /// with `priority`. Returns whether it was placed: not where it does not fit,
    /// nor where a cell under it has a higher priority; a placement of equal
    /// priority replaces what is there, so that later rules win ties. Every tile it
    /// overlaps is removed whole, its cells left empty with the lowest priority.
    fn place_tile(&mut self, row: usize, col: usize, pb_type: &str, priority: i32) -> (placed: bool)
        requires
            old(self).wf(),
        ensures
            final(self).wf(),
            final(self).width == old(self).width,
            final(self).height == old(self).height,
            final(self).tile_table() == old(self).tile_table(),
            (final(self).model(), placed) == place_named(
                old(self).model(),
                old(self).tile_table(),
                row as int,
                col as int,
                pb_type@,
                priority,
            ),
    {
        let ghost g0 = self.model();
        let ghost w = self.width as int;
        let ghost h = self.height as int;
        let (tw, th) = self.get_tile_size(pb_type);
        proof {
            lemma_tile_size_pos(self.tile_table(), pb_type@);
        }
        if th > self.height || row > self.height - th || tw > self.width || col > self.width - tw {
            return false;
        }
        let max_priority = self.max_priority_in(row, col, tw, th);
        if priority < max_priority {
            proof {
                let (r, c) = choose|r: int, c: int|
                    in_rect(r, c, row as int, col as int, tw as int, th as int) && #[trigger] g0.prios[r][c] == max_priority;
                assert(priority < g0.prios[r][c]);
            }
            return false;
        }
        assert(!place_blocked(g0.prios, row as int, col as int, tw as int, th as int, priority)) by {
            if place_blocked(g0.prios, row as int, col as int, tw as int, th as int, priority) {
                let (r, c) = choose|r: int, c: int|
                    in_rect(r, c, row as int, col as int, tw as int, th as int) && priority < #[trigger] g0.prios[r][c];
                assert(g0.prios[r][c] <= max_priority);
            }
        }
        let (to_clear, Ghost(wit)) = self.anchors_in(row, col, tw, th);
        let ghost o = g0.cells;
        let ghost op = g0.prios;
        assert forall|j: int| 0 <= j < to_clear.len() implies (#[trigger] to_clear@[j]).0 < h && to_clear@[j].1 < w by {
            assert(wit[j] == wit[j]);
            assert(cell_ok(o, w, h, wit[j].0, wit[j].1));
        }
        let ghost mut s: Set<(int, int)> = Set::empty();
        assert forall|r: int, c: int| 0 <= r < h && 0 <= c < w implies #[trigger] self.model().cells[r][c]
            == clear_state(o, s, r, c) && self.model().prios[r][c] == clear_prio(o, op, s, r, c) by {}
        let mut k: usize = 0;
        while k < to_clear.len()
            invariant
                self.shape_ok(),
                self.width == w,
                self.height == h,
                self.tile_table() == old(self).tile_table(),
                model_wf(g0),
                o == g0.cells,
                op == g0.prios,
                w == g0.width,
                h == g0.height,
                k <= to_clear.len(),
                forall|j: int| 0 <= j < to_clear.len() ==> (#[trigger] to_clear@[j]).0 < h && to_clear@[j].1 < w,
                forall|a: (int, int)| #[trigger] s.contains(a) <==> exists|j: int| 0 <= j < k && pair_int(#[trigger] to_clear@[j]) == a,
                forall|r: int, c: int|
                    0 <= r < h && 0 <= c < w ==> #[trigger] self.model().cells[r][c] == clear_state(o, s, r, c)
                        && self.model().prios[r][c] == clear_prio(o, op, s, r, c),
            decreases to_clear.len() - k,
        {
            let (ar, ac) = to_clear[k];
            assert(to_clear@[k as int] == (ar, ac));
            self.clear_anchor(ar, ac, Ghost(o), Ghost(op), Ghost(s));
            proof {
                let s2 = s.insert((ar as int, ac as int));
                assert forall|a: (int, int)| #[trigger] s2.contains(a) <==> exists|j: int|
                    0 <= j < k + 1 && pair_int(#[trigger] to_clear@[j]) == a by {
                    if s2.contains(a) && a != (ar as int, ac as int) {
                        assert(s.contains(a));
                    }
                    if a == (ar as int, ac as int) {
                        assert(pair_int(to_clear@[k as int]) == a);
                    }
                }
                s = s2;
            }
            k = k + 1;
        }
        self.put_tile(row, col, pb_type, tw, th, priority);
        proof {
            lemma_place_consistent(g0, row as int, col as int, pb_type@, tw, th, priority);
            let g1 = place(g0, row as int, col as int, pb_type@, tw, th, priority).0;
            assert forall|r: int, c: int| 0 <= r < h && 0 <= c < w implies #[trigger] self.model().cells[r][c]
                == g1.cells[r][c] && self.model().prios[r][c] == g1.prios[r][c] by {
                if !in_rect(r, c, row as int, col as int, tw as int, th as int) {
                    let cl = cleared_by(o, r, c, row as int, col as int, tw as int, th as int);
                    if covered_by_set(o, s, r, c) {
                        let (br, bc) = choose|br: int, bc: int| s.contains((br, bc)) && #[trigger] covers(o, br, bc, r, c);
                        let j = choose|j: int| 0 <= j < k && pair_int(#[trigger] to_clear@[j]) == (br, bc);
                        assert(wit[j] == wit[j]);
                        assert(tile_anchor(o[wit[j].0][wit[j].1], wit[j].0, wit[j].1) == Some((br, bc)));
                        assert(overlapped(o, br, bc, row as int, col as int, tw as int, th as int));
                        assert(cl);
                    }
                    if cl {
                        let (br, bc) = choose|br: int, bc: int|
                            #[trigger] covers(o, br, bc, r, c) && overlapped(o, br, bc, row as int, col as int, tw as int, th as int);
                        let (r2, c2) = choose|r2: int, c2: int|
                            in_rect(r2, c2, row as int, col as int, tw as int, th as int) && #[trigger] tile_anchor(o[r2][c2], r2, c2)
                                == Some((br, bc));
                        let j = choose|j: int|
                            0 <= j < to_clear.len() && Some(pair_int(#[trigger] to_clear@[j])) == tile_anchor(o[r2][c2], r2, c2);
                        assert(s.contains((br, bc)));
                        assert(covered_by_set(o, s, r, c));
                    }
                }
            }
            assert forall|r: int| 0 <= r < h implies #[trigger] self.model().cells[r] =~= g1.cells[r] by {
                assert forall|c: int| 0 <= c < w implies #[trigger] self.model().cells[r][c] == g1.cells[r][c] by {
                    assert(self.model().cells[r][c] == g1.cells[r][c]);
                }
            }
            assert forall|r: int| 0 <= r < h implies #[trigger] self.model().prios[r] =~= g1.prios[r] by {
                assert forall|c: int| 0 <= c < w implies #[trigger] self.model().prios[r][c] == g1.prios[r][c] by {
                    assert(self.model().cells[r][c] == g1.cells[r][c]);
                }
            }
            assert(self.model().cells =~= g1.cells);
            assert(self.model().prios =~= g1.prios);
            assert(self.model() == g1);
        }
        true
    }

    /// Along row `row`: places the tile at each column, moving past it where it
    /// was placed and one column on where it was not.
    fn place_along_row(&mut self, row: usize, pb_type: &str, priority: i32)
        requires
            old(self).wf(),
        ensures
            final(self).wf(),
            final(self).width == old(self).width,
            final(self).height == old(self).height,
            final(self).tile_table() == old(self).tile_table(),
            final(self).model() == along_row(
                old(self).model(),
                old(self).tile_table(),
                pb_type@,
                priority,
                old(self).width as int,
                row as int,
                0,
            ),
    {
        let ghost w = self.width as int;
        let ghost h = self.height as int;
        let ghost table = self.tile_table();
        let (tw, th) = self.get_tile_size(pb_type);
        proof {
            lemma_tile_size_pos(table, pb_type@);
        }
        let ghost target = along_row(self.model(), table, pb_type@, priority, w, row as int, 0);
        let mut col: usize = 0;
        while col < self.width
            invariant
                self.wf(),
                self.width == w,
                self.height == h,
                self.tile_table() == table,
                (tw, th) == tile_size_of(table, pb_type@),
                tw >= 1,
                along_row(self.model(), table, pb_type@, priority, w, row as int, col as int) == target,
            decreases w - col,
        {
            if self.place_tile(row, col, pb_type, priority) {
                col = col + tw;
            } else {
                col = col + 1;
            }
        }
    }

    /// Down column `col`: places the tile at each row, moving past it where it
    /// was placed and one row on where it was not.
    fn place_down_col(&mut self, col: usize, pb_type: &str, priority: i32)
        requires
            old(self).wf(),
        ensures
            final(self).wf(),
            final(self).width == old(self).width,
            final(self).height == old(self).height,
            final(self).tile_table() == old(self).tile_table(),
            final(self).model() == down_col(
                old(self).model(),
                old(self).tile_table(),
                pb_type@,
                priority,
                old(self).height as int,
                col as int,
                0,
            ),
    {
        let ghost w = self.width as int;
        let ghost h = self.height as int;
        let ghost table = self.tile_table();
        let (tw, th) = self.get_tile_size(pb_type);
        proof {
            lemma_tile_size_pos(table, pb_type@);
        }
        let ghost target = down_col(self.model(), table, pb_type@, priority, h, col as int, 0);
        let mut row: usize = 0;
        while row < self.height
            invariant
                self.wf(),
                self.width == w,
                self.height == h,
                self.tile_table() == table,
                (tw, th) == tile_size_of(table, pb_type@),
                th >= 1,
                down_col(self.model(), table, pb_type@, priority, h, col as int, row as int) == target,
            decreases h - row,
        {
            if self.place_tile(row, col, pb_type, priority) {
                row = row + th;
            } else {
                row = row + 1;
            }
        }
    }

    /// The fill rule: every row a tile's height apart, each as `place_along_row`.
    fn apply_fill(&mut self, pb_type: &str, priority: i32)
        requires
            old(self).wf(),
        ensures
            final(self).wf(),
            final(self).width == old(self).width,
            final(self).height == old(self).height,
            final(self).tile_table() == old(self).tile_table(),
            final(self).model() == fill_rows(
                old(self).model(),
                old(self).tile_table(),
                pb_type@,
                priority,
                old(self).width as int,
                old(self).height as int,
                0,
            ),
    {
        let ghost w = self.width as int;
        let ghost h = self.height as int;
        let ghost table = self.tile_table();
        let (tw, th) = self.get_tile_size(pb_type);
        proof {
            lemma_tile_size_pos(table, pb_type@);
        }
        let ghost target = fill_rows(self.model(), table, pb_type@, priority, w, h, 0);
        let mut row: usize = 0;
        while row < self.height
            invariant
                self.wf(),
                self.width == w,
                self.height == h,
                self.tile_table() == table,
                (tw, th) == tile_size_of(table, pb_type@),
                th >= 1,
                fill_rows(self.model(), table, pb_type@, priority, w, h, row as int) == target,
            decreases h - row,
        {
            let ghost m0 = self.model();
            self.place_along_row(row, pb_type, priority);
            assert(fill_rows(m0, table, pb_type@, priority, w, h, row as int) == fill_rows(
                self.model(),
                table,
                pb_type@,
                priority,
                w,
                h,
                row + th,
            ));
            if self.height - row <= th {
                assert(fill_rows(self.model(), table, pb_type@, priority, w, h, row + th) == self.model());
                row = self.height;
            } else {
                row = row + th;
            }
        }
    }

    /// The value of a position expression on this grid for a tile of `tw` x `th`.
    fn eval_expr(&self, expr: &str, tile_width: usize, tile_height: usize) -> (r: Option<usize>)
        requires
            ev_ok(expr@, tile_width, tile_height, self.width as int, self.height as int),
        ensures
            r == ev(expr@, tile_width, tile_height, self.width as int, self.height as int),
    {
        eval_grid_expr(expr, tile_width, tile_height, self.width, self.height)
    }

    /// Places the tile at `(row, col)` when that cell is in the grid.
    fn place_if_inside(&mut self, row: usize, col: usize, pb_type: &str, priority: i32)
        requires
            old(self).wf(),
        ensures
            final(self).wf(),
            final(self).width == old(self).width,
            final(self).height == old(self).height,
            final(self).tile_table() == old(self).tile_table(),
            final(self).model() == place_if_inside(
                old(self).model(),
                old(self).tile_table(),
                pb_type@,
                priority,
                old(self).width as int,
                old(self).height as int,
                row as int,
                col as int,
            ),
    {
        if row < self.height && col < self.width {
            self.place_tile(row, col, pb_type, priority);
        }
    }

    /// In column `x`: places the tile at rows `start_y`, `start_y + incr`, ...
    fn place_col_steps(&mut self, x: usize, start_y: usize, incr: usize, pb_type: &str, priority: i32)
        requires
            old(self).wf(),
            incr >= 1,
        ensures
            final(self).wf(),
            final(self).width == old(self).width,
            final(self).height == old(self).height,
            final(self).tile_table() == old(self).tile_table(),
            final(self).model() == col_steps(
                old(self).model(),
                old(self).tile_table(),
                pb_type@,
                priority,
                old(self).height as int,
                x as int,
                start_y as int,
                incr as int,
            ),
    {
        let ghost w = self.width as int;
        let ghost h = self.height as int;
        let ghost table = self.tile_table();
        let ghost target = col_steps(self.model(), table, pb_type@, priority, h, x as int, start_y as int, incr as int);
        let mut y = start_y;
        while y < self.height
            invariant
                self.wf(),
                self.width == w,
                self.height == h,
                self.tile_table() == table,
                incr >= 1,
                col_steps(self.model(), table, pb_type@, priority, h, x as int, y as int, incr as int) == target,
            decreases h - y,
        {
            let ghost m0 = self.model();
            self.place_tile(y, x, pb_type, priority);
            assert(col_steps(m0, table, pb_type@, priority, h, x as int, y as int, incr as int) == col_steps(
                self.model(),
                table,
                pb_type@,
                priority,
                h,
                x as int,
                y + incr,
                incr as int,
            ));
            if self.height - y <= incr {
                assert(col_steps(self.model(), table, pb_type@, priority, h, x as int, y + incr, incr as int) == self.model());
                y = self.height;
            } else {
                y = y + incr;
            }
        }
    }

    /// Columns `start_x`, `start_x + repeat`, ... of the grid, each as
    /// `place_col_steps` from `start_y`.
    fn place_col_repeats(&mut self, start_x: usize, start_y: usize, incr: usize, repeat: usize, pb_type: &str, priority: i32)
        requires
            old(self).wf(),
            repeat >= 1,
            start_x < old(self).width ==> incr >= 1,
        ensures
            final(self).wf(),
            final(self).width == old(self).width,
            final(self).height == old(self).height,
            final(self).tile_table() == old(self).tile_table(),
            final(self).model() == col_repeats(
                old(self).model(),
                old(self).tile_table(),
                pb_type@,
                priority,
                old(self).width as int,
                old(self).height as int,
                start_x as int,
                start_y as int,
                incr as int,
                repeat as int,
            ),
    {
        let ghost w = self.width as int;
        let ghost h = self.height as int;
        let ghost table = self.tile_table();
        let ghost target = col_repeats(
            self.model(),
            table,
            pb_type@,
            priority,
            w,
            h,
            start_x as int,
            start_y as int,
            incr as int,
            repeat as int,
        );
        let mut x = start_x;
        while x < self.width
            invariant
                self.wf(),
                self.width == w,
                self.height == h,
                self.tile_table() == table,
                repeat >= 1,
                x < w ==> incr >= 1,
                col_repeats(self.model(), table, pb_type@, priority, w, h, x as int, start_y as int, incr as int, repeat as int)
                    == target,
            decreases w - x,
        {
            let ghost m0 = self.model();
            self.place_col_steps(x, start_y, incr, pb_type, priority);
            assert(col_repeats(m0, table, pb_type@, priority, w, h, x as int, start_y as int, incr as int, repeat as int)
                == col_repeats(self.model(), table, pb_type@, priority, w, h, x + repeat, start_y as int, incr as int, repeat as int));
            if self.width - x <= repeat {
                assert(col_repeats(self.model(), table, pb_type@, priority, w, h, x + repeat, start_y as int, incr as int, repeat as int)
                    == self.model());
                x = self.width;
            } else {
                x = x + repeat;
            }
        }
    }

    /// In row `y`: places the tile at columns `start_x`, `start_x + incr`, ...
    /// below `end`.
    fn place_row_steps(&mut self, y: usize, start_x: usize, end: usize, incr: usize, pb_type: &str, priority: i32)
        requires
            old(self).wf(),
            incr >= 1,
        ensures
            final(self).wf(),
            final(self).width == old(self).width,
            final(self).height == old(self).height,
            final(self).tile_table() == old(self).tile_table(),
            final(self).model() == row_steps(
                old(self).model(),
                old(self).tile_table(),
                pb_type@,
                priority,
                end - 1,
                y as int,
                start_x as int,
                incr as int,
            ),
    {
        let ghost w = self.width as int;
        let ghost h = self.height as int;
        let ghost table = self.tile_table();
        let ghost target = row_steps(self.model(), table, pb_type@, priority, end - 1, y as int, start_x as int, incr as int);
        let mut x = start_x;
        while x < end
            invariant
                self.wf(),
                self.width == w,
                self.height == h,
                self.tile_table() == table,
                incr >= 1,
                row_steps(self.model(), table, pb_type@, priority, end - 1, y as int, x as int, incr as int) == target,
            decreases end - x,
        {
            let ghost m0 = self.model();
            self.place_tile(y, x, pb_type, priority);
            assert(row_steps(m0, table, pb_type@, priority, end - 1, y as int, x as int, incr as int) == row_steps(
                self.model(),
                table,
                pb_type@,
                priority,
                end - 1,
                y as int,
                x + incr,
                incr as int,
            ));
            if end - x <= incr {
                assert(row_steps(self.model(), table, pb_type@, priority, end - 1, y as int, x + incr, incr as int)
                    == self.model());
                x = end;
            } else {
                x = x + incr;
            }
        }
    }

    /// Rows `start_y`, `start_y + repeat`, ... below `end_y`, each as
    /// `place_row_steps` from `start_x` below `end_x`.
    fn place_row_repeats(
        &mut self,
        start_y: usize,
        end_y: usize,
        start_x: usize,
        end_x: usize,
        incr: usize,
        repeat: usize,
        pb_type: &str,
        priority: i32,
    )
        requires
            old(self).wf(),
            repeat >= 1,
            start_y < end_y ==> incr >= 1,
        ensures
            final(self).wf(),
            final(self).width == old(self).width,
            final(self).height == old(self).height,
            final(self).tile_table() == old(self).tile_table(),
            final(self).model() == row_repeats(
                old(self).model(),
                old(self).tile_table(),
                pb_type@,
                priority,
                end_x - 1,
                end_y - 1,
                start_y as int,
                start_x as int,
                incr as int,
                repeat as int,
            ),
    {
        let ghost w = self.width as int;
        let ghost h = self.height as int;
        let ghost table = self.tile_table();
        let ghost target = row_repeats(
            self.model(),
            table,
            pb_type@,
            priority,
            end_x - 1,
            end_y - 1,
            start_y as int,
            start_x as int,
            incr as int,
            repeat as int,
        );
        let mut y = start_y;
        while y < end_y
            invariant
                self.wf(),
                self.width == w,
                self.height == h,
                self.tile_table() == table,
                repeat >= 1,
                y < end_y ==> incr >= 1,
                row_repeats(
                    self.model(),
                    table,
                    pb_type@,
                    priority,
                    end_x - 1,
                    end_y - 1,
                    y as int,
                    start_x as int,
                    incr as int,
                    repeat as int,
                ) == target,
            decreases end_y - y,
        {
            let ghost m0 = self.model();
            self.place_row_steps(y, start_x, end_x, incr, pb_type, priority);
            assert(row_repeats(m0, table, pb_type@, priority, end_x - 1, end_y - 1, y as int, start_x as int, incr as int, repeat as int)
                == row_repeats(self.model(), table, pb_type@, priority, end_x - 1, end_y - 1, y + repeat, start_x as int, incr as int, repeat as int));
            if end_y - y <= repeat {
                assert(row_repeats(self.model(), table, pb_type@, priority, end_x - 1, end_y - 1, y + repeat, start_x as int, incr as int, repeat as int)
                    == self.model());
                y = end_y;
            } else {
                y = y + repeat;
            }
        }
    }

    /// Applies one rule of a layout to the grid.
    fn apply_grid_location(&mut self, location: &GridLocation)
        requires
            old(self).wf(),
            location_ok(old(self).tile_table(), *location, old(self).width as int, old(self).height as int),
        ensures
            final(self).wf(),
            final(self).width == old(self).width,
            final(self).height == old(self).height,
            final(self).tile_table() == old(self).tile_table(),
            final(self).model() == apply_location(old(self).model(), old(self).tile_table(), *location),
    {
        match location {
            GridLocation::Fill(fill) => {
                self.apply_fill(fill.pb_type.as_str(), fill.priority);
            },
            GridLocation::Perimeter(perimeter) => {
                let pb = perimeter.pb_type.as_str();
                // Top edge, then bottom edge
                self.place_along_row(0, pb, perimeter.priority);
                if self.height > 1 {
                    self.place_along_row(self.height - 1, pb, perimeter.priority);
                }
                // Left edge, then right edge
                self.place_down_col(0, pb, perimeter.priority);
                if self.width > 1 {
                    self.place_down_col(self.width - 1, pb, perimeter.priority);
                }
            },
            GridLocation::Corners(corners) => {
                let pb = corners.pb_type.as_str();
                let last_col = self.width.saturating_sub(1);
                let last_row = self.height.saturating_sub(1);
                self.place_if_inside(0, 0, pb, corners.priority);
                self.place_if_inside(0, last_col, pb, corners.priority);
                self.place_if_inside(last_row, 0, pb, corners.priority);
                self.place_if_inside(last_row, last_col, pb, corners.priority);
            },
            GridLocation::Single(single) => {
                let pb = single.pb_type.as_str();
                let (tile_width, tile_height) = self.get_tile_size(pb);
                let x = self.eval_expr(single.x_expr.as_str(), tile_width, tile_height);
                let y = self.eval_expr(single.y_expr.as_str(), tile_width, tile_height);
                if let (Some(x), Some(y)) = (x, y) {
                    self.place_if_inside(y, x, pb, single.priority);
                }
            },
            GridLocation::Col(col_loc) => {
                let pb = col_loc.pb_type.as_str();
                let (tile_width, tile_height) = self.get_tile_size(pb);
                proof {
                    lemma_tile_size_pos(self.tile_table(), pb@);
                }
                let sx = self.eval_expr(col_loc.start_x_expr.as_str(), tile_width, tile_height);
                let sy = self.eval_expr(col_loc.start_y_expr.as_str(), tile_width, tile_height);
                if let (Some(start_x), Some(start_y)) = (sx, sy) {
                    let incr_y = match self.eval_expr(col_loc.incr_y_expr.as_str(), tile_width, tile_height) {
                        Some(v) => v,
                        None => tile_height,
                    };
                    let repeat_x = match &col_loc.repeat_x_expr {
                        Some(expr) => match self.eval_expr(expr.as_str(), tile_width, tile_height) {
                            Some(v) => v,
                            None => self.width,
                        },
                        None => self.width,
                    };
                    self.place_col_repeats(start_x, start_y, incr_y, repeat_x, pb, col_loc.priority);
                }
            },
            GridLocation::Row(row_loc) => {
                let pb = row_loc.pb_type.as_str();
                let (tile_width, tile_height) = self.get_tile_size(pb);
                proof {
                    lemma_tile_size_pos(self.tile_table(), pb@);
                }
                let sx = self.eval_expr(row_loc.start_x_expr.as_str(), tile_width, tile_height);
                let sy = self.eval_expr(row_loc.start_y_expr.as_str(), tile_width, tile_height);
                if let (Some(start_x), Some(start_y)) = (sx, sy) {
                    let incr_x = match self.eval_expr(row_loc.incr_x_expr.as_str(), tile_width, tile_height) {
                        Some(v) => v,
                        None => tile_width,
                    };
                    let repeat_y = match &row_loc.repeat_y_expr {
                        Some(expr) => match self.eval_expr(expr.as_str(), tile_width, tile_height) {
                            Some(v) => v,
                            None => self.height,
                        },
                        None => self.height,
                    };
                    let height = self.height;
                    let width = self.width;
                    self.place_row_repeats(start_y, height, start_x, width, incr_x, repeat_y, pb, row_loc.priority);
                }
            },
            GridLocation::Region(region) => {
                let pb = region.pb_type.as_str();
                let (tile_width, tile_height) = self.get_tile_size(pb);
                let sx = self.eval_expr(region.start_x_expr.as_str(), tile_width, tile_height);
                let ex = self.eval_expr(region.end_x_expr.as_str(), tile_width, tile_height);
                let sy = self.eval_expr(region.start_y_expr.as_str(), tile_width, tile_height);
                let ey = self.eval_expr(region.end_y_expr.as_str(), tile_width, tile_height);
                if let (Some(start_x), Some(end_x), Some(start_y), Some(end_y)) = (sx, ex, sy, ey) {
                    let incr_x = match self.eval_expr(region.incr_x_expr.as_str(), tile_width, tile_height) {
                        Some(v) => v,
                        None => end_x - start_x + 1,
                    };
                    let incr_y = match self.eval_expr(region.incr_y_expr.as_str(), tile_width, tile_height) {
                        Some(v) => v,
                        None => end_y - start_y + 1,
                    };
                    let last_y = if end_y < self.height - 1 {
                        end_y
                    } else {
                        self.height - 1
                    };
                    // The columns' bound is only taken when some row is visited.
                    let end_x_excl = if self.width == 0 {
                        0
                    } else if end_x < self.width - 1 {
                        end_x + 1
                    } else {
                        self.width
                    };
                    self.place_row_repeats(start_y, last_y + 1, start_x, end_x_excl, incr_x, incr_y, pb, region.priority);
                }
            },
        }
    }

    /// The size table of an architecture's tiles, in order (where two tiles share
    /// a name, the later one's size is the one looked up).
    fn build_tile_size_map(arch: &FPGAArch) -> (r: Vec<(String, usize, usize)>)
        ensures
            size_table(r@) == arch_table(arch.tiles@),
    {
        let mut tile_sizes: Vec<(String, usize, usize)> = Vec::new();
        let mut i: usize = 0;
        while i < arch.tiles.len()
            invariant
                i <= arch.tiles.len(),
                tile_sizes.len() == i,
                size_table(tile_sizes@) == arch_table(arch.tiles@.take(i as int)),
            decreases arch.tiles.len() - i,
        {
            let tile = &arch.tiles[i];
            let ghost before = tile_sizes@;
            tile_sizes.push((tile.name.clone(), tile.width, tile.height));
            assert(arch.tiles@.take(i + 1) =~= arch.tiles@.take(i as int).push(arch.tiles@[i as int]));
            assert forall|k: int| 0 <= k < i + 1 implies #[trigger] size_table(tile_sizes@)[k] == arch_table(
                arch.tiles@.take(i + 1),
            )[k] by {
                if k < i {
                    assert(tile_sizes@[k] == before[k]);
                    assert(size_table(before)[k] == arch_table(arch.tiles@.take(i as int))[k]);
                }
            }
            assert(size_table(tile_sizes@) =~= arch_table(arch.tiles@.take(i + 1)));
            i = i + 1;
        }
        assert(arch.tiles@.take(i as int) =~= arch.tiles@);
        tile_sizes
    }

    /// A grid of `width` x `height` empty cells with the lowest priority.
    fn new_empty(width: usize, height: usize, tile_sizes: Vec<(String, usize, usize)>) -> (g: DeviceGrid)
        requires
            table_ok(size_table(tile_sizes@)),
        ensures
            g.wf(),
            g.width == width,
            g.height == height,
            g.tile_table() == size_table(tile_sizes@),
            g.model() == empty_grid(width as int, height as int),
    {
        let mut cells: Vec<Vec<GridCell>> = Vec::new();
        let mut grid_priorities: Vec<Vec<i32>> = Vec::new();
        let mut r: usize = 0;
        while r < height
            invariant
                r <= height,
                cells_view(cells@) == empty_grid(width as int, r as int).cells,
                prios_view(grid_priorities@) == empty_grid(width as int, r as int).prios,
            decreases height - r,
        {
            let mut row: Vec<GridCell> = Vec::new();
            let mut prow: Vec<i32> = Vec::new();
            let mut c: usize = 0;
            while c < width
                invariant
                    c <= width,
                    row@.map_values(|x: GridCell| x@) == Seq::new(c as nat, |k: int| CellView::Empty),
                    prow@ == Seq::new(c as nat, |k: int| i32::MIN),
                decreases width - c,
            {
                let ghost before = row@;
                row.push(GridCell::Empty);
                prow.push(i32::MIN);
                assert(row@ =~= before.push(GridCell::Empty));
                assert(row@.map_values(|x: GridCell| x@) =~= before.map_values(|x: GridCell| x@).push(CellView::Empty));
                assert(row@.map_values(|x: GridCell| x@) =~= Seq::new((c + 1) as nat, |k: int| CellView::Empty));
                assert(prow@ =~= Seq::new((c + 1) as nat, |k: int| i32::MIN));
                c = c + 1;
            }
            let ghost before_c = cells@;
            let ghost before_p = grid_priorities@;
            cells.push(row);
            grid_priorities.push(prow);
            assert(cells_view(cells@) =~= empty_grid(width as int, r + 1).cells) by {
                assert(cells_view(cells@) =~= cells_view(before_c).push(row@.map_values(|x: GridCell| x@)));
            }
            assert(prios_view(grid_priorities@) =~= empty_grid(width as int, r + 1).prios) by {
                assert(prios_view(grid_priorities@) =~= prios_view(before_p).push(prow@));
            }
            r = r + 1;
        }
        let g = DeviceGrid { width, height, cells, tile_sizes, grid_priorities };
        assert forall|r: int, c: int| 0 <= r < height && 0 <= c < width implies #[trigger] cell_ok(
            g.model().cells,
            width as int,
            height as int,
            r,
            c,
        ) by {}
        g
    }

    /// Applies the rules `locations`, first to last.
    fn apply_grid_locations(&mut self, locations: &Vec<GridLocation>)
        requires
            old(self).wf(),
            locations_ok(old(self).tile_table(), locations@, old(self).width as int, old(self).height as int),
        ensures
            final(self).wf(),
            final(self).width == old(self).width,
            final(self).height == old(self).height,
            final(self).tile_table() == old(self).tile_table(),
            final(self).model() == apply_all(old(self).model(), old(self).tile_table(), locations@),
    {
        let ghost g0 = self.model();
        let ghost w = self.width as int;
        let ghost h = self.height as int;
        let ghost table = self.tile_table();
        let mut i: usize = 0;
        while i < locations.len()
            invariant
                self.wf(),
                self.width == w,
                self.height == h,
                self.tile_table() == table,
                i <= locations.len(),
                locations_ok(table, locations@, w, h),
                self.model() == apply_all(g0, table, locations@.take(i as int)),
            decreases locations.len() - i,
        {
            assert(location_ok(table, locations@[i as int], w, h));
            self.apply_grid_location(&locations[i]);
            assert(locations@.take(i + 1).drop_last() =~= locations@.take(i as int));
            i = i + 1;
        }
        assert(locations@.take(i as int) =~= locations@);
    }

    /// The grid of the fixed layout at `layout_index`: its size, with its rules
    /// applied in order.
    pub fn from_fixed_layout(arch: &FPGAArch, layout_index: usize) -> (grid: DeviceGrid)
        requires
            layout_index < arch.layouts.len(),
            arch.layouts@[layout_index as int] is FixedLayout,
            table_ok(arch_table(arch.tiles@)),
            locations_ok(
                arch_table(arch.tiles@),
                arch.layouts@[layout_index as int]->FixedLayout_0.grid_locations@,
                arch.layouts@[layout_index as int]->FixedLayout_0.width as int,
                arch.layouts@[layout_index as int]->FixedLayout_0.height as int,
            ),
        ensures
            grid.wf(),
            grid.tile_table() == arch_table(arch.tiles@),
            grid.model() == apply_all(
                empty_grid(
                    arch.layouts@[layout_index as int]->FixedLayout_0.width as int,
                    arch.layouts@[layout_index as int]->FixedLayout_0.height as int,
                ),
                arch_table(arch.tiles@),
                arch.layouts@[layout_index as int]->FixedLayout_0.grid_locations@,
            ),
    {
        let fixed_layout = match &arch.layouts[layout_index] {
            Layout::FixedLayout(fl) => fl,
            Layout::AutoLayout(_) => vstd::pervasive::unreached(),
        };
        let tile_sizes = Self::build_tile_size_map(arch);
        let mut grid = Self::new_empty(fixed_layout.width, fixed_layout.height, tile_sizes);
        grid.apply_grid_locations(&fixed_layout.grid_locations);
        grid
    }

    /// The grid of an auto layout at `width` x `height`, with its rules applied
    /// in order.
    fn from_auto_layout_impl(
        auto_layout: &AutoLayout,
        width: usize,
        height: usize,
        tile_sizes: Vec<(String, usize, usize)>,
    ) -> (grid: DeviceGrid)
        requires
            table_ok(size_table(tile_sizes@)),
            locations_ok(size_table(tile_sizes@), auto_layout.grid_locations@, width as int, height as int),
        ensures
            grid.wf(),
            grid.tile_table() == size_table(tile_sizes@),
            grid.model() == apply_all(
                empty_grid(width as int, height as int),
                size_table(tile_sizes@),
                auto_layout.grid_locations@,
            ),
    {
        let mut grid = Self::new_empty(width, height, tile_sizes);
        grid.apply_grid_locations(&auto_layout.grid_locations);
        grid
    }

    /// The grid of the architecture's first layout, which must be an auto layout,
    /// at `width` x `height`.
    pub fn from_auto_layout_with_dimensions(arch: &FPGAArch, width: usize, height: usize) -> (grid: DeviceGrid)
        requires
            arch.layouts.len() > 0,
            arch.layouts@[0] is AutoLayout,
            table_ok(arch_table(arch.tiles@)),
            locations_ok(
                arch_table(arch.tiles@),
                arch.layouts@[0]->AutoLayout_0.grid_locations@,
                width as int,
                height as int,
            ),
        ensures
            grid.wf(),
            grid.tile_table() == arch_table(arch.tiles@),
            grid.model() == apply_all(
                empty_grid(width as int, height as int),
                arch_table(arch.tiles@),
                arch.layouts@[0]->AutoLayout_0.grid_locations@,
            ),
    {
        let auto_layout = match &arch.layouts[0] {
            Layout::AutoLayout(al) => al,
            Layout::FixedLayout(_) => vstd::pervasive::unreached(),
        };
        let tile_sizes = Self::build_tile_size_map(arch);
        Self::from_auto_layout_impl(auto_layout, width, height, tile_sizes)
    }

    /// The cell at `(row, col)`, or `None` outside the grid. It needs only that
    /// the grid has `height` rows of `width` cells.
    pub fn get(&self, row: usize, col: usize) -> (r: Option<&GridCell>)
        requires
            has_dims(self.model().cells, self.model().width, self.model().height),
        ensures
            match r {
                Some(cell) => row < self.model().height && col < self.model().width && cell@ == self.model().cells[row as int][col as int],
                None => !(row < self.model().height && col < self.model().width),
            },
    {
        if row < self.height && col < self.width {
            assert(self.model().cells[row as int].len() == self.width);
            Some(&self.cells[row][col])
        } else {
            None
        }
    }
}

/// Tells whether two strings hold the same characters.
pub fn str_eq(a: &str, b: &str) -> (r: bool)
    ensures
        r == (a@ == b@),
{
    let x = crate::text::chars_of(a);
    let y = crate::text::chars_of(b);
    if x.len() != y.len() {
        return false;
    }
    let mut i: usize = 0;
    while i < x.len()
        invariant
            x@ == a@,
            y@ == b@,
            x.len() == y.len(),
            i <= x.len(),
            forall|j: int| 0 <= j < i ==> x@[j] == y@[j],
        decreases x.len() - i,
    {
        if x[i] != y[i] {
            assert(a@[i as int] != b@[i as int]);
            return false;
        }
        i = i + 1;
    }
    assert(x@ =~= y@);
    true
}

// ------------------------------------------------------------------
// Tile counts
// ------------------------------------------------------------------

/// The cell is the anchor of a tile named `name`.
pub open spec fn is_anchor_of(cv: CellView, name: Seq<char>) -> bool {
    cv matches CellView::Anchor(p, _, _) && p == name
}

/// The number of anchors of tiles named `name` in a row.
pub open spec fn row_anchor_count(row: Seq<CellView>, name: Seq<char>) -> nat
    decreases row.len(),
{
    if row.len() == 0 {
        0
    } else {
        row_anchor_count(row.drop_last(), name) + (if is_anchor_of(row.last(), name) {
            1nat
        } else {
            0nat
        })
    }
}

/// The number of tiles named `name` on a grid: the anchors of that name.
pub open spec fn anchor_count(cells: Seq<Seq<CellView>>, name: Seq<char>) -> nat
    decreases cells.len(),
{
    if cells.len() == 0 {
        0
    } else {
        anchor_count(cells.drop_last(), name) + row_anchor_count(cells.last(), name)
    }
}

/// The number of cells of a grid (its rows may differ in length).
pub open spec fn cell_total(cells: Seq<Seq<CellView>>) -> nat
    decreases cells.len(),
{
    if cells.len() == 0 {
        0
    } else {
        cell_total(cells.drop_last()) + cells.last().len()
    }
}

/// Some cell of the grid is the anchor of a tile named `name`.
pub open spec fn has_anchor(cells: Seq<Seq<CellView>>, name: Seq<char>) -> bool {
    exists|r: int, c: int| 0 <= r < cells.len() && 0 <= c < cells[r].len() && is_anchor_of(#[trigger] cells[r][c], name)
}

/// The names of a list of counts.
pub open spec fn count_names(v: Seq<(String, usize)>) -> Seq<Seq<char>> {
    v.map_values(|e: (String, usize)| e.0@)
}

proof fn lemma_row_count_le(row: Seq<CellView>, name: Seq<char>)
    ensures
        row_anchor_count(row, name) <= row.len(),
        row_anchor_count(row, name) > 0 <==> exists|c: int| 0 <= c < row.len() && is_anchor_of(#[trigger] row[c], name),
    decreases row.len(),
{
    if row.len() > 0 {
        let d = row.drop_last();
        lemma_row_count_le(d, name);
        if exists|c: int| 0 <= c < d.len() && is_anchor_of(#[trigger] d[c], name) {
            let c = choose|c: int| 0 <= c < d.len() && is_anchor_of(#[trigger] d[c], name);
            assert(row[c] == d[c]);
        }
        if exists|c: int| 0 <= c < row.len() && is_anchor_of(#[trigger] row[c], name) {
            let c = choose|c: int| 0 <= c < row.len() && is_anchor_of(#[trigger] row[c], name);
            if c < row.len() - 1 {
                assert(d[c] == row[c]);
            }
        }
    }
}

proof fn lemma_count_le_total(cells: Seq<Seq<CellView>>, name: Seq<char>)
    ensures
        anchor_count(cells, name) <= cell_total(cells),
        anchor_count(cells, name) > 0 <==> has_anchor(cells, name),
    decreases cells.len(),
{
    if cells.len() > 0 {
        let d = cells.drop_last();
        let last = cells.last();
        lemma_count_le_total(d, name);
        lemma_row_count_le(last, name);
        if has_anchor(d, name) {
            let (r, c) = choose|r: int, c: int| 0 <= r < d.len() && 0 <= c < d[r].len() && is_anchor_of(#[trigger] d[r][c], name);
            assert(cells[r] == d[r]);
            assert(is_anchor_of(cells[r][c], name));
        }
        if exists|c: int| 0 <= c < last.len() && is_anchor_of(#[trigger] last[c], name) {
            let c = choose|c: int| 0 <= c < last.len() && is_anchor_of(#[trigger] last[c], name);
            assert(is_anchor_of(cells[cells.len() - 1][c], name));
        }
        if has_anchor(cells, name) {
            let (r, c) = choose|r: int, c: int|
                0 <= r < cells.len() && 0 <= c < cells[r].len() && is_anchor_of(#[trigger] cells[r][c], name);
            if r < cells.len() - 1 {
                assert(d[r] == cells[r]);
                assert(is_anchor_of(d[r][c], name));
            } else {
                assert(is_anchor_of(last[c], name));
            }
        }
    }
}

/// The rows before row `i` and row `i` itself hold at most all the cells.
proof fn lemma_total_prefix(cells: Seq<Seq<CellView>>, i: int)
    requires
        0 <= i < cells.len(),
    ensures
        cell_total(cells.take(i)) + cells[i].len() <= cell_total(cells),
        cell_total(cells.take(i + 1)) == cell_total(cells.take(i)) + cells[i].len(),
    decreases cells.len(),
{
    assert(cells.take(i + 1).drop_last() =~= cells.take(i));
    assert(cells.take(i + 1).last() == cells[i]);
    if i == cells.len() - 1 {
        assert(cells.take(i) =~= cells.drop_last());
    } else {
        let d = cells.drop_last();
        assert(d.take(i) =~= cells.take(i));
        assert(d[i] == cells[i]);
        lemma_total_prefix(d, i);
        assert(cell_total(d) <= cell_total(cells));
    }
}

/// The number of tiles named `name` on the grid `cells`.
fn count_anchors(cells: &Vec<Vec<GridCell>>, name: &String) -> (n: usize)
    requires
        cell_total(cells_view(cells@)) <= usize::MAX,
    ensures
        n == anchor_count(cells_view(cells@), name@),
{
    let ghost cv = cells_view(cells@);
    let mut n: usize = 0;
    let mut i: usize = 0;
    while i < cells.len()
        invariant
            cv == cells_view(cells@),
            cell_total(cv) <= usize::MAX,
            i <= cells.len(),
            n == anchor_count(cv.take(i as int), name@),
            n <= cell_total(cv.take(i as int)),
        decreases cells.len() - i,
    {
        let row = &cells[i];
        let ghost rv = cv[i as int];
        assert(rv == row@.map_values(|c: GridCell| c@));
        proof {
            lemma_total_prefix(cv, i as int);
        }
        let mut j: usize = 0;
        while j < row.len()
            invariant
                cv == cells_view(cells@),
                cell_total(cv) <= usize::MAX,
                i < cells.len(),
                row == &cells@[i as int],
                rv == cv[i as int],
                rv == row@.map_values(|c: GridCell| c@),
                cell_total(cv.take(i as int)) + rv.len() <= cell_total(cv),
                j <= row.len(),
                n == anchor_count(cv.take(i as int), name@) + row_anchor_count(rv.take(j as int), name@),
                n <= cell_total(cv.take(i as int)) + j,
            decreases row.len() - j,
        {
            assert(rv.take(j + 1).drop_last() =~= rv.take(j as int));
            assert(rv.take(j + 1).last() == row@[j as int]@);
            match &row[j] {
                GridCell::BlockAnchor { pb_type, .. } => {
                    if str_eq(pb_type.as_str(), name.as_str()) {
                        n = n + 1;
                    }
                },
                _ => {},
            }
            j = j + 1;
        }
        assert(rv.take(row.len() as int) =~= rv);
        assert(cv.take(i + 1).drop_last() =~= cv.take(i as int));
        assert(cv.take(i + 1).last() == rv);
        i = i + 1;
    }
    assert(cv.take(cells.len() as int) =~= cv);
    n
}

/// The names of the tiles on the grid `cells`, each once, in lexicographic order.
fn anchor_names(cells: &Vec<Vec<GridCell>>) -> (names: Vec<String>)
    ensures
        sorted_strict(name_views(names@)),
        forall|n: Seq<char>| #[trigger] name_views(names@).contains(n) <==> has_anchor(cells_view(cells@), n),
{
    let ghost cv = cells_view(cells@);
    let mut names: Vec<String> = Vec::new();
    let mut i: usize = 0;
    while i < cells.len()
        invariant
            cv == cells_view(cells@),
            i <= cells.len(),
            sorted_strict(name_views(names@)),
            forall|n: Seq<char>| #[trigger] name_views(names@).contains(n) <==> exists|r: int, c: int|
                0 <= r < i && 0 <= c < cv[r].len() && is_anchor_of(#[trigger] cv[r][c], n),
        decreases cells.len() - i,
    {
        let row = &cells[i];
        let mut j: usize = 0;
        while j < row.len()
            invariant
                cv == cells_view(cells@),
                i < cells.len(),
                row == &cells@[i as int],
                j <= row.len(),
                sorted_strict(name_views(names@)),
                forall|n: Seq<char>| #[trigger] name_views(names@).contains(n) <==> exists|r: int, c: int|
                    ((0 <= r < i && 0 <= c < cv[r].len()) || (r == i && 0 <= c < j)) && is_anchor_of(#[trigger] cv[r][c], n),
            decreases row.len() - j,
        {
            assert(cv[i as int][j as int] == row@[j as int]@);
            let ghost before = name_views(names@);
            match &row[j] {
                GridCell::BlockAnchor { pb_type, .. } => {
                    insert_sorted(&mut names, pb_type);
                },
                _ => {},
            }
            assert forall|n: Seq<char>| #[trigger] name_views(names@).contains(n) <==> exists|r: int, c: int|
                ((0 <= r < i && 0 <= c < cv[r].len()) || (r == i && 0 <= c < j + 1)) && is_anchor_of(#[trigger] cv[r][c], n) by {
                if is_anchor_of(cv[i as int][j as int], n) {
                    assert(name_views(names@).contains(n));
                }
                if before.contains(n) {
                    let (r, c) = choose|r: int, c: int|
                        ((0 <= r < i && 0 <= c < cv[r].len()) || (r == i && 0 <= c < j)) && is_anchor_of(#[trigger] cv[r][c], n);
                    assert(is_anchor_of(cv[r][c], n));
                }
            }
            j = j + 1;
        }
        assert(cv[i as int].len() == row.len());
        i = i + 1;
    }
    names
}

/// How many tiles of each name the grid holds: one entry per tile name found on
/// the grid (the names of its anchor cells), in lexicographic order of the names,
/// with the number of anchors of that name.
pub fn tile_counts(grid: &DeviceGrid) -> (r: Vec<(String, usize)>)
    requires
        cell_total(grid.model().cells) <= usize::MAX,
    ensures
        sorted_strict(count_names(r@)),
        forall|i: int| 0 <= i < r@.len() ==> #[trigger] r@[i].1 == anchor_count(grid.model().cells, r@[i].0@) && r@[i].1 > 0,
        forall|n: Seq<char>| anchor_count(grid.model().cells, n) > 0 ==> exists|i: int| 0 <= i < r@.len() && #[trigger] r@[i].0@ == n,
{
    let ghost cv = grid.model().cells;
    let names = anchor_names(&grid.cells);
    let mut r: Vec<(String, usize)> = Vec::new();
    let mut k: usize = 0;
    while k < names.len()
        invariant
            cv == grid.model().cells,
            cell_total(cv) <= usize::MAX,
            k <= names.len(),
            sorted_strict(name_views(names@)),
            forall|n: Seq<char>| #[trigger] name_views(names@).contains(n) <==> has_anchor(cv, n),
            count_names(r@) == name_views(names@).take(k as int),
            forall|i: int| 0 <= i < r@.len() ==> #[trigger] r@[i].1 == anchor_count(cv, r@[i].0@) && r@[i].1 > 0,
        decreases names.len() - k,
    {
        let name = names[k].clone();
        let cnt = count_anchors(&grid.cells, &names[k]);
        proof {
            assert(name_views(names@)[k as int] == names@[k as int]@);
            assert(name_views(names@).contains(names@[k as int]@));
            lemma_count_le_total(cv, names@[k as int]@);
        }
        let ghost before = r@;
        r.push((name, cnt));
        assert(count_names(r@) =~= name_views(names@).take(k + 1)) by {
            assert(count_names(r@) =~= count_names(before).push(names@[k as int]@));
            assert(name_views(names@).take(k + 1) =~= name_views(names@).take(k as int).push(name_views(names@)[k as int]));
        }
        assert forall|i: int| 0 <= i < r@.len() implies #[trigger] r@[i].1 == anchor_count(cv, r@[i].0@) && r@[i].1 > 0 by {
            if i < before.len() {
                assert(r@[i] == before[i]);
            }
        }
        k = k + 1;
    }
    assert(name_views(names@).take(names.len() as int) =~= name_views(names@));
    assert(count_names(r@) == name_views(names@));
    assert forall|n: Seq<char>| anchor_count(cv, n) > 0 implies exists|i: int| 0 <= i < r@.len() && #[trigger] r@[i].0@ == n by {
        lemma_count_le_total(cv, n);
        assert(name_views(names@).contains(n));
        let i = choose|i: int| 0 <= i < name_views(names@).len() && name_views(names@)[i] == n;
        assert(count_names(r@)[i] == r@[i].0@);
    }
    r
}

} // verus!
