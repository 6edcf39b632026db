use fpga_arch_viewer::grid_view::{compare_strs, layout_tile_names, tile_pb_types};
use fpga_arch_viewer::grid::{tile_counts, DeviceGrid, GridCell};
use fpga_arch_viewer::grid_expr::eval_grid_expr;
use fpga_arch_viewer::layout::{
    get_layout_name, AutoLayout, ColGridLocation, CornersGridLocation, FPGAArch, FillGridLocation, FixedLayout,
    EquivalentSite, GridLocation, Layout, PerimeterGridLocation, RegionGridLocation, RowGridLocation, SingleGridLocation,
    SubTile, Tile,
};

fn tile(name: &str, width: usize, height: usize) -> Tile {
    Tile { name: name.to_string(), width, height, sub_tiles: Vec::new() }
}

fn fill(pb: &str, priority: i32) -> GridLocation {
    GridLocation::Fill(FillGridLocation { pb_type: pb.to_string(), priority })
}

fn arch_with(layouts: Vec<Layout>) -> FPGAArch {
    FPGAArch {
        tiles: vec![tile("io", 1, 1), tile("clb", 1, 1), tile("mult", 1, 2), tile("big", 2, 2)],
        layouts,
        models: Vec::new(),
        complex_block_list: Vec::new(),
    }
}

fn anchor(pb: &str, width: usize, height: usize) -> GridCell {
    GridCell::BlockAnchor { pb_type: pb.to_string(), width, height }
}

fn occupied(pb: &str, anchor_row: usize, anchor_col: usize) -> GridCell {
    GridCell::BlockOccupied { pb_type: pb.to_string(), anchor_row, anchor_col }
}

fn fixed(width: usize, height: usize, grid_locations: Vec<GridLocation>) -> Layout {
    Layout::FixedLayout(FixedLayout { name: "fixed".to_string(), width, height, grid_locations })
}

#[test]
fn fixed_layout_with_perimeter_corners_fill_and_column() {
    let locs = vec![
        GridLocation::Perimeter(PerimeterGridLocation { pb_type: "io".to_string(), priority: 100 }),
        GridLocation::Corners(CornersGridLocation { pb_type: "EMPTY".to_string(), priority: 101 }),
        fill("clb", 10),
        GridLocation::Col(ColGridLocation {
            pb_type: "mult".to_string(),
            priority: 20,
            start_x_expr: "2".to_string(),
            repeat_x_expr: None,
            start_y_expr: "1".to_string(),
            incr_y_expr: "h".to_string(),
        }),
    ];
    let arch = arch_with(vec![fixed(5, 5, locs)]);
    let grid = DeviceGrid::from_fixed_layout(&arch, 0);
    assert_eq!(grid.width, 5);
    assert_eq!(grid.height, 5);
    assert_eq!(grid.get(0, 0), Some(&GridCell::Empty));
    assert_eq!(grid.get(4, 4), Some(&GridCell::Empty));
    assert_eq!(grid.get(0, 1), Some(&anchor("io", 1, 1)));
    assert_eq!(grid.get(2, 0), Some(&anchor("io", 1, 1)));
    assert_eq!(grid.get(2, 4), Some(&anchor("io", 1, 1)));
    assert_eq!(grid.get(2, 1), Some(&anchor("clb", 1, 1)));
    // The column places a 1x2 tile at row 1, replacing the two clb tiles under it.
    assert_eq!(grid.get(1, 2), Some(&anchor("mult", 1, 2)));
    assert_eq!(grid.get(2, 2), Some(&occupied("mult", 1, 2)));
    // At row 3 the tile would reach the io row, whose priority is higher.
    assert_eq!(grid.get(3, 2), Some(&anchor("clb", 1, 1)));
    assert_eq!(grid.get(5, 0), None);
    assert_eq!(grid.get(0, 5), None);
}

#[test]
fn lower_priority_does_not_override_and_ties_do() {
    let locs = vec![fill("clb", 5), fill("io", 4)];
    let arch = arch_with(vec![fixed(2, 2, locs)]);
    let grid = DeviceGrid::from_fixed_layout(&arch, 0);
    assert_eq!(grid.get(1, 1), Some(&anchor("clb", 1, 1)));

    let locs = vec![fill("clb", 5), fill("io", 5)];
    let arch = arch_with(vec![fixed(2, 2, locs)]);
    let grid = DeviceGrid::from_fixed_layout(&arch, 0);
    assert_eq!(grid.get(1, 1), Some(&anchor("io", 1, 1)));
}

#[test]
fn overlapped_tiles_are_removed_whole() {
    // A 2x2 tile at (0,0), then a 1x1 tile over one of its cells: the rest of the
    // 2x2 tile is cleared.
    let locs = vec![
        GridLocation::Single(SingleGridLocation {
            pb_type: "big".to_string(),
            priority: 1,
            x_expr: "0".to_string(),
            y_expr: "0".to_string(),
        }),
        GridLocation::Single(SingleGridLocation {
            pb_type: "clb".to_string(),
            priority: 1,
            x_expr: "1".to_string(),
            y_expr: "1".to_string(),
        }),
    ];
    let arch = arch_with(vec![fixed(3, 3, locs)]);
    let grid = DeviceGrid::from_fixed_layout(&arch, 0);
    assert_eq!(grid.get(0, 0), Some(&GridCell::Empty));
    assert_eq!(grid.get(0, 1), Some(&GridCell::Empty));
    assert_eq!(grid.get(1, 0), Some(&GridCell::Empty));
    assert_eq!(grid.get(1, 1), Some(&anchor("clb", 1, 1)));
}

#[test]
fn fill_skips_cells_where_a_tile_does_not_fit() {
    let arch = arch_with(vec![fixed(3, 3, vec![fill("big", 1)])]);
    let grid = DeviceGrid::from_fixed_layout(&arch, 0);
    assert_eq!(grid.get(0, 0), Some(&anchor("big", 2, 2)));
    assert_eq!(grid.get(0, 1), Some(&occupied("big", 0, 0)));
    assert_eq!(grid.get(1, 0), Some(&occupied("big", 0, 0)));
    assert_eq!(grid.get(1, 1), Some(&occupied("big", 0, 0)));
    assert_eq!(grid.get(0, 2), Some(&GridCell::Empty));
    assert_eq!(grid.get(2, 0), Some(&GridCell::Empty));
    assert_eq!(grid.get(2, 2), Some(&GridCell::Empty));
}

#[test]
fn auto_layout_at_given_size() {
    let arch = arch_with(vec![Layout::AutoLayout(AutoLayout { grid_locations: vec![fill("clb", 1)] })]);
    let grid = DeviceGrid::from_auto_layout_with_dimensions(&arch, 3, 2);
    assert_eq!(grid.width, 3);
    assert_eq!(grid.height, 2);
    for r in 0..2 {
        for c in 0..3 {
            assert_eq!(grid.get(r, c), Some(&anchor("clb", 1, 1)));
        }
    }
}

#[test]
fn row_and_region_rules() {
    let locs = vec![
        GridLocation::Row(RowGridLocation {
            pb_type: "io".to_string(),
            priority: 1,
            start_x_expr: "1".to_string(),
            incr_x_expr: "2".to_string(),
            start_y_expr: "0".to_string(),
            repeat_y_expr: Some("3".to_string()),
        }),
        GridLocation::Region(RegionGridLocation {
            pb_type: "clb".to_string(),
            priority: 1,
            start_x_expr: "0".to_string(),
            end_x_expr: "W".to_string(),
            incr_x_expr: "".to_string(),
            start_y_expr: "1".to_string(),
            end_y_expr: "1".to_string(),
            incr_y_expr: "".to_string(),
        }),
    ];
    let arch = arch_with(vec![fixed(4, 4, locs)]);
    let grid = DeviceGrid::from_fixed_layout(&arch, 0);
    // Rows 0 and 3, columns 1 and 3.
    assert_eq!(grid.get(0, 1), Some(&anchor("io", 1, 1)));
    assert_eq!(grid.get(0, 3), Some(&anchor("io", 1, 1)));
    assert_eq!(grid.get(3, 1), Some(&anchor("io", 1, 1)));
    assert_eq!(grid.get(0, 0), Some(&GridCell::Empty));
    assert_eq!(grid.get(0, 2), Some(&GridCell::Empty));
    // The region's end is clipped to the grid; with no increment it is placed once
    // per row at its start.
    assert_eq!(grid.get(1, 0), Some(&anchor("clb", 1, 1)));
    assert_eq!(grid.get(1, 1), Some(&GridCell::Empty));
}

#[test]
fn layout_names() {
    let arch = arch_with(vec![
        Layout::AutoLayout(AutoLayout { grid_locations: Vec::new() }),
        fixed(2, 2, Vec::new()),
    ]);
    assert_eq!(get_layout_name(&arch, 0), "Auto Layout");
    assert_eq!(get_layout_name(&arch, 1), "Fixed: fixed");
    assert_eq!(get_layout_name(&arch, 2), "No Layout");
}

#[test]
fn grid_expressions() {
    assert_eq!(eval_grid_expr("W-1", 1, 1, 10, 10), Some(9));
    assert_eq!(eval_grid_expr("(W-2)/2", 1, 1, 10, 10), Some(4));
    assert_eq!(eval_grid_expr("2*w+1", 3, 1, 10, 10), Some(7));
    assert_eq!(eval_grid_expr(" 3 ", 1, 1, 10, 10), Some(3));
    assert_eq!(eval_grid_expr("H - h", 1, 2, 10, 8), Some(6));
    assert_eq!(eval_grid_expr("5-10", 1, 1, 10, 10), None);
    assert_eq!(eval_grid_expr("-1", 1, 1, 10, 10), None);
    assert_eq!(eval_grid_expr("4/0", 1, 1, 10, 10), None);
    assert_eq!(eval_grid_expr("abc", 1, 1, 10, 10), None);
    assert_eq!(eval_grid_expr("", 1, 1, 10, 10), None);
}

#[test]
fn tile_names_of_the_layouts() {
    let arch = arch_with(vec![
        fixed(2, 2, vec![fill("clb", 1), fill("EMPTY", 2), fill("io", 3)]),
        Layout::AutoLayout(AutoLayout { grid_locations: vec![fill("mult", 1), fill("clb", 2)] }),
    ]);
    assert_eq!(layout_tile_names(&arch), vec!["clb", "io", "mult"]);
    let a: Vec<char> = "abc".chars().collect();
    let b: Vec<char> = "abd".chars().collect();
    let c: Vec<char> = "ab".chars().collect();
    assert_eq!(compare_strs(&a, &b), -1);
    assert_eq!(compare_strs(&b, &a), 1);
    assert_eq!(compare_strs(&c, &a), -1);
    assert_eq!(compare_strs(&a, &a), 0);
}

#[test]
fn tile_counts_count_anchors_by_name_in_order() {
    let locs = vec![
        GridLocation::Perimeter(PerimeterGridLocation { pb_type: "io".to_string(), priority: 100 }),
        GridLocation::Corners(CornersGridLocation { pb_type: "EMPTY".to_string(), priority: 101 }),
        fill("clb", 10),
        GridLocation::Col(ColGridLocation {
            pb_type: "mult".to_string(),
            priority: 20,
            start_x_expr: "2".to_string(),
            repeat_x_expr: None,
            start_y_expr: "1".to_string(),
            incr_y_expr: "h".to_string(),
        }),
    ];
    let arch = arch_with(vec![fixed(5, 5, locs)]);
    let grid = DeviceGrid::from_fixed_layout(&arch, 0);
    assert_eq!(
        tile_counts(&grid),
        vec![("clb".to_string(), 7), ("io".to_string(), 12), ("mult".to_string(), 1)]
    );
    let big = DeviceGrid::from_fixed_layout(&arch_with(vec![fixed(3, 3, vec![fill("big", 1)])]), 0);
    assert_eq!(tile_counts(&big), vec![("big".to_string(), 1)]);
    let empty = DeviceGrid::from_fixed_layout(&arch_with(vec![fixed(2, 2, vec![])]), 0);
    assert_eq!(tile_counts(&empty), vec![]);
}

fn single(pb: &str, priority: i32, x: &str, y: &str) -> GridLocation {
    GridLocation::Single(SingleGridLocation {
        pb_type: pb.to_string(),
        priority,
        x_expr: x.to_string(),
        y_expr: y.to_string(),
    })
}

#[test]
fn a_large_empty_tile_leaves_its_other_cells_pointing_to_an_empty_anchor() {
    let arch = FPGAArch {
        tiles: vec![tile("clb", 1, 1), tile("EMPTY", 2, 2), tile("big", 2, 2)],
        layouts: vec![fixed(3, 3, vec![fill("clb", 1), single("EMPTY", 5, "0", "0"), single("big", 10, "1", "1")])],
        models: Vec::new(),
        complex_block_list: Vec::new(),
    };
    let grid = DeviceGrid::from_fixed_layout(&arch, 0);
    assert_eq!(grid.get(0, 0), Some(&GridCell::Empty));
    assert_eq!(grid.get(0, 1), Some(&occupied("EMPTY", 0, 0)));
    assert_eq!(grid.get(1, 0), Some(&occupied("EMPTY", 0, 0)));
    assert_eq!(grid.get(1, 1), Some(&anchor("big", 2, 2)));
    assert_eq!(grid.get(1, 2), Some(&occupied("big", 1, 1)));
    assert_eq!(grid.get(2, 2), Some(&occupied("big", 1, 1)));
    assert_eq!(grid.get(0, 2), Some(&anchor("clb", 1, 1)));
    assert_eq!(grid.get(2, 0), Some(&anchor("clb", 1, 1)));
    assert_eq!(tile_counts(&grid), vec![("big".to_string(), 1), ("clb".to_string(), 2)]);
}

#[test]
fn tile_pb_types_lists_each_site_block_once_in_order() {
    let site = |pb: &str| EquivalentSite { pb_type: pb.to_string() };
    let t = Tile {
        name: "io_tile".to_string(),
        width: 1,
        height: 1,
        sub_tiles: vec![
            SubTile { name: "io".to_string(), capacity: 8, equivalent_sites: vec![site("io"), site("clb")] },
            SubTile { name: "more".to_string(), capacity: 1, equivalent_sites: vec![site("bram"), site("io")] },
            SubTile { name: "none".to_string(), capacity: 1, equivalent_sites: vec![] },
        ],
    };
    assert_eq!(tile_pb_types(&t), vec!["bram".to_string(), "clb".to_string(), "io".to_string()]);
    assert_eq!(tile_pb_types(&tile("plain", 1, 1)), Vec::<String>::new());
}

#[test]
fn accessors_give_the_grid_fields() {
    let arch = arch_with(vec![fixed(3, 2, vec![fill("clb", 1)])]);
    let grid = DeviceGrid::from_fixed_layout(&arch, 0);
    assert_eq!(grid.width(), 3);
    assert_eq!(grid.height(), 2);
    assert_eq!(grid.cells().len(), 2);
    assert_eq!(grid.cells()[1][2], anchor("clb", 1, 1));
}
