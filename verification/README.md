# fpga_arch_viewer

The logic of a viewer for VTR FPGA architecture descriptions, as a library
verified with Verus, with a small command-line front end.

## Layout

- `src/` — the verified library:
  - `grid.rs`, `layout.rs`, `grid_expr.rs`: the device grid, the grid-location
    rules of a layout (fill, perimeter, corners, single, col, row, region) and the
    position expressions they use. Placing a tile keeps every tile whole and
    follows the priority rules; each rule is stated as a function on grid states.
    The tile counts of a grid (anchors per tile name, in name order).
  - `sb_maps.rs`, `yaml.rs`: switch-block maps read from YAML (`SB_MAPS`) and the
    lookup of the template for a location.
  - `crr.rs`, `crr_view.rs`: channel lanes of custom switch blocks and the state
    of their view.
  - `pb_type.rs`, `port_ref.rs`, `intra_tile.rs`, `primitive.rs`,
    `complex_block_view.rs`: the complex-block hierarchy, port references
    (bit-range expansion, clock detection, resolution against drawn ports), the
    expansion state of the block view and the search for primitives.
  - `error_report.rs`: messages for architecture parse errors.
  - `viewer.rs`, `grid_view.rs`: navigation between views and pages, the
    window title, the tile names the grid view colors, and the complex blocks a
    tile may contain.
  - `color_scheme.rs`, `block_style.rs`, `primitive_render.rs`: the colors of
    both themes, the styles of the grid's block kinds, and the number of points
    a primitive's ports take when drawn.
  - `samples.rs`: the sample architectures offered (names and description
    files).
  - `text.rs`: character-sequence utilities (decimal parsing and printing,
    whitespace, splitting).
- `tests/`: tests of the library.
- `app/`: the command-line front end (file reading and printing).
