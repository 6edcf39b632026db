//! Verified core logic of an FPGA architecture visualizer.
use vstd::prelude::*;

pub mod text;
pub mod yaml;
pub mod sb_maps;
pub mod crr;
pub mod grid_expr;
pub mod grid;
pub mod layout;
pub mod error_report;
pub mod viewer;
pub mod pb_type;
pub mod port_ref;
pub mod primitive;
pub mod intra_tile;
pub mod crr_view;
pub mod complex_block_view;
pub mod grid_view;
pub mod block_style;
pub mod primitive_render;
pub mod color_scheme;
pub mod samples;

verus! {
} // verus!
