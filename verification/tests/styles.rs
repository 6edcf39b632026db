use fpga_arch_viewer::block_style::{BlockShape, BlockStyle, DefaultBlockStyles};
use fpga_arch_viewer::color_scheme::{
    blif_colors, flip_flop_colors, grid_cb_color, grid_io_color, grid_lb_color, grid_sb_color, lut_colors,
    memory_colors, theme_block_bg, theme_border_color, theme_header_bg, theme_interconnect_bg, theme_text_color, Color,
};

fn rgb(r: u8, g: u8, b: u8) -> Color {
    Color { r, g, b, a: 255 }
}

#[test]
fn theme_colors_follow_the_theme() {
    assert_eq!(theme_text_color(true), rgb(255, 255, 255));
    assert_eq!(theme_text_color(false), rgb(0, 0, 0));
    assert_eq!(theme_header_bg(true), rgb(60, 60, 60));
    assert_eq!(theme_header_bg(false), rgb(200, 200, 200));
    assert_eq!(theme_block_bg(true), rgb(40, 40, 40));
    assert_eq!(theme_block_bg(false), rgb(240, 240, 240));
    assert_eq!(theme_border_color(true), rgb(120, 120, 120));
    assert_eq!(theme_border_color(false), rgb(100, 100, 100));
    assert_eq!(theme_interconnect_bg(true), Color { r: 80, g: 80, b: 80, a: 150 });
    assert_eq!(theme_interconnect_bg(false), Color { r: 100, g: 100, b: 100, a: 150 });
}

#[test]
fn block_colors_follow_the_theme() {
    let lut = lut_colors(false);
    assert_eq!(lut.bg, rgb(255, 250, 205));
    assert_eq!(lut.border, rgb(180, 180, 0));
    assert_eq!(lut.text, rgb(180, 180, 0));
    let ff = flip_flop_colors(true);
    assert_eq!(ff.bg, rgb(50, 60, 100));
    assert_eq!(ff.border, rgb(100, 100, 255));
    assert_eq!(ff.text, rgb(100, 100, 255));
    let mem = memory_colors(true);
    assert_eq!(mem.bg, rgb(50, 100, 50));
    assert_eq!(mem.border, rgb(0, 150, 0));
    assert_eq!(mem.grid, rgb(0, 150, 0));
    assert_eq!(mem.text, rgb(0, 150, 0));
    let blif = blif_colors(false);
    assert_eq!(blif.bg, rgb(255, 220, 220));
    assert_eq!(blif.border, rgb(180, 0, 0));
    assert_eq!(grid_io_color(false), rgb(0xF5, 0xF5, 0xF5));
    assert_eq!(grid_lb_color(true), rgb(60, 70, 120));
    assert_eq!(grid_sb_color(false), rgb(0xFF, 0xE6, 0xCE));
    assert_eq!(grid_cb_color(true), rgb(120, 110, 70));
}

#[test]
fn default_styles_name_and_size_the_blocks() {
    let styles = DefaultBlockStyles::default();
    let all = styles.all_styles();
    assert_eq!(all.len(), 4);
    let names: Vec<&str> = all.iter().map(|s| s.short_name).collect();
    assert_eq!(names, vec!["IO", "LB", "SB", "CB"]);
    assert_eq!(all[0].full_name, "Input/Output Block");
    assert_eq!(all[3].full_name, "Connection Block");
    assert_eq!(all[0].size_percent, 100);
    assert_eq!(all[2].size_percent, 50);
    assert_eq!(all[1].shape, BlockShape::Square);
    assert_eq!(all[1].color, rgb(0xD8, 0xE7, 0xFD));
}

#[test]
fn update_colors_switches_the_theme_only() {
    let mut styles = DefaultBlockStyles::new();
    styles.update_colors(true);
    assert_eq!(styles.io.color, rgb(80, 80, 80));
    assert_eq!(styles.sb.color, rgb(120, 90, 60));
    assert_eq!(styles.cb.short_name, "CB");
    assert_eq!(styles.cb.size_percent, 50);
    let dark = DefaultBlockStyles::new_with_theme(true);
    assert_eq!(dark.lb.color, styles.lb.color);
    let custom = BlockStyle::new("X", "Extra", BlockShape::Square, rgb(1, 2, 3), 25);
    assert_eq!(custom.full_name, "Extra");
    assert_eq!(custom.size_percent, 25);
}
