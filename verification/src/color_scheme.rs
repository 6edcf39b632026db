//! The colors the views draw with, for the light and the dark theme.
use vstd::prelude::*;

verus! {

/// A color as red, green, blue and (unmultiplied) alpha components.
#[derive(Debug, Clone, Copy, PartialEq, Eq, Structural)]
pub struct Color {
    pub r: u8,
    pub g: u8,
    pub b: u8,
    pub a: u8,
}

/// The opaque color with the given components.
pub open spec fn rgb(r: u8, g: u8, b: u8) -> Color {
    Color { r, g, b, a: 255 }
}

/// The color with the given components and alpha.
pub open spec fn rgba(r: u8, g: u8, b: u8, a: u8) -> Color {
    Color { r, g, b, a }
}

/// The opaque color with the given components.
pub fn from_rgb(r: u8, g: u8, b: u8) -> (c: Color)
    ensures
        c == rgb(r, g, b),
{
    Color { r, g, b, a: 255 }
}

/// One of two colors, by theme.
pub open spec fn themed(dark_mode: bool, dark: Color, light: Color) -> Color {
    if dark_mode {
        dark
    } else {
        light
    }
}

/// Text color: white on the dark theme, black on the light one.
pub fn theme_text_color(dark_mode: bool) -> (c: Color)
    ensures
        c == themed(dark_mode, rgb(255, 255, 255), rgb(0, 0, 0)),
{
    if dark_mode {
        from_rgb(255, 255, 255)
    } else {
        from_rgb(0, 0, 0)
    }
}

/// Background of block headers.
pub fn theme_header_bg(dark_mode: bool) -> (c: Color)
    ensures
        c == themed(dark_mode, rgb(60, 60, 60), rgb(200, 200, 200)),
{
    if dark_mode {
        from_rgb(60, 60, 60)
    } else {
        from_rgb(200, 200, 200)
    }
}

/// Background of blocks.
pub fn theme_block_bg(dark_mode: bool) -> (c: Color)
    ensures
        c == themed(dark_mode, rgb(40, 40, 40), rgb(240, 240, 240)),
{
    if dark_mode {
        from_rgb(40, 40, 40)
    } else {
        from_rgb(240, 240, 240)
    }
}

/// Border of blocks.
pub fn theme_border_color(dark_mode: bool) -> (c: Color)
    ensures
        c == themed(dark_mode, rgb(120, 120, 120), rgb(100, 100, 100)),
{
    if dark_mode {
        from_rgb(120, 120, 120)
    } else {
        from_rgb(100, 100, 100)
    }
}

/// Background of interconnect blocks, partly transparent.
pub fn theme_interconnect_bg(dark_mode: bool) -> (c: Color)
    ensures
        c == themed(dark_mode, rgba(80, 80, 80, 150), rgba(100, 100, 100, 150)),
{
    if dark_mode {
        Color { r: 80, g: 80, b: 80, a: 150 }
    } else {
        Color { r: 100, g: 100, b: 100, a: 150 }
    }
}

/// The colors of a LUT block.
pub struct LutColors {
    pub bg: Color,
    pub border: Color,
    pub text: Color,
}

/// The colors of a LUT block: pale yellow with an olive border and text.
pub fn lut_colors(dark_mode: bool) -> (c: LutColors)
    ensures
        c.bg == themed(dark_mode, rgb(100, 100, 50), rgb(255, 250, 205)),
        c.border == themed(dark_mode, rgb(150, 150, 0), rgb(180, 180, 0)),
        c.text == c.border,
{
    let border = if dark_mode {
        from_rgb(150, 150, 0)
    } else {
        from_rgb(180, 180, 0)
    };
    LutColors {
        bg: if dark_mode {
            from_rgb(100, 100, 50)
        } else {
            from_rgb(255, 250, 205)
        },
        border,
        text: border,
    }
}

/// The colors of a flip-flop block.
pub struct FlipFlopColors {
    pub bg: Color,
    pub border: Color,
    pub text: Color,
}

/// The colors of a flip-flop block: pale blue with a blue border and text.
pub fn flip_flop_colors(dark_mode: bool) -> (c: FlipFlopColors)
    ensures
        c.bg == themed(dark_mode, rgb(50, 60, 100), rgb(220, 230, 255)),
        c.border == themed(dark_mode, rgb(100, 100, 255), rgb(0, 0, 180)),
        c.text == c.border,
{
    let border = if dark_mode {
        from_rgb(100, 100, 255)
    } else {
        from_rgb(0, 0, 180)
    };
    FlipFlopColors {
        bg: if dark_mode {
            from_rgb(50, 60, 100)
        } else {
            from_rgb(220, 230, 255)
        },
        border,
        text: border,
    }
}

/// The colors of a memory block.
pub struct MemoryColors {
    pub bg: Color,
    pub border: Color,
    pub text: Color,
    pub grid: Color,
}

/// The colors of a memory block: pale green with a green border, text and grid.
pub fn memory_colors(dark_mode: bool) -> (c: MemoryColors)
    ensures
        c.bg == themed(dark_mode, rgb(50, 100, 50), rgb(200, 240, 200)),
        c.border == themed(dark_mode, rgb(0, 150, 0), rgb(0, 100, 0)),
        c.text == c.border,
        c.grid == c.border,
{
    let border = if dark_mode {
        from_rgb(0, 150, 0)
    } else {
        from_rgb(0, 100, 0)
    };
    MemoryColors {
        bg: if dark_mode {
            from_rgb(50, 100, 50)
        } else {
            from_rgb(200, 240, 200)
        },
        border,
        text: border,
        grid: border,
    }
}

/// The colors of a block that implements a BLIF model.
pub struct BlifColors {
    pub bg: Color,
    pub border: Color,
    pub text: Color,
}

/// The colors of a BLIF block: pale red with a red border and text.
pub fn blif_colors(dark_mode: bool) -> (c: BlifColors)
    ensures
        c.bg == themed(dark_mode, rgb(100, 50, 50), rgb(255, 220, 220)),
        c.border == themed(dark_mode, rgb(200, 0, 0), rgb(180, 0, 0)),
        c.text == c.border,
{
    let border = if dark_mode {
        from_rgb(200, 0, 0)
    } else {
        from_rgb(180, 0, 0)
    };
    BlifColors {
        bg: if dark_mode {
            from_rgb(100, 50, 50)
        } else {
            from_rgb(255, 220, 220)
        },
        border,
        text: border,
    }
}

/// Input/output blocks of the grid: light or dark gray.
pub fn grid_io_color(dark_mode: bool) -> (c: Color)
    ensures
        c == themed(dark_mode, rgb(80, 80, 80), rgb(0xF5, 0xF5, 0xF5)),
{
    if dark_mode {
        from_rgb(80, 80, 80)
    } else {
        from_rgb(0xF5, 0xF5, 0xF5)
    }
}

/// Logic blocks of the grid: light or dark blue.
pub fn grid_lb_color(dark_mode: bool) -> (c: Color)
    ensures
        c == themed(dark_mode, rgb(60, 70, 120), rgb(0xD8, 0xE7, 0xFD)),
{
    if dark_mode {
        from_rgb(60, 70, 120)
    } else {
        from_rgb(0xD8, 0xE7, 0xFD)
    }
}

/// Switch blocks of the grid: light orange or brown.
pub fn grid_sb_color(dark_mode: bool) -> (c: Color)
    ensures
        c == themed(dark_mode, rgb(120, 90, 60), rgb(0xFF, 0xE6, 0xCE)),
{
    if dark_mode {
        from_rgb(120, 90, 60)
    } else {
        from_rgb(0xFF, 0xE6, 0xCE)
    }
}

/// Connection blocks of the grid: light yellow or dark yellow-brown.
pub fn grid_cb_color(dark_mode: bool) -> (c: Color)
    ensures
        c == themed(dark_mode, rgb(120, 110, 70), rgb(0xFF, 0xF3, 0xCC)),
{
    if dark_mode {
        from_rgb(120, 110, 70)
    } else {
        from_rgb(0xFF, 0xF3, 0xCC)
    }
}

} // verus!
