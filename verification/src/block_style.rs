//! How the kinds of blocks of the grid view are drawn: their names, shape, color
//! and relative size.
use vstd::prelude::*;
use crate::color_scheme::{Color, themed, rgb, grid_io_color, grid_lb_color, grid_sb_color, grid_cb_color};

verus! {

/// The shape of a block in the grid.
#[derive(Debug, Clone, Copy, PartialEq, Eq, Structural)]
pub enum BlockShape {
    Square,
}

/// How one kind of block is drawn.
pub struct BlockStyle {
    pub short_name: &'static str,
    pub full_name: &'static str,
    pub shape: BlockShape,
    pub color: Color,
    /// Size relative to the standard block, in percent (100: standard size, 50:
    /// half size).
    pub size_percent: u32,
}

impl BlockStyle {
    /// The style with the given fields.
    pub fn new(short_name: &'static str, full_name: &'static str, shape: BlockShape, color: Color, size_percent: u32) -> (r: BlockStyle)
        ensures
            r.short_name == short_name,
            r.full_name == full_name,
            r.shape == shape,
            r.color == color,
            r.size_percent == size_percent,
    {
        BlockStyle { short_name, full_name, shape, color, size_percent }
    }
}

/// The styles of the four kinds of blocks of the grid view.
pub struct DefaultBlockStyles {
    pub io: BlockStyle,
    pub lb: BlockStyle,
    pub sb: BlockStyle,
    pub cb: BlockStyle,
}

/// Colors of the grid's blocks, by theme.
pub open spec fn io_color(dark_mode: bool) -> Color {
    themed(dark_mode, rgb(80, 80, 80), rgb(0xF5, 0xF5, 0xF5))
}

pub open spec fn lb_color(dark_mode: bool) -> Color {
    themed(dark_mode, rgb(60, 70, 120), rgb(0xD8, 0xE7, 0xFD))
}

pub open spec fn sb_color(dark_mode: bool) -> Color {
    themed(dark_mode, rgb(120, 90, 60), rgb(0xFF, 0xE6, 0xCE))
}

pub open spec fn cb_color(dark_mode: bool) -> Color {
    themed(dark_mode, rgb(120, 110, 70), rgb(0xFF, 0xF3, 0xCC))
}

impl DefaultBlockStyles {
    /// The styles are those of the theme `dark_mode`: each block kind has its
    /// names, a square shape and the theme's color; input/output and logic blocks
    /// are of standard size, switch and connection blocks of half size.
    pub open spec fn is_themed(&self, dark_mode: bool) -> bool {
        &&& self.io.short_name@ == "IO"@ && self.io.full_name@ == "Input/Output Block"@
        &&& self.lb.short_name@ == "LB"@ && self.lb.full_name@ == "Logic Block"@
        &&& self.sb.short_name@ == "SB"@ && self.sb.full_name@ == "Switch Block"@
        &&& self.cb.short_name@ == "CB"@ && self.cb.full_name@ == "Connection Block"@
        &&& self.io.shape == BlockShape::Square && self.lb.shape == BlockShape::Square
        &&& self.sb.shape == BlockShape::Square && self.cb.shape == BlockShape::Square
        &&& self.io.size_percent == 100 && self.lb.size_percent == 100
        &&& self.sb.size_percent == 50 && self.cb.size_percent == 50
        &&& self.io.color == io_color(dark_mode) && self.lb.color == lb_color(dark_mode)
        &&& self.sb.color == sb_color(dark_mode) && self.cb.color == cb_color(dark_mode)
    }

    /// The styles of the light theme.
    pub fn new() -> (r: DefaultBlockStyles)
        ensures
            r.is_themed(false),
    {
        Self::new_with_theme(false)
    }

    /// The styles of the theme `dark_mode`.
    pub fn new_with_theme(dark_mode: bool) -> (r: DefaultBlockStyles)
        ensures
            r.is_themed(dark_mode),
    {
        DefaultBlockStyles {
            io: BlockStyle::new("IO", "Input/Output Block", BlockShape::Square, grid_io_color(dark_mode), 100),
            lb: BlockStyle::new("LB", "Logic Block", BlockShape::Square, grid_lb_color(dark_mode), 100),
            sb: BlockStyle::new("SB", "Switch Block", BlockShape::Square, grid_sb_color(dark_mode), 50),
            cb: BlockStyle::new("CB", "Connection Block", BlockShape::Square, grid_cb_color(dark_mode), 50),
        }
    }

    /// Gives every style the color of the theme `dark_mode`, and changes nothing else.
    pub fn update_colors(&mut self, dark_mode: bool)
        ensures
            final(self).io.color == io_color(dark_mode),
            final(self).lb.color == lb_color(dark_mode),
            final(self).sb.color == sb_color(dark_mode),
            final(self).cb.color == cb_color(dark_mode),
            final(self).io.short_name == old(self).io.short_name && final(self).io.full_name == old(self).io.full_name,
            final(self).lb.short_name == old(self).lb.short_name && final(self).lb.full_name == old(self).lb.full_name,
            final(self).sb.short_name == old(self).sb.short_name && final(self).sb.full_name == old(self).sb.full_name,
            final(self).cb.short_name == old(self).cb.short_name && final(self).cb.full_name == old(self).cb.full_name,
            final(self).io.shape == old(self).io.shape && final(self).io.size_percent == old(self).io.size_percent,
            final(self).lb.shape == old(self).lb.shape && final(self).lb.size_percent == old(self).lb.size_percent,
            final(self).sb.shape == old(self).sb.shape && final(self).sb.size_percent == old(self).sb.size_percent,
            final(self).cb.shape == old(self).cb.shape && final(self).cb.size_percent == old(self).cb.size_percent,
    {
        self.io.color = grid_io_color(dark_mode);
        self.lb.color = grid_lb_color(dark_mode);
        self.sb.color = grid_sb_color(dark_mode);
        self.cb.color = grid_cb_color(dark_mode);
    }

    /// The four styles: input/output, logic, switch and connection blocks.
    pub fn all_styles(&self) -> (r: Vec<&BlockStyle>)
        ensures
            r@.len() == 4,
            *r@[0] == self.io,
            *r@[1] == self.lb,
            *r@[2] == self.sb,
            *r@[3] == self.cb,
    {
        let mut v: Vec<&BlockStyle> = Vec::new();
        v.push(&self.io);
        v.push(&self.lb);
        v.push(&self.sb);
        v.push(&self.cb);
        v
    }
}

impl Default for DefaultBlockStyles {
    fn default() -> (r: DefaultBlockStyles)
        ensures
            r.is_themed(false),
    {
        Self::new()
    }
}

} // verus!
