use vstd::prelude::*;
use vstd::string::StringExecFns;

verus! {

/// Pixel size of the font, and of one grid cell on either axis.
pub const FONT_SIZE: u32 = 16;

/// Side of the glyph atlas texture the renderer asks for, in pixels.
pub const ATLAS_SIDE: u32 = 1024;

/// Number of glyphs the renderer's cache is sized for.
pub const GLYPH_CACHE_SIZE: usize = 1024;

/// Settings of a terminal window.
#[derive(Debug, Clone)]
pub struct Config {
    pub font_size: u32,
    pub font_path: String,
    pub atlas_width: u32,
    pub atlas_height: u32,
    pub glyph_cache_size: usize,
    pub num_rows: usize,
    pub num_cols: usize,
}

impl Config {
    /// The settings for a window of `screen_width` by `screen_height` pixels: as many rows and
    /// columns of `FONT_SIZE`-pixel cells as fit whole.
    pub fn new(screen_width: u32, screen_height: u32) -> (c: Config)
        ensures
            c.font_size == FONT_SIZE,
            c.font_path@ == "../Inter-Bold.ttf"@,
            c.atlas_width == ATLAS_SIDE,
            c.atlas_height == ATLAS_SIDE,
            c.glyph_cache_size == GLYPH_CACHE_SIZE,
            c.num_rows == screen_height / FONT_SIZE,
            c.num_cols == screen_width / FONT_SIZE,
    {
        Config {
            font_size: FONT_SIZE,
            font_path: String::from_str("../Inter-Bold.ttf"),
            atlas_width: ATLAS_SIDE,
            atlas_height: ATLAS_SIDE,
            glyph_cache_size: GLYPH_CACHE_SIZE,
            num_rows: (screen_height as usize) / (FONT_SIZE as usize),
            num_cols: (screen_width as usize) / (FONT_SIZE as usize),
        }
    }
}

} // verus!
