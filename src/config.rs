use vstd::prelude::*;

use crate::colors::Color;

verus! {

/// Options of a chart.
///
/// `width` is the number of data columns to resample every series to (0 keeps
/// the longest series' own length), `height` the number of row steps across the
/// data's range (0 picks one from the data), `offset` the number of columns
/// reserved left of the data for labels and axis (0 means 3), and `caption` a
/// line written under the chart (empty for none). The colors are used only when
/// a chart is rendered with colors; `series_colors` gives one color per series,
/// by position, and `series_legends` is informational.
#[derive(Clone, Debug)]
pub struct Config {
    pub width: u32,
    pub height: u32,
    pub offset: u32,
    pub caption: String,
    pub caption_color: Color,
    pub axis_color: Color,
    pub label_color: Color,
    pub series_colors: Vec<Color>,
    pub series_legends: Vec<String>,
}

/// The offset used when a configuration leaves it at 0.
pub const DEFAULT_OFFSET: u32 = 3;

/// The number of label and axis columns that a configuration asks for.
pub open spec fn effective_offset(offset: u32) -> nat {
    if offset == 0 {
        DEFAULT_OFFSET as nat
    } else {
        offset as nat
    }
}

impl Default for Config {
    fn default() -> (r: Config)
        ensures
            r.width == 0,
            r.height == 0,
            r.offset == 0,
            r.caption@.len() == 0,
            r.caption_color == Color::White,
            r.axis_color == Color::White,
            r.label_color == Color::White,
            r.series_colors@.len() == 0,
            r.series_legends@.len() == 0,
    {
        Config {
            width: 0,
            height: 0,
            offset: 0,
            caption: String::new(),
            caption_color: Color::White,
            axis_color: Color::White,
            label_color: Color::White,
            series_colors: Vec::new(),
            series_legends: Vec::new(),
        }
    }
}

impl Config {
    pub fn with_caption(self, caption: String) -> (r: Config)
        ensures
            r == (Config { caption, ..self }),
    {
        Config { caption, ..self }
    }

    pub fn with_height(self, height: u32) -> (r: Config)
        ensures
            r == (Config { height, ..self }),
    {
        Config { height, ..self }
    }

    pub fn with_width(self, width: u32) -> (r: Config)
        ensures
            r == (Config { width, ..self }),
    {
        Config { width, ..self }
    }

    pub fn with_offset(self, offset: u32) -> (r: Config)
        ensures
            r == (Config { offset, ..self }),
    {
        Config { offset, ..self }
    }

    pub fn with_caption_color(self, color: Color) -> (r: Config)
        ensures
            r == (Config { caption_color: color, ..self }),
    {
        Config { caption_color: color, ..self }
    }

    pub fn with_axis_color(self, color: Color) -> (r: Config)
        ensures
            r == (Config { axis_color: color, ..self }),
    {
        Config { axis_color: color, ..self }
    }

    pub fn with_label_color(self, color: Color) -> (r: Config)
        ensures
            r == (Config { label_color: color, ..self }),
    {
        Config { label_color: color, ..self }
    }

    pub fn with_series_colors(self, colors: Vec<Color>) -> (r: Config)
        ensures
            r == (Config { series_colors: colors, ..self }),
    {
        Config { series_colors: colors, ..self }
    }

    pub fn with_series_legends(self, legends: Vec<String>) -> (r: Config)
        ensures
            r == (Config { series_legends: legends, ..self }),
    {
        Config { series_legends: legends, ..self }
    }

    /// The number of label and axis columns, with 0 read as the default.
    pub fn effective_offset(&self) -> (r: u32)
        ensures
            r as nat == effective_offset(self.offset),
            r >= 1,
    {
        if self.offset == 0 {
            DEFAULT_OFFSET
        } else {
            self.offset
        }
    }
}

} // verus!
