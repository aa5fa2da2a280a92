//! Line charts drawn with box-drawing characters.
//!
//! A chart is drawn from series already scaled to rows: each sample is the
//! integer level of its row, or a gap. The library lays out the axis and its
//! labels, draws each series' segments onto a canvas of cells, later series over
//! earlier ones, and writes the canvas as text, with colors if asked.
use vstd::prelude::*;

pub mod canvas;
pub mod colors;
pub mod config;
pub mod error;
pub mod plot;
pub mod render;
pub mod scale;

pub use colors::Color;
pub use config::Config;
pub use error::PlotError;

verus! {

} // verus!
