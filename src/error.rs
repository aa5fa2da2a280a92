use vstd::prelude::*;

verus! {

/// Why a chart cannot be drawn.
#[derive(Clone, Copy, Debug, PartialEq, Eq, Structural)]
pub enum PlotError {
    /// No series was given.
    NoSeries,
    /// A series holds no sample.
    EmptySeries,
    /// A resample width of 1 was asked for; a width must be 0 or at least 2.
    InvalidWidth,
    /// No series holds a sample that is not a gap.
    NoData,
    /// The number of axis labels is not the number of rows of the chart.
    LabelCount,
    /// Colors were asked for, and fewer series colors than series were given.
    MissingSeriesColor,
}

} // verus!
