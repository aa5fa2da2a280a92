use vstd::prelude::*;
use vstd::string::*;

use crate::canvas::{
    axis_canvas, axis_cell, draw_all, fits, is_grid, label_column, layered_cell, series_mark, Cell,
    Glyph,
};
use crate::colors::color_code;
use crate::config::{effective_offset, Config};
use crate::error::PlotError;
use crate::scale::{all_samples, bounds, highest, lowest};

verus! {

broadcast use vstd::seq_lib::group_seq_properties;

/// The text of a glyph.
pub open spec fn glyph_text(g: Glyph) -> Seq<char> {
    match g {
        Glyph::Tick => "┤"@,
        Glyph::Junction => "┼"@,
        Glyph::Horizontal => "─"@,
        Glyph::ArcDownRight => "╭"@,
        Glyph::ArcDownLeft => "╮"@,
        Glyph::ArcUpRight => "╰"@,
        Glyph::ArcUpLeft => "╯"@,
        Glyph::Vertical => "│"@,
    }
}

impl Glyph {
    pub fn text(self) -> (r: &'static str)
        ensures
            r@ == glyph_text(self),
    {
        match self {
            Glyph::Tick => "┤",
            Glyph::Junction => "┼",
            Glyph::Horizontal => "─",
            Glyph::ArcDownRight => "╭",
            Glyph::ArcDownLeft => "╮",
            Glyph::ArcUpRight => "╰",
            Glyph::ArcUpLeft => "╯",
            Glyph::Vertical => "│",
        }
    }
}

/// `n` spaces (none when `n` is not positive).
pub open spec fn spaces(n: int) -> Seq<char> {
    Seq::new(
        if n > 0 {
            n as nat
        } else {
            0
        },
        |i: int| ' ',
    )
}

/// `s` between the escape sequence that selects the color with SGR parameter
/// `code` and the one that resets it.
pub open spec fn paint(code: Seq<char>, s: Seq<char>) -> Seq<char> {
    "\x1b["@ + code + "m"@ + s + "\x1b[0m"@
}

/// `label` right-aligned in a field of `width` characters; a longer label is
/// kept whole.
pub open spec fn padded(label: Seq<char>, width: int) -> Seq<char> {
    spaces(width - label.len()) + label
}

/// The text of one cell, `label` being the padded label of its row.
pub open spec fn cell_text(cell: Cell, label: Seq<char>, config: Config, colored: bool) -> Seq<char> {
    match cell {
        Cell::Blank => " "@,
        Cell::Label => if colored {
            paint(color_code(config.label_color), label)
        } else {
            label
        },
        Cell::Axis(g) => if colored {
            paint(color_code(config.axis_color), glyph_text(g))
        } else {
            glyph_text(g)
        },
        Cell::Trace(g, k) => if colored {
            paint(color_code(config.series_colors@[k as int]), glyph_text(g))
        } else {
            glyph_text(g)
        },
    }
}

/// The text of a run of cells.
pub open spec fn cells_text(cells: Seq<Cell>, label: Seq<char>, config: Config, colored: bool) -> Seq<char>
    decreases cells.len(),
{
    if cells.len() == 0 {
        Seq::empty()
    } else {
        cells_text(cells.drop_last(), label, config, colored) + cell_text(
            cells.last(),
            label,
            config,
            colored,
        )
    }
}

/// The first `n` rows of a grid, each followed by a line break.
pub open spec fn lines_text(
    grid: Seq<Seq<Cell>>,
    shown: Seq<Seq<char>>,
    config: Config,
    colored: bool,
    n: int,
) -> Seq<char>
    decreases n,
{
    if n <= 0 {
        Seq::empty()
    } else {
        lines_text(grid, shown, config, colored, n - 1) + cells_text(
            grid[n - 1],
            shown[n - 1],
            config,
            colored,
        ) + "\n"@
    }
}

/// The rows of a grid joined by line breaks. The last row leaves out its last
/// column, which no series draws on.
pub open spec fn body_text(grid: Seq<Seq<Cell>>, shown: Seq<Seq<char>>, config: Config, colored: bool) -> Seq<char> {
    let last = grid.len() - 1;
    lines_text(grid, shown, config, colored, last) + cells_text(
        grid[last].drop_last(),
        shown[last],
        config,
        colored,
    )
}

/// The caption line, if there is a caption: indented past the label columns,
/// and centred over the `width` data columns when it is narrower.
pub open spec fn caption_text(config: Config, offset: int, label_width: int, width: int, colored: bool) -> Seq<char> {
    let cap = config.caption@;
    if cap.len() == 0 {
        Seq::empty()
    } else {
        "\n"@ + spaces(offset) + spaces(label_width) + (if cap.len() < width {
            spaces((width - cap.len()) / 2)
        } else {
            Seq::empty()
        }) + (if colored {
            paint(color_code(config.caption_color), cap)
        } else {
            cap
        })
    }
}

/// The length of the longest series.
pub open spec fn longest(series: Seq<Seq<Option<i32>>>) -> int
    decreases series.len(),
{
    if series.len() == 0 {
        0
    } else {
        let m = longest(series.drop_last());
        if series.last().len() > m {
            series.last().len() as int
        } else {
            m
        }
    }
}

/// The axis labels right-aligned in fields one wider than `label_width`.
pub open spec fn shown_labels(labels: Seq<Seq<char>>, label_width: int) -> Seq<Seq<char>> {
    labels.map_values(|l: Seq<char>| padded(l, label_width + 1))
}

/// The cells of a chart: one row per label, `cols` columns, the axis and
/// labels under the series drawn in order.
pub open spec fn chart_grid(
    series: Seq<Seq<Option<i32>>>,
    top: int,
    offset: int,
    shown: Seq<Seq<char>>,
    cols: int,
) -> Seq<Seq<Cell>> {
    Seq::new(
        shown.len(),
        |r: int|
            Seq::new(
                cols as nat,
                |c: int|
                    layered_cell(
                        series,
                        series.len() as int,
                        top,
                        offset,
                        axis_cell(offset, shown[r].len() as int, c),
                        r,
                        c,
                    ),
            ),
    )
}

/// The text of a chart of scaled series: row 0 shows the greatest sample, each
/// row below one level less; `labels` gives each row's label, and
/// `label_width` the width of the widest bound's label.
pub open spec fn chart_text(
    series: Seq<Seq<Option<i32>>>,
    labels: Seq<Seq<char>>,
    label_width: int,
    config: Config,
    colored: bool,
) -> Seq<char> {
    let top = highest(all_samples(series))->0 as int;
    let offset = effective_offset(config.offset) as int;
    let width = longest(series);
    let shown = shown_labels(labels, label_width);
    body_text(chart_grid(series, top, offset, shown, width + offset), shown, config, colored)
        + caption_text(config, offset, label_width, width, colored)
}

/// The error, if any, of drawing `series` with `n_labels` labels.
pub open spec fn render_error(
    series: Seq<Seq<Option<i32>>>,
    n_labels: int,
    config: Config,
    colored: bool,
) -> Option<PlotError> {
    let samples = all_samples(series);
    if series.len() == 0 {
        Some(PlotError::NoSeries)
    } else if exists|k: int| 0 <= k < series.len() && #[trigger] series[k].len() == 0 {
        Some(PlotError::EmptySeries)
    } else if lowest(samples) is None {
        Some(PlotError::NoData)
    } else if n_labels != highest(samples)->0 - lowest(samples)->0 + 1 {
        Some(PlotError::LabelCount)
    } else if colored && config.series_colors@.len() < series.len() {
        Some(PlotError::MissingSeriesColor)
    } else {
        None
    }
}

/// The cells of a canvas as sequences.
pub open spec fn grid_of(g: Seq<Vec<Cell>>) -> Seq<Seq<Cell>> {
    g.map_values(|row: Vec<Cell>| row@)
}

/// Every series mark in `row` belongs to one of the first `n` series.
pub open spec fn row_traces_below(row: Seq<Cell>, n: int) -> bool {
    forall|j: int| 0 <= j < row.len() ==> (#[trigger] row[j] matches Cell::Trace(_, k) ==> k < n)
}

/// Every series mark in `grid` belongs to one of the first `n` series.
pub open spec fn traces_below(grid: Seq<Seq<Cell>>, n: int) -> bool {
    forall|r: int| 0 <= r < grid.len() ==> row_traces_below(#[trigger] grid[r], n)
}

/// A cell that the first `k` series have drawn on is a mark of one of them.
proof fn lemma_layered_trace(
    series: Seq<Seq<Option<i32>>>,
    k: int,
    top: int,
    offset: int,
    under: Cell,
    r: int,
    c: int,
)
    requires
        0 <= k <= usize::MAX,
        !(under is Trace),
    ensures
        layered_cell(series, k, top, offset, under, r, c) matches Cell::Trace(_, j) ==> j < k,
    decreases k,
{
    if k > 0 {
        lemma_layered_trace(series, k - 1, top, offset, under, r, c);
    }
}

/// A series of `n` samples, each `v`.
pub open spec fn constant_series(v: i32, n: nat) -> Seq<Option<i32>> {
    Seq::new(n, |i: int| Some(v))
}

/// `n` horizontal glyphs.
pub open spec fn horizontal_run(n: nat) -> Seq<char> {
    Seq::new(n, |i: int| '─')
}

proof fn lemma_constant_bounds(v: i32, n: nat)
    requires
        n >= 1,
    ensures
        lowest(constant_series(v, n)) == Some(v),
        highest(constant_series(v, n)) == Some(v),
    decreases n,
{
    let s = constant_series(v, n);
    if n > 1 {
        lemma_constant_bounds(v, (n - 1) as nat);
        assert(s.drop_last() =~= constant_series(v, (n - 1) as nat));
    } else {
        assert(s.drop_last() =~= Seq::<Option<i32>>::empty());
        assert(lowest(s.drop_last()) is None);
        assert(highest(s.drop_last()) is None);
    }
    assert(s.last() == Some(v));
}

proof fn lemma_flat_row_text(row: Seq<Cell>, label: Seq<char>, config: Config, m: int)
    requires
        3 <= m <= row.len(),
        row[0] == Cell::Label,
        row[1] == Cell::Blank,
        row[2] == Cell::Axis(Glyph::Junction),
        forall|c: int| 3 <= c < m ==> #[trigger] row[c] == Cell::Trace(Glyph::Horizontal, 0),
    ensures
        cells_text(row.subrange(0, m), label, config, false) == label + " "@ + glyph_text(
            Glyph::Junction,
        ) + horizontal_run((m - 3) as nat),
    decreases m,
{
    reveal_strlit("─");
    let sub = row.subrange(0, m);
    assert(sub.drop_last() =~= row.subrange(0, m - 1));
    if m == 3 {
        assert(row.subrange(0, 2).drop_last() =~= row.subrange(0, 1));
        assert(row.subrange(0, 1).drop_last() =~= row.subrange(0, 0));
        let s0 = row.subrange(0, 0);
        let s1 = row.subrange(0, 1);
        assert(cells_text(s0, label, config, false) == Seq::<char>::empty());
        assert(s1.last() == row[0]);
        assert(cells_text(s1, label, config, false) =~= label);
        assert(row.subrange(0, 2).last() == row[1]);
        assert(cells_text(row.subrange(0, 2), label, config, false) =~= label + " "@);
        assert(sub.last() == row[2]);
        assert(horizontal_run(0) =~= Seq::<char>::empty());
        assert(cells_text(sub, label, config, false) =~= label + " "@ + glyph_text(Glyph::Junction)
            + horizontal_run(0));
    } else {
        lemma_flat_row_text(row, label, config, m - 1);
        assert(horizontal_run((m - 3) as nat) =~= horizontal_run((m - 4) as nat) + "─"@);
        assert(cells_text(sub, label, config, false) =~= label + " "@ + glyph_text(Glyph::Junction)
            + horizontal_run((m - 3) as nat));
    }
}

/// A single series that holds one value throughout, drawn without colors,
/// with the default offset and no caption, is one row: its label right-aligned
/// one column wider than itself, a blank, the junction, and one horizontal
/// glyph for each of its `n - 1` segments.
pub proof fn lemma_constant_series(v: i32, n: nat, label: Seq<char>, config: Config)
    requires
        n >= 1,
        label.len() >= 2,
        config.offset == 0,
        config.caption@.len() == 0,
    ensures
        render_error(seq![constant_series(v, n)], 1, config, false) is None,
        chart_text(seq![constant_series(v, n)], seq![label], label.len() as int, config, false)
            == " "@ + label + " "@ + glyph_text(Glyph::Junction) + horizontal_run((n - 1) as nat),
{
    let s = constant_series(v, n);
    let series = seq![s];
    series.lemma_flatten_singleton();
    assert(all_samples(series) =~= s);
    lemma_constant_bounds(v, n);
    assert(series.drop_last() =~= Seq::<Seq<Option<i32>>>::empty());
    assert(longest(series.drop_last()) == 0);
    assert(series.last() == s);
    assert(longest(series) == n);
    reveal_strlit(" ");
    let shown = shown_labels(seq![label], label.len() as int);
    assert(spaces(1) =~= " "@);
    assert(shown[0] =~= " "@ + label);
    let cols = n + 3;
    let grid = chart_grid(series, v as int, 3, shown, cols as int);
    let row = grid[0];
    assert(series.len() == 1 && series[0] == s);
    assert(shown.len() == 1 && shown[0].len() == label.len() + 1);
    assert(label_column(3, shown[0].len() as int) == 0);
    assert(row.len() == cols);
    assert(row[0] == layered_cell(series, 1, v as int, 3, axis_cell(3, shown[0].len() as int, 0), 0, 0));
    assert forall|c: int| 0 <= c < 2 implies #[trigger] row[c] == axis_cell(3, shown[0].len() as int, c) by {
        let under = axis_cell(3, shown[0].len() as int, c);
        assert(row[c] == layered_cell(series, 1, v as int, 3, under, 0, c));
        assert(series_mark(series[0], 0, v as int, 3, 0, c) is None);
        assert(layered_cell(series, 0, v as int, 3, under, 0, c) == under);
    }
    assert(row[0] == Cell::Label);
    assert(row[1] == Cell::Blank);
    assert(row[2] == Cell::Axis(Glyph::Junction));
    assert forall|c: int| 3 <= c < n + 2 implies #[trigger] row[c] == Cell::Trace(Glyph::Horizontal, 0) by {
        assert(s[c - 3] == Some(v));
        assert(s[c - 2] == Some(v));
    }
    lemma_flat_row_text(row, shown[0], config, n + 2 as int);
    assert(row.subrange(0, n + 2 as int) =~= row.drop_last());
    assert(caption_text(config, 3, label.len() as int, n as int, false) =~= Seq::<char>::empty());
    assert(body_text(grid, shown, config, false) =~= cells_text(row.drop_last(), shown[0], config, false));
    assert(chart_text(series, seq![label], label.len() as int, config, false) =~= " "@ + label + " "@
        + glyph_text(Glyph::Junction) + horizontal_run((n - 1) as nat));
}

fn push_spaces(out: &mut String, n: usize)
    ensures
        final(out)@ == old(out)@ + spaces(n as int),
{
    let mut i: usize = 0;
    while i < n
        invariant
            i <= n,
            out@ == old(out)@ + spaces(i as int),
        decreases n - i,
    {
        out.append(" ");
        proof {
            reveal_strlit(" ");
        }
        assert(spaces(i + 1) =~= spaces(i as int) + " "@);
        i = i + 1;
    }
}

pub(crate) fn push_painted(out: &mut String, code: &str, s: &str)
    ensures
        final(out)@ == old(out)@ + paint(code@, s@),
{
    out.append("\x1b[");
    out.append(code);
    out.append("m");
    out.append(s);
    out.append("\x1b[0m");
    assert(out@ =~= old(out)@ + paint(code@, s@));
}

fn push_glyph(out: &mut String, g: Glyph, color: Option<&str>)
    ensures
        final(out)@ == old(out)@ + match color {
            Some(code) => paint(code@, glyph_text(g)),
            None => glyph_text(g),
        },
{
    match color {
        Some(code) => push_painted(out, code, g.text()),
        None => out.append(g.text()),
    }
}

fn push_cell(out: &mut String, cell: Cell, label: &String, config: &Config, colored: bool)
    requires
        colored ==> (cell matches Cell::Trace(_, k) ==> k < config.series_colors@.len()),
    ensures
        final(out)@ == old(out)@ + cell_text(cell, label@, *config, colored),
{
    match cell {
        Cell::Blank => out.append(" "),
        Cell::Label => {
            if colored {
                push_painted(out, config.label_color.code(), label.as_str());
            } else {
                out.append(label.as_str());
            }
        },
        Cell::Axis(g) => {
            let color = if colored {
                Some(config.axis_color.code())
            } else {
                None
            };
            push_glyph(out, g, color);
        },
        Cell::Trace(g, k) => {
            let color = if colored {
                Some(config.series_colors[k].code())
            } else {
                None
            };
            push_glyph(out, g, color);
        },
    }
}

fn push_cells(out: &mut String, row: &Vec<Cell>, n: usize, label: &String, config: &Config, colored: bool)
    requires
        n <= row@.len(),
        colored ==> row_traces_below(row@, config.series_colors@.len() as int),
    ensures
        final(out)@ == old(out)@ + cells_text(row@.subrange(0, n as int), label@, *config, colored),
{
    let mut j: usize = 0;
    while j < n
        invariant
            j <= n <= row@.len(),
            colored ==> row_traces_below(row@, config.series_colors@.len() as int),
            out@ == old(out)@ + cells_text(row@.subrange(0, j as int), label@, *config, colored),
        decreases n - j,
    {
        assert(row@.subrange(0, j + 1).drop_last() =~= row@.subrange(0, j as int));
        push_cell(out, row[j], label, config, colored);
        j = j + 1;
    }
}

fn push_body(out: &mut String, g: &Vec<Vec<Cell>>, shown: &Vec<String>, cols: usize, config: &Config, colored: bool)
    requires
        g@.len() >= 1,
        cols >= 1,
        shown@.len() == g@.len(),
        is_grid(g@, g@.len() as int, cols as int),
        colored ==> traces_below(grid_of(g@), config.series_colors@.len() as int),
    ensures
        final(out)@ == old(out)@ + body_text(grid_of(g@), shown.deep_view(), *config, colored),
{
    let ghost grid = grid_of(g@);
    let ghost labels = shown.deep_view();
    let last = g.len() - 1;
    let mut r: usize = 0;
    while r < last
        invariant
            r <= last,
            last == g@.len() - 1,
            shown@.len() == g@.len(),
            grid == grid_of(g@),
            labels == shown.deep_view(),
            is_grid(g@, g@.len() as int, cols as int),
            colored ==> traces_below(grid, config.series_colors@.len() as int),
            out@ == old(out)@ + lines_text(grid, labels, *config, colored, r as int),
        decreases g@.len() - r,
    {
        assert(g@[r as int]@.subrange(0, cols as int) =~= grid[r as int]);
        assert(grid[r as int] == g@[r as int]@);
        push_cells(out, &g[r], cols, &shown[r], config, colored);
        out.append("\n");
        r = r + 1;
    }
    assert(g@[last as int]@.subrange(0, cols - 1) =~= grid[last as int].drop_last());
    assert(grid[last as int] == g@[last as int]@);
    push_cells(out, &g[last], cols - 1, &shown[last], config, colored);
}

fn push_caption(out: &mut String, config: &Config, offset: usize, label_width: usize, width: usize, colored: bool)
    ensures
        final(out)@ == old(out)@ + caption_text(
            *config,
            offset as int,
            label_width as int,
            width as int,
            colored,
        ),
{
    let n = config.caption.as_str().unicode_len();
    if n > 0 {
        let ghost start = out@;
        out.append("\n");
        push_spaces(out, offset);
        push_spaces(out, label_width);
        if n < width {
            push_spaces(out, (width - n) / 2);
        }
        if colored {
            push_painted(out, config.caption_color.code(), config.caption.as_str());
        } else {
            out.append(config.caption.as_str());
        }
        assert(out@ =~= start + caption_text(
            *config,
            offset as int,
            label_width as int,
            width as int,
            colored,
        ));
    }
}

fn pad_label(label: &String, width: usize) -> (r: String)
    ensures
        r@ == padded(label@, width as int),
{
    let n = label.as_str().unicode_len();
    let mut out = String::new();
    if n < width {
        push_spaces(&mut out, width - n);
    }
    out.append(label.as_str());
    assert(out@ =~= padded(label@, width as int));
    out
}

fn longest_len(series: &Vec<Vec<Option<i32>>>) -> (r: usize)
    ensures
        r == longest(series.deep_view()),
        forall|k: int| 0 <= k < series@.len() ==> #[trigger] series@[k]@.len() <= r,
        series@.len() > 0 ==> exists|k: int| 0 <= k < series@.len() && #[trigger] series@[k]@.len() == r,
{
    let ghost all = series.deep_view();
    let mut m: usize = 0;
    let mut k: usize = 0;
    while k < series.len()
        invariant
            k <= series@.len(),
            all == series.deep_view(),
            m == longest(all.subrange(0, k as int)),
            forall|j: int| 0 <= j < k ==> #[trigger] series@[j]@.len() <= m,
            k > 0 ==> exists|j: int| 0 <= j < k && #[trigger] series@[j]@.len() == m,
        decreases series@.len() - k,
    {
        assert(all.subrange(0, k + 1).drop_last() =~= all.subrange(0, k as int));
        assert(all[k as int] == series@[k as int]@);
        if series[k].len() > m {
            m = series[k].len();
        }
        k = k + 1;
    }
    assert(all.subrange(0, series@.len() as int) =~= all);
    m
}

/// The error, if any, of a request to chart series of the given lengths.
pub open spec fn input_error(lengths: Seq<usize>, config: Config) -> Option<PlotError> {
    if lengths.len() == 0 {
        Some(PlotError::NoSeries)
    } else if exists|k: int| 0 <= k < lengths.len() && #[trigger] lengths[k] == 0 {
        Some(PlotError::EmptySeries)
    } else if config.width == 1 {
        Some(PlotError::InvalidWidth)
    } else {
        None
    }
}

/// Checks a request to chart series of the given lengths before any series is
/// resampled: there must be a series, no series may be empty, and a resample
/// width must not be 1.
pub fn check_input(lengths: &Vec<usize>, config: &Config) -> (r: Result<(), PlotError>)
    ensures
        match input_error(lengths@, *config) {
            Some(e) => r == Err::<(), PlotError>(e),
            None => r is Ok,
        },
{
    if lengths.len() == 0 {
        return Err(PlotError::NoSeries);
    }
    let mut k: usize = 0;
    while k < lengths.len()
        invariant
            k <= lengths@.len(),
            forall|j: int| 0 <= j < k ==> #[trigger] lengths@[j] != 0,
        decreases lengths@.len() - k,
    {
        if lengths[k] == 0 {
            return Err(PlotError::EmptySeries);
        }
        k = k + 1;
    }
    if config.width == 1 {
        return Err(PlotError::InvalidWidth);
    }
    Ok(())
}

/// Draws a chart of series already scaled to rows.
///
/// Each series is a sequence of samples on the chart's integer scale, `None`
/// marking a gap. The greatest sample is shown on the top row and each row
/// below shows one level less, down to the least sample; `labels` holds one
/// label per row, top first, which is right-aligned in a field of
/// `label_width + 1` characters. The axis takes `config.offset` columns (3
/// when 0); series are drawn in order, a later one over an earlier one, and
/// with `colored` each label, axis glyph, series glyph and the caption is
/// wrapped in its configured color.
pub fn render(
    series: &Vec<Vec<Option<i32>>>,
    labels: &Vec<String>,
    label_width: usize,
    config: &Config,
    colored: bool,
) -> (r: Result<String, PlotError>)
    requires
        label_width < usize::MAX,
        forall|k: int|
            0 <= k < series@.len() ==> #[trigger] series@[k]@.len() + effective_offset(config.offset)
                <= usize::MAX,
    ensures
        match render_error(series.deep_view(), labels@.len() as int, *config, colored) {
            Some(e) => r == Err::<String, PlotError>(e),
            None => r matches Ok(text) && text@ == chart_text(
                series.deep_view(),
                labels.deep_view(),
                label_width as int,
                *config,
                colored,
            ),
        },
{
    let ghost all = series.deep_view();
    if series.len() == 0 {
        return Err(PlotError::NoSeries);
    }
    let mut k: usize = 0;
    while k < series.len()
        invariant
            k <= series@.len(),
            all == series.deep_view(),
            forall|j: int| 0 <= j < k ==> #[trigger] all[j].len() > 0,
        decreases series@.len() - k,
    {
        if series[k].len() == 0 {
            assert(all[k as int].len() == 0);
            return Err(PlotError::EmptySeries);
        }
        k = k + 1;
    }
    let (lo, hi) = match bounds(series) {
        None => {
            return Err(PlotError::NoData);
        },
        Some(b) => b,
    };
    let n_rows: u64 = (hi as i64 - lo as i64) as u64 + 1;
    if labels.len() as u64 != n_rows {
        return Err(PlotError::LabelCount);
    }
    if colored && config.series_colors.len() < series.len() {
        return Err(PlotError::MissingSeriesColor);
    }
    let offset = config.effective_offset() as usize;
    let width = longest_len(series);
    assert(width + offset <= usize::MAX) by {
        let j = choose|j: int| 0 <= j < series@.len() && #[trigger] series@[j]@.len() == width;
        assert(series@[j]@.len() + effective_offset(config.offset) <= usize::MAX);
    }
    let cols = width + offset;
    let mut shown: Vec<String> = Vec::new();
    let mut widths: Vec<usize> = Vec::new();
    let mut i: usize = 0;
    while i < labels.len()
        invariant
            i <= labels@.len(),
            label_width < usize::MAX,
            shown@.len() == i,
            widths@.len() == i,
            forall|j: int|
                0 <= j < i ==> #[trigger] shown@[j]@ == padded(labels@[j]@, label_width + 1),
            forall|j: int| 0 <= j < i ==> #[trigger] widths@[j] == shown@[j]@.len(),
        decreases labels@.len() - i,
    {
        let p = pad_label(&labels[i], label_width + 1);
        widths.push(p.as_str().unicode_len());
        shown.push(p);
        i = i + 1;
    }
    let ghost shown_view = shown_labels(labels.deep_view(), label_width as int);
    assert(shown.deep_view() =~= shown_view);
    let mut g = axis_canvas(&widths, cols, offset);
    let ghost g0 = g@;
    proof {
        let samples = all_samples(all);
        assert forall|j: int| 0 <= j < series@.len() implies fits(
            #[trigger] series@[j]@,
            hi as int,
            offset as int,
            g0.len() as int,
            cols as int,
        ) by {
            assert(all[j] == series@[j]@);
            assert forall|x: int| 0 <= x < series@[j]@.len() && #[trigger] series@[j]@[x] is Some implies 0
                <= hi - series@[j]@[x]->0 < g0.len() by {
                assert(series@[j]@[x] == all[j][x]);
                crate::scale::lemma_sample_in_all(all, j, x);
            }
        }
    }
    draw_all(&mut g, series, hi, offset, cols);
    let ghost grid = chart_grid(all, hi as int, offset as int, shown_view, cols as int);
    proof {
        assert forall|r: int| 0 <= r < grid.len() implies #[trigger] grid_of(g@)[r] =~= grid[r] by {
            assert forall|c: int| 0 <= c < cols implies #[trigger] grid_of(g@)[r][c] == grid[r][c] by {
                assert(g0[r]@[c] == axis_cell(offset as int, widths@[r] as int, c));
            }
        }
        assert(grid_of(g@) =~= grid);
        if colored {
            assert forall|r: int, c: int|
                0 <= r < grid.len() && 0 <= c < grid[r].len() implies (#[trigger] grid[r][c] matches Cell::Trace(
                _,
                j,
            ) ==> j < config.series_colors@.len()) by {
                let under = axis_cell(offset as int, shown_view[r].len() as int, c);
                lemma_layered_trace(all, all.len() as int, hi as int, offset as int, under, r, c);
            }
        }
    }
    let mut out = String::new();
    push_body(&mut out, &g, &shown, cols, config, colored);
    push_caption(&mut out, config, offset, label_width, width, colored);
    Ok(out)
}

} // verus!
