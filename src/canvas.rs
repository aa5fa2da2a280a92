use vstd::prelude::*;

verus! {

/// The box-drawing glyphs of a chart.
#[derive(Clone, Copy, Debug, PartialEq, Eq, Structural)]
pub enum Glyph {
    /// `┤`, an axis row.
    Tick,
    /// `┼`, the axis row where a series starts.
    Junction,
    /// `─`
    Horizontal,
    /// `╭`, where a rising segment reaches its higher row.
    ArcDownRight,
    /// `╮`, where a falling segment leaves its higher row.
    ArcDownLeft,
    /// `╰`, where a falling segment reaches its lower row.
    ArcUpRight,
    /// `╯`, where a rising segment leaves its lower row.
    ArcUpLeft,
    /// `│`
    Vertical,
}

/// One cell of the canvas.
#[derive(Clone, Copy, Debug, PartialEq, Eq, Structural)]
pub enum Cell {
    Blank,
    /// The row's axis label, right-aligned in its field.
    Label,
    /// A glyph of the axis.
    Axis(Glyph),
    /// A glyph of the series at the given position.
    Trace(Glyph, usize),
}

/// The glyph that the segment from sample `a` to the next sample `b` puts at
/// scaled level `level` of its column, if any.
///
/// A gap next to a sample leaves a horizontal stub at the sample's level; two
/// gaps leave nothing. Between two samples the segment is a horizontal line
/// when they are level, and otherwise two arcs joined by vertical lines.
pub open spec fn segment_glyph(a: Option<i32>, b: Option<i32>, level: int) -> Option<Glyph> {
    match (a, b) {
        (None, None) => None,
        (Some(y0), None) => if level == y0 {
            Some(Glyph::Horizontal)
        } else {
            None
        },
        (None, Some(y1)) => if level == y1 {
            Some(Glyph::Horizontal)
        } else {
            None
        },
        (Some(y0), Some(y1)) => if y0 == y1 {
            if level == y0 {
                Some(Glyph::Horizontal)
            } else {
                None
            }
        } else if y0 > y1 {
            if level == y1 {
                Some(Glyph::ArcUpRight)
            } else if level == y0 {
                Some(Glyph::ArcDownLeft)
            } else if y1 < level < y0 {
                Some(Glyph::Vertical)
            } else {
                None
            }
        } else {
            if level == y1 {
                Some(Glyph::ArcDownRight)
            } else if level == y0 {
                Some(Glyph::ArcUpLeft)
            } else if y0 < level < y1 {
                Some(Glyph::Vertical)
            } else {
                None
            }
        },
    }
}

/// The cell that the segment from `a` to `b` of the `k`-th series writes at
/// scaled level `level` of its column, if any.
pub open spec fn segment_mark(a: Option<i32>, b: Option<i32>, k: int, level: int) -> Option<Cell> {
    match segment_glyph(a, b, level) {
        Some(g) => Some(Cell::Trace(g, k as usize)),
        None => None,
    }
}

/// The canvas row that shows scaled level `level`, `top` being the level of
/// row 0.
pub open spec fn row_of(top: int, level: int) -> int {
    top - level
}

/// What series `s`, drawn as the `k`-th series, writes at row `r` and column
/// `c` of a canvas whose top row shows level `top` and whose data starts at
/// column `offset`: a junction on the axis at its first sample's row, and in
/// column `offset + x` the glyph of its segment from sample `x` to `x + 1`.
pub open spec fn series_mark(s: Seq<Option<i32>>, k: int, top: int, offset: int, r: int, c: int) -> Option<Cell> {
    if c == offset - 1 {
        if s.len() > 0 && s[0] is Some && row_of(top, s[0]->0 as int) == r {
            Some(Cell::Axis(Glyph::Junction))
        } else {
            None
        }
    } else if offset <= c && c + 1 < offset + s.len() {
        segment_mark(s[c - offset], s[c - offset + 1], k, top - r)
    } else {
        None
    }
}

/// A mark written over a cell, or the cell where there is no mark.
pub open spec fn overlay(mark: Option<Cell>, under: Cell) -> Cell {
    match mark {
        Some(m) => m,
        None => under,
    }
}

/// The cell at row `r`, column `c` after the first `k` series have been drawn
/// in order over `under`: the last series that writes there wins.
pub open spec fn layered_cell(
    series: Seq<Seq<Option<i32>>>,
    k: int,
    top: int,
    offset: int,
    under: Cell,
    r: int,
    c: int,
) -> Cell
    decreases k,
{
    if k <= 0 {
        under
    } else {
        overlay(
            series_mark(series[k - 1], k - 1, top, offset, r, c),
            layered_cell(series, k - 1, top, offset, under, r, c),
        )
    }
}

/// The column where a label of `width` characters starts, so that it ends
/// before the axis column `offset - 1` (or at column 0 when it is too wide).
pub open spec fn label_column(offset: int, width: int) -> int {
    if offset > width {
        offset - width
    } else {
        0
    }
}

/// The cell at column `c` of a row whose label is `width` characters wide,
/// before any series is drawn: the axis tick, the label, or a blank.
pub open spec fn axis_cell(offset: int, width: int, c: int) -> Cell {
    if c == offset - 1 {
        Cell::Axis(Glyph::Tick)
    } else if c == label_column(offset, width) {
        Cell::Label
    } else {
        Cell::Blank
    }
}

/// `g` has `rows` rows of `cols` cells each.
pub open spec fn is_grid(g: Seq<Vec<Cell>>, rows: int, cols: int) -> bool {
    &&& g.len() == rows
    &&& forall|r: int| 0 <= r < rows ==> #[trigger] g[r]@.len() == cols
}

/// Every sample of `s` lies on one of `rows` rows below the level `top`, and
/// its segments fit in `cols` columns from `offset`.
pub open spec fn fits(s: Seq<Option<i32>>, top: int, offset: int, rows: int, cols: int) -> bool {
    &&& 1 <= offset
    &&& offset + s.len() <= cols + 1
    &&& forall|i: int|
        0 <= i < s.len() && #[trigger] s[i] is Some ==> 0 <= row_of(top, s[i]->0 as int) < rows
}

/// A gap inside a series connects nothing across it: the column of the
/// segment into the gap holds only a horizontal stub at the level of the sample
/// before it, and the column of the segment out of it only a horizontal stub at
/// the level of the sample after it.
pub proof fn lemma_gap_stubs(s: Seq<Option<i32>>, k: int, top: int, offset: int, x: int, r: int)
    requires
        0 < x < s.len() - 1,
        s[x] is None,
        s[x - 1] is Some,
        s[x + 1] is Some,
    ensures
        series_mark(s, k, top, offset, r, offset + x - 1) == if r == row_of(top, s[x - 1]->0 as int) {
            Some(Cell::Trace(Glyph::Horizontal, k as usize))
        } else {
            None::<Cell>
        },
        series_mark(s, k, top, offset, r, offset + x) == if r == row_of(top, s[x + 1]->0 as int) {
            Some(Cell::Trace(Glyph::Horizontal, k as usize))
        } else {
            None::<Cell>
        },
{
}

/// Where the last series drawn writes, the chart shows its mark, whatever the
/// series before it drew there.
pub proof fn lemma_last_drawn_wins(
    series: Seq<Seq<Option<i32>>>,
    top: int,
    offset: int,
    under: Cell,
    r: int,
    c: int,
)
    requires
        series.len() > 0,
        series_mark(series.last(), series.len() - 1, top, offset, r, c) is Some,
    ensures
        layered_cell(series, series.len() as int, top, offset, under, r, c) == series_mark(
            series.last(),
            series.len() - 1,
            top,
            offset,
            r,
            c,
        )->0,
{
}

/// Drawing order matters: where two series both write a cell, drawing `a`
/// then `b` shows the mark of `b` there, and drawing `b` then `a` shows the
/// mark of `a`.
pub proof fn lemma_overlay_order(
    a: Seq<Option<i32>>,
    b: Seq<Option<i32>>,
    top: int,
    offset: int,
    under: Cell,
    r: int,
    c: int,
)
    requires
        series_mark(a, 1, top, offset, r, c) is Some,
        series_mark(b, 1, top, offset, r, c) is Some,
    ensures
        layered_cell(seq![a, b], 2, top, offset, under, r, c) == series_mark(b, 1, top, offset, r, c)->0,
        layered_cell(seq![b, a], 2, top, offset, under, r, c) == series_mark(a, 1, top, offset, r, c)->0,
{
    assert(seq![a, b][1] == b);
    assert(seq![b, a][1] == a);
}

/// A blank canvas with the axis: in each row `r`, the label field of
/// `widths[r]` characters and the tick at column `offset - 1`.
pub fn axis_canvas(widths: &Vec<usize>, cols: usize, offset: usize) -> (g: Vec<Vec<Cell>>)
    requires
        1 <= offset <= cols,
    ensures
        is_grid(g@, widths@.len() as int, cols as int),
        forall|r: int, c: int|
            0 <= r < widths@.len() && 0 <= c < cols ==> #[trigger] g@[r]@[c] == axis_cell(
                offset as int,
                widths@[r] as int,
                c,
            ),
{
    let mut g: Vec<Vec<Cell>> = Vec::new();
    let mut r: usize = 0;
    while r < widths.len()
        invariant
            r <= widths@.len(),
            1 <= offset <= cols,
            is_grid(g@, r as int, cols as int),
            forall|i: int, c: int|
                0 <= i < r && 0 <= c < cols ==> #[trigger] g@[i]@[c] == axis_cell(
                    offset as int,
                    widths@[i] as int,
                    c,
                ),
        decreases widths@.len() - r,
    {
        let w = widths[r];
        let start: usize = if offset > w {
            offset - w
        } else {
            0
        };
        let mut line: Vec<Cell> = Vec::new();
        let mut c: usize = 0;
        while c < cols
            invariant
                c <= cols,
                1 <= offset <= cols,
                start as int == label_column(offset as int, w as int),
                line@.len() == c,
                forall|j: int| 0 <= j < c ==> #[trigger] line@[j] == axis_cell(offset as int, w as int, j),
            decreases cols - c,
        {
            let cell = if c == offset - 1 {
                Cell::Axis(Glyph::Tick)
            } else if c == start {
                Cell::Label
            } else {
                Cell::Blank
            };
            line.push(cell);
            c = c + 1;
        }
        g.push(line);
        r = r + 1;
    }
    g
}

/// Writes `cell` at row `r`, column `c`.
fn put(g: &mut Vec<Vec<Cell>>, r: usize, c: usize, cell: Cell)
    requires
        r < old(g)@.len(),
        c < old(g)@[r as int]@.len(),
    ensures
        final(g)@.len() == old(g)@.len(),
        forall|i: int| 0 <= i < old(g)@.len() ==> #[trigger] final(g)@[i]@.len() == old(g)@[i]@.len(),
        forall|i: int, j: int|
            0 <= i < old(g)@.len() && 0 <= j < old(g)@[i]@.len() ==> #[trigger] final(g)@[i]@[j] == if i
                == r && j == c {
                cell
            } else {
                old(g)@[i]@[j]
            },
{
    g[r][c] = cell;
}

/// The canvas row of a sample at scaled level `v`.
fn row_index(top: i32, v: i32, rows: usize) -> (r: usize)
    requires
        0 <= row_of(top as int, v as int) < rows,
    ensures
        r as int == row_of(top as int, v as int),
{
    (top as i64 - v as i64) as usize
}

/// Draws, in column `col`, the segment of the `k`-th series from sample `a` to
/// the next sample `b`.
fn draw_segment(
    g: &mut Vec<Vec<Cell>>,
    a: Option<i32>,
    b: Option<i32>,
    k: usize,
    top: i32,
    col: usize,
    cols: usize,
)
    requires
        is_grid(old(g)@, old(g)@.len() as int, cols as int),
        col < cols,
        a matches Some(y) ==> 0 <= row_of(top as int, y as int) < old(g)@.len(),
        b matches Some(y) ==> 0 <= row_of(top as int, y as int) < old(g)@.len(),
    ensures
        is_grid(final(g)@, old(g)@.len() as int, cols as int),
        forall|r: int, c: int|
            0 <= r < old(g)@.len() && 0 <= c < cols ==> #[trigger] final(g)@[r]@[c] == if c == col {
                overlay(segment_mark(a, b, k as int, top - r), old(g)@[r]@[c])
            } else {
                old(g)@[r]@[c]
            },
{
    let ghost g0 = g@;
    let rows = g.len();
    match (a, b) {
        (None, None) => {},
        (Some(y0), None) => {
            put(g, row_index(top, y0, rows), col, Cell::Trace(Glyph::Horizontal, k));
        },
        (None, Some(y1)) => {
            put(g, row_index(top, y1, rows), col, Cell::Trace(Glyph::Horizontal, k));
        },
        (Some(y0), Some(y1)) => {
            if y0 == y1 {
                put(g, row_index(top, y0, rows), col, Cell::Trace(Glyph::Horizontal, k));
            } else {
                let (lo, hi, lo_glyph, hi_glyph) = if y0 > y1 {
                    (y1, y0, Glyph::ArcUpRight, Glyph::ArcDownLeft)
                } else {
                    (y0, y1, Glyph::ArcUpLeft, Glyph::ArcDownRight)
                };
                put(g, row_index(top, lo, rows), col, Cell::Trace(lo_glyph, k));
                put(g, row_index(top, hi, rows), col, Cell::Trace(hi_glyph, k));
                let mut level: i32 = lo + 1;
                while level < hi
                    invariant
                        lo < level <= hi,
                        lo == (if y0 > y1 { y1 } else { y0 }),
                        hi == (if y0 > y1 { y0 } else { y1 }),
                        y0 != y1,
                        a == Some(y0),
                        b == Some(y1),
                        rows == g0.len(),
                        col < cols,
                        0 <= row_of(top as int, lo as int) < rows,
                        0 <= row_of(top as int, hi as int) < rows,
                        is_grid(g@, rows as int, cols as int),
                        forall|r: int, c: int|
                            0 <= r < rows && 0 <= c < cols ==> #[trigger] g@[r]@[c] == if c == col && (
                            top - r == lo || top - r == hi || lo < top - r < level) {
                                segment_mark(a, b, k as int, top - r)->0
                            } else {
                                g0[r]@[c]
                            },
                    decreases hi - level,
                {
                    put(g, row_index(top, level, rows), col, Cell::Trace(Glyph::Vertical, k));
                    level = level + 1;
                }
            }
        },
    }
}

/// Draws the `k`-th series: its junction on the axis and its segments.
pub fn draw_series(g: &mut Vec<Vec<Cell>>, s: &Vec<Option<i32>>, k: usize, top: i32, offset: usize, cols: usize)
    requires
        is_grid(old(g)@, old(g)@.len() as int, cols as int),
        fits(s@, top as int, offset as int, old(g)@.len() as int, cols as int),
    ensures
        is_grid(final(g)@, old(g)@.len() as int, cols as int),
        forall|r: int, c: int|
            0 <= r < old(g)@.len() && 0 <= c < cols ==> #[trigger] final(g)@[r]@[c] == overlay(
                series_mark(s@, k as int, top as int, offset as int, r, c),
                old(g)@[r]@[c],
            ),
{
    let ghost g0 = g@;
    let rows = g.len();
    if s.len() > 0 {
        if let Some(v) = s[0] {
            put(g, row_index(top, v, rows), offset - 1, Cell::Axis(Glyph::Junction));
        }
    }
    let mut x: usize = 0;
    while x + 1 < s.len()
        invariant
            rows == g0.len(),
            is_grid(g0, rows as int, cols as int),
            is_grid(g@, rows as int, cols as int),
            fits(s@, top as int, offset as int, rows as int, cols as int),
            x == 0 || x + 1 <= s@.len(),
            forall|r: int, c: int|
                0 <= r < rows && 0 <= c < cols ==> #[trigger] g@[r]@[c] == overlay(
                    if c < offset + x {
                        series_mark(s@, k as int, top as int, offset as int, r, c)
                    } else {
                        None
                    },
                    g0[r]@[c],
                ),
        decreases s@.len() - x,
    {
        assert(s@[x as int] is Some ==> 0 <= row_of(top as int, s@[x as int]->0 as int) < rows);
        assert(s@[x + 1] is Some ==> 0 <= row_of(top as int, s@[x + 1]->0 as int) < rows);
        draw_segment(g, s[x], s[x + 1], k, top, offset + x, cols);
        x = x + 1;
    }
}

/// Draws every series in order over the canvas.
pub fn draw_all(g: &mut Vec<Vec<Cell>>, series: &Vec<Vec<Option<i32>>>, top: i32, offset: usize, cols: usize)
    requires
        is_grid(old(g)@, old(g)@.len() as int, cols as int),
        forall|k: int|
            0 <= k < series@.len() ==> fits(
                #[trigger] series@[k]@,
                top as int,
                offset as int,
                old(g)@.len() as int,
                cols as int,
            ),
    ensures
        is_grid(final(g)@, old(g)@.len() as int, cols as int),
        forall|r: int, c: int|
            0 <= r < old(g)@.len() && 0 <= c < cols ==> #[trigger] final(g)@[r]@[c] == layered_cell(
                series.deep_view(),
                series@.len() as int,
                top as int,
                offset as int,
                old(g)@[r]@[c],
                r,
                c,
            ),
{
    let ghost g0 = g@;
    let rows = g.len();
    let mut k: usize = 0;
    while k < series.len()
        invariant
            k <= series@.len(),
            rows == g0.len(),
            is_grid(g@, rows as int, cols as int),
            forall|j: int|
                0 <= j < series@.len() ==> fits(
                    #[trigger] series@[j]@,
                    top as int,
                    offset as int,
                    rows as int,
                    cols as int,
                ),
            forall|r: int, c: int|
                0 <= r < rows && 0 <= c < cols ==> #[trigger] g@[r]@[c] == layered_cell(
                    series.deep_view(),
                    k as int,
                    top as int,
                    offset as int,
                    g0[r]@[c],
                    r,
                    c,
                ),
        decreases series@.len() - k,
    {
        assert(series.deep_view()[k as int] == series@[k as int]@);
        draw_series(g, &series[k], k, top, offset, cols);
        k = k + 1;
    }
}

} // verus!
