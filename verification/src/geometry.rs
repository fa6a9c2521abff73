//! Pixel-to-grid geometry: converting a pane's pixel box and font-cell
//! metrics into a character grid, and the value type that keeps the two
//! consistent.
//!
//! All pixel quantities are whole pixels held in `i64` values clamped to
//! `[-PX_LIMIT, PX_LIMIT]`; divisions truncate toward zero, matching how a
//! framebuffer quantizes fractional cells.

use vstd::prelude::*;

verus! {

/// Minimum number of character columns a pane's grid may have.
pub const MIN_COLS: usize = 2;

/// Minimum number of character lines a pane's grid may have.
pub const MIN_LINES: usize = 1;

/// Fixed pixel gap reserved for the separator between two panes.
pub const PADDING: i64 = 4;

/// Every pixel coordinate the library stores is kept within
/// `[-PX_LIMIT, PX_LIMIT]`; values handed in from outside are clamped into
/// this range, which keeps all internal arithmetic exact.
pub const PX_LIMIT: i64 = 0x4000_0000;

/// Upper bound on a display's pixel scale factor.
pub const SCALE_LIMIT: i64 = 1024;

/// Upper bound on a font cell's width or height in pixels.
pub const CELL_LIMIT: i64 = 65536;

/// Upper bound on the line-height factor.
pub const LINE_HEIGHT_LIMIT: i64 = 1024;

/// Upper bound on a computed column or line count, so that a count always
/// fits a `usize` on every platform.
pub const GRID_LIMIT: usize = 0x7fff_ffff;

/// An offset on the three sides the layout cares about: a left inset and the
/// two vertical insets. Used both as the grid's outer padding and as a
/// per-pane render offset.
#[derive(Clone, Copy, Debug, Default, PartialEq, Eq)]
pub struct Delta<T: Default> {
    pub x: T,
    pub top_y: T,
    pub bottom_y: T,
}

/// Per-cell font metrics as resolved by the renderer: the display scale
/// factor and the pixel width and height of one character cell.
#[derive(Clone, Copy, Debug, PartialEq, Eq)]
pub struct SugarDimensions {
    pub scale: i64,
    pub width: i64,
    pub height: i64,
}

impl SugarDimensions {
    /// Metrics are usable when every component is positive and bounded.
    pub open spec fn wf(self) -> bool {
        &&& 1 <= self.scale <= SCALE_LIMIT
        &&& 1 <= self.width <= CELL_LIMIT
        &&& 1 <= self.height <= CELL_LIMIT
    }
}

impl Default for SugarDimensions {
    /// Neutral metrics: scale 1 and a one-pixel cell.
    fn default() -> (r: Self)
        ensures
            r == (SugarDimensions { scale: 1i64, width: 1i64, height: 1i64 }),
            r.wf(),
    {
        SugarDimensions { scale: 1, width: 1, height: 1 }
    }
}

/// A margin is storable when each component is a bounded pixel offset.
pub open spec fn margin_ok(m: Delta<i64>) -> bool {
    &&& -PX_LIMIT <= m.x <= PX_LIMIT
    &&& -PX_LIMIT <= m.top_y <= PX_LIMIT
    &&& -PX_LIMIT <= m.bottom_y <= PX_LIMIT
}

/// A pixel value clamped into the library's coordinate range.
pub open spec fn px_clamped(v: int) -> int {
    if v > PX_LIMIT as int {
        PX_LIMIT as int
    } else if v < -(PX_LIMIT as int) {
        -(PX_LIMIT as int)
    } else {
        v
    }
}

/// Division truncating toward zero (the rounding a pixel grid uses),
/// for a positive divisor.
pub open spec fn div_trunc(a: int, b: int) -> int
    recommends
        b >= 1,
{
    if a >= 0 {
        a / b
    } else {
        -((-a) / b)
    }
}

/// A raw column or line count clamped into `[low, GRID_LIMIT]`.
pub open spec fn grid_clamped(q: int, low: int) -> int {
    if q < low {
        low
    } else if q > GRID_LIMIT as int {
        GRID_LIMIT as int
    } else {
        q
    }
}

/// The number of visible character columns of a pixel box `width` wide under
/// metrics `dim` with left inset `margin.x`: the unscaled width left after
/// the scaled margin, divided by the unscaled cell width, truncated,
/// saturated at zero, and clamped to at least `MIN_COLS`.
pub open spec fn spec_columns(width: int, dim: SugarDimensions, margin: Delta<i64>) -> int {
    let num = width - margin.x * dim.scale * dim.scale;
    let q = if num <= 0 {
        0int
    } else {
        num / (dim.width as int)
    };
    grid_clamped(q, MIN_COLS as int)
}

/// The number of visible character lines of a pixel box `height` tall under
/// metrics `dim`, vertical insets `margin.top_y + margin.bottom_y` and a
/// whole-number line-height factor, clamped to at least `MIN_LINES`.
pub open spec fn spec_lines(
    height: int,
    dim: SugarDimensions,
    margin: Delta<i64>,
    line_height: int,
) -> int {
    let num = height - (margin.top_y + margin.bottom_y) * dim.scale;
    let q = if num <= 0 {
        0int
    } else {
        num / (dim.height * line_height)
    };
    grid_clamped(q, MIN_LINES as int)
}

/// A product of bounded factors is bounded by the product of the bounds.
pub proof fn lemma_mul_bound(a: int, b: int, amax: int, bmax: int)
    by (nonlinear_arith)
    requires
        -amax <= a <= amax,
        0 <= b <= bmax,
        0 <= amax,
    ensures
        -(amax * bmax) <= a * b <= amax * bmax,
{
}

/// Clamps a pixel value into the library's coordinate range.
pub fn clamp_px(v: i64) -> (r: i64)
    ensures
        r as int == px_clamped(v as int),
{
    if v > PX_LIMIT {
        PX_LIMIT
    } else if v < -PX_LIMIT {
        -PX_LIMIT
    } else {
        v
    }
}

/// Division truncating toward zero, for a positive divisor.
pub fn div_trunc_i64(a: i64, b: i64) -> (r: i64)
    requires
        1 <= b,
    ensures
        r as int == div_trunc(a as int, b as int),
        a >= 0 ==> 0 <= r <= a,
        a < 0 ==> a <= r <= 0,
{
    match a.checked_div(b) {
        Some(q) => q,
        None => 0,
    }
}

/// Converts a pixel box plus cell metrics, line-height factor and margin
/// into (columns, lines), each clamped to its minimum so the grid is never
/// degenerate.
pub fn compute(
    width: i64,
    height: i64,
    dimensions: SugarDimensions,
    line_height: i64,
    margin: Delta<i64>,
) -> (r: (usize, usize))
    requires
        dimensions.wf(),
        1 <= line_height <= LINE_HEIGHT_LIMIT,
        -PX_LIMIT <= width <= PX_LIMIT,
        -PX_LIMIT <= height <= PX_LIMIT,
        margin_ok(margin),
    ensures
        r.0 as int == spec_columns(width as int, dimensions, margin),
        r.1 as int == spec_lines(height as int, dimensions, margin, line_height as int),
        MIN_COLS <= r.0 <= GRID_LIMIT,
        MIN_LINES <= r.1 <= GRID_LIMIT,
{
    proof {
        lemma_mul_bound(margin.x as int, dimensions.scale as int, PX_LIMIT as int, SCALE_LIMIT as int);
    }
    let margin_x: i64 = margin.x * dimensions.scale;
    proof {
        lemma_mul_bound(
            margin_x as int,
            dimensions.scale as int,
            PX_LIMIT as int * SCALE_LIMIT as int,
            SCALE_LIMIT as int,
        );
    }
    let col_num: i64 = width - margin_x * dimensions.scale;
    let col_q: i64 = if col_num <= 0 {
        0
    } else {
        div_trunc_i64(col_num, dimensions.width)
    };
    let visible_columns: usize = if col_q < MIN_COLS as i64 {
        MIN_COLS
    } else if col_q > GRID_LIMIT as i64 {
        GRID_LIMIT
    } else {
        col_q as usize
    };

    proof {
        lemma_mul_bound(
            margin.top_y + margin.bottom_y,
            dimensions.scale as int,
            2 * PX_LIMIT as int,
            SCALE_LIMIT as int,
        );
        lemma_mul_bound(dimensions.height as int, line_height as int, CELL_LIMIT as int, LINE_HEIGHT_LIMIT as int);
        assert(1 <= dimensions.height * line_height) by (nonlinear_arith)
            requires
                1 <= dimensions.height,
                1 <= line_height,
        ;
    }
    let line_num: i64 = height - (margin.top_y + margin.bottom_y) * dimensions.scale;
    let line_q: i64 = if line_num <= 0 {
        0
    } else {
        div_trunc_i64(line_num, dimensions.height * line_height)
    };
    let visible_lines: usize = if line_q < MIN_LINES as i64 {
        MIN_LINES
    } else if line_q > GRID_LIMIT as i64 {
        GRID_LIMIT
    } else {
        line_q as usize
    };

    (visible_columns, visible_lines)
}

/// A margin with every component clamped into the coordinate range.
pub open spec fn margin_clamped(m: Delta<i64>) -> Delta<i64> {
    Delta {
        x: px_clamped(m.x as int) as i64,
        top_y: px_clamped(m.top_y as int) as i64,
        bottom_y: px_clamped(m.bottom_y as int) as i64,
    }
}

/// Clamps every component of a margin into the coordinate range.
pub fn clamp_margin(m: Delta<i64>) -> (r: Delta<i64>)
    ensures
        r == margin_clamped(m),
        margin_ok(r),
{
    Delta { x: clamp_px(m.x), top_y: clamp_px(m.top_y), bottom_y: clamp_px(m.bottom_y) }
}

/// A pane's computed geometry: its pixel box, the character grid derived
/// from it, the cell metrics and the margin the derivation used.
///
/// The columns and lines are never set independently: every mutation
/// recomputes them from the other fields, so they always are the pure
/// function of (width, height, metrics, margin).
#[derive(Clone, Copy, Debug)]
pub struct ContextDimension {
    pub width: i64,
    pub height: i64,
    pub columns: usize,
    pub lines: usize,
    pub dimension: SugarDimensions,
    pub margin: Delta<i64>,
}

/// The geometry value that `width`/`height` pixels under metrics `dim`,
/// line-height factor `line_height` and margin `margin` determine, with the
/// pixel inputs clamped into the coordinate range.
pub open spec fn built(
    width: int,
    height: int,
    dim: SugarDimensions,
    line_height: int,
    margin: Delta<i64>,
) -> ContextDimension {
    let m = margin_clamped(margin);
    ContextDimension {
        width: px_clamped(width) as i64,
        height: px_clamped(height) as i64,
        columns: spec_columns(px_clamped(width), dim, m) as usize,
        lines: spec_lines(px_clamped(height), dim, m, line_height) as usize,
        dimension: dim,
        margin: m,
    }
}

impl ContextDimension {
    /// Every stored quantity is within its range.
    pub open spec fn wf(self) -> bool {
        &&& -PX_LIMIT <= self.width <= PX_LIMIT
        &&& -PX_LIMIT <= self.height <= PX_LIMIT
        &&& self.dimension.wf()
        &&& margin_ok(self.margin)
        &&& MIN_COLS <= self.columns <= GRID_LIMIT
        &&& MIN_LINES <= self.lines <= GRID_LIMIT
    }

    /// The grid is exactly what the pixel box, metrics and margin determine
    /// (at line-height factor 1, which every recomputation uses).
    pub open spec fn consistent(self) -> bool {
        &&& self.columns as int == spec_columns(self.width as int, self.dimension, self.margin)
        &&& self.lines as int == spec_lines(self.height as int, self.dimension, self.margin, 1)
    }

    /// Builds a geometry from a pixel box, metrics, line-height factor and
    /// margin, deriving columns and lines.
    pub fn build(
        width: i64,
        height: i64,
        dimension: SugarDimensions,
        line_height: i64,
        margin: Delta<i64>,
    ) -> (r: Self)
        requires
            dimension.wf(),
            1 <= line_height <= LINE_HEIGHT_LIMIT,
        ensures
            r == built(width as int, height as int, dimension, line_height as int, margin),
            r.wf(),
            line_height == 1 ==> r.consistent(),
    {
        let w = clamp_px(width);
        let h = clamp_px(height);
        let m = clamp_margin(margin);
        let (columns, lines) = compute(w, h, dimension, line_height, m);
        Self { width: w, height: h, columns, lines, dimension, margin: m }
    }

    /// Recomputes columns and lines from the current fields.
    fn update(&mut self)
        requires
            old(self).wf(),
        ensures
            *final(self) == built(
                old(self).width as int,
                old(self).height as int,
                old(self).dimension,
                1,
                old(self).margin,
            ),
            final(self).wf(),
            final(self).consistent(),
    {
        let (columns, lines) = compute(self.width, self.height, self.dimension, 1, self.margin);
        self.columns = columns;
        self.lines = lines;
    }

    /// Sets the pixel width (clamped) and recomputes the grid.
    pub fn update_width(&mut self, width: i64)
        requires
            old(self).wf(),
        ensures
            *final(self) == built(
                width as int,
                old(self).height as int,
                old(self).dimension,
                1,
                old(self).margin,
            ),
            final(self).wf(),
            final(self).consistent(),
    {
        self.width = clamp_px(width);
        self.update();
    }

    /// Adds to the pixel width (clamping the sum) and recomputes the grid.
    pub fn increase_width(&mut self, acc_width: i64)
        requires
            old(self).wf(),
        ensures
            *final(self) == built(
                old(self).width + acc_width,
                old(self).height as int,
                old(self).dimension,
                1,
                old(self).margin,
            ),
            final(self).wf(),
            final(self).consistent(),
    {
        let w = match self.width.checked_add(acc_width) {
            Some(sum) => clamp_px(sum),
            None => {
                if acc_width > 0 {
                    PX_LIMIT
                } else {
                    -PX_LIMIT
                }
            },
        };
        self.width = w;
        self.update();
    }

    /// Sets the pixel height (clamped) and recomputes the grid.
    pub fn update_height(&mut self, height: i64)
        requires
            old(self).wf(),
        ensures
            *final(self) == built(
                old(self).width as int,
                height as int,
                old(self).dimension,
                1,
                old(self).margin,
            ),
            final(self).wf(),
            final(self).consistent(),
    {
        self.height = clamp_px(height);
        self.update();
    }

    /// Adds to the pixel height (clamping the sum) and recomputes the grid.
    pub fn increase_height(&mut self, acc_height: i64)
        requires
            old(self).wf(),
        ensures
            *final(self) == built(
                old(self).width as int,
                old(self).height + acc_height,
                old(self).dimension,
                1,
                old(self).margin,
            ),
            final(self).wf(),
            final(self).consistent(),
    {
        let h = match self.height.checked_add(acc_height) {
            Some(sum) => clamp_px(sum),
            None => {
                if acc_height > 0 {
                    PX_LIMIT
                } else {
                    -PX_LIMIT
                }
            },
        };
        self.height = h;
        self.update();
    }

    /// Sets the margin (clamped) and recomputes the grid.
    pub fn update_margin(&mut self, margin: Delta<i64>)
        requires
            old(self).wf(),
        ensures
            *final(self) == built(
                old(self).width as int,
                old(self).height as int,
                old(self).dimension,
                1,
                margin,
            ),
            final(self).wf(),
            final(self).consistent(),
    {
        self.margin = clamp_margin(margin);
        self.update();
    }

    /// Sets the cell metrics and recomputes the grid.
    pub fn update_dimensions(&mut self, dimensions: SugarDimensions)
        requires
            old(self).wf(),
            dimensions.wf(),
        ensures
            *final(self) == built(
                old(self).width as int,
                old(self).height as int,
                dimensions,
                1,
                old(self).margin,
            ),
            final(self).wf(),
            final(self).consistent(),
    {
        self.dimension = dimensions;
        self.update();
    }

    /// The number of character columns.
    pub fn columns(&self) -> (r: usize)
        ensures
            r == self.columns,
    {
        self.columns
    }

    /// The number of character lines on screen.
    pub fn screen_lines(&self) -> (r: usize)
        ensures
            r == self.lines,
    {
        self.lines
    }

    /// The total number of character lines, which equals the screen lines:
    /// this layout keeps no scrollback of its own.
    pub fn total_lines(&self) -> (r: usize)
        ensures
            r == self.lines,
    {
        self.screen_lines()
    }

    /// The pixel width of one character cell.
    pub fn square_width(&self) -> (r: i64)
        ensures
            r == self.dimension.width,
    {
        self.dimension.width
    }

    /// The pixel height of one character cell.
    pub fn square_height(&self) -> (r: i64)
        ensures
            r == self.dimension.height,
    {
        self.dimension.height
    }
}

impl Default for ContextDimension {
    /// A zero-size box with neutral metrics and the minimum grid.
    fn default() -> (r: ContextDimension)
        ensures
            r == built(0, 0, SugarDimensions { scale: 1i64, width: 1i64, height: 1i64 }, 1, Delta {
                x: 0i64,
                top_y: 0i64,
                bottom_y: 0i64,
            }),
            r.wf(),
            r.consistent(),
    {
        ContextDimension {
            width: 0,
            height: 0,
            columns: MIN_COLS,
            lines: MIN_LINES,
            dimension: SugarDimensions::default(),
            margin: Delta { x: 0, top_y: 0, bottom_y: 0 },
        }
    }
}

/// Columns and lines are at least their minimums for every input: no box,
/// however degenerate, yields a zero-size grid.
pub proof fn lemma_grid_never_degenerate(
    width: int,
    height: int,
    dim: SugarDimensions,
    margin: Delta<i64>,
    line_height: int,
)
    ensures
        spec_columns(width, dim, margin) >= MIN_COLS,
        spec_lines(height, dim, margin, line_height) >= MIN_LINES,
{
}

} // verus!
