//! Variance heatmap: maps a two-dimensional score matrix to a scrollable
//! window of cell rectangles and maps the pointer back to a cell.
//!
//! Cell geometry is in whole pixels.  Variances and means are carried in
//! milli-units, score values in whole points.

use vstd::prelude::*;
use crate::common::{
    ChartConfig, DataError, FieldValue, HitData, HitTestResult, POINTER_LIMIT, clamped, min_int,
    max_int, tdiv,
};
use crate::format::{dec_str, u64_to_string};
use vstd::arithmetic::div_mod::{lemma_fundamental_div_mod_converse, lemma_div_is_ordered};

verus! {

/// Magnitude bound on variances and means (milli-units).
pub const VARIANCE_LIMIT: i64 = 1_000_000_000_000;

/// Magnitude bound on individual score points.
pub const SCORE_POINT_LIMIT: i64 = 1_000_000_000;

/// Most rows a payload may carry.
pub const MAX_ROWS: usize = 1_000_000;

/// Most score columns a row may carry.
pub const MAX_COLS: usize = 10_000;

/// Variance data for a single application.
pub struct VarianceDataPoint {
    pub application_id: String,
    pub reference: String,
    /// One score per assessor position; rows may have fewer scores than the
    /// widest row (missing cells are empty, not zero).
    pub scores: Vec<i64>,
    pub assessor_names: Vec<String>,
    /// Aggregate variance, milli-units.
    pub variance: i64,
    /// Mean score, milli-units.
    pub mean: i64,
    pub flagged: bool,
}

impl VarianceDataPoint {
    pub open spec fn in_range(&self) -> bool {
        &&& -VARIANCE_LIMIT <= self.variance <= VARIANCE_LIMIT
        &&& -VARIANCE_LIMIT <= self.mean <= VARIANCE_LIMIT
        &&& self.scores@.len() <= MAX_COLS as int
        &&& forall|j: int|
            0 <= j < self.scores@.len() ==> -SCORE_POINT_LIMIT <= #[trigger] self.scores@[j]
                <= SCORE_POINT_LIMIT
    }

    pub fn check_in_range(&self) -> (b: bool)
        ensures
            b == self.in_range(),
    {
        if !(-VARIANCE_LIMIT <= self.variance && self.variance <= VARIANCE_LIMIT
            && -VARIANCE_LIMIT <= self.mean && self.mean <= VARIANCE_LIMIT && self.scores.len()
            <= MAX_COLS) {
            return false;
        }
        let m = self.scores.len();
        let mut t: usize = 0;
        while t < m
            invariant
                m == self.scores@.len(),
                t <= m,
                -VARIANCE_LIMIT <= self.variance <= VARIANCE_LIMIT,
                -VARIANCE_LIMIT <= self.mean <= VARIANCE_LIMIT,
                self.scores@.len() <= MAX_COLS as int,
                forall|j: int|
                    0 <= j < t ==> -SCORE_POINT_LIMIT <= #[trigger] self.scores@[j]
                        <= SCORE_POINT_LIMIT,
            decreases m - t,
        {
            let sv = self.scores[t];
            if !(-SCORE_POINT_LIMIT <= sv && sv <= SCORE_POINT_LIMIT) {
                return false;
            }
            t += 1;
        }
        true
    }
}

/// Widest score list among the first `n` rows.
pub open spec fn max_scores_len(s: Seq<VarianceDataPoint>, n: int) -> int
    decreases n,
{
    if n <= 0 {
        0
    } else {
        max_int(max_scores_len(s, n - 1), s[n - 1].scores@.len() as int)
    }
}

/// How many of the first `n` rows carry the flagged mark.
pub open spec fn flagged_count(s: Seq<VarianceDataPoint>, n: int) -> int
    decreases n,
{
    if n <= 0 {
        0
    } else {
        flagged_count(s, n - 1) + if s[n - 1].flagged {
            1int
        } else {
            0int
        }
    }
}

/// Sum of the variances of the first `n` rows, milli-units.
pub open spec fn variance_sum(s: Seq<VarianceDataPoint>, n: int) -> int
    decreases n,
{
    if n <= 0 {
        0
    } else {
        variance_sum(s, n - 1) + s[n - 1].variance as int
    }
}

/// A row projected into the flagged-applications report.
pub struct FlaggedApplication {
    pub application_id: String,
    pub reference: String,
    pub variance: i64,
    pub mean: i64,
    pub scores: Vec<i64>,
}

/// Indices of the rows among the first `n` whose variance strictly exceeds
/// the threshold, in input order.
pub open spec fn flagged_indices(s: Seq<VarianceDataPoint>, threshold: int, n: int) -> Seq<int>
    decreases n,
{
    if n <= 0 {
        Seq::empty()
    } else {
        flagged_indices(s, threshold, n - 1) + if s[n - 1].variance > threshold {
            seq![n - 1]
        } else {
            Seq::empty()
        }
    }
}

/// A report row carries exactly the projected fields of a data row.
pub open spec fn row_projects(f: FlaggedApplication, d: VarianceDataPoint) -> bool {
    &&& f.application_id == d.application_id
    &&& f.reference == d.reference
    &&& f.variance == d.variance
    &&& f.mean == d.mean
    &&& f.scores@ == d.scores@
}

/// Cell rectangle in the heatmap, whole pixels.
pub struct CellPosition {
    pub row: usize,
    pub col: usize,
    pub x: i64,
    pub y: i64,
    pub width: i64,
    pub height: i64,
}

pub open spec fn cell_contains(c: CellPosition, x: int, y: int) -> bool {
    &&& c.x <= x <= c.x + c.width
    &&& c.y <= y <= c.y + c.height
}

/// Index of the first materialized cell containing the point, scanning from
/// position `i`; the cell count if none does.
pub open spec fn first_cell_hit(cells: Seq<CellPosition>, x: int, y: int, i: int) -> int
    decreases cells.len() - i,
{
    if i < 0 || i >= cells.len() {
        cells.len() as int
    } else if cell_contains(cells[i], x, y) {
        i
    } else {
        first_cell_hit(cells, x, y, i + 1)
    }
}

/// Read-only aggregate snapshot.
pub struct VarianceStats {
    pub total_applications: usize,
    pub flagged_count: usize,
    /// Flagged share in milli-percent.
    pub flagged_pct_milli: i64,
    /// Mean variance, milli-units, toward zero.
    pub average_variance: i64,
    pub variance_threshold: i64,
    pub max_assessors: usize,
}

/// Variance heatmap chart with windowed vertical scrolling.
pub struct VarianceHeatmapChart {
    config: ChartConfig,
    data: Vec<VarianceDataPoint>,
    max_assessors: usize,
    variance_threshold: i64,
    cell_positions: Vec<CellPosition>,
    hovered_cell: Option<(usize, usize)>,
    scroll_offset: i64,
    visible_rows: usize,
}

impl VarianceHeatmapChart {
    pub closed spec fn wf(&self) -> bool {
        &&& self.config.valid()
        &&& self.data@.len() <= MAX_ROWS as int
        &&& forall|j: int| 0 <= j < self.data@.len() ==> (#[trigger] self.data@[j]).in_range()
        &&& self.max_assessors as int == max_scores_len(self.data@, self.data@.len() as int)
        &&& self.max_assessors <= MAX_COLS
        &&& -VARIANCE_LIMIT <= self.variance_threshold <= VARIANCE_LIMIT
        &&& self.visible_rows == 20
        &&& 0 <= self.scroll_offset <= self.spec_max_scroll()
        &&& self.cells_wf()
    }

    pub closed spec fn spec_config(&self) -> ChartConfig {
        self.config
    }

    pub closed spec fn spec_data(&self) -> Seq<VarianceDataPoint> {
        self.data@
    }

    pub closed spec fn spec_max_assessors(&self) -> usize {
        self.max_assessors
    }

    pub closed spec fn spec_threshold(&self) -> i64 {
        self.variance_threshold
    }

    pub closed spec fn spec_cells(&self) -> Seq<CellPosition> {
        self.cell_positions@
    }

    pub closed spec fn spec_hovered(&self) -> Option<(usize, usize)> {
        self.hovered_cell
    }

    pub closed spec fn spec_scroll_offset(&self) -> i64 {
        self.scroll_offset
    }

    pub closed spec fn spec_visible_rows(&self) -> usize {
        self.visible_rows
    }

    /// Rows shown in the viewport: the fixed window size, or fewer when
    /// there is less data.
    pub open spec fn spec_row_count(&self) -> int {
        min_int(self.spec_visible_rows() as int, self.spec_data().len() as int)
    }

    /// Column count: the widest row observed, at least one.
    pub open spec fn spec_col_count(&self) -> int {
        max_int(self.spec_max_assessors() as int, 1)
    }

    /// Cell width: the plot width less a fixed label gutter, split evenly.
    pub open spec fn spec_cell_width(&self) -> int {
        max_int(self.spec_config().spec_plot_width() - 100, 0) / self.spec_col_count()
    }

    /// Cell height: the plot height split over the visible rows (only
    /// meaningful when there is data).
    pub open spec fn spec_cell_height(&self) -> int {
        if self.spec_row_count() > 0 {
            self.spec_config().spec_plot_height() / self.spec_row_count()
        } else {
            0
        }
    }

    /// Greatest allowed scroll offset: the pixel height of the rows hidden
    /// below the window, zero for degenerate layouts.
    pub open spec fn spec_max_scroll(&self) -> int {
        if self.spec_data().len() > 0 && self.spec_cell_height() >= 1 {
            (self.spec_data().len() as int - self.spec_row_count()) * self.spec_cell_height()
        } else {
            0
        }
    }

    /// First row of the materialized window.
    pub open spec fn spec_start_row(&self) -> int {
        if self.spec_data().len() > 0 && self.spec_cell_height() >= 1 {
            self.spec_scroll_offset() as int / self.spec_cell_height()
        } else {
            0
        }
    }

    /// One past the last materialized row: a window of one extra row covers
    /// partial-row scroll overlap, clipped to the data.
    pub open spec fn spec_end_row(&self) -> int {
        min_int(
            self.spec_start_row() + self.spec_row_count() + 1,
            self.spec_data().len() as int,
        )
    }

    /// The cell rectangle for a given row and column of the window.
    pub open spec fn spec_cell_at(&self, r: int, c: int) -> CellPosition {
        CellPosition {
            row: r as usize,
            col: c as usize,
            x: (self.spec_config().padding.left as int + 100 + c * self.spec_cell_width()) as i64,
            y: (self.spec_config().padding.top as int + (r - self.spec_start_row())
                * self.spec_cell_height()) as i64,
            width: self.spec_cell_width() as i64,
            height: self.spec_cell_height() as i64,
        }
    }

    /// The materialized cell list: the full window in row-major order, or
    /// nothing for an empty or degenerate layout.
    pub open spec fn cells_wf(&self) -> bool {
        let start = self.spec_start_row();
        let end = self.spec_end_row();
        let cc = self.spec_col_count();
        if self.spec_data().len() == 0 || self.spec_cell_height() < 1 {
            self.spec_cells().len() == 0
        } else {
            &&& self.spec_cells().len() == max_int(end - start, 0) * cc
            &&& forall|q: int|
                0 <= q < self.spec_cells().len() ==> #[trigger] self.spec_cells()[q]
                    == self.spec_cell_at(start + q / cc, q % cc)
        }
    }

    pub fn new(config: ChartConfig) -> (chart: VarianceHeatmapChart)
        requires
            config.valid(),
        ensures
            chart.wf(),
            chart.spec_config() == config,
            chart.spec_data().len() == 0,
            chart.spec_threshold() == 10_000,
            chart.spec_hovered() is None,
            chart.spec_scroll_offset() == 0,
            chart.spec_visible_rows() == 20,
    {
        VarianceHeatmapChart {
            config,
            data: Vec::new(),
            max_assessors: 0,
            variance_threshold: 10_000,
            cell_positions: Vec::new(),
            hovered_cell: None,
            scroll_offset: 0,
            visible_rows: 20,
        }
    }

    pub fn config(&self) -> (c: &ChartConfig)
        ensures
            *c == self.spec_config(),
    {
        &self.config
    }

    pub fn data(&self) -> (d: &Vec<VarianceDataPoint>)
        ensures
            d@ == self.spec_data(),
    {
        &self.data
    }

    pub fn cell_positions(&self) -> (c: &Vec<CellPosition>)
        ensures
            c@ == self.spec_cells(),
    {
        &self.cell_positions
    }

    pub fn hovered_cell(&self) -> (h: Option<(usize, usize)>)
        ensures
            h == self.spec_hovered(),
    {
        self.hovered_cell
    }

    pub fn scroll_offset(&self) -> (o: i64)
        ensures
            o == self.spec_scroll_offset(),
    {
        self.scroll_offset
    }

    pub fn max_assessors(&self) -> (m: usize)
        ensures
            m == self.spec_max_assessors(),
    {
        self.max_assessors
    }

    /// Set the variance threshold used for flagging.
    pub fn set_variance_threshold(&mut self, threshold: i64)
        requires
            old(self).wf(),
            -VARIANCE_LIMIT <= threshold <= VARIANCE_LIMIT,
        ensures
            final(self).wf(),
            final(self).spec_threshold() == threshold,
            final(self).spec_config() == old(self).spec_config(),
            final(self).spec_data() == old(self).spec_data(),
            final(self).spec_cells() == old(self).spec_cells(),
            final(self).spec_hovered() == old(self).spec_hovered(),
            final(self).spec_scroll_offset() == old(self).spec_scroll_offset(),
            final(self).spec_max_assessors() == old(self).spec_max_assessors(),
    {
        self.variance_threshold = threshold;
    }

    /// Set data and compute the window layout.  Rejects out-of-range rows
    /// and oversized payloads, leaving prior state unchanged; otherwise the
    /// scroll position resets to the top and the cell list is rebuilt.
    pub fn set_data(&mut self, data: Vec<VarianceDataPoint>) -> (r: Result<(), DataError>)
        requires
            old(self).wf(),
        ensures
            final(self).wf(),
            final(self).spec_config() == old(self).spec_config(),
            final(self).spec_threshold() == old(self).spec_threshold(),
            final(self).spec_hovered() == old(self).spec_hovered(),
            r is Ok <==> (data@.len() <= MAX_ROWS as int && (forall|i: int|
                0 <= i < data@.len() ==> (#[trigger] data@[i]).in_range())),
            r matches Err(e) ==> {
                &&& *final(self) == *old(self)
                &&& (match e {
                    DataError::TooManyRecords { count } => count == data@.len() && data@.len()
                        > MAX_ROWS as int,
                    DataError::RecordOutOfRange { index } => {
                        &&& data@.len() <= MAX_ROWS as int
                        &&& 0 <= index < data@.len()
                        &&& !data@[index as int].in_range()
                        &&& forall|j: int| 0 <= j < index ==> (#[trigger] data@[j]).in_range()
                    },
                    _ => false,
                })
            },
            r is Ok ==> {
                &&& final(self).spec_data() == data@
                &&& final(self).spec_max_assessors() as int == max_scores_len(
                    data@,
                    data@.len() as int,
                )
                &&& final(self).spec_scroll_offset() == 0
            },
    {
        if data.len() > MAX_ROWS {
            return Err(DataError::TooManyRecords { count: data.len() });
        }
        let n = data.len();
        let mut v: usize = 0;
        while v < n
            invariant
                old(self).wf(),
                *self == *old(self),
                n == data@.len(),
                n <= MAX_ROWS,
                v <= n,
                forall|j: int| 0 <= j < v ==> (#[trigger] data@[j]).in_range(),
            decreases n - v,
        {
            if !data[v].check_in_range() {
                return Err(DataError::RecordOutOfRange { index: v });
            }
            v += 1;
        }
        let mut widest: usize = 0;
        let mut i: usize = 0;
        while i < n
            invariant
                n == data@.len(),
                n <= MAX_ROWS,
                forall|j: int| 0 <= j < n ==> (#[trigger] data@[j]).in_range(),
                i <= n,
                widest as int == max_scores_len(data@, i as int),
                widest <= MAX_COLS,
            decreases n - i,
        {
            let l = data[i].scores.len();
            if l > widest {
                widest = l;
            }
            i += 1;
        }
        self.data = data;
        self.max_assessors = widest;
        self.scroll_offset = 0;
        proof {
            lemma_max_scroll_nonneg(*self);
        }
        self.compute_cell_positions();
        Ok(())
    }

    /// Rebuild the materialized cell window from the current state.
    fn compute_cell_positions(&mut self)
        requires
            old(self).config.valid(),
            old(self).data@.len() <= MAX_ROWS as int,
            old(self).max_assessors <= MAX_COLS,
            old(self).visible_rows == 20,
            0 <= old(self).scroll_offset <= old(self).spec_max_scroll(),
        ensures
            *final(self) == (VarianceHeatmapChart {
                cell_positions: final(self).cell_positions,
                ..*old(self)
            }),
            final(self).cells_wf(),
    {
        let mut cells: Vec<CellPosition> = Vec::new();
        let n = self.data.len();
        let cc = if self.max_assessors >= 1 {
            self.max_assessors
        } else {
            1
        };
        let gutterless = {
            let pw = self.config.plot_width() as i64;
            if pw > 100 {
                pw - 100
            } else {
                0
            }
        };
        let cw = gutterless / (cc as i64);
        proof {
            vstd::arithmetic::div_mod::lemma_div_pos_is_pos(gutterless as int, cc as int);
            vstd::arithmetic::div_mod::lemma_div_nonincreasing(gutterless as int, cc as int);
        }
        if n == 0 {
            self.cell_positions = cells;
            return ;
        }
        let rc: usize = if self.visible_rows < n {
            self.visible_rows
        } else {
            n
        };
        let ch = (self.config.plot_height() as i64) / (rc as i64);
        proof {
            vstd::arithmetic::div_mod::lemma_div_pos_is_pos(
                self.config.spec_plot_height(),
                rc as int,
            );
            vstd::arithmetic::div_mod::lemma_div_nonincreasing(
                self.config.spec_plot_height(),
                rc as int,
            );
        }
        if ch < 1 {
            self.cell_positions = cells;
            return ;
        }
        let start64 = self.scroll_offset / ch;
        proof {
            vstd::arithmetic::div_mod::lemma_div_pos_is_pos(self.scroll_offset as int, ch as int);
            lemma_div_is_ordered(self.scroll_offset as int, self.spec_max_scroll(), ch as int);
            lemma_div_by_multiple_local(
                self.spec_data().len() as int - self.spec_row_count(),
                ch as int,
            );
        }
        let start = start64 as usize;
        let end: usize = if start + rc + 1 < n {
            start + rc + 1
        } else {
            n
        };
        let left = self.config.padding.left as i64;
        let top = self.config.padding.top as i64;
        let mut r: usize = start;
        while r < end
            invariant
                self.config.valid(),
                cc as int == self.spec_col_count(),
                cw == self.spec_cell_width(),
                ch == self.spec_cell_height(),
                ch >= 1,
                0 <= cw <= 100_000,
                start as int == self.spec_start_row(),
                end as int == self.spec_end_row(),
                start <= r <= end,
                end as int <= self.spec_data().len(),
                end - start <= 21,
                1 <= cc <= MAX_COLS,
                left == self.spec_config().padding.left as int,
                top == self.spec_config().padding.top as int,
                cells@.len() == (r - start) as int * cc as int,
                forall|q: int|
                    0 <= q < cells@.len() ==> #[trigger] cells@[q] == self.spec_cell_at(
                        start as int + q / cc as int,
                        q % cc as int,
                    ),
            decreases end - r,
        {
            let mut c: usize = 0;
            while c < cc
                invariant
                    self.config.valid(),
                    cc as int == self.spec_col_count(),
                    cw == self.spec_cell_width(),
                    ch == self.spec_cell_height(),
                    ch >= 1,
                    0 <= cw <= 100_000,
                    start as int == self.spec_start_row(),
                    end as int == self.spec_end_row(),
                    start <= r < end,
                    end as int <= self.spec_data().len(),
                    end - start <= 21,
                    1 <= cc <= MAX_COLS,
                    c <= cc,
                    left == self.spec_config().padding.left as int,
                    top == self.spec_config().padding.top as int,
                    cells@.len() == (r - start) as int * cc as int + c as int,
                    forall|q: int|
                        0 <= q < cells@.len() ==> #[trigger] cells@[q] == self.spec_cell_at(
                            start as int + q / cc as int,
                            q % cc as int,
                        ),
                decreases cc - c,
            {
                proof {
                    assert(0 <= (r - start) as int * cc as int <= 21 * MAX_COLS as int)
                        by (nonlinear_arith)
                        requires
                            0 <= (r - start) as int <= 21 && 1 <= cc as int <= MAX_COLS as int,
                    ;
                    assert(0 <= c as int * cw as int <= MAX_COLS as int * 100_000)
                        by (nonlinear_arith)
                        requires
                            0 <= c as int <= MAX_COLS as int && 0 <= cw <= 100_000,
                    ;
                    assert(0 <= (r - start) as int * ch as int <= 21 * 100_000)
                        by (nonlinear_arith)
                        requires
                            0 <= (r - start) as int <= 21 && 1 <= ch <= 100_000,
                    ;
                }
                let x = left + 100 + (c as i64) * cw;
                let y = top + ((r - start) as i64) * ch;
                cells.push(CellPosition { row: r, col: c, x, y, width: cw, height: ch });
                proof {
                    let q = (r - start) as int * cc as int + c as int;
                    lemma_fundamental_div_mod_converse(
                        q,
                        cc as int,
                        (r - start) as int,
                        c as int,
                    );
                    assert(cells@[q] == self.spec_cell_at(start as int + q / cc as int, q
                        % cc as int));
                }
                c += 1;
            }
            proof {
                assert((r as int + 1 - start as int) * cc as int == (r as int - start as int)
                    * cc as int + cc as int) by (nonlinear_arith);
            }
            r += 1;
        }
        proof {
            assert((end - start) as int * cc as int == max_int(
                self.spec_end_row() - self.spec_start_row(),
                0,
            ) * self.spec_col_count());
        }
        self.cell_positions = cells;
    }

    /// Scroll by a wheel delta.  The offset is always clamped into
    /// `[0, max_scroll]`, whatever the delta's sign or magnitude, and the
    /// cell window is rebuilt for the new offset.
    pub fn on_scroll(&mut self, delta_y: i64)
        requires
            old(self).wf(),
            -POINTER_LIMIT <= delta_y <= POINTER_LIMIT,
        ensures
            final(self).wf(),
            final(self).spec_config() == old(self).spec_config(),
            final(self).spec_data() == old(self).spec_data(),
            final(self).spec_threshold() == old(self).spec_threshold(),
            final(self).spec_hovered() == old(self).spec_hovered(),
            final(self).spec_max_assessors() == old(self).spec_max_assessors(),
            final(self).spec_scroll_offset() as int == clamped(
                old(self).spec_scroll_offset() + delta_y,
                0,
                old(self).spec_max_scroll(),
            ),
            0 <= final(self).spec_scroll_offset() <= final(self).spec_max_scroll(),
            final(self).cells_wf(),
    {
        proof {
            lemma_max_scroll_bounds(*self);
        }
        let max_scroll = self.max_scroll_internal();
        let bumped = self.scroll_offset + delta_y;
        self.scroll_offset = if bumped < 0 {
            0
        } else if bumped > max_scroll {
            max_scroll
        } else {
            bumped
        };
        self.compute_cell_positions();
    }

    fn max_scroll_internal(&self) -> (m: i64)
        requires
            self.wf(),
        ensures
            m == self.spec_max_scroll(),
            m >= 0,
    {
        let n = self.data.len();
        if n == 0 {
            return 0;
        }
        let rc: usize = if self.visible_rows < n {
            self.visible_rows
        } else {
            n
        };
        let ch = (self.config.plot_height() as i64) / (rc as i64);
        if ch < 1 {
            return 0;
        }
        proof {
            assert(0 <= (n - rc) as int * ch as int <= MAX_ROWS as int * 100_000)
                by (nonlinear_arith)
                requires
                    0 <= (n - rc) as int <= MAX_ROWS as int && 1 <= ch <= 100_000,
            ;
        }
        ((n - rc) as i64) * ch
    }

    /// What a hover hit-test outcome must look like: the first materialized
    /// cell rectangle containing the pointer wins and is remembered as
    /// hovered, with the underlying row's record in the payload; no
    /// containing cell clears the hover and misses.
    pub open spec fn mouse_result_matches(
        pre: VarianceHeatmapChart,
        post: VarianceHeatmapChart,
        x: int,
        y: int,
        r: HitTestResult,
    ) -> bool {
        let cells = pre.spec_cells();
        let q = first_cell_hit(cells, x, y, 0);
        &&& (r.hit <==> q < cells.len())
        &&& (!r.hit ==> r.element_id is None && r.element_type@ == "none"@ && r.data is None)
        &&& (q < cells.len() ==> {
            let cell = cells[q];
            &&& post.spec_hovered() == Some((cell.row, cell.col))
            &&& cell.row < pre.spec_data().len()
            &&& (r.element_id matches Some(s) && s@ == pre.spec_data()[cell.row as int].application_id@
                + "-"@ + dec_str(cell.col as int))
            &&& (r.data matches Some(d) && {
                let row = pre.spec_data()[cell.row as int];
                &&& d.fields@.len() == 7
                &&& d.fields@[0].0@ == "applicationId"@
                &&& (d.fields@[0].1 matches FieldValue::Text(t) && t@ == row.application_id@)
                &&& d.fields@[1].0@ == "reference"@
                &&& (d.fields@[1].1 matches FieldValue::Text(t) && t@ == row.reference@)
                &&& d.fields@[2].0@ == "assessor"@
                &&& (d.fields@[2].1 matches FieldValue::Text(t) && t@ == (if (cell.col as int)
                    < row.assessor_names@.len() {
                    row.assessor_names@[cell.col as int]@
                } else {
                    "Assessor "@ + dec_str(cell.col as int + 1)
                }))
                &&& d.fields@[3].0@ == "score"@
                &&& d.fields@[3].1 == (if cell.col < row.scores@.len() {
                    FieldValue::Int(row.scores@[cell.col as int])
                } else {
                    FieldValue::Absent
                })
                &&& d.fields@[4].0@ == "variance"@ && d.fields@[4].1 == FieldValue::Int(
                    row.variance,
                )
                &&& d.fields@[5].0@ == "mean"@ && d.fields@[5].1 == FieldValue::Int(row.mean)
                &&& d.fields@[6].0@ == "flagged"@ && d.fields@[6].1 == FieldValue::Flag(
                    row.flagged,
                )
                &&& d.metadata is None
            })
            &&& r.element_type@ == "heatmap_cell"@
        })
        &&& (q >= cells.len() ==> post.spec_hovered() is None)
    }

    /// Hover hit-test: linear scan over the materialized cell rectangles,
    /// first rectangle containing the pointer wins.  Remembers the struck
    /// cell as hovered; a miss clears the hover.
    pub fn on_mouse_move(&mut self, x: i64, y: i64) -> (r: HitTestResult)
        requires
            old(self).wf(),
            -POINTER_LIMIT <= x <= POINTER_LIMIT,
            -POINTER_LIMIT <= y <= POINTER_LIMIT,
        ensures
            final(self).wf(),
            final(self).spec_config() == old(self).spec_config(),
            final(self).spec_data() == old(self).spec_data(),
            final(self).spec_threshold() == old(self).spec_threshold(),
            final(self).spec_cells() == old(self).spec_cells(),
            final(self).spec_scroll_offset() == old(self).spec_scroll_offset(),
            final(self).spec_max_assessors() == old(self).spec_max_assessors(),
            VarianceHeatmapChart::mouse_result_matches(
                *old(self),
                *final(self),
                x as int,
                y as int,
                r,
            ),
    {
        let n = self.cell_positions.len();
        let mut i: usize = 0;
        while i < n
            invariant
                old(self).wf(),
                *self == *old(self),
                n == self.spec_cells().len(),
                i <= n,
                first_cell_hit(self.spec_cells(), x as int, y as int, 0) == first_cell_hit(
                    self.spec_cells(),
                    x as int,
                    y as int,
                    i as int,
                ),
            decreases n - i,
        {
            proof {
                lemma_cells_rows_in_data(*self, i as int);
            }
            let cell = &self.cell_positions[i];
            if x >= cell.x && x <= cell.x + cell.width && y >= cell.y && y <= cell.y
                + cell.height {
                proof {
                    assert(first_cell_hit(self.spec_cells(), x as int, y as int, i as int)
                        == i as int);
                }
                let row_idx = cell.row;
                let col_idx = cell.col;
                let row = &self.data[row_idx];
                let assessor: String = if col_idx < row.assessor_names.len() {
                    row.assessor_names[col_idx].clone()
                } else {
                    let mut a = "Assessor ".to_owned();
                    let num = u64_to_string((col_idx as u64) + 1);
                    a.append(num.as_str());
                    a
                };
                let score_field = if col_idx < row.scores.len() {
                    FieldValue::Int(row.scores[col_idx])
                } else {
                    FieldValue::Absent
                };
                let mut fields: Vec<(String, FieldValue)> = Vec::new();
                fields.push(("applicationId".to_owned(), FieldValue::Text(
                    row.application_id.clone(),
                )));
                fields.push(("reference".to_owned(), FieldValue::Text(row.reference.clone())));
                fields.push(("assessor".to_owned(), FieldValue::Text(assessor)));
                fields.push(("score".to_owned(), score_field));
                fields.push(("variance".to_owned(), FieldValue::Int(row.variance)));
                fields.push(("mean".to_owned(), FieldValue::Int(row.mean)));
                fields.push(("flagged".to_owned(), FieldValue::Flag(row.flagged)));
                let mut id = row.application_id.clone();
                id.append("-");
                let num = u64_to_string(col_idx as u64);
                id.append(num.as_str());
                self.hovered_cell = Some((row_idx, col_idx));
                return HitTestResult::hit(id.as_str(), "heatmap_cell", HitData::new(fields));
            }
            i += 1;
        }
        self.hovered_cell = None;
        HitTestResult::miss()
    }

    /// Applications whose variance strictly exceeds the threshold, in input
    /// order: one report row per flagged index, carrying that row's fields.
    pub fn get_flagged(&self) -> (report: Vec<FlaggedApplication>)
        requires
            self.wf(),
        ensures
            ({
                let idxs = flagged_indices(
                    self.spec_data(),
                    self.spec_threshold() as int,
                    self.spec_data().len() as int,
                );
                &&& report@.len() == idxs.len()
                &&& forall|j: int|
                    0 <= j < idxs.len() ==> row_projects(
                        #[trigger] report@[j],
                        self.spec_data()[idxs[j]],
                    )
            }),
    {
        let n = self.data.len();
        let mut report: Vec<FlaggedApplication> = Vec::new();
        let mut i: usize = 0;
        while i < n
            invariant
                self.wf(),
                n == self.spec_data().len(),
                i <= n,
                ({
                    let idxs = flagged_indices(
                        self.spec_data(),
                        self.spec_threshold() as int,
                        i as int,
                    );
                    &&& report@.len() == idxs.len()
                    &&& forall|j: int|
                        0 <= j < idxs.len() ==> row_projects(
                            #[trigger] report@[j],
                            self.spec_data()[idxs[j]],
                        )
                }),
            decreases n - i,
        {
            let d = &self.data[i];
            if d.variance > self.variance_threshold {
                let m = d.scores.len();
                let mut sc: Vec<i64> = Vec::new();
                let mut t: usize = 0;
                while t < m
                    invariant
                        m == d.scores@.len(),
                        t <= m,
                        sc@ == d.scores@.take(t as int),
                    decreases m - t,
                {
                    sc.push(d.scores[t]);
                    proof {
                        assert(sc@ =~= d.scores@.take(t as int + 1));
                    }
                    t += 1;
                }
                proof {
                    assert(sc@ =~= d.scores@);
                }
                report.push(
                    FlaggedApplication {
                        application_id: d.application_id.clone(),
                        reference: d.reference.clone(),
                        variance: d.variance,
                        mean: d.mean,
                        scores: sc,
                    },
                );
            }
            proof {
                let idxs1 = flagged_indices(
                    self.spec_data(),
                    self.spec_threshold() as int,
                    i as int + 1,
                );
                assert(report@.len() == idxs1.len());
            }
            i += 1;
        }
        report
    }

    /// Aggregate statistics.
    pub fn get_stats(&self) -> (s: VarianceStats)
        requires
            self.wf(),
        ensures
            s.total_applications == self.spec_data().len(),
            s.flagged_count as int == flagged_count(self.spec_data(), self.spec_data().len() as int),
            s.flagged_pct_milli as int == (if self.spec_data().len() > 0 {
                flagged_count(self.spec_data(), self.spec_data().len() as int) * 100_000
                    / self.spec_data().len() as int
            } else {
                0int
            }),
            s.average_variance as int == (if self.spec_data().len() > 0 {
                tdiv(
                    variance_sum(self.spec_data(), self.spec_data().len() as int),
                    self.spec_data().len() as int,
                )
            } else {
                0int
            }),
            s.variance_threshold == self.spec_threshold(),
            s.max_assessors == self.spec_max_assessors(),
    {
        let n = self.data.len();
        let mut flagged: usize = 0;
        let mut vsum: i64 = 0;
        let mut i: usize = 0;
        while i < n
            invariant
                self.wf(),
                n == self.spec_data().len(),
                n <= MAX_ROWS,
                i <= n,
                flagged as int == flagged_count(self.spec_data(), i as int),
                flagged <= i,
                vsum as int == variance_sum(self.spec_data(), i as int),
                -(i as int) * VARIANCE_LIMIT as int <= vsum as int <= i as int
                    * VARIANCE_LIMIT as int,
            decreases n - i,
        {
            let d = &self.data[i];
            if d.flagged {
                flagged += 1;
            }
            vsum = vsum + d.variance;
            i += 1;
        }
        let pct: i64 = if n > 0 {
            (flagged as i64) * 100_000 / (n as i64)
        } else {
            0
        };
        let avg: i64 = if n > 0 {
            vsum / (n as i64)
        } else {
            0
        };
        VarianceStats {
            total_applications: n,
            flagged_count: flagged,
            flagged_pct_milli: pct,
            average_variance: avg,
            variance_threshold: self.variance_threshold,
            max_assessors: self.max_assessors,
        }
    }
}

/// Every materialized cell points at an existing data row and column of
/// the window, and its rectangle is bounded: the window never extends past
/// the data and cell geometry stays small enough for pointer arithmetic.
pub proof fn lemma_cells_rows_in_data(chart: VarianceHeatmapChart, q: int)
    requires
        chart.wf(),
        0 <= q < chart.spec_cells().len(),
    ensures
        chart.spec_cells()[q].row < chart.spec_data().len(),
        chart.spec_cells()[q].col < chart.spec_col_count(),
        0 <= chart.spec_cells()[q].width <= 100_000,
        1 <= chart.spec_cells()[q].height <= 100_000,
        0 <= chart.spec_cells()[q].x <= 2_000_000_000,
        0 <= chart.spec_cells()[q].y <= 10_000_000,
{
    let cc = chart.spec_col_count();
    let start = chart.spec_start_row();
    let end = chart.spec_end_row();
    let ch = chart.spec_cell_height();
    let cw = chart.spec_cell_width();
    let rc = chart.spec_row_count();
    let len = chart.spec_data().len() as int;
    let rows = max_int(end - start, 0);
    assert(len > 0 && ch >= 1);
    assert(chart.spec_cells().len() == rows * cc);
    assert(chart.spec_cells()[q] == chart.spec_cell_at(start + q / cc, q % cc));
    assert(0 <= q % cc < cc) by {
        vstd::arithmetic::div_mod::lemma_mod_division_less_than_divisor(q, cc);
    }
    assert(0 <= q / cc < rows) by {
        vstd::arithmetic::div_mod::lemma_div_pos_is_pos(q, cc);
        vstd::arithmetic::div_mod::lemma_fundamental_div_mod(q, cc);
        if q / cc >= rows {
            assert(q >= rows * cc) by (nonlinear_arith)
                requires
                    q / cc >= rows && cc > 0 && q == (q / cc) * cc + q % cc && q % cc >= 0,
            ;
        }
    }
    // The window start is bounded by the rows hidden above the viewport.
    vstd::arithmetic::div_mod::lemma_div_pos_is_pos(chart.spec_scroll_offset() as int, ch);
    lemma_div_is_ordered(chart.spec_scroll_offset() as int, chart.spec_max_scroll(), ch);
    lemma_div_by_multiple_local(len - rc, ch);
    assert(start <= len - rc);
    assert(end - start <= rc + 1);
    assert(start + q / cc < end);
    assert(chart.spec_cells()[q].row as int == start + q / cc);
    // Cell width: a bounded gutterless width split over the columns.
    let g = max_int(chart.spec_config().spec_plot_width() - 100, 0);
    vstd::arithmetic::div_mod::lemma_div_pos_is_pos(g, cc);
    vstd::arithmetic::div_mod::lemma_div_nonincreasing(g, cc);
    // Cell height: the plot height split over the visible rows.
    vstd::arithmetic::div_mod::lemma_div_nonincreasing(
        chart.spec_config().spec_plot_height(),
        rc,
    );
    // Rectangle corner bounds.
    assert(0 <= (q % cc) * cw <= 1_000_000_000) by (nonlinear_arith)
        requires
            0 <= q % cc < cc && cc <= 10_000 && 0 <= cw <= 100_000,
    ;
    assert(0 <= (q / cc) * ch <= 2_100_000) by (nonlinear_arith)
        requires
            0 <= q / cc <= 21 && 1 <= ch <= 100_000,
    ;
}

/// The scroll ceiling is never negative: the window never shows more rows
/// than the data has.
pub proof fn lemma_max_scroll_nonneg(chart: VarianceHeatmapChart)
    ensures
        chart.spec_max_scroll() >= 0,
{
    if chart.spec_data().len() > 0 && chart.spec_cell_height() >= 1 {
        assert((chart.spec_data().len() as int - chart.spec_row_count())
            * chart.spec_cell_height() >= 0) by (nonlinear_arith)
            requires
                chart.spec_data().len() as int - chart.spec_row_count() >= 0
                    && chart.spec_cell_height() >= 1,
        ;
    }
}

/// The scroll ceiling never exceeds the total pixel height of the data:
/// at most the row bound times the pixel bound.
pub proof fn lemma_max_scroll_bounds(chart: VarianceHeatmapChart)
    requires
        chart.wf(),
    ensures
        0 <= chart.spec_max_scroll() <= 100_000_000_000,
{
    lemma_max_scroll_nonneg(chart);
    let len = chart.spec_data().len() as int;
    let rc = chart.spec_row_count();
    let ch = chart.spec_cell_height();
    if len > 0 && ch >= 1 {
        vstd::arithmetic::div_mod::lemma_div_nonincreasing(
            chart.spec_config().spec_plot_height(),
            rc,
        );
        assert((len - rc) * ch <= 1_000_000int * 100_000) by (nonlinear_arith)
            requires
                0 <= len - rc <= 1_000_000 && 1 <= ch <= 100_000,
        ;
    }
}

/// Division of a bounded multiple stays within the factor; used to bound
/// the window's start row by the rows hidden above it.
proof fn lemma_div_by_multiple_local(rows_hidden: int, ch: int)
    requires
        ch >= 1,
        rows_hidden >= 0,
    ensures
        (rows_hidden * ch) / ch == rows_hidden,
{
    vstd::arithmetic::div_mod::lemma_div_multiples_vanish(rows_hidden, ch);
    assert(rows_hidden * ch == ch * rows_hidden) by (nonlinear_arith);
}

} // verus!
