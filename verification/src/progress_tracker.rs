//! Radial progress tracker: converts proportional quantities into angular
//! spans laid out consecutively around a donut, and maps a pointer angle
//! back to the segment under it.
//!
//! Angles are carried in milli-degrees; a full turn is exactly 360_000.
//! Spans are recomputed from cumulative totals, never compounded, so the
//! spans of a layout always sum to exactly one full turn.  Angles are
//! measured clockwise from the top of the circle.

use vstd::prelude::*;
use crate::common::{ChartConfig, DataError, FieldValue, HitData, HitTestResult, min_int, max_int};
use crate::format::{format_number, format_number_str};
use vstd::arithmetic::div_mod::{lemma_div_is_ordered, lemma_div_multiples_vanish};

verus! {

/// Milli-degrees in a full turn.
pub const FULL_TURN_MILLI: i64 = 360_000;

/// Most segments a payload may carry.
pub const MAX_SEGMENTS: usize = 10_000;

/// Bound on each segment's `total` and `completed`; keeps the cumulative
/// angle products inside `i64`.
pub const SEGMENT_COUNT_LIMIT: u32 = 1_000_000_000;

/// Progress data for an assessor or category.
pub struct ProgressSegment {
    pub id: String,
    pub label: String,
    pub completed: u32,
    pub total: u32,
    pub color: Option<String>,
}

impl ProgressSegment {
    pub open spec fn in_range(&self) -> bool {
        &&& self.completed <= SEGMENT_COUNT_LIMIT
        &&& self.total <= SEGMENT_COUNT_LIMIT
    }
}

/// Sum of the `total` quantities of the first `n` segments.
pub open spec fn totals_sum(s: Seq<ProgressSegment>, n: int) -> int
    decreases n,
{
    if n <= 0 {
        0
    } else {
        totals_sum(s, n - 1) + s[n - 1].total as int
    }
}

/// Sum of the `completed` quantities of the first `n` segments.
pub open spec fn completed_sum(s: Seq<ProgressSegment>, n: int) -> int
    decreases n,
{
    if n <= 0 {
        0
    } else {
        completed_sum(s, n - 1) + s[n - 1].completed as int
    }
}

/// Cumulative boundary angle after the first `n` segments, measured
/// clockwise from the top in milli-degrees: the share of the grand total
/// scaled to a full turn.
pub open spec fn cum_angle(s: Seq<ProgressSegment>, grand: int, n: int) -> int {
    totals_sum(s, n) * (FULL_TURN_MILLI as int) / grand
}

/// The angular span of segment `j`: the difference of consecutive
/// cumulative boundaries.
pub open spec fn span_of(s: Seq<ProgressSegment>, grand: int, j: int) -> int {
    cum_angle(s, grand, j + 1) - cum_angle(s, grand, j)
}

/// Sum of the spans of the first `n` segments.
pub open spec fn spans_sum(s: Seq<ProgressSegment>, grand: int, n: int) -> int
    decreases n,
{
    if n <= 0 {
        0
    } else {
        spans_sum(s, grand, n - 1) + span_of(s, grand, n - 1)
    }
}

pub proof fn lemma_totals_sum_nonneg(s: Seq<ProgressSegment>, n: int)
    ensures
        totals_sum(s, n) >= 0,
    decreases n,
{
    if n > 0 {
        lemma_totals_sum_nonneg(s, n - 1);
    }
}

pub proof fn lemma_totals_sum_monotone(s: Seq<ProgressSegment>, m: int, n: int)
    requires
        m <= n,
    ensures
        totals_sum(s, m) <= totals_sum(s, n),
    decreases n - m,
{
    if m < n {
        lemma_totals_sum_monotone(s, m, n - 1);
    }
}

/// The spans of a layout telescope: the first `n` spans sum to the `n`-th
/// cumulative boundary.
pub proof fn lemma_spans_telescope(s: Seq<ProgressSegment>, grand: int, n: int)
    requires
        grand > 0,
        n >= 0,
    ensures
        spans_sum(s, grand, n) == cum_angle(s, grand, n),
    decreases n,
{
    if n == 0 {
        assert(totals_sum(s, 0) == 0);
        assert(cum_angle(s, grand, 0) == 0) by {
            lemma_div_multiples_vanish(0, grand);
        }
    } else {
        lemma_spans_telescope(s, grand, n - 1);
    }
}

/// Segment spans always cover the whole circle: with a positive grand total
/// equal to the sum over all segments, the spans sum to exactly one full
/// turn.  There is no drift of any size, floating or otherwise.
pub proof fn lemma_spans_cover_circle(s: Seq<ProgressSegment>)
    requires
        totals_sum(s, s.len() as int) > 0,
    ensures
        spans_sum(s, totals_sum(s, s.len() as int), s.len() as int) == FULL_TURN_MILLI as int,
{
    let grand = totals_sum(s, s.len() as int);
    lemma_spans_telescope(s, grand, s.len() as int);
    assert(grand * (FULL_TURN_MILLI as int) / grand == FULL_TURN_MILLI as int) by {
        lemma_div_multiples_vanish(FULL_TURN_MILLI as int, grand);
        assert(grand * (FULL_TURN_MILLI as int) == (FULL_TURN_MILLI as int) * grand)
            by (nonlinear_arith);
    }
}

/// The segment whose cumulative range contains the angle `theta`: the first
/// segment whose upper cumulative boundary reaches `theta`.  Falls back to
/// the segment count if none does (impossible for angles inside the turn).
pub open spec fn seg_index_at(s: Seq<ProgressSegment>, grand: int, theta: int, i: int) -> int
    decreases s.len() - i,
{
    if i < 0 || i >= s.len() {
        s.len() as int
    } else if theta <= cum_angle(s, grand, i + 1) {
        i
    } else {
        seg_index_at(s, grand, theta, i + 1)
    }
}

/// The scan returns the segment whose cumulative range contains the angle:
/// if segment `j`'s range `(cum(j), cum(j+1)]` contains `theta` (and for
/// the first segment also its closed start), the scan started anywhere at
/// or before `j` lands exactly on `j`.
pub proof fn lemma_scan_finds_containing_segment(
    s: Seq<ProgressSegment>,
    grand: int,
    theta: int,
    i: int,
    j: int,
)
    requires
        grand > 0,
        0 <= i <= j < s.len(),
        cum_angle(s, grand, j) < theta || (i == 0 && j == 0 && theta >= 0),
        theta <= cum_angle(s, grand, j + 1),
        i > 0 ==> theta > cum_angle(s, grand, i),
    ensures
        seg_index_at(s, grand, theta, i) == j,
    decreases j - i,
{
    if i == j {
    } else {
        assert(totals_sum(s, i + 1) <= totals_sum(s, j)) by {
            lemma_totals_sum_monotone(s, i + 1, j);
        }
        assert(cum_angle(s, grand, i + 1) <= cum_angle(s, grand, j)) by {
            lemma_div_is_ordered(
                totals_sum(s, i + 1) * (FULL_TURN_MILLI as int),
                totals_sum(s, j) * (FULL_TURN_MILLI as int),
                grand,
            );
            assert(totals_sum(s, i + 1) * (FULL_TURN_MILLI as int) <= totals_sum(s, j) * (
            FULL_TURN_MILLI as int)) by (nonlinear_arith)
                requires
                    totals_sum(s, i + 1) <= totals_sum(s, j),
            ;
        }
        lemma_scan_finds_containing_segment(s, grand, theta, i + 1, j);
    }
}

/// One laid-out donut segment: angles in milli-degrees clockwise from the
/// top of the circle.
pub struct ArcSegment {
    /// Cumulative start boundary.
    pub start: i64,
    /// Full angular span.
    pub span: i64,
    /// Span of the completed sub-arc drawn inside the segment.
    pub completed_span: i64,
    /// Resolved fill color: the segment's own, or the accent palette entry
    /// at the segment index modulo the palette length.
    pub color: String,
}

/// What the laid-out arc at position `j` must look like.
pub open spec fn arc_matches(
    arc: ArcSegment,
    s: Seq<ProgressSegment>,
    grand: int,
    j: int,
    accent: Seq<String>,
) -> bool {
    &&& arc.start == cum_angle(s, grand, j)
    &&& arc.span == span_of(s, grand, j)
    &&& arc.completed_span == arc.span * s[j].completed as int / max_int(s[j].total as int, 1)
    &&& arc.color == (match s[j].color {
        Some(c) => c,
        None => accent[j % accent.len() as int],
    })
}

/// Read-only aggregate snapshot.
pub struct ProgressStats {
    pub total_completed: u64,
    pub total_items: u64,
    /// Overall completion in milli-percent (zero when there are no items).
    pub overall_pct_milli: i64,
    pub segment_count: usize,
}

/// Progress tracker chart with radial visualization.
pub struct ProgressTrackerChart {
    config: ChartConfig,
    segments: Vec<ProgressSegment>,
    center_label: String,
    center_value: String,
    hovered_segment: Option<usize>,
    /// Entry animation progress, milli-units of one.
    animation_progress: u32,
}

impl ProgressTrackerChart {
    pub closed spec fn wf(&self) -> bool {
        &&& self.config.valid()
        &&& self.segments@.len() <= MAX_SEGMENTS as int
        &&& forall|j: int|
            0 <= j < self.segments@.len() ==> (#[trigger] self.segments@[j]).in_range()
    }

    pub closed spec fn spec_config(&self) -> ChartConfig {
        self.config
    }

    pub closed spec fn spec_segments(&self) -> Seq<ProgressSegment> {
        self.segments@
    }

    pub closed spec fn spec_center_label(&self) -> Seq<char> {
        self.center_label@
    }

    pub closed spec fn spec_center_value(&self) -> Seq<char> {
        self.center_value@
    }

    pub closed spec fn spec_hovered(&self) -> Option<usize> {
        self.hovered_segment
    }

    pub closed spec fn spec_animation_progress(&self) -> u32 {
        self.animation_progress
    }

    /// Grand total over the current segments.
    pub open spec fn spec_grand(&self) -> int {
        totals_sum(self.spec_segments(), self.spec_segments().len() as int)
    }

    pub fn new(config: ChartConfig) -> (chart: ProgressTrackerChart)
        requires
            config.valid(),
        ensures
            chart.wf(),
            chart.spec_config() == config,
            chart.spec_segments().len() == 0,
            chart.spec_center_label() == "Progress"@,
            chart.spec_center_value() == "0%"@,
            chart.spec_hovered() is None,
            chart.spec_animation_progress() == 1000,
    {
        ProgressTrackerChart {
            config,
            segments: Vec::new(),
            center_label: "Progress".to_owned(),
            center_value: "0%".to_owned(),
            hovered_segment: None,
            animation_progress: 1000,
        }
    }

    pub fn config(&self) -> (c: &ChartConfig)
        ensures
            *c == self.spec_config(),
    {
        &self.config
    }

    pub fn segments(&self) -> (s: &Vec<ProgressSegment>)
        ensures
            s@ == self.spec_segments(),
    {
        &self.segments
    }

    pub fn center_label(&self) -> (s: &String)
        ensures
            s@ == self.spec_center_label(),
    {
        &self.center_label
    }

    pub fn center_value(&self) -> (s: &String)
        ensures
            s@ == self.spec_center_value(),
    {
        &self.center_value
    }

    pub fn hovered_segment(&self) -> (h: Option<usize>)
        ensures
            h == self.spec_hovered(),
    {
        self.hovered_segment
    }

    pub fn animation_progress(&self) -> (p: u32)
        ensures
            p == self.spec_animation_progress(),
    {
        self.animation_progress
    }

    /// Set the center label text.
    pub fn set_center_label(&mut self, label: &str)
        requires
            old(self).wf(),
        ensures
            final(self).wf(),
            final(self).spec_center_label() == label@,
            final(self).spec_segments() == old(self).spec_segments(),
            final(self).spec_config() == old(self).spec_config(),
            final(self).spec_center_value() == old(self).spec_center_value(),
            final(self).spec_hovered() == old(self).spec_hovered(),
            final(self).spec_animation_progress() == old(self).spec_animation_progress(),
    {
        self.center_label = label.to_owned();
    }

    /// Set the progress data.  Rejects oversized payloads and segments with
    /// counts beyond the supported bound, leaving prior state unchanged;
    /// otherwise replaces the segments, recomputes the center read-out and
    /// restarts the entry animation.
    pub fn set_data(&mut self, segments: Vec<ProgressSegment>) -> (r: Result<(), DataError>)
        requires
            old(self).wf(),
        ensures
            final(self).wf(),
            final(self).spec_config() == old(self).spec_config(),
            final(self).spec_center_label() == old(self).spec_center_label(),
            final(self).spec_hovered() == old(self).spec_hovered(),
            r is Ok <==> (segments@.len() <= MAX_SEGMENTS as int && (forall|j: int|
                0 <= j < segments@.len() ==> (#[trigger] segments@[j]).in_range())),
            r matches Err(e) ==> {
                &&& *final(self) == *old(self)
                &&& (match e {
                    DataError::TooManyRecords { count } => count == segments@.len()
                        && segments@.len() > MAX_SEGMENTS as int,
                    DataError::RecordOutOfRange { index } => {
                        &&& segments@.len() <= MAX_SEGMENTS as int
                        &&& 0 <= index < segments@.len()
                        &&& !segments@[index as int].in_range()
                        &&& forall|j: int| 0 <= j < index ==> (#[trigger] segments@[j]).in_range()
                    },
                    _ => false,
                })
            },
            r is Ok ==> {
                &&& final(self).spec_segments() == segments@
                &&& final(self).spec_animation_progress() == 0
                &&& {
                    let n = segments@.len() as int;
                    let items = totals_sum(segments@, n);
                    let done = completed_sum(segments@, n);
                    if items > 0 {
                        final(self).spec_center_value() == format_number_str(
                            done * 100_000 / items,
                            1,
                        ) + "%"@
                    } else {
                        final(self).spec_center_value() == "N/A"@
                    }
                }
            },
    {
        if segments.len() > MAX_SEGMENTS {
            return Err(DataError::TooManyRecords { count: segments.len() });
        }
        let n = segments.len();
        let mut v: usize = 0;
        while v < n
            invariant
                old(self).wf(),
                *self == *old(self),
                n == segments@.len(),
                n <= MAX_SEGMENTS,
                v <= n,
                forall|j: int| 0 <= j < v ==> (#[trigger] segments@[j]).in_range(),
            decreases n - v,
        {
            let sg = &segments[v];
            if !(sg.completed <= SEGMENT_COUNT_LIMIT && sg.total <= SEGMENT_COUNT_LIMIT) {
                return Err(DataError::RecordOutOfRange { index: v });
            }
            v += 1;
        }
        let mut items: i64 = 0;
        let mut done: i64 = 0;
        let mut i: usize = 0;
        while i < n
            invariant
                n == segments@.len(),
                n <= MAX_SEGMENTS,
                forall|j: int| 0 <= j < n ==> (#[trigger] segments@[j]).in_range(),
                i <= n,
                items == totals_sum(segments@, i as int),
                done == completed_sum(segments@, i as int),
                0 <= items <= i as int * SEGMENT_COUNT_LIMIT as int,
                0 <= done <= i as int * SEGMENT_COUNT_LIMIT as int,
            decreases n - i,
        {
            proof {
                assert((i as int + 1) * SEGMENT_COUNT_LIMIT as int == i as int
                    * SEGMENT_COUNT_LIMIT as int + SEGMENT_COUNT_LIMIT as int) by (nonlinear_arith);
            }
            items = items + segments[i].total as i64;
            done = done + segments[i].completed as i64;
            i += 1;
        }
        if items > 0 {
            let pct_milli = done * 100_000 / items;
            let mut value = format_number(pct_milli, 1);
            value.append("%");
            self.center_value = value;
        } else {
            self.center_value = "N/A".to_owned();
        }
        self.segments = segments;
        self.animation_progress = 0;
        Ok(())
    }

    /// Advance the entry animation by the elapsed milliseconds; the full
    /// animation takes half a second.  Returns whether it is still running.
    pub fn animate(&mut self, delta_ms: u64) -> (still: bool)
        requires
            old(self).wf(),
            delta_ms <= 1_000_000_000,
        ensures
            final(self).wf(),
            final(self).spec_config() == old(self).spec_config(),
            final(self).spec_segments() == old(self).spec_segments(),
            final(self).spec_center_label() == old(self).spec_center_label(),
            final(self).spec_center_value() == old(self).spec_center_value(),
            final(self).spec_hovered() == old(self).spec_hovered(),
            final(self).spec_animation_progress() == (if old(self).spec_animation_progress()
                >= 1000 {
                old(self).spec_animation_progress()
            } else {
                min_int(old(self).spec_animation_progress() + delta_ms * 2, 1000) as u32
            }),
            still == (final(self).spec_animation_progress() < 1000),
    {
        if self.animation_progress >= 1000 {
            return false;
        }
        let bumped: u64 = self.animation_progress as u64 + delta_ms * 2;
        self.animation_progress = if bumped >= 1000 {
            1000
        } else {
            bumped as u32
        };
        self.animation_progress < 1000
    }

    /// Outer donut radius in milli-pixels: half the smaller canvas side
    /// less a margin, floored at a minimum.
    pub open spec fn spec_outer_radius(&self) -> int {
        max_int(
            min_int(self.spec_config().width as int, self.spec_config().height as int) * 1000 / 2
                - 60_000,
            50_000,
        )
    }

    /// Inner donut radius in milli-pixels: six tenths of the outer.
    pub open spec fn spec_inner_radius(&self) -> int {
        self.spec_outer_radius() * 3 / 5
    }

    pub fn outer_radius(&self) -> (r: i64)
        requires
            self.wf(),
        ensures
            r == self.spec_outer_radius(),
            50_000 <= r <= 50_000_000,
    {
        let m = if self.config.width < self.config.height {
            self.config.width
        } else {
            self.config.height
        };
        let half = (m as i64) * 1000 / 2;
        if half - 60_000 > 50_000 {
            half - 60_000
        } else {
            50_000
        }
    }

    pub fn inner_radius(&self) -> (r: i64)
        requires
            self.wf(),
        ensures
            r == self.spec_inner_radius(),
            0 <= r <= 50_000_000,
    {
        self.outer_radius() * 3 / 5
    }

    /// Lay the segments out around the circle.  With a zero grand total
    /// there is nothing to draw and the layout is empty; otherwise each
    /// segment gets the arc between its cumulative boundaries, so the spans
    /// sum to exactly one full turn.
    pub fn segment_layout(&self) -> (arcs: Vec<ArcSegment>)
        requires
            self.wf(),
        ensures
            self.spec_grand() <= 0 ==> arcs@.len() == 0,
            self.spec_grand() > 0 ==> {
                &&& arcs@.len() == self.spec_segments().len()
                &&& forall|j: int|
                    0 <= j < arcs@.len() ==> arc_matches(
                        #[trigger] arcs@[j],
                        self.spec_segments(),
                        self.spec_grand(),
                        j,
                        self.spec_config().theme.accent@,
                    )
            },
    {
        let n = self.segments.len();
        let grand = self.total_items_internal();
        let mut arcs: Vec<ArcSegment> = Vec::new();
        if grand <= 0 {
            return arcs;
        }
        let mut prefix: i64 = 0;
        let mut cum_prev: i64 = 0;
        let mut j: usize = 0;
        while j < n
            invariant
                self.wf(),
                n == self.spec_segments().len(),
                grand == self.spec_grand(),
                0 < grand <= 10_000_000_000_000,
                j <= n,
                prefix == totals_sum(self.spec_segments(), j as int),
                0 <= prefix <= grand,
                cum_prev == cum_angle(self.spec_segments(), grand as int, j as int),
                0 <= cum_prev <= FULL_TURN_MILLI,
                arcs@.len() == j,
                forall|q: int|
                    0 <= q < j ==> arc_matches(
                        #[trigger] arcs@[q],
                        self.spec_segments(),
                        grand as int,
                        q,
                        self.spec_config().theme.accent@,
                    ),
            decreases n - j,
        {
            let sg = &self.segments[j];
            let next_prefix = prefix + sg.total as i64;
            proof {
                lemma_totals_sum_monotone(self.spec_segments(), j as int + 1, n as int);
                assert(next_prefix as int * (FULL_TURN_MILLI as int) <= 10_000_000_000_000int
                    * 360_000) by (nonlinear_arith)
                    requires
                        0 <= next_prefix <= 10_000_000_000_000,
                ;
                assert(next_prefix as int * (FULL_TURN_MILLI as int) >= 0) by (nonlinear_arith)
                    requires
                        next_prefix >= 0,
                ;
            }
            let cum_next = next_prefix * FULL_TURN_MILLI / grand;
            proof {
                assert(prefix as int * (FULL_TURN_MILLI as int) <= next_prefix as int * (
                FULL_TURN_MILLI as int)) by (nonlinear_arith)
                    requires
                        0 <= prefix <= next_prefix,
                ;
                lemma_div_is_ordered(
                    prefix as int * (FULL_TURN_MILLI as int),
                    next_prefix as int * (FULL_TURN_MILLI as int),
                    grand as int,
                );
                assert(next_prefix as int * (FULL_TURN_MILLI as int) <= grand as int * (
                FULL_TURN_MILLI as int)) by (nonlinear_arith)
                    requires
                        0 <= next_prefix <= grand,
                ;
                lemma_div_is_ordered(
                    next_prefix as int * (FULL_TURN_MILLI as int),
                    grand as int * (FULL_TURN_MILLI as int),
                    grand as int,
                );
                assert(grand as int * (FULL_TURN_MILLI as int) == (FULL_TURN_MILLI as int)
                    * grand as int) by (nonlinear_arith);
                lemma_div_multiples_vanish(FULL_TURN_MILLI as int, grand as int);
            }
            let span = cum_next - cum_prev;
            let denom: i64 = if sg.total >= 1 {
                sg.total as i64
            } else {
                1
            };
            proof {
                assert(span * sg.completed as int <= 360_000int * 1_000_000_000)
                    by (nonlinear_arith)
                    requires
                        0 <= span <= 360_000 && sg.completed <= 1_000_000_000,
                ;
                assert(span * sg.completed as int >= 0) by (nonlinear_arith)
                    requires
                        span >= 0 && sg.completed >= 0,
                ;
            }
            let completed_span = span * (sg.completed as i64) / denom;
            let color: String = match &sg.color {
                Some(c) => c.clone(),
                None => {
                    let palette_len = self.config.theme.accent.len();
                    self.config.theme.accent[j % palette_len].clone()
                },
            };
            arcs.push(ArcSegment { start: cum_prev, span, completed_span, color });
            prefix = next_prefix;
            cum_prev = cum_next;
            j += 1;
        }
        arcs
    }

    /// Grand total of items, also usable in later proofs.
    fn total_items_internal(&self) -> (t: i64)
        requires
            self.wf(),
        ensures
            t == self.spec_grand(),
            0 <= t <= 10_000_000_000_000,
    {
        let n = self.segments.len();
        let mut items: i64 = 0;
        let mut i: usize = 0;
        while i < n
            invariant
                self.wf(),
                n == self.spec_segments().len(),
                n <= MAX_SEGMENTS,
                i <= n,
                items == totals_sum(self.spec_segments(), i as int),
                0 <= items <= i as int * SEGMENT_COUNT_LIMIT as int,
            decreases n - i,
        {
            proof {
                assert((i as int + 1) * SEGMENT_COUNT_LIMIT as int == i as int
                    * SEGMENT_COUNT_LIMIT as int + SEGMENT_COUNT_LIMIT as int) by (nonlinear_arith);
                assert(n as int * SEGMENT_COUNT_LIMIT as int <= 10_000_000_000_000int)
                    by (nonlinear_arith)
                    requires
                        n <= 10_000,
                ;
                lemma_totals_sum_monotone(self.spec_segments(), i as int + 1, n as int);
            }
            items = items + self.segments[i].total as i64;
            proof {
                let s = self.spec_segments();
                lemma_totals_sum_nonneg(s, i as int + 1);
                assert(totals_sum(s, i as int + 1) <= totals_sum(s, n as int));
                assert(totals_sum(s, n as int) <= n as int * SEGMENT_COUNT_LIMIT as int) by {
                    lemma_totals_sum_bounded(s, n as int);
                }
            }
            i += 1;
        }
        items
    }

    /// Where the pointer's polar position lands: the containing segment
    /// index when the radius lies in the donut band, the angle lies within
    /// the turn and there is something to hit.
    pub open spec fn spec_hit_segment(&self, angle_milli: int, radius_milli: int) -> Option<int> {
        let in_band = self.spec_inner_radius() <= radius_milli <= self.spec_outer_radius();
        if in_band && self.spec_grand() > 0 && self.spec_segments().len() > 0 && 0 <= angle_milli
            < FULL_TURN_MILLI as int {
            let idx = seg_index_at(self.spec_segments(), self.spec_grand(), angle_milli, 0);
            if idx < self.spec_segments().len() as int {
                Some(idx)
            } else {
                None
            }
        } else {
            None
        }
    }

    /// Hover hit-test over the pointer's polar coordinates relative to the
    /// chart center: angle in milli-degrees clockwise from the top, radius
    /// in milli-pixels.  Returns the struck segment's full record and
    /// remembers it as hovered; outside the donut band, over an empty data
    /// set or a zero grand total, a miss.
    pub fn on_mouse_move(&mut self, angle_milli: i64, radius_milli: i64) -> (r: HitTestResult)
        requires
            old(self).wf(),
            0 <= angle_milli < FULL_TURN_MILLI,
            radius_milli >= 0,
        ensures
            final(self).wf(),
            final(self).spec_config() == old(self).spec_config(),
            final(self).spec_segments() == old(self).spec_segments(),
            final(self).spec_center_label() == old(self).spec_center_label(),
            final(self).spec_center_value() == old(self).spec_center_value(),
            final(self).spec_animation_progress() == old(self).spec_animation_progress(),
            r.hit <==> old(self).spec_hit_segment(angle_milli as int, radius_milli as int) is Some,
            !r.hit ==> r.element_id is None && r.element_type@ == "none"@ && r.data is None,
            final(self).spec_hovered() == (match old(self).spec_hit_segment(
                angle_milli as int,
                radius_milli as int,
            ) {
                Some(idx) => Some(idx as usize),
                None => None::<usize>,
            }),
            old(self).spec_hit_segment(angle_milli as int, radius_milli as int) matches Some(idx)
                ==> {
                let sg = old(self).spec_segments()[idx];
                &&& r.element_id matches Some(s) && s@ == sg.id@
                &&& r.element_type@ == "progress_segment"@
                &&& r.data matches Some(d) && {
                    &&& d.fields@.len() == 5
                    &&& d.fields@[0].0@ == "id"@
                    &&& (d.fields@[0].1 matches FieldValue::Text(t) && t@ == sg.id@)
                    &&& d.fields@[1].0@ == "label"@
                    &&& (d.fields@[1].1 matches FieldValue::Text(t) && t@ == sg.label@)
                    &&& d.fields@[2].0@ == "completed"@ && d.fields@[2].1 == FieldValue::Uint(
                        sg.completed as u64,
                    )
                    &&& d.fields@[3].0@ == "total"@ && d.fields@[3].1 == FieldValue::Uint(
                        sg.total as u64,
                    )
                    &&& d.fields@[4].0@ == "percentage"@ && d.fields@[4].1 == FieldValue::Int(
                        (sg.completed as int * 100_000 / max_int(sg.total as int, 1)) as i64,
                    )
                    &&& d.metadata is None
                }
            },
    {
        let inner = self.inner_radius();
        let outer = self.outer_radius();
        let grand = self.total_items_internal();
        let n = self.segments.len();
        if inner <= radius_milli && radius_milli <= outer && grand > 0 && n > 0 {
            let mut prefix: i64 = 0;
            let mut i: usize = 0;
            while i < n
                invariant
                    self.wf(),
                    *self == *old(self),
                    n == self.spec_segments().len(),
                    grand == self.spec_grand(),
                    0 < grand <= 10_000_000_000_000,
                    0 <= angle_milli < FULL_TURN_MILLI,
                    self.spec_inner_radius() <= radius_milli <= self.spec_outer_radius(),
                    i <= n,
                    prefix == totals_sum(self.spec_segments(), i as int),
                    0 <= prefix <= grand,
                    seg_index_at(self.spec_segments(), grand as int, angle_milli as int, 0)
                        == seg_index_at(self.spec_segments(), grand as int, angle_milli as int, i as int),
                    i > 0 ==> angle_milli as int > cum_angle(
                        self.spec_segments(),
                        grand as int,
                        i as int,
                    ),
                decreases n - i,
            {
                let sg = &self.segments[i];
                let next_prefix = prefix + sg.total as i64;
                proof {
                    lemma_totals_sum_monotone(self.spec_segments(), i as int + 1, n as int);
                    lemma_totals_sum_bounded(self.spec_segments(), n as int);
                    assert(n as int * SEGMENT_COUNT_LIMIT as int <= 10_000_000_000_000int)
                        by (nonlinear_arith)
                        requires
                            n <= 10_000,
                    ;
                    assert(next_prefix as int * (FULL_TURN_MILLI as int) <= 10_000_000_000_000int
                        * 360_000) by (nonlinear_arith)
                        requires
                            0 <= next_prefix <= 10_000_000_000_000,
                    ;
                    assert(next_prefix as int * (FULL_TURN_MILLI as int) >= 0) by (nonlinear_arith)
                        requires
                            next_prefix >= 0,
                    ;
                }
                let cum_next = next_prefix * FULL_TURN_MILLI / grand;
                proof {
                    let s = self.spec_segments();
                    let g = grand as int;
                    let th = angle_milli as int;
                    assert(next_prefix == totals_sum(s, i as int + 1));
                    assert(cum_next == cum_angle(s, g, i as int + 1));
                    if th <= cum_next {
                        assert(seg_index_at(s, g, th, i as int) == i as int);
                    } else {
                        assert(seg_index_at(s, g, th, i as int) == seg_index_at(
                            s,
                            g,
                            th,
                            i as int + 1,
                        ));
                    }
                }
                if angle_milli <= cum_next {
                    let pm: i64 = (sg.completed as i64) * 100_000 / (if sg.total >= 1 {
                        sg.total as i64
                    } else {
                        1
                    });
                    let mut fields: Vec<(String, FieldValue)> = Vec::new();
                    fields.push(("id".to_owned(), FieldValue::Text(sg.id.clone())));
                    fields.push(("label".to_owned(), FieldValue::Text(sg.label.clone())));
                    fields.push(("completed".to_owned(), FieldValue::Uint(sg.completed as u64)));
                    fields.push(("total".to_owned(), FieldValue::Uint(sg.total as u64)));
                    fields.push(("percentage".to_owned(), FieldValue::Int(pm)));
                    let rid = sg.id.clone();
                    proof {
                        assert(old(self).spec_hit_segment(angle_milli as int, radius_milli as int)
                            == Some(i as int));
                    }
                    self.hovered_segment = Some(i);
                    return HitTestResult::hit(
                        rid.as_str(),
                        "progress_segment",
                        HitData::new(fields),
                    );
                }
                prefix = next_prefix;
                i += 1;
            }
        }
        self.hovered_segment = None;
        HitTestResult::miss()
    }

    /// Overall progress statistics.
    pub fn get_stats(&self) -> (s: ProgressStats)
        requires
            self.wf(),
        ensures
            s.total_items as int == self.spec_grand(),
            s.total_completed as int == completed_sum(
                self.spec_segments(),
                self.spec_segments().len() as int,
            ),
            s.overall_pct_milli as int == (if self.spec_grand() > 0 {
                completed_sum(self.spec_segments(), self.spec_segments().len() as int) * 100_000
                    / self.spec_grand()
            } else {
                0int
            }),
            s.segment_count == self.spec_segments().len(),
    {
        let n = self.segments.len();
        let mut done: i64 = 0;
        let mut i: usize = 0;
        while i < n
            invariant
                self.wf(),
                n == self.spec_segments().len(),
                n <= MAX_SEGMENTS,
                i <= n,
                done == completed_sum(self.spec_segments(), i as int),
                0 <= done <= i as int * SEGMENT_COUNT_LIMIT as int,
            decreases n - i,
        {
            proof {
                assert((i as int + 1) * SEGMENT_COUNT_LIMIT as int == i as int
                    * SEGMENT_COUNT_LIMIT as int + SEGMENT_COUNT_LIMIT as int) by (nonlinear_arith);
            }
            done = done + self.segments[i].completed as i64;
            i += 1;
        }
        let items = self.total_items_internal();
        let pct: i64 = if items > 0 {
            done * 100_000 / items
        } else {
            0
        };
        ProgressStats {
            total_completed: done as u64,
            total_items: items as u64,
            overall_pct_milli: pct,
            segment_count: n,
        }
    }
}

/// Totals are bounded by the segment count times the per-segment bound.
pub proof fn lemma_totals_sum_bounded(s: Seq<ProgressSegment>, n: int)
    requires
        0 <= n <= s.len(),
        forall|j: int| 0 <= j < s.len() ==> (#[trigger] s[j]).in_range(),
    ensures
        totals_sum(s, n) <= n * SEGMENT_COUNT_LIMIT as int,
    decreases n,
{
    if n > 0 {
        lemma_totals_sum_bounded(s, n - 1);
        assert((n - 1) * SEGMENT_COUNT_LIMIT as int + SEGMENT_COUNT_LIMIT as int == n
            * SEGMENT_COUNT_LIMIT as int) by (nonlinear_arith);
    }
}

/// An animated span: the full span scaled by the entry animation progress.
pub fn scaled_span(span: i64, progress_milli: u32) -> (r: i64)
    requires
        0 <= span <= FULL_TURN_MILLI,
        progress_milli <= 1000,
    ensures
        r == span * progress_milli as int / 1000,
{
    proof {
        assert(0 <= span * progress_milli as int <= 360_000int * 1000) by (nonlinear_arith)
            requires
                0 <= span <= 360_000 && 0 <= progress_milli <= 1000,
        ;
    }
    span * (progress_milli as i64) / 1000
}

} // verus!
