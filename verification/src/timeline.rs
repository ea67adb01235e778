//! Submission timeline: linear projection of timestamps onto the pixel
//! axis and nearest-point hit-testing along that axis.
//!
//! Timestamps are carried in milliseconds.  Points are assumed sorted
//! ascending by timestamp; out-of-order input produces an incorrect axis
//! and is a caller contract violation, not a runtime error.

use vstd::prelude::*;
use crate::common::{
    ChartConfig, DataError, FieldValue, HitData, HitTestResult, POINTER_LIMIT, abs_int, min_int,
    max_int,
};
use crate::format::{dec_str, u64_to_string};

verus! {

/// Magnitude bound on timestamps (milliseconds); keeps projection products
/// inside `i64` and outlasts any realistic clock.
pub const TS_LIMIT: i64 = 10_000_000_000_000;

/// Most points or events a payload may carry.
pub const MAX_POINTS: usize = 1_000_000;

/// Horizontal hit tolerance in pixels.
pub const HIT_TOLERANCE: i64 = 30;

/// Timeline data point.
pub struct TimelineDataPoint {
    /// Timestamp in milliseconds on a monotonic axis.
    pub timestamp: i64,
    /// Submissions in this period.
    pub count: u32,
    /// Running cumulative count.
    pub cumulative: u32,
    pub label: Option<String>,
}

impl TimelineDataPoint {
    pub open spec fn in_range(&self) -> bool {
        -TS_LIMIT <= self.timestamp <= TS_LIMIT
    }
}

/// Important event marker: a deadline, an opening or a milestone.
pub struct TimelineEvent {
    pub timestamp: i64,
    pub label: String,
    pub event_type: String,
}

impl TimelineEvent {
    pub open spec fn in_range(&self) -> bool {
        -TS_LIMIT <= self.timestamp <= TS_LIMIT
    }
}

/// Smallest timestamp among the first `n` points.
pub open spec fn min_ts(s: Seq<TimelineDataPoint>, n: int) -> int
    decreases n,
{
    if n <= 1 {
        if s.len() > 0 {
            s[0].timestamp as int
        } else {
            0
        }
    } else {
        min_int(min_ts(s, n - 1), s[n - 1].timestamp as int)
    }
}

/// Largest timestamp among the first `n` points.
pub open spec fn max_ts(s: Seq<TimelineDataPoint>, n: int) -> int
    decreases n,
{
    if n <= 1 {
        if s.len() > 0 {
            s[0].timestamp as int
        } else {
            0
        }
    } else {
        max_int(max_ts(s, n - 1), s[n - 1].timestamp as int)
    }
}

/// Largest per-period count among the first `n` points.
pub open spec fn max_count_of(s: Seq<TimelineDataPoint>, n: int) -> int
    decreases n,
{
    if n <= 0 {
        0
    } else {
        max_int(max_count_of(s, n - 1), s[n - 1].count as int)
    }
}

/// Largest cumulative count among the first `n` points.
pub open spec fn max_cum_of(s: Seq<TimelineDataPoint>, n: int) -> int
    decreases n,
{
    if n <= 0 {
        0
    } else {
        max_int(max_cum_of(s, n - 1), s[n - 1].cumulative as int)
    }
}

/// Sum of the per-period counts of the first `n` points.
pub open spec fn count_sum_of(s: Seq<TimelineDataPoint>, n: int) -> int
    decreases n,
{
    if n <= 0 {
        0
    } else {
        count_sum_of(s, n - 1) + s[n - 1].count as int
    }
}

/// Index of the peak period among the first `n` points: the last index
/// attaining the maximal count, or negative one for no points.
pub open spec fn last_peak_idx(s: Seq<TimelineDataPoint>, n: int) -> int
    decreases n,
{
    if n <= 0 {
        -1
    } else if s[n - 1].count as int >= max_count_of(s, n - 1) {
        n - 1
    } else {
        last_peak_idx(s, n - 1)
    }
}

/// Read-only aggregate snapshot.
pub struct TimelineStats {
    pub total_submissions: u64,
    pub data_points: usize,
    pub peak_count: u32,
    pub peak_timestamp: Option<i64>,
    pub time_range_start: i64,
    pub time_range_end: i64,
    pub event_count: usize,
}

/// Timeline chart.
pub struct TimelineChart {
    config: ChartConfig,
    data: Vec<TimelineDataPoint>,
    events: Vec<TimelineEvent>,
    time_range: (i64, i64),
    max_count: u32,
    max_cumulative: u32,
    show_cumulative: bool,
    hovered_point: Option<usize>,
    granularity: String,
}

impl TimelineChart {
    pub closed spec fn wf(&self) -> bool {
        &&& self.config.valid()
        &&& self.data@.len() <= MAX_POINTS as int
        &&& self.events@.len() <= MAX_POINTS as int
        &&& forall|j: int| 0 <= j < self.data@.len() ==> (#[trigger] self.data@[j]).in_range()
        &&& forall|j: int| 0 <= j < self.events@.len() ==> (#[trigger] self.events@[j]).in_range()
        &&& -TS_LIMIT <= self.time_range.0 <= TS_LIMIT
        &&& -TS_LIMIT <= self.time_range.1 <= TS_LIMIT
        &&& self.data@.len() > 0 ==> self.time_range.0 as int == min_ts(
            self.data@,
            self.data@.len() as int,
        ) && self.time_range.1 as int == max_ts(self.data@, self.data@.len() as int)
        &&& self.data@.len() > 0 ==> self.max_count as int == max_count_of(
            self.data@,
            self.data@.len() as int,
        ) && self.max_cumulative as int == max_cum_of(self.data@, self.data@.len() as int)
    }

    pub closed spec fn spec_config(&self) -> ChartConfig {
        self.config
    }

    pub closed spec fn spec_data(&self) -> Seq<TimelineDataPoint> {
        self.data@
    }

    pub closed spec fn spec_events(&self) -> Seq<TimelineEvent> {
        self.events@
    }

    pub closed spec fn spec_time_range(&self) -> (i64, i64) {
        self.time_range
    }

    pub closed spec fn spec_max_count(&self) -> u32 {
        self.max_count
    }

    pub closed spec fn spec_max_cumulative(&self) -> u32 {
        self.max_cumulative
    }

    pub closed spec fn spec_show_cumulative(&self) -> bool {
        self.show_cumulative
    }

    pub closed spec fn spec_hovered(&self) -> Option<usize> {
        self.hovered_point
    }

    pub closed spec fn spec_granularity(&self) -> Seq<char> {
        self.granularity@
    }

    pub fn new(config: ChartConfig) -> (chart: TimelineChart)
        requires
            config.valid(),
        ensures
            chart.wf(),
            chart.spec_config() == config,
            chart.spec_data().len() == 0,
            chart.spec_events().len() == 0,
            chart.spec_time_range() == (0i64, 0i64),
            chart.spec_max_count() == 0,
            chart.spec_max_cumulative() == 0,
            chart.spec_show_cumulative(),
            chart.spec_hovered() is None,
            chart.spec_granularity() == "day"@,
    {
        TimelineChart {
            config,
            data: Vec::new(),
            events: Vec::new(),
            time_range: (0, 0),
            max_count: 0,
            max_cumulative: 0,
            show_cumulative: true,
            hovered_point: None,
            granularity: "day".to_owned(),
        }
    }

    pub fn config(&self) -> (c: &ChartConfig)
        ensures
            *c == self.spec_config(),
    {
        &self.config
    }

    pub fn data(&self) -> (d: &Vec<TimelineDataPoint>)
        ensures
            d@ == self.spec_data(),
    {
        &self.data
    }

    pub fn events(&self) -> (e: &Vec<TimelineEvent>)
        ensures
            e@ == self.spec_events(),
    {
        &self.events
    }

    pub fn time_range(&self) -> (t: (i64, i64))
        ensures
            t == self.spec_time_range(),
    {
        self.time_range
    }

    pub fn hovered_point(&self) -> (h: Option<usize>)
        ensures
            h == self.spec_hovered(),
    {
        self.hovered_point
    }

    pub fn show_cumulative(&self) -> (b: bool)
        ensures
            b == self.spec_show_cumulative(),
    {
        self.show_cumulative
    }

    /// Set whether the cumulative line is drawn.
    pub fn set_show_cumulative(&mut self, show: bool)
        requires
            old(self).wf(),
        ensures
            final(self).wf(),
            final(self).spec_show_cumulative() == show,
            final(self).spec_config() == old(self).spec_config(),
            final(self).spec_data() == old(self).spec_data(),
            final(self).spec_events() == old(self).spec_events(),
            final(self).spec_time_range() == old(self).spec_time_range(),
            final(self).spec_max_count() == old(self).spec_max_count(),
            final(self).spec_max_cumulative() == old(self).spec_max_cumulative(),
            final(self).spec_hovered() == old(self).spec_hovered(),
            final(self).spec_granularity() == old(self).spec_granularity(),
    {
        self.show_cumulative = show;
    }

    /// Set the label granularity ("hour", "day" or "week"); a drawing hint
    /// only, never inspected by the layout.
    pub fn set_granularity(&mut self, granularity: &str)
        requires
            old(self).wf(),
        ensures
            final(self).wf(),
            final(self).spec_granularity() == granularity@,
            final(self).spec_config() == old(self).spec_config(),
            final(self).spec_data() == old(self).spec_data(),
            final(self).spec_events() == old(self).spec_events(),
            final(self).spec_time_range() == old(self).spec_time_range(),
            final(self).spec_max_count() == old(self).spec_max_count(),
            final(self).spec_max_cumulative() == old(self).spec_max_cumulative(),
            final(self).spec_hovered() == old(self).spec_hovered(),
            final(self).spec_show_cumulative() == old(self).spec_show_cumulative(),
    {
        self.granularity = granularity.to_owned();
    }

    /// Set timeline data.  Rejects oversized payloads and out-of-range
    /// timestamps, leaving prior state unchanged.  Every accepted payload
    /// fully replaces the derived state: an empty one clears the points and
    /// zeroes the time range and the count maxima, a nonempty one recomputes
    /// them from the new points.
    pub fn set_data(&mut self, data: Vec<TimelineDataPoint>) -> (r: Result<(), DataError>)
        requires
            old(self).wf(),
        ensures
            final(self).wf(),
            final(self).spec_config() == old(self).spec_config(),
            final(self).spec_events() == old(self).spec_events(),
            final(self).spec_hovered() == old(self).spec_hovered(),
            final(self).spec_show_cumulative() == old(self).spec_show_cumulative(),
            final(self).spec_granularity() == old(self).spec_granularity(),
            r is Ok <==> (data@.len() <= MAX_POINTS as int && (forall|i: int|
                0 <= i < data@.len() ==> (#[trigger] data@[i]).in_range())),
            r matches Err(e) ==> {
                &&& *final(self) == *old(self)
                &&& (match e {
                    DataError::TooManyRecords { count } => count == data@.len() && data@.len()
                        > MAX_POINTS as int,
                    DataError::RecordOutOfRange { index } => {
                        &&& data@.len() <= MAX_POINTS as int
                        &&& 0 <= index < data@.len()
                        &&& !data@[index as int].in_range()
                        &&& forall|j: int| 0 <= j < index ==> (#[trigger] data@[j]).in_range()
                    },
                    _ => false,
                })
            },
            r is Ok && data@.len() == 0 ==> {
                &&& final(self).spec_data().len() == 0
                &&& final(self).spec_time_range() == (0i64, 0i64)
                &&& final(self).spec_max_count() == 0
                &&& final(self).spec_max_cumulative() == 0
            },
            r is Ok && data@.len() > 0 ==> {
                &&& final(self).spec_data() == data@
                &&& final(self).spec_time_range().0 as int == min_ts(data@, data@.len() as int)
                &&& final(self).spec_time_range().1 as int == max_ts(data@, data@.len() as int)
                &&& final(self).spec_max_count() as int == max_count_of(data@, data@.len() as int)
                &&& final(self).spec_max_cumulative() as int == max_cum_of(
                    data@,
                    data@.len() as int,
                )
            },
    {
        if data.len() > MAX_POINTS {
            return Err(DataError::TooManyRecords { count: data.len() });
        }
        let n = data.len();
        let mut v: usize = 0;
        while v < n
            invariant
                old(self).wf(),
                *self == *old(self),
                n == data@.len(),
                n <= MAX_POINTS,
                v <= n,
                forall|j: int| 0 <= j < v ==> (#[trigger] data@[j]).in_range(),
            decreases n - v,
        {
            let t = data[v].timestamp;
            if !(-TS_LIMIT <= t && t <= TS_LIMIT) {
                return Err(DataError::RecordOutOfRange { index: v });
            }
            v += 1;
        }
        if n == 0 {
            self.data = data;
            self.time_range = (0, 0);
            self.max_count = 0;
            self.max_cumulative = 0;
            return Ok(());
        }
        let mut lo = data[0].timestamp;
        let mut hi = data[0].timestamp;
        let mut mc: u32 = 0;
        let mut mu: u32 = 0;
        let mut i: usize = 0;
        while i < n
            invariant
                n == data@.len(),
                0 < n <= MAX_POINTS,
                forall|j: int| 0 <= j < n ==> (#[trigger] data@[j]).in_range(),
                i <= n,
                lo as int == min_ts(data@, if i == 0 {
                    1int
                } else {
                    i as int
                }),
                hi as int == max_ts(data@, if i == 0 {
                    1int
                } else {
                    i as int
                }),
                mc as int == max_count_of(data@, i as int),
                mu as int == max_cum_of(data@, i as int),
                -TS_LIMIT <= lo <= TS_LIMIT,
                -TS_LIMIT <= hi <= TS_LIMIT,
            decreases n - i,
        {
            let p = &data[i];
            if p.timestamp < lo {
                lo = p.timestamp;
            }
            if p.timestamp > hi {
                hi = p.timestamp;
            }
            if p.count > mc {
                mc = p.count;
            }
            if p.cumulative > mu {
                mu = p.cumulative;
            }
            i += 1;
        }
        self.time_range = (lo, hi);
        self.max_count = mc;
        self.max_cumulative = mu;
        self.data = data;
        Ok(())
    }

    /// Set event markers.  Rejects oversized payloads and out-of-range
    /// timestamps, leaving prior state unchanged.
    pub fn set_events(&mut self, events: Vec<TimelineEvent>) -> (r: Result<(), DataError>)
        requires
            old(self).wf(),
        ensures
            final(self).wf(),
            final(self).spec_config() == old(self).spec_config(),
            final(self).spec_data() == old(self).spec_data(),
            final(self).spec_time_range() == old(self).spec_time_range(),
            final(self).spec_max_count() == old(self).spec_max_count(),
            final(self).spec_max_cumulative() == old(self).spec_max_cumulative(),
            final(self).spec_hovered() == old(self).spec_hovered(),
            final(self).spec_show_cumulative() == old(self).spec_show_cumulative(),
            final(self).spec_granularity() == old(self).spec_granularity(),
            r is Ok <==> (events@.len() <= MAX_POINTS as int && (forall|i: int|
                0 <= i < events@.len() ==> (#[trigger] events@[i]).in_range())),
            r is Ok ==> final(self).spec_events() == events@,
            r matches Err(e) ==> {
                &&& *final(self) == *old(self)
                &&& (match e {
                    DataError::TooManyRecords { count } => count == events@.len() && events@.len()
                        > MAX_POINTS as int,
                    DataError::RecordOutOfRange { index } => {
                        &&& events@.len() <= MAX_POINTS as int
                        &&& 0 <= index < events@.len()
                        &&& !events@[index as int].in_range()
                        &&& forall|j: int| 0 <= j < index ==> (#[trigger] events@[j]).in_range()
                    },
                    _ => false,
                })
            },
    {
        if events.len() > MAX_POINTS {
            return Err(DataError::TooManyRecords { count: events.len() });
        }
        let n = events.len();
        let mut v: usize = 0;
        while v < n
            invariant
                old(self).wf(),
                *self == *old(self),
                n == events@.len(),
                n <= MAX_POINTS,
                v <= n,
                forall|j: int| 0 <= j < v ==> (#[trigger] events@[j]).in_range(),
            decreases n - v,
        {
            let t = events[v].timestamp;
            if !(-TS_LIMIT <= t && t <= TS_LIMIT) {
                return Err(DataError::RecordOutOfRange { index: v });
            }
            v += 1;
        }
        self.events = events;
        Ok(())
    }

    /// Width of the current time span in milliseconds.
    pub open spec fn spec_time_span(&self) -> int {
        self.spec_time_range().1 - self.spec_time_range().0
    }

    /// Projected horizontal pixel of a timestamp: the linear map from the
    /// time range onto the plot width, rounded toward zero.
    pub open spec fn spec_proj_x(&self, ts: int) -> int {
        self.spec_config().padding.left + crate::common::tdiv(
            (ts - self.spec_time_range().0) * self.spec_config().spec_plot_width(),
            self.spec_time_span(),
        )
    }

    /// Horizontal pixel distance from the pointer to the projected point
    /// at `i`.
    pub open spec fn spec_dist(&self, x: int, i: int) -> int {
        abs_int(self.spec_proj_x(self.spec_data()[i].timestamp as int) - x)
    }

    /// Projected pixel for a timestamp, usable by presentation code for
    /// event markers; nothing to project over a degenerate time span.
    pub fn projected_x(&self, ts: i64) -> (r: Option<i64>)
        requires
            self.wf(),
            -TS_LIMIT <= ts <= TS_LIMIT,
        ensures
            self.spec_time_span() > 0 ==> (r matches Some(v) && v as int == self.spec_proj_x(
                ts as int,
            )),
            self.spec_time_span() <= 0 ==> r is None,
    {
        let t0 = self.time_range.0;
        let t1 = self.time_range.1;
        if t1 - t0 <= 0 {
            return None;
        }
        let span = t1 - t0;
        let pw = self.config.plot_width() as i64;
        proof {
            assert(-2_000_000_000_000_000_000 <= (ts as int - t0 as int) * pw as int
                <= 2_000_000_000_000_000_000int) by (nonlinear_arith)
                requires
                    -20_000_000_000_000 <= ts as int - t0 as int <= 20_000_000_000_000 && 0
                        <= pw as int <= 100_000,
            ;
        }
        let num = (ts - t0) * pw;
        proof {
            if num >= 0 {
                vstd::arithmetic::div_mod::lemma_div_pos_is_pos(num as int, span as int);
                vstd::arithmetic::div_mod::lemma_div_nonincreasing(num as int, span as int);
            } else {
                vstd::arithmetic::div_mod::lemma_div_pos_is_pos(-(num as int), span as int);
                vstd::arithmetic::div_mod::lemma_div_nonincreasing(-(num as int), span as int);
            }
        }
        Some(self.config.padding.left as i64 + num / span)
    }

    /// Nearest-point hit-test along the time axis: the closest projected
    /// point within the pixel tolerance wins, ties broken by the first
    /// minimum in iteration order; vertical distance is ignored.  Over a
    /// degenerate time span, a miss.  The struck point is remembered as
    /// hovered.
    pub fn on_mouse_move(&mut self, x: i64, y: i64) -> (r: HitTestResult)
        requires
            old(self).wf(),
            -POINTER_LIMIT <= x <= POINTER_LIMIT,
            -POINTER_LIMIT <= y <= POINTER_LIMIT,
        ensures
            final(self).wf(),
            final(self).spec_config() == old(self).spec_config(),
            final(self).spec_data() == old(self).spec_data(),
            final(self).spec_events() == old(self).spec_events(),
            final(self).spec_time_range() == old(self).spec_time_range(),
            final(self).spec_max_count() == old(self).spec_max_count(),
            final(self).spec_max_cumulative() == old(self).spec_max_cumulative(),
            final(self).spec_show_cumulative() == old(self).spec_show_cumulative(),
            final(self).spec_granularity() == old(self).spec_granularity(),
            !r.hit ==> r.element_id is None && r.element_type@ == "none"@ && r.data is None,
            old(self).spec_time_span() <= 0 ==> !r.hit && final(self).spec_hovered() == old(
                self,
            ).spec_hovered(),
            old(self).spec_time_span() > 0 ==> {
                &&& (r.hit <==> exists|i: int|
                    0 <= i < old(self).spec_data().len() && #[trigger] old(self).spec_dist(
                        x as int,
                        i,
                    ) < HIT_TOLERANCE as int)
                &&& (!r.hit ==> final(self).spec_hovered() is None)
                &&& (r.hit ==> (final(self).spec_hovered() matches Some(idx) && {
                    &&& idx < old(self).spec_data().len()
                    &&& old(self).spec_dist(x as int, idx as int) < HIT_TOLERANCE as int
                    &&& forall|j: int|
                        0 <= j < old(self).spec_data().len() ==> #[trigger] old(self).spec_dist(
                            x as int,
                            j,
                        ) >= old(self).spec_dist(x as int, idx as int)
                    &&& forall|j: int|
                        0 <= j < idx as int ==> #[trigger] old(self).spec_dist(x as int, j) > old(
                            self,
                        ).spec_dist(x as int, idx as int)
                    &&& (r.element_id matches Some(s) && s@ == "point-"@ + dec_str(idx as int))
                    &&& r.element_type@ == "timeline_point"@
                    &&& (r.data matches Some(d) && {
                        let p = old(self).spec_data()[idx as int];
                        &&& d.fields@.len() == 5
                        &&& d.fields@[0].0@ == "index"@ && d.fields@[0].1 == FieldValue::Uint(
                            idx as u64,
                        )
                        &&& d.fields@[1].0@ == "timestamp"@ && d.fields@[1].1 == FieldValue::Int(
                            p.timestamp,
                        )
                        &&& d.fields@[2].0@ == "count"@ && d.fields@[2].1 == FieldValue::Uint(
                            p.count as u64,
                        )
                        &&& d.fields@[3].0@ == "cumulative"@ && d.fields@[3].1 == FieldValue::Uint(
                            p.cumulative as u64,
                        )
                        &&& d.fields@[4].0@ == "label"@ && d.fields@[4].1 == (match p.label {
                            Some(l) => FieldValue::Text(l),
                            None => FieldValue::Absent,
                        })
                        &&& d.metadata is None
                    })
                }))
            },
    {
        let t0 = self.time_range.0;
        let t1 = self.time_range.1;
        if t1 - t0 <= 0 {
            return HitTestResult::miss();
        }
        let span = t1 - t0;
        let pw = self.config.plot_width() as i64;
        let left = self.config.padding.left as i64;
        let n = self.data.len();
        let mut best_idx: usize = 0;
        let mut best_dist: i64 = HIT_TOLERANCE;
        let mut found = false;
        let mut i: usize = 0;
        while i < n
            invariant
                old(self).wf(),
                *self == *old(self),
                n == self.spec_data().len(),
                self.spec_time_span() > 0,
                span == self.spec_time_span(),
                pw == self.spec_config().spec_plot_width(),
                left == self.spec_config().padding.left,
                t0 == self.spec_time_range().0,
                -POINTER_LIMIT <= x <= POINTER_LIMIT,
                i <= n,
                !found ==> best_dist == HIT_TOLERANCE && forall|j: int|
                    0 <= j < i ==> #[trigger] self.spec_dist(x as int, j) >= HIT_TOLERANCE as int,
                found ==> {
                    &&& best_idx < i
                    &&& best_dist < HIT_TOLERANCE
                    &&& best_dist as int == self.spec_dist(x as int, best_idx as int)
                    &&& forall|j: int|
                        0 <= j < i ==> #[trigger] self.spec_dist(x as int, j) >= best_dist as int
                    &&& forall|j: int|
                        0 <= j < best_idx as int ==> #[trigger] self.spec_dist(x as int, j)
                            > best_dist as int
                },
                0 <= best_dist <= HIT_TOLERANCE,
            decreases n - i,
        {
            let ts = self.data[i].timestamp;
            proof {
                assert(-2_000_000_000_000_000_000 <= (ts as int - t0 as int) * pw as int
                    <= 2_000_000_000_000_000_000int) by (nonlinear_arith)
                    requires
                        -20_000_000_000_000 <= ts as int - t0 as int <= 20_000_000_000_000 && 0
                            <= pw as int <= 100_000,
                ;
            }
            let num = (ts - t0) * pw;
            proof {
                if num >= 0 {
                    vstd::arithmetic::div_mod::lemma_div_pos_is_pos(num as int, span as int);
                    vstd::arithmetic::div_mod::lemma_div_nonincreasing(num as int, span as int);
                } else {
                    vstd::arithmetic::div_mod::lemma_div_pos_is_pos(-(num as int), span as int);
                    vstd::arithmetic::div_mod::lemma_div_nonincreasing(-(num as int), span as int);
                }
            }
            let px = left + num / span;
            let dist = if px >= x {
                px - x
            } else {
                x - px
            };
            if dist < best_dist {
                best_idx = i;
                best_dist = dist;
                found = true;
            }
            i += 1;
        }
        if found {
            let p = &self.data[best_idx];
            let mut fields: Vec<(String, FieldValue)> = Vec::new();
            fields.push(("index".to_owned(), FieldValue::Uint(best_idx as u64)));
            fields.push(("timestamp".to_owned(), FieldValue::Int(p.timestamp)));
            fields.push(("count".to_owned(), FieldValue::Uint(p.count as u64)));
            fields.push(("cumulative".to_owned(), FieldValue::Uint(p.cumulative as u64)));
            let label_field = match &p.label {
                Some(l) => FieldValue::Text(l.clone()),
                None => FieldValue::Absent,
            };
            fields.push(("label".to_owned(), label_field));
            let mut id = "point-".to_owned();
            let num = u64_to_string(best_idx as u64);
            id.append(num.as_str());
            self.hovered_point = Some(best_idx);
            HitTestResult::hit(id.as_str(), "timeline_point", HitData::new(fields))
        } else {
            self.hovered_point = None;
            HitTestResult::miss()
        }
    }

    /// Aggregate statistics: totals, the peak period (the last index
    /// attaining the maximal count) and the time range.
    pub fn get_stats(&self) -> (s: TimelineStats)
        requires
            self.wf(),
        ensures
            s.total_submissions as int == count_sum_of(
                self.spec_data(),
                self.spec_data().len() as int,
            ),
            s.data_points == self.spec_data().len(),
            s.event_count == self.spec_events().len(),
            s.time_range_start == self.spec_time_range().0,
            s.time_range_end == self.spec_time_range().1,
            self.spec_data().len() == 0 ==> s.peak_count == 0 && s.peak_timestamp is None,
            self.spec_data().len() > 0 ==> {
                let pk = last_peak_idx(self.spec_data(), self.spec_data().len() as int);
                &&& s.peak_count as int == self.spec_data()[pk].count as int
                &&& s.peak_timestamp == Some(self.spec_data()[pk].timestamp)
            },
    {
        let n = self.data.len();
        let mut total: u64 = 0;
        let mut peak: Option<usize> = None;
        let mut mc: u32 = 0;
        let mut i: usize = 0;
        while i < n
            invariant
                self.wf(),
                n == self.spec_data().len(),
                n <= MAX_POINTS,
                i <= n,
                total as int == count_sum_of(self.spec_data(), i as int),
                total <= i as int * 4_294_967_295,
                mc as int == max_count_of(self.spec_data(), i as int),
                i == 0 ==> peak is None,
                i > 0 ==> (peak matches Some(pk) && pk as int == last_peak_idx(
                    self.spec_data(),
                    i as int,
                ) && pk < i),
            decreases n - i,
        {
            proof {
                assert((i as int + 1) * 4_294_967_295 == i as int * 4_294_967_295 + 4_294_967_295)
                    by (nonlinear_arith);
            }
            let p = &self.data[i];
            total = total + p.count as u64;
            if p.count >= mc {
                peak = Some(i);
                mc = p.count;
            }
            i += 1;
        }
        let (pc, pt): (u32, Option<i64>) = match peak {
            Some(pk) => (self.data[pk].count, Some(self.data[pk].timestamp)),
            None => (0, None),
        };
        TimelineStats {
            total_submissions: total,
            data_points: n,
            peak_count: pc,
            peak_timestamp: pt,
            time_range_start: self.time_range.0,
            time_range_end: self.time_range.1,
            event_count: self.events.len(),
        }
    }
}

/// A pointer resting exactly on one projected point, with every other
/// point projected strictly elsewhere, is resolved to exactly that point:
/// zero distance is the unique minimum, so the first-minimum tie-break
/// cannot pick anything else.
pub proof fn lemma_exact_pixel_wins(chart: TimelineChart, x: int, i: int, idx: int)
    requires
        0 <= i < chart.spec_data().len(),
        0 <= idx < chart.spec_data().len(),
        chart.spec_dist(x, i) == 0,
        forall|j: int|
            0 <= j < chart.spec_data().len() && j != i ==> #[trigger] chart.spec_dist(x, j) > 0,
        chart.spec_dist(x, idx) < HIT_TOLERANCE as int,
        forall|j: int|
            0 <= j < chart.spec_data().len() ==> #[trigger] chart.spec_dist(x, j)
                >= chart.spec_dist(x, idx),
    ensures
        idx == i,
{
    assert(chart.spec_dist(x, idx) <= chart.spec_dist(x, i));
}

} // verus!
