//! Score distribution histogram: partitions normalized scores into
//! fixed-width percentage buckets and aggregates counts and metadata.
//!
//! Scores arrive in any consistent unit; only the ratio `score / max_score`
//! matters.  Percentages are carried in milli-percent (one hundred thousand
//! milli-percent is the full range), so bucket boundaries are exact integers.

use vstd::prelude::*;
use crate::common::{
    ChartConfig, DataError, FieldValue, HitData, HitTestResult, POINTER_LIMIT, abs_int, clamped,
    min_int, max_int, tdiv,
};
use crate::format::{dec_str, u64_to_string};

verus! {

/// Magnitude bound on scores, max scores and variances; keeps every product
/// used during binning inside `i64`.
pub const SCORE_VALUE_LIMIT: i64 = 1_000_000_000_000;

/// Most records a single payload may carry.
pub const MAX_RECORDS: usize = 1_000_000;

/// Most bins a histogram may be asked for.
pub const MAX_BINS: u32 = 10_000;

/// Milli-percent of the full normalized range.
pub const FULL_PCT_MILLI: i64 = 100_000;

/// Score data point for a single application.
pub struct ScoreDataPoint {
    pub application_id: String,
    pub reference: String,
    /// Raw score, any unit (use milli-points for fractional scores).
    pub score: i64,
    /// Maximum achievable score in the same unit.
    pub max_score: i64,
    pub assessor_count: u32,
    /// Score variance between assessors, milli-units.
    pub variance: Option<i64>,
}

impl ScoreDataPoint {
    pub open spec fn in_range(&self) -> bool {
        &&& abs_int(self.score as int) <= SCORE_VALUE_LIMIT as int
        &&& abs_int(self.max_score as int) <= SCORE_VALUE_LIMIT as int
        &&& (self.variance matches Some(v) ==> abs_int(v as int) <= SCORE_VALUE_LIMIT as int)
    }

    pub fn check_in_range(&self) -> (b: bool)
        ensures
            b == self.in_range(),
    {
        -SCORE_VALUE_LIMIT <= self.score && self.score <= SCORE_VALUE_LIMIT
            && -SCORE_VALUE_LIMIT <= self.max_score && self.max_score <= SCORE_VALUE_LIMIT
            && (match self.variance {
            Some(v) => -SCORE_VALUE_LIMIT <= v && v <= SCORE_VALUE_LIMIT,
            None => true,
        })
    }
}

/// Normalized score in milli-percent, clamped into `[0, 100_000]`.
/// A non-positive maximum normalizes to zero.
pub open spec fn norm_pct_milli(p: ScoreDataPoint) -> int {
    if p.max_score > 0 {
        clamped(tdiv(p.score * FULL_PCT_MILLI, p.max_score as int), 0, FULL_PCT_MILLI as int)
    } else {
        0
    }
}

/// The single bin a record belongs to: its normalized percentage
/// floor-divided by the bin width, with the full-score boundary absorbed
/// into the last bin.
pub open spec fn spec_bin_index(p: ScoreDataPoint, k: int) -> int {
    min_int(norm_pct_milli(p) * k / (FULL_PCT_MILLI as int), k - 1)
}

pub proof fn lemma_bin_index_range(p: ScoreDataPoint, k: int)
    requires
        k >= 1,
    ensures
        0 <= spec_bin_index(p, k) < k,
{
    let pm = norm_pct_milli(p);
    assert(0 <= pm <= FULL_PCT_MILLI);
    assert(pm * k >= 0) by (nonlinear_arith)
        requires
            pm >= 0 && k >= 1,
    ;
    assert(pm * k / (FULL_PCT_MILLI as int) >= 0);
}

/// How many of the records in `s` fall into bin `b`.
pub open spec fn count_in(s: Seq<ScoreDataPoint>, k: int, b: int) -> int
    decreases s.len(),
{
    if s.len() == 0 {
        0
    } else {
        count_in(s.drop_last(), k, b) + if spec_bin_index(s.last(), k) == b {
            1int
        } else {
            0int
        }
    }
}

/// The identifiers of the records in `s` that fall into bin `b`, in input
/// order.
pub open spec fn members_in(s: Seq<ScoreDataPoint>, k: int, b: int) -> Seq<String>
    decreases s.len(),
{
    if s.len() == 0 {
        Seq::empty()
    } else {
        members_in(s.drop_last(), k, b) + if spec_bin_index(s.last(), k) == b {
            seq![s.last().application_id]
        } else {
            Seq::empty()
        }
    }
}

/// Sum of the variances recorded by the members of bin `b` (absent
/// variances contribute nothing).
pub open spec fn var_sum_in(s: Seq<ScoreDataPoint>, k: int, b: int) -> int
    decreases s.len(),
{
    if s.len() == 0 {
        0
    } else {
        var_sum_in(s.drop_last(), k, b) + if spec_bin_index(s.last(), k) == b {
            match s.last().variance {
                Some(v) => v as int,
                None => 0,
            }
        } else {
            0int
        }
    }
}

/// Sum of the counts of the first `b` bins.
pub open spec fn count_sum_upto(s: Seq<ScoreDataPoint>, k: int, b: int) -> int
    decreases b,
{
    if b <= 0 {
        0
    } else {
        count_sum_upto(s, k, b - 1) + count_in(s, k, b - 1)
    }
}

/// Largest count among the first `b` bins.
pub open spec fn max_count_upto(s: Seq<ScoreDataPoint>, k: int, b: int) -> int
    decreases b,
{
    if b <= 0 {
        0
    } else {
        max_int(max_count_upto(s, k, b - 1), count_in(s, k, b - 1))
    }
}

proof fn lemma_count_sum_empty(k: int, b: int)
    ensures
        count_sum_upto(Seq::<ScoreDataPoint>::empty(), k, b) == 0,
    decreases b,
{
    if b > 0 {
        lemma_count_sum_empty(k, b - 1);
    }
}

proof fn lemma_count_sum_snoc(s: Seq<ScoreDataPoint>, k: int, b: int)
    requires
        s.len() > 0,
    ensures
        count_sum_upto(s, k, b) == count_sum_upto(s.drop_last(), k, b) + if 0
            <= spec_bin_index(s.last(), k) < b {
            1int
        } else {
            0int
        },
    decreases b,
{
    if b > 0 {
        lemma_count_sum_snoc(s, k, b - 1);
    }
}

/// Every record is assigned to exactly one bin, so the bin counts sum to
/// the number of records, for every bin count of at least one.
pub proof fn lemma_histogram_counts_total(s: Seq<ScoreDataPoint>, k: int)
    requires
        k >= 1,
    ensures
        count_sum_upto(s, k, k) == s.len(),
    decreases s.len(),
{
    if s.len() == 0 {
        assert(s =~= Seq::<ScoreDataPoint>::empty());
        lemma_count_sum_empty(k, k);
    } else {
        let t = s.drop_last();
        lemma_histogram_counts_total(t, k);
        lemma_bin_index_range(s.last(), k);
        lemma_count_sum_snoc(s, k, k);
        assert(count_sum_upto(t, k, k) == t.len());
        assert(0 <= spec_bin_index(s.last(), k) < k);
        assert(count_sum_upto(s, k, k) == count_sum_upto(t, k, k) + 1);
    }
}

/// A bin's membership list holds exactly one entry per record counted into
/// it, so together with the count partition the membership lists place
/// every record identifier in exactly one bin.
pub proof fn lemma_members_match_counts(s: Seq<ScoreDataPoint>, k: int, b: int)
    ensures
        members_in(s, k, b).len() == count_in(s, k, b),
    decreases s.len(),
{
    if s.len() > 0 {
        lemma_members_match_counts(s.drop_last(), k, b);
    }
}

/// Histogram bin over an inclusive-exclusive milli-percent range (the last
/// bin also captures the full-score boundary).
pub struct HistogramBin {
    /// Lower range bound, milli-percent.
    pub min: i64,
    /// Upper range bound, milli-percent.
    pub max: i64,
    pub count: u32,
    /// Identifiers of the contributing records, in input order.
    pub applications: Vec<String>,
    /// Sum of contributed variances, milli-units.
    pub sum_variance: i64,
    /// Mean contributed variance (sum divided by count, toward zero).
    pub avg_variance: i64,
}

/// What a well-formed bin at position `j` out of `k` looks like for the
/// record sequence `s`.
pub open spec fn bin_matches(bin: HistogramBin, s: Seq<ScoreDataPoint>, k: int, j: int) -> bool {
    &&& bin.min == j * (FULL_PCT_MILLI as int) / k
    &&& bin.max == (j + 1) * (FULL_PCT_MILLI as int) / k
    &&& bin.count == count_in(s, k, j)
    &&& bin.applications@ == members_in(s, k, j)
    &&& bin.sum_variance == var_sum_in(s, k, j)
    &&& bin.avg_variance == (if count_in(s, k, j) > 0 {
        tdiv(var_sum_in(s, k, j), count_in(s, k, j))
    } else {
        0int
    })
}

/// Read-only aggregate snapshot for external dashboards.
pub struct ScoreStats {
    pub total_applications: u32,
    pub bin_count: usize,
    pub max_bin_count: u32,
}

/// Score distribution chart state, kept between renders for interactivity.
pub struct ScoreDistributionChart {
    config: ChartConfig,
    bins: Vec<HistogramBin>,
    total_count: u32,
    max_count: u32,
    hovered_bin: Option<usize>,
}

impl ScoreDistributionChart {
    pub closed spec fn wf(&self) -> bool {
        &&& self.config.valid()
        &&& self.bins@.len() <= MAX_BINS as int
    }

    pub closed spec fn spec_bins(&self) -> Seq<HistogramBin> {
        self.bins@
    }

    pub closed spec fn spec_total_count(&self) -> u32 {
        self.total_count
    }

    pub closed spec fn spec_max_count(&self) -> u32 {
        self.max_count
    }

    pub closed spec fn spec_hovered(&self) -> Option<usize> {
        self.hovered_bin
    }

    pub closed spec fn spec_config(&self) -> ChartConfig {
        self.config
    }

    pub fn new(config: ChartConfig) -> (chart: ScoreDistributionChart)
        requires
            config.valid(),
        ensures
            chart.wf(),
            chart.spec_config() == config,
            chart.spec_bins().len() == 0,
            chart.spec_total_count() == 0,
            chart.spec_max_count() == 0,
            chart.spec_hovered() is None,
    {
        ScoreDistributionChart {
            config,
            bins: Vec::new(),
            total_count: 0,
            max_count: 0,
            hovered_bin: None,
        }
    }

    pub fn config(&self) -> (c: &ChartConfig)
        ensures
            *c == self.spec_config(),
    {
        &self.config
    }

    pub fn bins(&self) -> (b: &Vec<HistogramBin>)
        ensures
            b@ == self.spec_bins(),
    {
        &self.bins
    }

    pub fn hovered_bin(&self) -> (h: Option<usize>)
        ensures
            h == self.spec_hovered(),
    {
        self.hovered_bin
    }

    /// Update chart data and recalculate bins.
    ///
    /// A payload with an out-of-range record or too many records is
    /// rejected and the prior state kept.  An empty payload is not an
    /// error: it clears the bins and zeroes the counters.
    pub fn set_data(&mut self, data: Vec<ScoreDataPoint>, bin_count: u32) -> (r: Result<
        (),
        DataError,
    >)
        requires
            old(self).wf(),
            1 <= bin_count <= MAX_BINS,
        ensures
            final(self).wf(),
            final(self).spec_config() == old(self).spec_config(),
            final(self).spec_hovered() == old(self).spec_hovered(),
            r is Ok <==> (data@.len() <= MAX_RECORDS as int && (forall|i: int|
                0 <= i < data@.len() ==> (#[trigger] data@[i]).in_range())),
            r matches Err(e) ==> {
                &&& *final(self) == *old(self)
                &&& (match e {
                    DataError::TooManyRecords { count } => count == data@.len() && data@.len()
                        > MAX_RECORDS as int,
                    DataError::RecordOutOfRange { index } => {
                        &&& data@.len() <= MAX_RECORDS as int
                        &&& 0 <= index < data@.len()
                        &&& !data@[index as int].in_range()
                        &&& forall|j: int| 0 <= j < index ==> (#[trigger] data@[j]).in_range()
                    },
                    _ => false,
                })
            },
            r is Ok && data@.len() == 0 ==> {
                &&& final(self).spec_bins().len() == 0
                &&& final(self).spec_total_count() == 0
                &&& final(self).spec_max_count() == 0
            },
            r is Ok && data@.len() > 0 ==> {
                &&& final(self).spec_bins().len() == bin_count as int
                &&& (forall|j: int|
                    0 <= j < bin_count as int ==> bin_matches(
                        #[trigger] final(self).spec_bins()[j],
                        data@,
                        bin_count as int,
                        j,
                    ))
                &&& final(self).spec_total_count() == data@.len()
                &&& final(self).spec_max_count() == max_count_upto(
                    data@,
                    bin_count as int,
                    bin_count as int,
                )
            },
    {
        if data.len() > MAX_RECORDS {
            return Err(DataError::TooManyRecords { count: data.len() });
        }
        let n = data.len();
        let mut v: usize = 0;
        while v < n
            invariant
                old(self).wf(),
                *self == *old(self),
                n == data@.len(),
                n <= MAX_RECORDS,
                v <= n,
                forall|j: int| 0 <= j < v ==> (#[trigger] data@[j]).in_range(),
            decreases n - v,
        {
            if !data[v].check_in_range() {
                return Err(DataError::RecordOutOfRange { index: v });
            }
            v += 1;
        }
        if n == 0 {
            self.bins = Vec::new();
            self.total_count = 0;
            self.max_count = 0;
            return Ok(());
        }
        let k = bin_count as usize;
        let mut bins: Vec<HistogramBin> = Vec::new();
        let mut max_count: u32 = 0;
        let mut b: usize = 0;
        while b < k
            invariant
                old(self).wf(),
                *self == *old(self),
                1 <= bin_count <= MAX_BINS,
                n == data@.len(),
                0 < n <= MAX_RECORDS,
                forall|j: int| 0 <= j < n ==> (#[trigger] data@[j]).in_range(),
                1 <= k <= MAX_BINS,
                k == bin_count,
                b <= k,
                bins@.len() == b as int,
                forall|j: int|
                    0 <= j < b as int ==> bin_matches(#[trigger] bins@[j], data@, k as int, j),
                max_count == max_count_upto(data@, k as int, b as int),
                max_count <= MAX_RECORDS,
            decreases k - b,
        {
            let ghost kk = k as int;
            let ghost bb = b as int;
            let mut cnt: u32 = 0;
            let mut members: Vec<String> = Vec::new();
            let mut vsum: i64 = 0;
            let mut i: usize = 0;
            while i < n
                invariant
                    n == data@.len(),
                    n <= MAX_RECORDS,
                    forall|j: int| 0 <= j < n ==> (#[trigger] data@[j]).in_range(),
                    1 <= bin_count <= MAX_BINS,
                    k == bin_count as usize,
                    b < k,
                    i <= n,
                    cnt as int == count_in(data@.take(i as int), k as int, b as int),
                    cnt <= i,
                    members@ == members_in(data@.take(i as int), k as int, b as int),
                    vsum as int == var_sum_in(data@.take(i as int), k as int, b as int),
                    abs_int(vsum as int) <= i as int * SCORE_VALUE_LIMIT as int,
                decreases n - i,
            {
                let p = &data[i];
                let idx = bin_index(p, bin_count);
                proof {
                    assert(data@.take(i as int + 1).drop_last() =~= data@.take(i as int));
                    assert(data@.take(i as int + 1).last() == data@[i as int]);
                    assert((i as int + 1) * SCORE_VALUE_LIMIT as int == i as int
                        * SCORE_VALUE_LIMIT as int + SCORE_VALUE_LIMIT as int) by (nonlinear_arith);
                }
                if idx == b {
                    cnt = cnt + 1;
                    members.push(p.application_id.clone());
                    match p.variance {
                        Some(vv) => {
                            vsum = vsum + vv;
                        },
                        None => {},
                    }
                }
                proof {
                    assert(members@ =~= members_in(data@.take(i as int + 1), k as int, b as int));
                }
                i += 1;
            }
            proof {
                assert(data@.take(n as int) =~= data@);
            }
            let avg: i64 = if cnt > 0 {
                vsum / (cnt as i64)
            } else {
                0
            };
            let mn: i64 = (b as i64) * FULL_PCT_MILLI / (k as i64);
            let mx: i64 = ((b + 1) as i64) * FULL_PCT_MILLI / (k as i64);
            bins.push(
                HistogramBin {
                    min: mn,
                    max: mx,
                    count: cnt,
                    applications: members,
                    sum_variance: vsum,
                    avg_variance: avg,
                },
            );
            if cnt > max_count {
                max_count = cnt;
            }
            b += 1;
        }
        self.bins = bins;
        self.total_count = n as u32;
        self.max_count = max_count;
        Ok(())
    }

    /// Which bin the pointer is over, if any: the pointer must lie in the
    /// plot area, the plot must be non-degenerate, and the horizontal
    /// position scaled by the bin count must land on an existing bin.
    pub open spec fn spec_hit_index(&self, x: int, y: int) -> Option<int> {
        let cfg = self.spec_config();
        let pw = cfg.spec_plot_width();
        let inside = {
            &&& cfg.padding.left as int <= x <= cfg.width as int - cfg.padding.right as int
            &&& cfg.padding.top as int <= y <= cfg.height as int - cfg.padding.bottom as int
        };
        if inside && pw > 0 && self.spec_bins().len() > 0 {
            let idx = (x - cfg.padding.left as int) * self.spec_bins().len() as int / pw;
            if idx < self.spec_bins().len() as int {
                Some(idx)
            } else {
                None
            }
        } else {
            None
        }
    }

    /// Hover hit-test.  Returns the struck bin's record and remembers it as
    /// hovered; a miss clears the hover.
    pub fn on_mouse_move(&mut self, x: i64, y: i64) -> (r: HitTestResult)
        requires
            old(self).wf(),
            abs_int(x as int) <= POINTER_LIMIT as int,
            abs_int(y as int) <= POINTER_LIMIT as int,
        ensures
            final(self).wf(),
            final(self).spec_config() == old(self).spec_config(),
            final(self).spec_bins() == old(self).spec_bins(),
            final(self).spec_total_count() == old(self).spec_total_count(),
            final(self).spec_max_count() == old(self).spec_max_count(),
            r.hit <==> old(self).spec_hit_index(x as int, y as int) is Some,
            !r.hit ==> r.element_id is None && r.element_type@ == "none"@ && r.data is None,
            final(self).spec_hovered() == (match old(self).spec_hit_index(x as int, y as int) {
                Some(idx) => Some(idx as usize),
                None => None::<usize>,
            }),
            old(self).spec_hit_index(x as int, y as int) matches Some(idx) ==> {
                &&& r.element_id matches Some(s) && s@ == "bin-"@ + dec_str(idx)
                &&& r.element_type@ == "histogram_bin"@
                &&& r.data matches Some(d) && {
                    let bin = old(self).spec_bins()[idx];
                    &&& d.fields@.len() == 6
                    &&& d.fields@[0].0@ == "binIndex"@ && d.fields@[0].1 == FieldValue::Uint(
                        idx as u64,
                    )
                    &&& d.fields@[1].0@ == "min"@ && d.fields@[1].1 == FieldValue::Int(bin.min)
                    &&& d.fields@[2].0@ == "max"@ && d.fields@[2].1 == FieldValue::Int(bin.max)
                    &&& d.fields@[3].0@ == "count"@ && d.fields@[3].1 == FieldValue::Uint(
                        bin.count as u64,
                    )
                    &&& d.fields@[4].0@ == "avgVariance"@ && d.fields@[4].1 == FieldValue::Int(
                        bin.avg_variance,
                    )
                    &&& d.fields@[5].0@ == "applications"@
                    &&& (d.fields@[5].1 matches FieldValue::List(ids) && ids@
                        == bin.applications@.take(min_int(10, bin.applications@.len() as int)))
                    &&& d.metadata is None
                }
            },
    {
        let cfg = &self.config;
        let w = cfg.width as i64;
        let h = cfg.height as i64;
        let left = cfg.padding.left as i64;
        let right = cfg.padding.right as i64;
        let top = cfg.padding.top as i64;
        let bottom = cfg.padding.bottom as i64;
        let pw = cfg.plot_width() as i64;
        let inside = left <= x && x <= w - right && top <= y && y <= h - bottom;
        if inside && pw > 0 && self.bins.len() > 0 {
            let rel = x - left;
            proof {
                assert(rel as int * self.bins@.len() as int <= 1_000_000_000_000_000)
                    by (nonlinear_arith)
                    requires
                        0 <= rel <= 100_000_000_000 && self.bins@.len() <= 10_000,
                ;
                assert(rel as int * self.bins@.len() as int >= 0) by (nonlinear_arith)
                    requires
                        0 <= rel && self.bins@.len() >= 0,
                ;
            }
            let idx64 = rel * (self.bins.len() as i64) / pw;
            if idx64 < self.bins.len() as i64 {
                let idx = idx64 as usize;
                let bin = &self.bins[idx];
                let take_n = if bin.applications.len() < 10 {
                    bin.applications.len()
                } else {
                    10
                };
                let mut ids: Vec<String> = Vec::new();
                let mut j: usize = 0;
                while j < take_n
                    invariant
                        take_n <= bin.applications@.len(),
                        j <= take_n,
                        ids@ == bin.applications@.take(take_n as int).take(j as int),
                        bin == &old(self).spec_bins()[idx as int],
                        idx < old(self).spec_bins().len(),
                    decreases take_n - j,
                {
                    ids.push(bin.applications[j].clone());
                    proof {
                        assert(ids@ =~= bin.applications@.take(take_n as int).take(j as int + 1));
                    }
                    j += 1;
                }
                proof {
                    assert(ids@ =~= bin.applications@.take(take_n as int));
                }
                let mut fields: Vec<(String, FieldValue)> = Vec::new();
                fields.push(("binIndex".to_owned(), FieldValue::Uint(idx as u64)));
                fields.push(("min".to_owned(), FieldValue::Int(bin.min)));
                fields.push(("max".to_owned(), FieldValue::Int(bin.max)));
                fields.push(("count".to_owned(), FieldValue::Uint(bin.count as u64)));
                fields.push(("avgVariance".to_owned(), FieldValue::Int(bin.avg_variance)));
                fields.push(("applications".to_owned(), FieldValue::List(ids)));
                let mut id = "bin-".to_owned();
                let num = u64_to_string(idx as u64);
                id.append(num.as_str());
                self.hovered_bin = Some(idx);
                return HitTestResult::hit(id.as_str(), "histogram_bin", HitData::new(fields));
            }
        }
        self.hovered_bin = None;
        HitTestResult::miss()
    }

    /// Current aggregate statistics.
    pub fn get_stats(&self) -> (s: ScoreStats)
        ensures
            s.total_applications == self.spec_total_count(),
            s.bin_count == self.spec_bins().len(),
            s.max_bin_count == self.spec_max_count(),
    {
        ScoreStats {
            total_applications: self.total_count,
            bin_count: self.bins.len(),
            max_bin_count: self.max_count,
        }
    }
}

/// Executable bin assignment; matches `spec_bin_index` exactly.
pub fn bin_index(p: &ScoreDataPoint, bin_count: u32) -> (idx: usize)
    requires
        p.in_range(),
        1 <= bin_count <= MAX_BINS,
    ensures
        idx as int == spec_bin_index(*p, bin_count as int),
        idx < bin_count,
{
    proof {
        lemma_bin_index_range(*p, bin_count as int);
    }
    let pm: i64 = if p.max_score > 0 {
        let q = (p.score * FULL_PCT_MILLI) / p.max_score;
        if q < 0 {
            0
        } else if q > FULL_PCT_MILLI {
            FULL_PCT_MILLI
        } else {
            q
        }
    } else {
        0
    };
    proof {
        assert(pm as int * bin_count as int <= 1_000_000_000) by (nonlinear_arith)
            requires
                0 <= pm <= 100_000 && bin_count <= 10_000,
        ;
        assert(pm as int * bin_count as int >= 0) by (nonlinear_arith)
            requires
                0 <= pm && bin_count >= 0,
        ;
    }
    let idx64 = (pm * (bin_count as i64)) / FULL_PCT_MILLI;
    if idx64 > (bin_count - 1) as i64 {
        (bin_count - 1) as usize
    } else {
        idx64 as usize
    }
}

} // verus!
