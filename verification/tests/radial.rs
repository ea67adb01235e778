use chartcore::common::{ChartConfig, DataError};
use chartcore::progress_tracker::{ProgressSegment, ProgressTrackerChart, scaled_span};

fn segment(id: &str, completed: u32, total: u32) -> ProgressSegment {
    ProgressSegment {
        id: id.to_string(),
        label: format!("label-{}", id),
        completed,
        total,
        color: None,
    }
}

#[test]
fn radial_two_segments_quarter_split() {
    let mut chart = ProgressTrackerChart::new(ChartConfig::default());
    chart.set_data(vec![segment("big", 1, 3), segment("small", 1, 1)]).unwrap();
    let arcs = chart.segment_layout();
    assert_eq!(arcs.len(), 2);
    // Spans of 270 and 90 degrees, consecutively from the top.
    assert_eq!(arcs[0].start, 0);
    assert_eq!(arcs[0].span, 270_000);
    assert_eq!(arcs[1].start, 270_000);
    assert_eq!(arcs[1].span, 90_000);
}

#[test]
fn radial_spans_sum_to_full_turn() {
    let mut chart = ProgressTrackerChart::new(ChartConfig::default());
    // Seven equal shares do not divide the turn evenly; the cumulative
    // layout still covers exactly 360 degrees.
    let segs: Vec<ProgressSegment> = (0..7).map(|i| segment(&format!("s{}", i), 0, 1)).collect();
    chart.set_data(segs).unwrap();
    let arcs = chart.segment_layout();
    let total: i64 = arcs.iter().map(|a| a.span).sum();
    assert_eq!(total, 360_000);
}

#[test]
fn radial_completed_subarc() {
    let mut chart = ProgressTrackerChart::new(ChartConfig::default());
    chart.set_data(vec![segment("half", 2, 4)]).unwrap();
    let arcs = chart.segment_layout();
    assert_eq!(arcs[0].span, 360_000);
    assert_eq!(arcs[0].completed_span, 180_000);
}

#[test]
fn radial_zero_total_yields_empty_layout() {
    let mut chart = ProgressTrackerChart::new(ChartConfig::default());
    chart.set_data(vec![segment("a", 0, 0), segment("b", 0, 0)]).unwrap();
    assert_eq!(chart.segment_layout().len(), 0);
}

#[test]
fn radial_hit_returns_containing_segment() {
    let mut chart = ProgressTrackerChart::new(ChartConfig::default());
    chart.set_data(vec![segment("big", 1, 3), segment("small", 1, 1)]).unwrap();
    let inner = chart.inner_radius();
    let outer = chart.outer_radius();
    let mid = (inner + outer) / 2;
    // 100 degrees clockwise from the top sits inside the first segment.
    let hit = chart.on_mouse_move(100_000, mid);
    assert!(hit.hit);
    assert_eq!(hit.element_id.as_deref(), Some("big"));
    assert_eq!(hit.element_type, "progress_segment");
    assert_eq!(chart.hovered_segment(), Some(0));
    // 300 degrees sits inside the second.
    let second = chart.on_mouse_move(300_000, mid);
    assert!(second.hit);
    assert_eq!(second.element_id.as_deref(), Some("small"));
    assert_eq!(chart.hovered_segment(), Some(1));
}

#[test]
fn radial_hit_outside_band_misses() {
    let mut chart = ProgressTrackerChart::new(ChartConfig::default());
    chart.set_data(vec![segment("only", 1, 1)]).unwrap();
    let outer = chart.outer_radius();
    let miss_far = chart.on_mouse_move(10_000, outer + 1);
    assert!(!miss_far.hit);
    assert_eq!(chart.hovered_segment(), None);
    let inner = chart.inner_radius();
    let miss_near = chart.on_mouse_move(10_000, inner - 1);
    assert!(!miss_near.hit);
}

#[test]
fn radial_boundary_angle_belongs_to_earlier_segment() {
    let mut chart = ProgressTrackerChart::new(ChartConfig::default());
    chart.set_data(vec![segment("big", 1, 3), segment("small", 1, 1)]).unwrap();
    let mid = (chart.inner_radius() + chart.outer_radius()) / 2;
    // The shared boundary at exactly 270 degrees resolves to the first
    // segment (its cumulative range is closed on the right).
    let hit = chart.on_mouse_move(270_000, mid);
    assert!(hit.hit);
    assert_eq!(hit.element_id.as_deref(), Some("big"));
}

#[test]
fn radial_center_value_formats_overall_share() {
    let mut chart = ProgressTrackerChart::new(ChartConfig::default());
    chart.set_data(vec![segment("a", 1, 4)]).unwrap();
    assert_eq!(chart.center_value(), "25.0%");
    // Two of three rounds up to one decimal.
    chart.set_data(vec![segment("a", 2, 3)]).unwrap();
    assert_eq!(chart.center_value(), "66.7%");
    chart.set_data(vec![segment("a", 0, 0)]).unwrap();
    assert_eq!(chart.center_value(), "N/A");
}

#[test]
fn radial_rejects_oversized_counts() {
    let mut chart = ProgressTrackerChart::new(ChartConfig::default());
    let err = chart.set_data(vec![segment("bad", 2_000_000_000, 1)]).unwrap_err();
    assert_eq!(err, DataError::RecordOutOfRange { index: 0 });
    assert_eq!(chart.segments().len(), 0);
}

#[test]
fn radial_animation_advances_and_scales() {
    let mut chart = ProgressTrackerChart::new(ChartConfig::default());
    chart.set_data(vec![segment("a", 1, 2)]).unwrap();
    assert_eq!(chart.animation_progress(), 0);
    assert!(chart.animate(100));
    assert_eq!(chart.animation_progress(), 200);
    assert!(!chart.animate(400));
    assert_eq!(chart.animation_progress(), 1000);
    assert_eq!(scaled_span(180_000, 500), 90_000);
}

#[test]
fn radial_stats_aggregate() {
    let mut chart = ProgressTrackerChart::new(ChartConfig::default());
    chart.set_data(vec![segment("a", 1, 3), segment("b", 1, 1)]).unwrap();
    chart.set_center_label("Reviews");
    let stats = chart.get_stats();
    assert_eq!(stats.total_completed, 2);
    assert_eq!(stats.total_items, 4);
    assert_eq!(stats.overall_pct_milli, 50_000);
    assert_eq!(stats.segment_count, 2);
    assert_eq!(chart.center_label(), "Reviews");
}

#[test]
fn radial_rejects_oversized_payload() {
    let mut chart = ProgressTrackerChart::new(ChartConfig::default());
    let many: Vec<ProgressSegment> =
        (0..10_001).map(|i| segment(&format!("s{}", i), 0, 1)).collect();
    let err = chart.set_data(many).unwrap_err();
    assert_eq!(err, DataError::TooManyRecords { count: 10_001 });
    assert_eq!(chart.segments().len(), 0);
}
