use chartcore::common::{ChartConfig, DataError};
use chartcore::timeline::{TimelineChart, TimelineDataPoint, TimelineEvent};

fn point(ts: i64, count: u32, cumulative: u32) -> TimelineDataPoint {
    TimelineDataPoint { timestamp: ts, count, cumulative, label: None }
}

fn chart_with_points() -> TimelineChart {
    // Default config: plot x spans [60, 760), width 700.  With the range
    // [0, 700_000] a timestamp projects to 60 + ts / 1000.
    let mut chart = TimelineChart::new(ChartConfig::default());
    chart
        .set_data(vec![
            point(0, 3, 3),
            point(100_000, 5, 8),
            point(400_000, 5, 13),
            point(700_000, 2, 15),
        ])
        .unwrap();
    chart
}

#[test]
fn timeline_exact_pixel_returns_that_point() {
    let mut chart = chart_with_points();
    // The second point projects exactly to pixel 160.
    let hit = chart.on_mouse_move(160, 200);
    assert!(hit.hit);
    assert_eq!(hit.element_id.as_deref(), Some("point-1"));
    assert_eq!(hit.element_type, "timeline_point");
    assert_eq!(chart.hovered_point(), Some(1));
}

#[test]
fn timeline_far_pointer_misses() {
    let mut chart = chart_with_points();
    // Pixel 250 is 90 px from the nearest projection (160 and 460).
    let miss = chart.on_mouse_move(250, 200);
    assert!(!miss.hit);
    assert_eq!(chart.hovered_point(), None);
}

#[test]
fn timeline_tolerance_boundary() {
    let mut chart = chart_with_points();
    // 29 px away still hits; 30 px does not.
    assert!(chart.on_mouse_move(160 + 29, 200).hit);
    assert!(!chart.on_mouse_move(160 + 30, 200).hit);
}

#[test]
fn timeline_tie_breaks_to_first_minimum() {
    let mut chart = TimelineChart::new(ChartConfig::default());
    chart.set_data(vec![point(0, 1, 1), point(20_000, 1, 2), point(700_000, 1, 3)]).unwrap();
    // Pixels 60 and 80 are both 10 px from pixel 70: the earlier point wins.
    let hit = chart.on_mouse_move(70, 0);
    assert!(hit.hit);
    assert_eq!(hit.element_id.as_deref(), Some("point-0"));
}

#[test]
fn timeline_empty_payload_resets_derived_state() {
    let mut chart = chart_with_points();
    assert_eq!(chart.time_range(), (0, 700_000));
    chart.set_data(Vec::new()).unwrap();
    assert_eq!(chart.data().len(), 0);
    assert_eq!(chart.time_range(), (0, 0));
    let stats = chart.get_stats();
    assert_eq!(stats.peak_count, 0);
    assert_eq!(stats.peak_timestamp, None);
    assert_eq!(stats.total_submissions, 0);
}

#[test]
fn timeline_degenerate_span_misses() {
    let mut chart = TimelineChart::new(ChartConfig::default());
    chart.set_data(vec![point(5_000, 1, 1), point(5_000, 2, 3)]).unwrap();
    assert!(!chart.on_mouse_move(60, 100).hit);
    assert_eq!(chart.projected_x(5_000), None);
}

#[test]
fn timeline_projection_is_linear() {
    let chart = chart_with_points();
    assert_eq!(chart.projected_x(0), Some(60));
    assert_eq!(chart.projected_x(350_000), Some(410));
    assert_eq!(chart.projected_x(700_000), Some(760));
    assert_eq!(chart.time_range(), (0, 700_000));
}

#[test]
fn timeline_rejects_out_of_range_timestamp() {
    let mut chart = TimelineChart::new(ChartConfig::default());
    let err = chart.set_data(vec![point(20_000_000_000_000, 1, 1)]).unwrap_err();
    assert_eq!(err, DataError::RecordOutOfRange { index: 0 });
    assert_eq!(chart.data().len(), 0);
    let everr = chart
        .set_events(vec![TimelineEvent {
            timestamp: -20_000_000_000_000,
            label: "late".to_string(),
            event_type: "deadline".to_string(),
        }])
        .unwrap_err();
    assert_eq!(everr, DataError::RecordOutOfRange { index: 0 });
}

#[test]
fn timeline_events_and_toggles() {
    let mut chart = TimelineChart::new(ChartConfig::default());
    chart
        .set_events(vec![TimelineEvent {
            timestamp: 1_000,
            label: "open".to_string(),
            event_type: "open".to_string(),
        }])
        .unwrap();
    assert_eq!(chart.events().len(), 1);
    assert!(chart.show_cumulative());
    chart.set_show_cumulative(false);
    assert!(!chart.show_cumulative());
    chart.set_granularity("week");
}

#[test]
fn timeline_stats_pick_last_peak() {
    let mut chart = TimelineChart::new(ChartConfig::default());
    chart
        .set_data(vec![point(0, 5, 5), point(1_000, 2, 7), point(2_000, 5, 12)])
        .unwrap();
    let stats = chart.get_stats();
    assert_eq!(stats.total_submissions, 12);
    assert_eq!(stats.data_points, 3);
    assert_eq!(stats.peak_count, 5);
    // Among equal peaks the later one wins.
    assert_eq!(stats.peak_timestamp, Some(2_000));
    assert_eq!(stats.time_range_start, 0);
    assert_eq!(stats.time_range_end, 2_000);
}
