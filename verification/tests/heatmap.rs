use chartcore::common::{ChartConfig, DataError};
use chartcore::variance_heatmap::{VarianceDataPoint, VarianceHeatmapChart};

fn row(id: &str, scores: Vec<i64>, variance: i64, flagged: bool) -> VarianceDataPoint {
    VarianceDataPoint {
        application_id: id.to_string(),
        reference: format!("ref-{}", id),
        assessor_names: vec!["Ada".to_string(), "Ben".to_string()],
        scores,
        variance,
        mean: 70_000,
        flagged,
    }
}

fn thirty_rows() -> Vec<VarianceDataPoint> {
    (0..30).map(|i| row(&format!("r{}", i), vec![60, 70, 80], 5_000, false)).collect()
}

#[test]
fn heatmap_scroll_clamps_into_range() {
    let mut chart = VarianceHeatmapChart::new(ChartConfig::default());
    chart.set_data(thirty_rows()).unwrap();
    // Default config: plot height 300, 20 visible rows, 15 px per row;
    // ten hidden rows make 150 px of scroll headroom.
    chart.on_scroll(1_000_000);
    assert_eq!(chart.scroll_offset(), 150);
    chart.on_scroll(-5_000_000);
    assert_eq!(chart.scroll_offset(), 0);
    chart.on_scroll(40);
    assert_eq!(chart.scroll_offset(), 40);
    chart.on_scroll(-100);
    assert_eq!(chart.scroll_offset(), 0);
}

#[test]
fn heatmap_scroll_on_empty_stays_zero() {
    let mut chart = VarianceHeatmapChart::new(ChartConfig::default());
    chart.on_scroll(500);
    assert_eq!(chart.scroll_offset(), 0);
}

#[test]
fn heatmap_cell_layout_is_row_major() {
    let mut chart = VarianceHeatmapChart::new(ChartConfig::default());
    chart.set_data(thirty_rows()).unwrap();
    let cells = chart.cell_positions();
    // A window of 21 rows by 3 columns.
    assert_eq!(cells.len(), 21 * 3);
    // Plot width 700 px, 100 px gutter, 3 columns of 200 px; rows 15 px.
    assert_eq!(cells[0].row, 0);
    assert_eq!(cells[0].col, 0);
    assert_eq!(cells[0].x, 160);
    assert_eq!(cells[0].y, 40);
    assert_eq!(cells[0].width, 200);
    assert_eq!(cells[0].height, 15);
    assert_eq!(cells[4].row, 1);
    assert_eq!(cells[4].col, 1);
    assert_eq!(cells[4].x, 360);
    assert_eq!(cells[4].y, 55);
}

#[test]
fn heatmap_scrolled_window_starts_deeper() {
    let mut chart = VarianceHeatmapChart::new(ChartConfig::default());
    chart.set_data(thirty_rows()).unwrap();
    chart.on_scroll(45);
    let cells = chart.cell_positions();
    assert_eq!(cells[0].row, 3);
    assert_eq!(cells[0].y, 40);
}

#[test]
fn heatmap_hover_hits_first_containing_cell() {
    let mut chart = VarianceHeatmapChart::new(ChartConfig::default());
    chart.set_data(thirty_rows()).unwrap();
    let hit = chart.on_mouse_move(170, 45);
    assert!(hit.hit);
    assert_eq!(hit.element_id.as_deref(), Some("r0-0"));
    assert_eq!(hit.element_type, "heatmap_cell");
    assert_eq!(chart.hovered_cell(), Some((0, 0)));
    let deeper = chart.on_mouse_move(380, 58);
    assert!(deeper.hit);
    assert_eq!(deeper.element_id.as_deref(), Some("r1-1"));
    let miss = chart.on_mouse_move(10, 10);
    assert!(!miss.hit);
    assert_eq!(chart.hovered_cell(), None);
}

#[test]
fn heatmap_get_flagged_filters_by_threshold() {
    let mut chart = VarianceHeatmapChart::new(ChartConfig::default());
    chart
        .set_data(vec![
            row("calm", vec![70, 70], 2_000, false),
            row("wild", vec![10, 95], 50_000, true),
            row("edge", vec![50, 60], 10_000, false),
        ])
        .unwrap();
    // Default threshold of 10_000 is strict: only values above it flag.
    let report = chart.get_flagged();
    assert_eq!(report.len(), 1);
    assert_eq!(report[0].application_id, "wild");
    assert_eq!(report[0].variance, 50_000);
    assert_eq!(report[0].scores, vec![10, 95]);
    chart.set_variance_threshold(1_000);
    assert_eq!(chart.get_flagged().len(), 3);
}

#[test]
fn heatmap_rejects_out_of_range_rows() {
    let mut chart = VarianceHeatmapChart::new(ChartConfig::default());
    let err = chart
        .set_data(vec![row("ok", vec![50], 1_000, false), row("bad", vec![2_000_000_000], 0, false)])
        .unwrap_err();
    assert_eq!(err, DataError::RecordOutOfRange { index: 1 });
    assert_eq!(chart.data().len(), 0);
}

#[test]
fn heatmap_stats_aggregate() {
    let mut chart = VarianceHeatmapChart::new(ChartConfig::default());
    chart
        .set_data(vec![
            row("a", vec![70, 70], 2_000, false),
            row("b", vec![10, 95, 55], 50_000, true),
        ])
        .unwrap();
    let stats = chart.get_stats();
    assert_eq!(stats.total_applications, 2);
    assert_eq!(stats.flagged_count, 1);
    assert_eq!(stats.flagged_pct_milli, 50_000);
    assert_eq!(stats.average_variance, 26_000);
    assert_eq!(stats.variance_threshold, 10_000);
    assert_eq!(stats.max_assessors, 3);
}

#[test]
fn heatmap_short_rows_read_as_missing_cells() {
    let mut chart = VarianceHeatmapChart::new(ChartConfig::default());
    chart
        .set_data(vec![row("wide", vec![10, 20, 30], 1_000, false), row("short", vec![40], 1_000, false)])
        .unwrap();
    assert_eq!(chart.max_assessors(), 3);
    // Hover the second row's missing third column: still a hit on the
    // cell, with no score in the payload.
    let cells = chart.cell_positions();
    let target = cells.iter().find(|c| c.row == 1 && c.col == 2).unwrap();
    let (x, y) = (target.x + 1, target.y + 1);
    let hit = chart.on_mouse_move(x, y);
    assert!(hit.hit);
    assert_eq!(hit.element_id.as_deref(), Some("short-2"));
}
