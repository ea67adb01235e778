use chartcore::common::{ChartConfig, DataError};
use chartcore::score_distribution::{ScoreDataPoint, ScoreDistributionChart};

fn point(id: &str, score: i64, max: i64) -> ScoreDataPoint {
    ScoreDataPoint {
        application_id: id.to_string(),
        reference: format!("ref-{}", id),
        score,
        max_score: max,
        assessor_count: 2,
        variance: Some(1500),
    }
}

#[test]
fn histogram_four_records_four_bins() {
    let mut chart = ScoreDistributionChart::new(ChartConfig::default());
    let data = vec![
        point("a", 10, 100),
        point("b", 30, 100),
        point("c", 55, 100),
        point("d", 95, 100),
    ];
    chart.set_data(data, 4).unwrap();
    let bins = chart.bins();
    assert_eq!(bins.len(), 4);
    for bin in bins.iter() {
        assert_eq!(bin.count, 1);
    }
    assert_eq!(bins[0].min, 0);
    assert_eq!(bins[0].max, 25_000);
    assert_eq!(bins[1].min, 25_000);
    assert_eq!(bins[1].max, 50_000);
    assert_eq!(bins[3].min, 75_000);
    assert_eq!(bins[3].max, 100_000);
    assert_eq!(bins[0].applications, vec!["a".to_string()]);
    assert_eq!(bins[3].applications, vec!["d".to_string()]);
    // Every record lands in exactly one bin.
    let total: u32 = bins.iter().map(|b| b.count).sum();
    assert_eq!(total, 4);
}

#[test]
fn histogram_counts_partition_records() {
    let mut chart = ScoreDistributionChart::new(ChartConfig::default());
    let mut data = Vec::new();
    for i in 0..97 {
        data.push(point(&format!("p{}", i), i, 97));
    }
    chart.set_data(data, 7).unwrap();
    let total: u32 = chart.bins().iter().map(|b| b.count).sum();
    assert_eq!(total, 97);
    assert_eq!(chart.get_stats().total_applications, 97);
}

#[test]
fn histogram_full_score_lands_in_last_bin() {
    let mut chart = ScoreDistributionChart::new(ChartConfig::default());
    chart.set_data(vec![point("full", 100, 100)], 4).unwrap();
    assert_eq!(chart.bins()[3].count, 1);
}

#[test]
fn histogram_zero_max_normalizes_to_zero() {
    let mut chart = ScoreDistributionChart::new(ChartConfig::default());
    chart.set_data(vec![point("z", 50, 0), point("n", -20, 100)], 5).unwrap();
    assert_eq!(chart.bins()[0].count, 2);
}

#[test]
fn histogram_empty_payload_clears() {
    let mut chart = ScoreDistributionChart::new(ChartConfig::default());
    chart.set_data(vec![point("a", 10, 100)], 4).unwrap();
    chart.set_data(Vec::new(), 4).unwrap();
    assert_eq!(chart.bins().len(), 0);
    assert_eq!(chart.get_stats().total_applications, 0);
    assert_eq!(chart.get_stats().max_bin_count, 0);
}

#[test]
fn histogram_rejects_out_of_range_record() {
    let mut chart = ScoreDistributionChart::new(ChartConfig::default());
    chart.set_data(vec![point("ok", 10, 100)], 4).unwrap();
    let bad = vec![point("ok2", 20, 100), point("bad", 2_000_000_000_000, 100)];
    let err = chart.set_data(bad, 4).unwrap_err();
    assert_eq!(err, DataError::RecordOutOfRange { index: 1 });
    // Prior state kept.
    assert_eq!(chart.get_stats().total_applications, 1);
}

#[test]
fn histogram_variance_average() {
    let mut chart = ScoreDistributionChart::new(ChartConfig::default());
    let mut a = point("a", 10, 100);
    a.variance = Some(2000);
    let mut b = point("b", 12, 100);
    b.variance = Some(5000);
    let mut c = point("c", 20, 100);
    c.variance = None;
    chart.set_data(vec![a, b, c], 2).unwrap();
    // All three land in the first bin: sum 7000 over 3 members.
    assert_eq!(chart.bins()[0].count, 3);
    assert_eq!(chart.bins()[0].sum_variance, 7000);
    assert_eq!(chart.bins()[0].avg_variance, 2333);
}

#[test]
fn histogram_hover_hits_first_bin() {
    let mut chart = ScoreDistributionChart::new(ChartConfig::default());
    chart
        .set_data(
            vec![point("a", 10, 100), point("b", 40, 100), point("c", 60, 100), point("d", 90, 100)],
            4,
        )
        .unwrap();
    // Default config: plot spans x in [60, 760), bins are 175 px wide.
    let hit = chart.on_mouse_move(100, 100);
    assert!(hit.hit);
    assert_eq!(hit.element_id.as_deref(), Some("bin-0"));
    assert_eq!(hit.element_type, "histogram_bin");
    assert_eq!(chart.hovered_bin(), Some(0));
    let third = chart.on_mouse_move(60 + 2 * 175 + 10, 100);
    assert!(third.hit);
    assert_eq!(third.element_id.as_deref(), Some("bin-2"));
}

#[test]
fn histogram_hover_outside_plot_misses() {
    let mut chart = ScoreDistributionChart::new(ChartConfig::default());
    chart.set_data(vec![point("a", 10, 100)], 4).unwrap();
    chart.on_mouse_move(100, 100);
    let miss = chart.on_mouse_move(10, 10);
    assert!(!miss.hit);
    assert_eq!(miss.element_type, "none");
    assert_eq!(chart.hovered_bin(), None);
}

#[test]
fn histogram_stats_track_maximum() {
    let mut chart = ScoreDistributionChart::new(ChartConfig::default());
    chart
        .set_data(vec![point("a", 5, 100), point("b", 7, 100), point("c", 80, 100)], 4)
        .unwrap();
    let stats = chart.get_stats();
    assert_eq!(stats.bin_count, 4);
    assert_eq!(stats.max_bin_count, 2);
    assert_eq!(stats.total_applications, 3);
}
