use chartcore::color::interpolate_color;
use chartcore::common::{ChartConfig, ColorTheme, HitData, HitTestResult, Padding};
use chartcore::format::{format_number, i64_to_string, u64_to_string};

#[test]
fn format_plain_and_fractional() {
    assert_eq!(u64_to_string(0), "0");
    assert_eq!(u64_to_string(90125), "90125");
    assert_eq!(i64_to_string(-42), "-42");
    assert_eq!(format_number(12_500, 1), "12.5");
    assert_eq!(format_number(12_500, 0), "13");
    assert_eq!(format_number(-5_250, 2), "-5.25");
    assert_eq!(format_number(999, 3), "0.999");
}

#[test]
fn format_rounds_to_nearest() {
    assert_eq!(format_number(66_666, 1), "66.7");
    assert_eq!(format_number(66_640, 1), "66.6");
    assert_eq!(format_number(999_999, 0), "1000");
    assert_eq!(format_number(-1_234, 2), "-1.23");
    assert_eq!(format_number(-1_235, 2), "-1.24");
}

#[test]
fn format_collapses_thousands() {
    assert_eq!(format_number(1_234_000, 1), "1.2k");
    assert_eq!(format_number(1_550_000, 1), "1.6k");
    assert_eq!(format_number(1_999_950, 1), "2.0k");
    assert_eq!(format_number(-2_500_000, 0), "-2.5k");
}

#[test]
fn color_blend_midpoint() {
    assert_eq!(interpolate_color("#000000", "#ffffff", 500), "#7f7f7f");
    assert_eq!(interpolate_color("#000000", "#ffffff", 0), "#000000");
    assert_eq!(interpolate_color("#000000", "#ffffff", 1000), "#ffffff");
    assert_eq!(interpolate_color("#EF4444", "#10B981", 1000), "#10b981");
}

#[test]
fn color_blend_clamps_parameter_and_tolerates_junk() {
    assert_eq!(interpolate_color("#102030", "#405060", 2_000_000), "#405060");
    assert_eq!(interpolate_color("#102030", "#405060", -7), "#102030");
    // Unparsable channels read as zero.
    assert_eq!(interpolate_color("junk", "#ffffff", 1000), "#ffffff");
    assert_eq!(interpolate_color("", "#808080", 500), "#404040");
}

#[test]
fn hit_result_constructors() {
    let miss = HitTestResult::miss();
    assert!(!miss.hit);
    assert_eq!(miss.element_type, "none");
    assert!(miss.element_id.is_none());
    assert!(miss.data.is_none());
    let hit = HitTestResult::hit("cell-3", "heatmap_cell", HitData::new(Vec::new()));
    assert!(hit.hit);
    assert_eq!(hit.element_id.as_deref(), Some("cell-3"));
    assert_eq!(hit.element_type, "heatmap_cell");
    assert!(hit.data.is_some());
}

#[test]
fn config_defaults_and_plot_area() {
    let config = ChartConfig::default();
    assert!(config.is_valid());
    assert_eq!(config.width, 800);
    assert_eq!(config.height, 400);
    assert_eq!(config.plot_width(), 700);
    assert_eq!(config.plot_height(), 300);
    assert_eq!(config.theme.accent.len(), 8);
    assert_eq!(config.theme.primary, "#3B82F6");
    let tight = ChartConfig {
        width: 50,
        height: 50,
        padding: Padding { top: 40, right: 40, bottom: 60, left: 60 },
        theme: ColorTheme::default(),
        ..ChartConfig::default()
    };
    // Degenerate plot areas clamp to zero instead of going negative.
    assert_eq!(tight.plot_width(), 0);
    assert_eq!(tight.plot_height(), 0);
}
