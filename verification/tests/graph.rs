use chartcore::common::{ChartConfig, DataError};
use chartcore::network_graph::{NetworkEdge, NetworkGraphChart, NetworkNode, NodeType};

fn node(id: &str, kind: NodeType) -> NetworkNode {
    NetworkNode {
        id: id.to_string(),
        label: format!("label-{}", id),
        node_type: kind,
        size: None,
        color: None,
        metadata: None,
    }
}

fn edge(source: &str, target: &str) -> NetworkEdge {
    NetworkEdge {
        source: source.to_string(),
        target: target.to_string(),
        weight: None,
        color: None,
        status: None,
    }
}

#[test]
fn graph_seeding_is_deterministic() {
    let mut a = NetworkGraphChart::new(ChartConfig::default());
    let mut b = NetworkGraphChart::new(ChartConfig::default());
    let data = || {
        vec![
            node("n1", NodeType::Assessor),
            node("n2", NodeType::Application),
            node("n3", NodeType::Application),
        ]
    };
    a.set_data(data(), vec![edge("n1", "n2")]).unwrap();
    b.set_data(data(), vec![edge("n1", "n2")]).unwrap();
    for (na, nb) in a.nodes().iter().zip(b.nodes().iter()) {
        assert_eq!(na.x, nb.x);
        assert_eq!(na.y, nb.y);
    }
    // No two seeded nodes coincide here, and all velocities start at rest.
    assert!(a.nodes()[0].x != a.nodes()[1].x || a.nodes()[0].y != a.nodes()[1].y);
    assert!(a.nodes().iter().all(|n| n.vx == 0 && n.vy == 0));
    assert!(a.simulation_running());
}

#[test]
fn graph_single_node_converges_to_center() {
    let mut chart = NetworkGraphChart::new(ChartConfig::default());
    chart.set_data(vec![node("solo", NodeType::Application)], Vec::new()).unwrap();
    // Canvas center in milli-pixels.
    let cx = 800 * 500;
    let cy = 400 * 500;
    let before = {
        let n = &chart.nodes()[0];
        (n.x - cx).abs() + (n.y - cy).abs()
    };
    for _ in 0..600 {
        if !chart.step_simulation() {
            break;
        }
    }
    let dist = {
        let n = &chart.nodes()[0];
        (n.x - cx).abs() + (n.y - cy).abs()
    };
    // Converged from the seeding ring most of the way to the center: the
    // simulation halts at the first tick whose total movement falls under
    // the settle threshold, which in a damped swing can happen at a
    // turnaround a few dozen pixels out.
    assert!(before > 50_000);
    assert!(dist < before / 2);
    assert!(dist <= 40_000, "distance {} milli-pixels", dist);
}

#[test]
fn graph_two_connected_nodes_close_in() {
    let mut chart = NetworkGraphChart::new(ChartConfig::default());
    chart
        .set_data(
            vec![node("a", NodeType::Assessor), node("b", NodeType::Application)],
            vec![edge("a", "b")],
        )
        .unwrap();
    chart.set_physics(0, 50, 900);
    let gap = |c: &NetworkGraphChart| {
        let n0 = &c.nodes()[0];
        let n1 = &c.nodes()[1];
        (n1.x - n0.x).abs() + (n1.y - n0.y).abs()
    };
    for _ in 0..800 {
        if !chart.step_simulation() {
            break;
        }
    }
    // The spring pulled the pair to a separation where its force vanishes.
    assert!(gap(&chart) <= 8_000, "gap {} milli-pixels", gap(&chart));
}

#[test]
fn graph_zoom_and_inverse_restore_view() {
    let mut chart = NetworkGraphChart::new(ChartConfig::default());
    chart.on_zoom(100, 400_000, 200_000);
    assert_eq!(chart.zoom(), 900);
    chart.on_zoom(-100, 400_000, 200_000);
    // Back within a dozen milli-units of zoom and a few pixels of pan.
    assert_eq!(chart.zoom(), 990);
    assert_eq!(chart.pan(), (4_000, 2_000));
    assert!((chart.zoom() - 1000).abs() <= 13);
    assert!(chart.pan().0.abs() <= 5_000 && chart.pan().1.abs() <= 5_000);
}

#[test]
fn graph_pan_and_reset() {
    let mut chart = NetworkGraphChart::new(ChartConfig::default());
    chart.on_pan(1_500, -2_500);
    chart.on_pan(500, 500);
    assert_eq!(chart.pan(), (2_000, -2_000));
    chart.reset_view();
    assert_eq!(chart.pan(), (0, 0));
    assert_eq!(chart.zoom(), 1000);
    assert_eq!(chart.selected_nodes().len(), 0);
}

#[test]
fn graph_hover_returns_node_record_with_metadata() {
    let mut chart = NetworkGraphChart::new(ChartConfig::default());
    let mut tagged = node("n1", NodeType::Assessor);
    tagged.metadata = Some(serde_json::Value::String("payload".to_string()));
    chart.set_data(vec![tagged], vec![edge("n1", "n1")]).unwrap();
    let (x, y) = {
        let n = &chart.nodes()[0];
        (n.x, n.y)
    };
    let hit = chart.on_mouse_move(x, y);
    assert!(hit.hit);
    assert_eq!(hit.element_id.as_deref(), Some("n1"));
    assert_eq!(hit.element_type, "assessor");
    let data = hit.data.unwrap();
    assert_eq!(data.metadata, Some(serde_json::Value::String("payload".to_string())));
    assert_eq!(chart.hovered_node(), Some(0));
    let miss = chart.on_mouse_move(x + 900_000_000, y);
    assert!(!miss.hit);
    assert_eq!(chart.hovered_node(), None);
}

#[test]
fn graph_drag_moves_pinned_node() {
    let mut chart = NetworkGraphChart::new(ChartConfig::default());
    chart.set_data(vec![node("n1", NodeType::Application)], Vec::new()).unwrap();
    let (x, y) = {
        let n = &chart.nodes()[0];
        (n.x, n.y)
    };
    assert!(chart.on_mouse_down(x, y));
    assert_eq!(chart.dragging_node(), Some(0));
    assert!(chart.nodes()[0].fixed);
    let while_dragging = chart.on_mouse_move(123_000, 45_000);
    assert!(!while_dragging.hit);
    assert_eq!(chart.nodes()[0].x, 123_000);
    assert_eq!(chart.nodes()[0].y, 45_000);
    chart.on_mouse_up();
    assert_eq!(chart.dragging_node(), None);
    assert!(!chart.nodes()[0].fixed);
    assert!(!chart.on_mouse_down(x + 700_000_000, y));
}

#[test]
fn graph_click_selection_modes() {
    let mut chart = NetworkGraphChart::new(ChartConfig::default());
    chart
        .set_data(
            vec![node("n1", NodeType::Assessor), node("n2", NodeType::Application)],
            Vec::new(),
        )
        .unwrap();
    let pos = |c: &NetworkGraphChart, i: usize| (c.nodes()[i].x, c.nodes()[i].y);
    let (x0, y0) = pos(&chart, 0);
    let selected = chart.on_click(x0, y0, false);
    assert_eq!(selected, vec!["n1".to_string()]);
    let (x1, y1) = pos(&chart, 1);
    let multi = chart.on_click(x1, y1, true);
    assert_eq!(multi, vec!["n1".to_string(), "n2".to_string()]);
    let toggled = chart.on_click(x0, y0, true);
    assert_eq!(toggled, vec!["n2".to_string()]);
    let cleared = chart.on_click(x0 + 600_000_000, y0, false);
    assert!(cleared.is_empty());
}

#[test]
fn graph_rejects_bad_sizes_and_weights() {
    let mut chart = NetworkGraphChart::new(ChartConfig::default());
    let mut big = node("big", NodeType::Assessor);
    big.size = Some(200_000);
    let err = chart.set_data(vec![big], Vec::new()).unwrap_err();
    assert_eq!(err, DataError::RecordOutOfRange { index: 0 });
    let mut heavy = edge("a", "b");
    heavy.weight = Some(2_000_000);
    let err2 = chart.set_data(vec![node("a", NodeType::Assessor)], vec![heavy]).unwrap_err();
    assert_eq!(err2, DataError::EdgeOutOfRange { index: 0 });
    assert_eq!(chart.nodes().len(), 0);
}

#[test]
fn graph_unresolved_edges_are_skipped() {
    let mut chart = NetworkGraphChart::new(ChartConfig::default());
    chart
        .set_data(vec![node("a", NodeType::Assessor)], vec![edge("a", "ghost")])
        .unwrap();
    // The dangling edge exerts nothing; the tick still runs.
    assert!(chart.step_simulation());
    assert_eq!(chart.edges().len(), 1);
}

#[test]
fn graph_paused_simulation_does_not_move() {
    let mut chart = NetworkGraphChart::new(ChartConfig::default());
    chart.set_data(vec![node("a", NodeType::Assessor)], Vec::new()).unwrap();
    assert!(!chart.toggle_simulation());
    let before = (chart.nodes()[0].x, chart.nodes()[0].y);
    assert!(!chart.step_simulation());
    assert_eq!((chart.nodes()[0].x, chart.nodes()[0].y), before);
    assert!(chart.toggle_simulation());
}

#[test]
fn graph_stats_count_types() {
    let mut chart = NetworkGraphChart::new(ChartConfig::default());
    chart
        .set_data(
            vec![
                node("a", NodeType::Assessor),
                node("b", NodeType::Application),
                node("c", NodeType::Application),
            ],
            vec![edge("a", "b"), edge("a", "c")],
        )
        .unwrap();
    let stats = chart.get_stats();
    assert_eq!(stats.node_count, 3);
    assert_eq!(stats.edge_count, 2);
    assert_eq!(stats.assessor_count, 1);
    assert_eq!(stats.application_count, 2);
    assert_eq!(stats.selected_count, 0);
    assert_eq!(stats.zoom_milli, 1000);
    assert!(stats.simulation_running);
}

#[test]
fn graph_rejects_oversized_payloads() {
    let mut chart = NetworkGraphChart::new(ChartConfig::default());
    let many: Vec<chartcore::network_graph::NetworkNode> =
        (0..10_001).map(|i| node(&format!("n{}", i), NodeType::Application)).collect();
    let err = chart.set_data(many, Vec::new()).unwrap_err();
    assert_eq!(err, DataError::TooManyRecords { count: 10_001 });
    let many_edges: Vec<chartcore::network_graph::NetworkEdge> =
        (0..10_001).map(|i| edge(&format!("s{}", i), "t")).collect();
    let err2 = chart.set_data(vec![node("a", NodeType::Assessor)], many_edges).unwrap_err();
    assert_eq!(err2, DataError::TooManyEdges { count: 10_001 });
    assert_eq!(chart.nodes().len(), 0);
}

#[test]
fn graph_reseeding_continues_the_jitter_stream() {
    let mut chart = NetworkGraphChart::new(ChartConfig::default());
    let data = || vec![node("n1", NodeType::Application)];
    chart.set_data(data(), Vec::new()).unwrap();
    let first = (chart.nodes()[0].x, chart.nodes()[0].y);
    chart.set_data(data(), Vec::new()).unwrap();
    let second = (chart.nodes()[0].x, chart.nodes()[0].y);
    // The generator state advances across data loads, so the jitter of a
    // reload differs from the first placement.
    assert_ne!(first, second);
}
