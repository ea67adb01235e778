//! Core state, layout and hit-testing engine for interactive analytical
//! charts: score histograms, radial progress rings, variance heatmaps,
//! submission timelines and force-directed assignment graphs.
//!
//! All geometry is carried in integer units (whole pixels for configuration,
//! thousandths of a pixel for simulation coordinates, thousandths of a degree
//! for angles), so every layout rule is an exact arithmetic statement.
//! Drawing itself is a caller concern; this crate only decides where things
//! go and what the pointer is over.

pub mod color;
pub mod common;
pub mod format;
pub mod network_graph;
pub mod progress_tracker;
pub mod score_distribution;
pub mod timeline;
pub mod variance_heatmap;
