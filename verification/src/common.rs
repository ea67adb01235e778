//! Shared configuration, numeric helpers and the hit-test result protocol.
//!
//! All lengths in the configuration are whole pixels.  Interaction handlers
//! and simulation code work in thousandths of a pixel ("milli-pixels") where
//! sub-pixel precision matters; each chart module states its units.

use vstd::prelude::*;

verus! {

// ---------------------------------------------------------------------------
// Integer helpers
// ---------------------------------------------------------------------------

/// Division rounded toward zero, the semantics of Rust's `/` on signed
/// integers.  Spec-level `/` is Euclidean, so contracts about executable
/// division on possibly-negative values go through this function.
pub open spec fn tdiv(a: int, b: int) -> int {
    if a >= 0 {
        a / b
    } else {
        -((-a) / b)
    }
}

pub open spec fn clamped(v: int, lo: int, hi: int) -> int {
    if v < lo {
        lo
    } else if v > hi {
        hi
    } else {
        v
    }
}

pub open spec fn min_int(a: int, b: int) -> int {
    if a < b {
        a
    } else {
        b
    }
}

pub open spec fn max_int(a: int, b: int) -> int {
    if a < b {
        b
    } else {
        a
    }
}

pub open spec fn abs_int(a: int) -> int {
    if a >= 0 {
        a
    } else {
        -a
    }
}

/// Interaction handlers accept pointer coordinates up to this magnitude
/// (in their unit of choice); larger values cannot arise from any real
/// pointing device and would overflow intermediate products.
pub const POINTER_LIMIT: i64 = 1_000_000_000;

/// Rejection reasons for malformed data handed to `set_data`.  A rejected
/// payload leaves the chart exactly as it was.
#[derive(Clone, Copy, PartialEq, Eq, Structural, Debug)]
pub enum DataError {
    /// A record at this index carries a value outside the supported
    /// magnitude bounds.
    RecordOutOfRange { index: usize },
    /// The payload holds more records than the engine supports.
    TooManyRecords { count: usize },
    /// An edge at this index carries a value outside the supported bounds.
    EdgeOutOfRange { index: usize },
    /// The payload holds more edges than the engine supports.
    TooManyEdges { count: usize },
}

pub fn clamp_i64(v: i64, lo: i64, hi: i64) -> (r: i64)
    requires
        lo <= hi,
    ensures
        r == clamped(v as int, lo as int, hi as int),
{
    if v < lo {
        lo
    } else if v > hi {
        hi
    } else {
        v
    }
}

// ---------------------------------------------------------------------------
// Opaque metadata payloads
// ---------------------------------------------------------------------------

/// Charts carry arbitrary descriptive data attached to nodes by the host
/// application.  The core never looks inside such a value; it only hands it
/// back in hit-test payloads.
#[verifier::external_type_specification]
#[verifier::external_body]
pub struct ExJsonValue(serde_json::Value);

/// Relies on serde_json::Value::clone: cloning yields an equal value.
#[verifier::external_body]
pub fn clone_json_value(v: &serde_json::Value) -> (r: serde_json::Value)
    ensures
        r == *v,
{
    v.clone()
}

// ---------------------------------------------------------------------------
// Configuration
// ---------------------------------------------------------------------------

/// Color theme for visualizations.  Colors are opaque configuration strings
/// in `#rrggbb` form; the ordered `accent` palette colors segments that carry
/// no explicit color of their own.
pub struct ColorTheme {
    pub primary: String,
    pub secondary: String,
    pub success: String,
    pub warning: String,
    pub danger: String,
    pub background: String,
    pub text: String,
    pub grid: String,
    pub accent: Vec<String>,
}

impl ColorTheme {
    /// A theme is usable as long as the accent palette is nonempty: segment
    /// colors are chosen by index modulo the palette length.
    pub open spec fn valid(&self) -> bool {
        self.accent@.len() >= 1
    }
}

impl Default for ColorTheme {
    fn default() -> (r: ColorTheme)
        ensures
            r.valid(),
            r.accent@.len() == 8,
            r.primary@ == "#3B82F6"@,
            r.secondary@ == "#6B7280"@,
            r.success@ == "#10B981"@,
            r.warning@ == "#F59E0B"@,
            r.danger@ == "#EF4444"@,
            r.background@ == "#FFFFFF"@,
            r.text@ == "#1F2937"@,
            r.grid@ == "#E5E7EB"@,
    {
        ColorTheme {
            primary: "#3B82F6".to_owned(),
            secondary: "#6B7280".to_owned(),
            success: "#10B981".to_owned(),
            warning: "#F59E0B".to_owned(),
            danger: "#EF4444".to_owned(),
            background: "#FFFFFF".to_owned(),
            text: "#1F2937".to_owned(),
            grid: "#E5E7EB".to_owned(),
            accent: vec![
                "#3B82F6".to_owned(),
                "#10B981".to_owned(),
                "#F59E0B".to_owned(),
                "#EF4444".to_owned(),
                "#8B5CF6".to_owned(),
                "#EC4899".to_owned(),
                "#06B6D4".to_owned(),
                "#84CC16".to_owned(),
            ],
        }
    }
}

/// Padding configuration, whole pixels.
pub struct Padding {
    pub top: u32,
    pub right: u32,
    pub bottom: u32,
    pub left: u32,
}

impl Padding {
    pub open spec fn valid(&self) -> bool {
        &&& self.top <= 100_000
        &&& self.right <= 100_000
        &&& self.bottom <= 100_000
        &&& self.left <= 100_000
    }
}

impl Default for Padding {
    fn default() -> (r: Padding)
        ensures
            r.valid(),
            r.top == 40 && r.right == 40 && r.bottom == 60 && r.left == 60,
    {
        Padding { top: 40, right: 40, bottom: 60, left: 60 }
    }
}

/// Common chart configuration.  Immutable per render pass; replaceable
/// wholesale between renders.
pub struct ChartConfig {
    pub width: u32,
    pub height: u32,
    pub padding: Padding,
    pub theme: ColorTheme,
    pub animate: bool,
    pub show_grid: bool,
    pub show_labels: bool,
    pub show_legend: bool,
    pub font_family: String,
    pub font_size: u32,
}

impl ChartConfig {
    /// Dimension bounds keep every layout product comfortably inside `i64`;
    /// a canvas cannot meaningfully exceed them anyway.
    pub open spec fn valid(&self) -> bool {
        &&& self.width <= 100_000
        &&& self.height <= 100_000
        &&& self.padding.valid()
        &&& self.theme.valid()
        &&& self.font_size <= 10_000
    }

    pub open spec fn spec_plot_width(&self) -> int {
        max_int(self.width - self.padding.left - self.padding.right, 0)
    }

    pub open spec fn spec_plot_height(&self) -> int {
        max_int(self.height - self.padding.top - self.padding.bottom, 0)
    }

    /// Usable horizontal plot extent: width minus the side paddings, floored
    /// at zero so that degenerate configurations stay renderable.
    pub fn plot_width(&self) -> (w: u32)
        requires
            self.valid(),
        ensures
            w == self.spec_plot_width(),
            w <= self.width,
    {
        let pad = self.padding.left + self.padding.right;
        if self.width > pad {
            self.width - pad
        } else {
            0
        }
    }

    /// Usable vertical plot extent, floored at zero.
    pub fn plot_height(&self) -> (h: u32)
        requires
            self.valid(),
        ensures
            h == self.spec_plot_height(),
            h <= self.height,
    {
        let pad = self.padding.top + self.padding.bottom;
        if self.height > pad {
            self.height - pad
        } else {
            0
        }
    }

    /// Executable mirror of `valid`, so unverified callers can check a
    /// configuration before constructing a chart.
    pub fn is_valid(&self) -> (b: bool)
        ensures
            b == self.valid(),
    {
        self.width <= 100_000 && self.height <= 100_000 && self.padding.top <= 100_000
            && self.padding.right <= 100_000 && self.padding.bottom <= 100_000
            && self.padding.left <= 100_000 && self.theme.accent.len() >= 1
            && self.font_size <= 10_000
    }
}

impl Default for ChartConfig {
    fn default() -> (r: ChartConfig)
        ensures
            r.valid(),
            r.width == 800 && r.height == 400,
            r.padding.top == 40 && r.padding.right == 40 && r.padding.bottom == 60
                && r.padding.left == 60,
            r.animate && r.show_grid && r.show_labels && r.show_legend,
            r.font_size == 12,
    {
        ChartConfig {
            width: 800,
            height: 400,
            padding: Padding::default(),
            theme: ColorTheme::default(),
            animate: true,
            show_grid: true,
            show_labels: true,
            show_legend: true,
            font_family: "Inter, system-ui, sans-serif".to_owned(),
            font_size: 12,
        }
    }
}

// ---------------------------------------------------------------------------
// Hit-test result protocol
// ---------------------------------------------------------------------------

/// One typed value in a hit payload.
pub enum FieldValue {
    Int(i64),
    Uint(u64),
    Text(String),
    Flag(bool),
    List(Vec<String>),
    Absent,
}

/// Descriptive payload of a hit: named fields for tooltip display plus the
/// element's opaque metadata, forwarded unchanged.
pub struct HitData {
    pub fields: Vec<(String, FieldValue)>,
    pub metadata: Option<serde_json::Value>,
}

impl HitData {
    pub fn new(fields: Vec<(String, FieldValue)>) -> (r: HitData)
        ensures
            r.fields == fields,
            r.metadata is None,
    {
        HitData { fields, metadata: None }
    }
}

/// Tooltip placement helper retained for presentation layers: a position in
/// whole pixels, a title and preformatted label/value lines.
pub struct TooltipData {
    pub x: i64,
    pub y: i64,
    pub title: String,
    pub values: Vec<(String, String)>,
}

/// Uniform outcome of every interactive query: either a miss, or the logical
/// element that was struck together with its descriptive payload.
pub struct HitTestResult {
    pub hit: bool,
    pub element_id: Option<String>,
    pub element_type: String,
    pub data: Option<HitData>,
}

impl HitTestResult {
    pub fn miss() -> (r: HitTestResult)
        ensures
            !r.hit,
            r.element_id is None,
            r.element_type@ == "none"@,
            r.data is None,
    {
        HitTestResult {
            hit: false,
            element_id: None,
            element_type: "none".to_owned(),
            data: None,
        }
    }

    pub fn hit(id: &str, element_type: &str, data: HitData) -> (r: HitTestResult)
        ensures
            r.hit,
            r.element_id matches Some(s) && s@ == id@,
            r.element_type@ == element_type@,
            r.data == Some(data),
    {
        HitTestResult {
            hit: true,
            element_id: Some(id.to_owned()),
            element_type: element_type.to_owned(),
            data: Some(data),
        }
    }
}

} // verus!
