//! Force-directed assignment graph: N-body physics placing nodes from an
//! edge list, a pan/zoom viewport transform, and node hit-testing.
//!
//! Simulation coordinates, pan offsets and pointer positions are in
//! milli-pixels; the zoom factor is in milli-units (1000 is unit zoom).
//! All updates are exact integer arithmetic, so every tick is a function
//! of the previous state alone and layouts are reproducible.

use vstd::prelude::*;
use crate::common::{
    ChartConfig, DataError, FieldValue, HitData, HitTestResult, POINTER_LIMIT, abs_int, clamped,
    clamp_i64, clone_json_value, min_int, max_int, tdiv,
};
use vstd::arithmetic::div_mod::{
    lemma_div_is_ordered, lemma_div_multiples_vanish, lemma_div_nonincreasing,
    lemma_div_pos_is_pos,
};

verus! {

/// Positions are clamped into this magnitude (milli-pixels).
pub const POS_LIMIT: i64 = 1_000_000_000;

/// Velocity components are clamped into this magnitude before the speed
/// limit applies (milli-pixels per tick).
pub const VEL_LIMIT: i64 = 1_000_000;

/// Maximum node speed per tick, milli-pixels.
pub const MAX_SPEED: i64 = 10_000;

/// Aggregate movement below which the simulation settles, milli-pixels.
pub const SETTLE_THRESHOLD: i64 = 500;

/// Net force accumulators are clamped into this magnitude per axis.
pub const FORCE_LIMIT: i64 = 1_000_000_000_000_000;

/// Pan offsets are clamped into this magnitude, milli-pixels.
pub const PAN_LIMIT: i64 = 1_000_000_000_000;

pub const MAX_NODES: usize = 10_000;

pub const MAX_EDGES: usize = 10_000;

/// Node sizes in whole pixels are bounded by this.
pub const NODE_SIZE_LIMIT: i64 = 100_000;

/// Edge weights in milli-units are bounded by this magnitude.
pub const WEIGHT_LIMIT: i64 = 1_000_000;

/// Repulsion strength bound (pixel units, as configured).
pub const REPULSION_LIMIT: i64 = 10_000_000;

/// Attraction strength bound (milli-units).
pub const ATTRACTION_LIMIT: i64 = 1_000_000;

/// Node types in the network.
#[derive(Clone, Copy, PartialEq, Eq, Structural, Debug)]
pub enum NodeType {
    Assessor,
    Application,
}

/// Network node as supplied by the host.
pub struct NetworkNode {
    pub id: String,
    pub label: String,
    pub node_type: NodeType,
    /// Radius in whole pixels; a type-dependent default applies when absent.
    pub size: Option<i64>,
    pub color: Option<String>,
    /// Opaque descriptive payload, forwarded unchanged in hit results.
    pub metadata: Option<serde_json::Value>,
}

impl NetworkNode {
    pub open spec fn in_range(&self) -> bool {
        self.size matches Some(s) ==> 0 <= s <= NODE_SIZE_LIMIT
    }
}

/// Network edge (assignment link) between node identifiers.
pub struct NetworkEdge {
    pub source: String,
    pub target: String,
    /// Spring weight in milli-units; one thousand when absent.
    pub weight: Option<i64>,
    pub color: Option<String>,
    pub status: Option<String>,
}

impl NetworkEdge {
    pub open spec fn in_range(&self) -> bool {
        self.weight matches Some(w) ==> -WEIGHT_LIMIT <= w <= WEIGHT_LIMIT
    }
}

/// Internal node with physics state, milli-pixel coordinates.
pub struct PhysicsNode {
    pub id: String,
    pub label: String,
    pub node_type: NodeType,
    pub x: i64,
    pub y: i64,
    pub vx: i64,
    pub vy: i64,
    /// Radius in milli-pixels.
    pub size: i64,
    pub color: String,
    pub fixed: bool,
    pub metadata: Option<serde_json::Value>,
}

impl PhysicsNode {
    pub open spec fn in_range(&self) -> bool {
        &&& -POS_LIMIT <= self.x <= POS_LIMIT
        &&& -POS_LIMIT <= self.y <= POS_LIMIT
        &&& -VEL_LIMIT <= self.vx <= VEL_LIMIT
        &&& -VEL_LIMIT <= self.vy <= VEL_LIMIT
        &&& 0 <= self.size <= NODE_SIZE_LIMIT * 1000
    }
}

// ---------------------------------------------------------------------------
// Deterministic pseudo-random jitter
// ---------------------------------------------------------------------------

/// One step of the linear congruential generator seeding initial layout
/// jitter; the multiplier is a standard 64-bit LCG constant.
#[verifier::opaque]
pub open spec fn lcg_next(s: u64) -> u64 {
    ((((s as int) * 6364136223846793005) % 0x10000000000000000 + 1) % 0x10000000000000000) as u64
}

/// Jitter drawn from a generator state: high bits folded into
/// `[-25_000, 25_000)` milli-pixels.
#[verifier::opaque]
pub open spec fn jitter_of(s: u64) -> int {
    (s as int / 0x200000000) % 50_000 - 25_000
}

/// The generator state after `k` steps.
pub open spec fn seed_at(s0: u64, k: int) -> u64
    decreases k,
{
    if k <= 0 {
        s0
    } else {
        lcg_next(seed_at(s0, k - 1))
    }
}

fn lcg_step(s: u64) -> (r: u64)
    ensures
        r == lcg_next(s),
{
    proof {
        reveal(lcg_next);
    }
    s.wrapping_mul(6364136223846793005).wrapping_add(1)
}

fn jitter_from(s: u64) -> (j: i64)
    ensures
        j as int == jitter_of(s),
        -25_000 <= j < 25_000,
{
    proof {
        reveal(jitter_of);
    }
    ((s / 0x200000000) % 50_000) as i64 - 25_000
}

// ---------------------------------------------------------------------------
// Integer square root and ring trigonometry
// ---------------------------------------------------------------------------

/// The floor of the square root of a nonnegative integer.
pub open spec fn sqrt_floor(n: int) -> int {
    choose|r: int| r >= 0 && #[trigger] (r * r) <= n && n < (r + 1) * (r + 1)
}

pub proof fn lemma_sqrt_unique(n: int, a: int, b: int)
    requires
        a >= 0,
        b >= 0,
        a * a <= n < (a + 1) * (a + 1),
        b * b <= n < (b + 1) * (b + 1),
    ensures
        a == b,
{
    if a < b {
        assert((a + 1) * (a + 1) <= b * b) by (nonlinear_arith)
            requires
                0 <= a && a + 1 <= b,
        ;
    }
    if b < a {
        assert((b + 1) * (b + 1) <= a * a) by (nonlinear_arith)
            requires
                0 <= b && b + 1 <= a,
        ;
    }
}

/// Binary-search integer square root.
pub fn isqrt64(n: u64) -> (r: u64)
    requires
        n <= 9_200_000_000_000_000_000,
    ensures
        r * r <= n,
        n < (r + 1) * (r + 1),
        r as int == sqrt_floor(n as int),
        r <= 3_100_000_000,
{
    let mut lo: u64 = 0;
    let mut hi: u64 = 3_100_000_000;
    proof {
        assert(3_100_000_000int * 3_100_000_000 > 9_200_000_000_000_000_000int);
    }
    while lo + 1 < hi
        invariant
            n <= 9_200_000_000_000_000_000,
            lo < hi <= 3_100_000_000,
            lo * lo <= n,
            n < hi * hi,
        decreases hi - lo,
    {
        let mid = lo + (hi - lo) / 2;
        proof {
            assert(mid as int * mid as int <= 9_610_000_000_000_000_000int) by (nonlinear_arith)
                requires
                    0 <= mid as int <= 3_100_000_000,
            ;
        }
        if mid * mid <= n {
            lo = mid;
        } else {
            hi = mid;
        }
    }
    proof {
        let l = lo as int;
        let nn = n as int;
        let w = sqrt_floor(nn);
        assert(l * l <= nn);
        assert(nn < (l + 1) * (l + 1));
        assert(exists|r: int| r >= 0 && #[trigger] (r * r) <= nn && nn < (r + 1) * (r + 1)) by {
            assert(l >= 0 && (l * l) <= nn && nn < (l + 1) * (l + 1));
        }
        assert(w >= 0 && w * w <= nn && nn < (w + 1) * (w + 1));
        lemma_sqrt_unique(nn, l, w);
    }
    lo
}

/// Approximate sine scaled by a thousand, over milli-degrees in
/// `[0, 360_000)`: a rational approximation on the first half-turn,
/// mirrored on the second.  Used only to spread nodes around the seeding
/// rings; its defining property is this exact formula and the `[-1000,
/// 1000]` range.
pub open spec fn sin_milli(theta: int) -> int {
    if theta < 180_000 {
        let u = theta * (180_000 - theta);
        4000 * u / (40_500_000_000 - u)
    } else {
        let u = (theta - 180_000) * (360_000 - theta);
        -(4000 * u / (40_500_000_000 - u))
    }
}

/// Approximate cosine scaled by a thousand: the sine a quarter turn ahead.
pub open spec fn cos_milli(theta: int) -> int {
    sin_milli((theta + 90_000) % 360_000)
}

proof fn lemma_half_turn_product_bounds(theta: int)
    requires
        0 <= theta <= 180_000,
    ensures
        0 <= theta * (180_000 - theta) <= 8_100_000_000,
{
    assert(0 <= theta * (180_000 - theta) <= 8_100_000_000) by (nonlinear_arith)
        requires
            0 <= theta <= 180_000,
    ;
}

pub proof fn lemma_sin_milli_bounds(theta: int)
    requires
        0 <= theta < 360_000,
    ensures
        -1000 <= sin_milli(theta) <= 1000,
{
    if theta < 180_000 {
        lemma_half_turn_product_bounds(theta);
        let u = theta * (180_000 - theta);
        lemma_div_pos_is_pos(4000 * u, 40_500_000_000 - u);
        lemma_div_is_ordered(4000 * u, 1000 * (40_500_000_000 - u), 40_500_000_000 - u);
        lemma_div_multiples_vanish(1000, 40_500_000_000 - u);
    } else {
        lemma_half_turn_product_bounds(theta - 180_000);
        assert((theta - 180_000) * (360_000 - theta) == (theta - 180_000) * (180_000 - (theta
            - 180_000))) by (nonlinear_arith);
        let u = (theta - 180_000) * (360_000 - theta);
        lemma_div_pos_is_pos(4000 * u, 40_500_000_000 - u);
        lemma_div_is_ordered(4000 * u, 1000 * (40_500_000_000 - u), 40_500_000_000 - u);
        lemma_div_multiples_vanish(1000, 40_500_000_000 - u);
    }
}

/// Executable sine, exactly the spec formula.
pub fn sin_milli_exec(theta: i64) -> (r: i64)
    requires
        0 <= theta < 360_000,
    ensures
        r as int == sin_milli(theta as int),
        -1000 <= r <= 1000,
{
    proof {
        lemma_sin_milli_bounds(theta as int);
    }
    if theta < 180_000 {
        proof {
            lemma_half_turn_product_bounds(theta as int);
        }
        let u = theta * (180_000 - theta);
        (4000 * u) / (40_500_000_000 - u)
    } else {
        proof {
            lemma_half_turn_product_bounds(theta as int - 180_000);
            assert((theta as int - 180_000) * (360_000 - theta as int) == (theta as int - 180_000)
                * (180_000 - (theta as int - 180_000))) by (nonlinear_arith);
        }
        let u = (theta - 180_000) * (360_000 - theta);
        -((4000 * u) / (40_500_000_000 - u))
    }
}

pub fn cos_milli_exec(theta: i64) -> (r: i64)
    requires
        0 <= theta < 360_000,
    ensures
        r as int == cos_milli(theta as int),
        -1000 <= r <= 1000,
{
    let shifted = (theta + 90_000) % 360_000;
    sin_milli_exec(shifted)
}

// ---------------------------------------------------------------------------
// Layout seeding
// ---------------------------------------------------------------------------

/// The seeding ring radius in milli-pixels: a third of the smaller canvas
/// side, at least a hundred pixels.
pub open spec fn spec_ring_radius(cfg: ChartConfig) -> int {
    max_int(min_int(cfg.width as int, cfg.height as int) * 1000 / 3, 100_000)
}

/// Where a node is seeded: on a type-dependent ring around the canvas
/// center at an angle even in the input order, plus deterministic jitter
/// (two generator draws per node, horizontal then vertical).
#[verifier::opaque]
pub open spec fn place_node(
    input: NetworkNode,
    i: int,
    n: int,
    cfg: ChartConfig,
    s_prev: u64,
) -> PhysicsNode {
    let angle = i * 360_000 / n;
    let ring = spec_ring_radius(cfg);
    let r = if input.node_type == NodeType::Assessor {
        ring * 2 / 5
    } else {
        ring * 9 / 10
    };
    let s1 = lcg_next(s_prev);
    let s2 = lcg_next(s1);
    PhysicsNode {
        id: input.id,
        label: input.label,
        node_type: input.node_type,
        x: (cfg.width as int * 500 + tdiv(r * cos_milli(angle), 1000) + jitter_of(s1)) as i64,
        y: (cfg.height as int * 500 + tdiv(r * sin_milli(angle), 1000) + jitter_of(s2)) as i64,
        vx: 0i64,
        vy: 0i64,
        size: ((match input.size {
            Some(s) => s,
            None => if input.node_type == NodeType::Assessor {
                20i64
            } else {
                12i64
            },
        }) * 1000) as i64,
        color: (match input.color {
            Some(c) => c,
            None => if input.node_type == NodeType::Assessor {
                cfg.theme.primary
            } else {
                cfg.theme.secondary
            },
        }),
        fixed: false,
        metadata: input.metadata,
    }
}

// ---------------------------------------------------------------------------
// Hit-testing and selection
// ---------------------------------------------------------------------------

/// Whether the simulation-space point strikes the node: within one and a
/// half node radii of its center.
pub open spec fn node_hit(n: PhysicsNode, tx: int, ty: int) -> bool {
    let dx = tx - n.x;
    let dy = ty - n.y;
    let r = n.size * 3 / 2;
    &&& -200_000_000 <= dx <= 200_000_000
    &&& -200_000_000 <= dy <= 200_000_000
    &&& dx * dx + dy * dy < r * r
}

/// Index of the first node struck by the point, scanning from `i`; the
/// node count if none is (first match by iteration order, an explicit
/// tie-break policy, not nearest).
pub open spec fn first_node_hit(nodes: Seq<PhysicsNode>, tx: int, ty: int, i: int) -> int
    decreases nodes.len() - i,
{
    if i < 0 || i >= nodes.len() {
        nodes.len() as int
    } else if node_hit(nodes[i], tx, ty) {
        i
    } else {
        first_node_hit(nodes, tx, ty, i + 1)
    }
}

/// How many edges touch the node identifier.
pub open spec fn connection_count(edges: Seq<NetworkEdge>, id: Seq<char>, n: int) -> int
    decreases n,
{
    if n <= 0 {
        0
    } else {
        connection_count(edges, id, n - 1) + if edges[n - 1].source@ == id || edges[n - 1].target@
            == id {
            1int
        } else {
            0int
        }
    }
}

/// First position of a value in an index list; the list length if absent.
pub open spec fn find_pos(s: Seq<usize>, v: usize, i: int) -> int
    decreases s.len() - i,
{
    if i < 0 || i >= s.len() {
        s.len() as int
    } else if s[i] == v {
        i
    } else {
        find_pos(s, v, i + 1)
    }
}

/// How many of the first `n` nodes are assessors.
pub open spec fn assessor_count_of(nodes: Seq<PhysicsNode>, n: int) -> int
    decreases n,
{
    if n <= 0 {
        0
    } else {
        assessor_count_of(nodes, n - 1) + if nodes[n - 1].node_type == NodeType::Assessor {
            1int
        } else {
            0int
        }
    }
}

// ---------------------------------------------------------------------------
// Physics
// ---------------------------------------------------------------------------

/// Inverse-square repulsion exerted on node `a` by node `b`: strength over
/// the squared distance (floored at one pixel to avoid the singularity),
/// directed from `b` to `a`.
pub open spec fn rep_force(a: PhysicsNode, b: PhysicsNode, s: int) -> (int, int) {
    let dx = b.x - a.x;
    let dy = b.y - a.y;
    let dist_sq = dx * dx + dy * dy;
    let dsq = max_int(dist_sq, 1_000_000);
    let f = s * 1_000_000_000 / dsq;
    let d = max_int(sqrt_floor(dist_sq), 1000);
    let qx = tdiv(dx * 1000, d);
    let qy = tdiv(dy * 1000, d);
    (-tdiv(f * qx, 1000), -tdiv(f * qy, 1000))
}

/// Spring attraction exerted on edge source `a` toward target `b`:
/// proportional to the separation, the attraction strength and the edge
/// weight (both in milli-units).  The target receives the negation.
pub open spec fn att_force(a: PhysicsNode, b: PhysicsNode, w: int, att: int) -> (int, int) {
    let dx = b.x - a.x;
    let dy = b.y - a.y;
    (tdiv(tdiv(dx * att, 1000) * w, 1000), tdiv(tdiv(dy * att, 1000) * w, 1000))
}

/// Center gravity on a node: a milli-scaled pull toward the canvas center.
pub open spec fn grav_force(n: PhysicsNode, g: int, cx: int, cy: int) -> (int, int) {
    (tdiv((cx - n.x) * g, 1000), tdiv((cy - n.y) * g, 1000))
}

/// First node whose identifier matches, scanning from `i`; the node count
/// if none does.
pub open spec fn find_by_id(nodes: Seq<PhysicsNode>, id: Seq<char>, i: int) -> int
    decreases nodes.len() - i,
{
    if i < 0 || i >= nodes.len() {
        nodes.len() as int
    } else if nodes[i].id@ == id {
        i
    } else {
        find_by_id(nodes, id, i + 1)
    }
}

/// The node indices an edge connects, if both its identifiers resolve.
pub open spec fn edge_endpoints(nodes: Seq<PhysicsNode>, e: NetworkEdge) -> Option<(int, int)> {
    let s = find_by_id(nodes, e.source@, 0);
    let t = find_by_id(nodes, e.target@, 0);
    if s < nodes.len() && t < nodes.len() {
        Some((s, t))
    } else {
        None
    }
}

pub open spec fn edge_weight(e: NetworkEdge) -> int {
    match e.weight {
        Some(w) => w as int,
        None => 1000,
    }
}

/// Clamped force accumulation, one axis.
pub open spec fn facc(acc: int, f: int) -> int {
    clamped(acc + f, -FORCE_LIMIT as int, FORCE_LIMIT as int)
}

/// Repulsion accumulated on node `i` from the first `p` nodes (skipping
/// itself), each addition clamped into the force range.
pub open spec fn rep_acc(nodes: Seq<PhysicsNode>, i: int, p: int, s: int) -> (int, int)
    decreases p,
{
    if p <= 0 {
        (0int, 0int)
    } else {
        let prev = rep_acc(nodes, i, p - 1, s);
        if p - 1 == i {
            prev
        } else {
            let f = rep_force(nodes[i], nodes[p - 1], s);
            (facc(prev.0, f.0), facc(prev.1, f.1))
        }
    }
}

/// Attraction accumulated on node `i` from the first `k` edges, starting
/// from `init`: the source end is pulled toward the target, the target end
/// the opposite way; an edge with an unresolved endpoint is skipped.
pub open spec fn att_acc(
    nodes: Seq<PhysicsNode>,
    edges: Seq<NetworkEdge>,
    i: int,
    k: int,
    att: int,
    init: (int, int),
) -> (int, int)
    decreases k,
{
    if k <= 0 {
        init
    } else {
        let prev = att_acc(nodes, edges, i, k - 1, att, init);
        match edge_endpoints(nodes, edges[k - 1]) {
            Some(st) => {
                let f = att_force(nodes[st.0], nodes[st.1], edge_weight(edges[k - 1]), att);
                let mid = if st.0 == i {
                    (facc(prev.0, f.0), facc(prev.1, f.1))
                } else {
                    prev
                };
                if st.1 == i {
                    (facc(mid.0, -f.0), facc(mid.1, -f.1))
                } else {
                    mid
                }
            },
            None => prev,
        }
    }
}

/// Velocity integration of one node under a net force: damped velocity,
/// per-axis velocity clamp, speed limit, then a clamped position step.
pub open spec fn integrate(n: PhysicsNode, fx: int, fy: int, damping: int) -> PhysicsNode {
    let vx1 = clamped(tdiv((n.vx + fx) * damping, 1000), -VEL_LIMIT as int, VEL_LIMIT as int);
    let vy1 = clamped(tdiv((n.vy + fy) * damping, 1000), -VEL_LIMIT as int, VEL_LIMIT as int);
    let speed = sqrt_floor(vx1 * vx1 + vy1 * vy1);
    let vx2 = if speed > MAX_SPEED as int {
        tdiv(vx1 * MAX_SPEED, speed)
    } else {
        vx1
    };
    let vy2 = if speed > MAX_SPEED as int {
        tdiv(vy1 * MAX_SPEED, speed)
    } else {
        vy1
    };
    PhysicsNode {
        x: clamped(n.x + vx2, -POS_LIMIT as int, POS_LIMIT as int) as i64,
        y: clamped(n.y + vy2, -POS_LIMIT as int, POS_LIMIT as int) as i64,
        vx: vx2 as i64,
        vy: vy2 as i64,
        ..n
    }
}

/// The movement a node contributes to the settle check: its damped,
/// clamped speed before the speed limit applies.
pub open spec fn tick_speed(n: PhysicsNode, fx: int, fy: int, damping: int) -> int {
    let vx1 = clamped(tdiv((n.vx + fx) * damping, 1000), -VEL_LIMIT as int, VEL_LIMIT as int);
    let vy1 = clamped(tdiv((n.vy + fy) * damping, 1000), -VEL_LIMIT as int, VEL_LIMIT as int);
    sqrt_floor(vx1 * vx1 + vy1 * vy1)
}

/// The net force on node `i`: repulsion from every other node, attraction
/// along every resolved edge, then center gravity, all accumulated with
/// clamping in that order.
pub open spec fn net_force(
    nodes: Seq<PhysicsNode>,
    edges: Seq<NetworkEdge>,
    i: int,
    s: int,
    att: int,
    g: int,
    cx: int,
    cy: int,
) -> (int, int) {
    let r = rep_acc(nodes, i, nodes.len() as int, s);
    let a = att_acc(nodes, edges, i, edges.len() as int, att, r);
    let gf = grav_force(nodes[i], g, cx, cy);
    (facc(a.0, gf.0), facc(a.1, gf.1))
}

/// Read-only aggregate snapshot.
pub struct NetworkStats {
    pub node_count: usize,
    pub edge_count: usize,
    pub assessor_count: usize,
    pub application_count: usize,
    pub selected_count: usize,
    pub zoom_milli: i64,
    pub simulation_running: bool,
}

/// Network graph with force-directed layout.
pub struct NetworkGraphChart {
    config: ChartConfig,
    nodes: Vec<PhysicsNode>,
    edges: Vec<NetworkEdge>,
    zoom: i64,
    pan_x: i64,
    pan_y: i64,
    dragging_node: Option<usize>,
    hovered_node: Option<usize>,
    selected_nodes: Vec<usize>,
    simulation_running: bool,
    repulsion_strength: i64,
    attraction_strength: i64,
    damping: i64,
    center_gravity: i64,
    rng_state: u64,
}

impl NetworkGraphChart {
    pub closed spec fn wf(&self) -> bool {
        &&& self.config.valid()
        &&& self.nodes@.len() <= MAX_NODES as int
        &&& forall|j: int| 0 <= j < self.nodes@.len() ==> (#[trigger] self.nodes@[j]).in_range()
        &&& self.edges@.len() <= MAX_EDGES as int
        &&& forall|j: int| 0 <= j < self.edges@.len() ==> (#[trigger] self.edges@[j]).in_range()
        &&& 300 <= self.zoom <= 3000
        &&& -PAN_LIMIT <= self.pan_x <= PAN_LIMIT
        &&& -PAN_LIMIT <= self.pan_y <= PAN_LIMIT
        &&& 0 <= self.repulsion_strength <= REPULSION_LIMIT
        &&& 0 <= self.attraction_strength <= ATTRACTION_LIMIT
        &&& 0 <= self.damping <= 1000
        &&& 0 <= self.center_gravity <= 1000
    }

    pub closed spec fn spec_config(&self) -> ChartConfig {
        self.config
    }

    pub closed spec fn spec_nodes(&self) -> Seq<PhysicsNode> {
        self.nodes@
    }

    pub closed spec fn spec_edges(&self) -> Seq<NetworkEdge> {
        self.edges@
    }

    pub closed spec fn spec_zoom(&self) -> i64 {
        self.zoom
    }

    pub closed spec fn spec_pan(&self) -> (i64, i64) {
        (self.pan_x, self.pan_y)
    }

    pub closed spec fn spec_dragging(&self) -> Option<usize> {
        self.dragging_node
    }

    pub closed spec fn spec_hovered(&self) -> Option<usize> {
        self.hovered_node
    }

    pub closed spec fn spec_selected(&self) -> Seq<usize> {
        self.selected_nodes@
    }

    pub closed spec fn spec_running(&self) -> bool {
        self.simulation_running
    }

    pub closed spec fn spec_repulsion(&self) -> i64 {
        self.repulsion_strength
    }

    pub closed spec fn spec_attraction(&self) -> i64 {
        self.attraction_strength
    }

    pub closed spec fn spec_damping(&self) -> i64 {
        self.damping
    }

    pub closed spec fn spec_gravity(&self) -> i64 {
        self.center_gravity
    }

    pub closed spec fn spec_rng(&self) -> u64 {
        self.rng_state
    }

    /// Create a new network graph chart.
    pub fn new(config: ChartConfig) -> (chart: NetworkGraphChart)
        requires
            config.valid(),
        ensures
            chart.wf(),
            chart.spec_config() == config,
            chart.spec_nodes().len() == 0,
            chart.spec_edges().len() == 0,
            chart.spec_zoom() == 1000,
            chart.spec_pan() == (0i64, 0i64),
            chart.spec_dragging() is None,
            chart.spec_hovered() is None,
            chart.spec_selected().len() == 0,
            chart.spec_running(),
            chart.spec_repulsion() == 500,
            chart.spec_attraction() == 50,
            chart.spec_damping() == 900,
            chart.spec_gravity() == 20,
            chart.spec_rng() == 12345,
    {
        NetworkGraphChart {
            config,
            nodes: Vec::new(),
            edges: Vec::new(),
            zoom: 1000,
            pan_x: 0,
            pan_y: 0,
            dragging_node: None,
            hovered_node: None,
            selected_nodes: Vec::new(),
            simulation_running: true,
            repulsion_strength: 500,
            attraction_strength: 50,
            damping: 900,
            center_gravity: 20,
            rng_state: 12345,
        }
    }

    pub fn config(&self) -> (c: &ChartConfig)
        ensures
            *c == self.spec_config(),
    {
        &self.config
    }

    pub fn nodes(&self) -> (r: &Vec<PhysicsNode>)
        ensures
            r@ == self.spec_nodes(),
    {
        &self.nodes
    }

    pub fn edges(&self) -> (r: &Vec<NetworkEdge>)
        ensures
            r@ == self.spec_edges(),
    {
        &self.edges
    }

    pub fn zoom(&self) -> (z: i64)
        ensures
            z == self.spec_zoom(),
    {
        self.zoom
    }

    pub fn pan(&self) -> (p: (i64, i64))
        ensures
            p == self.spec_pan(),
    {
        (self.pan_x, self.pan_y)
    }

    pub fn hovered_node(&self) -> (h: Option<usize>)
        ensures
            h == self.spec_hovered(),
    {
        self.hovered_node
    }

    pub fn dragging_node(&self) -> (d: Option<usize>)
        ensures
            d == self.spec_dragging(),
    {
        self.dragging_node
    }

    pub fn selected_nodes(&self) -> (s: &Vec<usize>)
        ensures
            s@ == self.spec_selected(),
    {
        &self.selected_nodes
    }

    pub fn simulation_running(&self) -> (b: bool)
        ensures
            b == self.spec_running(),
    {
        self.simulation_running
    }

    /// Configure physics simulation strengths.
    pub fn set_physics(&mut self, repulsion: i64, attraction: i64, damping: i64)
        requires
            old(self).wf(),
            0 <= repulsion <= REPULSION_LIMIT,
            0 <= attraction <= ATTRACTION_LIMIT,
            0 <= damping <= 1000,
        ensures
            final(self).wf(),
            final(self).spec_repulsion() == repulsion,
            final(self).spec_attraction() == attraction,
            final(self).spec_damping() == damping,
            final(self).spec_nodes() == old(self).spec_nodes(),
            final(self).spec_edges() == old(self).spec_edges(),
            final(self).spec_config() == old(self).spec_config(),
            final(self).spec_zoom() == old(self).spec_zoom(),
            final(self).spec_pan() == old(self).spec_pan(),
            final(self).spec_running() == old(self).spec_running(),
            final(self).spec_gravity() == old(self).spec_gravity(),
            final(self).spec_selected() == old(self).spec_selected(),
            final(self).spec_dragging() == old(self).spec_dragging(),
            final(self).spec_hovered() == old(self).spec_hovered(),
            final(self).spec_rng() == old(self).spec_rng(),
    {
        self.repulsion_strength = repulsion;
        self.attraction_strength = attraction;
        self.damping = damping;
    }

    /// Toggle the simulation on or off; returns the new state.
    pub fn toggle_simulation(&mut self) -> (running: bool)
        requires
            old(self).wf(),
        ensures
            final(self).wf(),
            final(self).spec_running() == !old(self).spec_running(),
            running == final(self).spec_running(),
            final(self).spec_nodes() == old(self).spec_nodes(),
            final(self).spec_edges() == old(self).spec_edges(),
            final(self).spec_zoom() == old(self).spec_zoom(),
            final(self).spec_pan() == old(self).spec_pan(),
            final(self).spec_selected() == old(self).spec_selected(),
    {
        self.simulation_running = !self.simulation_running;
        self.simulation_running
    }

    /// The net force on node `i` in the current state.
    pub open spec fn spec_net_force(&self, i: int) -> (int, int) {
        net_force(
            self.spec_nodes(),
            self.spec_edges(),
            i,
            self.spec_repulsion() as int,
            self.spec_attraction() as int,
            self.spec_gravity() as int,
            self.spec_config().width as int * 500,
            self.spec_config().height as int * 500,
        )
    }

    /// Whether a node is pinned for this tick: explicitly fixed, or grabbed
    /// by the pointer.
    pub open spec fn spec_pinned(&self, i: int) -> bool {
        self.spec_nodes()[i].fixed || self.spec_dragging() == Some(i as usize)
    }

    /// Where node `i` stands after one tick: unchanged if pinned, else
    /// integrated under its net force.
    pub open spec fn spec_moved_node(&self, i: int) -> PhysicsNode {
        if self.spec_pinned(i) {
            self.spec_nodes()[i]
        } else {
            let f = self.spec_net_force(i);
            integrate(self.spec_nodes()[i], f.0, f.1, self.spec_damping() as int)
        }
    }

    /// Total movement of the first `p` nodes in one tick (pinned nodes
    /// contribute nothing); the settle check compares this against the
    /// threshold.
    pub open spec fn spec_movement_total(&self, p: int) -> int
        decreases p,
    {
        if p <= 0 {
            0
        } else {
            self.spec_movement_total(p - 1) + if self.spec_pinned(p - 1) {
                0int
            } else {
                let f = self.spec_net_force(p - 1);
                tick_speed(self.spec_nodes()[p - 1], f.0, f.1, self.spec_damping() as int)
            }
        }
    }

    /// Step the physics simulation by one tick.  While running and
    /// non-empty: every unpinned node feels pairwise repulsion, spring
    /// attraction along resolved edges and center gravity, then integrates
    /// its damped, speed-limited velocity; the simulation settles when the
    /// total movement falls below the threshold.  Paused or empty, nothing
    /// moves and the call reports it.
    pub fn step_simulation(&mut self) -> (still: bool)
        requires
            old(self).wf(),
        ensures
            final(self).wf(),
            final(self).spec_config() == old(self).spec_config(),
            final(self).spec_edges() == old(self).spec_edges(),
            final(self).spec_zoom() == old(self).spec_zoom(),
            final(self).spec_pan() == old(self).spec_pan(),
            final(self).spec_selected() == old(self).spec_selected(),
            final(self).spec_dragging() == old(self).spec_dragging(),
            final(self).spec_hovered() == old(self).spec_hovered(),
            final(self).spec_repulsion() == old(self).spec_repulsion(),
            final(self).spec_attraction() == old(self).spec_attraction(),
            final(self).spec_damping() == old(self).spec_damping(),
            final(self).spec_gravity() == old(self).spec_gravity(),
            final(self).spec_rng() == old(self).spec_rng(),
            (!old(self).spec_running() || old(self).spec_nodes().len() == 0) ==> !still
                && *final(self) == *old(self),
            (old(self).spec_running() && old(self).spec_nodes().len() > 0) ==> {
                &&& still
                &&& final(self).spec_nodes().len() == old(self).spec_nodes().len()
                &&& (forall|i: int|
                    0 <= i < old(self).spec_nodes().len() ==> #[trigger] final(self).spec_nodes()[i]
                        == old(self).spec_moved_node(i))
                &&& final(self).spec_running() == (old(self).spec_movement_total(
                    old(self).spec_nodes().len() as int,
                ) >= SETTLE_THRESHOLD as int)
            },
    {
        if !self.simulation_running || self.nodes.len() == 0 {
            return false;
        }
        let n = self.nodes.len();
        let m = self.edges.len();
        let cx = (self.config.width as i64) * 500;
        let cy = (self.config.height as i64) * 500;
        // Resolve edge endpoints once.
        let mut resolved: Vec<Option<(usize, usize)>> = Vec::new();
        let mut wts: Vec<i64> = Vec::new();
        let mut k: usize = 0;
        while k < m
            invariant
                old(self).wf(),
                *self == *old(self),
                m == self.spec_edges().len(),
                k <= m,
                resolved@.len() == k as int,
                wts@.len() == k as int,
                forall|q: int|
                    0 <= q < k as int ==> resolved_matches(
                        #[trigger] resolved@[q],
                        self.spec_nodes(),
                        self.spec_edges()[q],
                    ),
                forall|q: int|
                    0 <= q < k as int ==> #[trigger] wts@[q] as int == edge_weight(
                        self.spec_edges()[q],
                    ),
            decreases m - k,
        {
            let e = &self.edges[k];
            let si = find_index_exec(&self.nodes, &e.source);
            let ti = find_index_exec(&self.nodes, &e.target);
            let entry: Option<(usize, usize)> = match (si, ti) {
                (Some(s), Some(t)) => Some((s, t)),
                _ => None,
            };
            resolved.push(entry);
            wts.push(
                match e.weight {
                    Some(w) => w,
                    None => 1000,
                },
            );
            k += 1;
        }
        // Accumulate forces against the pre-tick state.
        let mut forces: Vec<(i64, i64)> = Vec::new();
        let mut i: usize = 0;
        while i < n
            invariant
                old(self).wf(),
                *self == *old(self),
                n == self.spec_nodes().len(),
                m == self.spec_edges().len(),
                resolved@.len() == m as int,
                wts@.len() == m as int,
                forall|q: int|
                    0 <= q < m as int ==> resolved_matches(
                        #[trigger] resolved@[q],
                        self.spec_nodes(),
                        self.spec_edges()[q],
                    ),
                forall|q: int|
                    0 <= q < m as int ==> #[trigger] wts@[q] as int == edge_weight(
                        self.spec_edges()[q],
                    ),
                cx == self.spec_config().width as int * 500,
                cy == self.spec_config().height as int * 500,
                i <= n,
                forces@.len() == i as int,
                forall|q: int|
                    0 <= q < i as int ==> (#[trigger] forces@[q]).0 as int == self.spec_net_force(
                        q,
                    ).0 && forces@[q].1 as int == self.spec_net_force(q).1,
                forall|q: int|
                    0 <= q < i as int ==> -FORCE_LIMIT <= (#[trigger] forces@[q]).0 <= FORCE_LIMIT
                        && -FORCE_LIMIT <= forces@[q].1 <= FORCE_LIMIT,
            decreases n - i,
        {
            let f = self.net_force_exec(i, &resolved, &wts, cx, cy);
            forces.push(f);
            i += 1;
        }
        // Integrate, consuming the old node list.
        let ghost pre = *self;
        let mut moved: Vec<PhysicsNode> = Vec::new();
        let mut total: i64 = 0;
        let mut j: usize = 0;
        while j < n
            invariant
                old(self).wf(),
                pre == *old(self),
                n == pre.spec_nodes().len(),
                self.nodes@ == pre.spec_nodes().skip(j as int),
                *self == (NetworkGraphChart { nodes: self.nodes, ..pre }),
                forces@.len() == n as int,
                forall|q: int|
                    0 <= q < n as int ==> (#[trigger] forces@[q]).0 as int == pre.spec_net_force(
                        q,
                    ).0 && forces@[q].1 as int == pre.spec_net_force(q).1,
                forall|q: int|
                    0 <= q < n as int ==> -FORCE_LIMIT <= (#[trigger] forces@[q]).0 <= FORCE_LIMIT
                        && -FORCE_LIMIT <= forces@[q].1 <= FORCE_LIMIT,
                j <= n,
                moved@.len() == j as int,
                forall|q: int|
                    0 <= q < j as int ==> #[trigger] moved@[q] == pre.spec_moved_node(q),
                forall|q: int| 0 <= q < j as int ==> (#[trigger] moved@[q]).in_range(),
                total as int == pre.spec_movement_total(j as int),
                0 <= total <= j as int * 2_000_000,
            decreases n - j,
        {
            let node = self.nodes.remove(0);
            proof {
                assert(node == pre.spec_nodes()[j as int]);
                assert(self.nodes@ =~= pre.spec_nodes().skip(j as int + 1));
            }
            let pinned = node.fixed || (match self.dragging_node {
                Some(d) => d == j,
                None => false,
            });
            if pinned {
                moved.push(node);
            } else {
                let f = forces[j];
                let (nn, speed) = integrate_exec(node, f.0, f.1, self.damping);
                moved.push(nn);
                total = total + speed;
            }
            j += 1;
        }
        self.nodes = moved;
        if total < SETTLE_THRESHOLD {
            self.simulation_running = false;
        }
        true
    }

    /// Compute the net force on node `i` against the current state.
    fn net_force_exec(
        &self,
        i: usize,
        resolved: &Vec<Option<(usize, usize)>>,
        wts: &Vec<i64>,
        cx: i64,
        cy: i64,
    ) -> (f: (i64, i64))
        requires
            self.wf(),
            i < self.spec_nodes().len(),
            resolved@.len() == self.spec_edges().len(),
            wts@.len() == self.spec_edges().len(),
            forall|q: int|
                0 <= q < self.spec_edges().len() ==> resolved_matches(
                    #[trigger] resolved@[q],
                    self.spec_nodes(),
                    self.spec_edges()[q],
                ),
            forall|q: int|
                0 <= q < self.spec_edges().len() ==> #[trigger] wts@[q] as int == edge_weight(
                    self.spec_edges()[q],
                ),
            cx == self.spec_config().width as int * 500,
            cy == self.spec_config().height as int * 500,
        ensures
            f.0 as int == self.spec_net_force(i as int).0,
            f.1 as int == self.spec_net_force(i as int).1,
            -FORCE_LIMIT <= f.0 <= FORCE_LIMIT,
            -FORCE_LIMIT <= f.1 <= FORCE_LIMIT,
    {
        let n = self.nodes.len();
        let m = self.edges.len();
        let mut ax: i64 = 0;
        let mut ay: i64 = 0;
        let mut j: usize = 0;
        while j < n
            invariant
                self.wf(),
                i < n,
                n == self.spec_nodes().len(),
                j <= n,
                ax as int == rep_acc(
                    self.spec_nodes(),
                    i as int,
                    j as int,
                    self.spec_repulsion() as int,
                ).0,
                ay as int == rep_acc(
                    self.spec_nodes(),
                    i as int,
                    j as int,
                    self.spec_repulsion() as int,
                ).1,
                -FORCE_LIMIT <= ax <= FORCE_LIMIT,
                -FORCE_LIMIT <= ay <= FORCE_LIMIT,
            decreases n - j,
        {
            if j != i {
                let f = rep_force_exec(&self.nodes[i], &self.nodes[j], self.repulsion_strength);
                ax = clamp_i64(ax + f.0, -FORCE_LIMIT, FORCE_LIMIT);
                ay = clamp_i64(ay + f.1, -FORCE_LIMIT, FORCE_LIMIT);
            }
            j += 1;
        }
        let ghost rep_total = rep_acc(
            self.spec_nodes(),
            i as int,
            n as int,
            self.spec_repulsion() as int,
        );
        let mut k: usize = 0;
        while k < m
            invariant
                self.wf(),
                i < n,
                n == self.spec_nodes().len(),
                m == self.spec_edges().len(),
                resolved@.len() == m as int,
                wts@.len() == m as int,
                forall|q: int|
                    0 <= q < m as int ==> resolved_matches(
                        #[trigger] resolved@[q],
                        self.spec_nodes(),
                        self.spec_edges()[q],
                    ),
                forall|q: int|
                    0 <= q < m as int ==> #[trigger] wts@[q] as int == edge_weight(
                        self.spec_edges()[q],
                    ),
                k <= m,
                ax as int == att_acc(
                    self.spec_nodes(),
                    self.spec_edges(),
                    i as int,
                    k as int,
                    self.spec_attraction() as int,
                    rep_total,
                ).0,
                ay as int == att_acc(
                    self.spec_nodes(),
                    self.spec_edges(),
                    i as int,
                    k as int,
                    self.spec_attraction() as int,
                    rep_total,
                ).1,
                -FORCE_LIMIT <= ax <= FORCE_LIMIT,
                -FORCE_LIMIT <= ay <= FORCE_LIMIT,
            decreases m - k,
        {
            match resolved[k] {
                Some(st) => {
                    let (s, t) = st;
                    proof {
                        assert(resolved_matches(
                            resolved@[k as int],
                            self.spec_nodes(),
                            self.spec_edges()[k as int],
                        ));
                    }
                    let f = att_force_exec(
                        &self.nodes[s],
                        &self.nodes[t],
                        wts[k],
                        self.attraction_strength,
                    );
                    if s == i {
                        ax = clamp_i64(ax + f.0, -FORCE_LIMIT, FORCE_LIMIT);
                        ay = clamp_i64(ay + f.1, -FORCE_LIMIT, FORCE_LIMIT);
                    }
                    if t == i {
                        ax = clamp_i64(ax - f.0, -FORCE_LIMIT, FORCE_LIMIT);
                        ay = clamp_i64(ay - f.1, -FORCE_LIMIT, FORCE_LIMIT);
                    }
                },
                None => {},
            }
            k += 1;
        }
        let gf = grav_force_exec(&self.nodes[i], self.center_gravity, cx, cy);
        ax = clamp_i64(ax + gf.0, -FORCE_LIMIT, FORCE_LIMIT);
        ay = clamp_i64(ay + gf.1, -FORCE_LIMIT, FORCE_LIMIT);
        (ax, ay)
    }

    /// Set graph data.  Rejects oversized payloads, node sizes and edge
    /// weights beyond the supported bounds, leaving prior state unchanged.
    /// Otherwise nodes are re-seeded onto the type rings (discarding prior
    /// positions), the edges replaced, and the simulation restarted.
    #[verifier::rlimit(100)]
    pub fn set_data(&mut self, nodes: Vec<NetworkNode>, edges: Vec<NetworkEdge>) -> (r: Result<
        (),
        DataError,
    >)
        requires
            old(self).wf(),
        ensures
            final(self).wf(),
            final(self).spec_config() == old(self).spec_config(),
            final(self).spec_zoom() == old(self).spec_zoom(),
            final(self).spec_pan() == old(self).spec_pan(),
            final(self).spec_selected() == old(self).spec_selected(),
            final(self).spec_hovered() == old(self).spec_hovered(),
            final(self).spec_dragging() == old(self).spec_dragging(),
            r is Ok <==> {
                &&& nodes@.len() <= MAX_NODES as int
                &&& edges@.len() <= MAX_EDGES as int
                &&& forall|i: int| 0 <= i < nodes@.len() ==> (#[trigger] nodes@[i]).in_range()
                &&& forall|i: int| 0 <= i < edges@.len() ==> (#[trigger] edges@[i]).in_range()
            },
            r matches Err(e) ==> *final(self) == *old(self),
            r is Ok ==> {
                &&& final(self).spec_nodes().len() == nodes@.len()
                &&& (forall|i: int|
                    0 <= i < nodes@.len() ==> #[trigger] final(self).spec_nodes()[i] == place_node(
                        nodes@[i],
                        i,
                        nodes@.len() as int,
                        old(self).spec_config(),
                        seed_at(old(self).spec_rng(), 2 * i),
                    ))
                &&& final(self).spec_rng() == seed_at(old(self).spec_rng(), 2 * nodes@.len() as int)
                &&& final(self).spec_edges() == edges@
                &&& final(self).spec_running()
            },
    {
        if nodes.len() > MAX_NODES {
            return Err(DataError::TooManyRecords { count: nodes.len() });
        }
        if edges.len() > MAX_EDGES {
            return Err(DataError::TooManyEdges { count: edges.len() });
        }
        let n = nodes.len();
        let mut v: usize = 0;
        while v < n
            invariant
                old(self).wf(),
                *self == *old(self),
                n == nodes@.len(),
                n <= MAX_NODES,
                v <= n,
                forall|j: int| 0 <= j < v ==> (#[trigger] nodes@[j]).in_range(),
            decreases n - v,
        {
            let ok = match nodes[v].size {
                Some(s) => 0 <= s && s <= NODE_SIZE_LIMIT,
                None => true,
            };
            if !ok {
                return Err(DataError::RecordOutOfRange { index: v });
            }
            v += 1;
        }
        let m = edges.len();
        let mut w: usize = 0;
        while w < m
            invariant
                old(self).wf(),
                *self == *old(self),
                n == nodes@.len(),
                n <= MAX_NODES,
                forall|j: int| 0 <= j < n ==> (#[trigger] nodes@[j]).in_range(),
                m == edges@.len(),
                m <= MAX_EDGES,
                w <= m,
                forall|j: int| 0 <= j < w ==> (#[trigger] edges@[j]).in_range(),
            decreases m - w,
        {
            let ok = match edges[w].weight {
                Some(we) => -WEIGHT_LIMIT <= we && we <= WEIGHT_LIMIT,
                None => true,
            };
            if !ok {
                return Err(DataError::EdgeOutOfRange { index: w });
            }
            w += 1;
        }
        let ghost s0 = self.rng_state;
        let ghost input_nodes = nodes@;
        let cx = (self.config.width as i64) * 500;
        let cy = (self.config.height as i64) * 500;
        let ring = {
            let mn = if self.config.width < self.config.height {
                self.config.width
            } else {
                self.config.height
            };
            let third = (mn as i64) * 1000 / 3;
            if third > 100_000 {
                third
            } else {
                100_000
            }
        };
        let mut placed: Vec<PhysicsNode> = Vec::new();
        let mut seed = self.rng_state;
        let mut nodes_in = nodes;
        let mut i: usize = 0;
        while i < n
            invariant
                self.config.valid(),
                n == input_nodes.len(),
                n <= MAX_NODES,
                forall|j: int| 0 <= j < n ==> (#[trigger] input_nodes[j]).in_range(),
                nodes_in@ == input_nodes.skip(i as int),
                i <= n,
                placed@.len() == i as int,
                seed == seed_at(s0, 2 * i as int),
                cx == self.spec_config().width as int * 500,
                cy == self.spec_config().height as int * 500,
                ring == spec_ring_radius(self.spec_config()),
                100_000 <= ring <= 34_000_000,
                forall|j: int|
                    0 <= j < i as int ==> #[trigger] placed@[j] == place_node(
                        input_nodes[j],
                        j,
                        n as int,
                        self.spec_config(),
                        seed_at(s0, 2 * j),
                    ),
                forall|j: int| 0 <= j < i as int ==> (#[trigger] placed@[j]).in_range(),
            decreases n - i,
        {
            let node = nodes_in.remove(0);
            proof {
                assert(node == input_nodes[i as int]);
                assert(nodes_in@ =~= input_nodes.skip(i as int + 1));
            }
            let (pn, s2) = place_one(node, i, n, &self.config, ring, cx, cy, seed);
            placed.push(pn);
            proof {
                assert(seed_at(s0, 2 * i as int + 1) == lcg_next(seed_at(s0, 2 * i as int)));
                assert(seed_at(s0, 2 * (i as int + 1)) == lcg_next(seed_at(s0, 2 * i as int + 1)));
            }
            seed = s2;
            i += 1;
        }
        self.nodes = placed;
        self.edges = edges;
        self.rng_state = seed;
        self.simulation_running = true;
        Ok(())
    }

    /// Zoom by a wheel delta toward the cursor: the zoom factor scales by
    /// the delta in thousandths (clamped into its working range) and the
    /// pan shifts so the point under the cursor stays fixed on screen, up
    /// to integer rounding.
    pub fn on_zoom(&mut self, delta: i64, center_x: i64, center_y: i64)
        requires
            old(self).wf(),
            -1_000_000 <= delta <= 1_000_000,
            -POINTER_LIMIT <= center_x <= POINTER_LIMIT,
            -POINTER_LIMIT <= center_y <= POINTER_LIMIT,
        ensures
            final(self).wf(),
            final(self).spec_zoom() as int == clamped(
                tdiv(old(self).spec_zoom() as int * (1000 - delta), 1000),
                300,
                3000,
            ),
            final(self).spec_pan().0 as int == clamped(
                center_x - tdiv(
                    (center_x - old(self).spec_pan().0) * final(self).spec_zoom() as int,
                    old(self).spec_zoom() as int,
                ),
                -PAN_LIMIT as int,
                PAN_LIMIT as int,
            ),
            final(self).spec_pan().1 as int == clamped(
                center_y - tdiv(
                    (center_y - old(self).spec_pan().1) * final(self).spec_zoom() as int,
                    old(self).spec_zoom() as int,
                ),
                -PAN_LIMIT as int,
                PAN_LIMIT as int,
            ),
            final(self).spec_nodes() == old(self).spec_nodes(),
            final(self).spec_edges() == old(self).spec_edges(),
            final(self).spec_config() == old(self).spec_config(),
            final(self).spec_selected() == old(self).spec_selected(),
            final(self).spec_running() == old(self).spec_running(),
            final(self).spec_dragging() == old(self).spec_dragging(),
            final(self).spec_hovered() == old(self).spec_hovered(),
    {
        let old_zoom = self.zoom;
        proof {
            assert(-4_000_000_000int <= old_zoom as int * (1000 - delta as int)
                <= 4_000_000_000int) by (nonlinear_arith)
                requires
                    300 <= old_zoom as int <= 3000 && -1_001_000 <= 1000 - delta as int
                        <= 1_001_000,
            ;
        }
        let scaled = self.zoom * (1000 - delta);
        let new_zoom = clamp_i64(scaled / 1000, 300, 3000);
        self.zoom = new_zoom;
        let dxp = center_x - self.pan_x;
        let dyp = center_y - self.pan_y;
        proof {
            assert(-4_000_000_000_000_000int <= dxp as int * new_zoom as int
                <= 4_000_000_000_000_000int) by (nonlinear_arith)
                requires
                    -1_001_000_000_000 <= dxp as int <= 1_001_000_000_000 && 300 <= new_zoom
                        <= 3000,
            ;
            assert(-4_000_000_000_000_000int <= dyp as int * new_zoom as int
                <= 4_000_000_000_000_000int) by (nonlinear_arith)
                requires
                    -1_001_000_000_000 <= dyp as int <= 1_001_000_000_000 && 300 <= new_zoom
                        <= 3000,
            ;
        }
        let sx = dxp * new_zoom;
        let sy = dyp * new_zoom;
        proof {
            lemma_tdiv_bounds(sx as int, old_zoom as int);
            lemma_tdiv_bounds(sy as int, old_zoom as int);
        }
        self.pan_x = clamp_i64(center_x - sx / old_zoom, -PAN_LIMIT, PAN_LIMIT);
        self.pan_y = clamp_i64(center_y - sy / old_zoom, -PAN_LIMIT, PAN_LIMIT);
    }

    /// Pan by a pointer drag delta, clamped into the working range.
    pub fn on_pan(&mut self, dx: i64, dy: i64)
        requires
            old(self).wf(),
            -POINTER_LIMIT <= dx <= POINTER_LIMIT,
            -POINTER_LIMIT <= dy <= POINTER_LIMIT,
        ensures
            final(self).wf(),
            final(self).spec_pan().0 as int == clamped(
                old(self).spec_pan().0 + dx,
                -PAN_LIMIT as int,
                PAN_LIMIT as int,
            ),
            final(self).spec_pan().1 as int == clamped(
                old(self).spec_pan().1 + dy,
                -PAN_LIMIT as int,
                PAN_LIMIT as int,
            ),
            final(self).spec_zoom() == old(self).spec_zoom(),
            final(self).spec_nodes() == old(self).spec_nodes(),
            final(self).spec_edges() == old(self).spec_edges(),
            final(self).spec_config() == old(self).spec_config(),
            final(self).spec_selected() == old(self).spec_selected(),
            final(self).spec_running() == old(self).spec_running(),
    {
        self.pan_x = clamp_i64(self.pan_x + dx, -PAN_LIMIT, PAN_LIMIT);
        self.pan_y = clamp_i64(self.pan_y + dy, -PAN_LIMIT, PAN_LIMIT);
    }

    /// Reset the viewport to unit zoom, no pan and an empty selection.
    pub fn reset_view(&mut self)
        requires
            old(self).wf(),
        ensures
            final(self).wf(),
            final(self).spec_zoom() == 1000,
            final(self).spec_pan() == (0i64, 0i64),
            final(self).spec_selected().len() == 0,
            final(self).spec_nodes() == old(self).spec_nodes(),
            final(self).spec_edges() == old(self).spec_edges(),
            final(self).spec_config() == old(self).spec_config(),
            final(self).spec_running() == old(self).spec_running(),
    {
        self.zoom = 1000;
        self.pan_x = 0;
        self.pan_y = 0;
        self.selected_nodes = Vec::new();
    }

    /// The pointer position transformed into simulation space: pan
    /// subtracted, then divided by the zoom factor.
    pub open spec fn to_sim(&self, v: int, pan: int) -> int {
        tdiv((v - pan) * 1000, self.spec_zoom() as int)
    }

    fn to_sim_exec(&self, v: i64, pan: i64) -> (r: i64)
        requires
            self.wf(),
            -POINTER_LIMIT <= v <= POINTER_LIMIT,
            -PAN_LIMIT <= pan <= PAN_LIMIT,
        ensures
            r as int == self.to_sim(v as int, pan as int),
            -4_000_000_000_000 <= r <= 4_000_000_000_000,
    {
        let d = v - pan;
        proof {
            assert(-1_001_000_000_000_000int <= d as int * 1000 <= 1_001_000_000_000_000int)
                by (nonlinear_arith)
                requires
                    -1_001_000_000_000 <= d as int <= 1_001_000_000_000,
            ;
            lemma_tdiv_bounds(d as int * 1000, self.spec_zoom() as int);
            lemma_tdiv_magnitude(d as int * 1000, self.spec_zoom() as int, 300);
        }
        (d * 1000) / self.zoom
    }

    /// Handle mouse down: grab the first node under the pointer for
    /// dragging (pinning it) and report whether one was grabbed.
    pub fn on_mouse_down(&mut self, x: i64, y: i64) -> (grabbed: bool)
        requires
            old(self).wf(),
            -POINTER_LIMIT <= x <= POINTER_LIMIT,
            -POINTER_LIMIT <= y <= POINTER_LIMIT,
        ensures
            final(self).wf(),
            final(self).spec_config() == old(self).spec_config(),
            final(self).spec_edges() == old(self).spec_edges(),
            final(self).spec_zoom() == old(self).spec_zoom(),
            final(self).spec_pan() == old(self).spec_pan(),
            final(self).spec_selected() == old(self).spec_selected(),
            final(self).spec_running() == old(self).spec_running(),
            ({
                let tx = old(self).to_sim(x as int, old(self).spec_pan().0 as int);
                let ty = old(self).to_sim(y as int, old(self).spec_pan().1 as int);
                let q = first_node_hit(old(self).spec_nodes(), tx, ty, 0);
                if q < old(self).spec_nodes().len() {
                    &&& grabbed
                    &&& final(self).spec_dragging() == Some(q as usize)
                    &&& final(self).spec_nodes() == old(self).spec_nodes().update(
                        q,
                        (PhysicsNode { fixed: true, ..old(self).spec_nodes()[q] }),
                    )
                } else {
                    &&& !grabbed
                    &&& final(self).spec_dragging() == old(self).spec_dragging()
                    &&& final(self).spec_nodes() == old(self).spec_nodes()
                }
            }),
    {
        let tx = self.to_sim_exec(x, self.pan_x);
        let ty = self.to_sim_exec(y, self.pan_y);
        match first_hit_exec(&self.nodes, tx, ty) {
            Some(i) => {
                let mut node = self.nodes.remove(i);
                node.fixed = true;
                self.nodes.insert(i, node);
                self.dragging_node = Some(i);
                proof {
                    assert(self.nodes@ =~= old(self).spec_nodes().update(
                        i as int,
                        (PhysicsNode { fixed: true, ..old(self).spec_nodes()[i as int] }),
                    ));
                }
                true
            },
            None => false,
        }
    }

    /// Handle mouse up: release the dragged node, if any.
    pub fn on_mouse_up(&mut self)
        requires
            old(self).wf(),
        ensures
            final(self).wf(),
            final(self).spec_dragging() is None,
            final(self).spec_config() == old(self).spec_config(),
            final(self).spec_edges() == old(self).spec_edges(),
            final(self).spec_zoom() == old(self).spec_zoom(),
            final(self).spec_pan() == old(self).spec_pan(),
            final(self).spec_selected() == old(self).spec_selected(),
            final(self).spec_running() == old(self).spec_running(),
            (match old(self).spec_dragging() {
                Some(idx) => {
                    if idx < old(self).spec_nodes().len() {
                        final(self).spec_nodes() == old(self).spec_nodes().update(
                            idx as int,
                            (PhysicsNode { fixed: false, ..old(self).spec_nodes()[idx as int] }),
                        )
                    } else {
                        final(self).spec_nodes() == old(self).spec_nodes()
                    }
                },
                None => final(self).spec_nodes() == old(self).spec_nodes(),
            }),
    {
        match self.dragging_node {
            Some(idx) => {
                if idx < self.nodes.len() {
                    let mut node = self.nodes.remove(idx);
                    node.fixed = false;
                    self.nodes.insert(idx, node);
                    proof {
                        assert(self.nodes@ =~= old(self).spec_nodes().update(
                            idx as int,
                            (PhysicsNode { fixed: false, ..old(self).spec_nodes()[idx as int] }),
                        ));
                    }
                }
            },
            None => {},
        }
        self.dragging_node = None;
    }

    /// Handle mouse move.  While dragging, the grabbed node follows the
    /// pointer in simulation space (clamped into the position range) and
    /// the result is a miss; otherwise the first node under the pointer is
    /// hovered and reported with its record, metadata and connection count.
    pub fn on_mouse_move(&mut self, x: i64, y: i64) -> (r: HitTestResult)
        requires
            old(self).wf(),
            -POINTER_LIMIT <= x <= POINTER_LIMIT,
            -POINTER_LIMIT <= y <= POINTER_LIMIT,
        ensures
            final(self).wf(),
            final(self).spec_config() == old(self).spec_config(),
            final(self).spec_edges() == old(self).spec_edges(),
            final(self).spec_zoom() == old(self).spec_zoom(),
            final(self).spec_pan() == old(self).spec_pan(),
            final(self).spec_selected() == old(self).spec_selected(),
            final(self).spec_running() == old(self).spec_running(),
            final(self).spec_dragging() == old(self).spec_dragging(),
            !r.hit ==> r.element_id is None && r.element_type@ == "none"@ && r.data is None,
            ({
                let tx = old(self).to_sim(x as int, old(self).spec_pan().0 as int);
                let ty = old(self).to_sim(y as int, old(self).spec_pan().1 as int);
                match old(self).spec_dragging() {
                    Some(idx) => {
                        &&& !r.hit
                        &&& final(self).spec_hovered() == old(self).spec_hovered()
                        &&& (if idx < old(self).spec_nodes().len() {
                            final(self).spec_nodes() == old(self).spec_nodes().update(
                                idx as int,
                                (PhysicsNode {
                                    x: clamped(tx, -POS_LIMIT as int, POS_LIMIT as int) as i64,
                                    y: clamped(ty, -POS_LIMIT as int, POS_LIMIT as int) as i64,
                                    ..old(self).spec_nodes()[idx as int]
                                }),
                            )
                        } else {
                            final(self).spec_nodes() == old(self).spec_nodes()
                        })
                    },
                    None => {
                        let q = first_node_hit(old(self).spec_nodes(), tx, ty, 0);
                        &&& final(self).spec_nodes() == old(self).spec_nodes()
                        &&& (r.hit <==> q < old(self).spec_nodes().len())
                        &&& (q < old(self).spec_nodes().len() ==> {
                            let node = old(self).spec_nodes()[q];
                            &&& final(self).spec_hovered() == Some(q as usize)
                            &&& (r.element_id matches Some(s) && s@ == node.id@)
                            &&& r.element_type@ == (if node.node_type == NodeType::Assessor {
                                "assessor"@
                            } else {
                                "application"@
                            })
                            &&& (r.data matches Some(d) && {
                                &&& d.fields@.len() == 4
                                &&& d.fields@[0].0@ == "id"@
                                &&& (d.fields@[0].1 matches FieldValue::Text(t) && t@ == node.id@)
                                &&& d.fields@[1].0@ == "label"@
                                &&& (d.fields@[1].1 matches FieldValue::Text(t) && t@
                                    == node.label@)
                                &&& d.fields@[2].0@ == "type"@
                                &&& (d.fields@[2].1 matches FieldValue::Text(t) && t@ == (
                                if node.node_type == NodeType::Assessor {
                                    "assessor"@
                                } else {
                                    "application"@
                                }))
                                &&& d.fields@[3].0@ == "connections"@
                                &&& d.fields@[3].1 == FieldValue::Uint(
                                    connection_count(
                                        old(self).spec_edges(),
                                        node.id@,
                                        old(self).spec_edges().len() as int,
                                    ) as u64,
                                )
                                &&& d.metadata == node.metadata
                            })
                        })
                        &&& (q >= old(self).spec_nodes().len() ==> !r.hit
                            && final(self).spec_hovered() is None)
                    },
                }
            }),
    {
        let tx = self.to_sim_exec(x, self.pan_x);
        let ty = self.to_sim_exec(y, self.pan_y);
        match self.dragging_node {
            Some(idx) => {
                if idx < self.nodes.len() {
                    let mut node = self.nodes.remove(idx);
                    node.x = clamp_i64(tx, -POS_LIMIT, POS_LIMIT);
                    node.y = clamp_i64(ty, -POS_LIMIT, POS_LIMIT);
                    self.nodes.insert(idx, node);
                    proof {
                        assert(self.nodes@ =~= old(self).spec_nodes().update(
                            idx as int,
                            (PhysicsNode {
                                x: clamped(tx as int, -POS_LIMIT as int, POS_LIMIT as int) as i64,
                                y: clamped(ty as int, -POS_LIMIT as int, POS_LIMIT as int) as i64,
                                ..old(self).spec_nodes()[idx as int]
                            }),
                        ));
                    }
                }
                return HitTestResult::miss();
            },
            None => {},
        }
        match first_hit_exec(&self.nodes, tx, ty) {
            Some(i) => {
                let node = &self.nodes[i];
                let conn = self.count_connections(&node.id);
                let type_text: &str = if matches!(node.node_type, NodeType::Assessor) {
                    "assessor"
                } else {
                    "application"
                };
                let mut fields: Vec<(String, FieldValue)> = Vec::new();
                fields.push(("id".to_owned(), FieldValue::Text(node.id.clone())));
                fields.push(("label".to_owned(), FieldValue::Text(node.label.clone())));
                fields.push(("type".to_owned(), FieldValue::Text(type_text.to_owned())));
                fields.push(("connections".to_owned(), FieldValue::Uint(conn as u64)));
                let metadata = match &node.metadata {
                    Some(v) => Some(clone_json_value(v)),
                    None => None,
                };
                let rid = node.id.clone();
                self.hovered_node = Some(i);
                HitTestResult::hit(rid.as_str(), type_text, HitData { fields, metadata })
            },
            None => {
                self.hovered_node = None;
                HitTestResult::miss()
            },
        }
    }

    /// How many edges touch the given node identifier.
    fn count_connections(&self, id: &String) -> (c: usize)
        requires
            self.wf(),
        ensures
            c as int == connection_count(self.spec_edges(), id@, self.spec_edges().len() as int),
    {
        let m = self.edges.len();
        let mut c: usize = 0;
        let mut k: usize = 0;
        while k < m
            invariant
                self.wf(),
                m == self.spec_edges().len(),
                m <= MAX_EDGES,
                k <= m,
                c as int == connection_count(self.spec_edges(), id@, k as int),
                c <= k,
            decreases m - k,
        {
            let e = &self.edges[k];
            if e.source == *id || e.target == *id {
                c += 1;
            }
            k += 1;
        }
        c
    }

    /// Handle click for selection.  A struck node replaces the selection,
    /// or toggles its membership in multi-select mode; a click on empty
    /// space clears the selection unless multi-selecting.  Returns the
    /// identifiers of the selected nodes.
    pub fn on_click(&mut self, x: i64, y: i64, multi_select: bool) -> (selected: Vec<String>)
        requires
            old(self).wf(),
            -POINTER_LIMIT <= x <= POINTER_LIMIT,
            -POINTER_LIMIT <= y <= POINTER_LIMIT,
        ensures
            final(self).wf(),
            final(self).spec_config() == old(self).spec_config(),
            final(self).spec_nodes() == old(self).spec_nodes(),
            final(self).spec_edges() == old(self).spec_edges(),
            final(self).spec_zoom() == old(self).spec_zoom(),
            final(self).spec_pan() == old(self).spec_pan(),
            final(self).spec_running() == old(self).spec_running(),
            final(self).spec_dragging() == old(self).spec_dragging(),
            final(self).spec_hovered() == old(self).spec_hovered(),
            ({
                let tx = old(self).to_sim(x as int, old(self).spec_pan().0 as int);
                let ty = old(self).to_sim(y as int, old(self).spec_pan().1 as int);
                let q = first_node_hit(old(self).spec_nodes(), tx, ty, 0);
                if q < old(self).spec_nodes().len() {
                    if multi_select {
                        let pos = find_pos(old(self).spec_selected(), q as usize, 0);
                        if pos < old(self).spec_selected().len() {
                            final(self).spec_selected() == old(self).spec_selected().remove(pos)
                        } else {
                            final(self).spec_selected() == old(self).spec_selected().push(
                                q as usize,
                            )
                        }
                    } else {
                        final(self).spec_selected() =~= seq![q as usize]
                    }
                } else {
                    if multi_select {
                        final(self).spec_selected() == old(self).spec_selected()
                    } else {
                        final(self).spec_selected().len() == 0
                    }
                }
            }),
            selected@.len() == spec_live_selection(
                final(self).spec_selected(),
                final(self).spec_nodes(),
            ).len(),
            forall|j: int|
                0 <= j < selected@.len() ==> #[trigger] selected@[j]@
                    == final(self).spec_nodes()[spec_live_selection(
                    final(self).spec_selected(),
                    final(self).spec_nodes(),
                )[j] as int].id@,
    {
        let tx = self.to_sim_exec(x, self.pan_x);
        let ty = self.to_sim_exec(y, self.pan_y);
        let struck = first_hit_exec(&self.nodes, tx, ty);
        match struck {
            Some(q) => {
                if multi_select {
                    match find_pos_exec(&self.selected_nodes, q) {
                        Some(pos) => {
                            self.selected_nodes.remove(pos);
                        },
                        None => {
                            self.selected_nodes.push(q);
                        },
                    }
                } else {
                    let mut sel: Vec<usize> = Vec::new();
                    sel.push(q);
                    self.selected_nodes = sel;
                }
            },
            None => {
                if !multi_select {
                    self.selected_nodes = Vec::new();
                }
            },
        }
        self.selection_ids()
    }

    /// The identifiers of the currently selected nodes, skipping indices
    /// made stale by a later data replacement.
    fn selection_ids(&self) -> (ids: Vec<String>)
        requires
            self.wf(),
        ensures
            ids@.len() == spec_live_selection(self.spec_selected(), self.spec_nodes()).len(),
            forall|j: int|
                0 <= j < ids@.len() ==> #[trigger] ids@[j]@ == self.spec_nodes()[spec_live_selection(
                    self.spec_selected(),
                    self.spec_nodes(),
                )[j] as int].id@,
    {
        let m = self.selected_nodes.len();
        let mut ids: Vec<String> = Vec::new();
        let mut k: usize = 0;
        while k < m
            invariant
                self.wf(),
                m == self.spec_selected().len(),
                k <= m,
                ids@.len() == spec_live_selection_upto(
                    self.spec_selected(),
                    self.spec_nodes(),
                    k as int,
                ).len(),
                forall|j: int|
                    0 <= j < ids@.len() ==> #[trigger] ids@[j]@ == self.spec_nodes()[spec_live_selection_upto(
                        self.spec_selected(),
                        self.spec_nodes(),
                        k as int,
                    )[j] as int].id@,
            decreases m - k,
        {
            let idx = self.selected_nodes[k];
            if idx < self.nodes.len() {
                ids.push(self.nodes[idx].id.clone());
            }
            k += 1;
        }
        proof {
            assert(spec_live_selection_upto(
                self.spec_selected(),
                self.spec_nodes(),
                m as int,
            ) == spec_live_selection(self.spec_selected(), self.spec_nodes()));
        }
        ids
    }

    /// Fit the viewport to the current content: zoom to the node bounding
    /// box expanded by a fixed margin, shrunk a tenth and clamped, with the
    /// pan recomputed to center that box.  Nothing to fit leaves the view
    /// unchanged.
    pub fn fit_to_content(&mut self)
        requires
            old(self).wf(),
        ensures
            final(self).wf(),
            final(self).spec_config() == old(self).spec_config(),
            final(self).spec_nodes() == old(self).spec_nodes(),
            final(self).spec_edges() == old(self).spec_edges(),
            final(self).spec_selected() == old(self).spec_selected(),
            final(self).spec_running() == old(self).spec_running(),
            old(self).spec_nodes().len() == 0 ==> *final(self) == *old(self),
            old(self).spec_nodes().len() > 0 ==> {
                let s = old(self).spec_nodes();
                let n = s.len() as int;
                let content_w = max_x_of(s, n) - min_x_of(s, n) + 100_000;
                let content_h = max_y_of(s, n) - min_y_of(s, n) + 100_000;
                let w_m = old(self).spec_config().width as int * 1000;
                let h_m = old(self).spec_config().height as int * 1000;
                let ratio = min_int(w_m * 1000 / content_w, h_m * 1000 / content_h);
                let z = clamped(tdiv(ratio * 900, 1000), 300, 2000);
                &&& final(self).spec_zoom() as int == z
                &&& final(self).spec_pan().0 as int == tdiv(w_m - tdiv(content_w * z, 1000), 2)
                    - tdiv(min_x_of(s, n) * z, 1000) + 50_000
                &&& final(self).spec_pan().1 as int == tdiv(h_m - tdiv(content_h * z, 1000), 2)
                    - tdiv(min_y_of(s, n) * z, 1000) + 50_000
            },
    {
        let n = self.nodes.len();
        if n == 0 {
            return ;
        }
        let mut min_x = self.nodes[0].x;
        let mut max_x = self.nodes[0].x;
        let mut min_y = self.nodes[0].y;
        let mut max_y = self.nodes[0].y;
        let mut i: usize = 1;
        while i < n
            invariant
                self.wf(),
                n == self.spec_nodes().len(),
                0 < n,
                1 <= i <= n,
                min_x as int == min_x_of(self.spec_nodes(), i as int),
                max_x as int == max_x_of(self.spec_nodes(), i as int),
                min_y as int == min_y_of(self.spec_nodes(), i as int),
                max_y as int == max_y_of(self.spec_nodes(), i as int),
                -POS_LIMIT <= min_x <= POS_LIMIT,
                -POS_LIMIT <= max_x <= POS_LIMIT,
                -POS_LIMIT <= min_y <= POS_LIMIT,
                -POS_LIMIT <= max_y <= POS_LIMIT,
                min_x <= max_x,
                min_y <= max_y,
            decreases n - i,
        {
            let node = &self.nodes[i];
            if node.x < min_x {
                min_x = node.x;
            }
            if node.x > max_x {
                max_x = node.x;
            }
            if node.y < min_y {
                min_y = node.y;
            }
            if node.y > max_y {
                max_y = node.y;
            }
            i += 1;
        }
        let content_w = max_x - min_x + 100_000;
        let content_h = max_y - min_y + 100_000;
        let w_m = (self.config.width as i64) * 1000;
        let h_m = (self.config.height as i64) * 1000;
        proof {
            lemma_div_pos_is_pos(w_m as int * 1000, content_w as int);
            lemma_div_pos_is_pos(h_m as int * 1000, content_h as int);
            lemma_div_is_ordered_by_denominator_local(w_m as int * 1000, 100_000, content_w as int);
            lemma_div_is_ordered_by_denominator_local(h_m as int * 1000, 100_000, content_h as int);
            lemma_div_is_ordered(w_m as int * 1000, 100_000_000_000, 100_000);
            lemma_div_is_ordered(h_m as int * 1000, 100_000_000_000, 100_000);
        }
        let rx = (w_m * 1000) / content_w;
        let ry = (h_m * 1000) / content_h;
        let ratio = if rx < ry {
            rx
        } else {
            ry
        };
        proof {
            lemma_tdiv_bounds(ratio as int * 900, 1000);
        }
        let z = clamp_i64((ratio * 900) / 1000, 300, 2000);
        proof {
            assert(0 <= content_w as int * z as int <= 4_100_000_000int * 1000)
                by (nonlinear_arith)
                requires
                    0 <= content_w as int <= 2_000_100_000 && 0 <= z as int <= 2000,
            ;
            assert(0 <= content_h as int * z as int <= 4_100_000_000int * 1000)
                by (nonlinear_arith)
                requires
                    0 <= content_h as int <= 2_000_100_000 && 0 <= z as int <= 2000,
            ;
            lemma_tdiv_bound_by(content_w as int * z as int, 1000, 4_100_000_000);
            lemma_tdiv_bound_by(content_h as int * z as int, 1000, 4_100_000_000);
            assert(-(2_000_000_000int * 1000) <= min_x as int * z as int <= 2_000_000_000int
                * 1000) by (nonlinear_arith)
                requires
                    -1_000_000_000 <= min_x as int <= 1_000_000_000 && 0 <= z as int <= 2000,
            ;
            assert(-(2_000_000_000int * 1000) <= min_y as int * z as int <= 2_000_000_000int
                * 1000) by (nonlinear_arith)
                requires
                    -1_000_000_000 <= min_y as int <= 1_000_000_000 && 0 <= z as int <= 2000,
            ;
            lemma_tdiv_bound_by(min_x as int * z as int, 1000, 2_000_000_000);
            lemma_tdiv_bound_by(min_y as int * z as int, 1000, 2_000_000_000);
            lemma_tdiv_bounds(w_m as int - tdiv(content_w as int * z as int, 1000), 2);
            lemma_tdiv_bounds(h_m as int - tdiv(content_h as int * z as int, 1000), 2);
        }
        self.zoom = z;
        self.pan_x = (w_m - (content_w * z) / 1000) / 2 - (min_x * z) / 1000 + 50_000;
        self.pan_y = (h_m - (content_h * z) / 1000) / 2 - (min_y * z) / 1000 + 50_000;
    }

    /// Aggregate statistics.
    pub fn get_stats(&self) -> (s: NetworkStats)
        requires
            self.wf(),
        ensures
            s.node_count == self.spec_nodes().len(),
            s.edge_count == self.spec_edges().len(),
            s.assessor_count as int == assessor_count_of(
                self.spec_nodes(),
                self.spec_nodes().len() as int,
            ),
            s.application_count as int == self.spec_nodes().len() - assessor_count_of(
                self.spec_nodes(),
                self.spec_nodes().len() as int,
            ),
            s.selected_count == self.spec_selected().len(),
            s.zoom_milli == self.spec_zoom(),
            s.simulation_running == self.spec_running(),
    {
        let n = self.nodes.len();
        let mut assessors: usize = 0;
        let mut i: usize = 0;
        while i < n
            invariant
                self.wf(),
                n == self.spec_nodes().len(),
                i <= n,
                assessors as int == assessor_count_of(self.spec_nodes(), i as int),
                assessors <= i,
            decreases n - i,
        {
            if matches!(self.nodes[i].node_type, NodeType::Assessor) {
                assessors += 1;
            }
            i += 1;
        }
        NetworkStats {
            node_count: n,
            edge_count: self.edges.len(),
            assessor_count: assessors,
            application_count: n - assessors,
            selected_count: self.selected_nodes.len(),
            zoom_milli: self.zoom,
            simulation_running: self.simulation_running,
        }
    }
}

/// Smallest horizontal position among the first `n` nodes.
pub open spec fn min_x_of(s: Seq<PhysicsNode>, n: int) -> int
    decreases n,
{
    if n <= 1 {
        if s.len() > 0 {
            s[0].x as int
        } else {
            0
        }
    } else {
        min_int(min_x_of(s, n - 1), s[n - 1].x as int)
    }
}

/// Largest horizontal position among the first `n` nodes.
pub open spec fn max_x_of(s: Seq<PhysicsNode>, n: int) -> int
    decreases n,
{
    if n <= 1 {
        if s.len() > 0 {
            s[0].x as int
        } else {
            0
        }
    } else {
        max_int(max_x_of(s, n - 1), s[n - 1].x as int)
    }
}

/// Smallest vertical position among the first `n` nodes.
pub open spec fn min_y_of(s: Seq<PhysicsNode>, n: int) -> int
    decreases n,
{
    if n <= 1 {
        if s.len() > 0 {
            s[0].y as int
        } else {
            0
        }
    } else {
        min_int(min_y_of(s, n - 1), s[n - 1].y as int)
    }
}

/// Largest vertical position among the first `n` nodes.
pub open spec fn max_y_of(s: Seq<PhysicsNode>, n: int) -> int
    decreases n,
{
    if n <= 1 {
        if s.len() > 0 {
            s[0].y as int
        } else {
            0
        }
    } else {
        max_int(max_y_of(s, n - 1), s[n - 1].y as int)
    }
}

/// The still-valid entries of a selection: those indexing an existing
/// node, in order.
pub open spec fn spec_live_selection_upto(
    sel: Seq<usize>,
    nodes: Seq<PhysicsNode>,
    k: int,
) -> Seq<usize>
    decreases k,
{
    if k <= 0 {
        Seq::empty()
    } else {
        spec_live_selection_upto(sel, nodes, k - 1) + if (sel[k - 1] as int) < nodes.len() {
            seq![sel[k - 1]]
        } else {
            Seq::empty()
        }
    }
}

pub open spec fn spec_live_selection(sel: Seq<usize>, nodes: Seq<PhysicsNode>) -> Seq<usize> {
    spec_live_selection_upto(sel, nodes, sel.len() as int)
}

/// Executable node hit check, exactly `node_hit`.
pub fn hit_node_exec(n: &PhysicsNode, tx: i64, ty: i64) -> (b: bool)
    requires
        n.in_range(),
        -4_000_000_000_000 <= tx <= 4_000_000_000_000,
        -4_000_000_000_000 <= ty <= 4_000_000_000_000,
    ensures
        b == node_hit(*n, tx as int, ty as int),
{
    let dx = tx - n.x;
    let dy = ty - n.y;
    if !(-200_000_000 <= dx && dx <= 200_000_000 && -200_000_000 <= dy && dy <= 200_000_000) {
        return false;
    }
    proof {
        assert(0 <= dx as int * dx as int <= 40_000_000_000_000_000int) by (nonlinear_arith)
            requires
                -200_000_000 <= dx as int <= 200_000_000,
        ;
        assert(0 <= dy as int * dy as int <= 40_000_000_000_000_000int) by (nonlinear_arith)
            requires
                -200_000_000 <= dy as int <= 200_000_000,
        ;
        assert(0 <= (n.size as int * 3 / 2) * (n.size as int * 3 / 2)
            <= 25_000_000_000_000_000int) by (nonlinear_arith)
            requires
                0 <= n.size as int * 3 / 2 <= 150_000_000,
        ;
        lemma_div_pos_is_pos(n.size as int * 3, 2);
        lemma_div_is_ordered(n.size as int * 3, 300_000_000, 2);
    }
    let r = n.size * 3 / 2;
    dx * dx + dy * dy < r * r
}

/// What a precomputed edge-resolution entry must be.
pub open spec fn resolved_matches(
    r: Option<(usize, usize)>,
    nodes: Seq<PhysicsNode>,
    e: NetworkEdge,
) -> bool {
    match edge_endpoints(nodes, e) {
        Some(st) => r == Some((st.0 as usize, st.1 as usize)) && 0 <= st.0 < nodes.len() && 0
            <= st.1 < nodes.len(),
        None => r is None,
    }
}

/// Executable scan for a node index by identifier.
fn find_index_exec(nodes: &Vec<PhysicsNode>, id: &String) -> (r: Option<usize>)
    ensures
        r matches Some(i) ==> i as int == find_by_id(nodes@, id@, 0) && (i as int) < nodes@.len(),
        r is None ==> find_by_id(nodes@, id@, 0) == nodes@.len(),
{
    let n = nodes.len();
    let mut i: usize = 0;
    while i < n
        invariant
            n == nodes@.len(),
            i <= n,
            find_by_id(nodes@, id@, 0) == find_by_id(nodes@, id@, i as int),
        decreases n - i,
    {
        if nodes[i].id == *id {
            proof {
                assert(find_by_id(nodes@, id@, i as int) == i as int);
            }
            return Some(i);
        }
        i += 1;
    }
    None
}

/// Any component of a vector is bounded in magnitude by the floor square
/// root of its squared length (given the defining root bounds).
pub proof fn lemma_component_le_root(dx: int, dy: int, r: int)
    requires
        r >= 0,
        r * r <= dx * dx + dy * dy,
        dx * dx + dy * dy < (r + 1) * (r + 1),
    ensures
        -r <= dx <= r,
        -r <= dy <= r,
{
    assert(dx * dx >= 0 && dy * dy >= 0) by (nonlinear_arith);
    if dx >= r + 1 {
        assert(dx * dx >= (r + 1) * (r + 1)) by (nonlinear_arith)
            requires
                dx >= r + 1 && r + 1 >= 0,
        ;
    }
    if dx <= -(r + 1) {
        assert(dx * dx >= (r + 1) * (r + 1)) by (nonlinear_arith)
            requires
                dx <= -(r + 1) && r + 1 >= 0,
        ;
    }
    if dy >= r + 1 {
        assert(dy * dy >= (r + 1) * (r + 1)) by (nonlinear_arith)
            requires
                dy >= r + 1 && r + 1 >= 0,
        ;
    }
    if dy <= -(r + 1) {
        assert(dy * dy >= (r + 1) * (r + 1)) by (nonlinear_arith)
            requires
                dy <= -(r + 1) && r + 1 >= 0,
        ;
    }
}

/// Executable repulsion between two nodes, exactly `rep_force`.
fn rep_force_exec(a: &PhysicsNode, b: &PhysicsNode, s: i64) -> (f: (i64, i64))
    requires
        a.in_range(),
        b.in_range(),
        0 <= s <= REPULSION_LIMIT,
    ensures
        f.0 as int == rep_force(*a, *b, s as int).0,
        f.1 as int == rep_force(*a, *b, s as int).1,
        -10_000_000_000 <= f.0 <= 10_000_000_000,
        -10_000_000_000 <= f.1 <= 10_000_000_000,
{
    let dx = b.x - a.x;
    let dy = b.y - a.y;
    proof {
        assert(0 <= dx as int * dx as int <= 4_000_000_000_000_000_000int) by (nonlinear_arith)
            requires
                -2_000_000_000 <= dx as int <= 2_000_000_000,
        ;
        assert(0 <= dy as int * dy as int <= 4_000_000_000_000_000_000int) by (nonlinear_arith)
            requires
                -2_000_000_000 <= dy as int <= 2_000_000_000,
        ;
    }
    let dist_sq = dx * dx + dy * dy;
    let dsq = if dist_sq > 1_000_000 {
        dist_sq
    } else {
        1_000_000
    };
    let num = s * 1_000_000_000;
    proof {
        lemma_div_is_ordered_by_denominator_local(num as int, 1_000_000, dsq as int);
        lemma_div_is_ordered(num as int, 10_000_000_000_000_000, 1_000_000);
        lemma_div_pos_is_pos(num as int, dsq as int);
    }
    let fmag = num / dsq;
    let d64 = isqrt64(dist_sq as u64);
    let droot = d64 as i64;
    let d = if droot > 1000 {
        droot
    } else {
        1000
    };
    proof {
        lemma_component_le_root(dx as int, dy as int, droot as int);
        lemma_tdiv_bound_by(dx as int * 1000, d as int, 1000);
        lemma_tdiv_bound_by(dy as int * 1000, d as int, 1000);
    }
    let qx = (dx * 1000) / d;
    let qy = (dy * 1000) / d;
    proof {
        assert(-(10_000_000_000int * 1000) <= fmag as int * qx as int <= 10_000_000_000int * 1000)
            by (nonlinear_arith)
            requires
                0 <= fmag as int <= 10_000_000_000 && -1000 <= qx as int <= 1000,
        ;
        assert(-(10_000_000_000int * 1000) <= fmag as int * qy as int <= 10_000_000_000int * 1000)
            by (nonlinear_arith)
            requires
                0 <= fmag as int <= 10_000_000_000 && -1000 <= qy as int <= 1000,
        ;
        lemma_tdiv_bound_by(fmag as int * qx as int, 1000, 10_000_000_000);
        lemma_tdiv_bound_by(fmag as int * qy as int, 1000, 10_000_000_000);
    }
    let fx = (fmag * qx) / 1000;
    let fy = (fmag * qy) / 1000;
    (-fx, -fy)
}

/// Executable spring attraction along an edge, exactly `att_force`.
fn att_force_exec(a: &PhysicsNode, b: &PhysicsNode, w: i64, att: i64) -> (f: (i64, i64))
    requires
        a.in_range(),
        b.in_range(),
        -WEIGHT_LIMIT <= w <= WEIGHT_LIMIT,
        0 <= att <= ATTRACTION_LIMIT,
    ensures
        f.0 as int == att_force(*a, *b, w as int, att as int).0,
        f.1 as int == att_force(*a, *b, w as int, att as int).1,
        -2_000_000_000_000_000 <= f.0 <= 2_000_000_000_000_000,
        -2_000_000_000_000_000 <= f.1 <= 2_000_000_000_000_000,
{
    let dx = b.x - a.x;
    let dy = b.y - a.y;
    proof {
        assert(-2_000_000_000_000_000int <= dx as int * att as int <= 2_000_000_000_000_000int)
            by (nonlinear_arith)
            requires
                -2_000_000_000 <= dx as int <= 2_000_000_000 && 0 <= att as int <= 1_000_000,
        ;
        assert(-2_000_000_000_000_000int <= dy as int * att as int <= 2_000_000_000_000_000int)
            by (nonlinear_arith)
            requires
                -2_000_000_000 <= dy as int <= 2_000_000_000 && 0 <= att as int <= 1_000_000,
        ;
        lemma_tdiv_bound_by(dx as int * att as int, 1000, 2_000_000_000_000);
        lemma_tdiv_bound_by(dy as int * att as int, 1000, 2_000_000_000_000);
    }
    let qx = (dx * att) / 1000;
    let qy = (dy * att) / 1000;
    proof {
        assert(-2_000_000_000_000_000_000int <= qx as int * w as int
            <= 2_000_000_000_000_000_000int) by (nonlinear_arith)
            requires
                -2_000_000_000_000 <= qx as int <= 2_000_000_000_000 && -1_000_000 <= w as int
                    <= 1_000_000,
        ;
        assert(-2_000_000_000_000_000_000int <= qy as int * w as int
            <= 2_000_000_000_000_000_000int) by (nonlinear_arith)
            requires
                -2_000_000_000_000 <= qy as int <= 2_000_000_000_000 && -1_000_000 <= w as int
                    <= 1_000_000,
        ;
        lemma_tdiv_bound_by(qx as int * w as int, 1000, 2_000_000_000_000_000);
        lemma_tdiv_bound_by(qy as int * w as int, 1000, 2_000_000_000_000_000);
    }
    ((qx * w) / 1000, (qy * w) / 1000)
}

/// Executable center gravity, exactly `grav_force`.
fn grav_force_exec(n: &PhysicsNode, g: i64, cx: i64, cy: i64) -> (f: (i64, i64))
    requires
        n.in_range(),
        0 <= g <= 1000,
        0 <= cx <= 50_000_000,
        0 <= cy <= 50_000_000,
    ensures
        f.0 as int == grav_force(*n, g as int, cx as int, cy as int).0,
        f.1 as int == grav_force(*n, g as int, cx as int, cy as int).1,
        -1_100_000_000 <= f.0 <= 1_100_000_000,
        -1_100_000_000 <= f.1 <= 1_100_000_000,
{
    let dx = cx - n.x;
    let dy = cy - n.y;
    proof {
        assert(-1_100_000_000_000int <= dx as int * g as int <= 1_100_000_000_000int)
            by (nonlinear_arith)
            requires
                -1_100_000_000 <= dx as int <= 1_100_000_000 && 0 <= g as int <= 1000,
        ;
        assert(-1_100_000_000_000int <= dy as int * g as int <= 1_100_000_000_000int)
            by (nonlinear_arith)
            requires
                -1_100_000_000 <= dy as int <= 1_100_000_000 && 0 <= g as int <= 1000,
        ;
        lemma_tdiv_bound_by(dx as int * g as int, 1000, 1_100_000_000);
        lemma_tdiv_bound_by(dy as int * g as int, 1000, 1_100_000_000);
    }
    ((dx * g) / 1000, (dy * g) / 1000)
}

/// Executable velocity integration of one node, exactly `integrate`, also
/// yielding the movement it contributes to the settle check.
fn integrate_exec(node: PhysicsNode, fx: i64, fy: i64, damping: i64) -> (r: (PhysicsNode, i64))
    requires
        node.in_range(),
        -FORCE_LIMIT <= fx <= FORCE_LIMIT,
        -FORCE_LIMIT <= fy <= FORCE_LIMIT,
        0 <= damping <= 1000,
    ensures
        r.0 == integrate(node, fx as int, fy as int, damping as int),
        r.1 as int == tick_speed(node, fx as int, fy as int, damping as int),
        r.0.in_range(),
        0 <= r.1 <= 2_000_000,
{
    let sx = node.vx + fx;
    let sy = node.vy + fy;
    proof {
        assert(-1_100_000_000_000_000_000int <= sx as int * damping as int
            <= 1_100_000_000_000_000_000int) by (nonlinear_arith)
            requires
                -1_000_001_000_000_000 <= sx as int <= 1_000_001_000_000_000 && 0 <= damping as int
                    <= 1000,
        ;
        assert(-1_100_000_000_000_000_000int <= sy as int * damping as int
            <= 1_100_000_000_000_000_000int) by (nonlinear_arith)
            requires
                -1_000_001_000_000_000 <= sy as int <= 1_000_001_000_000_000 && 0 <= damping as int
                    <= 1000,
        ;
    }
    let vx1 = clamp_i64((sx * damping) / 1000, -VEL_LIMIT, VEL_LIMIT);
    let vy1 = clamp_i64((sy * damping) / 1000, -VEL_LIMIT, VEL_LIMIT);
    proof {
        assert(0 <= vx1 as int * vx1 as int <= 1_000_000_000_000int) by (nonlinear_arith)
            requires
                -1_000_000 <= vx1 as int <= 1_000_000,
        ;
        assert(0 <= vy1 as int * vy1 as int <= 1_000_000_000_000int) by (nonlinear_arith)
            requires
                -1_000_000 <= vy1 as int <= 1_000_000,
        ;
    }
    let sq = vx1 * vx1 + vy1 * vy1;
    let speed64 = isqrt64(sq as u64);
    let speed = speed64 as i64;
    proof {
        if speed as int > 2_000_000 {
            assert(speed as int * speed as int > 2_000_000_000_000int) by (nonlinear_arith)
                requires
                    speed as int > 2_000_000,
            ;
        }
    }
    let (vx2, vy2) = if speed > MAX_SPEED {
        proof {
            lemma_component_le_root(vx1 as int, vy1 as int, speed as int);
            lemma_tdiv_bound_by(vx1 as int * MAX_SPEED, speed as int, MAX_SPEED as int);
            lemma_tdiv_bound_by(vy1 as int * MAX_SPEED, speed as int, MAX_SPEED as int);
            assert(-(MAX_SPEED as int * speed as int) <= vx1 as int * MAX_SPEED
                <= MAX_SPEED as int * speed as int) by (nonlinear_arith)
                requires
                    -speed as int <= vx1 as int <= speed as int && MAX_SPEED as int > 0,
            ;
            assert(-(MAX_SPEED as int * speed as int) <= vy1 as int * MAX_SPEED
                <= MAX_SPEED as int * speed as int) by (nonlinear_arith)
                requires
                    -speed as int <= vy1 as int <= speed as int && MAX_SPEED as int > 0,
            ;
        }
        ((vx1 * MAX_SPEED) / speed, (vy1 * MAX_SPEED) / speed)
    } else {
        (vx1, vy1)
    };
    let nx = clamp_i64(node.x + vx2, -POS_LIMIT, POS_LIMIT);
    let ny = clamp_i64(node.y + vy2, -POS_LIMIT, POS_LIMIT);
    (PhysicsNode { x: nx, y: ny, vx: vx2, vy: vy2, ..node }, speed)
}

/// Seed one node onto its type ring: the executable mirror of
/// `place_node`, also returning the generator state after its two draws.
#[verifier::rlimit(100)]
fn place_one(
    node: NetworkNode,
    i: usize,
    n: usize,
    config: &ChartConfig,
    ring: i64,
    cx: i64,
    cy: i64,
    seed: u64,
) -> (r: (PhysicsNode, u64))
    requires
        config.valid(),
        node.in_range(),
        i < n,
        n <= MAX_NODES,
        ring == spec_ring_radius(*config),
        100_000 <= ring <= 34_000_000,
        cx == config.width as int * 500,
        cy == config.height as int * 500,
    ensures
        r.0 == place_node(node, i as int, n as int, *config, seed),
        r.0.in_range(),
        r.1 == lcg_next(lcg_next(seed)),
{
    proof {
        reveal(place_node);
    }
    let angle = ((i as i64) * 360_000) / (n as i64);
    proof {
        assert(0 <= i as int * 360_000 <= 3_600_000_000int) by (nonlinear_arith)
            requires
                0 <= i as int <= 10_000,
        ;
        lemma_div_pos_is_pos(i as int * 360_000, n as int);
        assert(i as int * 360_000 < n as int * 360_000) by (nonlinear_arith)
            requires
                0 <= i as int && (i as int) < (n as int),
        ;
        assert((i as int * 360_000) / (n as int) < 360_000) by {
            vstd::arithmetic::div_mod::lemma_multiply_divide_lt(
                i as int * 360_000,
                n as int,
                360_000,
            );
        }
    }
    let r = if matches!(node.node_type, NodeType::Assessor) {
        ring * 2 / 5
    } else {
        ring * 9 / 10
    };
    let s1 = lcg_step(seed);
    let s2 = lcg_step(s1);
    let j1 = jitter_from(s1);
    let j2 = jitter_from(s2);
    let cosv = cos_milli_exec(angle);
    let sinv = sin_milli_exec(angle);
    proof {
        lemma_tdiv_bound_by(ring as int * 2, 5, 13_600_000);
        lemma_tdiv_bound_by(ring as int * 9, 10, 30_600_000);
        assert(-(34_000_000int * 1000) <= r as int * cosv as int <= 34_000_000int * 1000)
            by (nonlinear_arith)
            requires
                0 <= r as int <= 34_000_000 && -1000 <= cosv as int <= 1000,
        ;
        assert(-(34_000_000int * 1000) <= r as int * sinv as int <= 34_000_000int * 1000)
            by (nonlinear_arith)
            requires
                0 <= r as int <= 34_000_000 && -1000 <= sinv as int <= 1000,
        ;
    }
    let rc = r * cosv;
    let rs = r * sinv;
    proof {
        lemma_tdiv_bound_by(rc as int, 1000, 34_000_000);
        lemma_tdiv_bound_by(rs as int, 1000, 34_000_000);
    }
    let px = cx + rc / 1000 + j1;
    let py = cy + rs / 1000 + j2;
    let size_px = match node.size {
        Some(s) => s,
        None => if matches!(node.node_type, NodeType::Assessor) {
            20
        } else {
            12
        },
    };
    let color = match node.color {
        Some(c) => c,
        None => if matches!(node.node_type, NodeType::Assessor) {
            config.theme.primary.clone()
        } else {
            config.theme.secondary.clone()
        },
    };
    (
        PhysicsNode {
            id: node.id,
            label: node.label,
            node_type: node.node_type,
            x: px,
            y: py,
            vx: 0,
            vy: 0,
            size: size_px * 1000,
            color,
            fixed: false,
            metadata: node.metadata,
        },
        s2,
    )
}

/// Executable first-hit scan over the node list.
pub fn first_hit_exec(nodes: &Vec<PhysicsNode>, tx: i64, ty: i64) -> (r: Option<usize>)
    requires
        forall|j: int| 0 <= j < nodes@.len() ==> (#[trigger] nodes@[j]).in_range(),
        -4_000_000_000_000 <= tx <= 4_000_000_000_000,
        -4_000_000_000_000 <= ty <= 4_000_000_000_000,
    ensures
        r matches Some(i) ==> i as int == first_node_hit(nodes@, tx as int, ty as int, 0) && (
        i as int) < nodes@.len(),
        r is None ==> first_node_hit(nodes@, tx as int, ty as int, 0) == nodes@.len(),
{
    let n = nodes.len();
    let mut i: usize = 0;
    while i < n
        invariant
            forall|j: int| 0 <= j < nodes@.len() ==> (#[trigger] nodes@[j]).in_range(),
            -4_000_000_000_000 <= tx <= 4_000_000_000_000,
            -4_000_000_000_000 <= ty <= 4_000_000_000_000,
            n == nodes@.len(),
            i <= n,
            first_node_hit(nodes@, tx as int, ty as int, 0) == first_node_hit(
                nodes@,
                tx as int,
                ty as int,
                i as int,
            ),
        decreases n - i,
    {
        if hit_node_exec(&nodes[i], tx, ty) {
            proof {
                assert(first_node_hit(nodes@, tx as int, ty as int, i as int) == i as int);
            }
            return Some(i);
        }
        i += 1;
    }
    None
}

/// Executable first-position scan over a selection list.
fn find_pos_exec(sel: &Vec<usize>, v: usize) -> (r: Option<usize>)
    ensures
        r matches Some(p) ==> p as int == find_pos(sel@, v, 0) && (p as int) < sel@.len(),
        r is None ==> find_pos(sel@, v, 0) == sel@.len(),
{
    let m = sel.len();
    let mut k: usize = 0;
    while k < m
        invariant
            m == sel@.len(),
            k <= m,
            find_pos(sel@, v, 0) == find_pos(sel@, v, k as int),
        decreases m - k,
    {
        if sel[k] == v {
            proof {
                assert(find_pos(sel@, v, k as int) == k as int);
            }
            return Some(k);
        }
        k += 1;
    }
    None
}

/// The floor square root exists and has its defining bounds.
pub proof fn lemma_sqrt_props(n: int)
    requires
        n >= 0,
    ensures
        sqrt_floor(n) >= 0,
        sqrt_floor(n) * sqrt_floor(n) <= n,
        n < (sqrt_floor(n) + 1) * (sqrt_floor(n) + 1),
    decreases n,
{
    if n == 0 {
        assert(exists|r: int| r >= 0 && #[trigger] (r * r) <= n && n < (r + 1) * (r + 1)) by {
            assert(0int * 0int <= n && n < (0int + 1) * (0int + 1));
        }
    } else {
        lemma_sqrt_props(n - 1);
        let r = sqrt_floor(n - 1);
        if (r + 1) * (r + 1) <= n {
            assert(exists|w: int| w >= 0 && #[trigger] (w * w) <= n && n < (w + 1) * (w + 1)) by {
                assert(n - 1 < (r + 1) * (r + 1));
                assert((r + 1) * (r + 1) <= n && n < (r + 2) * (r + 2)) by (nonlinear_arith)
                    requires
                        r >= 0 && (r + 1) * (r + 1) <= n && n <= (r + 1) * (r + 1),
                ;
            }
        } else {
            assert(exists|w: int| w >= 0 && #[trigger] (w * w) <= n && n < (w + 1) * (w + 1)) by {
                assert(r >= 0 && r * r <= n && n < (r + 1) * (r + 1));
            }
        }
        let w = sqrt_floor(n);
        assert(w >= 0 && w * w <= n && n < (w + 1) * (w + 1));
    }
}

/// Scaling a truncated quotient back up never exceeds the dividend:
/// `b * |a / b| <= |a|`.
pub proof fn lemma_tdiv_scaled(a: int, b: int)
    requires
        b >= 1,
    ensures
        b * abs_int(tdiv(a, b)) <= abs_int(a),
{
    if a >= 0 {
        vstd::arithmetic::div_mod::lemma_fundamental_div_mod(a, b);
        vstd::arithmetic::div_mod::lemma_remainder_lower(a, b);
        lemma_tdiv_bounds(a, b);
    } else {
        vstd::arithmetic::div_mod::lemma_fundamental_div_mod(-a, b);
        vstd::arithmetic::div_mod::lemma_remainder_lower(-a, b);
        lemma_tdiv_bounds(a, b);
    }
}

/// A step of bounded size toward a target lands between start and target:
/// it never increases the distance and never passes the target.
proof fn lemma_step_toward(x: int, c: int, v: int)
    requires
        abs_int(v) <= abs_int(c - x),
        c - x >= 0 ==> v >= 0,
        c - x <= 0 ==> v <= 0,
    ensures
        abs_int(x + v - c) <= abs_int(x - c),
        min_int(x, c) <= x + v <= max_int(x, c),
{
}

/// Integration of a resting node under a force that points toward a target
/// and does not overshoot it moves the node no farther from the target:
/// the damping factor, the velocity clamp and the speed limit only shrink
/// the step, never flip it.
pub proof fn lemma_integrate_toward(n: PhysicsNode, fx: int, fy: int, damping: int, cx: int, cy: int)
    requires
        n.in_range(),
        0 <= damping <= 1000,
        n.vx == 0,
        n.vy == 0,
        abs_int(fx) <= abs_int(cx - n.x),
        cx - n.x >= 0 ==> fx >= 0,
        cx - n.x <= 0 ==> fx <= 0,
        abs_int(fy) <= abs_int(cy - n.y),
        cy - n.y >= 0 ==> fy >= 0,
        cy - n.y <= 0 ==> fy <= 0,
        -POS_LIMIT <= cx <= POS_LIMIT,
        -POS_LIMIT <= cy <= POS_LIMIT,
    ensures
        abs_int(integrate(n, fx, fy, damping).x - cx) <= abs_int(n.x - cx),
        abs_int(integrate(n, fx, fy, damping).y - cy) <= abs_int(n.y - cy),
        min_int(n.x as int, cx) <= integrate(n, fx, fy, damping).x <= max_int(n.x as int, cx),
        min_int(n.y as int, cy) <= integrate(n, fx, fy, damping).y <= max_int(n.y as int, cy),
{
    let tx = tdiv((n.vx + fx) * damping, 1000);
    let ty = tdiv((n.vy + fy) * damping, 1000);
    assert(fx * damping <= abs_int(fx) * 1000 && -(abs_int(fx) * 1000) <= fx * damping)
        by (nonlinear_arith)
        requires
            0 <= damping <= 1000,
    ;
    assert(fy * damping <= abs_int(fy) * 1000 && -(abs_int(fy) * 1000) <= fy * damping)
        by (nonlinear_arith)
        requires
            0 <= damping <= 1000,
    ;
    lemma_tdiv_bound_by(fx * damping, 1000, abs_int(fx));
    lemma_tdiv_bound_by(fy * damping, 1000, abs_int(fy));
    assert(fx >= 0 ==> fx * damping >= 0) by (nonlinear_arith)
        requires
            damping >= 0,
    ;
    assert(fx <= 0 ==> fx * damping <= 0) by (nonlinear_arith)
        requires
            damping >= 0,
    ;
    assert(fy >= 0 ==> fy * damping >= 0) by (nonlinear_arith)
        requires
            damping >= 0,
    ;
    assert(fy <= 0 ==> fy * damping <= 0) by (nonlinear_arith)
        requires
            damping >= 0,
    ;
    lemma_tdiv_bounds(fx * damping, 1000);
    lemma_tdiv_bounds(fy * damping, 1000);
    let vx1 = clamped(tx, -VEL_LIMIT as int, VEL_LIMIT as int);
    let vy1 = clamped(ty, -VEL_LIMIT as int, VEL_LIMIT as int);
    assert(abs_int(vx1) <= abs_int(fx) && (fx >= 0 ==> vx1 >= 0) && (fx <= 0 ==> vx1 <= 0));
    assert(abs_int(vy1) <= abs_int(fy) && (fy >= 0 ==> vy1 >= 0) && (fy <= 0 ==> vy1 <= 0));
    assert(vx1 * vx1 >= 0 && vy1 * vy1 >= 0) by (nonlinear_arith);
    lemma_sqrt_props(vx1 * vx1 + vy1 * vy1);
    let speed = sqrt_floor(vx1 * vx1 + vy1 * vy1);
    if speed > MAX_SPEED as int {
        lemma_component_le_root(vx1, vy1, speed);
        assert(vx1 * MAX_SPEED <= abs_int(vx1) * speed && -(abs_int(vx1) * speed) <= vx1
            * MAX_SPEED) by (nonlinear_arith)
            requires
                speed >= MAX_SPEED as int && MAX_SPEED as int > 0 && -speed <= vx1 <= speed,
        ;
        assert(vy1 * MAX_SPEED <= abs_int(vy1) * speed && -(abs_int(vy1) * speed) <= vy1
            * MAX_SPEED) by (nonlinear_arith)
            requires
                speed >= MAX_SPEED as int && MAX_SPEED as int > 0 && -speed <= vy1 <= speed,
        ;
        lemma_tdiv_bound_by(vx1 * MAX_SPEED, speed, abs_int(vx1));
        lemma_tdiv_bound_by(vy1 * MAX_SPEED, speed, abs_int(vy1));
        lemma_tdiv_bounds(vx1 * MAX_SPEED, speed);
        lemma_tdiv_bounds(vy1 * MAX_SPEED, speed);
    }
    let vx2 = if speed > MAX_SPEED as int {
        tdiv(vx1 * MAX_SPEED, speed)
    } else {
        vx1
    };
    let vy2 = if speed > MAX_SPEED as int {
        tdiv(vy1 * MAX_SPEED, speed)
    } else {
        vy1
    };
    assert(abs_int(vx2) <= abs_int(cx - n.x) && (cx - n.x >= 0 ==> vx2 >= 0) && (cx - n.x <= 0
        ==> vx2 <= 0));
    assert(abs_int(vy2) <= abs_int(cy - n.y) && (cy - n.y >= 0 ==> vy2 >= 0) && (cy - n.y <= 0
        ==> vy2 <= 0));
    lemma_step_toward(n.x as int, cx, vx2);
    lemma_step_toward(n.y as int, cy, vy2);
    assert(clamped(n.x + vx2, -POS_LIMIT as int, POS_LIMIT as int) == n.x + vx2);
    assert(clamped(n.y + vy2, -POS_LIMIT as int, POS_LIMIT as int) == n.y + vy2);
}

/// Center gravity alone contracts: after a tick, a single unpinned,
/// resting node with no edges stands no farther from the canvas center
/// than before.  Ticks never move it away, so it converges toward the
/// center until movement falls under the settle threshold.
pub proof fn lemma_single_node_gravity_contracts(chart: NetworkGraphChart)
    requires
        chart.wf(),
        chart.spec_nodes().len() == 1,
        chart.spec_edges().len() == 0,
        !chart.spec_nodes()[0].fixed,
        chart.spec_dragging() is None,
        chart.spec_nodes()[0].vx == 0,
        chart.spec_nodes()[0].vy == 0,
    ensures
        ({
            let cx = chart.spec_config().width as int * 500;
            let cy = chart.spec_config().height as int * 500;
            let moved = chart.spec_moved_node(0);
            abs_int(moved.x - cx) <= abs_int(chart.spec_nodes()[0].x - cx) && abs_int(
                moved.y - cy,
            ) <= abs_int(chart.spec_nodes()[0].y - cy)
        }),
{
    let nodes = chart.spec_nodes();
    let n = nodes[0];
    let cx = chart.spec_config().width as int * 500;
    let cy = chart.spec_config().height as int * 500;
    let g = chart.spec_gravity() as int;
    let f = chart.spec_net_force(0);
    assert(rep_acc(nodes, 0, 0, chart.spec_repulsion() as int) == (0int, 0int));
    assert(rep_acc(nodes, 0, 1, chart.spec_repulsion() as int) == (0int, 0int));
    assert(att_acc(
        nodes,
        chart.spec_edges(),
        0,
        0,
        chart.spec_attraction() as int,
        (0int, 0int),
    ) == (0int, 0int));
    let gf = grav_force(n, g, cx, cy);
    assert((cx - n.x) * g <= abs_int(cx - n.x) * 1000 && -(abs_int(cx - n.x) * 1000) <= (cx - n.x)
        * g) by (nonlinear_arith)
        requires
            0 <= g <= 1000,
    ;
    assert((cy - n.y) * g <= abs_int(cy - n.y) * 1000 && -(abs_int(cy - n.y) * 1000) <= (cy - n.y)
        * g) by (nonlinear_arith)
        requires
            0 <= g <= 1000,
    ;
    lemma_tdiv_bound_by((cx - n.x) * g, 1000, abs_int(cx - n.x));
    lemma_tdiv_bound_by((cy - n.y) * g, 1000, abs_int(cy - n.y));
    assert(cx - n.x >= 0 ==> (cx - n.x) * g >= 0) by (nonlinear_arith)
        requires
            g >= 0,
    ;
    assert(cx - n.x <= 0 ==> (cx - n.x) * g <= 0) by (nonlinear_arith)
        requires
            g >= 0,
    ;
    assert(cy - n.y >= 0 ==> (cy - n.y) * g >= 0) by (nonlinear_arith)
        requires
            g >= 0,
    ;
    assert(cy - n.y <= 0 ==> (cy - n.y) * g <= 0) by (nonlinear_arith)
        requires
            g >= 0,
    ;
    lemma_tdiv_bounds((cx - n.x) * g, 1000);
    lemma_tdiv_bounds((cy - n.y) * g, 1000);
    assert(f.0 == gf.0 && f.1 == gf.1);
    lemma_integrate_toward(n, f.0, f.1, chart.spec_damping() as int, cx, cy);
}

/// With repulsion and gravity off, a spring between two resting nodes
/// never stretches the pair: after a tick their separation along each axis
/// is no larger in magnitude than before, provided the combined attraction
/// and weight stay within one milli-unit squared (so neither end can
/// overshoot past the other by more than the gap).
#[verifier::rlimit(100)]
pub proof fn lemma_spring_never_stretches(chart: NetworkGraphChart)
    requires
        chart.wf(),
        chart.spec_nodes().len() == 2,
        chart.spec_edges().len() == 1,
        chart.spec_repulsion() == 0,
        chart.spec_gravity() == 0,
        chart.spec_dragging() is None,
        !chart.spec_nodes()[0].fixed,
        !chart.spec_nodes()[1].fixed,
        chart.spec_nodes()[0].vx == 0 && chart.spec_nodes()[0].vy == 0,
        chart.spec_nodes()[1].vx == 0 && chart.spec_nodes()[1].vy == 0,
        chart.spec_nodes()[0].id@ == chart.spec_edges()[0].source@,
        chart.spec_nodes()[1].id@ == chart.spec_edges()[0].target@,
        chart.spec_nodes()[0].id@ != chart.spec_nodes()[1].id@,
        edge_weight(chart.spec_edges()[0]) >= 0,
        chart.spec_attraction() as int * edge_weight(chart.spec_edges()[0]) <= 1_000_000,
    ensures
        abs_int(chart.spec_moved_node(1).x - chart.spec_moved_node(0).x) <= abs_int(
            chart.spec_nodes()[1].x - chart.spec_nodes()[0].x,
        ),
        abs_int(chart.spec_moved_node(1).y - chart.spec_moved_node(0).y) <= abs_int(
            chart.spec_nodes()[1].y - chart.spec_nodes()[0].y,
        ),
{
    let nodes = chart.spec_nodes();
    let edges = chart.spec_edges();
    let a = nodes[0];
    let b = nodes[1];
    let att = chart.spec_attraction() as int;
    let w = edge_weight(edges[0]);
    let damping = chart.spec_damping() as int;
    // Repulsion vanishes at zero strength.
    assert(rep_force(a, b, 0).0 == 0 && rep_force(a, b, 0).1 == 0) by {
        let dx = b.x - a.x;
        let dy = b.y - a.y;
        let dsq = max_int(dx * dx + dy * dy, 1_000_000);
        vstd::arithmetic::div_mod::lemma_div_of0(dsq);
        let d = max_int(sqrt_floor(dx * dx + dy * dy), 1000);
        lemma_tdiv_bounds(dx * 1000, d);
        lemma_tdiv_bounds(dy * 1000, d);
        assert(0 * tdiv(dx * 1000, d) == 0 && 0 * tdiv(dy * 1000, d) == 0) by (nonlinear_arith);
        lemma_tdiv_bound_by(0 * tdiv(dx * 1000, d), 1000, 0);
        lemma_tdiv_bound_by(0 * tdiv(dy * 1000, d), 1000, 0);
    }
    assert(rep_force(b, a, 0).0 == 0 && rep_force(b, a, 0).1 == 0) by {
        let dx = a.x - b.x;
        let dy = a.y - b.y;
        let dsq = max_int(dx * dx + dy * dy, 1_000_000);
        vstd::arithmetic::div_mod::lemma_div_of0(dsq);
        let d = max_int(sqrt_floor(dx * dx + dy * dy), 1000);
        lemma_tdiv_bounds(dx * 1000, d);
        lemma_tdiv_bounds(dy * 1000, d);
        assert(0 * tdiv(dx * 1000, d) == 0 && 0 * tdiv(dy * 1000, d) == 0) by (nonlinear_arith);
        lemma_tdiv_bound_by(0 * tdiv(dx * 1000, d), 1000, 0);
        lemma_tdiv_bound_by(0 * tdiv(dy * 1000, d), 1000, 0);
    }
    assert(rep_acc(nodes, 0, 0, 0) == (0int, 0int));
    assert(rep_acc(nodes, 0, 1, 0) == (0int, 0int));
    assert(rep_acc(nodes, 0, 2, 0) == (0int, 0int));
    assert(rep_acc(nodes, 1, 0, 0) == (0int, 0int));
    assert(rep_acc(nodes, 1, 1, 0) == (0int, 0int));
    assert(rep_acc(nodes, 1, 2, 0) == (0int, 0int));
    // The single edge resolves to the pair in order.
    assert(find_by_id(nodes, edges[0].source@, 0) == 0);
    assert(find_by_id(nodes, edges[0].target@, 1) == 1);
    assert(find_by_id(nodes, edges[0].target@, 0) == 1);
    assert(edge_endpoints(nodes, edges[0]) == Some((0int, 1int)));
    let f = att_force(a, b, w, att);
    let dx = b.x - a.x;
    let dy = b.y - a.y;
    // The spring step cannot exceed the gap itself.
    lemma_att_force_bounded(a, b, w, att);
    // Gravity vanishes at zero strength.
    let cx = chart.spec_config().width as int * 500;
    let cy = chart.spec_config().height as int * 500;
    assert(grav_force(a, 0, cx, cy).0 == 0 && grav_force(a, 0, cx, cy).1 == 0) by {
        assert((cx - a.x) * 0 == 0 && (cy - a.y) * 0 == 0) by (nonlinear_arith);
        lemma_tdiv_bounds(0, 1000);
    }
    assert(grav_force(b, 0, cx, cy).0 == 0 && grav_force(b, 0, cx, cy).1 == 0) by {
        assert((cx - b.x) * 0 == 0 && (cy - b.y) * 0 == 0) by (nonlinear_arith);
        lemma_tdiv_bounds(0, 1000);
    }
    let f0 = chart.spec_net_force(0);
    let f1 = chart.spec_net_force(1);
    assert(abs_int(f.0) <= 2_000_000_000 && abs_int(f.1) <= 2_000_000_000);
    assert(att_acc(nodes, edges, 0, 0, att, (0int, 0int)) == (0int, 0int));
    assert(att_acc(nodes, edges, 0, 1, att, (0int, 0int)) == (f.0, f.1));
    assert(att_acc(nodes, edges, 1, 0, att, (0int, 0int)) == (0int, 0int));
    assert(att_acc(nodes, edges, 1, 1, att, (0int, 0int)) == (-f.0, -f.1));
    assert(f0.0 == f.0 && f0.1 == f.1);
    assert(f1.0 == -f.0 && f1.1 == -f.1);
    // Each end steps toward the other without overshooting past it.
    lemma_integrate_toward(a, f.0, f.1, damping, b.x as int, b.y as int);
    lemma_integrate_toward(b, -f.0, -f.1, damping, a.x as int, a.y as int);
    let ma = integrate(a, f.0, f.1, damping);
    let mb = integrate(b, -f.0, -f.1, damping);
    assert(chart.spec_moved_node(0) == ma);
    assert(chart.spec_moved_node(1) == mb);
    lemma_gap_shrinks(a.x as int, b.x as int, ma.x as int, mb.x as int);
    lemma_gap_shrinks(a.y as int, b.y as int, ma.y as int, mb.y as int);
}

/// The spring force on the source end never exceeds the gap along either
/// axis (given the milli-unit bound on attraction times weight), and it
/// points toward the target.
proof fn lemma_att_force_bounded(a: PhysicsNode, b: PhysicsNode, w: int, att: int)
    requires
        a.in_range(),
        b.in_range(),
        0 <= att,
        0 <= w,
        att * w <= 1_000_000,
    ensures
        abs_int(att_force(a, b, w, att).0) <= abs_int(b.x - a.x),
        abs_int(att_force(a, b, w, att).1) <= abs_int(b.y - a.y),
        b.x - a.x >= 0 ==> att_force(a, b, w, att).0 >= 0,
        b.x - a.x <= 0 ==> att_force(a, b, w, att).0 <= 0,
        b.y - a.y >= 0 ==> att_force(a, b, w, att).1 >= 0,
        b.y - a.y <= 0 ==> att_force(a, b, w, att).1 <= 0,
{
    lemma_att_axis(b.x - a.x, w, att);
    lemma_att_axis(b.y - a.y, w, att);
}

proof fn lemma_att_axis(dx: int, w: int, att: int)
    requires
        0 <= att,
        0 <= w,
        att * w <= 1_000_000,
    ensures
        abs_int(tdiv(tdiv(dx * att, 1000) * w, 1000)) <= abs_int(dx),
        dx >= 0 ==> tdiv(tdiv(dx * att, 1000) * w, 1000) >= 0,
        dx <= 0 ==> tdiv(tdiv(dx * att, 1000) * w, 1000) <= 0,
{
    let t1 = tdiv(dx * att, 1000);
    lemma_tdiv_scaled(dx * att, 1000);
    assert(dx >= 0 ==> dx * att >= 0) by (nonlinear_arith)
        requires
            att >= 0,
    ;
    assert(dx <= 0 ==> dx * att <= 0) by (nonlinear_arith)
        requires
            att >= 0,
    ;
    lemma_tdiv_bounds(dx * att, 1000);
    assert(abs_int(dx * att) == abs_int(dx) * att) by (nonlinear_arith)
        requires
            att >= 0,
    ;
    // 1000 * |t1| <= |dx| * att, so |t1 * w| <= |dx| * 1000.
    assert(abs_int(t1 * w) <= abs_int(dx) * 1000) by (nonlinear_arith)
        requires
            1000 * abs_int(t1) <= abs_int(dx) * att && 0 <= w && att * w <= 1_000_000 && 0 <= att
                && abs_int(dx) >= 0 && abs_int(t1) >= 0,
    ;
    lemma_tdiv_bound_by(t1 * w, 1000, abs_int(dx));
    assert(t1 >= 0 ==> t1 * w >= 0) by (nonlinear_arith)
        requires
            w >= 0,
    ;
    assert(t1 <= 0 ==> t1 * w <= 0) by (nonlinear_arith)
        requires
            w >= 0,
    ;
    lemma_tdiv_bounds(t1 * w, 1000);
}

/// If each of two points steps to somewhere between them, their separation
/// cannot grow.
proof fn lemma_gap_shrinks(ax: int, bx: int, max: int, mbx: int)
    requires
        min_int(ax, bx) <= max <= max_int(ax, bx),
        min_int(ax, bx) <= mbx <= max_int(ax, bx),
    ensures
        abs_int(mbx - max) <= abs_int(bx - ax),
{
}

/// Zooming by a delta and back by its negation, away from the clamp rails,
/// returns the zoom factor to within a small explicit tolerance: the drift
/// is at most the second-order term of the two scalings plus three
/// milli-units of rounding, and it is never upward.
pub proof fn lemma_zoom_round_trip(z0: int, d: int, z1: int, z2: int)
    requires
        300 <= z0 <= 3000,
        -300 <= d <= 300,
        z1 == clamped(tdiv(z0 * (1000 - d), 1000), 300, 3000),
        300 <= tdiv(z0 * (1000 - d), 1000) <= 3000,
        z2 == clamped(tdiv(z1 * (1000 + d), 1000), 300, 3000),
        300 <= tdiv(z1 * (1000 + d), 1000) <= 3000,
    ensures
        0 <= z0 - z2 <= z0 * d * d / 1_000_000 + 3,
{
    let nd = 1000 - d;
    let pu = 1000 + d;
    let nn1 = z0 * nd;
    assert(nn1 >= 210_000) by (nonlinear_arith)
        requires
            nn1 == z0 * nd && z0 >= 300 && nd >= 700,
    ;
    lemma_div_pos_is_pos(nn1, 1000);
    assert(z1 == nn1 / 1000);
    vstd::arithmetic::div_mod::lemma_fundamental_div_mod(nn1, 1000);
    vstd::arithmetic::div_mod::lemma_remainder_lower(nn1, 1000);
    vstd::arithmetic::div_mod::lemma_remainder_upper(nn1, 1000);
    let r1 = nn1 % 1000;
    assert(0 <= r1 < 1000) by {
        vstd::arithmetic::div_mod::lemma_mod_division_less_than_divisor(nn1, 1000);
    }
    let nn2 = z1 * pu;
    assert(nn2 >= 210_000) by (nonlinear_arith)
        requires
            nn2 == z1 * pu && z1 >= 300 && pu >= 700,
    ;
    lemma_div_pos_is_pos(nn2, 1000);
    assert(z2 == nn2 / 1000);
    vstd::arithmetic::div_mod::lemma_fundamental_div_mod(nn2, 1000);
    let r2 = nn2 % 1000;
    assert(0 <= r2 < 1000) by {
        vstd::arithmetic::div_mod::lemma_mod_division_less_than_divisor(nn2, 1000);
    }
    let e = z0 * d * d + r1 * pu + 1000 * r2;
    assert(1_000_000 * (z0 - z2) == e) by (nonlinear_arith)
        requires
            nn1 == z0 * nd && nn2 == z1 * pu && nn1 == 1000 * z1 + r1 && nn2 == 1000 * z2 + r2
                && nd == 1000 - d && pu == 1000 + d && e == z0 * d * d + r1 * pu + 1000 * r2,
    ;
    assert(0 <= e && e < z0 * d * d + 2_300_000 && z0 * d * d >= 0) by (nonlinear_arith)
        requires
            z0 >= 0 && 0 <= r1 < 1000 && 0 <= r2 < 1000 && 700 <= pu <= 1300 && e == z0 * d * d
                + r1 * pu + 1000 * r2,
    ;
    let q3 = z0 * d * d / 1_000_000;
    vstd::arithmetic::div_mod::lemma_fundamental_div_mod(z0 * d * d, 1_000_000);
    assert(z0 * d * d % 1_000_000 < 1_000_000) by {
        vstd::arithmetic::div_mod::lemma_mod_division_less_than_divisor(z0 * d * d, 1_000_000);
    }
    assert(q3 >= 0) by {
        lemma_div_pos_is_pos(z0 * d * d, 1_000_000);
    }
    assert(e < 1_000_000 * (q3 + 4));
}

/// Truncated division leaves a remainder smaller than the divisor.
pub proof fn lemma_tdiv_remainder(a: int, b: int)
    requires
        b >= 1,
    ensures
        abs_int(a - b * tdiv(a, b)) < b,
{
    if a >= 0 {
        vstd::arithmetic::div_mod::lemma_fundamental_div_mod(a, b);
        vstd::arithmetic::div_mod::lemma_mod_division_less_than_divisor(a, b);
        vstd::arithmetic::div_mod::lemma_remainder(a, b);
        assert(b * (a / b) == a / b * b) by (nonlinear_arith);
    } else {
        vstd::arithmetic::div_mod::lemma_fundamental_div_mod(-a, b);
        vstd::arithmetic::div_mod::lemma_mod_division_less_than_divisor(-a, b);
        vstd::arithmetic::div_mod::lemma_remainder(-a, b);
        assert(b * ((-a) / b) == (-a) / b * b) by (nonlinear_arith);
        assert(b * tdiv(a, b) == -(b * ((-a) / b))) by (nonlinear_arith)
            requires
                tdiv(a, b) == -((-a) / b),
        ;
    }
}

/// Panning under a zoom round trip: when the zoom factor goes out by a
/// delta and back by its negation (formulas unclamped), the pan offset
/// returns to within a small multiple of the cursor distance times the
/// residual zoom drift — scaled by the starting zoom — plus eleven
/// milli-pixels of rounding.
pub proof fn lemma_zoom_pan_round_trip(
    z0: int,
    z1: int,
    z2: int,
    c: int,
    p0: int,
    p1: int,
    p2: int,
)
    requires
        300 <= z0 <= 3000,
        300 <= z1 <= 3000,
        300 <= z2 <= 3000,
        p1 == c - tdiv((c - p0) * z1, z0),
        p2 == c - tdiv((c - p1) * z2, z1),
    ensures
        abs_int(p2 - p0) * z0 <= abs_int(c - p0) * abs_int(z2 - z0) + 11 * z0,
{
    let a = c - p0;
    let q1 = tdiv(a * z1, z0);
    lemma_tdiv_remainder(a * z1, z0);
    let r1 = a * z1 - z0 * q1;
    assert(c - p1 == q1);
    let t = tdiv(q1 * z2, z1);
    lemma_tdiv_remainder(q1 * z2, z1);
    let r2 = q1 * z2 - z1 * t;
    assert(p2 - p0 == a - t);
    // Expand the two division decompositions into one ring identity.
    assert(z0 * (z1 * t) == z0 * (q1 * z2) - z0 * r2) by (nonlinear_arith)
        requires
            z1 * t == q1 * z2 - r2,
    ;
    assert(z0 * (q1 * z2) == (z0 * q1) * z2) by (nonlinear_arith);
    assert((z0 * q1) * z2 == (a * z1) * z2 - r1 * z2) by (nonlinear_arith)
        requires
            z0 * q1 == a * z1 - r1,
    ;
    assert(z0 * z1 * (a - t) == z0 * z1 * a - z0 * (z1 * t)) by (nonlinear_arith);
    assert((a * z1) * (z0 - z2) == z0 * z1 * a - (a * z1) * z2) by (nonlinear_arith);
    assert(z0 * z1 * (a - t) == (a * z1) * (z0 - z2) + r1 * z2 + z0 * r2);
    let dz = abs_int(z2 - z0);
    assert(abs_int((a * z1) * (z0 - z2)) <= (abs_int(a) * z1) * dz) by (nonlinear_arith)
        requires
            z1 >= 0 && dz == abs_int(z2 - z0) && (abs_int(a) == a || abs_int(a) == -a) && abs_int(
                a,
            ) >= 0 && (dz == z2 - z0 || dz == -(z2 - z0)),
    ;
    assert(abs_int(r1 * z2) <= 10 * (z0 * z1)) by (nonlinear_arith)
        requires
            abs_int(r1) < z0 && 0 < z2 <= 10 * z1 && z0 > 0 && z1 > 0 && (abs_int(r1) == r1
                || abs_int(r1) == -r1) && abs_int(r1) >= 0,
    ;
    assert(abs_int(z0 * r2) <= z0 * z1) by (nonlinear_arith)
        requires
            abs_int(r2) < z1 && z0 > 0 && (abs_int(r2) == r2 || abs_int(r2) == -r2) && abs_int(r2)
                >= 0,
    ;
    assert(abs_int(z0 * z1 * (a - t)) == z0 * z1 * abs_int(a - t)) by (nonlinear_arith)
        requires
            z0 > 0 && z1 > 0 && (abs_int(a - t) == a - t || abs_int(a - t) == -(a - t))
                && abs_int(a - t) >= 0,
    ;
    assert(z0 * z1 * abs_int(a - t) <= (abs_int(a) * z1) * dz + 11 * (z0 * z1));
    assert((abs_int(a) * z1) * dz == (abs_int(a) * dz) * z1) by (nonlinear_arith);
    assert(z0 * z1 * abs_int(a - t) == (abs_int(a - t) * z0) * z1) by (nonlinear_arith);
    assert(abs_int(a - t) * z0 <= abs_int(a) * dz + 11 * z0) by (nonlinear_arith)
        requires
            z1 > 0 && (abs_int(a - t) * z0) * z1 <= (abs_int(a) * dz) * z1 + 11 * (z0 * z1),
    ;
}

/// A truncated quotient of a value bounded by `m * b` is bounded by `m`.
pub proof fn lemma_tdiv_bound_by(a: int, b: int, m: int)
    requires
        b >= 1,
        m >= 0,
        -(m * b) <= a <= m * b,
    ensures
        -m <= tdiv(a, b) <= m,
{
    lemma_div_multiples_vanish(m, b);
    assert(b * m == m * b) by (nonlinear_arith);
    if a >= 0 {
        lemma_div_pos_is_pos(a, b);
        lemma_div_is_ordered(a, m * b, b);
    } else {
        lemma_div_pos_is_pos(-a, b);
        lemma_div_is_ordered(-a, m * b, b);
    }
}

/// Magnitude bounds for truncated division by a positive divisor: the
/// quotient never exceeds the dividend in magnitude.
pub proof fn lemma_tdiv_bounds(a: int, b: int)
    requires
        b >= 1,
    ensures
        abs_int(tdiv(a, b)) <= abs_int(a),
        a >= 0 ==> 0 <= tdiv(a, b) <= a,
        a < 0 ==> a <= tdiv(a, b) <= 0,
{
    if a >= 0 {
        lemma_div_pos_is_pos(a, b);
        lemma_div_nonincreasing(a, b);
    } else {
        lemma_div_pos_is_pos(-a, b);
        lemma_div_nonincreasing(-a, b);
    }
}

/// Scaling down by at least `lo` shrinks magnitude by that factor.
pub proof fn lemma_tdiv_magnitude(a: int, b: int, lo: int)
    requires
        1 <= lo <= b,
        -1_001_000_000_000_000 <= a <= 1_001_000_000_000_000,
        lo == 300,
    ensures
        -4_000_000_000_000 <= tdiv(a, b) <= 4_000_000_000_000,
{
    if a >= 0 {
        lemma_div_is_ordered_by_denominator_local(a, 300, b);
        assert(a / 300 <= 4_000_000_000_000int) by {
            lemma_div_is_ordered(a, 1_200_000_000_000_000, 300);
        }
        lemma_div_pos_is_pos(a, b);
    } else {
        lemma_div_is_ordered_by_denominator_local(-a, 300, b);
        assert((-a) / 300 <= 4_000_000_000_000int) by {
            lemma_div_is_ordered(-a, 1_200_000_000_000_000, 300);
        }
        lemma_div_pos_is_pos(-a, b);
    }
}

proof fn lemma_div_is_ordered_by_denominator_local(x: int, y: int, z: int)
    requires
        0 <= x,
        1 <= y <= z,
    ensures
        x / y >= x / z,
{
    vstd::arithmetic::div_mod::lemma_div_is_ordered_by_denominator(x, y, z);
}

} // verus!
