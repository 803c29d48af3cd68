//! The uncertainty-aware voxel map: a sparse hash of octree roots over a
//! world-space integer lattice.
//!
//! Each root covers one voxel of the configured edge length; its octree
//! subdivides adaptively. Leaves cache points until a plane can be fitted;
//! fitting itself (an eigendecomposition) is floating-point work that the
//! caller performs: insertion hands out a [`FitRequest`] carrying the
//! cached points, and [`VoxelMap::apply_fit`] takes the numbers back and
//! makes every decision — accept the plane, keep none, or subdivide the
//! leaf and re-insert its points — in exact integer arithmetic.
use vstd::prelude::*;

verus! {

use std::collections::HashMap;
use crate::fixed::{
    Vec3Fx,
    COORD_CAP,
    spec_voxel_index,
    voxel_index,
    spec_packable,
    packable,
    spec_pack_index,
    pack_index,
    lemma_pack_index_injective,
    floor_div,
};
use crate::plane::{
    PlaneFx,
    UPointFx,
    plane_wf,
    in_range_exec,
    cov_check,
    NSCALE,
    NORMAL_CAP,
    RADIUS_SQ_CAP,
    QF_TERM_CAP,
    spec_quad_form,
    quad_form,
    lemma_abs_mul_le2,
};

/// The plane-fitting policy of the map's leaves.
#[derive(Clone, Copy, PartialEq, Eq, Structural, Debug)]
pub struct PlaneConfig {
    /// Maximum octree depth; a leaf at this depth is never subdivided.
    pub max_layer: u8,
    /// Minimum number of cached points before a fit is attempted.
    pub plane_init_threshold: usize,
    /// A leaf's plane is refitted every this many insertions.
    pub update_threshold: usize,
    /// A fit whose smallest eigenvalue reaches this bound is not planar.
    pub plane_eigen_threshold: i64,
    /// A leaf with this many cached points is frozen.
    pub max_points: usize,
}

/// Why a plane fit was not accepted.
#[derive(Clone, Copy, PartialEq, Eq, Structural, Debug)]
pub enum PlaneInitError {
    /// Too few cached points to attempt a fit.
    TooFewPoints,
    /// The smallest eigenvalue is too large: the points are not planar.
    EigenValueTooBig,
}

/// The map configuration.
#[derive(Clone, Copy, PartialEq, Eq, Structural, Debug)]
pub struct VoxelMapConfig {
    pub plane: PlaneConfig,
    /// The residual gate compares a squared distance against this factor
    /// times the residual variance: the square of the sigma ratio.
    pub sigma_ratio_sq: i64,
    /// Root voxel edge length, in lattice units.
    pub voxel_size: i64,
}

impl VoxelMapConfig {
    pub open spec fn wf(self) -> bool {
        &&& 0 < self.voxel_size <= COORD_CAP
        &&& self.plane.max_points >= 1
        &&& self.plane.update_threshold >= 1
        &&& self.plane.plane_init_threshold >= 1
        &&& self.plane.max_layer <= 30
        &&& 0 <= self.sigma_ratio_sq <= 256
    }
}

/// Decide whether a leaf with `len` cached points may attempt a fit.
pub fn plane_fit_gate(len: usize, config: &PlaneConfig) -> (r: Option<PlaneInitError>)
    ensures
        r is None <==> len >= config.plane_init_threshold,
        r is Some ==> r->Some_0 == PlaneInitError::TooFewPoints,
{
    if len < config.plane_init_threshold {
        Some(PlaneInitError::TooFewPoints)
    } else {
        None
    }
}

/// Decide whether a fit's smallest eigenvalue is planar.
pub fn plane_eigen_gate(min_eigenvalue: i64, config: &PlaneConfig) -> (r: Option<PlaneInitError>)
    ensures
        r is None <==> min_eigenvalue < config.plane_eigen_threshold,
        r is Some ==> r->Some_0 == PlaneInitError::EigenValueTooBig,
{
    if min_eigenvalue >= config.plane_eigen_threshold {
        Some(PlaneInitError::EigenValueTooBig)
    } else {
        None
    }
}

/// An octree leaf: an optional fitted plane and, until the leaf freezes,
/// the cached points the plane is fitted from.
pub struct Leaf {
    pub plane: Option<PlaneFx>,
    pub cached: Option<Vec<UPointFx>>,
}

/// An octree node body: a leaf, or a branch with eight child slots. A
/// child slot holds the arena index of the child, with zero (the root's
/// index, never a child) standing for an empty slot.
pub enum NodeKind {
    Leaf(Leaf),
    Branch(Vec<usize>),
}

/// One octree node: its center, a quarter of its side length, its depth,
/// and its body.
pub struct Node {
    pub center: Vec3Fx,
    pub quarter_side: i64,
    pub depth: u8,
    pub kind: NodeKind,
}

/// The arena index of a non-root octree node.
#[derive(Clone, Copy, PartialEq, Eq, Structural, Debug)]
pub struct TreeID {
    pub index: usize,
}

impl TreeID {
    /// Wrap a non-root arena index.
    pub fn new(index: usize) -> (r: TreeID)
        requires
            index > 0,
        ensures
            r.index == index,
    {
        TreeID { index }
    }

    /// Wrap an arena index, telling the root (index zero) apart.
    pub fn new_maybe_root(index: usize) -> (r: Option<TreeID>)
        ensures
            r is None <==> index == 0,
            r is Some ==> r->Some_0.index == index,
    {
        if index == 0 {
            None
        } else {
            Some(TreeID { index })
        }
    }
}

/// The identity of the root node: always arena index zero.
#[derive(Clone, Copy, PartialEq, Eq, Structural, Debug)]
pub struct RootTreeID;

impl RootTreeID {
    pub fn new() -> RootTreeID {
        RootTreeID
    }

    pub fn index(&self) -> (r: usize)
        ensures
            r == 0,
    {
        0
    }
}

/// The child slot of a point below a node center: one bit per axis,
/// set when the point lies strictly above the center.
pub open spec fn spec_child_slot(p: Vec3Fx, center: Vec3Fx) -> int {
    (if p.z > center.z {
        4int
    } else {
        0int
    }) + (if p.y > center.y {
        2int
    } else {
        0int
    }) + (if p.x > center.x {
        1int
    } else {
        0int
    })
}

pub fn child_slot(p: Vec3Fx, center: Vec3Fx) -> (r: usize)
    ensures
        r == spec_child_slot(p, center),
        r < 8,
{
    let mut r: usize = 0;
    if p.z > center.z {
        r = r + 4;
    }
    if p.y > center.y {
        r = r + 2;
    }
    if p.x > center.x {
        r = r + 1;
    }
    r
}

/// The child arena index in slot `s` of a node, zero when the node is a
/// leaf or the slot is empty.
pub open spec fn spec_child_of(n: Node, s: int) -> int {
    match n.kind {
        NodeKind::Branch(ch) => ch@[s] as int,
        NodeKind::Leaf(_) => 0,
    }
}

pub open spec fn spec_is_leaf(n: Node) -> bool {
    n.kind is Leaf
}

/// The cached points of a node, empty unless it is an unfrozen leaf.
pub open spec fn spec_cached_of(n: Node) -> Seq<UPointFx> {
    match n.kind {
        NodeKind::Leaf(l) => match l.cached {
            Some(pts) => pts@,
            None => Seq::empty(),
        },
        NodeKind::Branch(_) => Seq::empty(),
    }
}

/// Whether a node is an unfrozen leaf (one that still caches points).
pub open spec fn spec_is_unfrozen_leaf(n: Node) -> bool {
    match n.kind {
        NodeKind::Leaf(l) => l.cached is Some,
        NodeKind::Branch(_) => false,
    }
}

/// The plane of a node, if it is a leaf holding one.
pub open spec fn spec_plane_of(n: Node) -> Option<PlaneFx> {
    match n.kind {
        NodeKind::Leaf(l) => l.plane,
        NodeKind::Branch(_) => None,
    }
}

/// Leaf well-formedness: cached points stay strictly below the freeze
/// bound and are themselves well-formed; a stored plane is well-formed.
pub open spec fn leaf_wf(l: Leaf, max_points: int) -> bool {
    &&& match l.cached {
        Some(pts) => pts@.len() < max_points && forall|k: int|
            0 <= k < pts@.len() ==> (#[trigger] pts@[k]).wf(),
        None => true,
    }
    &&& match l.plane {
        Some(pl) => plane_wf(pl),
        None => true,
    }
}

/// The cached points of a leaf after reaching `pts`: kept until the
/// count reaches the freeze bound, then dropped.
pub open spec fn spec_cache_after(pts: Seq<UPointFx>, config: VoxelMapConfig) -> Option<
    Seq<UPointFx>,
> {
    if pts.len() >= config.plane.max_points {
        None
    } else {
        Some(pts)
    }
}

/// The plane of a leaf after its cache reaches `len` points: dropped when
/// the refit cadence comes due, kept otherwise.
pub open spec fn spec_plane_after(plane: Option<PlaneFx>, len: int, config: VoxelMapConfig) -> Option<
    PlaneFx,
> {
    if len % (config.plane.update_threshold as int) == 0 {
        None
    } else {
        plane
    }
}

/// Whether a cache of `len` points makes a fit due: the plane (after the
/// cadence drop) is absent and enough points are gathered.
pub open spec fn spec_fit_due(plane: Option<PlaneFx>, len: int, config: VoxelMapConfig) -> bool {
    spec_plane_after(plane, len, config) is None && len >= config.plane.plane_init_threshold
}

/// A leaf in the given state: the given plane, and either an unfrozen
/// cache holding exactly the given points, or a frozen (absent) cache.
pub open spec fn spec_leaf_state(
    n: Node,
    cached: Option<Seq<UPointFx>>,
    plane: Option<PlaneFx>,
) -> bool {
    &&& spec_is_leaf(n)
    &&& spec_plane_of(n) == plane
    &&& match cached {
        Some(s) => spec_is_unfrozen_leaf(n) && spec_cached_of(n) == s,
        None => !spec_is_unfrozen_leaf(n),
    }
}

/// Pointwise value equality of two point sequences (the points carry the
/// same coordinates and covariance entries).
pub open spec fn upoints_like(a: Seq<UPointFx>, b: Seq<UPointFx>) -> bool {
    a.len() == b.len() && forall|k: int| 0 <= k < a.len() ==> upoint_like(#[trigger] a[k], b[k])
}

/// The center of the child in slot `s`: a quarter side from the branch
/// center along each axis, upward where the slot bit is set.
pub open spec fn spec_child_center(center: Vec3Fx, quarter: i64, s: int) -> Vec3Fx {
    Vec3Fx {
        x: (if s % 2 == 1 {
            center.x + quarter
        } else {
            center.x - quarter
        }) as i64,
        y: (if (s / 2) % 2 == 1 {
            center.y + quarter
        } else {
            center.y - quarter
        }) as i64,
        z: (if s / 4 == 1 {
            center.z + quarter
        } else {
            center.z - quarter
        }) as i64,
    }
}

/// The center of a fresh voxel root: the voxel's base corner plus half
/// the edge along each axis.
pub open spec fn spec_fresh_root_center(idx: Vec3Fx, voxel_size: i64) -> Vec3Fx {
    Vec3Fx {
        x: (idx.x * voxel_size + voxel_size as int / 2) as i64,
        y: (idx.y * voxel_size + voxel_size as int / 2) as i64,
        z: (idx.z * voxel_size + voxel_size as int / 2) as i64,
    }
}

/// Where a point descends to, starting at node `cur` with `fuel` steps
/// left: at a branch, step into the child of the point's slot until a
/// leaf or an empty slot stops the walk.
pub open spec fn spec_descend_from(nodes: Seq<Node>, p: Vec3Fx, cur: int, fuel: nat) -> int
    decreases fuel,
{
    if fuel == 0 {
        cur
    } else {
        match nodes[cur].kind {
            NodeKind::Leaf(_) => cur,
            NodeKind::Branch(_) => {
                let c = spec_child_of(nodes[cur], spec_child_slot(p, nodes[cur].center));
                if c == 0 {
                    cur
                } else {
                    spec_descend_from(nodes, p, c, (fuel - 1) as nat)
                }
            },
        }
    }
}

/// The node a point lands in, walking down from the root. Branches sit
/// strictly above `max_layer`, so `max_layer + 1` steps always suffice.
pub open spec fn spec_descend(nodes: Seq<Node>, p: Vec3Fx, max_layer: int) -> int {
    spec_descend_from(nodes, p, 0, (max_layer + 1) as nat)
}

/// The points of a cache that fall in child slot `s`, in cache order.
pub open spec fn spec_slot_points(pts: Seq<UPointFx>, center: Vec3Fx, s: int) -> Seq<UPointFx>
    decreases pts.len(),
{
    if pts.len() == 0 {
        Seq::empty()
    } else {
        let rest = spec_slot_points(pts.drop_last(), center, s);
        if spec_child_slot(pts.last().p, center) == s {
            rest.push(pts.last())
        } else {
            rest
        }
    }
}

/// Node well-formedness: geometry bounds, depth bound, and the body.
pub open spec fn node_wf(n: Node, config: VoxelMapConfig) -> bool {
    &&& n.center.in_range(3 * COORD_CAP - 2 * n.quarter_side)
    &&& 0 <= n.quarter_side <= config.voxel_size
    &&& n.depth <= config.plane.max_layer
    &&& match n.kind {
        NodeKind::Leaf(l) => leaf_wf(l, config.plane.max_points as int),
        NodeKind::Branch(ch) => ch@.len() == 8 && n.depth < config.plane.max_layer,
    }
}

/// Arena well-formedness: the root sits at index zero and depth zero, all
/// nodes are well-formed, and every child link points into the arena at
/// the next depth.
pub open spec fn tree_wf(nodes: Seq<Node>, config: VoxelMapConfig) -> bool {
    &&& 1 <= nodes.len() < usize::MAX
    &&& nodes[0].depth == 0
    &&& forall|i: int| 0 <= i < nodes.len() ==> node_wf(#[trigger] nodes[i], config)
    &&& forall|i: int, s: int|
        0 <= i < nodes.len() && 0 <= s < 8 && #[trigger] spec_child_of(nodes[i], s) != 0 ==> {
            &&& spec_child_of(nodes[i], s) < nodes.len()
            &&& nodes[spec_child_of(nodes[i], s)].depth == nodes[i].depth + 1
        }
}

/// One voxel root: its lattice index, its packed key, its node arena, and
/// (in the ghost state) every point that was ever routed to it.
struct RootEntry {
    key: u64,
    index: Vec3Fx,
    nodes: Vec<Node>,
    routed: Ghost<Seq<Vec3Fx>>,
}

impl RootEntry {
    spec fn wf(self, config: VoxelMapConfig) -> bool {
        &&& spec_packable(self.index)
        &&& self.key == spec_pack_index(self.index)
        &&& tree_wf(self.nodes@, config)
        &&& forall|k: int|
            0 <= k < self.routed@.len() ==> (#[trigger] self.routed@[k]).in_range(COORD_CAP as int)
                && spec_voxel_index(self.routed@[k], config.voxel_size) == self.index
    }
}

/// A request to fit a plane: the root and node the points came from, and a
/// copy of the cached points at the moment the fit came due. The caller
/// computes the weighted fit (centroid, scatter eigendecomposition, plane
/// covariance) and hands the numbers back to [`VoxelMap::apply_fit`].
pub struct FitRequest {
    pub root_slot: usize,
    pub node: usize,
    pub points: Vec<UPointFx>,
}

/// The numbers of one plane fit, in fixed-point form: the smallest
/// eigenvalue of the scatter (at the squared coordinate scale), the unit
/// normal at the [`crate::plane::NSCALE`] scale, the centroid, the squared
/// bounding radius (the largest eigenvalue), and the 6-by-6 covariance of
/// (centroid, normal).
pub struct FitData {
    pub min_eigenvalue: i64,
    pub normal: Vec3Fx,
    pub center: Vec3Fx,
    pub radius_sq: i64,
    pub cov: Vec<i64>,
}

/// The voxel map.
pub struct VoxelMap {
    config: VoxelMapConfig,
    keys: HashMap<u64, usize>,
    roots: Vec<RootEntry>,
}

impl VoxelMap {
    pub closed spec fn spec_config(self) -> VoxelMapConfig {
        self.config
    }

    /// How many voxel roots the map holds.
    pub closed spec fn spec_root_count(self) -> int {
        self.roots@.len() as int
    }

    /// The lattice index of root `i`.
    pub closed spec fn spec_root_index(self, i: int) -> Vec3Fx {
        self.roots@[i].index
    }

    /// Every point routed to root `i` so far, in arrival order.
    pub closed spec fn spec_root_routed(self, i: int) -> Seq<Vec3Fx> {
        self.roots@[i].routed@
    }

    /// The node arena of root `i`.
    pub closed spec fn spec_root_nodes(self, i: int) -> Seq<Node> {
        self.roots@[i].nodes@
    }

    /// The root slot a voxel index is stored at, or `-1`.
    pub closed spec fn spec_slot_of(self, idx: Vec3Fx) -> int {
        if self.keys@.contains_key(spec_pack_index(idx)) {
            self.keys@[spec_pack_index(idx)] as int
        } else {
            -1
        }
    }

    /// Whether a voxel index has a root.
    pub open spec fn spec_has_root(self, idx: Vec3Fx) -> bool {
        self.spec_slot_of(idx) >= 0
    }

    pub closed spec fn wf(self) -> bool {
        &&& self.config.wf()
        &&& self.roots@.len() < usize::MAX
        &&& forall|i: int|
            0 <= i < self.roots@.len() ==> (#[trigger] self.roots@[i]).wf(self.config)
        &&& forall|i: int, j: int|
            0 <= i < j < self.roots@.len() ==> self.roots@[i].key != self.roots@[j].key
        &&& forall|i: int|
            0 <= i < self.roots@.len() ==> self.keys@.contains_key(#[trigger] self.roots@[i].key)
                && self.keys@[self.roots@[i].key] == i
        &&& forall|k: u64|
            self.keys@.contains_key(k) ==> 0 <= #[trigger] self.keys@[k] < self.roots@.len()
                && self.roots@[self.keys@[k] as int].key == k
    }

    /// An empty map.
    pub fn new(config: VoxelMapConfig) -> (r: VoxelMap)
        requires
            config.wf(),
        ensures
            r.wf(),
            r.spec_config() == config,
            r.spec_root_count() == 0,
            forall|idx: Vec3Fx| !r.spec_has_root(idx),
    {
        VoxelMap { config, keys: HashMap::new(), roots: Vec::new() }
    }

    pub fn config(&self) -> (r: VoxelMapConfig)
        ensures
            r == self.spec_config(),
    {
        self.config
    }

    pub fn root_count(&self) -> (r: usize)
        ensures
            r == self.spec_root_count(),
    {
        self.roots.len()
    }

    /// Whether the voxel of this lattice index already has a root.
    pub fn has_root(&self, idx: Vec3Fx) -> (r: bool)
        requires
            self.wf(),
            spec_packable(idx),
        ensures
            r == self.spec_has_root(idx),
    {
        let key = pack_index(idx);
        self.keys.contains_key(&key)
    }

    /// Route a point to its voxel root (creating the root if the voxel is
    /// new), descend to a leaf, and cache the point there. When the
    /// leaf's plane becomes due for (re)fitting, the cached points come
    /// back as a [`FitRequest`]; the map changes no further until
    /// [`VoxelMap::apply_fit`] returns the fit's numbers.
    ///
    /// Every point is routed to the root of exactly its own voxel index,
    /// and a frozen leaf absorbs the point without change.
    pub fn insert(&mut self, up: UPointFx) -> (req: Option<FitRequest>)
        requires
            old(self).wf(),
            up.wf(),
            spec_packable(spec_voxel_index(up.p, old(self).spec_config().voxel_size)),
            old(self).spec_root_count() < usize::MAX - 1,
            forall|i: int|
                0 <= i < old(self).spec_root_count() ==> old(self).spec_root_routed(i).len()
                    < usize::MAX,
            forall|i: int|
                0 <= i < old(self).spec_root_count() ==> old(self).spec_root_nodes(i).len() + 1
                    < usize::MAX,
        ensures
            final(self).wf(),
            final(self).spec_config() == old(self).spec_config(),
            final(self).spec_has_root(
                spec_voxel_index(up.p, old(self).spec_config().voxel_size),
            ),
            // existing roots keep their slots and indices
            // a root is created exactly when the voxel had none
            final(self).spec_root_count() == old(self).spec_root_count() + if old(
                self,
            ).spec_has_root(spec_voxel_index(up.p, old(self).spec_config().voxel_size)) {
                0int
            } else {
                1int
            },
            0 <= final(self).spec_slot_of(
                spec_voxel_index(up.p, old(self).spec_config().voxel_size),
            ) < final(self).spec_root_count(),
            forall|i: int|
                0 <= i < old(self).spec_root_count() ==> final(self).spec_root_index(i) == old(
                    self,
                ).spec_root_index(i),
            // the point is recorded at the root of its own voxel index
            ({
                let idx = spec_voxel_index(up.p, old(self).spec_config().voxel_size);
                let slot = final(self).spec_slot_of(idx);
                &&& final(self).spec_root_index(slot) == idx
                &&& final(self).spec_root_routed(slot) == if old(self).spec_has_root(idx) {
                    old(self).spec_root_routed(slot).push(up.p)
                } else {
                    seq![up.p]
                }
            }),
            // all other roots are untouched
            forall|i: int|
                0 <= i < old(self).spec_root_count() && i != final(self).spec_slot_of(
                    spec_voxel_index(up.p, old(self).spec_config().voxel_size),
                ) ==> final(self).spec_root_routed(i) == old(self).spec_root_routed(i)
                    && final(self).spec_root_nodes(i) == old(self).spec_root_nodes(i),
            // a frozen leaf never becomes unfrozen again
            forall|i: int, j: int|
                0 <= i < old(self).spec_root_count() && 0 <= j < old(self).spec_root_nodes(
                    i,
                ).len() && !spec_is_unfrozen_leaf(old(self).spec_root_nodes(i)[j])
                    ==> !spec_is_unfrozen_leaf(#[trigger] final(self).spec_root_nodes(i)[j]),
            forall|i: int|
                0 <= i < old(self).spec_root_count() ==> old(self).spec_root_nodes(i).len()
                    <= final(self).spec_root_nodes(i).len(),
            req is Some ==> {
                let r = req->Some_0;
                &&& r.root_slot == final(self).spec_slot_of(
                    spec_voxel_index(up.p, old(self).spec_config().voxel_size),
                )
                &&& r.points@.len() <= old(self).spec_config().plane.max_points
                &&& forall|k: int| 0 <= k < r.points@.len() ==> (#[trigger] r.points@[k]).wf()
            },
            // what the insert did to the octree of the point's root
            ({
                let config = old(self).spec_config();
                let idx = spec_voxel_index(up.p, config.voxel_size);
                let slot = final(self).spec_slot_of(idx);
                let nodes1 = final(self).spec_root_nodes(slot);
                if old(self).spec_has_root(idx) {
                    let nodes0 = old(self).spec_root_nodes(slot);
                    let id = spec_descend(nodes0, up.p, config.plane.max_layer as int);
                    let n0 = nodes0[id];
                    &&& 0 <= id < nodes0.len()
                    // a frozen leaf absorbs the point without any change
                    &&& (spec_is_leaf(n0) && !spec_is_unfrozen_leaf(n0) ==> nodes1 == nodes0
                        && req is None)
                    // an unfrozen leaf caches the point and runs the leaf
                    // policy: cadence plane drop, fit request, freeze
                    &&& (spec_is_unfrozen_leaf(n0) ==> {
                        let pts1 = spec_cached_of(n0).push(up);
                        &&& nodes1.len() == nodes0.len()
                        &&& forall|i: int|
                            0 <= i < nodes0.len() && i != id ==> nodes1[i] == nodes0[i]
                        &&& nodes1[id].center == n0.center
                        &&& nodes1[id].quarter_side == n0.quarter_side
                        &&& nodes1[id].depth == n0.depth
                        &&& spec_leaf_state(
                            nodes1[id],
                            spec_cache_after(pts1, config),
                            spec_plane_after(spec_plane_of(n0), pts1.len() as int, config),
                        )
                        &&& (req is Some) == spec_fit_due(
                            spec_plane_of(n0),
                            pts1.len() as int,
                            config,
                        )
                        &&& (req is Some ==> req->Some_0.node == id && upoints_like(
                            req->Some_0.points@,
                            pts1,
                        ))
                    })
                    // a branch with an empty slot opens the child leaf there
                    &&& (!spec_is_leaf(n0) ==> {
                        let s = spec_child_slot(up.p, n0.center);
                        let new_id = nodes0.len() as int;
                        &&& nodes1.len() == nodes0.len() + 1
                        &&& forall|i: int|
                            0 <= i < nodes0.len() && i != id ==> nodes1[i] == nodes0[i]
                        &&& nodes1[id].center == n0.center
                        &&& nodes1[id].quarter_side == n0.quarter_side
                        &&& nodes1[id].depth == n0.depth
                        &&& nodes1[id].kind is Branch
                        &&& spec_child_of(nodes1[id], s) == new_id
                        &&& forall|s2: int|
                            0 <= s2 < 8 && s2 != s ==> spec_child_of(nodes1[id], s2)
                                == spec_child_of(n0, s2)
                        &&& nodes1[new_id].center == spec_child_center(
                            n0.center,
                            n0.quarter_side,
                            s,
                        )
                        &&& nodes1[new_id].quarter_side == n0.quarter_side as int / 2
                        &&& nodes1[new_id].depth == n0.depth + 1
                        &&& spec_leaf_state(
                            nodes1[new_id],
                            spec_cache_after(seq![up], config),
                            Option::<PlaneFx>::None,
                        )
                        &&& (req is Some) == spec_fit_due(Option::<PlaneFx>::None, 1, config)
                        &&& (req is Some ==> req->Some_0.node == new_id && upoints_like(
                            req->Some_0.points@,
                            seq![up],
                        ))
                    })
                } else {
                    // a fresh root: one leaf centered in its voxel, caching
                    // the point
                    &&& nodes1.len() == 1
                    &&& nodes1[0].center == spec_fresh_root_center(idx, config.voxel_size)
                    &&& nodes1[0].quarter_side == config.voxel_size as int / 4
                    &&& nodes1[0].depth == 0
                    &&& spec_leaf_state(
                        nodes1[0],
                        spec_cache_after(seq![up], config),
                        spec_plane_after(Option::<PlaneFx>::None, 1, config),
                    )
                    &&& (req is Some) == spec_fit_due(Option::<PlaneFx>::None, 1, config)
                    &&& (req is Some ==> req->Some_0.node == 0 && upoints_like(
                        req->Some_0.points@,
                        seq![up],
                    ))
                }
            }),
    {
        let ghost old_self = *self;
        let vs = self.config.voxel_size;
        let idx = voxel_index(up.p, vs);
        let key = pack_index(idx);
        let slot: usize = match self.keys.get(&key) {
            Some(sref) => {
                let s = *sref;
                proof {
                    assert(self.roots@[s as int].key == key);
                    lemma_pack_index_injective(self.roots@[s as int].index, idx);
                }
                s
            },
            None => {
                let s = self.roots.len();
                let entry = new_root_entry(idx, key, vs, Ghost(self.config));
                self.roots.push(entry);
                self.keys.insert(key, s);
                s
            },
        };
        let config = self.config;
        let entry = &mut self.roots[slot];
        proof {
            entry.routed@ = entry.routed@.push(up.p);
            if old_self.keys@.contains_key(key) {
                assert(entry.nodes@ == old_self.spec_root_nodes(slot as int));
            } else {
                assert(entry.nodes@.len() == 1);
            }
        }
        let req = tree_insert(&mut entry.nodes, up, slot, &config);
        proof {
            assert(self.roots@[slot as int].wf(config));
            assert forall|i: int|
                0 <= i < self.roots@.len() implies (#[trigger] self.roots@[i]).wf(config) by {
                if i != slot {
                    assert(self.roots@[i] == old_self.roots@[i] || (
                    !old_self.keys@.contains_key(key) && i == old_self.roots@.len()));
                }
            }
        }
        req
    }
}

/// Build a fresh root entry for a voxel: a single leaf node centered in
/// the voxel, with a quarter of the voxel edge as its quarter side.
fn new_root_entry(idx: Vec3Fx, key: u64, voxel_size: i64, config: Ghost<VoxelMapConfig>) -> (r:
    RootEntry)
    requires
        config@.wf(),
        voxel_size == config@.voxel_size,
        spec_packable(idx),
        key == spec_pack_index(idx),
        idx.in_range(COORD_CAP as int),
        // the voxel is the one some in-range point falls in
        exists|p: Vec3Fx|
            p.in_range(COORD_CAP as int) && #[trigger] spec_voxel_index(p, voxel_size) == idx,
    ensures
        r.wf(config@),
        r.key == key,
        r.index == idx,
        r.routed@ == Seq::<Vec3Fx>::empty(),
        r.nodes@.len() == 1,
        spec_is_unfrozen_leaf(r.nodes@[0]),
        spec_cached_of(r.nodes@[0]) == Seq::<UPointFx>::empty(),
        spec_plane_of(r.nodes@[0]) is None,
        r.nodes@[0].center == spec_fresh_root_center(idx, voxel_size),
        r.nodes@[0].quarter_side == voxel_size as int / 4,
        r.nodes@[0].depth == 0,
    {
    let ghost p = choose|p: Vec3Fx|
        p.in_range(COORD_CAP as int) && #[trigger] spec_voxel_index(p, voxel_size) == idx;
    let half = floor_div(voxel_size, 2);
    let quarter = floor_div(voxel_size, 4);
    proof {
        // the voxel's base corner is within a voxel of the witness point
        assert(voxel_size * idx.x <= p.x < voxel_size * (idx.x + 1) && voxel_size * idx.y <= p.y
            < voxel_size * (idx.y + 1) && voxel_size * idx.z <= p.z < voxel_size * (idx.z + 1)) by {
            crate::fixed::lemma_voxel_walls(p, voxel_size, idx);
        }
        assert(voxel_size * (idx.x + 1) == voxel_size * idx.x + voxel_size) by (nonlinear_arith);
        assert(voxel_size * (idx.y + 1) == voxel_size * idx.y + voxel_size) by (nonlinear_arith);
        assert(voxel_size * (idx.z + 1) == voxel_size * idx.z + voxel_size) by (nonlinear_arith);
    }
    let cx = idx.x * voxel_size + half;
    let cy = idx.y * voxel_size + half;
    let cz = idx.z * voxel_size + half;
    proof {
        assert(idx.x * voxel_size == voxel_size * idx.x) by (nonlinear_arith);
        assert(idx.y * voxel_size == voxel_size * idx.y) by (nonlinear_arith);
        assert(idx.z * voxel_size == voxel_size * idx.z) by (nonlinear_arith);
    }
    let center = Vec3Fx { x: cx, y: cy, z: cz };
    let leaf = Leaf { plane: None, cached: Some(Vec::new()) };
    let node = Node { center, quarter_side: quarter, depth: 0, kind: NodeKind::Leaf(leaf) };
    let mut nodes: Vec<Node> = Vec::new();
    nodes.push(node);
    RootEntry { key, index: idx, nodes, routed: Ghost(Seq::empty()) }
}

/// Descend from the root to the node a point lands in: a leaf, or a
/// branch whose slot for the point is still empty.
fn descend(nodes: &Vec<Node>, p: Vec3Fx, config: &VoxelMapConfig) -> (r: usize)
    requires
        tree_wf(nodes@, *config),
        config.wf(),
    ensures
        r < nodes@.len(),
        r as int == spec_descend(nodes@, p, config.plane.max_layer as int),
        spec_is_leaf(nodes@[r as int]) || spec_child_of(
            nodes@[r as int],
            spec_child_slot(p, nodes@[r as int].center),
        ) == 0,
{
    let mut cur: usize = 0;
    let max_depth = config.plane.max_layer;
    let ghost ml = config.plane.max_layer as int;
    loop
        invariant
            tree_wf(nodes@, *config),
            config.wf(),
            cur < nodes@.len(),
            max_depth == config.plane.max_layer,
            ml == config.plane.max_layer as int,
            spec_descend_from(
                nodes@,
                p,
                cur as int,
                (ml + 1 - nodes@[cur as int].depth) as nat,
            ) == spec_descend(nodes@, p, ml),
        ensures
            cur < nodes@.len(),
            cur as int == spec_descend(nodes@, p, ml),
            spec_is_leaf(nodes@[cur as int]) || spec_child_of(
                nodes@[cur as int],
                spec_child_slot(p, nodes@[cur as int].center),
            ) == 0,
        decreases max_depth + 1 - nodes@[cur as int].depth,
    {
        let node = &nodes[cur];
        let ghost fuel = (ml + 1 - nodes@[cur as int].depth) as nat;
        match &node.kind {
            NodeKind::Leaf(_) => {
                proof {
                    assert(fuel >= 1);
                    assert(spec_descend_from(nodes@, p, cur as int, fuel) == cur as int);
                }
                return cur;
            },
            NodeKind::Branch(ch) => {
                let s = child_slot(p, node.center);
                let c = ch[s];
                proof {
                    assert(spec_child_of(nodes@[cur as int], s as int) == c as int);
                    assert(fuel >= 1);
                }
                if c == 0 {
                    proof {
                        assert(spec_descend_from(nodes@, p, cur as int, fuel) == cur as int);
                    }
                    return cur;
                }
                proof {
                    assert(spec_descend_from(nodes@, p, cur as int, fuel) == spec_descend_from(
                        nodes@,
                        p,
                        c as int,
                        (fuel - 1) as nat,
                    ));
                    assert(nodes@[c as int].depth == nodes@[cur as int].depth + 1);
                    assert((fuel - 1) as nat == (ml + 1 - nodes@[c as int].depth) as nat);
                }
                cur = c;
            },
        }
    }
}

/// After a point lands in the unfrozen leaf `id` (the point already
/// pushed), apply the leaf policy: drop the plane when the refit cadence
/// comes due, request a fit when the plane is absent and enough points
/// are cached, and freeze the leaf once it holds `max_points`.
fn leaf_update(nodes: &mut Vec<Node>, id: usize, root_slot: usize, config: &VoxelMapConfig) -> (req:
    Option<FitRequest>)
    requires
        config.wf(),
        id < old(nodes)@.len(),
        tree_wf_except(old(nodes)@, *config, id as int),
        spec_is_unfrozen_leaf(old(nodes)@[id as int]),
        1 <= spec_cached_of(old(nodes)@[id as int]).len() <= config.plane.max_points,
        forall|k: int|
            0 <= k < spec_cached_of(old(nodes)@[id as int]).len() ==> (#[trigger] spec_cached_of(
                old(nodes)@[id as int],
            )[k]).wf(),
        match spec_plane_of(old(nodes)@[id as int]) {
            Some(pl) => plane_wf(pl),
            None => true,
        },
    ensures
        tree_wf(final(nodes)@, *config),
        final(nodes)@.len() == old(nodes)@.len(),
        forall|i: int|
            0 <= i < old(nodes)@.len() && i != id ==> final(nodes)@[i] == old(nodes)@[i],
        spec_is_leaf(final(nodes)@[id as int]),
        ({
            let pts1 = spec_cached_of(old(nodes)@[id as int]);
            let plane0 = spec_plane_of(old(nodes)@[id as int]);
            &&& final(nodes)@[id as int].center == old(nodes)@[id as int].center
            &&& final(nodes)@[id as int].quarter_side == old(nodes)@[id as int].quarter_side
            &&& final(nodes)@[id as int].depth == old(nodes)@[id as int].depth
            &&& spec_leaf_state(
                final(nodes)@[id as int],
                spec_cache_after(pts1, *config),
                spec_plane_after(plane0, pts1.len() as int, *config),
            )
            &&& (req is Some) == spec_fit_due(plane0, pts1.len() as int, *config)
        }),
        req is Some ==> {
            let r = req->Some_0;
            &&& r.root_slot == root_slot
            &&& r.node == id
            &&& upoints_like(r.points@, spec_cached_of(old(nodes)@[id as int]))
            &&& r.points@.len() <= config.plane.max_points
            &&& forall|k: int| 0 <= k < r.points@.len() ==> (#[trigger] r.points@[k]).wf()
        },
{
    let max_points = config.plane.max_points;
    let init_threshold = config.plane.plane_init_threshold;
    let update_threshold = config.plane.update_threshold;
    let node = &mut nodes[id];
    let mut req: Option<FitRequest> = None;
    match &mut node.kind {
        NodeKind::Leaf(leaf) => {
            match &mut leaf.cached {
                Some(pts) => {
                    let len = pts.len();
                    if len % update_threshold == 0 {
                        leaf.plane = None;
                    }
                    let fits = match &leaf.plane {
                        Some(_) => false,
                        None => len >= init_threshold,
                    };
                    if fits {
                        let points = copy_upoints(pts);
                        req = Some(FitRequest { root_slot, node: id, points });
                    }
                    if len >= max_points {
                        leaf.cached = None;
                    }
                },
                None => {
                    proof {
                        assert(false);
                    }
                },
            }
        },
        NodeKind::Branch(_) => {
            proof {
                assert(false);
            }
        },
    }
    proof {
        assert forall|i: int|
            0 <= i < nodes@.len() implies node_wf(#[trigger] nodes@[i], *config) by {
            if i != id {
                assert(nodes@[i] == old(nodes)@[i]);
            }
        }
        assert forall|i: int, s: int|
            0 <= i < nodes@.len() && 0 <= s < 8 && #[trigger] spec_child_of(nodes@[i], s)
                != 0 implies spec_child_of(nodes@[i], s) < nodes@.len() && nodes@[spec_child_of(
            nodes@[i],
            s,
        )].depth == nodes@[i].depth + 1 by {
            if i != id {
                assert(nodes@[i] == old(nodes)@[i]);
            }
            if spec_child_of(nodes@[i], s) != id {
                assert(nodes@[spec_child_of(nodes@[i], s)] == old(nodes)@[spec_child_of(
                    nodes@[i],
                    s,
                )]);
            }
        }
    }
    req
}

/// Arena well-formedness with one node excused from its leaf bound: that
/// node may be an unfrozen leaf holding up to `max_points` points (one
/// more than the bound), as it does right after a push and before the
/// leaf policy runs.
spec fn tree_wf_except(nodes: Seq<Node>, config: VoxelMapConfig, id: int) -> bool {
    &&& 1 <= nodes.len() < usize::MAX
    &&& nodes[0].depth == 0
    &&& forall|i: int|
        0 <= i < nodes.len() && i != id ==> node_wf(#[trigger] nodes[i], config)
    &&& 0 <= id < nodes.len()
    &&& {
        let n = nodes[id];
        &&& n.center.in_range(3 * COORD_CAP - 2 * n.quarter_side)
        &&& 0 <= n.quarter_side <= config.voxel_size
        &&& n.depth <= config.plane.max_layer
        &&& spec_cached_of(n).len() <= config.plane.max_points
        &&& spec_is_leaf(n)
    }
    &&& forall|i: int, s: int|
        0 <= i < nodes.len() && 0 <= s < 8 && #[trigger] spec_child_of(nodes[i], s) != 0 ==> {
            &&& spec_child_of(nodes[i], s) < nodes.len()
            &&& nodes[spec_child_of(nodes[i], s)].depth == nodes[i].depth + 1
        }
}

/// Insert a point into a root's arena: descend, then either cache the
/// point in the leaf it lands in (applying the leaf policy) or open the
/// missing child of the branch it stops at.
fn tree_insert(nodes: &mut Vec<Node>, up: UPointFx, root_slot: usize, config: &VoxelMapConfig) -> (
    req: Option<FitRequest>)
    requires
        config.wf(),
        up.wf(),
        tree_wf(old(nodes)@, *config),
        old(nodes)@.len() < usize::MAX - 1,
    ensures
        tree_wf(final(nodes)@, *config),
        old(nodes)@.len() <= final(nodes)@.len(),
        forall|i: int|
            0 <= i < old(nodes)@.len() && !spec_is_unfrozen_leaf(old(nodes)@[i])
                ==> !spec_is_unfrozen_leaf(#[trigger] final(nodes)@[i]),
        req is Some ==> {
            let r = req->Some_0;
            &&& r.root_slot == root_slot
            &&& r.points@.len() <= config.plane.max_points
            &&& forall|k: int| 0 <= k < r.points@.len() ==> (#[trigger] r.points@[k]).wf()
        },
        // where the point went, and what that did
        ({
            let id = spec_descend(old(nodes)@, up.p, config.plane.max_layer as int);
            let n0 = old(nodes)@[id];
            &&& 0 <= id < old(nodes)@.len()
            // a frozen leaf absorbs the point without any change
            &&& spec_is_leaf(n0) && !spec_is_unfrozen_leaf(n0) ==> final(nodes)@ == old(nodes)@
                && req is None
            // an unfrozen leaf caches the point and runs the leaf policy
            &&& spec_is_unfrozen_leaf(n0) ==> {
                let pts1 = spec_cached_of(n0).push(up);
                &&& final(nodes)@.len() == old(nodes)@.len()
                &&& forall|i: int|
                    0 <= i < old(nodes)@.len() && i != id ==> final(nodes)@[i] == old(nodes)@[i]
                &&& final(nodes)@[id].center == n0.center
                &&& final(nodes)@[id].quarter_side == n0.quarter_side
                &&& final(nodes)@[id].depth == n0.depth
                &&& spec_leaf_state(
                    final(nodes)@[id],
                    spec_cache_after(pts1, *config),
                    spec_plane_after(spec_plane_of(n0), pts1.len() as int, *config),
                )
                &&& (req is Some) == spec_fit_due(spec_plane_of(n0), pts1.len() as int, *config)
                &&& req is Some ==> req->Some_0.node == id && upoints_like(
                    req->Some_0.points@,
                    pts1,
                )
            }
            // a branch with an empty slot opens the child leaf there
            &&& !spec_is_leaf(n0) ==> {
                let s = spec_child_slot(up.p, n0.center);
                let new_id = old(nodes)@.len() as int;
                &&& final(nodes)@.len() == old(nodes)@.len() + 1
                &&& forall|i: int|
                    0 <= i < old(nodes)@.len() && i != id ==> final(nodes)@[i] == old(nodes)@[i]
                &&& final(nodes)@[id].center == n0.center
                &&& final(nodes)@[id].quarter_side == n0.quarter_side
                &&& final(nodes)@[id].depth == n0.depth
                &&& final(nodes)@[id].kind is Branch
                &&& spec_child_of(final(nodes)@[id], s) == new_id
                &&& forall|s2: int|
                    0 <= s2 < 8 && s2 != s ==> spec_child_of(final(nodes)@[id], s2)
                        == spec_child_of(n0, s2)
                &&& final(nodes)@[new_id].center == spec_child_center(n0.center, n0.quarter_side, s)
                &&& final(nodes)@[new_id].quarter_side == n0.quarter_side as int / 2
                &&& final(nodes)@[new_id].depth == n0.depth + 1
                &&& spec_leaf_state(
                    final(nodes)@[new_id],
                    spec_cache_after(seq![up], *config),
                    Option::<PlaneFx>::None,
                )
                &&& (req is Some) == spec_fit_due(
                    Option::<PlaneFx>::None,
                    1,
                    *config,
                )
                &&& req is Some ==> req->Some_0.node == new_id && upoints_like(
                    req->Some_0.points@,
                    seq![up],
                )
            }
        }),
{
    let id = descend(nodes, up.p, config);
    let ghost pre = nodes@;
    let node = &nodes[id];
    let is_leaf = match &node.kind {
        NodeKind::Leaf(_) => true,
        NodeKind::Branch(_) => false,
    };
    if is_leaf {
        let frozen = match &node.kind {
            NodeKind::Leaf(leaf) => match &leaf.cached {
                Some(_) => false,
                None => true,
            },
            NodeKind::Branch(_) => false,
        };
        if frozen {
            // a frozen leaf absorbs the point without change
            return None;
        }
        let node = &mut nodes[id];
        match &mut node.kind {
            NodeKind::Leaf(leaf) => {
                match &mut leaf.cached {
                    Some(pts) => {
                        pts.push(up);
                    },
                    None => {
                        proof {
                            assert(false);
                        }
                    },
                }
            },
            NodeKind::Branch(_) => {
                proof {
                    assert(false);
                }
            },
        }
        proof {
            assert forall|i: int|
                0 <= i < nodes@.len() && i != id implies node_wf(#[trigger] nodes@[i], *config) by {
                assert(nodes@[i] == pre[i]);
            }
            assert forall|i: int, s: int|
                0 <= i < nodes@.len() && 0 <= s < 8 && #[trigger] spec_child_of(nodes@[i], s)
                    != 0 implies spec_child_of(nodes@[i], s) < nodes@.len() && nodes@[spec_child_of(
                nodes@[i],
                s,
            )].depth == nodes@[i].depth + 1 by {
                if i != id {
                    assert(nodes@[i] == pre[i]);
                }
                if spec_child_of(nodes@[i], s) != id {
                    assert(nodes@[spec_child_of(nodes@[i], s)] == pre[spec_child_of(
                        nodes@[i],
                        s,
                    )]);
                }
            }
        }
        leaf_update(nodes, id, root_slot, config)
    } else {
        // a branch with an empty slot for the point: open the child leaf
        let center = node.center;
        let quarter = node.quarter_side;
        let depth = node.depth;
        let s = child_slot(up.p, center);
        let new_id = nodes.len();
        let child = make_child(center, quarter, depth, up.p, up, Ghost(*config));
        nodes.push(child);
        let node = &mut nodes[id];
        match &mut node.kind {
            NodeKind::Branch(ch) => {
                ch.set(s, new_id);
            },
            NodeKind::Leaf(_) => {
                proof {
                    assert(false);
                }
            },
        }
        proof {
            assert forall|i: int|
                0 <= i < nodes@.len() && i != id && i != new_id implies node_wf(
                #[trigger] nodes@[i],
                *config,
            ) by {
                assert(nodes@[i] == pre[i]);
            }
            assert forall|i: int, s2: int|
                0 <= i < nodes@.len() && 0 <= s2 < 8 && #[trigger] spec_child_of(nodes@[i], s2)
                    != 0 implies spec_child_of(nodes@[i], s2) < nodes@.len() && nodes@[spec_child_of(
                nodes@[i],
                s2,
            )].depth == nodes@[i].depth + 1 by {
                if i != id && i != new_id {
                    assert(nodes@[i] == pre[i]);
                }
            }
        }
        leaf_update(nodes, new_id, root_slot, config)
    }
}

/// Build the child leaf of a branch for the given slot point: centered a
/// quarter side away from the branch center along each axis, with half
/// the quarter side and one more depth, caching the one point.
fn make_child(
    center: Vec3Fx,
    quarter: i64,
    depth: u8,
    p: Vec3Fx,
    up: UPointFx,
    config: Ghost<VoxelMapConfig>,
) -> (r: Node)
    requires
        config@.wf(),
        up.wf(),
        up.p == p,
        center.in_range(3 * COORD_CAP - 2 * quarter),
        0 <= quarter <= config@.voxel_size,
        depth < config@.plane.max_layer,
    ensures
        r.center.in_range(3 * COORD_CAP - 2 * r.quarter_side),
        0 <= r.quarter_side <= config@.voxel_size,
        r.center == spec_child_center(center, quarter, spec_child_slot(p, center)),
        r.quarter_side == quarter as int / 2,
        r.depth == depth + 1,
        spec_is_leaf(r),
        spec_is_unfrozen_leaf(r),
        spec_cached_of(r) == seq![up],
        spec_plane_of(r) is None,
{
    let dx: i64 = if p.x > center.x {
        quarter
    } else {
        -quarter
    };
    let dy: i64 = if p.y > center.y {
        quarter
    } else {
        -quarter
    };
    let dz: i64 = if p.z > center.z {
        quarter
    } else {
        -quarter
    };
    let child_center = Vec3Fx { x: center.x + dx, y: center.y + dy, z: center.z + dz };
    let half_quarter = floor_div(quarter, 2);
    let mut pts: Vec<UPointFx> = Vec::new();
    pts.push(up);
    proof {
        assert(pts@ =~= seq![up]);
    }
    let leaf = Leaf { plane: None, cached: Some(pts) };
    Node {
        center: child_center,
        quarter_side: half_quarter,
        depth: depth + 1,
        kind: NodeKind::Leaf(leaf),
    }
}

/// Copy a vector of fixed-point covariance entries.
fn copy_i64_vec(v: &Vec<i64>) -> (r: Vec<i64>)
    ensures
        r@ == v@,
{
    let mut r: Vec<i64> = Vec::new();
    let n = v.len();
    let mut k: usize = 0;
    while k < n
        invariant
            k <= n,
            n == v@.len(),
            r@ == v@.take(k as int),
        decreases n - k,
    {
        r.push(v[k]);
        proof {
            assert(r@ =~= v@.take(k as int + 1));
        }
        k = k + 1;
    }
    proof {
        assert(r@ =~= v@);
    }
    r
}

/// Two uncertain points carrying the same values.
pub open spec fn upoint_like(a: UPointFx, b: UPointFx) -> bool {
    a.p == b.p && a.cov@ == b.cov@
}

/// Copy an uncertain point.
fn copy_upoint(u: &UPointFx) -> (r: UPointFx)
    ensures
        upoint_like(r, *u),
        r.wf() <==> u.wf(),
{
    let cov = copy_i64_vec(&u.cov);
    UPointFx { p: u.p, cov }
}

/// Copy a vector of uncertain points.
fn copy_upoints(v: &Vec<UPointFx>) -> (r: Vec<UPointFx>)
    ensures
        r@.len() == v@.len(),
        forall|k: int| 0 <= k < v@.len() ==> upoint_like(#[trigger] r@[k], v@[k]),
        forall|k: int| 0 <= k < v@.len() ==> ((#[trigger] r@[k]).wf() <==> v@[k].wf()),
{
    let mut r: Vec<UPointFx> = Vec::new();
    let n = v.len();
    let mut k: usize = 0;
    while k < n
        invariant
            k <= n,
            n == v@.len(),
            r@.len() == k,
            forall|k2: int| 0 <= k2 < k ==> upoint_like(#[trigger] r@[k2], v@[k2]),
            forall|k2: int| 0 <= k2 < k ==> ((#[trigger] r@[k2]).wf() <==> v@[k2].wf()),
        decreases n - k,
    {
        let u = copy_upoint(&v[k]);
        r.push(u);
        k = k + 1;
    }
    r
}

/// Two planes carrying the same values.
pub open spec fn plane_like(a: PlaneFx, b: PlaneFx) -> bool {
    a.normal == b.normal && a.center == b.center && a.radius_sq == b.radius_sq && a.cov@ == b.cov@
}

/// Copy a plane record.
pub fn copy_plane(pl: &PlaneFx) -> (r: PlaneFx)
    ensures
        plane_like(r, *pl),
        plane_wf(r) <==> plane_wf(*pl),
{
    let cov = copy_i64_vec(&pl.cov);
    PlaneFx { normal: pl.normal, center: pl.center, radius_sq: pl.radius_sq, cov }
}


/// Check that every point of a vector is well-formed.
fn upoints_check(v: &Vec<UPointFx>) -> (r: bool)
    ensures
        r == forall|k: int| 0 <= k < v@.len() ==> (#[trigger] v@[k]).wf(),
{
    let n = v.len();
    let mut k: usize = 0;
    while k < n
        invariant
            k <= n,
            n == v@.len(),
            forall|k2: int| 0 <= k2 < k ==> (#[trigger] v@[k2]).wf(),
        decreases n - k,
    {
        let u = &v[k];
        let ok = in_range_exec(u.p, COORD_CAP) && cov_check(&u.cov, 3);
        if !ok {
            return false;
        }
        k = k + 1;
    }
    true
}

/// Whether a fit request still names a leaf of the map: a live root
/// slot, a node index inside that root's arena, and a leaf there.
pub open spec fn spec_request_names_leaf(m: VoxelMap, req: FitRequest) -> bool {
    &&& 0 <= req.root_slot < m.spec_root_count()
    &&& 0 <= req.node < m.spec_root_nodes(req.root_slot as int).len()
    &&& spec_is_leaf(m.spec_root_nodes(req.root_slot as int)[req.node as int])
}

/// The plane a fit yields: the record built from the fit's numbers when
/// they pass every well-formedness bound, absent otherwise.
pub open spec fn spec_fit_plane(fit: FitData) -> Option<PlaneFx> {
    let pl = PlaneFx {
        normal: fit.normal,
        center: fit.center,
        radius_sq: fit.radius_sq,
        cov: fit.cov,
    };
    if plane_wf(pl) {
        Some(pl)
    } else {
        None
    }
}

/// Whether a point collection could have come from a leaf: no more points
/// than the freeze bound, all of them well-formed.
pub open spec fn spec_points_valid(pts: Seq<UPointFx>, config: VoxelMapConfig) -> bool {
    pts.len() <= config.plane.max_points && forall|k: int|
        0 <= k < pts.len() ==> (#[trigger] pts[k]).wf()
}

/// What subdividing leaf `id` over the points `pts0` produces: the leaf
/// becomes a branch with its geometry kept; for each slot, the points of
/// that slot (in order) land in a fresh child leaf a quarter side away,
/// at half the quarter side and one more depth, frozen when they reach
/// the cap; and the fit requests name exactly the children that gathered
/// enough points, carrying those very points.
pub open spec fn spec_subdivided(
    nodes0: Seq<Node>,
    nodes1: Seq<Node>,
    id: int,
    pts0: Seq<UPointFx>,
    more: Seq<FitRequest>,
    config: VoxelMapConfig,
) -> bool {
    let n0 = nodes0[id];
    let center = n0.center;
    &&& nodes0.len() <= nodes1.len()
    &&& forall|i: int| 0 <= i < nodes0.len() && i != id ==> nodes1[i] == nodes0[i]
    &&& nodes1[id].center == n0.center
    &&& nodes1[id].quarter_side == n0.quarter_side
    &&& nodes1[id].depth == n0.depth
    &&& nodes1[id].kind is Branch
    // every node the subdivision added is one of the branch's children
    &&& forall|i: int|
        #![trigger spec_is_child_of(nodes1[id], i)]
        nodes0.len() <= i < nodes1.len() ==> spec_is_child_of(nodes1[id], i)
    &&& forall|s: int|
        #![trigger spec_slot_points(pts0, center, s)]
        0 <= s < 8 ==> {
            let ps = spec_slot_points(pts0, center, s);
            let c = spec_child_of(nodes1[id], s);
            &&& (c == 0 <==> ps.len() == 0)
            &&& (c != 0 ==> {
                &&& nodes0.len() <= c < nodes1.len()
                &&& nodes1[c].depth == n0.depth + 1
                &&& nodes1[c].center == spec_child_center(center, n0.quarter_side, s)
                &&& nodes1[c].quarter_side == n0.quarter_side as int / 2
                &&& spec_leaf_state(
                    nodes1[c],
                    spec_cache_after(ps, config),
                    Option::<PlaneFx>::None,
                )
            })
        }
    &&& forall|s: int|
        #![trigger spec_slot_points(pts0, center, s)]
        0 <= s < 8 && spec_slot_points(pts0, center, s).len()
            >= config.plane.plane_init_threshold ==> exists|k: int|
            0 <= k < more.len() && (#[trigger] more[k]).node == spec_child_of(nodes1[id], s)
                && upoints_like(more[k].points@, spec_slot_points(pts0, center, s))
    &&& forall|k: int|
        0 <= k < more.len() ==> spec_request_matches(
            nodes1[id],
            pts0,
            center,
            #[trigger] more[k],
            config,
        )
}

/// Whether a fit request names one of the branch's children that
/// gathered enough of the subdivided points, and carries exactly those
/// points.
pub open spec fn spec_request_matches(
    branch: Node,
    pts0: Seq<UPointFx>,
    center: Vec3Fx,
    r: FitRequest,
    config: VoxelMapConfig,
) -> bool {
    exists|s: int|
        0 <= s < 8 && spec_child_of(branch, s) == r.node as int && spec_slot_points(
            pts0,
            center,
            s,
        ).len() >= config.plane.plane_init_threshold && upoints_like(
            r.points@,
            spec_slot_points(pts0, center, s),
        )
}

/// Whether node `i` is one of the children of branch node `n`.
pub open spec fn spec_is_child_of(n: Node, i: int) -> bool {
    exists|s: int| 0 <= s < 8 && spec_child_of(n, s) == i
}

/// Appending one point extends exactly its own slot's sequence.
proof fn lemma_slot_points_step(pts0: Seq<UPointFx>, center: Vec3Fx, j: int)
    requires
        0 <= j < pts0.len(),
    ensures
        forall|s: int|
            #![trigger spec_slot_points(pts0.take(j + 1), center, s)]
            spec_slot_points(pts0.take(j + 1), center, s) == if spec_child_slot(
                pts0[j].p,
                center,
            ) == s {
                spec_slot_points(pts0.take(j), center, s).push(pts0[j])
            } else {
                spec_slot_points(pts0.take(j), center, s)
            },
{
    assert(pts0.take(j + 1).drop_last() =~= pts0.take(j));
    assert(pts0.take(j + 1).last() == pts0[j]);
}

impl VoxelMap {
    /// Take the numbers of a plane fit back and decide. A request that no
    /// longer names a leaf changes nothing. Otherwise: a planar fit
    /// (smallest eigenvalue below the threshold) becomes the leaf's plane
    /// exactly when its numbers pass the well-formedness checks; a
    /// non-planar fit at the layer bound leaves the leaf without a plane;
    /// a non-planar fit below the bound subdivides the leaf, re-inserting
    /// its points into fresh children and returning their fit requests. A
    /// frozen leaf no longer holds its points, so the request's copy
    /// stands in for them after a validity check; an invalid copy changes
    /// nothing.
    #[verifier::rlimit(100)]
    pub fn apply_fit(&mut self, req: FitRequest, fit: FitData) -> (more: Vec<FitRequest>)
        requires
            old(self).wf(),
            forall|i: int|
                0 <= i < old(self).spec_root_count() ==> old(self).spec_root_nodes(i).len() + old(
                    self,
                ).spec_config().plane.max_points < usize::MAX,
        ensures
            final(self).wf(),
            final(self).spec_config() == old(self).spec_config(),
            final(self).spec_root_count() == old(self).spec_root_count(),
            forall|i: int|
                0 <= i < old(self).spec_root_count() ==> final(self).spec_root_index(i) == old(
                    self,
                ).spec_root_index(i) && final(self).spec_root_routed(i) == old(
                    self,
                ).spec_root_routed(i),
            // a frozen leaf never becomes unfrozen again
            forall|i: int, j: int|
                0 <= i < old(self).spec_root_count() && 0 <= j < old(self).spec_root_nodes(
                    i,
                ).len() && !spec_is_unfrozen_leaf(old(self).spec_root_nodes(i)[j])
                    ==> !spec_is_unfrozen_leaf(#[trigger] final(self).spec_root_nodes(i)[j]),
            forall|i: int|
                0 <= i < old(self).spec_root_count() ==> old(self).spec_root_nodes(i).len()
                    <= final(self).spec_root_nodes(i).len(),
            forall|k: int|
                0 <= k < more@.len() ==> {
                    let r = #[trigger] more@[k];
                    &&& r.root_slot == req.root_slot
                    &&& r.points@.len() <= old(self).spec_config().plane.max_points
                    &&& forall|k2: int| 0 <= k2 < r.points@.len() ==> (#[trigger] r.points@[k2]).wf()
                },
            // the decision taken on the fit's numbers
            ({
                let config = old(self).spec_config();
                let slot = req.root_slot as int;
                let id = req.node as int;
                if !spec_request_names_leaf(*old(self), req) {
                    (forall|i: int|
                        0 <= i < old(self).spec_root_count()
                            ==> #[trigger] final(self).spec_root_nodes(i) == old(
                            self,
                        ).spec_root_nodes(i)) && more@.len() == 0
                } else {
                    let nodes0 = old(self).spec_root_nodes(slot);
                    let nodes1 = final(self).spec_root_nodes(slot);
                    let n0 = nodes0[id];
                    let accept = fit.min_eigenvalue < config.plane.plane_eigen_threshold;
                    let at_floor = n0.depth >= config.plane.max_layer;
                    &&& forall|i: int|
                        0 <= i < old(self).spec_root_count() && i != slot
                            ==> #[trigger] final(self).spec_root_nodes(i) == old(
                            self,
                        ).spec_root_nodes(i)
                    // a planar fit becomes the leaf's plane when its
                    // numbers are well-formed, and is refused otherwise
                    &&& (accept ==> {
                        &&& nodes1.len() == nodes0.len()
                        &&& forall|i: int|
                            0 <= i < nodes0.len() && i != id ==> nodes1[i] == nodes0[i]
                        &&& nodes1[id].center == n0.center
                        &&& nodes1[id].quarter_side == n0.quarter_side
                        &&& nodes1[id].depth == n0.depth
                        &&& spec_is_unfrozen_leaf(nodes1[id]) == spec_is_unfrozen_leaf(n0)
                        &&& spec_cached_of(nodes1[id]) == spec_cached_of(n0)
                        &&& spec_is_leaf(nodes1[id])
                        &&& spec_plane_of(nodes1[id]) == spec_fit_plane(fit)
                        &&& more@.len() == 0
                    })
                    // a non-planar fit at the layer bound keeps the leaf,
                    // without a plane
                    &&& (!accept && at_floor ==> {
                        &&& nodes1.len() == nodes0.len()
                        &&& forall|i: int|
                            0 <= i < nodes0.len() && i != id ==> nodes1[i] == nodes0[i]
                        &&& nodes1[id].center == n0.center
                        &&& nodes1[id].quarter_side == n0.quarter_side
                        &&& nodes1[id].depth == n0.depth
                        &&& spec_is_unfrozen_leaf(nodes1[id]) == spec_is_unfrozen_leaf(n0)
                        &&& spec_cached_of(nodes1[id]) == spec_cached_of(n0)
                        &&& spec_is_leaf(nodes1[id])
                        &&& spec_plane_of(nodes1[id]) is None
                        &&& more@.len() == 0
                    })
                    // a non-planar fit below the bound subdivides the leaf
                    // over its points (an unfrozen leaf's own cache, or
                    // the request's valid copy)
                    &&& (!accept && !at_floor ==> if spec_is_unfrozen_leaf(n0) {
                        spec_subdivided(nodes0, nodes1, id, spec_cached_of(n0), more@, config)
                    } else if spec_points_valid(req.points@, config) {
                        spec_subdivided(nodes0, nodes1, id, req.points@, more@, config)
                    } else {
                        nodes1 == nodes0 && more@.len() == 0
                    })
                }
            }),
    {
        let ghost old_self = *self;
        let mut more: Vec<FitRequest> = Vec::new();
        if req.root_slot >= self.roots.len() {
            return more;
        }
        let config = self.config;
        let slot = req.root_slot;
        let entry = &mut self.roots[slot];
        if req.node >= entry.nodes.len() {
            proof {
                assert(old_self.roots@.update(slot as int, old_self.roots@[slot as int])
                    =~= old_self.roots@);
                assert(self.roots@ == old_self.roots@);
            }
            return more;
        }
        let id = req.node;
        let ghost pre = entry.nodes@;
        let (is_unfrozen, is_leaf, depth) = {
            let n = &entry.nodes[id];
            match &n.kind {
                NodeKind::Leaf(l) => (
                    match &l.cached {
                        Some(_) => true,
                        None => false,
                    },
                    true,
                    n.depth,
                ),
                NodeKind::Branch(_) => (false, false, n.depth),
            }
        };
        if !is_leaf {
            proof {
                assert(old_self.roots@.update(slot as int, old_self.roots@[slot as int])
                    =~= old_self.roots@);
                assert(self.roots@ == old_self.roots@);
            }
            return more;
        }
        let rejected = plane_eigen_gate(fit.min_eigenvalue, &config.plane);
        let prune = match rejected {
            Some(_) => depth < config.plane.max_layer,
            None => false,
        };
        if !prune {
            // keep the leaf; accept the plane only when the fit is planar
            // and its numbers pass the well-formedness checks
            let new_plane: Option<PlaneFx> = match rejected {
                None => PlaneFx::new(fit.normal, fit.center, fit.radius_sq, fit.cov),
                Some(_) => None,
            };
            let node = &mut entry.nodes[id];
            match &mut node.kind {
                NodeKind::Leaf(leaf) => {
                    leaf.plane = new_plane;
                },
                NodeKind::Branch(_) => {
                    proof {
                        assert(false);
                    }
                },
            }
            proof {
                lemma_tree_wf_update_leaf(pre, entry.nodes@, config, id as int);
                assert forall|j: int|
                    0 <= j < pre.len() && !spec_is_unfrozen_leaf(pre[j])
                        implies !spec_is_unfrozen_leaf(#[trigger] entry.nodes@[j]) by {
                    if j != id {
                        assert(entry.nodes@[j] == pre[j]);
                    }
                }
                assert(self.roots@[slot as int].wf(config));
                assert forall|i: int|
                    0 <= i < self.roots@.len() implies (#[trigger] self.roots@[i]).wf(config) by {
                    if i != slot {
                        assert(self.roots@[i] == old_self.roots@[i]);
                    }
                }
            }
            return more;
        }
        // subdivide: the leaf becomes a branch and its points move down.
        // A frozen leaf no longer holds its points; the request's copy
        // stands in for them, after a validity check.
        let mut pts: Vec<UPointFx> = {
            let node = &mut entry.nodes[id];
            let mut taken: Option<Vec<UPointFx>> = None;
            match &mut node.kind {
                NodeKind::Leaf(leaf) => {
                    taken = leaf.cached.take();
                },
                NodeKind::Branch(_) => {
                    proof {
                        assert(false);
                    }
                },
            }
            match taken {
                Some(p) => p,
                None => req.points,
            }
        };
        proof {
            assert(node_wf(pre[id as int], config));
            if is_unfrozen {
                assert(pts@ == spec_cached_of(pre[id as int]));
            } else {
                assert(pts@ == req.points@);
            }
        }
        if !(pts.len() <= config.plane.max_points) {
            // a foreign request: too many points to have come from a leaf
            let node = &mut entry.nodes[id];
            match &mut node.kind {
                NodeKind::Leaf(leaf) => {
                    leaf.cached = None;
                },
                NodeKind::Branch(_) => {
                    proof {
                        assert(false);
                    }
                },
            }
            proof {
                assert(!is_unfrozen);
                assert(entry.nodes@[id as int] == pre[id as int]);
                assert(entry.nodes@ =~= pre);
                assert(self.roots@[slot as int].wf(config));
                assert forall|i: int|
                    0 <= i < self.roots@.len() implies (#[trigger] self.roots@[i]).wf(config) by {
                    if i != slot {
                        assert(self.roots@[i] == old_self.roots@[i]);
                    }
                }
            }
            return more;
        }
        if !upoints_check(&pts) {
            let node = &mut entry.nodes[id];
            match &mut node.kind {
                NodeKind::Leaf(leaf) => {
                    leaf.cached = None;
                },
                NodeKind::Branch(_) => {
                    proof {
                        assert(false);
                    }
                },
            }
            proof {
                assert(!is_unfrozen);
                assert(entry.nodes@[id as int] == pre[id as int]);
                assert(entry.nodes@ =~= pre);
                assert(self.roots@[slot as int].wf(config));
                assert forall|i: int|
                    0 <= i < self.roots@.len() implies (#[trigger] self.roots@[i]).wf(config) by {
                    if i != slot {
                        assert(self.roots@[i] == old_self.roots@[i]);
                    }
                }
            }
            return more;
        }
        let ghost pts0 = pts@;
        let (center, quarter) = {
            let node = &mut entry.nodes[id];
            let mut slots: Vec<usize> = Vec::new();
            let mut z: usize = 0;
            while z < 8
                invariant
                    z <= 8,
                    slots@.len() == z,
                    forall|s: int| 0 <= s < z ==> slots@[s] == 0,
                decreases 8 - z,
            {
                slots.push(0);
                z = z + 1;
            }
            node.kind = NodeKind::Branch(slots);
            (node.center, node.quarter_side)
        };
        let ghost branched = entry.nodes@;
        let old_len = entry.nodes.len();
        proof {
            assert(pre.len() == old_self.spec_root_nodes(slot as int).len());
            assert(old_len == branched.len() == pre.len());
            assert(pts0.take(0) =~= Seq::<UPointFx>::empty());
            assert(pts@ == pts0.skip(0));
        }
        let ghost depth0 = branched[id as int].depth as int;
        // re-insert each point into the child below the branch center
        let m = pts.len();
        let mut j: usize = 0;
        while j < m
            invariant
                config.wf(),
                m == pts0.len(),
                m <= config.plane.max_points,
                j <= m,
                pts@ == pts0.skip(j as int),
                forall|k: int| 0 <= k < m ==> (#[trigger] pts0[k]).wf(),
                id < old_len,
                entry.key == old_self.roots@[slot as int].key,
                entry.index == old_self.roots@[slot as int].index,
                entry.routed@ == old_self.roots@[slot as int].routed@,
                old_len <= entry.nodes@.len(),
                entry.nodes@.len() <= old_len + j,
                old_len + m < usize::MAX,
                old_len == branched.len(),
                center.in_range(3 * COORD_CAP - 2 * quarter),
                0 <= quarter <= config.voxel_size,
                forall|i: int| 0 <= i < old_len && i != id ==> entry.nodes@[i] == branched[i],
                entry.nodes@[id as int].center == center,
                entry.nodes@[id as int].quarter_side == quarter,
                entry.nodes@[id as int].depth == branched[id as int].depth,
                depth0 == branched[id as int].depth,
                branched[id as int].depth < config.plane.max_layer,
                entry.nodes@[id as int].kind is Branch,
                entry.nodes@[id as int].kind matches NodeKind::Branch(ch) ==> ch@.len() == 8
                    && (forall|s: int|
                    0 <= s < 8 ==> (#[trigger] ch@[s] == 0 || old_len <= ch@[s]
                        < entry.nodes@.len())) && (forall|s1: int, s2: int|
                    0 <= s1 < s2 < 8 && ch@[s1] != 0 && ch@[s2] != 0 ==> ch@[s1] != ch@[s2]),
                // every fresh node is the child of some slot
                forall|i: int|
                    #![trigger spec_is_child_of(entry.nodes@[id as int], i)]
                    old_len <= i < entry.nodes@.len() ==> spec_is_child_of(
                        entry.nodes@[id as int],
                        i,
                    ),
                // each slot holds exactly its own points so far
                forall|s: int|
                    #![trigger spec_slot_points(pts0.take(j as int), center, s)]
                    0 <= s < 8 ==> {
                        let ps = spec_slot_points(pts0.take(j as int), center, s);
                        let c = spec_child_of(entry.nodes@[id as int], s);
                        &&& (c == 0 <==> ps.len() == 0)
                        &&& (c != 0 ==> {
                            &&& old_len <= c < entry.nodes@.len()
                            &&& entry.nodes@[c].center == spec_child_center(center, quarter, s)
                            &&& spec_leaf_state(
                                entry.nodes@[c],
                                Some(ps),
                                Option::<PlaneFx>::None,
                            )
                        })
                    },
                forall|i: int|
                    old_len <= i < entry.nodes@.len() ==> {
                        let n = #[trigger] entry.nodes@[i];
                        &&& spec_is_leaf(n)
                        &&& spec_is_unfrozen_leaf(n)
                        &&& spec_plane_of(n) is None
                        &&& n.depth == branched[id as int].depth + 1
                        &&& n.center.in_range(3 * COORD_CAP - 2 * n.quarter_side)
                        &&& n.quarter_side == quarter as int / 2
                        &&& 0 <= n.quarter_side <= config.voxel_size
                        &&& spec_cached_of(n).len() <= j
                        &&& spec_cached_of(n).len() >= 1
                        &&& forall|k: int|
                            0 <= k < spec_cached_of(n).len() ==> (#[trigger] spec_cached_of(
                                n,
                            )[k]).wf()
                    },
            decreases m - j,
        {
            let ghost before = entry.nodes@;
            let upj = pts.remove(0);
            proof {
                assert(upj == pts0[j as int]);
                assert(pts@ =~= pts0.skip(j as int + 1));
                lemma_slot_points_step(pts0, center, j as int);
            }
            let sj = child_slot(upj.p, center);
            let c = {
                let node = &entry.nodes[id];
                match &node.kind {
                    NodeKind::Branch(ch) => ch[sj],
                    NodeKind::Leaf(_) => {
                        proof {
                            assert(false);
                        }
                        0
                    },
                }
            };
            if c == 0 {
                let new_id = entry.nodes.len();
                let depth_id = entry.nodes[id].depth;
                let child = make_child(center, quarter, depth_id, upj.p, upj, Ghost(config));
                entry.nodes.push(child);
                let node = &mut entry.nodes[id];
                match &mut node.kind {
                    NodeKind::Branch(ch) => {
                        ch.set(sj, new_id);
                    },
                    NodeKind::Leaf(_) => {
                        proof {
                            assert(false);
                        }
                    },
                }
                proof {
                    assert(spec_slot_points(pts0.take(j as int), center, sj as int).len() == 0);
                    assert(spec_slot_points(pts0.take(j as int + 1), center, sj as int)
                        =~= seq![pts0[j as int]]);
                    assert forall|s: int|
                        #![trigger spec_slot_points(pts0.take(j as int + 1), center, s)]
                        0 <= s < 8 implies ({
                        let ps = spec_slot_points(pts0.take(j as int + 1), center, s);
                        let c2 = spec_child_of(entry.nodes@[id as int], s);
                        &&& (c2 == 0 <==> ps.len() == 0)
                        &&& (c2 != 0 ==> {
                            &&& old_len <= c2 < entry.nodes@.len()
                            &&& entry.nodes@[c2].center == spec_child_center(center, quarter, s)
                            &&& spec_leaf_state(
                                entry.nodes@[c2],
                                Some(ps),
                                Option::<PlaneFx>::None,
                            )
                        })
                    }) by {
                        let c2 = spec_child_of(entry.nodes@[id as int], s);
                        if s == sj as int {
                            assert(c2 == new_id as int);
                            assert(entry.nodes@[new_id as int].center == spec_child_center(
                                center,
                                quarter,
                                sj as int,
                            ));
                        } else {
                            assert(c2 == spec_child_of(before[id as int], s));
                            if c2 != 0 {
                                assert(c2 != new_id as int);
                                assert(entry.nodes@[c2] == before[c2]);
                            }
                        }
                    }
                    assert forall|i: int|
                        #![trigger spec_is_child_of(entry.nodes@[id as int], i)]
                        old_len <= i < entry.nodes@.len() implies spec_is_child_of(
                        entry.nodes@[id as int],
                        i,
                    ) by {
                        if i == new_id {
                            assert(spec_child_of(entry.nodes@[id as int], sj as int)
                                == new_id as int);
                        } else {
                            assert(before[i].depth == before[i].depth);
                            assert(spec_is_child_of(before[id as int], i));
                            let s2 = choose|s2: int|
                                0 <= s2 < 8 && spec_child_of(before[id as int], s2) == i;
                            assert(spec_child_of(before[id as int], sj as int) == 0);
                            assert(s2 != sj);
                            assert(spec_child_of(entry.nodes@[id as int], s2) == i);
                        }
                    }
                }
            } else {
                let node = &mut entry.nodes[c];
                match &mut node.kind {
                    NodeKind::Leaf(leaf) => {
                        match &mut leaf.cached {
                            Some(v) => {
                                v.push(upj);
                            },
                            None => {
                                proof {
                                    assert(false);
                                }
                            },
                        }
                    },
                    NodeKind::Branch(_) => {
                        proof {
                            assert(false);
                        }
                    },
                }
                proof {
                    assert(entry.nodes@[id as int] == before[id as int]);
                    assert(spec_child_of(before[id as int], sj as int) == c as int);
                    assert(spec_cached_of(before[c as int]) == spec_slot_points(
                        pts0.take(j as int),
                        center,
                        sj as int,
                    ));
                    assert(spec_cached_of(entry.nodes@[c as int]) == spec_cached_of(
                        before[c as int],
                    ).push(pts0[j as int]));
                    assert forall|i: int|
                        #![trigger spec_is_child_of(entry.nodes@[id as int], i)]
                        old_len <= i < entry.nodes@.len() implies spec_is_child_of(
                        entry.nodes@[id as int],
                        i,
                    ) by {
                        assert(spec_is_child_of(before[id as int], i));
                        assert(entry.nodes@[id as int] == before[id as int]);
                    }
                    assert forall|s: int|
                        #![trigger spec_slot_points(pts0.take(j as int + 1), center, s)]
                        0 <= s < 8 implies ({
                        let ps = spec_slot_points(pts0.take(j as int + 1), center, s);
                        let c2 = spec_child_of(entry.nodes@[id as int], s);
                        &&& (c2 == 0 <==> ps.len() == 0)
                        &&& (c2 != 0 ==> {
                            &&& old_len <= c2 < entry.nodes@.len()
                            &&& entry.nodes@[c2].center == spec_child_center(center, quarter, s)
                            &&& spec_leaf_state(
                                entry.nodes@[c2],
                                Some(ps),
                                Option::<PlaneFx>::None,
                            )
                        })
                    }) by {
                        let c2 = spec_child_of(before[id as int], s);
                        if s != sj {
                            if c2 != 0 {
                                assert(c2 != c as int);
                                assert(entry.nodes@[c2] == before[c2]);
                            }
                        }
                    }
                }
            }
            j = j + 1;
        }
        proof {
            assert(pts0.take(m as int) =~= pts0);
        }
        // scan the fresh children: request fits where enough points
        // gathered, and freeze children that reached the cap
        let ghost reinserted = entry.nodes@;
        let init_threshold = config.plane.plane_init_threshold;
        let max_points = config.plane.max_points;
        let total = entry.nodes.len();
        let mut w: usize = old_len;
        while w < total
            invariant
                config.wf(),
                old_len <= w <= total,
                id < old_len,
                entry.key == old_self.roots@[slot as int].key,
                entry.index == old_self.roots@[slot as int].index,
                entry.routed@ == old_self.roots@[slot as int].routed@,
                total == entry.nodes@.len(),
                entry.nodes@.len() == reinserted.len(),
                init_threshold == config.plane.plane_init_threshold,
                max_points == config.plane.max_points,
                slot == req.root_slot,
                forall|i: int| 0 <= i < old_len && i != id ==> entry.nodes@[i] == reinserted[i],
                entry.nodes@[id as int] == reinserted[id as int],
                entry.nodes@[id as int].kind is Branch,
                entry.nodes@[id as int].kind matches NodeKind::Branch(ch) ==> ch@.len() == 8
                    && forall|s2: int|
                    0 <= s2 < 8 ==> (#[trigger] ch@[s2] == 0 || old_len <= ch@[s2]
                        < entry.nodes@.len()),
                forall|i: int|
                    old_len <= i < entry.nodes@.len() ==> {
                        let n = #[trigger] entry.nodes@[i];
                        &&& spec_is_leaf(n)
                        &&& n.depth == reinserted[i].depth
                        &&& n.center == reinserted[i].center
                        &&& n.quarter_side == reinserted[i].quarter_side
                        &&& n.center.in_range(3 * COORD_CAP - 2 * n.quarter_side)
                        &&& 0 <= n.quarter_side <= config.voxel_size
                        &&& n.depth == reinserted[id as int].depth + 1
                        &&& spec_plane_of(n) is None
                        &&& spec_cached_of(n).len() <= config.plane.max_points
                        &&& forall|k: int|
                            0 <= k < spec_cached_of(n).len() ==> (#[trigger] spec_cached_of(
                                n,
                            )[k]).wf()
                    },
                // the re-insertion left every fresh child unfrozen
                forall|i: int|
                    old_len <= i < entry.nodes@.len() ==> spec_is_unfrozen_leaf(
                        #[trigger] reinserted[i],
                    ) && spec_cached_of(reinserted[i]).len() >= 1,
                // every fresh child is registered in one of the slots
                forall|i: int|
                    #![trigger spec_is_child_of(reinserted[id as int], i)]
                    old_len <= i < entry.nodes@.len() ==> spec_is_child_of(
                        reinserted[id as int],
                        i,
                    ),
                // nodes not yet visited are as the re-insertion left them
                forall|i: int|
                    w <= i < entry.nodes@.len() ==> #[trigger] entry.nodes@[i] == reinserted[i],
                // visited children obey the freeze bound and kept their
                // points up to the freeze
                forall|i: int|
                    #![trigger entry.nodes@[i]]
                    old_len <= i < w ==> spec_leaf_state(
                        entry.nodes@[i],
                        spec_cache_after(spec_cached_of(reinserted[i]), config),
                        Option::<PlaneFx>::None,
                    ),
                // the requests so far name exactly the visited children
                // that gathered enough points
                forall|k: int|
                    0 <= k < more@.len() ==> {
                        let r = #[trigger] more@[k];
                        &&& r.root_slot == req.root_slot
                        &&& old_len <= r.node < w
                        &&& spec_cached_of(reinserted[r.node as int]).len() >= init_threshold
                        &&& upoints_like(r.points@, spec_cached_of(reinserted[r.node as int]))
                        &&& r.points@.len() <= config.plane.max_points
                        &&& forall|k2: int|
                            0 <= k2 < r.points@.len() ==> (#[trigger] r.points@[k2]).wf()
                    },
                forall|i: int|
                    #![trigger reinserted[i]]
                    old_len <= i < w && spec_cached_of(reinserted[i]).len() >= init_threshold
                        ==> exists|k: int|
                        0 <= k < more@.len() && (#[trigger] more@[k]).node == i && upoints_like(
                            more@[k].points@,
                            spec_cached_of(reinserted[i]),
                        ),
            decreases total - w,
        {
            let ghost more_pre = more@;
            let mut fit_points: Option<Vec<UPointFx>> = None;
            let mut replacement: Option<Node> = None;
            {
                let node = &entry.nodes[w];
                match &node.kind {
                    NodeKind::Leaf(leaf) => {
                        match &leaf.cached {
                            Some(v) => {
                                let len = v.len();
                                if len >= init_threshold {
                                    fit_points = Some(copy_upoints(v));
                                }
                                if len >= max_points {
                                    let frozen_leaf = Leaf { plane: None, cached: None };
                                    replacement = Some(
                                        Node {
                                            center: node.center,
                                            quarter_side: node.quarter_side,
                                            depth: node.depth,
                                            kind: NodeKind::Leaf(frozen_leaf),
                                        },
                                    );
                                }
                            },
                            None => {},
                        }
                    },
                    NodeKind::Branch(_) => {
                        proof {
                            assert(false);
                        }
                    },
                }
            }
            match replacement {
                Some(n) => {
                    entry.nodes.set(w, n);
                },
                None => {},
            }
            match fit_points {
                Some(points) => {
                    more.push(FitRequest { root_slot: slot, node: w, points });
                },
                None => {},
            }
            proof {
                assert forall|i: int|
                    #![trigger reinserted[i]]
                    old_len <= i < w + 1 && spec_cached_of(reinserted[i]).len()
                        >= init_threshold implies exists|k: int|
                        0 <= k < more@.len() && (#[trigger] more@[k]).node == i && upoints_like(
                            more@[k].points@,
                            spec_cached_of(reinserted[i]),
                        ) by {
                    if i < w {
                        let k0 = choose|k0: int|
                            0 <= k0 < more_pre.len() && (#[trigger] more_pre[k0]).node == i
                                && upoints_like(
                                more_pre[k0].points@,
                                spec_cached_of(reinserted[i]),
                            );
                        assert(more@[k0] == more_pre[k0]);
                    } else {
                        assert(more@[more@.len() - 1].node == i);
                    }
                }
            }
            w = w + 1;
        }
        proof {
            assert(tree_wf(entry.nodes@, config)) by {
                assert(entry.nodes@.len() >= 1);
                assert(branched[id as int].center == pre[id as int].center);
                assert(branched[id as int].quarter_side == pre[id as int].quarter_side);
                assert(branched[id as int].depth == pre[id as int].depth);
                assert(entry.nodes@[id as int] == reinserted[id as int]);
                assert(reinserted[id as int].depth == branched[id as int].depth);
                assert(node_wf(pre[id as int], config));
                assert(entry.nodes@[0].depth == 0) by {
                    if id != 0 {
                        assert(entry.nodes@[0] == reinserted[0]);
                        assert(reinserted[0] == branched[0]);
                        assert(branched[0] == pre[0]);
                    }
                }
                assert forall|i: int|
                    0 <= i < entry.nodes@.len() implies node_wf(
                    #[trigger] entry.nodes@[i],
                    config,
                ) by {
                    if i == id {
                        assert(entry.nodes@[id as int].center == pre[id as int].center);
                        assert(entry.nodes@[id as int].quarter_side == pre[
                            id as int].quarter_side);
                        assert(entry.nodes@[id as int].depth == pre[id as int].depth);
                        assert(entry.nodes@[id as int].depth < config.plane.max_layer);
                    } else if i < old_len && i != id {
                        assert(entry.nodes@[i] == reinserted[i]);
                        assert(reinserted[i] == branched[i]);
                        assert(branched[i] == pre[i]);
                    } else if i >= old_len {
                        assert(spec_is_unfrozen_leaf(entry.nodes@[i]) ==> spec_cached_of(
                            entry.nodes@[i],
                        ).len() < config.plane.max_points);
                    }
                }
                assert forall|i: int, s2: int|
                    0 <= i < entry.nodes@.len() && 0 <= s2 < 8 && #[trigger] spec_child_of(
                        entry.nodes@[i],
                        s2,
                    ) != 0 implies spec_child_of(entry.nodes@[i], s2) < entry.nodes@.len()
                    && entry.nodes@[spec_child_of(entry.nodes@[i], s2)].depth == entry.nodes@[i].depth
                    + 1 by {
                    if i < old_len && i != id {
                        assert(entry.nodes@[i] == reinserted[i]);
                        assert(reinserted[i] == branched[i]);
                        assert(branched[i] == pre[i]);
                        assert(spec_child_of(pre[i], s2) != 0 ==> spec_child_of(pre[i], s2)
                            < pre.len() && pre[spec_child_of(pre[i], s2)].depth == pre[i].depth
                            + 1);
                        if spec_child_of(pre[i], s2) != 0 && spec_child_of(pre[i], s2) != id {
                            let t = spec_child_of(pre[i], s2);
                            assert(entry.nodes@[t] == reinserted[t]);
                            assert(reinserted[t] == branched[t]);
                            assert(branched[t] == pre[t]);
                        }
                    }
                }
            }
            assert forall|j2: int|
                0 <= j2 < pre.len() && !spec_is_unfrozen_leaf(pre[j2])
                    implies !spec_is_unfrozen_leaf(#[trigger] entry.nodes@[j2]) by {
                if j2 != id {
                    assert(entry.nodes@[j2] == reinserted[j2]);
                    assert(reinserted[j2] == branched[j2]);
                    assert(branched[j2] == pre[j2]);
                } else {
                    assert(entry.nodes@[id as int].kind is Branch);
                }
            }
            assert(old_self.roots@[slot as int].wf(config));
            assert(entry.key == old_self.roots@[slot as int].key);
            assert(entry.index == old_self.roots@[slot as int].index);
            assert(entry.routed@ == old_self.roots@[slot as int].routed@);
            assert(self.roots@[slot as int] == *entry);
            assert(self.roots@[slot as int].wf(config));
            assert forall|i: int|
                0 <= i < self.roots@.len() implies (#[trigger] self.roots@[i]).wf(config) by {
                if i != slot {
                    assert(self.roots@[i] == old_self.roots@[i]);
                }
            }
            assert(self.roots@.len() == old_self.roots@.len());
            assert forall|i: int|
                0 <= i < old_self.roots@.len() implies self.spec_root_index(i)
                == old_self.spec_root_index(i) && self.spec_root_routed(i)
                == old_self.spec_root_routed(i) by {
                if i != slot {
                    assert(self.roots@[i] == old_self.roots@[i]);
                }
            }
            // the subdivision promise over the consumed points
            assert(spec_subdivided(pre, entry.nodes@, id as int, pts0, more@, config)) by {
                assert(entry.nodes@[id as int] == reinserted[id as int]);
                assert(branched[id as int].center == pre[id as int].center);
                assert(branched[id as int].quarter_side == pre[id as int].quarter_side);
                assert(branched[id as int].depth == pre[id as int].depth);
                assert(center == pre[id as int].center);
                assert(quarter == pre[id as int].quarter_side);
                assert(entry.nodes@[id as int].center == pre[id as int].center);
                assert(entry.nodes@[id as int].quarter_side == pre[id as int].quarter_side);
                assert(entry.nodes@[id as int].depth == pre[id as int].depth);
                assert(entry.nodes@[id as int].kind is Branch);
                assert forall|i: int|
                    0 <= i < pre.len() && i != id implies entry.nodes@[i] == pre[i] by {
                    assert(entry.nodes@[i] == reinserted[i]);
                    assert(reinserted[i] == branched[i]);
                    assert(branched[i] == pre[i]);
                }
                assert forall|i: int|
                    #![trigger spec_is_child_of(entry.nodes@[id as int], i)]
                    pre.len() <= i < entry.nodes@.len() implies spec_is_child_of(
                    entry.nodes@[id as int],
                    i,
                ) by {
                    assert(spec_is_child_of(reinserted[id as int], i));
                    assert(entry.nodes@[id as int] == reinserted[id as int]);
                }
                assert forall|s: int|
                    #![trigger spec_slot_points(pts0, pre[id as int].center, s)]
                    0 <= s < 8 implies ({
                    let ps = spec_slot_points(pts0, pre[id as int].center, s);
                    let c = spec_child_of(entry.nodes@[id as int], s);
                    &&& (c == 0 <==> ps.len() == 0)
                    &&& (c != 0 ==> {
                        &&& pre.len() <= c < entry.nodes@.len()
                        &&& entry.nodes@[c].depth == pre[id as int].depth + 1
                        &&& entry.nodes@[c].center == spec_child_center(
                            pre[id as int].center,
                            pre[id as int].quarter_side,
                            s,
                        )
                        &&& entry.nodes@[c].quarter_side == pre[id as int].quarter_side as int
                            / 2
                        &&& spec_leaf_state(
                            entry.nodes@[c],
                            spec_cache_after(ps, config),
                            Option::<PlaneFx>::None,
                        )
                    })
                }) by {
                    let ps = spec_slot_points(pts0, center, s);
                    let c = spec_child_of(reinserted[id as int], s);
                    if c != 0 {
                        assert(spec_cached_of(reinserted[c]) == ps);
                    }
                }
                assert forall|s: int|
                    #![trigger spec_slot_points(pts0, pre[id as int].center, s)]
                    0 <= s < 8 && spec_slot_points(pts0, pre[id as int].center, s).len()
                        >= config.plane.plane_init_threshold implies exists|k: int|
                        0 <= k < more@.len() && (#[trigger] more@[k]).node == spec_child_of(
                            entry.nodes@[id as int],
                            s,
                        ) && upoints_like(
                            more@[k].points@,
                            spec_slot_points(pts0, pre[id as int].center, s),
                        ) by {
                    let ps = spec_slot_points(pts0, center, s);
                    let c = spec_child_of(reinserted[id as int], s);
                    assert(c != 0);
                    assert(spec_cached_of(reinserted[c]) == ps);
                }
                assert forall|k: int|
                    0 <= k < more@.len() implies spec_request_matches(
                    entry.nodes@[id as int],
                    pts0,
                    pre[id as int].center,
                    #[trigger] more@[k],
                    config,
                ) by {
                    let i = more@[k].node as int;
                    assert(old_len <= i < total);
                    assert(spec_is_child_of(reinserted[id as int], i));
                    let s = choose|s: int|
                        0 <= s < 8 && spec_child_of(reinserted[id as int], s) == i;
                    assert(spec_cached_of(reinserted[i]) == spec_slot_points(pts0, center, s));
                    assert(spec_child_of(entry.nodes@[id as int], s) == i);
                    assert(spec_slot_points(pts0, pre[id as int].center, s).len()
                        >= config.plane.plane_init_threshold);
                    assert(upoints_like(
                        more@[k].points@,
                        spec_slot_points(pts0, pre[id as int].center, s),
                    ));
                }
            }
        }
        more
    }
}


/// A tree stays well-formed when one leaf's body is replaced by another
/// well-formed leaf body (same geometry, same depth).
proof fn lemma_tree_wf_update_leaf(
    pre: Seq<Node>,
    post: Seq<Node>,
    config: VoxelMapConfig,
    id: int,
)
    requires
        tree_wf(pre, config),
        post.len() == pre.len(),
        0 <= id < pre.len(),
        forall|i: int| 0 <= i < pre.len() && i != id ==> post[i] == pre[i],
        post[id].center == pre[id].center,
        post[id].quarter_side == pre[id].quarter_side,
        post[id].depth == pre[id].depth,
        spec_is_leaf(pre[id]),
        spec_is_leaf(post[id]),
        node_wf(post[id], config),
    ensures
        tree_wf(post, config),
{
    assert forall|i: int| 0 <= i < post.len() implies node_wf(#[trigger] post[i], config) by {
        if i != id {
            assert(post[i] == pre[i]);
        }
    }
    assert forall|i: int, s: int|
        0 <= i < post.len() && 0 <= s < 8 && #[trigger] spec_child_of(post[i], s)
            != 0 implies spec_child_of(post[i], s) < post.len() && post[spec_child_of(
        post[i],
        s,
    )].depth == post[i].depth + 1 by {
        if i != id {
            assert(post[i] == pre[i]);
        }
        if spec_child_of(post[i], s) != id {
            assert(post[spec_child_of(post[i], s)] == pre[spec_child_of(post[i], s)]);
        }
    }
}


/// The signed distance of a point to a plane, in normal-scale lattice
/// units: the dot product of the scaled normal with the offset from the
/// centroid.
pub open spec fn spec_plane_distance(pl: PlaneFx, q: Vec3Fx) -> int {
    pl.normal.x * (q.x - pl.center.x) + pl.normal.y * (q.y - pl.center.y) + pl.normal.z * (q.z
        - pl.center.z)
}

/// The squared distance of a point to a plane's centroid.
pub open spec fn spec_center_dist_sq(pl: PlaneFx, q: Vec3Fx) -> int {
    (q.x - pl.center.x) * (q.x - pl.center.x) + (q.y - pl.center.y) * (q.y - pl.center.y) + (q.z
        - pl.center.z) * (q.z - pl.center.z)
}

/// The radius gate: the squared in-plane range from the centroid must not
/// exceed the square of three bounding radii. All terms are scaled by the
/// squared normal scale so the comparison is exact.
pub open spec fn spec_range_gate(pl: PlaneFx, q: Vec3Fx) -> bool {
    NSCALE * NSCALE * spec_center_dist_sq(pl, q) - spec_plane_distance(pl, q)
        * spec_plane_distance(pl, q) <= 9 * (NSCALE * NSCALE) * pl.radius_sq
}

/// The error vector of a residual: the offset from the centroid stacked
/// above the negated normal.
pub open spec fn spec_err_vec(pl: PlaneFx, q: Vec3Fx) -> Seq<i64> {
    seq![
        (q.x - pl.center.x) as i64,
        (q.y - pl.center.y) as i64,
        (q.z - pl.center.z) as i64,
        (-pl.normal.x) as i64,
        (-pl.normal.y) as i64,
        (-pl.normal.z) as i64,
    ]
}

/// The residual variance: the plane covariance taken through the error
/// vector, plus the point covariance taken through the normal.
pub open spec fn spec_sigma(pl: PlaneFx, q: UPointFx) -> int {
    spec_quad_form(pl.cov@, spec_err_vec(pl, q.p), 6) + spec_quad_form(
        q.cov@,
        seq![pl.normal.x, pl.normal.y, pl.normal.z],
        3,
    )
}

/// The sigma gate: the squared distance must stay below the configured
/// ratio times the residual variance.
pub open spec fn spec_sigma_gate(pl: PlaneFx, q: UPointFx, sigma_ratio_sq: int) -> bool {
    spec_plane_distance(pl, q.p) * spec_plane_distance(pl, q.p) < sigma_ratio_sq * spec_sigma(
        pl,
        q,
    )
}

/// A plane yields a residual for a query point exactly when both gates
/// pass.
pub open spec fn spec_passes(pl: PlaneFx, q: UPointFx, sigma_ratio_sq: int) -> bool {
    spec_range_gate(pl, q.p) && spec_sigma_gate(pl, q, sigma_ratio_sq)
}

/// One gated residual: the plane it came from and the exact distance,
/// squared distance and variance of the point against it.
pub struct ResidualCandidate {
    pub plane: PlaneFx,
    pub distance: i128,
    pub distance_sq: i128,
    pub sigma: i128,
}

impl ResidualCandidate {
    /// The candidate's numbers are those of its plane against the query,
    /// and the gates passed.
    pub open spec fn wf(self, q: UPointFx, sigma_ratio_sq: int) -> bool {
        &&& plane_wf(self.plane)
        &&& self.distance == spec_plane_distance(self.plane, q.p)
        &&& self.distance_sq == self.distance * self.distance
        &&& self.sigma == spec_sigma(self.plane, q)
        &&& spec_passes(self.plane, q, sigma_ratio_sq)
    }
}

/// Evaluate one plane against a query point: the exact distance, range
/// gate, variance and sigma gate, yielding a candidate exactly when both
/// gates pass.
fn eval_plane(pl: &PlaneFx, q: &UPointFx, sigma_ratio_sq: i64) -> (r: Option<ResidualCandidate>)
    requires
        plane_wf(*pl),
        q.wf(),
        0 <= sigma_ratio_sq <= 256,
    ensures
        r is Some <==> spec_passes(*pl, *q, sigma_ratio_sq as int),
        r is Some ==> r->Some_0.wf(*q, sigma_ratio_sq as int) && plane_like(
            r->Some_0.plane,
            *pl,
        ),
{
    let diff = q.p.sub(pl.center);
    let d: i128 = pl.normal.dot(diff);
    let dist_sq: i128 = diff.norm_sq();
    proof {
        assert(NSCALE as int * NSCALE as int == 1152921504606846976) by (nonlinear_arith);
        assert(d == spec_plane_distance(*pl, q.p));
        assert(dist_sq == spec_center_dist_sq(*pl, q.p));
        // magnitude bounds for the comparisons below
        lemma_abs_mul_le2(
            pl.normal.x as int,
            diff.x as int,
            NORMAL_CAP as int,
            2 * COORD_CAP as int,
        );
        lemma_abs_mul_le2(
            pl.normal.y as int,
            diff.y as int,
            NORMAL_CAP as int,
            2 * COORD_CAP as int,
        );
        lemma_abs_mul_le2(
            pl.normal.z as int,
            diff.z as int,
            NORMAL_CAP as int,
            2 * COORD_CAP as int,
        );
        lemma_abs_mul_le2(d as int, d as int, 1729382256910270464, 1729382256910270464);
        lemma_abs_mul_le2(diff.x as int, diff.x as int, 2 * COORD_CAP as int, 2 * COORD_CAP as int);
        lemma_abs_mul_le2(diff.y as int, diff.y as int, 2 * COORD_CAP as int, 2 * COORD_CAP as int);
        lemma_abs_mul_le2(diff.z as int, diff.z as int, 2 * COORD_CAP as int, 2 * COORD_CAP as int);
        lemma_abs_mul_le2(
            1152921504606846976,
            dist_sq as int,
            1152921504606846976,
            216172782113783808,
        );
        lemma_abs_mul_le2(
            1152921504606846976,
            pl.radius_sq as int,
            1152921504606846976,
            RADIUS_SQ_CAP as int,
        );
    }
    let dd: i128 = d * d;
    let nsq: i128 = (NSCALE as i128) * (NSCALE as i128);
    let lhs: i128 = nsq * dist_sq - dd;
    let rhs: i128 = 9 * (nsq * (pl.radius_sq as i128));
    if lhs > rhs {
        return None;
    }
    let mut e: Vec<i64> = Vec::new();
    e.push(diff.x);
    e.push(diff.y);
    e.push(diff.z);
    e.push(-pl.normal.x);
    e.push(-pl.normal.y);
    e.push(-pl.normal.z);
    proof {
        assert(e@ =~= spec_err_vec(*pl, q.p));
    }
    let mut n3: Vec<i64> = Vec::new();
    n3.push(pl.normal.x);
    n3.push(pl.normal.y);
    n3.push(pl.normal.z);
    proof {
        assert(n3@ =~= seq![pl.normal.x, pl.normal.y, pl.normal.z]);
    }
    let sp: i128 = quad_form(&pl.cov, &e, 6);
    let sq: i128 = quad_form(&q.cov, &n3, 3);
    let sigma: i128 = sp + sq;
    proof {
        lemma_abs_mul_le2(
            sigma_ratio_sq as int,
            sigma as int,
            256,
            72 * QF_TERM_CAP as int,
        );
    }
    let gate: i128 = (sigma_ratio_sq as i128) * sigma;
    if dd >= gate {
        return None;
    }
    let plane = copy_plane(pl);
    Some(ResidualCandidate { plane, distance: d, distance_sq: dd, sigma })
}

/// The planes stored in a prefix of a node arena, in arena order.
pub open spec fn spec_planes_upto(nodes: Seq<Node>, k: int) -> Seq<PlaneFx>
    decreases k,
{
    if k <= 0 {
        Seq::empty()
    } else {
        match spec_plane_of(nodes[k - 1]) {
            Some(pl) => spec_planes_upto(nodes, k - 1).push(pl),
            None => spec_planes_upto(nodes, k - 1),
        }
    }
}

/// All planes stored in a node arena.
pub open spec fn spec_root_planes(nodes: Seq<Node>) -> Seq<PlaneFx> {
    spec_planes_upto(nodes, nodes.len() as int)
}

/// Whether a plane (by value) is one of the planes stored in a node
/// arena.
pub open spec fn spec_plane_stored(nodes: Seq<Node>, pl: PlaneFx) -> bool {
    exists|i: int|
        0 <= i < spec_root_planes(nodes).len() && plane_like(
            pl,
            #[trigger] spec_root_planes(nodes)[i],
        )
}

/// Whether some root of the map stores the plane (by value).
pub open spec fn spec_map_stores_plane(m: VoxelMap, pl: PlaneFx) -> bool {
    exists|r: int|
        0 <= r < m.spec_root_count() && spec_plane_stored(#[trigger] m.spec_root_nodes(r), pl)
}

/// Whether some candidate of a query result carries the plane.
pub open spec fn spec_has_candidate_for(out: Seq<ResidualCandidate>, pl: PlaneFx) -> bool {
    exists|k: int| 0 <= k < out.len() && plane_like((#[trigger] out[k]).plane, pl)
}

/// The planes of an arena prefix are a prefix of the arena's planes.
proof fn lemma_planes_upto_prefix(nodes: Seq<Node>, k: int)
    requires
        0 <= k <= nodes.len(),
    ensures
        spec_planes_upto(nodes, k).len() <= spec_root_planes(nodes).len(),
        forall|j: int|
            0 <= j < spec_planes_upto(nodes, k).len() ==> #[trigger] spec_planes_upto(nodes, k)[j]
                == spec_root_planes(nodes)[j],
    decreases nodes.len() - k,
{
    if k == nodes.len() {
    } else {
        lemma_planes_upto_prefix(nodes, k + 1);
        assert forall|j: int|
            0 <= j < spec_planes_upto(nodes, k).len() implies #[trigger] spec_planes_upto(
            nodes,
            k,
        )[j] == spec_root_planes(nodes)[j] by {
            if spec_plane_of(nodes[k]) is Some {
                assert(spec_planes_upto(nodes, k + 1) == spec_planes_upto(nodes, k).push(
                    spec_plane_of(nodes[k])->Some_0,
                ));
                assert(spec_planes_upto(nodes, k + 1)[j] == spec_planes_upto(nodes, k)[j]);
            } else {
                assert(spec_planes_upto(nodes, k + 1) == spec_planes_upto(nodes, k));
            }
            assert(spec_planes_upto(nodes, k + 1)[j] == spec_root_planes(nodes)[j]);
        }
    }
}

/// The planes of the first `k` roots of a map, flattened in root order.
pub open spec fn spec_map_planes(m: VoxelMap, k: int) -> Seq<PlaneFx>
    decreases k,
{
    if k <= 0 {
        Seq::empty()
    } else {
        spec_map_planes(m, k - 1) + spec_root_planes(m.spec_root_nodes(k - 1))
    }
}

/// Collect the gated residuals of every plane of one root against a query
/// point: a candidate for exactly the planes that pass both gates.
fn candidates_in_nodes(nodes: &Vec<Node>, q: &UPointFx, sigma_ratio_sq: i64, config: &VoxelMapConfig)
    -> (out: Vec<ResidualCandidate>)
    requires
        tree_wf(nodes@, *config),
        config.wf(),
        q.wf(),
        sigma_ratio_sq == config.sigma_ratio_sq,
    ensures
        forall|k: int|
            0 <= k < out@.len() ==> (#[trigger] out@[k]).wf(*q, sigma_ratio_sq as int),
        forall|k: int|
            0 <= k < out@.len() ==> spec_plane_stored(nodes@, (#[trigger] out@[k]).plane),
        forall|i: int|
            0 <= i < spec_root_planes(nodes@).len() && spec_passes(
                #[trigger] spec_root_planes(nodes@)[i],
                *q,
                sigma_ratio_sq as int,
            ) ==> spec_has_candidate_for(out@, spec_root_planes(nodes@)[i]),
    {
    let n = nodes.len();
    let mut out: Vec<ResidualCandidate> = Vec::new();
    let mut i: usize = 0;
    while i < n
        invariant
            tree_wf(nodes@, *config),
            config.wf(),
            q.wf(),
            0 <= sigma_ratio_sq <= 256,
            i <= n,
            n == nodes@.len(),
            forall|k: int|
                0 <= k < out@.len() ==> (#[trigger] out@[k]).wf(*q, sigma_ratio_sq as int),
            forall|k: int|
                0 <= k < out@.len() ==> spec_plane_stored(nodes@, (#[trigger] out@[k]).plane),
            forall|j: int|
                0 <= j < spec_planes_upto(nodes@, i as int).len() && spec_passes(
                    #[trigger] spec_planes_upto(nodes@, i as int)[j],
                    *q,
                    sigma_ratio_sq as int,
                ) ==> spec_has_candidate_for(out@, spec_planes_upto(nodes@, i as int)[j]),
        decreases n - i,
    {
        let ghost prefix = spec_planes_upto(nodes@, i as int);
        let ghost out_pre = out@;
        let node = &nodes[i];
        match &node.kind {
            NodeKind::Leaf(leaf) => {
                match &leaf.plane {
                    Some(pl) => {
                        proof {
                            assert(node_wf(nodes@[i as int], *config));
                            assert(spec_plane_of(nodes@[i as int]) == Some(*pl));
                            assert(spec_planes_upto(nodes@, i as int + 1) == prefix.push(*pl));
                        }
                        match eval_plane(pl, q, sigma_ratio_sq) {
                            Some(c) => {
                                out.push(c);
                                proof {
                                    let next = spec_planes_upto(nodes@, i as int + 1);
                                    assert(out@ == out_pre.push(c));
                                    assert(plane_like(out@[out@.len() - 1].plane, *pl));
                                    lemma_planes_upto_prefix(nodes@, i as int + 1);
                                    assert(next[prefix.len() as int] == *pl);
                                    assert(spec_root_planes(nodes@)[prefix.len() as int] == *pl);
                                    assert forall|k: int|
                                        0 <= k < out@.len() implies spec_plane_stored(
                                        nodes@,
                                        (#[trigger] out@[k]).plane,
                                    ) by {
                                        if k < out_pre.len() {
                                            assert(out@[k] == out_pre[k]);
                                        } else {
                                            assert(plane_like(
                                                out@[k].plane,
                                                spec_root_planes(nodes@)[prefix.len() as int],
                                            ));
                                        }
                                    }
                                    assert forall|j: int|
                                        0 <= j < next.len() && spec_passes(
                                            next[j],
                                            *q,
                                            sigma_ratio_sq as int,
                                        ) implies spec_has_candidate_for(out@, next[j]) by {
                                        if j < prefix.len() {
                                            assert(next[j] == prefix[j]);
                                            assert(spec_has_candidate_for(out_pre, prefix[j]));
                                            let k0 = choose|k0: int|
                                                0 <= k0 < out_pre.len() && plane_like(
                                                    (#[trigger] out_pre[k0]).plane,
                                                    prefix[j],
                                                );
                                            assert(out@[k0] == out_pre[k0]);
                                            assert(plane_like(out@[k0].plane, next[j]));
                                        } else {
                                            assert(next[j] == *pl);
                                            assert(plane_like(
                                                out@[out@.len() - 1].plane,
                                                next[j],
                                            ));
                                        }
                                    }
                                }
                            },
                            None => {
                                proof {
                                    let next = spec_planes_upto(nodes@, i as int + 1);
                                    assert forall|j: int|
                                        0 <= j < next.len() && spec_passes(
                                            next[j],
                                            *q,
                                            sigma_ratio_sq as int,
                                        ) implies spec_has_candidate_for(out@, next[j]) by {
                                        if j < prefix.len() {
                                            assert(next[j] == prefix[j]);
                                        } else {
                                            assert(next[j] == *pl);
                                            assert(!spec_passes(
                                                next[j],
                                                *q,
                                                sigma_ratio_sq as int,
                                            ));
                                        }
                                    }
                                }
                            },
                        }
                    },
                    None => {
                        proof {
                            assert(spec_plane_of(nodes@[i as int]) is None);
                            assert(spec_planes_upto(nodes@, i as int + 1) == prefix);
                        }
                    },
                }
            },
            NodeKind::Branch(_) => {
                proof {
                    assert(spec_plane_of(nodes@[i as int]) is None);
                    assert(spec_planes_upto(nodes@, i as int + 1) == prefix);
                }
            },
        }
        i = i + 1;
    }
    out
}

impl VoxelMap {
    /// All planes currently stored in the map: the concatenation of each
    /// root's stored planes, in root and arena order, every one of them
    /// well-formed.
    pub fn planes(&self) -> (out: Vec<PlaneFx>)
        requires
            self.wf(),
        ensures
            forall|k: int| 0 <= k < out@.len() ==> plane_wf(#[trigger] out@[k]),
            out@.len() == spec_map_planes(*self, self.spec_root_count()).len(),
            forall|k: int|
                0 <= k < out@.len() ==> plane_like(
                    #[trigger] out@[k],
                    spec_map_planes(*self, self.spec_root_count())[k],
                ),
    {
        let mut out: Vec<PlaneFx> = Vec::new();
        let nroots = self.roots.len();
        let mut i: usize = 0;
        while i < nroots
            invariant
                self.wf(),
                i <= nroots,
                nroots == self.roots@.len(),
                out@.len() == spec_map_planes(*self, i as int).len(),
                forall|k: int| 0 <= k < out@.len() ==> plane_wf(#[trigger] out@[k]),
                forall|k: int|
                    0 <= k < out@.len() ==> plane_like(
                        #[trigger] out@[k],
                        spec_map_planes(*self, i as int)[k],
                    ),
            decreases nroots - i,
        {
            let entry = &self.roots[i];
            let n = entry.nodes.len();
            let ghost flat = spec_map_planes(*self, i as int);
            let mut j: usize = 0;
            while j < n
                invariant
                    self.wf(),
                    i < nroots,
                    nroots == self.roots@.len(),
                    j <= n,
                    n == self.roots@[i as int].nodes@.len(),
                    entry == &self.roots@[i as int],
                    flat == spec_map_planes(*self, i as int),
                    out@.len() == flat.len() + spec_planes_upto(entry.nodes@, j as int).len(),
                    forall|k: int| 0 <= k < out@.len() ==> plane_wf(#[trigger] out@[k]),
                    forall|k: int|
                        0 <= k < out@.len() ==> plane_like(
                            #[trigger] out@[k],
                            (flat + spec_planes_upto(entry.nodes@, j as int))[k],
                        ),
                decreases n - j,
            {
                let ghost prefix = spec_planes_upto(entry.nodes@, j as int);
                let ghost out_pre = out@;
                let node = &entry.nodes[j];
                match &node.kind {
                    NodeKind::Leaf(leaf) => {
                        match &leaf.plane {
                            Some(pl) => {
                                proof {
                                    assert(node_wf(entry.nodes@[j as int], self.config));
                                    assert(spec_plane_of(entry.nodes@[j as int]) == Some(*pl));
                                    assert(spec_planes_upto(entry.nodes@, j as int + 1)
                                        == prefix.push(*pl));
                                }
                                let p = copy_plane(pl);
                                out.push(p);
                                proof {
                                    assert(flat + prefix.push(*pl) =~= (flat + prefix).push(
                                        *pl,
                                    ));
                                    assert forall|k: int|
                                        0 <= k < out@.len() implies plane_like(
                                        #[trigger] out@[k],
                                        (flat + spec_planes_upto(entry.nodes@, j as int + 1))[k],
                                    ) by {
                                        if k < out_pre.len() {
                                            assert(out@[k] == out_pre[k]);
                                            assert((flat + prefix.push(*pl))[k] == (flat
                                                + prefix)[k]);
                                        } else {
                                            assert(out@[k] == out@[out@.len() - 1]);
                                        }
                                    }
                                }
                            },
                            None => {
                                proof {
                                    assert(spec_plane_of(entry.nodes@[j as int]) is None);
                                    assert(spec_planes_upto(entry.nodes@, j as int + 1)
                                        == prefix);
                                }
                            },
                        }
                    },
                    NodeKind::Branch(_) => {
                        proof {
                            assert(spec_plane_of(entry.nodes@[j as int]) is None);
                            assert(spec_planes_upto(entry.nodes@, j as int + 1) == prefix);
                        }
                    },
                }
                j = j + 1;
            }
            i = i + 1;
            proof {
                assert(spec_root_planes(self.spec_root_nodes(i as int - 1)) == spec_planes_upto(
                    entry.nodes@,
                    n as int,
                ));
                assert(spec_map_planes(*self, i as int) == flat + spec_planes_upto(
                    entry.nodes@,
                    n as int,
                ));
            }
        }
        proof {
            assert(spec_map_planes(*self, nroots as int) == spec_map_planes(
                *self,
                self.spec_root_count(),
            ));
        }
        out
    }

    /// The planes of the root covering one voxel index, or `None` when
    /// that voxel has no root yet: exactly the root's stored planes, in
    /// arena order, each well-formed.
    pub fn planes_at(&self, idx: Vec3Fx) -> (out: Option<Vec<PlaneFx>>)
        requires
            self.wf(),
            spec_packable(idx),
        ensures
            out is Some <==> self.spec_has_root(idx),
            out is Some ==> {
                let planes = spec_root_planes(self.spec_root_nodes(self.spec_slot_of(idx)));
                &&& out->Some_0@.len() == planes.len()
                &&& forall|k: int|
                    0 <= k < planes.len() ==> plane_like(#[trigger] out->Some_0@[k], planes[k])
                &&& forall|k: int|
                    0 <= k < out->Some_0@.len() ==> plane_wf(#[trigger] out->Some_0@[k])
            },
    {
        let key = pack_index(idx);
        match self.keys.get(&key) {
            Some(sref) => {
                let slot = *sref;
                let entry = &self.roots[slot];
                let n = entry.nodes.len();
                let mut out: Vec<PlaneFx> = Vec::new();
                let mut j: usize = 0;
                while j < n
                    invariant
                        self.wf(),
                        slot < self.roots@.len(),
                        j <= n,
                        n == self.roots@[slot as int].nodes@.len(),
                        entry == &self.roots@[slot as int],
                        out@.len() == spec_planes_upto(entry.nodes@, j as int).len(),
                        forall|k: int|
                            0 <= k < out@.len() ==> plane_like(
                                #[trigger] out@[k],
                                spec_planes_upto(entry.nodes@, j as int)[k],
                            ),
                        forall|k: int| 0 <= k < out@.len() ==> plane_wf(#[trigger] out@[k]),
                    decreases n - j,
                {
                    let ghost prefix = spec_planes_upto(entry.nodes@, j as int);
                    let node = &entry.nodes[j];
                    match &node.kind {
                        NodeKind::Leaf(leaf) => {
                            match &leaf.plane {
                                Some(pl) => {
                                    proof {
                                        assert(node_wf(entry.nodes@[j as int], self.config));
                                        assert(spec_plane_of(entry.nodes@[j as int]) == Some(
                                            *pl,
                                        ));
                                        assert(spec_planes_upto(entry.nodes@, j as int + 1)
                                            == prefix.push(*pl));
                                    }
                                    let p = copy_plane(pl);
                                    out.push(p);
                                },
                                None => {
                                    proof {
                                        assert(spec_plane_of(entry.nodes@[j as int]) is None);
                                        assert(spec_planes_upto(entry.nodes@, j as int + 1)
                                            == prefix);
                                    }
                                },
                            }
                        },
                        NodeKind::Branch(_) => {
                            proof {
                                assert(spec_plane_of(entry.nodes@[j as int]) is None);
                                assert(spec_planes_upto(entry.nodes@, j as int + 1) == prefix);
                            }
                        },
                    }
                    j = j + 1;
                }
                Some(out)
            },
            None => None,
        }
    }

    /// The neighbor voxel of a query against one root: along each axis,
    /// step the index up when the point lies beyond the root's inner
    /// three-quarter wall, down when it lies before it.
    fn nearest_index(&self, slot: usize, q: Vec3Fx, idx: Vec3Fx) -> (r: Vec3Fx)
        requires
            self.wf(),
            slot < self.spec_root_count(),
            q.in_range(COORD_CAP as int),
            idx.in_range(COORD_CAP as int),
        ensures
            ({
                let node = self.spec_root_nodes(slot as int)[0];
                &&& r.x == if q.x > node.center.x + node.quarter_side {
                    idx.x + 1
                } else if q.x < node.center.x - node.quarter_side {
                    idx.x - 1
                } else {
                    idx.x as int
                }
                &&& r.y == if q.y > node.center.y + node.quarter_side {
                    idx.y + 1
                } else if q.y < node.center.y - node.quarter_side {
                    idx.y - 1
                } else {
                    idx.y as int
                }
                &&& r.z == if q.z > node.center.z + node.quarter_side {
                    idx.z + 1
                } else if q.z < node.center.z - node.quarter_side {
                    idx.z - 1
                } else {
                    idx.z as int
                }
            }),
    {
        let entry = &self.roots[slot];
        proof {
            assert(self.roots@[slot as int].wf(self.config));
            assert(node_wf(entry.nodes@[0], self.config));
        }
        let node = &entry.nodes[0];
        let c = node.center;
        let qs = node.quarter_side;
        let rx: i64 = if q.x > c.x + qs {
            idx.x + 1
        } else if q.x < c.x - qs {
            idx.x - 1
        } else {
            idx.x
        };
        let ry: i64 = if q.y > c.y + qs {
            idx.y + 1
        } else if q.y < c.y - qs {
            idx.y - 1
        } else {
            idx.y
        };
        let rz: i64 = if q.z > c.z + qs {
            idx.z + 1
        } else if q.z < c.z - qs {
            idx.z - 1
        } else {
            idx.z
        };
        Vec3Fx { x: rx, y: ry, z: rz }
    }

    /// Gated residuals for a query point: the planes of the root covering
    /// the point's voxel, and — when that root exists but yields no
    /// candidate — the planes of the single nearest neighbor voxel. A
    /// point whose voxel has no root yields no candidates at all; the
    /// caller then skips the observation and only inserts the point.
    ///
    /// Every returned candidate carries exact numbers for its plane and
    /// passed both gates; choosing among several candidates (the
    /// likelihood maximum) is left to the caller.
    pub fn get_or_nearest_candidates(&self, q: &UPointFx) -> (out: Vec<ResidualCandidate>)
        requires
            self.wf(),
            q.wf(),
            spec_packable(spec_voxel_index(q.p, self.spec_config().voxel_size)),
        ensures
            forall|k: int|
                0 <= k < out@.len() ==> (#[trigger] out@[k]).wf(
                    *q,
                    self.spec_config().sigma_ratio_sq as int,
                ),
            !self.spec_has_root(spec_voxel_index(q.p, self.spec_config().voxel_size))
                ==> out@.len() == 0,
            // every candidate carries one of the map's stored planes
            forall|k: int|
                0 <= k < out@.len() ==> spec_map_stores_plane(*self, (#[trigger] out@[k]).plane),
            // a passing plane of the covering root is never missed: some
            // returned candidate carries it
            ({
                let idx = spec_voxel_index(q.p, self.spec_config().voxel_size);
                self.spec_has_root(idx) ==> forall|i: int|
                    0 <= i < spec_root_planes(self.spec_root_nodes(self.spec_slot_of(idx))).len()
                        && spec_passes(
                        #[trigger] spec_root_planes(
                            self.spec_root_nodes(self.spec_slot_of(idx)),
                        )[i],
                        *q,
                        self.spec_config().sigma_ratio_sq as int,
                    ) ==> spec_has_candidate_for(
                        out@,
                        spec_root_planes(self.spec_root_nodes(self.spec_slot_of(idx)))[i],
                    )
            }),
            // an empty result is a genuine miss: the nearest voxel tried
            // by the fallback had no passing plane either
            ({
                let idx = spec_voxel_index(q.p, self.spec_config().voxel_size);
                let nidx = spec_nearest_index(*self, self.spec_slot_of(idx), q.p, idx);
                self.spec_has_root(idx) && out@.len() == 0 && spec_packable(nidx)
                    && self.spec_has_root(nidx) ==> forall|i: int|
                    0 <= i < spec_root_planes(self.spec_root_nodes(self.spec_slot_of(nidx))).len()
                        ==> !spec_passes(
                        #[trigger] spec_root_planes(
                            self.spec_root_nodes(self.spec_slot_of(nidx)),
                        )[i],
                        *q,
                        self.spec_config().sigma_ratio_sq as int,
                    )
            }),
    {
        let config = self.config;
        let idx = voxel_index(q.p, config.voxel_size);
        let key = pack_index(idx);
        let slot: usize = match self.keys.get(&key) {
            Some(sref) => *sref,
            None => {
                return Vec::new();
            },
        };
        proof {
            assert(self.roots@[slot as int].wf(config));
        }
        let entry = &self.roots[slot];
        let out = candidates_in_nodes(&entry.nodes, q, config.sigma_ratio_sq, &config);
        proof {
            assert(slot as int == self.spec_slot_of(idx));
            assert(entry.nodes@ == self.spec_root_nodes(slot as int));
            assert forall|k: int|
                0 <= k < out@.len() implies spec_map_stores_plane(
                *self,
                (#[trigger] out@[k]).plane,
            ) by {
                assert(spec_plane_stored(self.spec_root_nodes(slot as int), out@[k].plane));
            }
        }
        if out.len() > 0 {
            return out;
        }
        proof {
            // the covering root yielded nothing: none of its planes passes
            assert forall|i: int|
                0 <= i < spec_root_planes(self.spec_root_nodes(slot as int)).len()
                    implies !spec_passes(
                #[trigger] spec_root_planes(self.spec_root_nodes(slot as int))[i],
                *q,
                config.sigma_ratio_sq as int,
            ) by {
                if spec_passes(
                    spec_root_planes(self.spec_root_nodes(slot as int))[i],
                    *q,
                    config.sigma_ratio_sq as int,
                ) {
                    assert(spec_has_candidate_for(
                        out@,
                        spec_root_planes(self.spec_root_nodes(slot as int))[i],
                    ));
                    assert(false);
                }
            }
        }
        // no candidate in the covering root: try the one nearest voxel
        let nidx = self.nearest_index(slot, q.p, idx);
        proof {
            assert(slot as int == self.spec_slot_of(idx));
            assert(nidx == spec_nearest_index(*self, slot as int, q.p, idx));
        }
        if !packable(nidx) {
            return out;
        }
        let nkey = pack_index(nidx);
        match self.keys.get(&nkey) {
            Some(nref) => {
                let nslot = *nref;
                proof {
                    assert(self.roots@[nslot as int].wf(config));
                    assert(nslot as int == self.spec_slot_of(nidx));
                }
                let nout = candidates_in_nodes(&nentry_nodes(self, nslot), q, config.sigma_ratio_sq, &config);
                proof {
                    assert forall|k: int|
                        0 <= k < nout@.len() implies spec_map_stores_plane(
                        *self,
                        (#[trigger] nout@[k]).plane,
                    ) by {
                        assert(spec_plane_stored(
                            self.spec_root_nodes(nslot as int),
                            nout@[k].plane,
                        ));
                    }
                    if nout@.len() == 0 {
                        assert forall|i: int|
                            0 <= i < spec_root_planes(self.spec_root_nodes(nslot as int)).len()
                                implies !spec_passes(
                            #[trigger] spec_root_planes(self.spec_root_nodes(nslot as int))[i],
                            *q,
                            config.sigma_ratio_sq as int,
                        ) by {
                            if spec_passes(
                                spec_root_planes(self.spec_root_nodes(nslot as int))[i],
                                *q,
                                config.sigma_ratio_sq as int,
                            ) {
                                assert(false);
                            }
                        }
                    }
                }
                nout
            },
            None => out,
        }
    }
}

/// Borrow the node arena of one root.
fn nentry_nodes(m: &VoxelMap, slot: usize) -> (r: &Vec<Node>)
    requires
        m.wf(),
        slot < m.spec_root_count(),
    ensures
        r@ == m.spec_root_nodes(slot as int),
        tree_wf(r@, m.spec_config()),
{
    proof {
        assert(m.roots@[slot as int].wf(m.config));
    }
    &m.roots[slot].nodes
}

/// The neighbor voxel index the fallback retries at: along each axis the
/// index steps up or down when the query lies beyond the root's inner
/// three-quarter wall.
pub open spec fn spec_nearest_index(m: VoxelMap, slot: int, q: Vec3Fx, idx: Vec3Fx) -> Vec3Fx {
    let node = m.spec_root_nodes(slot)[0];
    Vec3Fx {
        x: (if q.x > node.center.x + node.quarter_side {
            idx.x + 1
        } else if q.x < node.center.x - node.quarter_side {
            idx.x - 1
        } else {
            idx.x as int
        }) as i64,
        y: (if q.y > node.center.y + node.quarter_side {
            idx.y + 1
        } else if q.y < node.center.y - node.quarter_side {
            idx.y - 1
        } else {
            idx.y as int
        }) as i64,
        z: (if q.z > node.center.z + node.quarter_side {
            idx.z + 1
        } else if q.z < node.center.z - node.quarter_side {
            idx.z - 1
        } else {
            idx.z as int
        }) as i64,
    }
}

/// Every point routed to a voxel root indexes that root's own voxel: two
/// points reach the same root exactly when they share a voxel index.
pub proof fn lemma_routed_in_own_voxel(m: VoxelMap, i: int, k: int)
    requires
        m.wf(),
        0 <= i < m.spec_root_count(),
        0 <= k < m.spec_root_routed(i).len(),
    ensures
        spec_voxel_index(m.spec_root_routed(i)[k], m.spec_config().voxel_size) == m.spec_root_index(
            i,
        ),
{
}

/// Distinct roots of a map cover distinct voxels.
pub proof fn lemma_roots_distinct(m: VoxelMap, i: int, j: int)
    requires
        m.wf(),
        0 <= i < j < m.spec_root_count(),
    ensures
        m.spec_root_index(i) != m.spec_root_index(j),
{
}

/// Two voxel indices share a root slot exactly when they are the same
/// index: with the routing invariant this is the map's key uniqueness —
/// two points reach the same root if and only if their voxel indices
/// coincide.
pub proof fn lemma_same_root_same_voxel(m: VoxelMap, a: Vec3Fx, b: Vec3Fx)
    requires
        m.wf(),
        spec_packable(a),
        spec_packable(b),
        m.spec_has_root(a),
        m.spec_slot_of(a) == m.spec_slot_of(b),
    ensures
        a == b,
{
    let slot = m.spec_slot_of(a);
    assert(m.spec_root_index(slot) == a) by {
        lemma_pack_index_injective(m.spec_root_index(slot), a);
    }
    assert(m.spec_root_index(slot) == b) by {
        lemma_pack_index_injective(m.spec_root_index(slot), b);
    }
}

/// A leaf that still caches points holds strictly fewer than the freeze
/// bound; a frozen leaf caches nothing at all.
pub proof fn lemma_leaf_cache_bounded(m: VoxelMap, i: int, j: int)
    requires
        m.wf(),
        0 <= i < m.spec_root_count(),
        0 <= j < m.spec_root_nodes(i).len(),
    ensures
        spec_is_unfrozen_leaf(m.spec_root_nodes(i)[j]) ==> spec_cached_of(
            m.spec_root_nodes(i)[j],
        ).len() < m.spec_config().plane.max_points,
        !spec_is_unfrozen_leaf(m.spec_root_nodes(i)[j]) ==> spec_cached_of(
            m.spec_root_nodes(i)[j],
        ).len() == 0,
{
    assert(node_wf(m.spec_root_nodes(i)[j], m.spec_config()));
}

/// Every plane stored in the map is well-formed: unit normal within
/// tolerance, in-range centroid, non-negative squared radius, bounded
/// covariance.
pub proof fn lemma_map_planes_wf(m: VoxelMap, i: int, j: int)
    requires
        m.wf(),
        0 <= i < m.spec_root_count(),
        0 <= j < m.spec_root_nodes(i).len(),
    ensures
        spec_plane_of(m.spec_root_nodes(i)[j]) is Some ==> plane_wf(
            spec_plane_of(m.spec_root_nodes(i)[j])->Some_0,
        ),
{
    assert(node_wf(m.spec_root_nodes(i)[j], m.spec_config()));
}

} // verus!
