//! Voxel-grid barycenter downsampling.
//!
//! Points are grouped by the voxel of a caller-chosen resolution they fall
//! in, and each occupied voxel yields one representative: the componentwise
//! floor mean of its points. The mean of a voxel's points lies in that same
//! voxel, which makes downsampling idempotent: a downsampled cloud
//! downsamples to itself.
use vstd::prelude::*;

verus! {

use std::collections::HashMap;
use vstd::arithmetic::div_mod::{lemma_fundamental_div_mod, lemma_fundamental_div_mod_converse,
lemma_mod_bound};
use crate::fixed::{
    Vec3Fx,
    COORD_CAP,
    spec_voxel_index,
    voxel_index,
    spec_packable,
    spec_pack_index,
    pack_index,
    lemma_pack_index_injective,
};

/// The componentwise sums of a sequence of points.
pub open spec fn sum_x(pts: Seq<Vec3Fx>) -> int
    decreases pts.len(),
{
    if pts.len() == 0 {
        0
    } else {
        sum_x(pts.drop_last()) + pts.last().x
    }
}

pub open spec fn sum_y(pts: Seq<Vec3Fx>) -> int
    decreases pts.len(),
{
    if pts.len() == 0 {
        0
    } else {
        sum_y(pts.drop_last()) + pts.last().y
    }
}

pub open spec fn sum_z(pts: Seq<Vec3Fx>) -> int
    decreases pts.len(),
{
    if pts.len() == 0 {
        0
    } else {
        sum_z(pts.drop_last()) + pts.last().z
    }
}

/// The componentwise floor mean of a non-empty sequence of points.
pub open spec fn mean3(pts: Seq<Vec3Fx>) -> Vec3Fx
    recommends
        pts.len() > 0,
{
    Vec3Fx {
        x: (sum_x(pts) / pts.len() as int) as i64,
        y: (sum_y(pts) / pts.len() as int) as i64,
        z: (sum_z(pts) / pts.len() as int) as i64,
    }
}

/// One voxel group: the voxel index and the points that fell into it,
/// in arrival order.
pub type VoxelGroup = (Vec3Fx, Seq<Vec3Fx>);

/// Insert a point into an ordered sequence of voxel groups: it joins the
/// first group carrying its voxel index, or opens a new group at the end.
pub open spec fn group_insert(groups: Seq<VoxelGroup>, idx: Vec3Fx, p: Vec3Fx) -> Seq<VoxelGroup>
    decreases groups.len(),
{
    if groups.len() == 0 {
        seq![(idx, seq![p])]
    } else if groups[0].0 == idx {
        seq![(groups[0].0, groups[0].1.push(p))] + groups.skip(1)
    } else {
        seq![groups[0]] + group_insert(groups.skip(1), idx, p)
    }
}

/// Group a whole sequence of points by voxel index, in arrival order.
pub open spec fn group_fold(pts: Seq<Vec3Fx>, resolution: i64) -> Seq<VoxelGroup>
    decreases pts.len(),
{
    if pts.len() == 0 {
        Seq::empty()
    } else {
        group_insert(
            group_fold(pts.drop_last(), resolution),
            spec_voxel_index(pts.last(), resolution),
            pts.last(),
        )
    }
}

/// The downsample of a sequence of points: the floor mean of each voxel
/// group, one per occupied voxel, in the order the voxels were first hit.
pub open spec fn spec_downsample(pts: Seq<Vec3Fx>, resolution: i64) -> Seq<Vec3Fx> {
    group_fold(pts, resolution).map_values(|g: VoxelGroup| mean3(g.1))
}

/// One accumulation bucket of the downsampler.
struct Bucket {
    key: u64,
    index: Vec3Fx,
    count: usize,
    sum_x: i128,
    sum_y: i128,
    sum_z: i128,
    pts: Ghost<Seq<Vec3Fx>>,
}

impl Bucket {
    spec fn wf(self, resolution: i64) -> bool {
        &&& self.count == self.pts@.len()
        &&& self.count >= 1
        &&& self.sum_x == sum_x(self.pts@)
        &&& self.sum_y == sum_y(self.pts@)
        &&& self.sum_z == sum_z(self.pts@)
        &&& -(self.count as int * COORD_CAP) <= self.sum_x <= self.count as int * COORD_CAP
        &&& -(self.count as int * COORD_CAP) <= self.sum_y <= self.count as int * COORD_CAP
        &&& -(self.count as int * COORD_CAP) <= self.sum_z <= self.count as int * COORD_CAP
        &&& forall|k: int|
            0 <= k < self.pts@.len() ==> (#[trigger] self.pts@[k]).in_range(COORD_CAP as int)
                && spec_voxel_index(self.pts@[k], resolution) == self.index
        &&& spec_packable(self.index)
        &&& self.key == spec_pack_index(self.index)
    }
}

/// The voxel-grid downsampler. The bucket store and its key map are reused
/// across scans: draining empties them without releasing their capacity to
/// the allocator.
pub struct Downsampler {
    resolution: i64,
    keys: HashMap<u64, usize>,
    buckets: Vec<Bucket>,
    inserted: Ghost<Seq<Vec3Fx>>,
}

impl Downsampler {
    /// The voxel edge length points are grouped by.
    pub closed spec fn spec_resolution(self) -> i64 {
        self.resolution
    }

    /// The voxel edge length points are grouped by.
    pub fn resolution(&self) -> (r: i64)
        ensures
            r == self.spec_resolution(),
    {
        self.resolution
    }

    /// The voxel groups accumulated since the last drain, in the order the
    /// voxels were first hit.
    pub closed spec fn groups(self) -> Seq<VoxelGroup> {
        self.buckets@.map_values(|b: Bucket| (b.index, b.pts@))
    }

    /// The points inserted since the last drain, in arrival order.
    pub closed spec fn inserted_points(self) -> Seq<Vec3Fx> {
        self.inserted@
    }

    pub closed spec fn wf(self) -> bool {
        &&& self.resolution > 0
        &&& forall|i: int|
            0 <= i < self.buckets@.len() ==> (#[trigger] self.buckets@[i]).wf(self.resolution)
        &&& forall|i: int, j: int|
            0 <= i < j < self.buckets@.len() ==> self.buckets@[i].key != self.buckets@[j].key
        &&& forall|i: int|
            0 <= i < self.buckets@.len() ==> self.keys@.contains_key(
                #[trigger] self.buckets@[i].key,
            ) && self.keys@[self.buckets@[i].key] == i
        &&& forall|k: u64|
            self.keys@.contains_key(k) ==> 0 <= #[trigger] self.keys@[k] < self.buckets@.len()
                && self.buckets@[self.keys@[k] as int].key == k
        &&& forall|i: int|
            0 <= i < self.buckets@.len() ==> (#[trigger] self.buckets@[i]).pts@.len()
                <= self.inserted@.len()
        &&& self.groups() == group_fold(self.inserted@, self.resolution)
    }

    /// An empty downsampler for voxels of edge `resolution`.
    pub fn new(resolution: i64) -> (r: Downsampler)
        requires
            resolution > 0,
        ensures
            r.wf(),
            r.spec_resolution() == resolution,
            r.groups() == Seq::<VoxelGroup>::empty(),
            r.inserted_points() == Seq::<Vec3Fx>::empty(),
    {
        let r = Downsampler {
            resolution,
            keys: HashMap::new(),
            buckets: Vec::new(),
            inserted: Ghost(Seq::empty()),
        };
        proof {
            assert(r.groups() =~= Seq::<VoxelGroup>::empty());
            assert(r.groups() =~= group_fold(r.inserted@, resolution));
        }
        r
    }

    /// Fold one point into its voxel's bucket, opening the bucket if the
    /// voxel was not hit yet.
    pub fn insert(&mut self, p: Vec3Fx)
        requires
            old(self).wf(),
            p.in_range(COORD_CAP as int),
            spec_packable(spec_voxel_index(p, old(self).spec_resolution())),
            old(self).inserted_points().len() < usize::MAX,
        ensures
            final(self).wf(),
            final(self).spec_resolution() == old(self).spec_resolution(),
            final(self).inserted_points() == old(self).inserted_points().push(p),
            final(self).groups() == group_insert(
                old(self).groups(),
                spec_voxel_index(p, old(self).spec_resolution()),
                p,
            ),
    {
        let idx = voxel_index(p, self.resolution);
        let key = pack_index(idx);
        let ghost old_groups = self.groups();
        let ghost res = self.resolution;
        match self.keys.get(&key) {
            Some(iref) => {
                let i = *iref;
                proof {
                    assert(self.buckets@[i as int].key == key);
                    lemma_pack_index_injective(self.buckets@[i as int].index, idx);
                    assert(self.buckets@[i as int].wf(res));
                    assert(self.buckets@[i as int].pts@.len() <= self.inserted@.len());
                }
                proof {
                    let n = self.buckets@[i as int].count as int;
                    assert((n + 1) * COORD_CAP == n * COORD_CAP + COORD_CAP) by (nonlinear_arith);
                    assert(n * COORD_CAP <= 0x10000000000000000 * COORD_CAP) by (nonlinear_arith)
                        requires
                            0 <= n <= 0x10000000000000000;
                }
                let b = &self.buckets[i];
                let new_bucket = Bucket {
                    key: b.key,
                    index: b.index,
                    count: b.count + 1,
                    sum_x: b.sum_x + (p.x as i128),
                    sum_y: b.sum_y + (p.y as i128),
                    sum_z: b.sum_z + (p.z as i128),
                    pts: Ghost(b.pts@.push(p)),
                };
                proof {
                    assert(new_bucket.pts@.drop_last() =~= old(self).buckets@[i as int].pts@);
                }
                self.buckets.set(i, new_bucket);
                proof {
                    self.inserted@ = old(self).inserted@.push(p);
                    lemma_group_insert_existing(old_groups, idx, p, i as int);
                    assert(self.groups() =~= old_groups.update(
                        i as int,
                        (idx, old_groups[i as int].1.push(p)),
                    ));
                    lemma_group_fold_step(old(self).inserted@, p, res);
                    assert(self.inserted@.drop_last() =~= old(self).inserted@);
                }
            },
            None => {
                let i = self.buckets.len();
                let ghost single = seq![p];
                let new_bucket = Bucket {
                    key,
                    index: idx,
                    count: 1,
                    sum_x: p.x as i128,
                    sum_y: p.y as i128,
                    sum_z: p.z as i128,
                    pts: Ghost(single),
                };
                proof {
                    assert(single.drop_last() =~= Seq::<Vec3Fx>::empty());
                    assert(sum_x(Seq::<Vec3Fx>::empty()) == 0);
                    assert(sum_y(Seq::<Vec3Fx>::empty()) == 0);
                    assert(sum_z(Seq::<Vec3Fx>::empty()) == 0);
                    assert(sum_x(single) == sum_x(single.drop_last()) + single.last().x);
                    assert(sum_y(single) == sum_y(single.drop_last()) + single.last().y);
                    assert(sum_z(single) == sum_z(single.drop_last()) + single.last().z);
                }
                self.buckets.push(new_bucket);
                self.keys.insert(key, i);
                proof {
                    self.inserted@ = old(self).inserted@.push(p);
                    assert forall|g: int| 0 <= g < old_groups.len() implies old_groups[g].0
                        != idx by {
                        assert(old(self).buckets@[g].key != key);
                    }
                    lemma_group_insert_fresh(old_groups, idx, p);
                    assert(self.groups() =~= old_groups.push((idx, seq![p])));
                    lemma_group_fold_step(old(self).inserted@, p, res);
                    assert(self.inserted@.drop_last() =~= old(self).inserted@);
                }
            },
        }
    }

    /// Drain the buckets: one representative per occupied voxel, the floor
    /// mean of the voxel's points, in the order the voxels were first hit.
    /// The representatives carry pairwise distinct voxel indices — each
    /// lies in the voxel whose points it averages — so the output is a
    /// fixed point of downsampling at this resolution.
    pub fn drain(&mut self) -> (out: Vec<Vec3Fx>)
        requires
            old(self).wf(),
        ensures
            final(self).wf(),
            final(self).spec_resolution() == old(self).spec_resolution(),
            final(self).groups() == Seq::<VoxelGroup>::empty(),
            final(self).inserted_points() == Seq::<Vec3Fx>::empty(),
            out@ == spec_downsample(old(self).inserted_points(), old(self).spec_resolution()),
            out@.len() == old(self).groups().len(),
            forall|k: int|
                0 <= k < out@.len() ==> #[trigger] out@[k] == mean3(old(self).groups()[k].1),
            forall|k: int|
                0 <= k < out@.len() ==> (#[trigger] out@[k]).in_range(COORD_CAP as int)
                    && spec_voxel_index(out@[k], old(self).spec_resolution()) == old(self).groups()[k].0
                    && spec_packable(spec_voxel_index(out@[k], old(self).spec_resolution())),
            forall|k1: int, k2: int|
                0 <= k1 < k2 < out@.len() ==> spec_voxel_index(out@[k1], old(self).spec_resolution())
                    != spec_voxel_index(out@[k2], old(self).spec_resolution()),
    {
        let ghost res = self.resolution;
        let ghost old_groups = self.groups();
        let n = self.buckets.len();
        let mut out: Vec<Vec3Fx> = Vec::new();
        let mut k: usize = 0;
        while k < n
            invariant
                self == old(self),
                self.wf(),
                n == self.buckets@.len(),
                k <= n,
                out@.len() == k,
                res == self.resolution,
                old_groups == self.groups(),
                forall|k2: int| 0 <= k2 < k ==> #[trigger] out@[k2] == mean3(old_groups[k2].1),
                forall|k2: int|
                    0 <= k2 < k ==> (#[trigger] out@[k2]).in_range(COORD_CAP as int)
                        && spec_voxel_index(out@[k2], res) == old_groups[k2].0
                        && spec_packable(spec_voxel_index(out@[k2], res)),
            decreases n - k,
        {
            let b = &self.buckets[k];
            proof {
                assert(b.wf(res));
                lemma_mean_in_voxel(b.pts@, res, b.index);
                let n = b.count as int;
                assert(n * COORD_CAP < 0x80000000000000000000000000000000) by (nonlinear_arith)
                    requires
                        0 <= n <= 0x10000000000000000;
            }
            let count = b.count as i128;
            let mx = div_floor_i128(b.sum_x, count);
            let my = div_floor_i128(b.sum_y, count);
            let mz = div_floor_i128(b.sum_z, count);
            let m = Vec3Fx { x: mx as i64, y: my as i64, z: mz as i64 };
            out.push(m);
            k = k + 1;
        }
        self.keys.clear();
        self.buckets.clear();
        proof {
            self.inserted@ = Seq::empty();
            assert(self.groups() =~= Seq::<VoxelGroup>::empty());
            assert(self.groups() =~= group_fold(self.inserted@, res));
            assert(out@ =~= spec_downsample(old(self).inserted_points(), res));
            assert forall|k1: int, k2: int| 0 <= k1 < k2 < out@.len() implies spec_voxel_index(
                out@[k1],
                res,
            ) != spec_voxel_index(out@[k2], res) by {
                assert(old(self).buckets@[k1].key != old(self).buckets@[k2].key);
                assert(spec_voxel_index(out@[k1], res) == old(self).buckets@[k1].index);
                assert(spec_voxel_index(out@[k2], res) == old(self).buckets@[k2].index);
            }
        }
        out
    }
}

/// Floor division on 128-bit integers.
fn div_floor_i128(a: i128, b: i128) -> (q: i128)
    requires
        b > 0,
        a > i128::MIN,
    ensures
        q == a as int / b as int,
{
    let r = a.checked_div_euclid(b);
    proof {
        lemma_fundamental_div_mod(a as int, b as int);
        lemma_mod_bound(a as int, b as int);
        assert(i128::MIN <= a as int / b as int <= i128::MAX) by (nonlinear_arith)
            requires
                b > 0,
                i128::MIN <= a <= i128::MAX,
                a == b * (a as int / b as int) + (a as int % b as int),
                0 <= (a as int % b as int) < b as int;
    }
    match r {
        Some(q) => q,
        None => {
            proof {
                assert(false);
            }
            0
        },
    }
}

/// The componentwise sums of a voxel group are bounded by the group size
/// times the voxel bounds.
proof fn lemma_group_sum_bounds(pts: Seq<Vec3Fx>, res: i64, idx: Vec3Fx)
    requires
        res > 0,
        forall|k: int|
            0 <= k < pts.len() ==> (#[trigger] pts[k]).in_range(COORD_CAP as int)
                && spec_voxel_index(pts[k], res) == idx,
    ensures
        pts.len() * (res * idx.x) <= sum_x(pts) <= pts.len() * (res * idx.x + res - 1),
        pts.len() * (res * idx.y) <= sum_y(pts) <= pts.len() * (res * idx.y + res - 1),
        pts.len() * (res * idx.z) <= sum_z(pts) <= pts.len() * (res * idx.z + res - 1),
        -(pts.len() * COORD_CAP) <= sum_x(pts) <= pts.len() * COORD_CAP,
        -(pts.len() * COORD_CAP) <= sum_y(pts) <= pts.len() * COORD_CAP,
        -(pts.len() * COORD_CAP) <= sum_z(pts) <= pts.len() * COORD_CAP,
    decreases pts.len(),
{
    if pts.len() == 0 {
    } else {
        let prefix = pts.drop_last();
        let p = pts.last();
        assert(forall|k: int|
            0 <= k < prefix.len() ==> (#[trigger] prefix[k]).in_range(COORD_CAP as int)
                && spec_voxel_index(prefix[k], res) == idx);
        lemma_group_sum_bounds(prefix, res, idx);
        lemma_point_in_voxel_bounds(p, res, idx);
        let n = prefix.len() as int;
        assert((n + 1) * (res * idx.x) == n * (res * idx.x) + (res * idx.x)) by (nonlinear_arith);
        assert((n + 1) * (res * idx.x + res - 1) == n * (res * idx.x + res - 1) + (res * idx.x + res
            - 1)) by (nonlinear_arith);
        assert((n + 1) * (res * idx.y) == n * (res * idx.y) + (res * idx.y)) by (nonlinear_arith);
        assert((n + 1) * (res * idx.y + res - 1) == n * (res * idx.y + res - 1) + (res * idx.y + res
            - 1)) by (nonlinear_arith);
        assert((n + 1) * (res * idx.z) == n * (res * idx.z) + (res * idx.z)) by (nonlinear_arith);
        assert((n + 1) * (res * idx.z + res - 1) == n * (res * idx.z + res - 1) + (res * idx.z + res
            - 1)) by (nonlinear_arith);
        assert((n + 1) * COORD_CAP == n * COORD_CAP + COORD_CAP) by (nonlinear_arith);
    }
}

/// A point of a voxel lies between the voxel's walls.
proof fn lemma_point_in_voxel_bounds(p: Vec3Fx, res: i64, idx: Vec3Fx)
    requires
        res > 0,
        spec_voxel_index(p, res) == idx,
    ensures
        res * idx.x <= p.x <= res * idx.x + res - 1,
        res * idx.y <= p.y <= res * idx.y + res - 1,
        res * idx.z <= p.z <= res * idx.z + res - 1,
{
    lemma_floor_div_walls(p.x as int, res as int);
    lemma_floor_div_walls(p.y as int, res as int);
    lemma_floor_div_walls(p.z as int, res as int);
    lemma_div_stays_i64(p.x as int, res as int);
    lemma_div_stays_i64(p.y as int, res as int);
    lemma_div_stays_i64(p.z as int, res as int);
}

/// Floor division of an `i64` by a positive `i64` stays in `i64` range.
proof fn lemma_div_stays_i64(a: int, b: int)
    requires
        b > 0,
        i64::MIN <= a <= i64::MAX,
    ensures
        i64::MIN <= a / b <= i64::MAX,
{
    lemma_fundamental_div_mod(a, b);
    lemma_mod_bound(a, b);
    assert(i64::MIN <= a / b <= i64::MAX) by (nonlinear_arith)
        requires
            b > 0,
            i64::MIN <= a <= i64::MAX,
            a == b * (a / b) + (a % b),
            0 <= (a % b) < b;
}

/// Floor division brackets its argument between consecutive multiples.
proof fn lemma_floor_div_walls(a: int, b: int)
    requires
        b > 0,
    ensures
        b * (a / b) <= a <= b * (a / b) + b - 1,
        -b < a - b * (a / b) < b,
{
    lemma_fundamental_div_mod(a, b);
    lemma_mod_bound(a, b);
}

/// The floor mean of a voxel's points lies in the same voxel and in range.
proof fn lemma_mean_in_voxel(pts: Seq<Vec3Fx>, res: i64, idx: Vec3Fx)
    requires
        res > 0,
        pts.len() >= 1,
        forall|k: int|
            0 <= k < pts.len() ==> (#[trigger] pts[k]).in_range(COORD_CAP as int)
                && spec_voxel_index(pts[k], res) == idx,
    ensures
        mean3(pts).in_range(COORD_CAP as int),
        spec_voxel_index(mean3(pts), res) == idx,
        -(pts.len() * COORD_CAP) <= sum_x(pts) <= pts.len() * COORD_CAP,
        -(pts.len() * COORD_CAP) <= sum_y(pts) <= pts.len() * COORD_CAP,
        -(pts.len() * COORD_CAP) <= sum_z(pts) <= pts.len() * COORD_CAP,
        -COORD_CAP <= sum_x(pts) / pts.len() as int <= COORD_CAP,
        -COORD_CAP <= sum_y(pts) / pts.len() as int <= COORD_CAP,
        -COORD_CAP <= sum_z(pts) / pts.len() as int <= COORD_CAP,
{
    lemma_group_sum_bounds(pts, res, idx);
    let n = pts.len() as int;
    lemma_mean_component(sum_x(pts), n, res as int, idx.x as int);
    lemma_mean_component(sum_y(pts), n, res as int, idx.y as int);
    lemma_mean_component(sum_z(pts), n, res as int, idx.z as int);
}

/// A sum bounded between `n` copies of a voxel's walls has its floor mean
/// between those walls, hence in the voxel and within the coordinate cap.
proof fn lemma_mean_component(s: int, n: int, res: int, i: int)
    requires
        n >= 1,
        res > 0,
        n * (res * i) <= s <= n * (res * i + res - 1),
        -(n * COORD_CAP) <= s <= n * COORD_CAP,
    ensures
        res * i <= s / n <= res * i + res - 1,
        -COORD_CAP <= s / n <= COORD_CAP,
        (s / n) / res == i,
{
    lemma_fundamental_div_mod(s, n);
    lemma_mod_bound(s, n);
    let q = s / n;
    assert(res * i <= q <= res * i + res - 1) by (nonlinear_arith)
        requires
            n >= 1,
            s == n * q + (s % n),
            0 <= (s % n) < n,
            n * (res * i) <= s <= n * (res * i + res - 1);
    assert(-COORD_CAP <= q <= COORD_CAP) by (nonlinear_arith)
        requires
            n >= 1,
            s == n * q + (s % n),
            0 <= (s % n) < n,
            -(n * COORD_CAP) <= s <= n * COORD_CAP;
    assert(q == res * i + (q - res * i));
    lemma_fundamental_div_mod_converse(q, res, i, q - res * i);
}

/// When some group already carries the index, `group_insert` updates that
/// group in place.
proof fn lemma_group_insert_existing(groups: Seq<VoxelGroup>, idx: Vec3Fx, p: Vec3Fx, j: int)
    requires
        0 <= j < groups.len(),
        groups[j].0 == idx,
        forall|g1: int, g2: int| 0 <= g1 < g2 < groups.len() ==> groups[g1].0 != groups[g2].0,
    ensures
        group_insert(groups, idx, p) == groups.update(j, (idx, groups[j].1.push(p))),
    decreases groups.len(),
{
    if j == 0 {
        assert(group_insert(groups, idx, p) =~= groups.update(0, (idx, groups[0].1.push(p))));
    } else {
        assert(groups[0].0 != idx);
        let rest = groups.skip(1);
        assert(forall|g1: int, g2: int| 0 <= g1 < g2 < rest.len() ==> rest[g1].0 != rest[g2].0);
        assert(rest[j - 1].0 == idx);
        lemma_group_insert_existing(rest, idx, p, j - 1);
        assert(group_insert(groups, idx, p) =~= groups.update(j, (idx, groups[j].1.push(p))));
    }
}

/// When no group carries the index, `group_insert` opens a new group at
/// the end.
proof fn lemma_group_insert_fresh(groups: Seq<VoxelGroup>, idx: Vec3Fx, p: Vec3Fx)
    requires
        forall|g: int| 0 <= g < groups.len() ==> groups[g].0 != idx,
    ensures
        group_insert(groups, idx, p) == groups.push((idx, seq![p])),
    decreases groups.len(),
{
    if groups.len() == 0 {
        assert(group_insert(groups, idx, p) =~= groups.push((idx, seq![p])));
    } else {
        lemma_group_insert_fresh(groups.skip(1), idx, p);
        assert(group_insert(groups, idx, p) =~= groups.push((idx, seq![p])));
    }
}

/// Unfolding `group_fold` by one trailing point.
proof fn lemma_group_fold_step(pts: Seq<Vec3Fx>, p: Vec3Fx, res: i64)
    ensures
        group_fold(pts.push(p), res) == group_insert(
            group_fold(pts, res),
            spec_voxel_index(p, res),
            p,
        ),
{
    assert(pts.push(p).drop_last() =~= pts);
    assert(pts.push(p).last() == p);
}

/// Downsampling leaves a downsampled cloud unchanged: points with pairwise
/// distinct voxel indices each form a singleton group, and the mean of a
/// singleton is its point, so the output equals the input.
pub proof fn lemma_downsample_idempotent(pts: Seq<Vec3Fx>, res: i64)
    requires
        res > 0,
        forall|k1: int, k2: int|
            0 <= k1 < k2 < pts.len() ==> spec_voxel_index(pts[k1], res) != spec_voxel_index(
                pts[k2],
                res,
            ),
    ensures
        spec_downsample(pts, res) == pts,
    decreases pts.len(),
{
    if pts.len() == 0 {
        assert(spec_downsample(pts, res) =~= pts);
    } else {
        let prefix = pts.drop_last();
        let p = pts.last();
        lemma_downsample_idempotent(prefix, res);
        lemma_singleton_groups(prefix, res);
        assert forall|g: int| 0 <= g < group_fold(prefix, res).len() implies group_fold(
            prefix,
            res,
        )[g].0 != spec_voxel_index(p, res) by {
            assert(group_fold(prefix, res)[g].0 == spec_voxel_index(prefix[g], res));
        }
        lemma_group_insert_fresh(group_fold(prefix, res), spec_voxel_index(p, res), p);
        lemma_mean_singleton(p);
        assert(spec_downsample(pts, res) =~= pts);
    }
}

/// Over points with pairwise distinct voxel indices, grouping yields one
/// singleton group per point, in order.
proof fn lemma_singleton_groups(pts: Seq<Vec3Fx>, res: i64)
    requires
        res > 0,
        forall|k1: int, k2: int|
            0 <= k1 < k2 < pts.len() ==> spec_voxel_index(pts[k1], res) != spec_voxel_index(
                pts[k2],
                res,
            ),
    ensures
        group_fold(pts, res).len() == pts.len(),
        forall|g: int|
            0 <= g < pts.len() ==> #[trigger] group_fold(pts, res)[g] == (
            spec_voxel_index(pts[g], res),
            seq![pts[g]],
            ),
    decreases pts.len(),
{
    if pts.len() == 0 {
    } else {
        let prefix = pts.drop_last();
        let p = pts.last();
        lemma_singleton_groups(prefix, res);
        assert forall|g: int| 0 <= g < group_fold(prefix, res).len() implies group_fold(
            prefix,
            res,
        )[g].0 != spec_voxel_index(p, res) by {
            assert(group_fold(prefix, res)[g].0 == spec_voxel_index(prefix[g], res));
        }
        lemma_group_insert_fresh(group_fold(prefix, res), spec_voxel_index(p, res), p);
    }
}

/// The floor mean of a single point is the point.
proof fn lemma_mean_singleton(p: Vec3Fx)
    ensures
        mean3(seq![p]) == p,
{
    let s = seq![p];
    let e = Seq::<Vec3Fx>::empty();
    assert(s.drop_last() =~= e);
    assert(sum_x(e) == 0);
    assert(sum_y(e) == 0);
    assert(sum_z(e) == 0);
    assert(s.last() == p);
    assert(sum_x(s) == sum_x(s.drop_last()) + s.last().x);
    assert(sum_y(s) == sum_y(s.drop_last()) + s.last().y);
    assert(sum_z(s) == sum_z(s.drop_last()) + s.last().z);
    assert(p.x as int / 1int == p.x as int);
    assert(p.y as int / 1int == p.y as int);
    assert(p.z as int / 1int == p.z as int);
}

} // verus!
