//! Probabilistic planes and uncertain points, in fixed-point form.
//!
//! A plane is a unit normal (carried at the [`NSCALE`] integer scale), a
//! centroid, a bounding radius (stored squared) and a 6-by-6 covariance
//! over (centroid, normal). Every plane enters the map through
//! [`PlaneFx::new`], which checks the well-formedness bounds, so every
//! stored plane has a unit normal within tolerance and a non-negative
//! radius.
use vstd::prelude::*;

verus! {

use crate::fixed::{Vec3Fx, COORD_CAP, lemma_abs_mul_le};

/// The integer scale of plane normals: a unit normal has squared length
/// `NSCALE * NSCALE` up to [`NORM_TOL`] (2^30).
pub const NSCALE: i64 = 1073741824;

/// Tolerance on the squared length of a stored normal: 2e-9 of
/// `NSCALE^2`, which bounds the normal's length within 1e-9 of one. A
/// correctly rounded unit normal deviates in squared length by at most
/// about 1.8 units of [`NSCALE`], well inside this band.
pub const NORM_TOL: i64 = 2305843009;

/// Magnitude cap on normal coordinates (2^31).
pub const NORMAL_CAP: i64 = 2147483648;

/// Magnitude cap on covariance entries (2^48).
pub const COV_CAP: i64 = 281474976710656;

/// Cap on a stored squared bounding radius (2^58).
pub const RADIUS_SQ_CAP: i64 = 288230376151711744;

/// Magnitude cap on the entries of a quadratic-form argument (2^31).
pub const QF_ARG_CAP: i64 = 2147483648;

/// Magnitude bound of one quadratic-form term (`QF_ARG_CAP^2 * COV_CAP`).
pub const QF_TERM_CAP: i128 = 1298074214633706907132624082305024;

/// A covariance matrix in row-major order, entries bounded by [`COV_CAP`]:
/// `dim * dim` fixed-point entries at the caller's consistent scale.
pub open spec fn cov_wf(cov: Seq<i64>, dim: int) -> bool {
    cov.len() == dim * dim && forall|k: int|
        0 <= k < cov.len() ==> -COV_CAP <= #[trigger] cov[k] <= COV_CAP
}

/// A world point with a 3-by-3 position covariance.
#[derive(Clone, Debug)]
pub struct UPointFx {
    pub p: Vec3Fx,
    pub cov: Vec<i64>,
}

impl UPointFx {
    pub open spec fn wf(self) -> bool {
        self.p.in_range(COORD_CAP as int) && cov_wf(self.cov@, 3)
    }
}

/// An uncertain plane: unit normal, centroid, squared bounding radius and
/// the 6-by-6 covariance of (centroid, normal).
#[derive(Clone, Debug)]
pub struct PlaneFx {
    pub normal: Vec3Fx,
    pub center: Vec3Fx,
    pub radius_sq: i64,
    pub cov: Vec<i64>,
}

/// The well-formedness of a plane: the normal has squared length
/// `NSCALE^2` within [`NORM_TOL`] (so its length is one within tolerance),
/// the centroid is an in-range point, the squared radius is non-negative,
/// and the covariance entries are bounded.
pub open spec fn plane_wf(pl: PlaneFx) -> bool {
    &&& pl.normal.in_range(NORMAL_CAP as int)
    &&& NSCALE * NSCALE - NORM_TOL <= pl.normal.spec_dot(pl.normal) <= NSCALE * NSCALE + NORM_TOL
    &&& pl.center.in_range(COORD_CAP as int)
    &&& 0 <= pl.radius_sq <= RADIUS_SQ_CAP
    &&& cov_wf(pl.cov@, 6)
}

impl PlaneFx {
    pub open spec fn wf(self) -> bool {
        plane_wf(self)
    }

    /// Validate and build a plane. Returns the plane exactly when every
    /// well-formedness bound holds of the inputs; a fit whose numbers are
    /// out of range is refused rather than stored.
    pub fn new(normal: Vec3Fx, center: Vec3Fx, radius_sq: i64, cov: Vec<i64>) -> (r: Option<
        PlaneFx,
    >)
        ensures
            r is Some <==> plane_wf(
                PlaneFx { normal, center, radius_sq, cov: cov },
            ),
            r is Some ==> r->Some_0 == (PlaneFx { normal, center, radius_sq, cov: cov }),
    {
        let pl = PlaneFx { normal, center, radius_sq, cov };
        if !in_range_exec(pl.normal, NORMAL_CAP) {
            return None;
        }
        if !in_range_exec(pl.center, COORD_CAP) {
            return None;
        }
        if !(0 <= pl.radius_sq && pl.radius_sq <= RADIUS_SQ_CAP) {
            return None;
        }
        if !cov_check(&pl.cov, 6) {
            return None;
        }
        let nn = pl.normal.dot(pl.normal);
        proof {
            assert(NSCALE as int * NSCALE as int == 1152921504606846976) by (nonlinear_arith);
        }
        let nsq: i128 = (NSCALE as i128) * (NSCALE as i128);
        let lo = nsq - (NORM_TOL as i128);
        let hi = nsq + (NORM_TOL as i128);
        if nn < lo || nn > hi {
            return None;
        }
        Some(pl)
    }
}

/// Check the coordinate bound of a vector.
pub fn in_range_exec(v: Vec3Fx, cap: i64) -> (r: bool)
    requires
        cap >= 0,
    ensures
        r == v.in_range(cap as int),
{
    -cap <= v.x && v.x <= cap && -cap <= v.y && v.y <= cap && -cap <= v.z && v.z <= cap
}

/// Check that a vector is a `dim * dim` covariance with bounded entries.
pub fn cov_check(cov: &Vec<i64>, dim: usize) -> (r: bool)
    requires
        dim <= 6,
    ensures
        r == cov_wf(cov@, dim as int),
{
    proof {
        assert(dim * dim <= 36) by (nonlinear_arith)
            requires
                dim <= 6;
    }
    if cov.len() != dim * dim {
        return false;
    }
    let n = cov.len();
    let mut k: usize = 0;
    while k < n
        invariant
            k <= n,
            n == cov@.len(),
            forall|k2: int| 0 <= k2 < k ==> -COV_CAP <= #[trigger] cov@[k2] <= COV_CAP,
        decreases n - k,
    {
        let v = cov[k];
        if v < -COV_CAP || v > COV_CAP {
            return false;
        }
        k = k + 1;
    }
    true
}

/// The partial sum of the quadratic form `e^T C e` over the first `k`
/// entries of the row-major matrix `c` of side `dim`.
pub open spec fn quad_partial(c: Seq<i64>, e: Seq<i64>, dim: int, k: int) -> int
    decreases k,
{
    if k <= 0 {
        0
    } else {
        quad_partial(c, e, dim, k - 1) + e[(k - 1) / dim] * c[k - 1] * e[(k - 1) % dim]
    }
}

/// The quadratic form `e^T C e` for a row-major matrix of side `dim`.
pub open spec fn spec_quad_form(c: Seq<i64>, e: Seq<i64>, dim: int) -> int {
    quad_partial(c, e, dim, dim * dim)
}

/// Evaluate the quadratic form `e^T C e` exactly in 128-bit arithmetic.
pub fn quad_form(c: &Vec<i64>, e: &Vec<i64>, dim: usize) -> (r: i128)
    requires
        1 <= dim <= 6,
        cov_wf(c@, dim as int),
        e@.len() == dim,
        forall|k: int| 0 <= k < dim ==> -QF_ARG_CAP <= #[trigger] e@[k] <= QF_ARG_CAP,
    ensures
        r == spec_quad_form(c@, e@, dim as int),
        -36 * QF_TERM_CAP <= r <= 36 * QF_TERM_CAP,
{
    proof {
        assert(dim * dim <= 36) by (nonlinear_arith)
            requires
                1 <= dim <= 6;
    }
    let n = dim * dim;
    let mut acc: i128 = 0;
    let mut k: usize = 0;
    while k < n
        invariant
            1 <= dim <= 6,
            n == dim * dim,
            n <= 36,
            k <= n,
            cov_wf(c@, dim as int),
            e@.len() == dim,
            forall|k2: int| 0 <= k2 < dim ==> -QF_ARG_CAP <= #[trigger] e@[k2] <= QF_ARG_CAP,
            acc == quad_partial(c@, e@, dim as int, k as int),
            -(k as int) * QF_TERM_CAP <= acc <= (k as int) * QF_TERM_CAP,
        decreases n - k,
    {
        let i = k / dim;
        let j = k % dim;
        proof {
            assert(0 <= (k as int / dim as int) < dim as int && 0 <= (k as int % dim as int)
                < dim as int && (k as int / dim as int) == i as int && (k as int % dim as int)
                == j as int) by (nonlinear_arith)
                requires
                    0 <= k < n,
                    n == dim * dim,
                    1 <= dim <= 6,
                    i == k / dim,
                    j == k % dim;
        }
        let ei = e[i];
        let ck = c[k];
        let ej = e[j];
        proof {
            lemma_abs_mul_le2(ei as int, ck as int, QF_ARG_CAP as int, COV_CAP as int);
        }
        let ab: i128 = (ei as i128) * (ck as i128);
        proof {
            lemma_quad_term_bound(ei as int, ck as int, ej as int);
        }
        let term: i128 = ab * (ej as i128);
        proof {
            let kk = k as int;
            assert((kk + 1) * QF_TERM_CAP == kk * QF_TERM_CAP + QF_TERM_CAP) by (nonlinear_arith);
        }
        acc = acc + term;
        k = k + 1;
    }
    acc
}

/// `|a * b| <= ca * cb` for magnitude caps `ca`, `cb` of the two factors.
pub proof fn lemma_abs_mul_le2(a: int, b: int, ca: int, cb: int)
    requires
        0 <= ca,
        0 <= cb,
        -ca <= a <= ca,
        -cb <= b <= cb,
    ensures
        -(ca * cb) <= a * b <= ca * cb,
{
    assert(-(ca * cb) <= a * b <= ca * cb) by (nonlinear_arith)
        requires
            0 <= ca,
            0 <= cb,
            -ca <= a <= ca,
            -cb <= b <= cb;
}

/// One term of the quadratic form is bounded by [`QF_TERM_CAP`].
proof fn lemma_quad_term_bound(a: int, b: int, c: int)
    requires
        -QF_ARG_CAP <= a <= QF_ARG_CAP,
        -COV_CAP <= b <= COV_CAP,
        -QF_ARG_CAP <= c <= QF_ARG_CAP,
    ensures
        -QF_TERM_CAP <= a * b * c <= QF_TERM_CAP,
{
    lemma_abs_mul_le2(a, b, QF_ARG_CAP as int, COV_CAP as int);
    lemma_abs_mul_le2(a * b, c, QF_ARG_CAP as int * COV_CAP as int, QF_ARG_CAP as int);
    assert(QF_ARG_CAP * COV_CAP * QF_ARG_CAP == QF_TERM_CAP) by (nonlinear_arith);
}


/// The `a`-th coordinate of a point (0, 1 and 2 for x, y and z).
pub open spec fn spec_coord(u: UPointFx, a: int) -> int {
    if a == 0 {
        u.p.x as int
    } else if a == 1 {
        u.p.y as int
    } else {
        u.p.z as int
    }
}

/// The sum of one coordinate over a point collection.
pub open spec fn spec_moment1(pts: Seq<UPointFx>, a: int) -> int
    decreases pts.len(),
{
    if pts.len() == 0 {
        0
    } else {
        spec_moment1(pts.drop_last(), a) + spec_coord(pts.last(), a)
    }
}

/// The sum of a coordinate product over a point collection.
pub open spec fn spec_moment2(pts: Seq<UPointFx>, a: int, b: int) -> int
    decreases pts.len(),
{
    if pts.len() == 0 {
        0
    } else {
        spec_moment2(pts.drop_last(), a, b) + spec_coord(pts.last(), a) * spec_coord(
            pts.last(),
            b,
        )
    }
}

/// The exact first and second coordinate moments of a point collection:
/// the integer sums a plane fit divides to form its centroid and scatter.
pub struct PointMoments {
    pub count: usize,
    pub sx: i128,
    pub sy: i128,
    pub sz: i128,
    pub xx: i128,
    pub xy: i128,
    pub xz: i128,
    pub yy: i128,
    pub yz: i128,
    pub zz: i128,
}

/// Accumulate the exact coordinate moments of a point collection.
pub fn point_moments(pts: &Vec<UPointFx>) -> (r: PointMoments)
    requires
        forall|k: int| 0 <= k < pts@.len() ==> (#[trigger] pts@[k]).wf(),
    ensures
        r.count == pts@.len(),
        r.sx == spec_moment1(pts@, 0),
        r.sy == spec_moment1(pts@, 1),
        r.sz == spec_moment1(pts@, 2),
        r.xx == spec_moment2(pts@, 0, 0),
        r.xy == spec_moment2(pts@, 0, 1),
        r.xz == spec_moment2(pts@, 0, 2),
        r.yy == spec_moment2(pts@, 1, 1),
        r.yz == spec_moment2(pts@, 1, 2),
        r.zz == spec_moment2(pts@, 2, 2),
{
    let n = pts.len();
    let mut r = PointMoments {
        count: n,
        sx: 0,
        sy: 0,
        sz: 0,
        xx: 0,
        xy: 0,
        xz: 0,
        yy: 0,
        yz: 0,
        zz: 0,
    };
    let mut k: usize = 0;
    proof {
        assert(pts@.take(0) =~= Seq::<UPointFx>::empty());
    }
    while k < n
        invariant
            k <= n,
            n == pts@.len(),
            forall|k2: int| 0 <= k2 < pts@.len() ==> (#[trigger] pts@[k2]).wf(),
            r.count == n,
            r.sx == spec_moment1(pts@.take(k as int), 0),
            r.sy == spec_moment1(pts@.take(k as int), 1),
            r.sz == spec_moment1(pts@.take(k as int), 2),
            r.xx == spec_moment2(pts@.take(k as int), 0, 0),
            r.xy == spec_moment2(pts@.take(k as int), 0, 1),
            r.xz == spec_moment2(pts@.take(k as int), 0, 2),
            r.yy == spec_moment2(pts@.take(k as int), 1, 1),
            r.yz == spec_moment2(pts@.take(k as int), 1, 2),
            r.zz == spec_moment2(pts@.take(k as int), 2, 2),
            -(k as int) * COORD_CAP <= r.sx <= (k as int) * COORD_CAP,
            -(k as int) * COORD_CAP <= r.sy <= (k as int) * COORD_CAP,
            -(k as int) * COORD_CAP <= r.sz <= (k as int) * COORD_CAP,
            -(k as int) * 18014398509481984 <= r.xx <= (k as int) * 18014398509481984,
            -(k as int) * 18014398509481984 <= r.xy <= (k as int) * 18014398509481984,
            -(k as int) * 18014398509481984 <= r.xz <= (k as int) * 18014398509481984,
            -(k as int) * 18014398509481984 <= r.yy <= (k as int) * 18014398509481984,
            -(k as int) * 18014398509481984 <= r.yz <= (k as int) * 18014398509481984,
            -(k as int) * 18014398509481984 <= r.zz <= (k as int) * 18014398509481984,
        decreases n - k,
    {
        let u = &pts[k];
        proof {
            assert(pts@.take(k as int + 1).drop_last() =~= pts@.take(k as int));
            assert(pts@.take(k as int + 1).last() == pts@[k as int]);
            let kk = k as int;
            let cc = COORD_CAP as int;
            lemma_abs_mul_le(u.p.x as int, u.p.x as int, cc);
            lemma_abs_mul_le(u.p.x as int, u.p.y as int, cc);
            lemma_abs_mul_le(u.p.x as int, u.p.z as int, cc);
            lemma_abs_mul_le(u.p.y as int, u.p.y as int, cc);
            lemma_abs_mul_le(u.p.y as int, u.p.z as int, cc);
            lemma_abs_mul_le(u.p.z as int, u.p.z as int, cc);
            assert(cc * cc == 18014398509481984) by (nonlinear_arith)
                requires
                    cc == 134217728;
        }
        let px = u.p.x as i128;
        let py = u.p.y as i128;
        let pz = u.p.z as i128;
        proof {
            let kk = k as int;
            let cc = COORD_CAP as int;
            assert(-(cc * cc) <= px * px <= cc * cc);
            assert(-(cc * cc) <= px * py <= cc * cc);
            assert(-(cc * cc) <= px * pz <= cc * cc);
            assert(-(cc * cc) <= py * py <= cc * cc);
            assert(-(cc * cc) <= py * pz <= cc * cc);
            assert(-(cc * cc) <= pz * pz <= cc * cc);
            assert(cc * cc == 18014398509481984) by (nonlinear_arith)
                requires
                    cc == 134217728;
            assert(-((kk + 1) * 18014398509481984) <= r.xx + px * px <= (kk + 1)
                * 18014398509481984);
            assert(-((kk + 1) * 18014398509481984) <= r.xy + px * py <= (kk + 1)
                * 18014398509481984);
            assert(-((kk + 1) * 18014398509481984) <= r.xz + px * pz <= (kk + 1)
                * 18014398509481984);
            assert(-((kk + 1) * 18014398509481984) <= r.yy + py * py <= (kk + 1)
                * 18014398509481984);
            assert(-((kk + 1) * 18014398509481984) <= r.yz + py * pz <= (kk + 1)
                * 18014398509481984);
            assert(-((kk + 1) * 18014398509481984) <= r.zz + pz * pz <= (kk + 1)
                * 18014398509481984);
        }
        r.sx = r.sx + px;
        r.sy = r.sy + py;
        r.sz = r.sz + pz;
        r.xx = r.xx + px * px;
        r.xy = r.xy + px * py;
        r.xz = r.xz + px * pz;
        r.yy = r.yy + py * py;
        r.yz = r.yz + py * pz;
        r.zz = r.zz + pz * pz;
        k = k + 1;
    }
    proof {
        assert(pts@.take(n as int) =~= pts@);
    }
    r
}

} // verus!
