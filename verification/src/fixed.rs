//! Fixed-point lattice geometry.
//!
//! Points, normals and covariances are carried as signed integers at a
//! caller-chosen scale (so many lattice steps per meter). All routing and
//! gating arithmetic in this crate is exact integer arithmetic on these
//! values; the caller converts to and from its floating-point world at the
//! boundary and keeps the scale consistent.
use vstd::prelude::*;

verus! {

use vstd::arithmetic::div_mod::{
    lemma_fundamental_div_mod,
    lemma_fundamental_div_mod_converse,
    lemma_mod_bound,
};

/// Magnitude cap on point coordinates accepted by the map and the
/// downsampler (2^27 lattice steps), so that squared distances and
/// quadratic forms fit the integer widths used below.
pub const COORD_CAP: i64 = 134217728;

/// Magnitude cap on the factors of a three-term dot product (2^40), so
/// that the product sums fit an `i128`.
pub const DOT_CAP: i64 = 1099511627776;

/// Magnitude cap on a voxel lattice index (2^20); indices of this size
/// pack injectively into a `u64` key.
pub const IDX_CAP: i64 = 1048576;

/// The base used to pack the three digits of a voxel index (2^21).
pub const PACK_BASE: u64 = 2097152;

/// A three-vector in fixed-point lattice coordinates.
#[derive(Clone, Copy, PartialEq, Eq, Structural, Debug)]
pub struct Vec3Fx {
    pub x: i64,
    pub y: i64,
    pub z: i64,
}

impl Vec3Fx {
    /// All three coordinates have magnitude at most `cap`.
    pub open spec fn in_range(self, cap: int) -> bool {
        -cap <= self.x <= cap && -cap <= self.y <= cap && -cap <= self.z <= cap
    }

    pub fn new(x: i64, y: i64, z: i64) -> (r: Vec3Fx)
        ensures
            r == (Vec3Fx { x, y, z }),
    {
        Vec3Fx { x, y, z }
    }

    /// Componentwise difference.
    pub fn sub(self, other: Vec3Fx) -> (r: Vec3Fx)
        requires
            self.in_range(COORD_CAP as int),
            other.in_range(COORD_CAP as int),
        ensures
            r.x == self.x - other.x,
            r.y == self.y - other.y,
            r.z == self.z - other.z,
            r.in_range(2 * COORD_CAP as int),
    {
        Vec3Fx { x: self.x - other.x, y: self.y - other.y, z: self.z - other.z }
    }

    /// Componentwise sum.
    pub fn add(self, other: Vec3Fx) -> (r: Vec3Fx)
        requires
            self.in_range(2 * COORD_CAP as int),
            other.in_range(2 * COORD_CAP as int),
        ensures
            r.x == self.x + other.x,
            r.y == self.y + other.y,
            r.z == self.z + other.z,
    {
        Vec3Fx { x: self.x + other.x, y: self.y + other.y, z: self.z + other.z }
    }

    /// The mathematical dot product of two vectors.
    pub open spec fn spec_dot(self, other: Vec3Fx) -> int {
        self.x * other.x + self.y * other.y + self.z * other.z
    }

    /// Exact dot product, computed in 128-bit arithmetic.
    pub fn dot(self, other: Vec3Fx) -> (r: i128)
        requires
            self.in_range(DOT_CAP as int),
            other.in_range(DOT_CAP as int),
        ensures
            r == self.spec_dot(other),
    {
        proof {
            lemma_abs_mul_le(self.x as int, other.x as int, DOT_CAP as int);
            lemma_abs_mul_le(self.y as int, other.y as int, DOT_CAP as int);
            lemma_abs_mul_le(self.z as int, other.z as int, DOT_CAP as int);
        }
        (self.x as i128) * (other.x as i128) + (self.y as i128) * (other.y as i128) + (
        self.z as i128) * (other.z as i128)
    }

    /// Exact squared Euclidean norm.
    pub fn norm_sq(self) -> (r: i128)
        requires
            self.in_range(DOT_CAP as int),
        ensures
            r == self.spec_dot(self),
            r >= 0,
    {
        let r = self.dot(self);
        proof {
            lemma_square_nonneg(self.x as int);
            lemma_square_nonneg(self.y as int);
            lemma_square_nonneg(self.z as int);
        }
        r
    }
}

/// `|a * b| <= c * c` when both factors have magnitude at most `c`.
pub proof fn lemma_abs_mul_le(a: int, b: int, c: int)
    requires
        -c <= a <= c,
        -c <= b <= c,
    ensures
        -(c * c) <= a * b <= c * c,
{
    assert(-(c * c) <= a * b <= c * c) by (nonlinear_arith)
        requires
            -c <= a <= c,
            -c <= b <= c;
}

/// A square is never negative.
pub proof fn lemma_square_nonneg(a: int)
    ensures
        a * a >= 0,
{
    assert(a * a >= 0) by (nonlinear_arith);
}

/// Floor division: the unique `q` with `b * q <= a < b * (q + 1)`.
pub fn floor_div(a: i64, b: i64) -> (q: i64)
    requires
        b > 0,
    ensures
        q == a as int / b as int,
        b * q <= a < b * (q + 1),
{
    let r = a.checked_div_euclid(b);
    proof {
        lemma_fundamental_div_mod(a as int, b as int);
        lemma_mod_bound(a as int, b as int);
        // Euclidean division of an i64 by a positive i64 stays in range.
        assert(i64::MIN <= a as int / b as int <= i64::MAX) by (nonlinear_arith)
            requires
                b > 0,
                i64::MIN <= a <= i64::MAX,
                a == b * (a as int / b as int) + a as int % b as int,
                0 <= (a as int % b as int) < b as int;
    }
    let q = match r {
        Some(q) => q,
        None => {
            proof {
                assert(false);
            }
            0
        },
    };
    proof {
        lemma_fundamental_div_mod(a as int, b as int);
        lemma_mod_bound(a as int, b as int);
        assert(b * q <= a < b * (q + 1)) by (nonlinear_arith)
            requires
                b > 0,
                q == a as int / b as int,
                a == b * (a as int / b as int) + a as int % b as int,
                0 <= (a as int % b as int) < b as int;
    }
    q
}

/// The voxel lattice index of a point: componentwise floor division by the
/// voxel edge length.
pub open spec fn spec_voxel_index(p: Vec3Fx, voxel_size: i64) -> Vec3Fx
    recommends
        voxel_size > 0,
{
    Vec3Fx {
        x: (p.x as int / voxel_size as int) as i64,
        y: (p.y as int / voxel_size as int) as i64,
        z: (p.z as int / voxel_size as int) as i64,
    }
}

/// Compute the voxel index of a point. Two points get the same index
/// exactly when they lie in the same axis-aligned voxel of edge
/// `voxel_size`.
pub fn voxel_index(p: Vec3Fx, voxel_size: i64) -> (r: Vec3Fx)
    requires
        voxel_size > 0,
        p.in_range(COORD_CAP as int),
    ensures
        r == spec_voxel_index(p, voxel_size),
        voxel_size * r.x <= p.x < voxel_size * (r.x + 1),
        voxel_size * r.y <= p.y < voxel_size * (r.y + 1),
        voxel_size * r.z <= p.z < voxel_size * (r.z + 1),
        r.in_range(COORD_CAP as int),
{
    let ix = floor_div(p.x, voxel_size);
    let iy = floor_div(p.y, voxel_size);
    let iz = floor_div(p.z, voxel_size);
    proof {
        lemma_floor_div_in_cap(p.x as int, voxel_size as int, COORD_CAP as int);
        lemma_floor_div_in_cap(p.y as int, voxel_size as int, COORD_CAP as int);
        lemma_floor_div_in_cap(p.z as int, voxel_size as int, COORD_CAP as int);
    }
    Vec3Fx { x: ix, y: iy, z: iz }
}

/// Floor division by a positive divisor does not grow the magnitude.
proof fn lemma_floor_div_in_cap(a: int, b: int, cap: int)
    requires
        b > 0,
        cap >= 0,
        -cap <= a <= cap,
    ensures
        -cap <= a / b <= cap,
{
    lemma_fundamental_div_mod(a, b);
    lemma_mod_bound(a, b);
    assert(-cap <= a / b <= cap) by (nonlinear_arith)
        requires
            b > 0,
            cap >= 0,
            -cap <= a <= cap,
            a == b * (a / b) + a % b,
            0 <= (a % b) < b;
}

/// A point lies between the walls of the voxel its index names.
pub proof fn lemma_voxel_walls(p: Vec3Fx, voxel_size: i64, idx: Vec3Fx)
    requires
        voxel_size > 0,
        p.in_range(COORD_CAP as int),
        idx == spec_voxel_index(p, voxel_size),
    ensures
        voxel_size * idx.x <= p.x < voxel_size * (idx.x + 1),
        voxel_size * idx.y <= p.y < voxel_size * (idx.y + 1),
        voxel_size * idx.z <= p.z < voxel_size * (idx.z + 1),
        idx.in_range(COORD_CAP as int),
{
    lemma_floor_div_in_cap(p.x as int, voxel_size as int, COORD_CAP as int);
    lemma_floor_div_in_cap(p.y as int, voxel_size as int, COORD_CAP as int);
    lemma_floor_div_in_cap(p.z as int, voxel_size as int, COORD_CAP as int);
    lemma_walls_axis(p.x as int, voxel_size as int);
    lemma_walls_axis(p.y as int, voxel_size as int);
    lemma_walls_axis(p.z as int, voxel_size as int);
}

/// The division walls of one axis.
proof fn lemma_walls_axis(a: int, b: int)
    requires
        b > 0,
    ensures
        b * (a / b) <= a < b * (a / b + 1),
{
    lemma_fundamental_div_mod(a, b);
    lemma_mod_bound(a, b);
    assert(b * (a / b) <= a < b * (a / b + 1)) by (nonlinear_arith)
        requires
            b > 0,
            a == b * (a / b) + (a % b),
            0 <= (a % b) < b;
}

/// Whether a voxel index is small enough to pack into a `u64` key.
pub open spec fn spec_packable(idx: Vec3Fx) -> bool {
    -IDX_CAP < idx.x < IDX_CAP && -IDX_CAP < idx.y < IDX_CAP && -IDX_CAP < idx.z < IDX_CAP
}

pub fn packable(idx: Vec3Fx) -> (r: bool)
    ensures
        r == spec_packable(idx),
{
    -IDX_CAP < idx.x && idx.x < IDX_CAP && -IDX_CAP < idx.y && idx.y < IDX_CAP && -IDX_CAP < idx.z
        && idx.z < IDX_CAP
}

/// The packed `u64` key of a voxel index: the three shifted coordinates as
/// digits in base `PACK_BASE`.
pub open spec fn spec_pack_index(idx: Vec3Fx) -> u64
    recommends
        spec_packable(idx),
{
    (((idx.x + IDX_CAP) * (PACK_BASE as int) * (PACK_BASE as int)) + ((idx.y + IDX_CAP) * (
    PACK_BASE as int)) + (idx.z + IDX_CAP)) as u64
}

/// Pack a voxel index into its `u64` map key.
pub fn pack_index(idx: Vec3Fx) -> (r: u64)
    requires
        spec_packable(idx),
    ensures
        r == spec_pack_index(idx),
{
    let dx = (idx.x + IDX_CAP) as u64;
    let dy = (idx.y + IDX_CAP) as u64;
    let dz = (idx.z + IDX_CAP) as u64;
    proof {
        assert(dx * PACK_BASE * PACK_BASE + dy * PACK_BASE + dz < 0x10000000000000000)
            by (nonlinear_arith)
            requires
                dx < 2 * IDX_CAP,
                dy < 2 * IDX_CAP,
                dz < 2 * IDX_CAP,
                PACK_BASE == 2 * IDX_CAP,
                IDX_CAP == 1048576;
    }
    dx * PACK_BASE * PACK_BASE + dy * PACK_BASE + dz
}

/// Packing is injective: two packable voxel indices with the same key are
/// the same index. Distinct voxels therefore never share a map entry.
pub proof fn lemma_pack_index_injective(a: Vec3Fx, b: Vec3Fx)
    requires
        spec_packable(a),
        spec_packable(b),
        spec_pack_index(a) == spec_pack_index(b),
    ensures
        a.x == b.x && a.y == b.y && a.z == b.z,
{
    let base = PACK_BASE as int;
    let ax = a.x + IDX_CAP;
    let ay = a.y + IDX_CAP;
    let az = a.z + IDX_CAP;
    let bx = b.x + IDX_CAP;
    let by = b.y + IDX_CAP;
    let bz = b.z + IDX_CAP;
    let va = ax * base * base + ay * base + az;
    let vb = bx * base * base + by * base + bz;
    assert(ax * base * base + ay * base + az == (ax * base + ay) * base + az)
        by (nonlinear_arith);
    assert(bx * base * base + by * base + bz == (bx * base + by) * base + bz)
        by (nonlinear_arith);
    assert(0 <= va < 0x10000000000000000) by (nonlinear_arith)
        requires
            va == ax * base * base + ay * base + az,
            0 <= ax < base,
            0 <= ay < base,
            0 <= az < base,
            base == 2097152;
    assert(0 <= vb < 0x10000000000000000) by (nonlinear_arith)
        requires
            vb == bx * base * base + by * base + bz,
            0 <= bx < base,
            0 <= by < base,
            0 <= bz < base,
            base == 2097152;
    assert(va == vb);
    assert(0 <= ax * base + ay) by (nonlinear_arith)
        requires
            0 <= ax,
            0 <= ay,
            base > 0;
    assert(0 <= bx * base + by) by (nonlinear_arith)
        requires
            0 <= bx,
            0 <= by,
            base > 0;
    lemma_fundamental_div_mod_converse(va, base, ax * base + ay, az);
    lemma_fundamental_div_mod_converse(vb, base, bx * base + by, bz);
    assert(ax * base + ay == bx * base + by);
    assert(az == bz);
    lemma_fundamental_div_mod_converse(ax * base + ay, base, ax, ay);
    lemma_fundamental_div_mod_converse(bx * base + by, base, bx, by);
    assert(ax == bx);
    assert(ay == by);
}

} // verus!
