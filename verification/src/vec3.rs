//! Three-component vectors over fixed-point scalars, with an exactly
//! specified dot product and normalization.
use crate::fixed::{
    div_trunc_i128, isqrt_u128, lemma_mul_abs_le, lemma_sqrt_floor, lemma_tdiv_le,
    lemma_tdiv_pos_bounds, sqrt_floor, tdiv, SCALE,
};
use vstd::prelude::*;

verus! {

/// Largest coordinate magnitude the geometry routines accept; every value the
/// camera pipeline produces stays well inside it, and it keeps all squared
/// sums inside `i128`.
pub const COORD_MAX: i64 = 200_000_000_000_000_000;

#[derive(Clone, Copy, Debug, PartialEq, Eq, Structural)]
pub struct Vec3 {
    pub x: i64,
    pub y: i64,
    pub z: i64,
}

/// Every component of `v` lies in `[-m, m]`.
pub open spec fn vec3_bounded(v: Vec3, m: int) -> bool {
    &&& -m <= v.x <= m
    &&& -m <= v.y <= m
    &&& -m <= v.z <= m
}

impl Vec3 {
    pub fn new(x: i64, y: i64, z: i64) -> (r: Vec3)
        ensures
            r == (Vec3 { x, y, z }),
    {
        Vec3 { x, y, z }
    }

    /// The squared Euclidean norm in squared fixed-point units.
    pub open spec fn sq_norm(self) -> int {
        self.x * self.x + self.y * self.y + self.z * self.z
    }

    /// Componentwise difference.
    pub fn sub(self, o: Vec3) -> (r: Vec3)
        requires
            -i64::MAX <= self.x - o.x <= i64::MAX,
            -i64::MAX <= self.y - o.y <= i64::MAX,
            -i64::MAX <= self.z - o.z <= i64::MAX,
        ensures
            r == (Vec3 { x: (self.x - o.x) as i64, y: (self.y - o.y) as i64, z: (self.z - o.z) as i64 }),
    {
        Vec3 { x: self.x - o.x, y: self.y - o.y, z: self.z - o.z }
    }

    /// The fixed-point dot product of `self` and `o`.
    pub open spec fn spec_dot(self, o: Vec3) -> int {
        tdiv(self.x * o.x + self.y * o.y + self.z * o.z, SCALE as int)
    }

    /// Fixed-point dot product; the coordinate bound keeps the scaled sum of
    /// products within `i64` after rescaling.
    pub fn dot(self, o: Vec3) -> (r: i64)
        requires
            vec3_bounded(self, 2_000_000_000 as int),
            vec3_bounded(o, 2_000_000_000 as int),
        ensures
            r == self.spec_dot(o),
            -12_000_000_000_000 <= r <= 12_000_000_000_000,
    {
        proof {
            lemma_mul_abs_le(self.x as int, o.x as int, 2_000_000_000, 2_000_000_000);
            lemma_mul_abs_le(self.y as int, o.y as int, 2_000_000_000, 2_000_000_000);
            lemma_mul_abs_le(self.z as int, o.z as int, 2_000_000_000, 2_000_000_000);
            lemma_tdiv_le(
                self.x * o.x + self.y * o.y + self.z * o.z,
                SCALE as int,
                12_000_000_000_000,
            );
        }
        let p: i128 = (self.x as i128) * (o.x as i128) + (self.y as i128) * (o.y as i128) + (
        self.z as i128) * (o.z as i128);
        let q: i128 = div_trunc_i128(p, SCALE as i128);
        q as i64
    }

    /// The fixed-point norm: the integer square root of the squared norm.
    pub open spec fn norm_fx(self) -> int {
        sqrt_floor(self.sq_norm() as nat) as int
    }

    /// The normalized vector: each component rescaled by `SCALE / norm`,
    /// truncated toward zero.
    pub open spec fn spec_normalize(self) -> Vec3 {
        let n = self.norm_fx();
        Vec3 {
            x: tdiv(self.x * SCALE, n) as i64,
            y: tdiv(self.y * SCALE, n) as i64,
            z: tdiv(self.z * SCALE, n) as i64,
        }
    }

    /// Normalize a nonzero vector. Components of the result always lie in
    /// `[-SCALE, SCALE]`; for vectors of real length at least one, the result
    /// is a unit vector up to the tolerance of [`lemma_unit_norm_bounds`].
    pub fn normalize(self) -> (r: Vec3)
        requires
            vec3_bounded(self, COORD_MAX as int),
            1 <= self.sq_norm(),
        ensures
            r == self.spec_normalize(),
            r.x == tdiv(self.x * SCALE, self.norm_fx()),
            r.y == tdiv(self.y * SCALE, self.norm_fx()),
            r.z == tdiv(self.z * SCALE, self.norm_fx()),
            vec3_bounded(r, SCALE as int),
    {
        proof {
            lemma_mul_abs_le(self.x as int, self.x as int, COORD_MAX as int, COORD_MAX as int);
            lemma_mul_abs_le(self.y as int, self.y as int, COORD_MAX as int, COORD_MAX as int);
            lemma_mul_abs_le(self.z as int, self.z as int, COORD_MAX as int, COORD_MAX as int);
            assert(0 <= self.x * self.x && 0 <= self.y * self.y && 0 <= self.z * self.z)
                by (nonlinear_arith);
        }
        let q: i128 = (self.x as i128) * (self.x as i128) + (self.y as i128) * (self.y as i128) + (
        self.z as i128) * (self.z as i128);
        let n: u64 = isqrt_u128(q as u128);
        proof {
            lemma_sqrt_floor(q as nat);
            assert(1 <= n) by (nonlinear_arith)
                requires
                    1 <= q,
                    (q as int) < (n as int + 1) * (n as int + 1),
                    0 <= n,
            ;
            lemma_component_in_norm(self.x as int, self.y as int, self.z as int, n as int);
            lemma_tdiv_le(self.x * (SCALE as int), n as int, SCALE as int);
            lemma_tdiv_le(self.y * (SCALE as int), n as int, SCALE as int);
            lemma_tdiv_le(self.z * (SCALE as int), n as int, SCALE as int);
        }
        let rx: i128 = div_trunc_i128((self.x as i128) * (SCALE as i128), n as i128);
        let ry: i128 = div_trunc_i128((self.y as i128) * (SCALE as i128), n as i128);
        let rz: i128 = div_trunc_i128((self.z as i128) * (SCALE as i128), n as i128);
        Vec3 { x: rx as i64, y: ry as i64, z: rz as i64 }
    }
}

/// `spec_normalize` of a bounded nonzero vector equals the componentwise
/// truncated quotients, and its components lie in `[-SCALE, SCALE]`.
pub proof fn lemma_spec_normalize_parts(v: Vec3)
    requires
        vec3_bounded(v, COORD_MAX as int),
        1 <= v.sq_norm(),
    ensures
        v.spec_normalize().x == tdiv(v.x * SCALE, v.norm_fx()),
        v.spec_normalize().y == tdiv(v.y * SCALE, v.norm_fx()),
        v.spec_normalize().z == tdiv(v.z * SCALE, v.norm_fx()),
        vec3_bounded(v.spec_normalize(), SCALE as int),
{
    let q = v.sq_norm();
    let n = v.norm_fx();
    lemma_sqrt_floor(q as nat);
    assert(n * n <= q && q < (n + 1) * (n + 1));
    assert(1 <= n) by (nonlinear_arith)
        requires
            1 <= q,
            q < (n + 1) * (n + 1),
            0 <= n,
    ;
    lemma_component_in_norm(v.x as int, v.y as int, v.z as int, n);
    lemma_tdiv_le(v.x * (SCALE as int), n, SCALE as int);
    lemma_tdiv_le(v.y * (SCALE as int), n, SCALE as int);
    lemma_tdiv_le(v.z * (SCALE as int), n, SCALE as int);
}

/// Each component of a vector is bounded in magnitude by the integer square
/// root `n` of the squared norm.
proof fn lemma_component_in_norm(x: int, y: int, z: int, n: int)
    requires
        0 <= n,
        x * x + y * y + z * z < (n + 1) * (n + 1),
    ensures
        -(SCALE as int) * n <= x * (SCALE as int) <= (SCALE as int) * n,
        -(SCALE as int) * n <= y * (SCALE as int) <= (SCALE as int) * n,
        -(SCALE as int) * n <= z * (SCALE as int) <= (SCALE as int) * n,
{
    assert(-n <= x <= n && -n <= y <= n && -n <= z <= n) by (nonlinear_arith)
        requires
            0 <= n,
            x * x + y * y + z * z < (n + 1) * (n + 1),
    ;
}

/// Normalizing a vector of real length at least one yields a direction whose
/// squared norm differs from one by less than `6 / SCALE`: the fixed-point
/// analogue of "the direction is a unit vector up to floating-point
/// tolerance".
pub proof fn lemma_unit_norm_bounds(d: Vec3, u: Vec3)
    requires
        (SCALE as int) * (SCALE as int) <= d.sq_norm(),
        u.x == tdiv(d.x * SCALE, d.norm_fx()),
        u.y == tdiv(d.y * SCALE, d.norm_fx()),
        u.z == tdiv(d.z * SCALE, d.norm_fx()),
    ensures
        (SCALE as int) * (SCALE as int) - 6 * (SCALE as int) <= u.sq_norm() <= (SCALE as int) * (
        SCALE as int) + 3 * (SCALE as int),
{
    let s = SCALE as int;
    let q = d.sq_norm();
    let n = d.norm_fx();
    lemma_sqrt_floor(q as nat);
    assert(n * n <= q && q < (n + 1) * (n + 1));
    assert(s <= n) by (nonlinear_arith)
        requires
            s * s <= q,
            q < (n + 1) * (n + 1),
            0 <= n,
            1 <= s,
    ;
    let ex = if d.x * s >= 0 { d.x * s } else { -(d.x * s) };
    let ey = if d.y * s >= 0 { d.y * s } else { -(d.y * s) };
    let ez = if d.z * s >= 0 { d.z * s } else { -(d.z * s) };
    lemma_unit_component_sq(d.x as int, n, s, u.x as int, ex);
    lemma_unit_component_sq(d.y as int, n, s, u.y as int, ey);
    lemma_unit_component_sq(d.z as int, n, s, u.z as int, ez);
    lemma_component_in_norm(d.x as int, d.y as int, d.z as int, n);
    // Upper bound: sum the componentwise bounds and divide out n * n.
    assert(u.sq_norm() * (n * n) <= s * s * q) by (nonlinear_arith)
        requires
            u.x * u.x * (n * n) <= d.x * d.x * (s * s),
            u.y * u.y * (n * n) <= d.y * d.y * (s * s),
            u.z * u.z * (n * n) <= d.z * d.z * (s * s),
            q == d.x * d.x + d.y * d.y + d.z * d.z,
            u.sq_norm() == u.x * u.x + u.y * u.y + u.z * u.z,
    ;
    assert(u.sq_norm() <= s * s + 3 * s) by (nonlinear_arith)
        requires
            u.sq_norm() * (n * n) <= s * s * q,
            q < (n + 1) * (n + 1),
            s <= n,
            1000000 <= s,
    ;
    // Lower bound: each |d_i| * s is at most s * n, so truncation loses at
    // most 2 * s * n * n per component.
    assert(u.sq_norm() * (n * n) >= s * s * q - 2 * n * (ex + ey + ez)) by (nonlinear_arith)
        requires
            u.x * u.x * (n * n) >= d.x * d.x * (s * s) - 2 * ex * n,
            u.y * u.y * (n * n) >= d.y * d.y * (s * s) - 2 * ey * n,
            u.z * u.z * (n * n) >= d.z * d.z * (s * s) - 2 * ez * n,
            q == d.x * d.x + d.y * d.y + d.z * d.z,
            u.sq_norm() == u.x * u.x + u.y * u.y + u.z * u.z,
    ;
    assert(2 * n * (ex + ey + ez) <= 6 * (n * n) * s) by (nonlinear_arith)
        requires
            0 <= ex <= s * n,
            0 <= ey <= s * n,
            0 <= ez <= s * n,
            1 <= n,
            1 <= s,
    ;
    assert(u.sq_norm() * (n * n) >= s * s * q - 6 * (n * n) * s);
    assert(u.sq_norm() >= s * s - 6 * s) by (nonlinear_arith)
        requires
            u.sq_norm() * (n * n) >= s * s * q - 6 * (n * n) * s,
            n * n <= q,
            1 <= n,
            1 <= s,
    ;
}

/// Componentwise truncation bounds used by [`lemma_unit_norm_bounds`]:
/// `u = tdiv(d * s, n)` squares to within `2 * |d * s| * n` of the exact
/// quotient's square, scaled by `n * n`.
proof fn lemma_unit_component_sq(d: int, n: int, s: int, u: int, e: int)
    requires
        1 <= n,
        1 <= s,
        u == tdiv(d * s, n),
        e == if d * s >= 0 { d * s } else { -(d * s) },
    ensures
        u * u * (n * n) <= d * d * (s * s),
        u * u * (n * n) >= d * d * (s * s) - 2 * e * n,
{
    lemma_tdiv_pos_bounds(e, n);
    let w = tdiv(e, n);
    assert(w * n <= e && e < (w + 1) * n && 0 <= w);
    assert(u == w || u == -w);
    assert(u * u == w * w) by (nonlinear_arith)
        requires
            u == w || u == -w,
    ;
    assert(w * w * (n * n) <= e * e) by (nonlinear_arith)
        requires
            0 <= w,
            1 <= n,
            w * n <= e,
    ;
    assert(w * w * (n * n) >= e * e - 2 * e * n) by (nonlinear_arith)
        requires
            0 <= w,
            1 <= n,
            0 <= e,
            w * n <= e,
            e < (w + 1) * n,
    ;
    assert(e * e == d * d * (s * s)) by (nonlinear_arith)
        requires
            e == if d * s >= 0 { d * s } else { -(d * s) },
    ;
}

} // verus!
