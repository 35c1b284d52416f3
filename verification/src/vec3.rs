//! Three-component vectors over fixed-point scalars.
//!
//! Every geometric operation is stated exactly over `V3`, the mathematical
//! image of a vector: three unbounded integers counting 1/65536ths, combined
//! with the same floor-rounded, saturating arithmetic the executable code
//! performs.

use vstd::prelude::*;
use crate::fx::{Fx, FX_ONE, sat64, fmul, fquot, fsqrt, lemma_sqrt_floor};

verus! {

/// The mathematical image of a `Vec3`: raw component counts as integers.
pub struct V3 {
    pub x: int,
    pub y: int,
    pub z: int,
}

/// Componentwise sum.
pub open spec fn v3_add(a: V3, b: V3) -> V3 {
    V3 { x: sat64(a.x + b.x), y: sat64(a.y + b.y), z: sat64(a.z + b.z) }
}

/// Componentwise difference.
pub open spec fn v3_sub(a: V3, b: V3) -> V3 {
    V3 { x: sat64(a.x - b.x), y: sat64(a.y - b.y), z: sat64(a.z - b.z) }
}

/// Componentwise negation.
pub open spec fn v3_neg(a: V3) -> V3 {
    V3 { x: sat64(-a.x), y: sat64(-a.y), z: sat64(-a.z) }
}

/// Componentwise product.
pub open spec fn v3_mul(a: V3, b: V3) -> V3 {
    V3 { x: fmul(a.x, b.x), y: fmul(a.y, b.y), z: fmul(a.z, b.z) }
}

/// Scaling by a scalar.
pub open spec fn v3_scale(a: V3, k: int) -> V3 {
    V3 { x: fmul(a.x, k), y: fmul(a.y, k), z: fmul(a.z, k) }
}

/// Division by a positive scalar.
pub open spec fn v3_quot(a: V3, k: int) -> V3 {
    V3 { x: fquot(a.x, k), y: fquot(a.y, k), z: fquot(a.z, k) }
}

/// The dot product: three scaled products, summed, saturated once.
pub open spec fn dot_s(a: V3, b: V3) -> int {
    sat64(fmul(a.x, b.x) + fmul(a.y, b.y) + fmul(a.z, b.z))
}

/// Squared length.
pub open spec fn len_sq_s(a: V3) -> int {
    dot_s(a, a)
}

/// Length: the fixed-point square root of the squared length.
pub open spec fn len_s(a: V3) -> int {
    fsqrt(len_sq_s(a))
}

/// The unit vector: each component divided by the length.
pub open spec fn unit_s(a: V3) -> V3 {
    v3_quot(a, len_s(a))
}

/// Degenerate at this resolution: every component rounds to zero, so the
/// direction carries no information (the 1e-8 threshold lies below one step).
pub open spec fn near_zero_s(a: V3) -> bool {
    a.x == 0 && a.y == 0 && a.z == 0
}

/// The cross product.
pub open spec fn cross_s(a: V3, b: V3) -> V3 {
    V3 {
        x: sat64(fmul(a.y, b.z) - fmul(a.z, b.y)),
        y: sat64(fmul(a.z, b.x) - fmul(a.x, b.z)),
        z: sat64(fmul(a.x, b.y) - fmul(a.y, b.x)),
    }
}

/// Mirror reflection about a normal: `v - n * (v . n) * 2`.
pub open spec fn reflect_s(v: V3, n: V3) -> V3 {
    v3_sub(v, v3_scale(v3_scale(n, dot_s(v, n)), 2 * FX_ONE as int))
}

/// Snell refraction of a unit direction `uv` at a normal `n` with relative
/// index `eta`: perpendicular and parallel decomposition, the parallel
/// radicand `1 - |r_perp|^2` floored at zero against rounding and
/// past-critical inputs.
pub open spec fn refract_s(uv: V3, n: V3, eta: int) -> V3 {
    let cos_theta = if dot_s(v3_neg(uv), n) <= FX_ONE as int {
        dot_s(v3_neg(uv), n)
    } else {
        FX_ONE as int
    };
    let r_out_perp = v3_scale(v3_add(v3_scale(n, cos_theta), uv), eta);
    let t = sat64(FX_ONE as int - len_sq_s(r_out_perp));
    let t_floor = if t >= 0 { t } else { 0 };
    let r_out_parallel = v3_scale(n, sat64(-fsqrt(t_floor)));
    v3_add(r_out_perp, r_out_parallel)
}

/// A scaled product whose integer product is a whole multiple of a step is
/// computed exactly, with no saturation, when the product is moderate.
proof fn lemma_fmul_exact(a: int, b: int)
    requires
        (a * b) % (FX_ONE as int) == 0,
        -0x4000_0000_0000_0000 <= a * b <= 0x4000_0000_0000_0000,
    ensures
        fmul(a, b) == (a * b) / (FX_ONE as int),
        (FX_ONE as int) * fmul(a, b) == a * b,
        -0x4000_0000_0000 <= fmul(a, b) <= 0x4000_0000_0000,
{
    let s = FX_ONE as int;
    let p = a * b;
    let q = p / s;
    vstd::arithmetic::div_mod::lemma_fundamental_div_mod(p, s);
    assert(-0x4000_0000_0000 <= q <= 0x4000_0000_0000) by (nonlinear_arith)
        requires
            s * q == p,
            s == 65536,
            -0x4000_0000_0000_0000 <= p <= 0x4000_0000_0000_0000,
    ;
}

/// Reflecting twice about the same unit normal returns the original vector.
///
/// The law holds of the exact reflection; rounding can disturb it by a
/// fractional step, so it is stated for the inputs on which the fixed-point
/// computation is exact: the normal's raw squares sum to exactly one unit,
/// the vector is of moderate size, and each product the reflection scales
/// down is a whole multiple of a step.  Axis-aligned unit normals satisfy
/// every divisibility condition for every vector.
pub proof fn lemma_reflect_involutive(v: V3, n: V3)
    requires
        n.x * n.x + n.y * n.y + n.z * n.z == (FX_ONE as int) * (FX_ONE as int),
        -0x100_0000_0000 <= v.x <= 0x100_0000_0000,
        -0x100_0000_0000 <= v.y <= 0x100_0000_0000,
        -0x100_0000_0000 <= v.z <= 0x100_0000_0000,
        (v.x * n.x) % (FX_ONE as int) == 0,
        (v.y * n.y) % (FX_ONE as int) == 0,
        (v.z * n.z) % (FX_ONE as int) == 0,
        (n.x * dot_s(v, n)) % (FX_ONE as int) == 0,
        (n.y * dot_s(v, n)) % (FX_ONE as int) == 0,
        (n.z * dot_s(v, n)) % (FX_ONE as int) == 0,
        (fmul(n.x, dot_s(v, n)) * n.x) % (FX_ONE as int) == 0,
        (fmul(n.y, dot_s(v, n)) * n.y) % (FX_ONE as int) == 0,
        (fmul(n.z, dot_s(v, n)) * n.z) % (FX_ONE as int) == 0,
    ensures
        reflect_s(reflect_s(v, n), n) == v,
{
    let s = FX_ONE as int;
    assert(n.x * n.x >= 0 && n.y * n.y >= 0 && n.z * n.z >= 0) by (nonlinear_arith);
    assert(-s <= n.x <= s && -s <= n.y <= s && -s <= n.z <= s) by (nonlinear_arith)
        requires
            n.x * n.x + n.y * n.y + n.z * n.z == s * s,
            n.x * n.x >= 0,
            n.y * n.y >= 0,
            n.z * n.z >= 0,
            s == 65536,
    ;
    let bb = 0x100_0000_0000int;
    assert(-bb * s <= v.x * n.x <= bb * s && -bb * s <= v.y * n.y <= bb * s && -bb * s <= v.z
        * n.z <= bb * s) by (nonlinear_arith)
        requires
            -bb <= v.x <= bb,
            -bb <= v.y <= bb,
            -bb <= v.z <= bb,
            -s <= n.x <= s,
            -s <= n.y <= s,
            -s <= n.z <= s,
    ;
    lemma_fmul_exact(v.x, n.x);
    lemma_fmul_exact(v.y, n.y);
    lemma_fmul_exact(v.z, n.z);
    let px = fmul(v.x, n.x);
    let py = fmul(v.y, n.y);
    let pz = fmul(v.z, n.z);
    assert(-bb <= px <= bb && -bb <= py <= bb && -bb <= pz <= bb) by (nonlinear_arith)
        requires
            s == 65536,
            s * px == v.x * n.x,
            s * py == v.y * n.y,
            s * pz == v.z * n.z,
            -bb * s <= v.x * n.x <= bb * s,
            -bb * s <= v.y * n.y <= bb * s,
            -bb * s <= v.z * n.z <= bb * s,
            bb == 0x100_0000_0000,
    ;
    let d1 = dot_s(v, n);
    assert(d1 == px + py + pz);
    assert(-(3 * bb) * s <= n.x * d1 <= (3 * bb) * s && -(3 * bb) * s <= n.y * d1 <= (3 * bb) * s
        && -(3 * bb) * s <= n.z * d1 <= (3 * bb) * s) by (nonlinear_arith)
        requires
            -(3 * bb) <= d1 <= 3 * bb,
            -s <= n.x <= s,
            -s <= n.y <= s,
            -s <= n.z <= s,
    ;
    lemma_fmul_exact(n.x, d1);
    lemma_fmul_exact(n.y, d1);
    lemma_fmul_exact(n.z, d1);
    let kx = fmul(n.x, d1);
    let ky = fmul(n.y, d1);
    let kz = fmul(n.z, d1);
    assert((kx * (2 * s)) % s == 0 && fmul(kx, 2 * s) == 2 * kx) by {
        assert(kx * (2 * s) == s * (2 * kx)) by (nonlinear_arith);
        vstd::arithmetic::div_mod::lemma_fundamental_div_mod_converse(kx * (2 * s), s, 2 * kx, 0);
    }
    assert((ky * (2 * s)) % s == 0 && fmul(ky, 2 * s) == 2 * ky) by {
        assert(ky * (2 * s) == s * (2 * ky)) by (nonlinear_arith);
        vstd::arithmetic::div_mod::lemma_fundamental_div_mod_converse(ky * (2 * s), s, 2 * ky, 0);
    }
    assert((kz * (2 * s)) % s == 0 && fmul(kz, 2 * s) == 2 * kz) by {
        assert(kz * (2 * s) == s * (2 * kz)) by (nonlinear_arith);
        vstd::arithmetic::div_mod::lemma_fundamental_div_mod_converse(kz * (2 * s), s, 2 * kz, 0);
    }
    let r1 = reflect_s(v, n);
    assert(r1.x == v.x - 2 * kx && r1.y == v.y - 2 * ky && r1.z == v.z - 2 * kz);

    // The second pass: the products with the normal stay whole multiples.
    let mx = fmul(kx, n.x);
    let my = fmul(ky, n.y);
    let mz = fmul(kz, n.z);
    assert(kx * n.x == fmul(n.x, d1) * n.x);
    assert(-(3 * bb) <= kx <= 3 * bb && -(3 * bb) <= ky <= 3 * bb && -(3 * bb) <= kz <= 3 * bb)
        by (nonlinear_arith)
        requires
            s == 65536,
            s * kx == n.x * d1,
            s * ky == n.y * d1,
            s * kz == n.z * d1,
            -(3 * bb) * s <= n.x * d1 <= (3 * bb) * s,
            -(3 * bb) * s <= n.y * d1 <= (3 * bb) * s,
            -(3 * bb) * s <= n.z * d1 <= (3 * bb) * s,
            bb == 0x100_0000_0000,
    ;
    assert(-(3 * bb) * s <= kx * n.x <= (3 * bb) * s && -(3 * bb) * s <= ky * n.y <= (3 * bb) * s
        && -(3 * bb) * s <= kz * n.z <= (3 * bb) * s) by (nonlinear_arith)
        requires
            -(3 * bb) <= kx <= 3 * bb,
            -(3 * bb) <= ky <= 3 * bb,
            -(3 * bb) <= kz <= 3 * bb,
            -s <= n.x <= s,
            -s <= n.y <= s,
            -s <= n.z <= s,
    ;
    lemma_fmul_exact(kx, n.x);
    lemma_fmul_exact(ky, n.y);
    lemma_fmul_exact(kz, n.z);
    assert(r1.x * n.x == v.x * n.x - 2 * (kx * n.x)) by (nonlinear_arith)
        requires
            r1.x == v.x - 2 * kx,
    ;
    assert(r1.y * n.y == v.y * n.y - 2 * (ky * n.y)) by (nonlinear_arith)
        requires
            r1.y == v.y - 2 * ky,
    ;
    assert(r1.z * n.z == v.z * n.z - 2 * (kz * n.z)) by (nonlinear_arith)
        requires
            r1.z == v.z - 2 * kz,
    ;
    assert(fmul(r1.x, n.x) == px - 2 * mx) by {
        assert(r1.x * n.x == s * (px - 2 * mx)) by (nonlinear_arith)
            requires
                r1.x * n.x == v.x * n.x - 2 * (kx * n.x),
                v.x * n.x == s * px,
                kx * n.x == s * mx,
        ;
        vstd::arithmetic::div_mod::lemma_fundamental_div_mod_converse(r1.x * n.x, s, px - 2 * mx, 0);
    }
    assert(fmul(r1.y, n.y) == py - 2 * my) by {
        assert(r1.y * n.y == s * (py - 2 * my)) by (nonlinear_arith)
            requires
                r1.y * n.y == v.y * n.y - 2 * (ky * n.y),
                v.y * n.y == s * py,
                ky * n.y == s * my,
        ;
        vstd::arithmetic::div_mod::lemma_fundamental_div_mod_converse(r1.y * n.y, s, py - 2 * my, 0);
    }
    assert(fmul(r1.z, n.z) == pz - 2 * mz) by {
        assert(r1.z * n.z == s * (pz - 2 * mz)) by (nonlinear_arith)
            requires
                r1.z * n.z == v.z * n.z - 2 * (kz * n.z),
                v.z * n.z == s * pz,
                kz * n.z == s * mz,
        ;
        vstd::arithmetic::div_mod::lemma_fundamental_div_mod_converse(r1.z * n.z, s, pz - 2 * mz, 0);
    }
    let d2 = dot_s(r1, n);
    assert(mx + my + mz == d1) by (nonlinear_arith)
        requires
            s * kx == n.x * d1,
            s * ky == n.y * d1,
            s * kz == n.z * d1,
            s * mx == kx * n.x,
            s * my == ky * n.y,
            s * mz == kz * n.z,
            n.x * n.x + n.y * n.y + n.z * n.z == s * s,
            s == 65536,
    ;
    assert(d2 == -d1);
    assert(fmul(n.x, d2) == -kx) by {
        assert(n.x * d2 == s * (-kx)) by (nonlinear_arith)
            requires
                d2 == -d1,
                s * kx == n.x * d1,
        ;
        vstd::arithmetic::div_mod::lemma_fundamental_div_mod_converse(n.x * d2, s, -kx, 0);
    }
    assert(fmul(n.y, d2) == -ky) by {
        assert(n.y * d2 == s * (-ky)) by (nonlinear_arith)
            requires
                d2 == -d1,
                s * ky == n.y * d1,
        ;
        vstd::arithmetic::div_mod::lemma_fundamental_div_mod_converse(n.y * d2, s, -ky, 0);
    }
    assert(fmul(n.z, d2) == -kz) by {
        assert(n.z * d2 == s * (-kz)) by (nonlinear_arith)
            requires
                d2 == -d1,
                s * kz == n.z * d1,
        ;
        vstd::arithmetic::div_mod::lemma_fundamental_div_mod_converse(n.z * d2, s, -kz, 0);
    }
    assert((-kx * (2 * s)) % s == 0 && fmul(-kx, 2 * s) == 2 * -kx) by {
        assert(-kx * (2 * s) == s * (2 * -kx)) by (nonlinear_arith);
        vstd::arithmetic::div_mod::lemma_fundamental_div_mod_converse(-kx * (2 * s), s, 2 * -kx, 0);
    }
    assert((-ky * (2 * s)) % s == 0 && fmul(-ky, 2 * s) == 2 * -ky) by {
        assert(-ky * (2 * s) == s * (2 * -ky)) by (nonlinear_arith);
        vstd::arithmetic::div_mod::lemma_fundamental_div_mod_converse(-ky * (2 * s), s, 2 * -ky, 0);
    }
    assert((-kz * (2 * s)) % s == 0 && fmul(-kz, 2 * s) == 2 * -kz) by {
        assert(-kz * (2 * s) == s * (2 * -kz)) by (nonlinear_arith);
        vstd::arithmetic::div_mod::lemma_fundamental_div_mod_converse(-kz * (2 * s), s, 2 * -kz, 0);
    }
    let r2 = reflect_s(r1, n);
    assert(r2.x == v.x && r2.y == v.y && r2.z == v.z);
}

/// A product of a scalar with itself, scaled down and saturated, is nonnegative.
proof fn lemma_fmul_self_nonneg(t: int)
    ensures
        fmul(t, t) >= 0,
{
    assert(t * t >= 0) by (nonlinear_arith);
    if t * t > 0 {
        vstd::arithmetic::div_mod::lemma_div_pos_is_pos(t * t, FX_ONE as int);
    } else {
        vstd::arithmetic::div_mod::lemma_div_of0(FX_ONE as int);
    }
}

/// Squared lengths are nonnegative.
pub proof fn lemma_len_sq_nonneg(a: V3)
    ensures
        0 <= len_sq_s(a) <= i64::MAX as int,
{
    lemma_fmul_self_nonneg(a.x);
    lemma_fmul_self_nonneg(a.y);
    lemma_fmul_self_nonneg(a.z);
}

/// A direction obtained by normalising some admissible sphere sample: a
/// vector with components within one unit whose squared length reaches at
/// least a quarter unit and stays below one.
pub open spec fn is_unit_sample(u: V3) -> bool {
    exists|p: V3|
        -(FX_ONE as int) <= p.x <= FX_ONE as int && -(FX_ONE as int) <= p.y <= FX_ONE as int && -(
        FX_ONE as int) <= p.z <= FX_ONE as int && 16384 <= #[trigger] len_sq_s(p) < FX_ONE as int
            && u == unit_s(p)
}

/// The components of a normalised sample stay moderate: each is a rounded
/// quotient of values no larger than one unit by a length of at least one
/// step.
pub proof fn lemma_unit_sample_component_bounds(u: V3)
    requires
        is_unit_sample(u),
    ensures
        -0x1_0001_0000 <= u.x <= 0x1_0001_0000,
        -0x1_0001_0000 <= u.y <= 0x1_0001_0000,
        -0x1_0001_0000 <= u.z <= 0x1_0001_0000,
{
    let p = choose|p: V3|
        -(FX_ONE as int) <= p.x <= FX_ONE as int && -(FX_ONE as int) <= p.y <= FX_ONE as int && -(
        FX_ONE as int) <= p.z <= FX_ONE as int && 16384 <= #[trigger] len_sq_s(p) < FX_ONE as int
            && u == unit_s(p);
    let s = FX_ONE as int;
    let m = len_sq_s(p);
    lemma_fmul_self_nonneg(p.x);
    lemma_fmul_self_nonneg(p.y);
    lemma_fmul_self_nonneg(p.z);
    lemma_sqrt_floor(m * s);
    let l = len_s(p);
    assert(l >= 1 && l <= s) by (nonlinear_arith)
        requires
            l >= 0,
            l * l <= m * s,
            m * s < (l + 1) * (l + 1),
            1 <= m < s,
            s == 65536,
    ;
    lemma_unit_sample_quot_bound(p.x, l);
    lemma_unit_sample_quot_bound(p.y, l);
    lemma_unit_sample_quot_bound(p.z, l);
}

/// A normalised admissible sample has squared length within 64 steps of
/// one: the sample is at least half a unit long, so each rounded division
/// and square loses only a handful of steps.
pub proof fn lemma_unit_sample_length(u: V3)
    requires
        is_unit_sample(u),
    ensures
        FX_ONE as int - 64 <= len_sq_s(u) <= FX_ONE as int + 64,
{
    let p = choose|p: V3|
        -(FX_ONE as int) <= p.x <= FX_ONE as int && -(FX_ONE as int) <= p.y <= FX_ONE as int && -(
        FX_ONE as int) <= p.z <= FX_ONE as int && 16384 <= #[trigger] len_sq_s(p) < FX_ONE as int
            && u == unit_s(p);
    lemma_unit_quot_accuracy(p);
}

/// One division step, squared: if `a * 65536 == l * q + w` then the square
/// of `l * q` expands against the square of the scaled component.
proof fn lemma_scaled_square_identity(a: int, l: int, q: int, w: int)
    requires
        a * (FX_ONE as int) == l * q + w,
    ensures
        l * l * (q * q) == (FX_ONE as int) * (FX_ONE as int) * (a * a) - 2 * (FX_ONE as int) * (a
            * w) + w * w,
{
    let s = FX_ONE as int;
    let x = l * q;
    assert(x == a * s - w);
    assert(x * x == l * l * (q * q)) by (nonlinear_arith)
        requires
            x == l * q,
    ;
    assert((a * s - w) * (a * s - w) == s * s * (a * a) - 2 * s * (a * w) + w * w)
        by (nonlinear_arith);
    assert(x * x == (a * s - w) * (a * s - w));
}

/// The core accuracy estimate behind `lemma_unit_sample_length`, stated on
/// the sample itself.
#[verifier::rlimit(80)]
proof fn lemma_unit_quot_accuracy(p: V3)
    requires
        -(FX_ONE as int) <= p.x <= FX_ONE as int,
        -(FX_ONE as int) <= p.y <= FX_ONE as int,
        -(FX_ONE as int) <= p.z <= FX_ONE as int,
        16384 <= len_sq_s(p) < FX_ONE as int,
    ensures
        FX_ONE as int - 64 <= len_sq_s(unit_s(p)) <= FX_ONE as int + 64,
{
    let s = FX_ONE as int;
    let m = len_sq_s(p);

    // The scaled component squares are exact floors of the true squares.
    lemma_fmul_self_nonneg(p.x);
    lemma_fmul_self_nonneg(p.y);
    lemma_fmul_self_nonneg(p.z);
    let f1 = fmul(p.x, p.x);
    let f2 = fmul(p.y, p.y);
    let f3 = fmul(p.z, p.z);
    lemma_square_floor(p.x);
    lemma_square_floor(p.y);
    lemma_square_floor(p.z);
    let cc = p.x * p.x + p.y * p.y + p.z * p.z;
    assert(m == f1 + f2 + f3);
    assert(s * m <= cc < s * m + 3 * s) by (nonlinear_arith)
        requires
            p.x * p.x == s * f1 + (p.x * p.x) % s,
            p.y * p.y == s * f2 + (p.y * p.y) % s,
            p.z * p.z == s * f3 + (p.z * p.z) % s,
            0 <= (p.x * p.x) % s < s,
            0 <= (p.y * p.y) % s < s,
            0 <= (p.z * p.z) % s < s,
            cc == p.x * p.x + p.y * p.y + p.z * p.z,
            m == f1 + f2 + f3,
    ;

    // The length: at least half a unit, below one.
    lemma_sqrt_floor(m * s);
    let l = len_s(p);
    assert(32768 <= l && l < s && l * l <= m * s && m * s <= l * l + 2 * l) by (nonlinear_arith)
        requires
            l >= 0,
            l * l <= m * s,
            m * s < (l + 1) * (l + 1),
            16384 <= m < s,
            s == 65536,
    ;

    // The quotient components and their division remainders.
    let qx = lemma_quot_floor(p.x, l);
    let qy = lemma_quot_floor(p.y, l);
    let qz = lemma_quot_floor(p.z, l);
    let wx = (p.x * s) % l;
    let wy = (p.y * s) % l;
    let wz = (p.z * s) % l;

    // The exact square sum of the quotients, against the sample's,
    // component by component.
    let uu = qx * qx + qy * qy + qz * qz;
    lemma_scaled_square_identity(p.x, l, qx, wx);
    lemma_scaled_square_identity(p.y, l, qy, wy);
    lemma_scaled_square_identity(p.z, l, qz, wz);
    assert(l * l * uu == l * l * (qx * qx) + l * l * (qy * qy) + l * l * (qz * qz))
        by (nonlinear_arith)
        requires
            uu == qx * qx + qy * qy + qz * qz,
    ;
    assert(s * s * cc == s * s * (p.x * p.x) + s * s * (p.y * p.y) + s * s * (p.z * p.z))
        by (nonlinear_arith)
        requires
            cc == p.x * p.x + p.y * p.y + p.z * p.z,
    ;
    assert(2 * s * (p.x * wx + p.y * wy + p.z * wz) == 2 * s * (p.x * wx) + 2 * s * (p.y * wy) + 2
        * s * (p.z * wz)) by (nonlinear_arith);
    assert(l * l * uu == s * s * cc - 2 * s * (p.x * wx + p.y * wy + p.z * wz) + (wx * wx + wy * wy
        + wz * wz));
    assert(-3 * (s * l) <= p.x * wx + p.y * wy + p.z * wz <= 3 * (s * l) && 0 <= wx * wx + wy * wy
        + wz * wz <= 3 * (l * l)) by (nonlinear_arith)
        requires
            -s <= p.x <= s,
            -s <= p.y <= s,
            -s <= p.z <= s,
            0 <= wx < l,
            0 <= wy < l,
            0 <= wz < l,
    ;
    assert(l * l * uu <= (s * s + 48 * s) * (l * l) && l * l * uu >= (s * s - 32 * s) * (l * l))
        by (nonlinear_arith)
        requires
            l * l * uu == s * s * cc - 2 * s * (p.x * wx + p.y * wy + p.z * wz) + (wx * wx + wy * wy
                + wz * wz),
            -3 * (s * l) <= p.x * wx + p.y * wy + p.z * wz <= 3 * (s * l),
            0 <= wx * wx + wy * wy + wz * wz <= 3 * (l * l),
            s * m <= cc < s * m + 3 * s,
            l * l <= m * s,
            m * s <= l * l + 2 * l,
            32768 <= l < s,
            s == 65536,
    ;
    assert(s * s - 32 * s <= uu <= s * s + 48 * s) by (nonlinear_arith)
        requires
            l * l * uu <= (s * s + 48 * s) * (l * l),
            l * l * uu >= (s * s - 32 * s) * (l * l),
            32768 <= l,
    ;

    // Back down to the rounded squared length of the quotient vector.
    lemma_fmul_self_nonneg(qx);
    lemma_fmul_self_nonneg(qy);
    lemma_fmul_self_nonneg(qz);
    lemma_square_floor(qx);
    lemma_square_floor(qy);
    lemma_square_floor(qz);
    let v1 = fmul(qx, qx);
    let v2 = fmul(qy, qy);
    let v3 = fmul(qz, qz);
    assert(s - 64 <= v1 + v2 + v3 <= s + 64) by (nonlinear_arith)
        requires
            qx * qx == s * v1 + (qx * qx) % s,
            qy * qy == s * v2 + (qy * qy) % s,
            qz * qz == s * v3 + (qz * qz) % s,
            0 <= (qx * qx) % s < s,
            0 <= (qy * qy) % s < s,
            0 <= (qz * qz) % s < s,
            uu == qx * qx + qy * qy + qz * qz,
            s * s - 32 * s <= uu <= s * s + 48 * s,
            s == 65536,
    ;
    assert(len_sq_s(unit_s(p)) == sat64(v1 + v2 + v3));
}

/// The floor relation of a scaled self-product of a moderate value: the
/// exact square equals the scale times the rounded square plus a remainder
/// below one step.
proof fn lemma_square_floor(c: int)
    requires
        -4 * (FX_ONE as int) <= c <= 4 * (FX_ONE as int),
    ensures
        c * c == (FX_ONE as int) * fmul(c, c) + (c * c) % (FX_ONE as int),
        0 <= (c * c) % (FX_ONE as int) < FX_ONE as int,
        fmul(c, c) == (c * c) / (FX_ONE as int),
        0 <= fmul(c, c) <= 16 * (FX_ONE as int),
{
    let s = FX_ONE as int;
    assert(0 <= c * c <= 16 * (s * s)) by (nonlinear_arith)
        requires
            -4 * s <= c <= 4 * s,
            s == 65536,
    ;
    vstd::arithmetic::div_mod::lemma_fundamental_div_mod(c * c, s);
    vstd::arithmetic::div_mod::lemma_mod_division_less_than_divisor(c * c, s);
    let q = (c * c) / s;
    assert(0 <= q <= 16 * s) by (nonlinear_arith)
        requires
            c * c == s * q + (c * c) % s,
            0 <= (c * c) % s < s,
            0 <= c * c <= 16 * (s * s),
            s == 65536,
    ;
}

/// The floor relation of a scaled quotient by a positive length, returning
/// the exact quotient the saturation passes through.
proof fn lemma_quot_floor(c: int, l: int) -> (q: int)
    requires
        -(FX_ONE as int) <= c <= FX_ONE as int,
        32768 <= l <= FX_ONE as int,
    ensures
        q == fquot(c, l),
        c * (FX_ONE as int) == l * q + (c * (FX_ONE as int)) % l,
        0 <= (c * (FX_ONE as int)) % l < l,
        -0x3_0001 <= q <= 0x2_0000,
{
    let s = FX_ONE as int;
    vstd::arithmetic::div_mod::lemma_fundamental_div_mod(c * s, l);
    vstd::arithmetic::div_mod::lemma_mod_division_less_than_divisor(c * s, l);
    let qq = (c * s) / l;
    assert(-(s * s) <= c * s <= s * s) by (nonlinear_arith)
        requires
            -s <= c <= s,
            s == 65536,
    ;
    assert(-0x3_0001 <= qq <= 0x2_0000) by (nonlinear_arith)
        requires
            c * s == l * qq + (c * s) % l,
            0 <= (c * s) % l < l,
            -(s * s) <= c * s <= s * s,
            32768 <= l <= s,
            s == 65536,
    ;
    qq
}

/// The rounded quotient of a component no larger than a unit by a length
/// between one step and one unit is bounded.
proof fn lemma_unit_sample_quot_bound(c: int, l: int)
    requires
        -(FX_ONE as int) <= c <= FX_ONE as int,
        1 <= l <= FX_ONE as int,
    ensures
        -0x1_0001_0000 <= fquot(c, l) <= 0x1_0001_0000,
{
    let s = FX_ONE as int;
    vstd::arithmetic::div_mod::lemma_fundamental_div_mod(c * s, l);
    vstd::arithmetic::div_mod::lemma_mod_division_less_than_divisor(c * s, l);
    let q = (c * s) / l;
    assert(-(s * s) <= c * s <= s * s) by (nonlinear_arith)
        requires
            -s <= c <= s,
            s == 65536,
    ;
    assert(-(s * s + s) <= q <= s * s) by (nonlinear_arith)
        requires
            c * s == l * q + (c * s) % l,
            0 <= (c * s) % l < l,
            -(s * s) <= c * s <= s * s,
            1 <= l <= s,
            s == 65536,
    ;
}

/// Negating one factor turns the floor in a scaled product into a ceiling:
/// the two results sum to zero or minus one (saturation only widens the sum
/// toward zero at the extremes).
proof fn lemma_fmul_neg_pair(a: int, b: int)
    requires
        -(i64::MAX as int) <= a <= i64::MAX as int,
    ensures
        -1 <= fmul(sat64(-a), b) + fmul(a, b) <= 0,
{
    let s = FX_ONE as int;
    assert(sat64(-a) == -a);
    let p = a * b;
    assert((-a) * b == -p) by (nonlinear_arith)
        requires
            p == a * b,
    ;
    vstd::arithmetic::div_mod::lemma_fundamental_div_mod(p, s);
    vstd::arithmetic::div_mod::lemma_mod_division_less_than_divisor(p, s);
    let q = p / s;
    let r = p % s;
    if r == 0 {
        assert(-p == (-q) * s + 0) by (nonlinear_arith)
            requires
                p == s * q + r,
                r == 0,
        ;
        vstd::arithmetic::div_mod::lemma_fundamental_div_mod_converse(-p, s, -q, 0);
    } else {
        assert(-p == (-q - 1) * s + (s - r)) by (nonlinear_arith)
            requires
                p == s * q + r,
        ;
        vstd::arithmetic::div_mod::lemma_fundamental_div_mod_converse(-p, s, -q - 1, s - r);
    }
}

/// A vector of three fixed-point components.
#[derive(Clone, Copy, Debug, PartialEq, Eq, Structural)]
pub struct Vec3 {
    pub x: Fx,
    pub y: Fx,
    pub z: Fx,
}

impl View for Vec3 {
    type V = V3;

    open spec fn view(&self) -> V3 {
        V3 { x: self.x@, y: self.y@, z: self.z@ }
    }
}

impl Vec3 {
    /// The vector with the given components.
    pub fn new(x: Fx, y: Fx, z: Fx) -> (r: Vec3)
        ensures
            r@ == (V3 { x: x@, y: y@, z: z@ }),
    {
        Vec3 { x, y, z }
    }

    /// First component.
    pub fn x(&self) -> (r: Fx)
        ensures
            r@ == self@.x,
    {
        self.x
    }

    /// Second component.
    pub fn y(&self) -> (r: Fx)
        ensures
            r@ == self@.y,
    {
        self.y
    }

    /// Third component.
    pub fn z(&self) -> (r: Fx)
        ensures
            r@ == self@.z,
    {
        self.z
    }

    /// Componentwise sum.
    pub fn add(self, o: Vec3) -> (r: Vec3)
        ensures
            r@ == v3_add(self@, o@),
    {
        Vec3 { x: self.x.add(o.x), y: self.y.add(o.y), z: self.z.add(o.z) }
    }

    /// Componentwise difference.
    pub fn sub(self, o: Vec3) -> (r: Vec3)
        ensures
            r@ == v3_sub(self@, o@),
    {
        Vec3 { x: self.x.sub(o.x), y: self.y.sub(o.y), z: self.z.sub(o.z) }
    }

    /// Componentwise negation.
    pub fn neg(self) -> (r: Vec3)
        ensures
            r@ == v3_neg(self@),
    {
        Vec3 { x: self.x.neg(), y: self.y.neg(), z: self.z.neg() }
    }

    /// Componentwise product (used for colour attenuation).
    pub fn mul(self, o: Vec3) -> (r: Vec3)
        ensures
            r@ == v3_mul(self@, o@),
    {
        Vec3 { x: self.x.mul(o.x), y: self.y.mul(o.y), z: self.z.mul(o.z) }
    }

    /// Scaling by a scalar.
    pub fn scale(self, k: Fx) -> (r: Vec3)
        ensures
            r@ == v3_scale(self@, k@),
    {
        Vec3 { x: self.x.mul(k), y: self.y.mul(k), z: self.z.mul(k) }
    }

    /// Division by a positive scalar.
    pub fn divide(self, k: Fx) -> (r: Vec3)
        requires
            k@ > 0,
        ensures
            r@ == v3_quot(self@, k@),
    {
        Vec3 { x: self.x.div(k), y: self.y.div(k), z: self.z.div(k) }
    }

    /// Dot product.
    pub fn dot(&self, o: &Vec3) -> (r: Fx)
        ensures
            r@ == dot_s(self@, o@),
    {
        let m1: Fx = self.x.mul(o.x);
        let m2: Fx = self.y.mul(o.y);
        let m3: Fx = self.z.mul(o.z);
        crate::fx::sum3(m1, m2, m3)
    }

    /// Squared length.
    pub fn len_squared(&self) -> (r: Fx)
        ensures
            r@ == len_sq_s(self@),
            r@ >= 0,
    {
        proof {
            lemma_len_sq_nonneg(self@);
        }
        self.dot(self)
    }

    /// Length.
    pub fn len(&self) -> (r: Fx)
        ensures
            r@ == len_s(self@),
            r@ >= 0,
    {
        let sq: Fx = self.len_squared();
        sq.sqrt()
    }

    /// Every component rounds to zero: the direction is degenerate.
    pub fn near_zero(&self) -> (r: bool)
        ensures
            r == near_zero_s(self@),
    {
        self.x.raw == 0 && self.y.raw == 0 && self.z.raw == 0
    }

    /// Cross product.
    pub fn cross(&self, o: &Vec3) -> (r: Vec3)
        ensures
            r@ == cross_s(self@, o@),
    {
        Vec3 {
            x: self.y.mul(o.z).sub(self.z.mul(o.y)),
            y: self.z.mul(o.x).sub(self.x.mul(o.z)),
            z: self.x.mul(o.y).sub(self.y.mul(o.x)),
        }
    }

    /// The unit vector in this direction.  The caller keeps degenerate
    /// directions out: below one fractional step of squared length the
    /// division is undefined.  For a vector within one unit per component
    /// and at least a quarter unit of squared length, the result's squared
    /// length lands within 64 steps of one; shorter vectors normalise with
    /// proportionally coarser rounding.
    pub fn unit_vector(&self) -> (r: Vec3)
        requires
            len_sq_s(self@) >= 1,
        ensures
            r@ == unit_s(self@),
            -(FX_ONE as int) <= self@.x <= FX_ONE as int && -(FX_ONE as int) <= self@.y <= FX_ONE
                as int && -(FX_ONE as int) <= self@.z <= FX_ONE as int && 16384 <= len_sq_s(self@)
                < FX_ONE as int ==> FX_ONE as int - 64 <= len_sq_s(r@) <= FX_ONE as int + 64,
    {
        let sq: Fx = self.len_squared();
        let l: Fx = sq.sqrt();
        proof {
            lemma_sqrt_floor(sq@ * FX_ONE as int);
            if l@ == 0 {
                assert((l@ + 1) * (l@ + 1) == 1) by (nonlinear_arith)
                    requires
                        l@ == 0,
                ;
            }
            if -(FX_ONE as int) <= self@.x <= FX_ONE as int && -(FX_ONE as int) <= self@.y
                <= FX_ONE as int && -(FX_ONE as int) <= self@.z <= FX_ONE as int && 16384
                <= len_sq_s(self@) < FX_ONE as int {
                lemma_unit_quot_accuracy(self@);
            }
        }
        self.divide(l)
    }

    /// A vector with components drawn uniformly from `[0, 1)`.
    pub fn random() -> (r: Vec3)
        ensures
            0 <= r@.x < FX_ONE as int,
            0 <= r@.y < FX_ONE as int,
            0 <= r@.z < FX_ONE as int,
    {
        let x: Fx = Fx::from_raw(crate::rng::random_raw_in(0, FX_ONE));
        let y: Fx = Fx::from_raw(crate::rng::random_raw_in(0, FX_ONE));
        let z: Fx = Fx::from_raw(crate::rng::random_raw_in(0, FX_ONE));
        Vec3 { x, y, z }
    }

    /// A vector with components drawn uniformly from `[min, max)`.
    pub fn random_from_range(min: Fx, max: Fx) -> (r: Vec3)
        requires
            min@ < max@,
        ensures
            min@ <= r@.x < max@,
            min@ <= r@.y < max@,
            min@ <= r@.z < max@,
    {
        let x: Fx = Fx::from_raw(crate::rng::random_raw_in(min.raw, max.raw));
        let y: Fx = Fx::from_raw(crate::rng::random_raw_in(min.raw, max.raw));
        let z: Fx = Fx::from_raw(crate::rng::random_raw_in(min.raw, max.raw));
        Vec3 { x, y, z }
    }

    /// A vector inside the unit sphere, drawn from `[-1, 1)^3` by rejection.
    /// A sample shorter than half a unit is rejected like one outside the
    /// sphere, so the subsequent normalisation stays accurate, and a bounded
    /// number of attempts keeps termination provable; after them the
    /// interior point `(1/2, 1/2, 1/2)` stands in.
    pub fn random_in_unit_sphere() -> (r: Vec3)
        ensures
            16384 <= len_sq_s(r@) < FX_ONE as int,
            -(FX_ONE as int) <= r@.x <= FX_ONE as int,
            -(FX_ONE as int) <= r@.y <= FX_ONE as int,
            -(FX_ONE as int) <= r@.z <= FX_ONE as int,
    {
        let minus_one: Fx = Fx::from_raw(-FX_ONE);
        let one: Fx = Fx::one();
        let mut attempts: u32 = 64;
        while attempts > 0
            invariant
                minus_one@ == -(FX_ONE as int),
                one@ == FX_ONE as int,
            decreases attempts,
        {
            let p: Vec3 = Vec3::random_from_range(minus_one, one);
            let sq: Fx = p.len_squared();
            if 16384 <= sq.raw && sq.raw < FX_ONE {
                return p;
            }
            attempts = attempts - 1;
        }
        let half: Fx = Fx::from_raw(32768);
        let fallback: Vec3 = Vec3 { x: half, y: half, z: half };
        proof {
            assert(len_sq_s(fallback@) == 49152);
        }
        fallback
    }

    /// A direction drawn uniformly-in-intent from the unit sphere: a sphere
    /// sample, normalised.  Its squared length sits within 64 steps of one.
    pub fn random_unit_vector() -> (r: Vec3)
        ensures
            is_unit_sample(r@),
            FX_ONE as int - 64 <= len_sq_s(r@) <= FX_ONE as int + 64,
    {
        let p: Vec3 = Vec3::random_in_unit_sphere();
        let u: Vec3 = p.unit_vector();
        proof {
            assert(-(FX_ONE as int) <= p@.x <= FX_ONE as int && -(FX_ONE as int) <= p@.y <= FX_ONE
                as int && -(FX_ONE as int) <= p@.z <= FX_ONE as int && 16384 <= len_sq_s(p@) < FX_ONE
                as int && u@ == unit_s(p@));
            lemma_unit_sample_length(u@);
        }
        u
    }

    /// A unit-sample direction on the hemisphere around this normal: the
    /// sample, flipped when it points into the surface.  The flipped dot
    /// can fall below zero only by the rounding of the three negated
    /// products, one step each.
    pub fn random_on_hemisphere(&self) -> (r: Vec3)
        ensures
            exists|u: V3|
                #[trigger] is_unit_sample(u) && r@ == if dot_s(u, self@) > 0 {
                    u
                } else {
                    v3_neg(u)
                },
            dot_s(r@, self@) >= -3,
    {
        let on_unit_sphere: Vec3 = Vec3::random_unit_vector();
        let d: Fx = on_unit_sphere.dot(self);
        if d.raw > 0 {
            on_unit_sphere
        } else {
            let flipped: Vec3 = on_unit_sphere.neg();
            proof {
                lemma_unit_sample_component_bounds(on_unit_sphere@);
                lemma_fmul_neg_pair(on_unit_sphere@.x, self@.x);
                lemma_fmul_neg_pair(on_unit_sphere@.y, self@.y);
                lemma_fmul_neg_pair(on_unit_sphere@.z, self@.z);
            }
            flipped
        }
    }

    /// Mirror reflection about the normal `n`.
    pub fn reflect(&self, n: Vec3) -> (r: Vec3)
        ensures
            r@ == reflect_s(self@, n@),
    {
        let d: Fx = self.dot(&n);
        self.sub(n.scale(d).scale(Fx::from_raw(2 * FX_ONE)))
    }

    /// Snell refraction of this (unit) direction about `n` with relative
    /// refraction index `etai_over_etat`.
    pub fn refract(&self, n: Vec3, etai_over_etat: Fx) -> (r: Vec3)
        ensures
            r@ == refract_s(self@, n@, etai_over_etat@),
    {
        let cos_theta: Fx = self.neg().dot(&n).min(Fx::one());
        let r_out_perp: Vec3 = n.scale(cos_theta).add(*self).scale(etai_over_etat);
        let t: Fx = Fx::one().sub(r_out_perp.len_squared());
        let t_floor: Fx = t.max(Fx::zero());
        let s: Fx = t_floor.sqrt();
        let r_out_parallel: Vec3 = n.scale(s.neg());
        r_out_perp.add(r_out_parallel)
    }
}

} // verus!
