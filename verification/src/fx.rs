//! Fixed-point scalars: the numeric ground the renderer stands on.
//!
//! A `Fx` holds a signed count of 1/65536ths of a unit.  Addition,
//! subtraction, multiplication, division and square root are total (where a
//! divisor or radicand allows), round toward negative infinity where a result
//! falls between representable values, and saturate at the `i64` range.  The
//! spec functions below state each result exactly.

use vstd::prelude::*;

verus! {

/// Fractional steps per unit: a `Fx` with `raw == FX_ONE` has the value one.
pub const FX_ONE: i64 = 65536;

/// Clamp an unbounded integer into the `i64` range.
pub open spec fn sat64(x: int) -> int {
    if x > i64::MAX as int {
        i64::MAX as int
    } else if x < i64::MIN as int {
        i64::MIN as int
    } else {
        x
    }
}

/// The fixed-point product: scale the integer product back down (floor) and saturate.
pub open spec fn fmul(a: int, b: int) -> int {
    sat64((a * b) / (FX_ONE as int))
}

/// The fixed-point quotient for a positive divisor: scale up, floor, saturate.
pub open spec fn fquot(a: int, b: int) -> int {
    sat64((a * (FX_ONE as int)) / b)
}

/// The floor of the square root of a nonnegative integer.
pub open spec fn sqrt_floor(n: int) -> int {
    choose|r: int| 0 <= r && #[trigger] (r * r) <= n && n < (r + 1) * (r + 1)
}

/// The fixed-point square root: `sqrt(raw / 65536) * 65536 == sqrt(raw * 65536)`.
pub open spec fn fsqrt(a: int) -> int {
    sqrt_floor(a * (FX_ONE as int))
}

/// Some nonnegative integer has a floor square root.
proof fn lemma_sqrt_floor_exists(n: int)
    requires
        n >= 0,
    ensures
        exists|r: int| 0 <= r && #[trigger] (r * r) <= n && n < (r + 1) * (r + 1),
    decreases n,
{
    if n == 0 {
        let z: int = 0;
        assert(0 <= z && #[trigger] (z * z) <= n && n < (z + 1) * (z + 1));
    } else {
        lemma_sqrt_floor_exists(n - 1);
        let r = choose|r: int| 0 <= r && #[trigger] (r * r) <= n - 1 && n - 1 < (r + 1) * (r + 1);
        if (r + 1) * (r + 1) == n {
            assert((r + 2) * (r + 2) > n) by (nonlinear_arith)
                requires
                    r >= 0,
                    (r + 1) * (r + 1) == n,
            ;
            assert(0 <= r + 1 && (r + 1) * (r + 1) <= n && n < (r + 1 + 1) * (r + 1 + 1));
        } else {
            assert(0 <= r && r * r <= n && n < (r + 1) * (r + 1));
        }
    }
}

/// Two floor square roots of the same integer are equal.
proof fn lemma_sqrt_floor_unique(n: int, a: int, b: int)
    requires
        0 <= a,
        a * a <= n,
        n < (a + 1) * (a + 1),
        0 <= b,
        b * b <= n,
        n < (b + 1) * (b + 1),
    ensures
        a == b,
{
    assert(a == b) by (nonlinear_arith)
        requires
            0 <= a,
            a * a <= n,
            n < (a + 1) * (a + 1),
            0 <= b,
            b * b <= n,
            n < (b + 1) * (b + 1),
    ;
}

/// What `sqrt_floor` returns: the unique integer whose square brackets `n`.
pub proof fn lemma_sqrt_floor(n: int)
    requires
        n >= 0,
    ensures
        0 <= sqrt_floor(n),
        sqrt_floor(n) * sqrt_floor(n) <= n,
        n < (sqrt_floor(n) + 1) * (sqrt_floor(n) + 1),
{
    lemma_sqrt_floor_exists(n);
}

/// Clamp an `i128` into the `i64` range.
fn sat_to_i64(x: i128) -> (r: i64)
    ensures
        r as int == sat64(x as int),
{
    if x > i64::MAX as i128 {
        i64::MAX
    } else if x < i64::MIN as i128 {
        i64::MIN
    } else {
        x as i64
    }
}

/// Floor division of an `i128` by a positive divisor, through unsigned
/// magnitudes so that the quotient is exact for negative numerators too.
fn floor_div_i128(n: i128, d: i128) -> (q: i128)
    requires
        d > 0,
        n > i128::MIN,
    ensures
        q as int == (n as int) / (d as int),
{
    let du: u128 = d as u128;
    if n >= 0 {
        let nu: u128 = n as u128;
        let qu: u128 = nu / du;
        proof {
            vstd::arithmetic::div_mod::lemma_div_nonincreasing(nu as int, du as int);
            vstd::arithmetic::div_mod::lemma_div_pos_is_pos(nu as int, du as int);
        }
        qu as i128
    } else {
        let mu: u128 = (-n) as u128;
        let qm: u128 = mu / du;
        let rm: u128 = mu % du;
        proof {
            vstd::arithmetic::div_mod::lemma_fundamental_div_mod(mu as int, du as int);
            vstd::arithmetic::div_mod::lemma_mod_division_less_than_divisor(mu as int, du as int);
            vstd::arithmetic::div_mod::lemma_div_nonincreasing(mu as int, du as int);
            vstd::arithmetic::div_mod::lemma_div_pos_is_pos(mu as int, du as int);
        }
        if rm == 0 {
            proof {
                assert(n as int == (-(qm as int)) * (d as int) + 0) by (nonlinear_arith)
                    requires
                        mu as int == du as int * (qm as int) + rm as int,
                        rm as int == 0,
                        n as int == -(mu as int),
                        du as int == d as int,
                ;
                vstd::arithmetic::div_mod::lemma_fundamental_div_mod_converse(
                    n as int,
                    d as int,
                    -(qm as int),
                    0,
                );
            }
            -(qm as i128)
        } else {
            proof {
                assert(n as int == (-(qm as int) - 1) * (d as int) + (d as int - rm as int))
                    by (nonlinear_arith)
                    requires
                        mu as int == du as int * (qm as int) + rm as int,
                        n as int == -(mu as int),
                        du as int == d as int,
                ;
                vstd::arithmetic::div_mod::lemma_fundamental_div_mod_converse(
                    n as int,
                    d as int,
                    -(qm as int) - 1,
                    d as int - rm as int,
                );
            }
            -(qm as i128) - 1
        }
    }
}

/// Floor square root by binary search on `[0, 2^63)`.
fn isqrt_u128(n: u128) -> (r: u64)
    requires
        n < 0x4000_0000_0000_0000_0000_0000_0000_0000u128,
    ensures
        r as int * (r as int) <= n as int,
        (n as int) < (r as int + 1) * (r as int + 1),
{
    let mut lo: u64 = 0;
    let mut hi: u64 = 0x8000_0000_0000_0000u64;
    proof {
        assert((hi as int) * (hi as int) > n as int);
    }
    while lo + 1 < hi
        invariant
            lo < hi,
            hi <= 0x8000_0000_0000_0000u64,
            (lo as int) * (lo as int) <= n as int,
            (n as int) < (hi as int) * (hi as int),
        decreases hi - lo,
    {
        let mid: u64 = lo + (hi - lo) / 2;
        proof {
            assert((mid as int) * (mid as int) <= 0x4000_0000_0000_0000_0000_0000_0000_0000int)
                by (nonlinear_arith)
                requires
                    0 <= mid as int <= 0x8000_0000_0000_0000int,
            ;
        }
        let sq: u128 = (mid as u128) * (mid as u128);
        if sq <= n {
            lo = mid;
        } else {
            hi = mid;
        }
    }
    lo
}

/// Scaling a value of `[0, t]` by a fraction `[0, 1]` keeps it in `[0, t]`.
pub proof fn lemma_fmul_scaled(c: int, t: int)
    requires
        0 <= c <= FX_ONE as int,
        0 <= t,
    ensures
        0 <= fmul(c, t) <= t,
{
    let s = FX_ONE as int;
    assert(c * t <= s * t) by (nonlinear_arith)
        requires
            0 <= c <= s,
            0 <= t,
    ;
    assert(c * t >= 0) by (nonlinear_arith)
        requires
            0 <= c,
            0 <= t,
    ;
    vstd::arithmetic::div_mod::lemma_div_is_ordered(c * t, s * t, s);
    vstd::arithmetic::div_mod::lemma_div_multiples_vanish(t, s);
    vstd::arithmetic::div_mod::lemma_div_pos_is_pos(c * t, s);
    if c * t == 0 {
        vstd::arithmetic::div_mod::lemma_div_of0(s);
    }
}

/// A scaled product of nonnegative values is nonnegative.
pub proof fn lemma_fmul_nonneg(a: int, b: int)
    requires
        0 <= a,
        0 <= b,
    ensures
        0 <= fmul(a, b),
{
    assert(a * b >= 0) by (nonlinear_arith)
        requires
            0 <= a,
            0 <= b,
    ;
    vstd::arithmetic::div_mod::lemma_div_pos_is_pos(a * b, FX_ONE as int);
    if a * b == 0 {
        vstd::arithmetic::div_mod::lemma_div_of0(FX_ONE as int);
    }
}

/// Sum of three scalars, saturated once: the wide sum cannot wrap.
pub fn sum3(a: Fx, b: Fx, c: Fx) -> (r: Fx)
    ensures
        r@ == sat64(a@ + b@ + c@),
{
    Fx { raw: sat_to_i64(a.raw as i128 + b.raw as i128 + c.raw as i128) }
}

/// A fixed-point scalar: `raw` counts 1/65536ths of a unit.
#[derive(Clone, Copy, Debug, PartialEq, Eq, Structural)]
pub struct Fx {
    pub raw: i64,
}

impl View for Fx {
    type V = int;

    open spec fn view(&self) -> int {
        self.raw as int
    }
}

impl Fx {
    /// The scalar with the given raw count of 1/65536ths.
    pub fn from_raw(raw: i64) -> (r: Fx)
        ensures
            r@ == raw as int,
    {
        Fx { raw }
    }

    /// The scalar for a whole number of units, saturated into range.
    pub fn from_int(units: i64) -> (r: Fx)
        ensures
            r@ == sat64(units as int * (FX_ONE as int)),
    {
        let p: i128 = (units as i128) * 65536i128;
        Fx { raw: sat_to_i64(p) }
    }

    /// Zero.
    pub fn zero() -> (r: Fx)
        ensures
            r@ == 0,
    {
        Fx { raw: 0 }
    }

    /// One.
    pub fn one() -> (r: Fx)
        ensures
            r@ == FX_ONE as int,
    {
        Fx { raw: FX_ONE }
    }

    /// Saturating sum.
    pub fn add(self, o: Fx) -> (r: Fx)
        ensures
            r@ == sat64(self@ + o@),
    {
        Fx { raw: sat_to_i64(self.raw as i128 + o.raw as i128) }
    }

    /// Saturating difference.
    pub fn sub(self, o: Fx) -> (r: Fx)
        ensures
            r@ == sat64(self@ - o@),
    {
        Fx { raw: sat_to_i64(self.raw as i128 - o.raw as i128) }
    }

    /// Negation (saturating at the most negative value).
    pub fn neg(self) -> (r: Fx)
        ensures
            r@ == sat64(-self@),
    {
        Fx { raw: sat_to_i64(-(self.raw as i128)) }
    }

    /// Fixed-point product.
    pub fn mul(self, o: Fx) -> (r: Fx)
        ensures
            r@ == fmul(self@, o@),
    {
        let a: i128 = self.raw as i128;
        let b: i128 = o.raw as i128;
        proof {
            assert(a * b <= 0x4000_0000_0000_0000_0000_0000_0000_0000int && a * b
                >= -0x4000_0000_0000_0000_0000_0000_0000_0000int) by (nonlinear_arith)
                requires
                    i64::MIN as int <= a as int <= i64::MAX as int,
                    i64::MIN as int <= b as int <= i64::MAX as int,
            ;
        }
        let p: i128 = a * b;
        let q: i128 = floor_div_i128(p, 65536i128);
        Fx { raw: sat_to_i64(q) }
    }

    /// Fixed-point quotient; the divisor must be positive.
    pub fn div(self, o: Fx) -> (r: Fx)
        requires
            o@ > 0,
        ensures
            r@ == fquot(self@, o@),
    {
        let p: i128 = (self.raw as i128) * 65536i128;
        let q: i128 = floor_div_i128(p, o.raw as i128);
        Fx { raw: sat_to_i64(q) }
    }

    /// Fixed-point square root of a nonnegative scalar.
    pub fn sqrt(self) -> (r: Fx)
        requires
            self@ >= 0,
        ensures
            r@ == fsqrt(self@),
            0 <= r@ < 0x100_0000_0000,
    {
        let n: u128 = (self.raw as u128) * 65536u128;
        let s: u64 = isqrt_u128(n);
        proof {
            lemma_sqrt_floor(n as int);
            lemma_sqrt_floor_unique(
                n as int,
                s as int,
                sqrt_floor(n as int),
            );
            assert((s as int) < 0x100_0000_0000) by (nonlinear_arith)
                requires
                    s as int >= 0,
                    (s as int) * (s as int) <= n as int,
                    (n as int) < 0x1_0000_0000_0000_0000_0000int,
            ;
        }
        Fx { raw: s as i64 }
    }

    /// Absolute value (saturating at the most negative value).
    pub fn abs(self) -> (r: Fx)
        ensures
            r@ == if self@ >= 0 { self@ } else { sat64(-self@) },
    {
        if self.raw >= 0 {
            self
        } else {
            self.neg()
        }
    }

    /// The smaller of two scalars.
    pub fn min(self, o: Fx) -> (r: Fx)
        ensures
            r@ == if self@ <= o@ { self@ } else { o@ },
    {
        if self.raw <= o.raw {
            self
        } else {
            o
        }
    }

    /// The larger of two scalars.
    pub fn max(self, o: Fx) -> (r: Fx)
        ensures
            r@ == if self@ >= o@ { self@ } else { o@ },
    {
        if self.raw >= o.raw {
            self
        } else {
            o
        }
    }
}

} // verus!
