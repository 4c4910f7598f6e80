//! Exact fixed-point arithmetic over scaled 64-bit integers.
//!
//! A real number `v` is represented by the integer `v * SCALE`, truncated
//! toward zero. All operations state their exact result over [`tdiv`], the
//! truncating division that mirrors Rust's `/` on signed integers.
use vstd::prelude::*;

verus! {

/// Number of fixed-point units per whole unit: values carry six decimal places.
pub const SCALE: i64 = 1_000_000;

/// Truncating (round-toward-zero) division for a positive divisor, the
/// semantics of Rust's `/` on signed integers.
pub open spec fn tdiv(a: int, b: int) -> int {
    if a >= 0 {
        a / b
    } else {
        -((-a) / b)
    }
}

/// `|a| <= p` and `|b| <= q` bound the product: `|a * b| <= p * q`.
pub proof fn lemma_mul_abs_le(a: int, b: int, p: int, q: int)
    by (nonlinear_arith)
    requires
        -p <= a <= p,
        -q <= b <= q,
    ensures
        -(p * q) <= a * b <= p * q,
{
}

/// Division by a positive `b` cannot leave the band `[-m, m]` that `a` is
/// known to occupy after scaling by `b`.
pub proof fn lemma_tdiv_le(a: int, b: int, m: int)
    requires
        1 <= b,
        0 <= m,
        -(m * b) <= a <= m * b,
    ensures
        -m <= tdiv(a, b) <= m,
{
    if a >= 0 {
        assert(a / b <= m && 0 <= a / b) by (nonlinear_arith)
            requires
                1 <= b,
                0 <= m,
                0 <= a <= m * b,
        {
            vstd::arithmetic::div_mod::lemma_fundamental_div_mod(a, b);
        }
    } else {
        assert((-a) / b <= m && 0 <= (-a) / b) by (nonlinear_arith)
            requires
                1 <= b,
                0 <= m,
                0 <= -a <= m * b,
        {
            vstd::arithmetic::div_mod::lemma_fundamental_div_mod(-a, b);
        }
    }
}

/// Truncating division is exact on multiples: `(m * b) / b == m`.
pub proof fn lemma_tdiv_exact(m: int, b: int)
    requires
        1 <= b,
    ensures
        tdiv(m * b, b) == m,
{
    if m >= 0 {
        assert((m * b) / b == m) by (nonlinear_arith)
            requires
                1 <= b,
                0 <= m,
        {
            vstd::arithmetic::div_mod::lemma_fundamental_div_mod(m * b, b);
        }
    } else {
        assert(-(m * b) == (-m) * b) by (nonlinear_arith);
        assert(((-m) * b) / b == -m) by (nonlinear_arith)
            requires
                1 <= b,
                0 <= -m,
        {
            vstd::arithmetic::div_mod::lemma_fundamental_div_mod((-m) * b, b);
        }
    }
}

/// The defining property of truncating division for nonnegative dividends:
/// the quotient scaled back up sits within `b - 1` of the dividend.
pub proof fn lemma_tdiv_pos_bounds(a: int, b: int)
    requires
        1 <= b,
        0 <= a,
    ensures
        tdiv(a, b) * b <= a < (tdiv(a, b) + 1) * b,
        0 <= tdiv(a, b),
{
    assert((a / b) * b <= a < (a / b + 1) * b && 0 <= a / b) by (nonlinear_arith)
        requires
            1 <= b,
            0 <= a,
    {
        vstd::arithmetic::div_mod::lemma_fundamental_div_mod(a, b);
    }
}

/// Dividing a nonnegative value by a positive divisor cannot grow it.
pub proof fn lemma_tdiv_shrinks(a: int, b: int)
    requires
        0 <= a,
        1 <= b,
    ensures
        0 <= tdiv(a, b) <= a,
{
    assert(0 <= a / b <= a) by (nonlinear_arith)
        requires
            0 <= a,
            1 <= b,
    {
        vstd::arithmetic::div_mod::lemma_fundamental_div_mod(a, b);
    }
}

/// Truncating division of `a` by a positive `b`, exactly `tdiv`.
pub fn div_trunc(a: i64, b: i64) -> (r: i64)
    requires
        1 <= b,
        -i64::MAX <= a,
    ensures
        r == tdiv(a as int, b as int),
{
    if a >= 0 {
        let q: u64 = (a as u64) / (b as u64);
        proof {
            assert(0 <= (a as int) / (b as int) <= a as int) by (nonlinear_arith)
                requires
                    0 <= a,
                    1 <= b,
            {
                vstd::arithmetic::div_mod::lemma_fundamental_div_mod(a as int, b as int);
            }
        }
        q as i64
    } else {
        let q: u64 = ((-a) as u64) / (b as u64);
        proof {
            assert(0 <= (-(a as int)) / (b as int) <= -(a as int)) by (nonlinear_arith)
                requires
                    a < 0,
                    -i64::MAX <= a,
                    1 <= b,
            {
                vstd::arithmetic::div_mod::lemma_fundamental_div_mod(-(a as int), b as int);
            }
        }
        -(q as i64)
    }
}

/// Truncating division of a 128-bit `a` by a positive `b`, exactly `tdiv`.
pub fn div_trunc_i128(a: i128, b: i128) -> (r: i128)
    requires
        1 <= b,
        -i128::MAX <= a,
    ensures
        r == tdiv(a as int, b as int),
{
    if a >= 0 {
        let q: u128 = (a as u128) / (b as u128);
        proof {
            assert(0 <= (a as int) / (b as int) <= a as int) by (nonlinear_arith)
                requires
                    0 <= a,
                    1 <= b,
            {
                vstd::arithmetic::div_mod::lemma_fundamental_div_mod(a as int, b as int);
            }
        }
        q as i128
    } else {
        let q: u128 = ((-a) as u128) / (b as u128);
        proof {
            assert(0 <= (-(a as int)) / (b as int) <= -(a as int)) by (nonlinear_arith)
                requires
                    a < 0,
                    -i128::MAX <= a,
                    1 <= b,
            {
                vstd::arithmetic::div_mod::lemma_fundamental_div_mod(-(a as int), b as int);
            }
        }
        -(q as i128)
    }
}

/// Fixed-point product: multiplies two scaled values and rescales, truncating
/// toward zero. The bound on `a * b` is what lets the result fit in `i64`.
pub fn mul_fx(a: i64, b: i64) -> (r: i64)
    requires
        -(i64::MAX as int) * (SCALE as int) <= (a as int) * (b as int) <= (i64::MAX as int) * (
        SCALE as int),
    ensures
        r == tdiv((a as int) * (b as int), SCALE as int),
{
    let p: i128 = (a as i128) * (b as i128);
    proof {
        lemma_tdiv_le(p as int, SCALE as int, i64::MAX as int);
    }
    if p >= 0 {
        let q: u128 = (p as u128) / (SCALE as u128);
        q as i64
    } else {
        let q: u128 = ((-p) as u128) / (SCALE as u128);
        -(q as i64)
    }
}

/// The integer square root: the greatest `r` with `r * r <= n`.
pub open spec fn sqrt_floor(n: nat) -> nat
    decreases n,
{
    if n == 0 {
        0
    } else {
        let r = sqrt_floor((n - 1) as nat);
        if (r + 1) * (r + 1) <= n {
            r + 1
        } else {
            r
        }
    }
}

/// `sqrt_floor` satisfies the square-root characterization.
pub proof fn lemma_sqrt_floor(n: nat)
    ensures
        sqrt_floor(n) * sqrt_floor(n) <= n,
        n < (sqrt_floor(n) + 1) * (sqrt_floor(n) + 1),
    decreases n,
{
    let s = sqrt_floor(n);
    if n == 0 {
        assert(s == 0);
        assert(n < (s + 1) * (s + 1)) by (nonlinear_arith)
            requires
                n == 0,
                s == 0,
        ;
    } else {
        lemma_sqrt_floor((n - 1) as nat);
        let r = sqrt_floor((n - 1) as nat);
        assert(r * r <= n - 1);
        assert(n - 1 < (r + 1) * (r + 1));
        if (r + 1) * (r + 1) <= n {
            assert(s == r + 1);
            assert(s * s <= n && n < (s + 1) * (s + 1)) by (nonlinear_arith)
                requires
                    s == r + 1,
                    (r + 1) * (r + 1) <= n,
                    n - 1 < (r + 1) * (r + 1),
            ;
        } else {
            assert(s == r);
            assert(s * s <= n && n < (s + 1) * (s + 1)) by (nonlinear_arith)
                requires
                    s == r,
                    r * r <= n - 1,
                    1 <= n,
                    !((r + 1) * (r + 1) <= n),
            ;
        }
    }
}

/// Any `r` meeting the square-root characterization of `n` is `sqrt_floor(n)`.
pub proof fn lemma_sqrt_unique(n: nat, r: nat)
    requires
        r * r <= n,
        n < (r + 1) * (r + 1),
    ensures
        r == sqrt_floor(n),
{
    lemma_sqrt_floor(n);
    let s = sqrt_floor(n);
    if r < s {
        assert(s * s > n) by (nonlinear_arith)
            requires
                r < s,
                n < (r + 1) * (r + 1),
        ;
    }
    if s < r {
        assert(r * r > n) by (nonlinear_arith)
            requires
                s < r,
                n < (s + 1) * (s + 1),
        ;
    }
}

/// Binary-search integer square root of a 128-bit value.
pub fn isqrt_u128(n: u128) -> (r: u64)
    ensures
        r as nat == sqrt_floor(n as nat),
{
    let mut lo: u128 = 0;
    let mut hi: u128 = 0x1_0000_0000_0000_0000;
    proof {
        assert((hi as int) * (hi as int) > n as int) by (nonlinear_arith)
            requires
                hi == 0x1_0000_0000_0000_0000,
                n <= u128::MAX,
        ;
    }
    while hi - lo > 1
        invariant
            lo < hi <= 0x1_0000_0000_0000_0000u128,
            (lo as int) * (lo as int) <= n as int,
            (n as int) < (hi as int) * (hi as int),
        decreases hi - lo,
    {
        let mid: u128 = lo + (hi - lo) / 2;
        proof {
            assert((mid as int) * (mid as int) <= (0xffff_ffff_ffff_ffffu128 as int) * (
            0xffff_ffff_ffff_ffffu128 as int)) by (nonlinear_arith)
                requires
                    0 <= mid <= 0xffff_ffff_ffff_ffffu128,
            ;
        }
        if mid * mid <= n {
            lo = mid;
        } else {
            hi = mid;
        }
    }
    proof {
        lemma_sqrt_unique(n as nat, lo as nat);
    }
    lo as u64
}

} // verus!
