//! Integer 2-D vectors and the arithmetic helpers the simulations share:
//! truncating division and the integer square root.

use vstd::prelude::*;

verus! {

/// Largest argument `isqrt` accepts; `(r + 1) * (r + 1)` stays in `u64` below it.
pub const ISQRT_MAX: u64 = 0x4000_0000_0000_0000;

/// A 2-D vector over integer coordinates.
#[derive(Clone, Copy, Debug, PartialEq, Eq, Structural)]
pub struct Vec2 {
    pub x: i64,
    pub y: i64,
}

/// Floor of the square root of `n` (0 for negative arguments).
pub open spec fn sqrt_floor(n: int) -> int
    decreases n,
{
    if n <= 0 {
        0
    } else {
        let r = sqrt_floor(n - 1);
        if (r + 1) * (r + 1) <= n {
            r + 1
        } else {
            r
        }
    }
}

/// Division of `a` by `b` that truncates toward zero, as `/` does on machine integers.
pub open spec fn div_tz(a: int, b: int) -> int {
    if a >= 0 {
        a / b
    } else {
        -((-a) / b)
    }
}

/// `sqrt_floor(n)` is the unique `r >= 0` with `r * r <= n < (r + 1) * (r + 1)`.
pub proof fn lemma_sqrt_floor_bounds(n: int)
    requires
        n >= 0,
    ensures
        0 <= sqrt_floor(n),
        sqrt_floor(n) * sqrt_floor(n) <= n,
        n < (sqrt_floor(n) + 1) * (sqrt_floor(n) + 1),
    decreases n,
{
    if n > 0 {
        lemma_sqrt_floor_bounds(n - 1);
        let r = sqrt_floor(n - 1);
        if (r + 1) * (r + 1) <= n {
            assert(n - 1 < (r + 1) * (r + 1));
            assert(n < (r + 2) * (r + 2)) by (nonlinear_arith)
                requires
                    n <= (r + 1) * (r + 1),
                    r >= 0;
        }
    }
}

/// Any `r >= 0` bracketed by the same squares as `n` equals `sqrt_floor(n)`.
pub proof fn lemma_sqrt_floor_unique(n: int, r: int)
    requires
        n >= 0,
        r >= 0,
        r * r <= n,
        n < (r + 1) * (r + 1),
    ensures
        r == sqrt_floor(n),
{
    let s = sqrt_floor(n);
    lemma_sqrt_floor_bounds(n);
    if r < s {
        assert((r + 1) * (r + 1) <= s * s) by (nonlinear_arith)
            requires
                0 <= r,
                r + 1 <= s;
    }
    if s < r {
        assert((s + 1) * (s + 1) <= r * r) by (nonlinear_arith)
            requires
                0 <= s,
                s + 1 <= r;
    }
}

/// Integer square root: the floor of the square root of `n`.
pub fn isqrt(n: u64) -> (r: u64)
    requires
        n <= ISQRT_MAX,
    ensures
        r as int == sqrt_floor(n as int),
        r * r <= n,
        n < (r + 1) * (r + 1),
{
    let mut r: u64 = 0;
    while (r + 1) * (r + 1) <= n
        invariant
            n <= ISQRT_MAX,
            r * r <= n,
            r <= n,
            (r + 1) * (r + 1) <= 0x4000_0002_0000_0001u64,
        decreases n - r,
    {
        proof {
            assert((r + 1) * (r + 1) <= ISQRT_MAX ==> r + 1 <= 0x8000_0000u64) by (nonlinear_arith);
            assert(r + 1 <= (r + 1) * (r + 1)) by (nonlinear_arith);
            assert(r + 2 <= 0x8000_0001u64 ==> (r + 2) * (r + 2) <= 0x4000_0002_0000_0001u64)
                by (nonlinear_arith);
        }
        r = r + 1;
    }
    proof {
        lemma_sqrt_floor_unique(n as int, r as int);
    }
    r
}

/// Division truncating toward zero, matching float division followed by truncation in sign.
pub fn div_to_zero(a: i64, b: i64) -> (r: i64)
    requires
        b >= 1,
        a > i64::MIN,
    ensures
        r as int == div_tz(a as int, b as int),
{
    if a >= 0 {
        ((a as u64) / (b as u64)) as i64
    } else {
        let m = (-a) as u64;
        -((m / (b as u64)) as i64)
    }
}

/// The quotient times the divisor stays within `b - 1` of `a`, on `a`'s side of zero.
pub proof fn lemma_div_tz_bounds(a: int, b: int)
    requires
        b >= 1,
    ensures
        a >= 0 ==> 0 <= b * div_tz(a, b) <= a,
        a < 0 ==> a <= b * div_tz(a, b) <= 0,
        a - (b - 1) <= b * div_tz(a, b) <= a + (b - 1),
{
    if a >= 0 {
        assert(0 <= b * (a / b) <= a && a - (b - 1) <= b * (a / b)) by (nonlinear_arith)
            requires
                b >= 1,
                a >= 0;
    } else {
        let m = -a;
        assert(0 <= b * (m / b) <= m && m - (b - 1) <= b * (m / b)) by (nonlinear_arith)
            requires
                b >= 1,
                m >= 0;
        assert(b * (-(m / b)) == -(b * (m / b))) by (nonlinear_arith);
    }
}

} // verus!
