//! Wide multiplication, division with a stated rounding, and integer square
//! roots: the arithmetic that the geometry rests on.

use vstd::prelude::*;

verus! {

/// The quotient of `a` by a positive `b`, rounded toward zero.
pub open spec fn div_toward_zero(a: int, b: int) -> int {
    if a >= 0 {
        a / b
    } else {
        -((-a) / b)
    }
}

/// The quotient of `a` by a positive `b`, rounded away from zero.
pub open spec fn div_away_from_zero(a: int, b: int) -> int {
    if a >= 0 {
        (a + b - 1) / b
    } else {
        -((-a + b - 1) / b)
    }
}

/// The largest `r` with `r * r <= n`.
pub open spec fn is_floor_sqrt(n: int, r: int) -> bool {
    &&& 0 <= r
    &&& r * r <= n
    &&& n < (r + 1) * (r + 1)
}

/// The smallest `r` with `n <= r * r`.
pub open spec fn is_ceil_sqrt(n: int, r: int) -> bool {
    &&& 0 <= r
    &&& n <= r * r
    &&& (r > 0 ==> (r - 1) * (r - 1) < n)
}

/// A product is bounded by the product of the bounds of its factors.
pub proof fn lemma_product_bound(a: int, b: int, la: int, lb: int)
    requires
        -la <= a <= la,
        -lb <= b <= lb,
    ensures
        -(la * lb) <= a * b <= la * lb,
{
    assert(-(la * lb) <= a * b <= la * lb) by (nonlinear_arith)
        requires
            -la <= a <= la,
            -lb <= b <= lb,
    ;
}

/// A rounded quotient is no further from zero than the dividend, and lies on
/// the dividend's side of zero.
pub proof fn lemma_div_toward_zero_bounds(a: int, b: int)
    requires
        b > 0,
    ensures
        a >= 0 ==> 0 <= div_toward_zero(a, b) <= a,
        a <= 0 ==> a <= div_toward_zero(a, b) <= 0,
        a >= 0 ==> 0 <= b * div_toward_zero(a, b) <= a,
        a <= 0 ==> a <= b * div_toward_zero(a, b) <= 0,
        -b < a - b * div_toward_zero(a, b) < b,
{
    if a >= 0 {
        assert(0 <= a / b <= a && 0 <= b * (a / b) <= a && a - b * (a / b) < b) by (nonlinear_arith)
            requires
                a >= 0,
                b > 0,
        ;
    } else {
        let m = -a;
        assert(0 <= m / b <= m && 0 <= b * (m / b) <= m && m - b * (m / b) < b) by (nonlinear_arith)
            requires
                m >= 0,
                b > 0,
        ;
        assert(b * (-(m / b)) == -(b * (m / b))) by (nonlinear_arith);
    }
}

/// The product of two `i64` values, which always fits in an `i128`.
pub fn mul_wide(a: i64, b: i64) -> (p: i128)
    ensures
        p == a * b,
        -0x4000_0000_0000_0000_0000_0000_0000_0000 <= p
            <= 0x4000_0000_0000_0000_0000_0000_0000_0000,
{
    proof {
        lemma_product_bound(a as int, b as int, 0x8000_0000_0000_0000, 0x8000_0000_0000_0000);
        assert(0x8000_0000_0000_0000int * 0x8000_0000_0000_0000int
            == 0x4000_0000_0000_0000_0000_0000_0000_0000int);
    }
    (a as i128) * (b as i128)
}

/// Division rounded toward zero, by a positive divisor.
pub fn divide_toward_zero(a: i128, b: i128) -> (q: i128)
    requires
        b > 0,
    ensures
        q == div_toward_zero(a as int, b as int),
{
    a / b
}

/// Division rounded away from zero, by a positive divisor.
pub fn divide_away_from_zero(a: i128, b: i128) -> (q: i128)
    requires
        b > 0,
        -0x4000_0000_0000_0000_0000_0000_0000_0000 <= a
            <= 0x4000_0000_0000_0000_0000_0000_0000_0000,
        b <= 0x4000_0000_0000_0000_0000_0000_0000_0000,
    ensures
        q == div_away_from_zero(a as int, b as int),
{
    if a >= 0 {
        (a + (b - 1)) / b
    } else {
        let m: i128 = -a;
        let up: i128 = (m + (b - 1)) / b;
        proof {
            assert(0 <= (m + (b - 1)) / (b as int) <= m + (b - 1)) by (nonlinear_arith)
                requires
                    m + (b - 1) >= 0,
                    b > 0,
            ;
        }
        -up
    }
}

/// The integer square root of `n`, rounded down.
pub fn floor_sqrt(n: u64) -> (r: u64)
    ensures
        is_floor_sqrt(n as int, r as int),
        r <= 0xFFFF_FFFF,
{
    let mut low: u64 = 0;
    let mut high: u64 = 0x1_0000_0000;
    assert(0x1_0000_0000int * 0x1_0000_0000int > u64::MAX);
    while high - low > 1
        invariant
            low < high <= 0x1_0000_0000,
            low * low <= n,
            n < high * high,
        decreases high - low,
    {
        let mid: u64 = low + (high - low) / 2;
        assert(mid * mid <= 0xFFFF_FFFFint * 0xFFFF_FFFFint) by (nonlinear_arith)
            requires
                0 <= mid <= 0xFFFF_FFFF,
        ;
        assert(0xFFFF_FFFFint * 0xFFFF_FFFFint < u64::MAX);
        if mid * mid <= n {
            low = mid;
        } else {
            high = mid;
        }
    }
    low
}

/// The integer square root of `n`, rounded up.
pub fn ceil_sqrt(n: u64) -> (r: u64)
    ensures
        is_ceil_sqrt(n as int, r as int),
        r <= 0x1_0000_0000,
{
    let down: u64 = floor_sqrt(n);
    proof {
        assert(down * down <= 0xFFFF_FFFFint * 0xFFFF_FFFFint) by (nonlinear_arith)
            requires
                0 <= down <= 0xFFFF_FFFF,
        ;
        assert(0xFFFF_FFFFint * 0xFFFF_FFFFint < u64::MAX);
    }
    if down * down == n {
        proof {
            if down > 0 {
                assert((down - 1) * (down - 1) < down * down) by (nonlinear_arith)
                    requires
                        down > 0,
                ;
            }
        }
        down
    } else {
        proof {
            assert(((down + 1) - 1) * ((down + 1) - 1) == down * down);
        }
        down + 1
    }
}

} // verus!
