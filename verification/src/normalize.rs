//! A vector brought to a given length without leaving the integers.
//!
//! The coordinate `c` of a vector of squared length `n`, resized to
//! `length`, is `length * |c| / sqrt(n)`. Rounded away from zero that is the
//! least `r` with `r * r * n >= length * length * c * c`, which needs no
//! square root to state.

use vstd::prelude::*;
use crate::arith::{ceil_sqrt, lemma_product_bound};
use crate::vector::{Vec2, Vector2, WIDE_LIMIT};

verus! {

/// No vector is resized to more than this.
pub const LENGTH_LIMIT: i64 = 1_000_000;

/// `r` is `length * c / sqrt(n)` rounded up, for `c >= 0` and `n > 0`.
pub open spec fn is_share_of_length(c: int, n: int, length: int, r: int) -> bool {
    &&& r >= 0
    &&& r * r * n >= length * length * (c * c)
    &&& (r > 0 ==> (r - 1) * (r - 1) * n < length * length * (c * c))
}

/// `length * c / sqrt(n)` rounded up.
pub open spec fn share_of_length(c: int, n: int, length: int) -> int {
    choose|r: int| is_share_of_length(c, n, length, r)
}

/// There is one share of a length at most.
pub proof fn lemma_share_unique(c: int, n: int, length: int, r: int, s: int)
    requires
        n > 0,
        is_share_of_length(c, n, length, r),
        is_share_of_length(c, n, length, s),
    ensures
        r == s,
{
    let x = length * length * (c * c);
    if r < s {
        assert(r * r <= (s - 1) * (s - 1)) by (nonlinear_arith)
            requires
                0 <= r <= s - 1,
        ;
        assert(r * r * n <= (s - 1) * (s - 1) * n) by (nonlinear_arith)
            requires
                r * r <= (s - 1) * (s - 1),
                n > 0,
        ;
    } else if s < r {
        assert(s * s <= (r - 1) * (r - 1)) by (nonlinear_arith)
            requires
                0 <= s <= r - 1,
        ;
        assert(s * s * n <= (r - 1) * (r - 1) * n) by (nonlinear_arith)
            requires
                s * s <= (r - 1) * (r - 1),
                n > 0,
        ;
    }
}

/// The sign of `c`, times `magnitude`.
pub open spec fn with_sign_of(c: int, magnitude: int) -> int {
    if c < 0 {
        -magnitude
    } else {
        magnitude
    }
}

impl Vec2 {
    /// The vector brought to the length `length`, each coordinate rounded
    /// away from zero; the zero vector stays as it is.
    pub open spec fn resized(self, length: int) -> Vec2 {
        if self.is_zero() {
            self
        } else {
            let n = self.magnitude2();
            Vec2 {
                x: with_sign_of(
                    self.x,
                    share_of_length(if self.x < 0 { -self.x } else { self.x }, n, length),
                ),
                y: with_sign_of(
                    self.y,
                    share_of_length(if self.y < 0 { -self.y } else { self.y }, n, length),
                ),
            }
        }
    }
}

/// `length * c / sqrt(n)` rounded up, where `c * c <= n`.
fn share(c: i64, n: i128, length: i64) -> (r: i64)
    requires
        0 <= c <= WIDE_LIMIT,
        0 < n <= 2 * WIDE_LIMIT * WIDE_LIMIT,
        c * c <= n,
        0 <= length <= LENGTH_LIMIT,
    ensures
        r == share_of_length(c as int, n as int, length as int),
        0 <= r <= length,
{
    proof {
        lemma_product_bound(c as int, c as int, WIDE_LIMIT as int, WIDE_LIMIT as int);
        lemma_product_bound(length as int, length as int, LENGTH_LIMIT as int, LENGTH_LIMIT as int);
        assert(c * c >= 0) by (nonlinear_arith);
        assert(length * length >= 0) by (nonlinear_arith);
        lemma_product_bound(
            length * length,
            c * c,
            LENGTH_LIMIT * LENGTH_LIMIT,
            WIDE_LIMIT * WIDE_LIMIT,
        );
        assert(LENGTH_LIMIT * LENGTH_LIMIT == 1_000_000_000_000);
        assert(WIDE_LIMIT * WIDE_LIMIT == 1_000_000_000_000_000_000);
        assert((LENGTH_LIMIT * LENGTH_LIMIT) * (WIDE_LIMIT * WIDE_LIMIT)
            == 1_000_000_000_000_000_000_000_000_000_000);
    }
    let squares: i128 = ((length as i128) * (length as i128)) * ((c as i128) * (c as i128));
    let quotient: i128 = (squares + (n - 1)) / n;
    proof {
        let x = squares as int;
        let q = quotient as int;
        let ll = length * length;
        // the quotient is the least q with q * n >= x, and is at most length squared
        assert(q * n >= x && (q - 1) * n < x && q >= 0) by (nonlinear_arith)
            requires
                q == (x + n - 1) / (n as int),
                n > 0,
                x >= 0,
        ;
        assert(x <= ll * n) by (nonlinear_arith)
            requires
                x == ll * (c * c),
                c * c <= n,
                ll >= 0,
        ;
        assert(q <= ll) by (nonlinear_arith)
            requires
                (q - 1) * n < x,
                x <= ll * n,
                n > 0,
        ;
    }
    let root: u64 = ceil_sqrt(quotient as u64);
    proof {
        let x = squares as int;
        let q = quotient as int;
        let r = root as int;
        let ll = length * length;
        assert(r <= length) by (nonlinear_arith)
            requires
                r > 0 ==> (r - 1) * (r - 1) < q,
                q <= length * length,
                r >= 0,
                length >= 0,
        ;
        assert(r * r * n >= x) by (nonlinear_arith)
            requires
                r * r >= q,
                q * n >= x,
                n > 0,
        ;
        if r > 0 {
            assert((r - 1) * (r - 1) * n < x) by (nonlinear_arith)
                requires
                    (r - 1) * (r - 1) <= q - 1,
                    (q - 1) * n < x,
                    n > 0,
            ;
        }
        assert(is_share_of_length(c as int, n as int, length as int, r));
        lemma_share_unique(
            c as int,
            n as int,
            length as int,
            r,
            share_of_length(c as int, n as int, length as int),
        );
    }
    root as i64
}

impl Vector2 {
    /// The vector brought to the length `length`, each coordinate rounded
    /// away from zero.
    pub fn resize(self, length: i64) -> (v: Vector2)
        requires
            self@.within(WIDE_LIMIT as int),
            0 <= length <= LENGTH_LIMIT,
        ensures
            v@ == self@.resized(length as int),
            v@.within(length as int),
    {
        if self.x == 0 && self.y == 0 {
            return self;
        }
        proof {
            lemma_product_bound(self.x as int, self.x as int, WIDE_LIMIT as int, WIDE_LIMIT as int);
            lemma_product_bound(self.y as int, self.y as int, WIDE_LIMIT as int, WIDE_LIMIT as int);
            assert(WIDE_LIMIT * WIDE_LIMIT == 1_000_000_000_000_000_000);
            assert(self.x * self.x >= 0 && self.y * self.y >= 0) by (nonlinear_arith);
            assert(self.x * self.x + self.y * self.y > 0) by (nonlinear_arith)
                requires
                    self.x != 0 || self.y != 0,
            ;
            assert((-self.x) * (-self.x) == self.x * self.x) by (nonlinear_arith);
            assert((-self.y) * (-self.y) == self.y * self.y) by (nonlinear_arith);
        }
        let n: i128 = self.magnitude2();
        let x: i64 = share(if self.x < 0 { -self.x } else { self.x }, n, length);
        let y: i64 = share(if self.y < 0 { -self.y } else { self.y }, n, length);
        Vector2 { x: if self.x < 0 { -x } else { x }, y: if self.y < 0 { -y } else { y } }
    }
}

/// Among the numbers up to `k`, which is large enough to be a share of the
/// length, the least that is large enough is the share.
proof fn lemma_least_share(c: int, n: int, length: int, k: int)
    requires
        n > 0,
        k >= 0,
        k * k * n >= length * length * (c * c),
    ensures
        exists|r: int| is_share_of_length(c, n, length, r) && r <= k,
    decreases k,
{
    if k == 0 {
        assert(is_share_of_length(c, n, length, 0));
    } else if (k - 1) * (k - 1) * n >= length * length * (c * c) {
        lemma_least_share(c, n, length, k - 1);
    } else {
        assert(is_share_of_length(c, n, length, k));
    }
}

/// Every coordinate has its share of every length.
pub proof fn lemma_share_exists(c: int, n: int, length: int)
    requires
        c >= 0,
        n > 0,
        length >= 0,
    ensures
        is_share_of_length(c, n, length, share_of_length(c, n, length)),
{
    let k = length * c;
    assert(k >= 0 && k * k * n >= length * length * (c * c)) by (nonlinear_arith)
        requires
            k == length * c,
            c >= 0,
            length >= 0,
            n >= 1,
    ;
    lemma_least_share(c, n, length, k);
}

/// A vector that is at least as long as the length is not lengthened by
/// being brought to it: the share of a coordinate is no more than the
/// coordinate.
pub proof fn lemma_share_at_most_coordinate(c: int, n: int, length: int)
    requires
        c >= 0,
        length >= 0,
        n > 0,
        n >= length * length,
    ensures
        0 <= share_of_length(c, n, length) <= c,
{
    assert(c * c * n >= length * length * (c * c)) by (nonlinear_arith)
        requires
            n >= length * length,
            c >= 0,
    ;
    lemma_least_share(c, n, length, c);
    let r = choose|r: int| is_share_of_length(c, n, length, r) && r <= c;
    lemma_share_exists(c, n, length);
    lemma_share_unique(c, n, length, r, share_of_length(c, n, length));
}

} // verus!
