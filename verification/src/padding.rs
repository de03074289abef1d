//! Keeping a vertex a little short of the edge that it runs into.

use vstd::prelude::*;
use crate::arith::mul_wide;
use crate::normalize::{lemma_share_at_most_coordinate, LENGTH_LIMIT};
use crate::vector::{Vec2, Vector2, WIDE_LIMIT};

verus! {

/// The allowed movement, shortened by `padding` along its own direction.
pub open spec fn padded_along(allowed: Vec2, padding: int) -> Vec2 {
    allowed.minus(allowed.resized(padding))
}

/// The allowed movement, shortened by `padding` along its own direction;
/// nothing at all where it is shorter than the padding.
pub open spec fn padded_along_or_nothing(allowed: Vec2, padding: int) -> Vec2 {
    if allowed.magnitude2() < padding * padding {
        Vec2 { x: 0, y: 0 }
    } else {
        padded_along(allowed, padding)
    }
}

/// The allowed movement, displaced by `padding` square to the edge, to the
/// side that makes it shorter.
pub open spec fn padded_across(allowed: Vec2, edge_vector: Vec2, padding: int) -> Vec2 {
    let pad = edge_vector.rot90().resized(padding);
    let up = allowed.plus(pad);
    let down = allowed.minus(pad);
    if up.magnitude2() < down.magnitude2() {
        up
    } else {
        down
    }
}

/// The allowed movement, shortened by `padding` along its own direction.
pub fn pad_along(allowed: Vector2, padding: i64) -> (v: Vector2)
    requires
        allowed@.within(WIDE_LIMIT as int),
        0 <= padding <= LENGTH_LIMIT,
    ensures
        v@ == padded_along(allowed@, padding as int),
        forall|limit: int| #[trigger] allowed@.within(limit) ==> v@.within(limit + padding),
{
    allowed.minus(allowed.resize(padding))
}

/// The allowed movement, shortened by `padding` along its own direction;
/// nothing at all where it is shorter than the padding.
pub fn pad_along_or_nothing(allowed: Vector2, padding: i64) -> (v: Vector2)
    requires
        allowed@.within(WIDE_LIMIT as int),
        0 <= padding <= LENGTH_LIMIT,
    ensures
        v@ == padded_along_or_nothing(allowed@, padding as int),
        forall|limit: int| #[trigger] allowed@.within(limit) ==> v@.within(limit + padding),
{
    if allowed.magnitude2() < mul_wide(padding, padding) {
        Vector2::zero()
    } else {
        pad_along(allowed, padding)
    }
}

/// The allowed movement, displaced by `padding` square to the edge, to the
/// side that makes it shorter.
pub fn pad_across(allowed: Vector2, edge_vector: Vector2, padding: i64) -> (v: Vector2)
    requires
        allowed@.within(WIDE_LIMIT as int),
        edge_vector@.within(WIDE_LIMIT as int),
        0 <= padding <= LENGTH_LIMIT,
    ensures
        v@ == padded_across(allowed@, edge_vector@, padding as int),
        forall|limit: int| #[trigger] allowed@.within(limit) ==> v@.within(limit + padding),
{
    let pad = edge_vector.rot90().resize(padding);
    let up = allowed.plus(pad);
    let down = allowed.minus(pad);
    if up.magnitude2() < down.magnitude2() {
        up
    } else {
        down
    }
}

/// What is left of an allowed movement that is pulled back along itself is a
/// part of it: each coordinate lies between zero and that of the allowed
/// movement, so the movement is shortened and never turned round.
pub proof fn lemma_padded_along_is_a_part(allowed: Vec2, padding: int)
    requires
        padding >= 0,
    ensures
        ({
            let left = padded_along_or_nothing(allowed, padding);
            &&& (allowed.x >= 0 ==> 0 <= left.x <= allowed.x)
            &&& (allowed.x <= 0 ==> allowed.x <= left.x <= 0)
            &&& (allowed.y >= 0 ==> 0 <= left.y <= allowed.y)
            &&& (allowed.y <= 0 ==> allowed.y <= left.y <= 0)
        }),
{
    let n = allowed.magnitude2();
    if n >= padding * padding && !allowed.is_zero() {
        assert(allowed.x * allowed.x >= 0 && allowed.y * allowed.y >= 0) by (nonlinear_arith);
        assert(n > 0) by (nonlinear_arith)
            requires
                n == allowed.x * allowed.x + allowed.y * allowed.y,
                allowed.x != 0 || allowed.y != 0,
        ;
        lemma_share_at_most_coordinate(if allowed.x < 0 { -allowed.x } else { allowed.x }, n, padding);
        lemma_share_at_most_coordinate(if allowed.y < 0 { -allowed.y } else { allowed.y }, n, padding);
    }
}

} // verus!
