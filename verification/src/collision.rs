//! A vertex swept against the line through an edge, with the contact padded
//! square to the edge.

use vstd::prelude::*;
use crate::arith::lemma_product_bound;
use crate::line_segment::LineSegment;
use crate::padding::{pad_across, pad_along, padded_across, padded_along};
use crate::vector::{
    abs, lemma_scaled_at_most_double, lemma_scaled_with_slack, Vec2, Vector2, COORDINATE_LIMIT,
};

verus! {

/// The tolerance on a cross or dot product: a thousandth of a square pixel.
pub const EPSILON: i64 = 1000;

/// How far short of the edge the vertex is kept: a tenth of a pixel.
pub const PADDING: i64 = 100;

/// What a vertex may do on its way to an edge that it meets.
#[derive(Clone, Copy, Debug, PartialEq, Eq, Structural)]
pub enum Collision {
    /// The vertex runs along the edge's line into the edge.
    ColinearCollision { allowed_movement: Vector2 },
    /// The vertex crosses the edge's line.
    EdgeCollision { allowed_movement: Vector2, slide_movement: Vector2 },
    /// The vertex starts on the edge.
    StartInsideEdge,
}

/// Why a vertex does not meet an edge.
#[derive(Clone, Copy, Debug, PartialEq, Eq, Structural)]
pub enum NoCollision {
    ColinearNonOverlapping,
    ParallelNonColinear,
    NonParallelNonIntersecting,
    ZeroLengthEdge,
}

/// The model of a [`Collision`].
pub enum Contact {
    ColinearCollision { allowed_movement: Vec2 },
    EdgeCollision { allowed_movement: Vec2, slide_movement: Vec2 },
    StartInsideEdge,
}

impl View for Collision {
    type V = Contact;

    open spec fn view(&self) -> Contact {
        match self {
            Collision::ColinearCollision { allowed_movement } => Contact::ColinearCollision {
                allowed_movement: allowed_movement@,
            },
            Collision::EdgeCollision { allowed_movement, slide_movement } => Contact::EdgeCollision {
                allowed_movement: allowed_movement@,
                slide_movement: slide_movement@,
            },
            Collision::StartInsideEdge => Contact::StartInsideEdge,
        }
    }
}

/// The vector times `num / den`, rounded toward zero; the zero vector stays
/// as it is whatever the fraction.
pub open spec fn scaled_or_zero(v: Vec2, num: int, den: int) -> Vec2 {
    if v.is_zero() {
        v
    } else {
        v.scaled_toward_zero(num, den)
    }
}

/// The outcome for a vertex at `vertex` that moves by `movement` toward the
/// line through `edge`.
///
/// With `e` the edge's vector and `s` the vector from the vertex to the
/// edge's start: the paths are parallel where `movement x e` is within the
/// tolerance of zero, and on one line where `s x movement` is too. On one
/// line, the edge covers the stretch from `s . movement` to
/// `(s + e) . movement`, in units of the movement's squared length, and the
/// vertex may move up to where that stretch begins. Otherwise the vertex
/// reaches the line after the part `s x e / movement x e` of its movement.
pub open spec fn vertex_sweep(vertex: Vec2, movement: Vec2, edge: LineSegment) -> Result<
    Contact,
    NoCollision,
> {
    let edge_vector = edge.spec_vector();
    let to_start = edge.start@.minus(vertex);
    let cross = movement.cross(edge_vector);
    if edge_vector.is_zero() {
        Err(NoCollision::ZeroLengthEdge)
    } else if abs(cross) < EPSILON {
        let near = to_start.dot(movement);
        let far = to_start.plus(edge_vector).dot(movement);
        let low = if near < far { near } else { far };
        let high = if near < far { far } else { near };
        let length2 = movement.magnitude2();
        if abs(to_start.cross(movement)) >= EPSILON {
            Err(NoCollision::ParallelNonColinear)
        } else if high < -EPSILON || low > length2 + EPSILON {
            Err(NoCollision::ColinearNonOverlapping)
        } else if low < -EPSILON {
            Ok(Contact::StartInsideEdge)
        } else {
            Ok(
                Contact::ColinearCollision {
                    allowed_movement: padded_along(
                        scaled_or_zero(movement, low, length2),
                        PADDING as int,
                    ),
                },
            )
        }
    } else {
        let reach = if cross > 0 {
            to_start.cross(edge_vector)
        } else {
            -to_start.cross(edge_vector)
        };
        if -EPSILON < reach < EPSILON {
            Ok(Contact::StartInsideEdge)
        } else if reach < EPSILON || reach > abs(cross) + EPSILON {
            Err(NoCollision::NonParallelNonIntersecting)
        } else {
            let allowed = padded_across(
                movement.scaled_toward_zero(reach, abs(cross)),
                edge_vector,
                PADDING as int,
            );
            Ok(
                Contact::EdgeCollision {
                    allowed_movement: allowed,
                    slide_movement: movement.minus(allowed).projected_on(edge_vector),
                },
            )
        }
    }
}

/// The coordinates of a nonzero whole vector are no greater than its squared
/// length.
pub proof fn lemma_coordinate_below_square(v: Vec2)
    ensures
        abs(v.x) <= v.magnitude2(),
        abs(v.y) <= v.magnitude2(),
        !v.is_zero() ==> v.magnitude2() > 0,
{
    assert(abs(v.x) <= v.x * v.x && abs(v.y) <= v.y * v.y) by (nonlinear_arith);
    assert(v.x * v.x >= 0 && v.y * v.y >= 0) by (nonlinear_arith);
    if v.x != 0 {
        assert(v.x * v.x > 0) by (nonlinear_arith)
            requires
                v.x != 0,
        ;
    }
    if v.y != 0 {
        assert(v.y * v.y > 0) by (nonlinear_arith)
            requires
                v.y != 0,
        ;
    }
}

/// What becomes of a vertex at `vertex` that moves by `vertex_movement`
/// toward `edge`.
pub fn vertex_moving_towards_edge(vertex: Vector2, vertex_movement: Vector2, edge: LineSegment) -> (r:
    Result<Collision, NoCollision>)
    requires
        vertex.in_range(),
        vertex_movement.in_range(),
        edge.in_range(),
    ensures
        match r {
            Ok(collision) => vertex_sweep(vertex@, vertex_movement@, edge) == Ok::<
                Contact,
                NoCollision,
            >(collision@),
            Err(reason) => vertex_sweep(vertex@, vertex_movement@, edge) == Err::<
                Contact,
                NoCollision,
            >(reason),
        },
{
    let edge_vector = edge.vector();
    if edge_vector.x == 0 && edge_vector.y == 0 {
        return Err(NoCollision::ZeroLengthEdge);
    }
    let vertex_to_edge_start = edge.start.minus(vertex);
    let vertex_to_edge_end = edge.end.minus(vertex);
    proof {
        let l = COORDINATE_LIMIT as int;
        assert(l * (2 * l) == 20_000_000_000_000_000);
        assert((2 * l) * l == 20_000_000_000_000_000);
        assert((2 * l) * (2 * l) == 40_000_000_000_000_000);
        assert(l * l == 10_000_000_000_000_000);
        lemma_product_bound(vertex_movement.x as int, edge_vector.y as int, l, 2 * l);
        lemma_product_bound(vertex_movement.y as int, edge_vector.x as int, l, 2 * l);
        lemma_product_bound(vertex_to_edge_start.x as int, vertex_movement.y as int, 2 * l, l);
        lemma_product_bound(vertex_to_edge_start.y as int, vertex_movement.x as int, 2 * l, l);
        lemma_product_bound(vertex_to_edge_start.x as int, vertex_movement.x as int, 2 * l, l);
        lemma_product_bound(vertex_to_edge_start.y as int, vertex_movement.y as int, 2 * l, l);
        lemma_product_bound(vertex_to_edge_end.x as int, vertex_movement.x as int, 2 * l, l);
        lemma_product_bound(vertex_to_edge_end.y as int, vertex_movement.y as int, 2 * l, l);
        lemma_product_bound(vertex_to_edge_start.x as int, edge_vector.y as int, 2 * l, 2 * l);
        lemma_product_bound(vertex_to_edge_start.y as int, edge_vector.x as int, 2 * l, 2 * l);
        lemma_product_bound(vertex_movement.x as int, vertex_movement.x as int, l, l);
        lemma_product_bound(vertex_movement.y as int, vertex_movement.y as int, l, l);
        assert(vertex_to_edge_end@ == vertex_to_edge_start@.plus(edge_vector@));
    }
    let cross: i128 = vertex_movement.cross(edge_vector);
    let cross_abs: i128 = if cross < 0 {
        -cross
    } else {
        cross
    };
    let epsilon: i128 = EPSILON as i128;
    if cross_abs < epsilon {
        let offset: i128 = vertex_to_edge_start.cross(vertex_movement);
        if offset <= -epsilon || offset >= epsilon {
            return Err(NoCollision::ParallelNonColinear);
        }
        let near: i128 = vertex_to_edge_start.dot(vertex_movement);
        let far: i128 = vertex_to_edge_end.dot(vertex_movement);
        let (low, high) = if near < far {
            (near, far)
        } else {
            (far, near)
        };
        let length2: i128 = vertex_movement.magnitude2();
        if high < -epsilon || low > length2 + epsilon {
            return Err(NoCollision::ColinearNonOverlapping);
        }
        if low < -epsilon {
            return Ok(Collision::StartInsideEdge);
        }
        let reached = if vertex_movement.x == 0 && vertex_movement.y == 0 {
            vertex_movement
        } else {
            proof {
                lemma_coordinate_below_square(vertex_movement@);
                lemma_scaled_with_slack(
                    vertex_movement.x as int,
                    low as int,
                    length2 as int,
                    EPSILON as int,
                );
                lemma_scaled_with_slack(
                    vertex_movement.y as int,
                    low as int,
                    length2 as int,
                    EPSILON as int,
                );
            }
            vertex_movement.scale_by_quotient(low, length2)
        };
        Ok(Collision::ColinearCollision { allowed_movement: pad_along(reached, PADDING) })
    } else {
        let along: i128 = vertex_to_edge_start.cross(edge_vector);
        let reach: i128 = if cross > 0 {
            along
        } else {
            -along
        };
        if reach < epsilon {
            if reach > -epsilon {
                return Ok(Collision::StartInsideEdge);
            }
            return Err(NoCollision::NonParallelNonIntersecting);
        }
        if reach > cross_abs + epsilon {
            return Err(NoCollision::NonParallelNonIntersecting);
        }
        proof {
            lemma_scaled_at_most_double(vertex_movement.x as int, reach as int, cross_abs as int);
            lemma_scaled_at_most_double(vertex_movement.y as int, reach as int, cross_abs as int);
        }
        let reached = vertex_movement.scale_by_quotient(reach, cross_abs);
        let allowed_movement = pad_across(reached, edge_vector, PADDING);
        assert(reached@.within(2 * COORDINATE_LIMIT));
        let remaining = vertex_movement.minus(allowed_movement);
        let slide_movement = remaining.project_on(edge_vector);
        Ok(Collision::EdgeCollision { allowed_movement, slide_movement })
    }
}

} // verus!
