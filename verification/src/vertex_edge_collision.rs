//! A vertex swept against an edge, seen from the vertex or from the edge.

use vstd::prelude::*;
use crate::arith::lemma_product_bound;
use crate::collision::lemma_coordinate_below_square;
use crate::line_segment::LineSegment;
use crate::arith::lemma_div_toward_zero_bounds;
use crate::padding::{lemma_padded_along_is_a_part, pad_along_or_nothing, padded_along_or_nothing};
use crate::vector::{
    abs, lemma_scaled_at_most_double, lemma_scaled_with_slack, Vec2, Vector2, COORDINATE_LIMIT,
};

verus! {

/// The tolerance on a length: a hundredth of a pixel.
pub const EPSILON: i64 = 10;

/// The tolerance on a cross or dot product: a hundredth of a square pixel.
pub const EPSILON_AREA: i64 = 10_000;

/// How far short of the edge the vertex is kept: a fifth of a pixel.
pub const PADDING: i64 = 200;

/// How far the mover may go, and how it may go on along the edge.
#[derive(Clone, Copy, Debug, PartialEq, Eq, Structural)]
pub struct CollisionInfo {
    pub magnitude2: i64,
    pub allowed_movement: Vector2,
    pub slide_movement: Option<Vector2>,
}

/// The model of a [`CollisionInfo`].
pub struct ContactInfo {
    pub magnitude2: int,
    pub allowed_movement: Vec2,
    pub slide_movement: Option<Vec2>,
}

impl View for CollisionInfo {
    type V = ContactInfo;

    open spec fn view(&self) -> ContactInfo {
        ContactInfo {
            magnitude2: self.magnitude2 as int,
            allowed_movement: self.allowed_movement@,
            slide_movement: match self.slide_movement {
                Some(slide) => Some(slide@),
                None => None,
            },
        }
    }
}

impl CollisionInfo {
    /// No movement allowed, and none to go on with.
    pub fn zero() -> (info: Self)
        ensures
            info@ == (ContactInfo {
                magnitude2: 0,
                allowed_movement: Vec2 { x: 0, y: 0 },
                slide_movement: None,
            }),
    {
        Self { magnitude2: 0, allowed_movement: Vector2::zero(), slide_movement: None }
    }
}

/// What becomes of the mover where vertex and edge meet.
#[derive(Clone, Copy, Debug, PartialEq, Eq, Structural)]
pub enum Collision {
    EdgeCollision(CollisionInfo),
    NoMovement,
    StartInsideEdge,
}

/// The model of a [`Collision`].
pub enum Contact {
    EdgeCollision(ContactInfo),
    NoMovement,
    StartInsideEdge,
}

impl View for Collision {
    type V = Contact;

    open spec fn view(&self) -> Contact {
        match self {
            Collision::EdgeCollision(info) => Contact::EdgeCollision(info@),
            Collision::NoMovement => Contact::NoMovement,
            Collision::StartInsideEdge => Contact::StartInsideEdge,
        }
    }
}

/// Why vertex and edge do not meet.
#[derive(Clone, Copy, Debug, PartialEq, Eq, Structural)]
pub enum NoCollision {
    ColinearNonOverlapping,
    ParallelNonColinear,
    NonParallelNonIntersecting,
    ZeroLengthEdge,
}

/// Which of the two is the mover. The movement is always that of the vertex
/// relative to the edge; the answer is given in the mover's own frame.
#[derive(Clone, Copy, Debug, PartialEq, Eq, Structural)]
pub enum WhatIsMoving {
    VertexMovingTowardsEdge,
    EdgeMovingTowardsVertex,
}

impl WhatIsMoving {
    /// One for the vertex, minus one for the edge.
    pub open spec fn spec_multiplier(self) -> int {
        match self {
            WhatIsMoving::VertexMovingTowardsEdge => 1,
            WhatIsMoving::EdgeMovingTowardsVertex => -1,
        }
    }

    /// One for the vertex, minus one for the edge.
    pub fn multiplier(self) -> (m: i64)
        ensures
            m == self.spec_multiplier(),
    {
        match self {
            WhatIsMoving::VertexMovingTowardsEdge => 1,
            WhatIsMoving::EdgeMovingTowardsVertex => -1,
        }
    }

    /// A displacement of the vertex, as a displacement of the mover.
    pub open spec fn seen_by_mover(self, v: Vec2) -> Vec2 {
        match self {
            WhatIsMoving::VertexMovingTowardsEdge => v,
            WhatIsMoving::EdgeMovingTowardsVertex => v.negated(),
        }
    }

    fn in_mover_frame(self, v: Vector2) -> (r: Vector2)
        requires
            v@.within(i64::MAX as int),
        ensures
            r@ == self.seen_by_mover(v@),
    {
        match self {
            WhatIsMoving::VertexMovingTowardsEdge => v,
            WhatIsMoving::EdgeMovingTowardsVertex => v.negated(),
        }
    }
}

impl ContactInfo {
    /// The same contact in the frame of the mover.
    pub open spec fn seen_by_mover(self, what_is_moving: WhatIsMoving) -> ContactInfo {
        ContactInfo {
            magnitude2: self.magnitude2,
            allowed_movement: what_is_moving.seen_by_mover(self.allowed_movement),
            slide_movement: match self.slide_movement {
                Some(slide) => Some(what_is_moving.seen_by_mover(slide)),
                None => None,
            },
        }
    }
}

/// The outcome for a vertex at `vertex` that moves by `movement` relative to
/// `edge`, in the vertex's frame.
///
/// With `e` the edge's vector and `s` the vector from the vertex to the
/// edge's start: the vertex reaches the edge's line after the part
/// `s x e / movement x e` of its movement, at the part
/// `s x movement / movement x e` of the edge, and both must lie between zero
/// and one. Where the two run along one line the vertex may move up to where
/// the edge begins. Either way the allowed movement is what brings the vertex
/// to the edge, pulled back along itself by the padding, and nothing where
/// that is shorter than the padding.
pub open spec fn vertex_sweep(vertex: Vec2, movement: Vec2, edge: LineSegment) -> Result<
    Contact,
    NoCollision,
> {
    let edge_vector = edge.spec_vector();
    let to_start = edge.start@.minus(vertex);
    let cross = movement.cross(edge_vector);
    if abs(movement.x) < EPSILON && abs(movement.y) < EPSILON {
        Ok(Contact::NoMovement)
    } else if abs(edge_vector.x) < EPSILON && abs(edge_vector.y) < EPSILON {
        Err(NoCollision::ZeroLengthEdge)
    } else if abs(cross) < EPSILON_AREA {
        let near = to_start.dot(movement);
        let far = to_start.plus(edge_vector).dot(movement);
        let low = if near < far { near } else { far };
        let high = if near < far { far } else { near };
        let length2 = movement.magnitude2();
        if abs(to_start.cross(movement)) >= EPSILON_AREA {
            Err(NoCollision::ParallelNonColinear)
        } else if high < -EPSILON_AREA || low > length2 + EPSILON_AREA {
            Err(NoCollision::ColinearNonOverlapping)
        } else if low < -EPSILON_AREA {
            Ok(Contact::StartInsideEdge)
        } else {
            let allowed = padded_along_or_nothing(
                movement.scaled_toward_zero(low, length2),
                PADDING as int,
            );
            Ok(
                Contact::EdgeCollision(
                    ContactInfo {
                        magnitude2: allowed.magnitude2(),
                        allowed_movement: allowed,
                        slide_movement: None,
                    },
                ),
            )
        }
    } else {
        let reach = if cross > 0 {
            to_start.cross(edge_vector)
        } else {
            -to_start.cross(edge_vector)
        };
        let along = if cross > 0 {
            to_start.cross(movement)
        } else {
            -to_start.cross(movement)
        };
        if -EPSILON_AREA < reach < EPSILON_AREA {
            Ok(Contact::StartInsideEdge)
        } else if reach < EPSILON_AREA || reach > abs(cross) + EPSILON_AREA || along
            < -EPSILON_AREA || along > abs(cross) + EPSILON_AREA {
            Err(NoCollision::NonParallelNonIntersecting)
        } else {
            let allowed = padded_along_or_nothing(
                movement.scaled_toward_zero(reach, abs(cross)),
                PADDING as int,
            );
            Ok(
                Contact::EdgeCollision(
                    ContactInfo {
                        magnitude2: allowed.magnitude2(),
                        allowed_movement: allowed,
                        slide_movement: Some(movement.minus(allowed).projected_on(edge_vector)),
                    },
                ),
            )
        }
    }
}

/// The outcome of [`vertex_sweep`] in the frame of whichever is moving.
pub open spec fn vertex_edge_contact(
    vertex: Vec2,
    movement: Vec2,
    edge: LineSegment,
    what_is_moving: WhatIsMoving,
) -> Result<Contact, NoCollision> {
    match vertex_sweep(vertex, movement, edge) {
        Ok(Contact::EdgeCollision(info)) => Ok(
            Contact::EdgeCollision(info.seen_by_mover(what_is_moving)),
        ),
        other => other,
    }
}

/// A vertex moving toward an edge and the edge moving toward the vertex are
/// mirror images: they meet or miss alike, the allowed movement and the slide
/// of the one are those of the other negated, and they are equally long.
pub proof fn lemma_vertex_and_edge_mirror(vertex: Vec2, movement: Vec2, edge: LineSegment)
    ensures
        match (
            vertex_edge_contact(vertex, movement, edge, WhatIsMoving::VertexMovingTowardsEdge),
            vertex_edge_contact(vertex, movement, edge, WhatIsMoving::EdgeMovingTowardsVertex),
        ) {
            (Ok(Contact::EdgeCollision(of_vertex)), Ok(Contact::EdgeCollision(of_edge))) => {
                &&& of_edge.magnitude2 == of_vertex.magnitude2
                &&& of_edge.allowed_movement == of_vertex.allowed_movement.negated()
                &&& of_vertex.allowed_movement == of_edge.allowed_movement.negated()
                &&& match (of_vertex.slide_movement, of_edge.slide_movement) {
                    (Some(slide_of_vertex), Some(slide_of_edge)) => slide_of_edge
                        == slide_of_vertex.negated() && slide_of_vertex
                        == slide_of_edge.negated(),
                    (None, None) => true,
                    _ => false,
                }
            },
            (Ok(Contact::NoMovement), Ok(Contact::NoMovement)) => true,
            (Ok(Contact::StartInsideEdge), Ok(Contact::StartInsideEdge)) => true,
            (Err(of_vertex), Err(of_edge)) => of_vertex == of_edge,
            _ => false,
        },
{
}

/// What becomes of the mover where a vertex at `vertex` moves by `movement`
/// relative to `edge`.
pub fn vertex_edge_collision(
    vertex: Vector2,
    movement: Vector2,
    edge: LineSegment,
    what_is_moving: WhatIsMoving,
) -> (r: Result<Collision, NoCollision>)
    requires
        vertex.in_range(),
        movement.in_range(),
        edge.in_range(),
    ensures
        match r {
            Ok(collision) => vertex_edge_contact(vertex@, movement@, edge, what_is_moving) == Ok::<
                Contact,
                NoCollision,
            >(collision@),
            Err(reason) => vertex_edge_contact(vertex@, movement@, edge, what_is_moving) == Err::<
                Contact,
                NoCollision,
            >(reason),
        },
{
    if -EPSILON < movement.x && movement.x < EPSILON && -EPSILON < movement.y && movement.y
        < EPSILON {
        return Ok(Collision::NoMovement);
    }
    let edge_vector = edge.vector();
    if -EPSILON < edge_vector.x && edge_vector.x < EPSILON && -EPSILON < edge_vector.y
        && edge_vector.y < EPSILON {
        return Err(NoCollision::ZeroLengthEdge);
    }
    let vertex_to_edge_start = edge.start.minus(vertex);
    let vertex_to_edge_end = edge.end.minus(vertex);
    proof {
        let l = COORDINATE_LIMIT as int;
        assert(l * (2 * l) == 20_000_000_000_000_000);
        assert((2 * l) * l == 20_000_000_000_000_000);
        assert((2 * l) * (2 * l) == 40_000_000_000_000_000);
        assert(l * l == 10_000_000_000_000_000);
        lemma_product_bound(movement.x as int, edge_vector.y as int, l, 2 * l);
        lemma_product_bound(movement.y as int, edge_vector.x as int, l, 2 * l);
        lemma_product_bound(vertex_to_edge_start.x as int, movement.y as int, 2 * l, l);
        lemma_product_bound(vertex_to_edge_start.y as int, movement.x as int, 2 * l, l);
        lemma_product_bound(vertex_to_edge_start.x as int, movement.x as int, 2 * l, l);
        lemma_product_bound(vertex_to_edge_start.y as int, movement.y as int, 2 * l, l);
        lemma_product_bound(vertex_to_edge_end.x as int, movement.x as int, 2 * l, l);
        lemma_product_bound(vertex_to_edge_end.y as int, movement.y as int, 2 * l, l);
        lemma_product_bound(vertex_to_edge_start.x as int, edge_vector.y as int, 2 * l, 2 * l);
        lemma_product_bound(vertex_to_edge_start.y as int, edge_vector.x as int, 2 * l, 2 * l);
        lemma_product_bound(movement.x as int, movement.x as int, l, l);
        lemma_product_bound(movement.y as int, movement.y as int, l, l);
        assert(vertex_to_edge_end@ == vertex_to_edge_start@.plus(edge_vector@));
    }
    let cross: i128 = movement.cross(edge_vector);
    let cross_abs: i128 = if cross < 0 {
        -cross
    } else {
        cross
    };
    let epsilon: i128 = EPSILON_AREA as i128;
    let offset: i128 = vertex_to_edge_start.cross(movement);
    if cross_abs < epsilon {
        if offset <= -epsilon || offset >= epsilon {
            return Err(NoCollision::ParallelNonColinear);
        }
        let near: i128 = vertex_to_edge_start.dot(movement);
        let far: i128 = vertex_to_edge_end.dot(movement);
        let (low, high) = if near < far {
            (near, far)
        } else {
            (far, near)
        };
        let length2: i128 = movement.magnitude2();
        if high < -epsilon || low > length2 + epsilon {
            return Err(NoCollision::ColinearNonOverlapping);
        }
        if low < -epsilon {
            return Ok(Collision::StartInsideEdge);
        }
        proof {
            lemma_coordinate_below_square(movement@);
            lemma_scaled_with_slack(
                movement.x as int,
                low as int,
                length2 as int,
                EPSILON_AREA as int,
            );
            lemma_scaled_with_slack(
                movement.y as int,
                low as int,
                length2 as int,
                EPSILON_AREA as int,
            );
        }
        let reached = movement.scale_by_quotient(low, length2);
        let with_padding = pad_along_or_nothing(reached, PADDING);
        assert(reached@.within(2 * COORDINATE_LIMIT));
        Ok(
            Collision::EdgeCollision(
                CollisionInfo {
                    magnitude2: squared_length(with_padding),
                    allowed_movement: what_is_moving.in_mover_frame(with_padding),
                    slide_movement: None,
                },
            ),
        )
    } else {
        let reach: i128 = if cross > 0 {
            vertex_to_edge_start.cross(edge_vector)
        } else {
            -vertex_to_edge_start.cross(edge_vector)
        };
        let along: i128 = if cross > 0 {
            offset
        } else {
            -offset
        };
        if reach < epsilon {
            if reach > -epsilon {
                return Ok(Collision::StartInsideEdge);
            }
            return Err(NoCollision::NonParallelNonIntersecting);
        }
        if reach > cross_abs + epsilon {
            return Err(NoCollision::NonParallelNonIntersecting);
        }
        if along < -epsilon {
            return Err(NoCollision::NonParallelNonIntersecting);
        }
        if along > cross_abs + epsilon {
            return Err(NoCollision::NonParallelNonIntersecting);
        }
        proof {
            lemma_scaled_at_most_double(movement.x as int, reach as int, cross_abs as int);
            lemma_scaled_at_most_double(movement.y as int, reach as int, cross_abs as int);
        }
        let reached = movement.scale_by_quotient(reach, cross_abs);
        let with_padding = pad_along_or_nothing(reached, PADDING);
        assert(reached@.within(2 * COORDINATE_LIMIT));
        let remaining = movement.minus(with_padding);
        let slide_movement = remaining.project_on(edge_vector);
        Ok(
            Collision::EdgeCollision(
                CollisionInfo {
                    magnitude2: squared_length(with_padding),
                    allowed_movement: what_is_moving.in_mover_frame(with_padding),
                    slide_movement: Some(what_is_moving.in_mover_frame(slide_movement)),
                },
            ),
        )
    }
}

/// The squared length of a vector short enough for it to fit.
fn squared_length(v: Vector2) -> (m: i64)
    requires
        v@.within(1_000_000_000),
    ensures
        m == v@.magnitude2(),
{
    proof {
        lemma_product_bound(v.x as int, v.x as int, 1_000_000_000, 1_000_000_000);
        lemma_product_bound(v.y as int, v.y as int, 1_000_000_000, 1_000_000_000);
    }
    v.magnitude2() as i64
}

/// Where the vertex crosses the edge's line, what it is allowed is a part of
/// its movement up to the line: no coordinate of it points against the
/// movement, and none is longer than that of the movement up to the line.
pub proof fn lemma_allowed_movement_is_a_part(vertex: Vec2, movement: Vec2, edge: LineSegment)
    ensures
        match vertex_sweep(vertex, movement, edge) {
            Ok(Contact::EdgeCollision(info)) => info.slide_movement.is_some() ==> {
                let cross = movement.cross(edge.spec_vector());
                let along = edge.start@.minus(vertex).cross(edge.spec_vector());
                let reached = movement.scaled_toward_zero(
                    if cross > 0 { along } else { -along },
                    abs(cross),
                );
                &&& info.magnitude2 == info.allowed_movement.magnitude2()
                &&& (movement.x >= 0 ==> 0 <= info.allowed_movement.x <= reached.x)
                &&& (movement.x <= 0 ==> reached.x <= info.allowed_movement.x <= 0)
                &&& (movement.y >= 0 ==> 0 <= info.allowed_movement.y <= reached.y)
                &&& (movement.y <= 0 ==> reached.y <= info.allowed_movement.y <= 0)
            },
            _ => true,
        },
{
    match vertex_sweep(vertex, movement, edge) {
        Ok(Contact::EdgeCollision(info)) => {
            if info.slide_movement.is_some() {
                let cross = movement.cross(edge.spec_vector());
                let along = edge.start@.minus(vertex).cross(edge.spec_vector());
                let reach = if cross > 0 { along } else { -along };
                let reached = movement.scaled_toward_zero(reach, abs(cross));
                assert(reach >= EPSILON_AREA && abs(cross) > 0);
                assert((movement.x >= 0 ==> movement.x * reach >= 0) && (movement.x <= 0
                    ==> movement.x * reach <= 0) && (movement.y >= 0 ==> movement.y * reach >= 0)
                    && (movement.y <= 0 ==> movement.y * reach <= 0)) by (nonlinear_arith)
                    requires
                        reach > 0,
                ;
                lemma_div_toward_zero_bounds(movement.x * reach, abs(cross));
                lemma_div_toward_zero_bounds(movement.y * reach, abs(cross));
                lemma_padded_along_is_a_part(reached, PADDING as int);
            }
        },
        _ => {},
    }
}

} // verus!
