use swept_collision::collision::{vertex_moving_towards_edge, Collision, NoCollision};
use swept_collision::line_segment::LineSegment;
use swept_collision::padding::{pad_across, pad_along, pad_along_or_nothing};
use swept_collision::vector::Vector2;
use swept_collision::vertex_edge_collision::{
    vertex_edge_collision, Collision as EitherCollision, CollisionInfo,
    NoCollision as NeitherCollides, WhatIsMoving,
};

fn v(x: i64, y: i64) -> Vector2 {
    Vector2::new(x, y)
}

fn ls(start: Vector2, end: Vector2) -> LineSegment {
    LineSegment::new_both_solid(start, end)
}

#[test]
fn padding_along_the_movement() {
    assert_eq!(pad_along(v(3000, 4000), 100), v(2940, 3920));
    assert_eq!(pad_along(v(0, -1000), 100), v(0, -900));
    assert_eq!(pad_along(v(0, 0), 100), v(0, 0));
    // a movement shorter than the padding is turned round
    assert_eq!(pad_along(v(50, 0), 100), v(-50, 0));
    // unless nothing is allowed in its place
    assert_eq!(pad_along_or_nothing(v(50, 0), 100), v(0, 0));
    assert_eq!(pad_along_or_nothing(v(99, 0), 100), v(0, 0));
    assert_eq!(pad_along_or_nothing(v(100, 0), 100), v(0, 0));
    assert_eq!(pad_along_or_nothing(v(3000, 4000), 100), v(2940, 3920));
}

#[test]
fn padding_across_the_edge() {
    // to the side that makes the movement shorter
    assert_eq!(pad_across(v(0, 1000), v(500, 0), 100), v(0, 900));
    assert_eq!(pad_across(v(0, 1000), v(-500, 0), 100), v(0, 900));
    assert_eq!(pad_across(v(0, -1000), v(500, 0), 100), v(0, -900));
    assert_eq!(pad_across(v(2000, 2000), v(4000, -4000), 100), v(1929, 1929));
    // the far side where the two are equally long
    assert_eq!(pad_across(v(1000, 0), v(500, 0), 100), v(1000, -100));
}

#[test]
fn edge_without_length_is_not_met() {
    assert_eq!(
        vertex_moving_towards_edge(v(0, 0), v(3000, 3000), ls(v(1000, 1000), v(1000, 1000))),
        Err(NoCollision::ZeroLengthEdge)
    );
    assert_eq!(
        vertex_edge_collision(
            v(0, 0),
            v(3000, 3000),
            ls(v(1000, 1000), v(1009, 1009)),
            WhatIsMoving::VertexMovingTowardsEdge
        ),
        Err(NeitherCollides::ZeroLengthEdge)
    );
    assert!(vertex_edge_collision(
        v(0, 0),
        v(3000, 3000),
        ls(v(1000, 1000), v(1010, 990)),
        WhatIsMoving::VertexMovingTowardsEdge
    )
    .is_ok());
}

#[test]
fn vertex_that_does_not_move() {
    let edge = ls(v(0, 4000), v(4000, 0));
    assert_eq!(
        vertex_edge_collision(v(0, 0), v(0, 0), edge, WhatIsMoving::VertexMovingTowardsEdge),
        Ok(EitherCollision::NoMovement)
    );
    assert_eq!(
        vertex_edge_collision(v(0, 0), v(9, -9), edge, WhatIsMoving::EdgeMovingTowardsVertex),
        Ok(EitherCollision::NoMovement)
    );
    assert_eq!(
        vertex_edge_collision(v(0, 0), v(10, 0), edge, WhatIsMoving::VertexMovingTowardsEdge),
        Err(NeitherCollides::NonParallelNonIntersecting)
    );
    // without the test for it, a vertex that stays where it is meets an
    // edge on its own line with nothing allowed
    assert_eq!(
        vertex_moving_towards_edge(v(0, 0), v(0, 0), edge),
        Ok(Collision::ColinearCollision {
            allowed_movement: v(0, 0)
        })
    );
}

#[test]
fn every_reason_for_not_colliding() {
    let moving = WhatIsMoving::VertexMovingTowardsEdge;
    assert_eq!(
        vertex_edge_collision(v(0, 0), v(2000, 1000), ls(v(1000, 1000), v(3000, 2000)), moving),
        Err(NeitherCollides::ParallelNonColinear)
    );
    assert_eq!(
        vertex_edge_collision(v(0, 0), v(2000, 1000), ls(v(4000, 2000), v(8000, 4000)), moving),
        Err(NeitherCollides::ColinearNonOverlapping)
    );
    assert_eq!(
        vertex_edge_collision(v(0, 0), v(2000, 2000), ls(v(0, 5000), v(5000, 0)), moving),
        Err(NeitherCollides::NonParallelNonIntersecting)
    );
    // the line is met, but beside the edge
    assert_eq!(
        vertex_edge_collision(v(0, 0), v(3000, 3000), ls(v(4000, 0), v(8000, -4000)), moving),
        Err(NeitherCollides::NonParallelNonIntersecting)
    );
    // which the sweep against the whole line does not ask
    assert!(
        vertex_moving_towards_edge(v(0, 0), v(3000, 3000), ls(v(4000, 0), v(8000, -4000)))
            .is_ok()
    );
}

#[test]
fn colinear_contact_has_no_slide() {
    let found = vertex_edge_collision(
        v(0, 0),
        v(2000, 1000),
        ls(v(2000, 1000), v(8000, 4000)),
        WhatIsMoving::EdgeMovingTowardsVertex,
    );
    assert_eq!(
        found,
        Ok(EitherCollision::EdgeCollision(CollisionInfo {
            magnitude2: 1821 * 1821 + 910 * 910,
            allowed_movement: v(-1821, -910),
            slide_movement: None,
        }))
    );
}

#[test]
fn nothing_allowed() {
    let zero = CollisionInfo::zero();
    assert_eq!(zero.magnitude2, 0);
    assert_eq!(zero.allowed_movement, v(0, 0));
    assert_eq!(zero.slide_movement, None);
}

#[test]
fn which_is_moving() {
    assert_eq!(WhatIsMoving::VertexMovingTowardsEdge.multiplier(), 1);
    assert_eq!(WhatIsMoving::EdgeMovingTowardsVertex.multiplier(), -1);
}

#[test]
fn edge_far_from_the_origin() {
    // a segment need not be small enough to be a shape to be swept against
    let far = ls(v(90_000_000, 90_004_000), v(90_004_000, 90_000_000));
    assert!(far.is_in_range());
    assert!(!far.is_in_shape());
    assert!(ls(v(0, 4000), v(9_999_900, 0)).is_in_shape());
    assert!(!ls(v(0, 4000), v(9_999_901, 0)).is_in_shape());
    assert!(!ls(v(100_000_001, 0), v(0, 0)).is_in_range());
    let vertex = v(90_000_000, 90_000_000);
    let found = vertex_edge_collision(
        vertex,
        v(3000, 3000),
        far,
        WhatIsMoving::VertexMovingTowardsEdge,
    );
    match found {
        Ok(EitherCollision::EdgeCollision(info)) => {
            assert_eq!(info.allowed_movement, v(1858, 1858));
        }
        _ => panic!(),
    }
    assert_eq!(
        vertex_moving_towards_edge(vertex, v(3000, 3000), far),
        Ok(Collision::EdgeCollision {
            allowed_movement: v(1929, 1929),
            slide_movement: v(0, 0),
        })
    );
}
