use swept_collision::left_solid_edge::{LeftSolidEdge, StartOrEnd};
use swept_collision::vector::Vector2;

fn v(x: i64, y: i64) -> Vector2 {
    Vector2::new(x, y)
}

fn edge(start: Vector2, end: Vector2) -> LeftSolidEdge {
    LeftSolidEdge::new(start, end)
}

// The underside of a box 32 wide whose bottom is at y = 64, and the top of
// a floor at y = 70: the solid side is on the left of each.
fn underside() -> LeftSolidEdge {
    edge(v(32_000, 64_000), v(0, 64_000))
}

fn floor_top() -> LeftSolidEdge {
    edge(v(-100_000, 70_000), v(400_000, 70_000))
}

#[test]
fn edge_swept_onto_edge_stops_at_contact() {
    let movement = v(0, 10_000);
    let collision = underside()
        .collide_with_stationary_edge(&floor_top(), movement)
        .unwrap();
    let multiplier = collision.movement_multiplier();
    assert_eq!(
        multiplier.numerator() * 10,
        6 * multiplier.denominator()
    );
    assert_eq!(collision.movement_to_collision(movement), v(0, 6_000));
    assert_eq!(collision.movement_following_collision(movement), v(0, 4_000));
    assert_eq!(collision.slide(movement), v(0, 0));
    assert_eq!(
        collision
            .movement_to_collision(movement)
            .plus(collision.movement_following_collision(movement)),
        movement
    );
}

#[test]
fn slide_keeps_what_runs_along_the_edge() {
    let movement = v(5_000, 10_000);
    let collision = underside()
        .collide_with_stationary_edge(&floor_top(), movement)
        .unwrap();
    assert_eq!(collision.movement_to_collision(movement), v(3_000, 6_000));
    assert_eq!(collision.movement_following_collision(movement), v(2_000, 4_000));
    assert_eq!(collision.slide(movement), v(2_000, 0));
    let edge_vector = collision.edge_vector();
    assert_eq!(collision.slide(movement).cross(edge_vector), 0);
    assert_eq!(collision.slide(movement).dot(edge_vector.rot90()), 0);
}

#[test]
fn split_movement_is_rounded_toward_zero() {
    let movement = v(1_000, 3);
    let moving = edge(v(32_000, 0), v(0, 0));
    let stationary = edge(v(0, 1), v(400_000, 1));
    let collision = moving
        .collide_with_stationary_edge(&stationary, movement)
        .unwrap();
    let multiplier = collision.movement_multiplier();
    assert_eq!(multiplier.numerator() * 3, multiplier.denominator());
    assert_eq!(collision.movement_to_collision(movement), v(333, 1));
    assert_eq!(collision.movement_following_collision(movement), v(667, 2));
}

#[test]
fn both_ends_of_the_moving_edge_arrive() {
    let collision = underside()
        .collide_with_stationary_edge(&floor_top(), v(0, 10_000))
        .unwrap();
    // The moving edge lies within the floor: its start and its end both
    // arrive on the floor, and no end of the floor arrives on it.
    assert!(collision.moving_edge_min_collision_position().is_none());
    assert!(collision.moving_edge_max_collision_position().is_none());
    let low = collision.stationary_edge_min_collision_position().unwrap();
    let high = collision.stationary_edge_max_collision_position().unwrap();
    assert_eq!(low.which_part_of_other_edge, StartOrEnd::End);
    assert_eq!(high.which_part_of_other_edge, StartOrEnd::Start);
    let along = low.how_far_along_this_edge;
    assert_eq!(along.numerator() * 500, 100 * along.denominator());
    let along = high.how_far_along_this_edge;
    assert_eq!(along.numerator() * 500, 132 * along.denominator());
    assert_eq!(collision.edge_vector(), v(500_000, 0));
}

#[test]
fn end_of_the_other_edge_arrives_on_the_moving_edge() {
    // A floor that begins under the middle of the moving edge: its start
    // arrives on the moving edge, and the moving edge's start on the floor.
    let floor = edge(v(16_000, 70_000), v(400_000, 70_000));
    let collision = underside()
        .collide_with_stationary_edge(&floor, v(0, 10_000))
        .unwrap();
    let on_moving = collision.moving_edge_min_collision_position().unwrap();
    assert_eq!(on_moving.which_part_of_other_edge, StartOrEnd::Start);
    let along = on_moving.how_far_along_this_edge;
    assert_eq!(along.numerator() * 2, along.denominator());
    let same = collision.moving_edge_max_collision_position().unwrap();
    assert_eq!(same.which_part_of_other_edge, StartOrEnd::Start);
    let on_floor = collision.stationary_edge_min_collision_position().unwrap();
    assert_eq!(on_floor.which_part_of_other_edge, StartOrEnd::Start);
    assert_eq!(collision.edge_vector(), v(-32_000, 0));
}

#[test]
fn edges_that_move_apart_do_not_collide() {
    assert!(underside()
        .collide_with_stationary_edge(&floor_top(), v(0, -10_000))
        .is_none());
}

#[test]
fn movement_along_the_edges_does_not_collide() {
    assert!(underside()
        .collide_with_stationary_edge(&floor_top(), v(10_000, 0))
        .is_none());
    let touching = edge(v(32_000, 70_000), v(0, 70_000));
    assert!(touching
        .collide_with_stationary_edge(&floor_top(), v(10_000, 0))
        .is_none());
}

#[test]
fn edges_that_face_the_wrong_way_do_not_collide() {
    // The floor's underside, run into from above: it faces down.
    let facing_down = edge(v(400_000, 70_000), v(0, 70_000));
    assert!(underside()
        .collide_with_stationary_edge(&facing_down, v(0, 10_000))
        .is_none());
    // A top side moving down onto a top side.
    let top = edge(v(0, 64_000), v(32_000, 64_000));
    assert!(top
        .collide_with_stationary_edge(&floor_top(), v(0, 10_000))
        .is_none());
}

#[test]
fn edges_without_length_do_not_collide() {
    let point = edge(v(10_000, 64_000), v(10_000, 64_000));
    assert!(point
        .collide_with_stationary_edge(&floor_top(), v(0, 10_000))
        .is_none());
    assert!(underside()
        .collide_with_stationary_edge(&edge(v(5, 70_000), v(5, 70_000)), v(0, 10_000))
        .is_none());
}

#[test]
fn no_movement_does_not_collide() {
    assert!(underside()
        .collide_with_stationary_edge(&floor_top(), v(0, 0))
        .is_none());
}

#[test]
fn edge_out_of_reach_does_not_collide() {
    assert!(underside()
        .collide_with_stationary_edge(&floor_top(), v(0, 5_000))
        .is_none());
    let beside = edge(v(500_000, 70_000), v(900_000, 70_000));
    assert!(underside()
        .collide_with_stationary_edge(&beside, v(0, 10_000))
        .is_none());
}

#[test]
fn contact_at_the_full_movement_counts() {
    let movement = v(0, 6_000);
    let collision = underside()
        .collide_with_stationary_edge(&floor_top(), movement)
        .unwrap();
    assert_eq!(collision.movement_to_collision(movement), movement);
    assert_eq!(collision.movement_following_collision(movement), v(0, 0));
}

#[test]
fn edge_that_touches_already_is_held() {
    let resting = edge(v(32_000, 70_000), v(0, 70_000));
    let movement = v(0, 10_000);
    let collision = resting
        .collide_with_stationary_edge(&floor_top(), movement)
        .unwrap();
    assert_eq!(collision.movement_multiplier().numerator(), 0);
    assert_eq!(collision.movement_to_collision(movement), v(0, 0));
    assert_eq!(collision.movement_following_collision(movement), movement);
}

#[test]
fn shared_corner_counts_once() {
    // Two floor tiles side by side: a vertex that comes down on the corner
    // they share arrives on the second tile only.
    let first = edge(v(0, 70_000), v(100_000, 70_000));
    let second = edge(v(100_000, 70_000), v(200_000, 70_000));
    // A narrow edge whose start comes down exactly on the shared corner.
    let moving = edge(v(100_000, 64_000), v(99_999, 64_000));
    let movement = v(0, 10_000);
    let on_first = moving.collide_with_stationary_edge(&first, movement);
    let on_second = moving.collide_with_stationary_edge(&second, movement);
    let starts_on = |collision: &Option<swept_collision::left_solid_edge::LeftSolidEdgeCollision>| {
        collision.map_or(false, |c| {
            c.stationary_edge_max_collision_position()
                .map_or(false, |p| p.which_part_of_other_edge == StartOrEnd::Start)
        })
    };
    assert_eq!(starts_on(&on_first), true);
    assert_eq!(starts_on(&on_second), false);
}

#[test]
fn edges_move_with_their_shape() {
    let e = edge(v(1, 2), v(3, 4));
    assert_eq!(e.add_vector(v(10, 20)), edge(v(11, 22), v(13, 24)));
    assert_eq!(e.vector(), v(2, 2));
    assert!(e.is_in_range());
    assert!(!edge(v(100_000_001, 0), v(0, 0)).is_in_range());
}
