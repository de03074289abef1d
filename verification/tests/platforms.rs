use best::BestMultiSet;
use swept_collision::axis_aligned_rect::{AxisAlignedRect, Metadata};
use swept_collision::collide::{
    channels, flags, for_each_movement_collision, Collide, CollidePosition, Collision,
};
use swept_collision::line_segment::LineSegment;
use swept_collision::shape::{Shape, ShapePosition};
use swept_collision::vector::Vector2;

fn px(x: i64, y: i64) -> Vector2 {
    Vector2::new(x * 1000, y * 1000)
}

fn collisions(
    moving: &Shape,
    position: Vector2,
    stationary: &Shape,
    stationary_position: Vector2,
    movement: Vector2,
) -> Vec<Collision> {
    for_each_movement_collision(moving, position, 7, stationary, stationary_position, 8, movement)
}

#[test]
fn channels_and_flags_of_a_rectangle() {
    assert_eq!(channels::MAIN, 1);
    assert_eq!(channels::FLOOR, 2);
    assert_eq!(flags::BUMP_END, 1 << 2);
    assert_eq!(flags::BUMP_START, 1 << 3);
    assert_eq!(Metadata::Main.top_channel(), channels::MAIN);
    assert_eq!(Metadata::Main.bottom_channel(), channels::MAIN);
    assert_eq!(Metadata::Main.left_channel(), channels::MAIN);
    assert_eq!(Metadata::Main.right_channel(), channels::MAIN);
    assert_eq!(Metadata::Character.top_channel(), channels::MAIN);
    assert_eq!(
        Metadata::Character.bottom_channel(),
        channels::MAIN | channels::FLOOR
    );
    assert_eq!(Metadata::Character.left_channel(), channels::MAIN);
    assert_eq!(Metadata::Character.right_channel(), channels::MAIN);
    assert_eq!(
        Metadata::FloorOnly.top_channel(),
        channels::MAIN | channels::FLOOR
    );
    assert_eq!(Metadata::FloorOnly.bottom_channel(), 0);
    assert_eq!(Metadata::FloorOnly.left_channel(), 0);
    assert_eq!(Metadata::FloorOnly.right_channel(), 0);
    for metadata in [Metadata::Main, Metadata::Character, Metadata::FloorOnly] {
        assert_eq!(metadata.top_flags(), 0);
        assert_eq!(metadata.bottom_flags(), 0);
    }
    assert_eq!(
        Metadata::Character.left_flags(),
        flags::FLOOR_START | flags::BUMP_START
    );
    assert_eq!(
        Metadata::Character.right_flags(),
        flags::FLOOR_END | flags::BUMP_END
    );
    assert_eq!(Metadata::Main.left_flags(), 0);
    assert_eq!(Metadata::Main.right_flags(), 0);
    assert_eq!(Metadata::FloorOnly.left_flags(), 0);
    assert_eq!(Metadata::FloorOnly.right_flags(), 0);
}

#[test]
fn sides_of_a_rectangle_that_face_a_direction() {
    let rect = AxisAlignedRect::new_character(px(32, 64));
    assert_eq!(rect.dimensions(), px(32, 64));
    let down = rect.for_each_left_solid_edge_facing(px(0, 1));
    assert_eq!(down.len(), 3);
    // the underside, from right to left
    assert_eq!(down[0].start(), px(32, 64));
    assert_eq!(down[0].end(), px(0, 64));
    assert_eq!(down[0].channels, channels::MAIN | channels::FLOOR);
    assert_eq!(down[0].flags, 0);
    // the right side, from top to bottom
    assert_eq!(down[1].start(), px(32, 0));
    assert_eq!(down[1].end(), px(32, 64));
    assert_eq!(down[1].flags, flags::FLOOR_END | flags::BUMP_END);
    // the left side, from bottom to top
    assert_eq!(down[2].start(), px(0, 64));
    assert_eq!(down[2].end(), px(0, 0));
    assert_eq!(down[2].flags, flags::FLOOR_START | flags::BUMP_START);
    assert_eq!(down[2].vector(), px(0, -64));
    let up_left = rect.for_each_left_solid_edge_facing(px(-1, -1));
    assert_eq!(up_left.len(), 2);
    assert_eq!(up_left[0].start(), px(0, 0));
    assert_eq!(up_left[0].end(), px(32, 0));
    assert_eq!(up_left[1].start(), px(0, 64));
    let nowhere = rect.for_each_left_solid_edge_facing(px(0, 0));
    assert_eq!(nowhere.len(), 4);
    assert_eq!(rect.aabb(px(5, 6)).top_left(), px(5, 6));
    assert_eq!(rect.aabb(px(5, 6)).size(), px(32, 64));
}

#[test]
fn line_segment_collides_as_a_thin_rectangle() {
    let segment = LineSegment::new_both_solid(px(0, 0), px(10, 0));
    assert_eq!(segment.start, px(0, 0));
    assert_eq!(segment.end, px(10, 0));
    assert_eq!(segment.vector(), px(10, 0));
    let edges = segment.for_each_left_solid_edge_facing(px(0, 1));
    assert_eq!(edges.len(), 4);
    // the long side on the left of the segment, which is below it on the
    // screen, runs backward
    assert_eq!(edges[0].start(), Vector2::new(10_000, 100));
    assert_eq!(edges[0].end(), Vector2::new(0, 100));
    assert_eq!(edges[1].start(), Vector2::new(0, -100));
    assert_eq!(edges[1].end(), Vector2::new(10_000, -100));
    assert_eq!(edges[2].start(), Vector2::new(0, 100));
    assert_eq!(edges[2].end(), Vector2::new(0, -100));
    assert_eq!(edges[3].start(), Vector2::new(10_000, -100));
    assert_eq!(edges[3].end(), Vector2::new(10_000, 100));
    for edge in edges.iter() {
        assert_eq!(edge.channels, channels::MAIN);
        assert_eq!(edge.flags, 0);
    }
    let aabb = segment.aabb(px(100, 100));
    assert_eq!(aabb.top_left(), px(99, 99));
    assert_eq!(aabb.size(), px(12, 2));
    let moved = segment.add_vector(px(1, 2));
    assert_eq!(moved.start, px(1, 2));
    assert_eq!(moved.end, px(11, 2));
}

#[test]
fn sloped_line_segment_is_widened_square_to_itself() {
    let segment = LineSegment::new_both_solid(px(0, 0), px(3, 4));
    let edges = segment.for_each_left_solid_edge_facing(px(0, 0));
    // the left of (3, 4) is (-4, 3), a tenth of a pixel long: (-80, 60)
    assert_eq!(edges[0].start(), Vector2::new(3_000 - 80, 4_000 + 60));
    assert_eq!(edges[0].end(), Vector2::new(-80, 60));
    assert_eq!(edges[1].start(), Vector2::new(80, -60));
    assert_eq!(edges[1].end(), Vector2::new(3_000 + 80, 4_000 - 60));
}

#[test]
fn floor_only_platform_is_solid_from_above_only() {
    let platform = Shape::AxisAlignedRect(AxisAlignedRect::new_floor_only(px(100, 20)));
    let character = Shape::AxisAlignedRect(AxisAlignedRect::new_character(px(10, 10)));
    let at = px(0, 100);
    // down onto the top
    let down = collisions(&character, px(45, 85), &platform, at, px(0, 10));
    assert_eq!(down.len(), 1);
    assert_eq!(
        down[0]
            .left_solid_edge_collision()
            .movement_to_collision(px(0, 10)),
        px(0, 5)
    );
    assert_eq!(
        down[0].stationary_edge_vector().channels,
        channels::MAIN | channels::FLOOR
    );
    assert_eq!(down[0].stationary_edge_vector().vector, px(100, 0));
    assert_eq!(
        down[0].moving_edge_vector().channels,
        channels::MAIN | channels::FLOOR
    );
    assert_eq!(down[0].moving_edge_vector().vector, px(-10, 0));
    assert_eq!(down[0].moving_entity_id(), 7);
    assert_eq!(down[0].stationary_entity_id(), 8);
    // up into the underside
    let up = collisions(&character, px(45, 125), &platform, at, px(0, -10));
    assert_eq!(up.len(), 0);
    // sideways into the left and right sides
    let right = collisions(&character, px(-15, 105), &platform, at, px(10, 0));
    assert_eq!(right.len(), 0);
    let left = collisions(&character, px(105, 105), &platform, at, px(-10, 0));
    assert_eq!(left.len(), 0);
}

#[test]
fn main_rectangle_is_solid_from_every_side() {
    let block = Shape::AxisAlignedRect(AxisAlignedRect::new(px(100, 20)));
    let character = Shape::AxisAlignedRect(AxisAlignedRect::new_character(px(10, 10)));
    let at = px(0, 100);
    assert_eq!(collisions(&character, px(45, 85), &block, at, px(0, 10)).len(), 1);
    assert_eq!(collisions(&character, px(45, 125), &block, at, px(0, -10)).len(), 1);
    assert_eq!(collisions(&character, px(-15, 105), &block, at, px(10, 0)).len(), 1);
    assert_eq!(collisions(&character, px(105, 105), &block, at, px(-10, 0)).len(), 1);
}

#[test]
fn every_shape_stands_on_a_floor_only_platform() {
    let platform = Shape::AxisAlignedRect(AxisAlignedRect::new_floor_only(px(400, 20)));
    let block = Shape::AxisAlignedRect(AxisAlignedRect::new(px(32, 64)));
    // a rectangle that is solid from every side, swept down onto the top
    let movement = px(0, 10);
    let down = collisions(&block, px(0, -19), &platform, px(0, 50), movement);
    assert_eq!(down.len(), 1);
    let multiplier = down[0].left_solid_edge_collision().movement_multiplier();
    assert_eq!(multiplier.numerator() * 2, multiplier.denominator());
    assert_eq!(
        down[0]
            .left_solid_edge_collision()
            .movement_to_collision(movement),
        px(0, 5)
    );
    // and passed from below and from the sides all the same
    assert_eq!(
        collisions(&block, px(0, 75), &platform, px(0, 50), px(0, -10)).len(),
        0
    );
    assert_eq!(
        collisions(&block, px(-37, 40), &platform, px(0, 50), px(10, 0)).len(),
        0
    );
    assert_eq!(
        collisions(&block, px(405, 40), &platform, px(0, 50), px(-10, 0)).len(),
        0
    );
    // a line segment lands on it too
    let line = Shape::LineSegment(LineSegment::new_both_solid(px(0, 0), px(10, 0)));
    assert!(collisions(&line, px(100, 45), &platform, px(0, 50), px(0, 10)).len() > 0);
}

#[test]
fn closest_collisions_keep_the_earliest() {
    let character = Shape::AxisAlignedRect(AxisAlignedRect::new_character(px(10, 10)));
    let near = Shape::AxisAlignedRect(AxisAlignedRect::new(px(100, 20)));
    let far = Shape::AxisAlignedRect(AxisAlignedRect::new(px(100, 20)));
    let mover = ShapePosition::new(0, px(45, 0), &character);
    let movement = px(0, 100);
    let mut closest = BestMultiSet::new();
    mover.movement_collision_test(ShapePosition::new(1, px(0, 60), &far), movement, &mut closest);
    assert_eq!(closest.iter().count(), 1);
    assert_eq!(
        closest
            .first()
            .unwrap()
            .left_solid_edge_collision()
            .movement_to_collision(movement),
        px(0, 50)
    );
    // a nearer one takes the place of what was there
    mover.movement_collision_test(ShapePosition::new(2, px(0, 30), &near), movement, &mut closest);
    assert_eq!(closest.iter().count(), 1);
    assert_eq!(
        closest
            .first()
            .unwrap()
            .left_solid_edge_collision()
            .movement_to_collision(movement),
        px(0, 20)
    );
    // one that is further away is not taken
    mover.movement_collision_test(ShapePosition::new(1, px(0, 60), &far), movement, &mut closest);
    assert_eq!(closest.iter().count(), 1);
    // one that ties is added
    mover.movement_collision_test(ShapePosition::new(3, px(50, 30), &near), movement, &mut closest);
    assert_eq!(closest.iter().count(), 2);
    // and so is one within a thousandth of the movement
    mover.movement_collision_test(
        ShapePosition::new(4, Vector2::new(0, 30_099), &near),
        movement,
        &mut closest,
    );
    assert_eq!(closest.iter().count(), 3);
    mover.movement_collision_test(
        ShapePosition::new(5, Vector2::new(0, 30_100), &near),
        movement,
        &mut closest,
    );
    assert_eq!(closest.iter().count(), 3);
    // the same through the stationary side and through plain shapes
    let mut again = BestMultiSet::new();
    ShapePosition::new(2, px(0, 30), &near).stationary_collision_test(mover, movement, &mut again);
    assert_eq!(again.iter().count(), 1);
    let mut plain = BestMultiSet::new();
    let moving = CollidePosition {
        collide: &character,
        position: px(45, 0),
        entity_id: 0,
    };
    let stationary = CollidePosition {
        collide: &near,
        position: px(0, 30),
        entity_id: 2,
    };
    moving.movement_collision_test(stationary, movement, &mut plain);
    assert_eq!(plain.iter().count(), 1);
}
