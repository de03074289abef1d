use swept_collision::aabb::Aabb;
use swept_collision::axis_aligned_rect::AxisAlignedRect;
use swept_collision::collide::Collide;
use swept_collision::line_segment::LineSegment;
use swept_collision::loose_quad_tree::LooseQuadTree;
use swept_collision::movement::{
    any_floor_collision, is_floor_collision, ForEachShapePosition, Movement, MovementContext,
    MovementStateMachine, MAX_ITERATIONS,
};
use swept_collision::shape::{Shape, ShapePosition};
use swept_collision::vector::Vector2;

struct World {
    shapes: Vec<(u32, Vector2, Shape)>,
}

impl World {
    fn new(shapes: Vec<(Vector2, Shape)>) -> Self {
        World {
            shapes: shapes
                .into_iter()
                .enumerate()
                .map(|(id, (position, shape))| (id as u32, position, shape))
                .collect(),
        }
    }

    fn entity(&self, id: usize) -> ShapePosition {
        ShapePosition::new(self.shapes[id].0, self.shapes[id].1, &self.shapes[id].2)
    }

    fn all(&self) -> Vec<ShapePosition> {
        (0..self.shapes.len()).map(|id| self.entity(id)).collect()
    }
}

impl ForEachShapePosition for World {
    fn for_each(&self, aabb: Aabb) -> Vec<ShapePosition> {
        self.all()
            .into_iter()
            .filter(|other| other.aabb().is_intersecting(&aabb))
            .collect()
    }
}

// The same world behind the spatial index.
struct IndexedWorld<'a> {
    world: &'a World,
    tree: LooseQuadTree<u32>,
}

impl<'a> IndexedWorld<'a> {
    fn new(world: &'a World) -> Self {
        let mut tree = LooseQuadTree::new(px(1024, 1024));
        for (id, position, shape) in world.shapes.iter() {
            tree.insert(shape.aabb(*position), *id);
        }
        IndexedWorld { world, tree }
    }
}

impl<'a> ForEachShapePosition for IndexedWorld<'a> {
    fn for_each(&self, aabb: Aabb) -> Vec<ShapePosition> {
        self.tree
            .for_each_intersection(aabb)
            .into_iter()
            .map(|(_, id)| self.world.entity(id as usize))
            .collect()
    }
}

fn px(x: i64, y: i64) -> Vector2 {
    Vector2::new(x * 1000, y * 1000)
}

fn character(width: i64, height: i64) -> Shape {
    Shape::AxisAlignedRect(AxisAlignedRect::new_character(px(width, height)))
}

fn block(width: i64, height: i64) -> Shape {
    Shape::AxisAlignedRect(AxisAlignedRect::new(px(width, height)))
}

fn platform(width: i64, height: i64) -> Shape {
    Shape::AxisAlignedRect(AxisAlignedRect::new_floor_only(px(width, height)))
}

fn resolve(world: &World, movement: Vector2) -> Movement {
    let moved = MovementContext::new().position_after_allowed_movement(
        world.entity(0),
        movement,
        world,
    );
    let indexed = IndexedWorld::new(world);
    let through_the_index = MovementContext::default().position_after_allowed_movement(
        world.entity(0),
        movement,
        &indexed,
    );
    assert_eq!(moved, through_the_index);
    moved
}

#[test]
fn character_lands_on_floor() {
    let world = World::new(vec![
        (px(0, -20), character(32, 64)),
        (px(0, 50), block(400, 20)),
    ]);
    let moved = resolve(&world, px(0, 10));
    assert_eq!(moved.position.y + 64_000, 50_000);
    assert_eq!(moved.position, px(0, -14));
    assert_eq!(moved.velocity, px(0, 6));
    assert!(moved.can_jump);
}

#[test]
fn character_that_overlaps_the_floor_is_not_held() {
    // A character whose feet are below the top of the floor already does
    // not meet the top on its way down.
    let world = World::new(vec![
        (px(0, 0), character(32, 64)),
        (px(0, 50), block(400, 20)),
    ]);
    let moved = resolve(&world, px(0, 10));
    assert_eq!(moved.position, px(0, 10));
    assert_eq!(moved.velocity, px(0, 10));
    assert!(!moved.can_jump);
}

#[test]
fn nothing_in_the_way() {
    let world = World::new(vec![
        (px(0, 0), character(32, 64)),
        (px(500, 500), block(10, 10)),
    ]);
    let moved = resolve(&world, px(7, -3));
    assert_eq!(
        moved,
        Movement {
            position: px(7, -3),
            velocity: px(7, -3),
            can_jump: false
        }
    );
    let alone = World::new(vec![(px(100, 100), character(32, 64))]);
    assert_eq!(resolve(&alone, px(0, 10)).position, px(100, 110));
}

#[test]
fn landing_slides_along_the_floor() {
    let world = World::new(vec![
        (px(100, 26), character(32, 64)),
        (px(0, 100), block(400, 20)),
    ]);
    // ten down would reach the floor after five
    let moved = resolve(&world, px(4, 20));
    assert_eq!(moved.position, px(104, 36));
    assert_eq!(moved.velocity, px(4, 10));
    assert!(moved.can_jump);
}

#[test]
fn corner_of_two_floors_blocks_a_diagonal_movement() {
    // The floor's top runs from the left up to the corner, where the wall's
    // left side begins.
    let world = World::new(vec![
        (px(80, 80), character(10, 10)),
        (px(0, 100), block(100, 20)),
        (px(100, 0), block(20, 100)),
    ]);
    let mover = world.entity(0);
    let movement = px(20, 20);
    let mut closest = best::BestMultiSet::new();
    mover.movement_collision_test(world.entity(1), movement, &mut closest);
    mover.movement_collision_test(world.entity(2), movement, &mut closest);
    let tied: Vec<_> = closest.iter().collect();
    assert_eq!(tied.len(), 2);
    for collision in tied.iter() {
        let multiplier = collision.left_solid_edge_collision().movement_multiplier();
        assert_eq!(multiplier.numerator() * 2, multiplier.denominator());
        assert_eq!(
            collision
                .left_solid_edge_collision()
                .movement_to_collision(movement),
            px(10, 10)
        );
    }
    // one of them is with the floor and one with the wall
    assert_eq!(tied[0].stationary_edge_vector().vector, px(100, 0));
    assert_eq!(tied[0].moving_edge_vector().vector, px(-10, 0));
    assert_eq!(tied[0].moving_entity_id(), 0);
    assert_eq!(tied[0].stationary_entity_id(), 1);
    assert_eq!(tied[1].stationary_entity_id(), 2);
    assert_eq!(tied[1].stationary_edge_vector().vector, px(0, -100));
    assert_eq!(tied[1].moving_edge_vector().vector, px(0, 10));
    // each of them alone would let the character slide on
    assert_eq!(
        tied[0].left_solid_edge_collision().slide(movement),
        px(10, 0)
    );
    assert_eq!(
        tied[1].left_solid_edge_collision().slide(movement),
        px(0, 10)
    );
    // neither slide is taken: the character stays in the corner
    let moved = resolve(&world, movement);
    assert_eq!(moved.position, px(90, 90));
    assert_eq!(moved.velocity, px(10, 10));
    assert!(moved.can_jump);
    // whichever way round the shapes are given
    let other_way = World::new(vec![
        (px(80, 80), character(10, 10)),
        (px(100, 0), block(20, 100)),
        (px(0, 100), block(100, 20)),
    ]);
    assert_eq!(resolve(&other_way, movement), moved);
}

#[test]
fn low_step_is_stepped_over() {
    let world = World::new(vec![
        (px(0, 36), character(32, 64)),
        (px(-100, 100), block(400, 20)),
        (px(40, 99), block(20, 20)),
    ]);
    let moved = resolve(&world, px(10, 0));
    // up by the one pixel of the step, and the whole way to the right
    assert_eq!(moved.position, px(10, 35));
    // the nudge is not part of the velocity
    assert_eq!(moved.velocity, px(10, 0));
}

#[test]
fn high_step_stops_the_character() {
    let world = World::new(vec![
        (px(0, 36), character(32, 64)),
        (px(-100, 100), block(400, 20)),
        (px(40, 97), block(20, 20)),
    ]);
    let moved = resolve(&world, px(10, 0));
    assert_eq!(moved.position, px(8, 36));
    assert_eq!(moved.velocity, px(8, 0));
}

#[test]
fn nudge_that_is_blocked_ends_the_movement() {
    // A ceiling right above the character's head: the step cannot be taken.
    let world = World::new(vec![
        (px(0, 36), character(32, 64)),
        (px(-100, 100), block(400, 20)),
        (px(40, 99), block(20, 20)),
        (px(-100, 16), block(400, 20)),
    ]);
    let moved = resolve(&world, px(10, 0));
    assert_eq!(moved.position, px(8, 36));
    assert_eq!(moved.velocity, px(8, 0));
}

#[test]
fn floor_only_platform_is_passed_from_below() {
    let world = World::new(vec![
        (px(10, 130), character(10, 10)),
        (px(0, 100), platform(100, 20)),
    ]);
    let moved = resolve(&world, px(0, -50));
    assert_eq!(moved.position, px(10, 80));
    assert!(!moved.can_jump);
    let falling = World::new(vec![
        (px(10, 80), character(10, 10)),
        (px(0, 100), platform(100, 20)),
    ]);
    let landed = resolve(&falling, px(0, 50));
    assert_eq!(landed.position, px(10, 90));
    assert!(landed.can_jump);
}

#[test]
fn character_slides_down_a_slope() {
    // A line from (0, 100) down to the right, at forty-five degrees.
    let slope = Shape::LineSegment(LineSegment::new_both_solid(px(0, 0), px(200, 200)));
    let world = World::new(vec![(px(100, 160), character(10, 10)), (px(0, 100), slope)]);
    let moved = resolve(&world, px(0, 100));
    // Its lower left corner comes down on the upper face of the line, which
    // lies a tenth of a pixel off the line, after 29.858 pixels; half of
    // the 70.142 that are left go along the line, to the right and down.
    assert_eq!(moved.position, Vector2::new(135_071, 224_929));
    assert_eq!(moved.velocity, Vector2::new(35_071, 64_929));
    assert!(moved.can_jump);
}

#[test]
fn own_shape_is_passed_over() {
    let world = World::new(vec![(px(0, 0), character(32, 64))]);
    let mover = world.entity(0);
    let mut context = MovementContext::new();
    context.closest_collisions_among(mover, px(0, 10), &world.all());
    assert!(!context.can_jump_among(mover, &world.all()));
    let twin = World::new(vec![
        (px(0, 0), character(32, 64)),
        (px(0, 0), character(32, 64)),
    ]);
    assert_eq!(resolve(&twin, px(0, 10)).position, px(0, 10));
}

#[test]
fn standing_and_falling() {
    let world = World::new(vec![
        (px(0, 36), character(32, 64)),
        (px(-100, 100), block(400, 20)),
        (px(500, 36), character(32, 64)),
    ]);
    let mut context = MovementContext::new();
    assert!(context.can_jump(world.entity(0), &world));
    assert!(context.can_jump_among(world.entity(0), &world.all()));
    assert!(!context.can_jump(world.entity(2), &world));
    assert!(!context.can_jump_among(world.entity(2), &world.all()));
    let just_above = ShapePosition::new(0, Vector2::new(0, 35_990), &world.shapes[0].2);
    assert!(context.can_jump(just_above, &world));
    let higher = ShapePosition::new(0, Vector2::new(0, 35_989), &world.shapes[0].2);
    assert!(!context.can_jump(higher, &world));
    // the second query does not see what the first one found
    assert!(context.can_jump(world.entity(0), &world));
    assert!(!context.can_jump(world.entity(2), &world));
}

#[test]
fn floor_contacts() {
    let floor = block(400, 20);
    let wall = block(20, 400);
    let who = character(32, 64);
    let down = swept_collision::collide::for_each_movement_collision(
        &who,
        px(0, 0),
        0,
        &floor,
        px(-100, 70),
        1,
        px(0, 10),
    );
    assert_eq!(down.len(), 1);
    assert!(is_floor_collision(&down[0]));
    assert!(any_floor_collision(&down));
    let sideways = swept_collision::collide::for_each_movement_collision(
        &who,
        px(0, 0),
        0,
        &wall,
        px(40, -100),
        1,
        px(10, 0),
    );
    assert_eq!(sideways.len(), 1);
    assert!(!is_floor_collision(&sideways[0]));
    assert!(!any_floor_collision(&sideways));
    assert!(!any_floor_collision(&Vec::new()));
    // a plain block that comes down on a floor has no feet
    let plain = swept_collision::collide::for_each_movement_collision(
        &block(32, 64),
        px(0, 0),
        0,
        &floor,
        px(-100, 70),
        1,
        px(0, 10),
    );
    assert_eq!(plain.len(), 1);
    assert!(!is_floor_collision(&plain[0]));
}

#[test]
fn moving_platform_pushes_what_is_in_its_way() {
    let world = World::new(vec![
        (px(0, 100), block(100, 20)),
        (px(10, 36), character(32, 64)),
        (px(300, 0), character(32, 64)),
        (px(50, 30), character(32, 64)),
    ]);
    let mut context = MovementContext::new();
    let mut displacements = vec![(99u32, px(1, 1))];
    context.displacement_after_movement(
        world.entity(0),
        px(0, -10),
        &world,
        &mut displacements,
    );
    // the one that stands on it is pushed by the whole movement, the one
    // that it reaches after six pixels by the rest
    assert_eq!(
        displacements,
        vec![(99, px(1, 1)), (1, px(0, -10)), (3, px(0, -4))]
    );
    let mut among = Vec::new();
    context.displacement_after_movement_among(
        world.entity(0),
        px(0, -10),
        &world.all(),
        &mut among,
    );
    assert_eq!(among, vec![(1, px(0, -10)), (3, px(0, -4))]);
}

#[test]
fn steps_of_the_state_machine() {
    let world = World::new(vec![
        (px(100, 26), character(32, 64)),
        (px(0, 100), block(400, 20)),
    ]);
    let mut context = MovementContext::new();
    let mut state = MovementStateMachine::new(px(4, 20), px(100, 26));
    assert_eq!(state.attempt(), px(4, 20));
    assert_eq!(state.mover(world.entity(0)).position(), px(100, 26));
    // the first step goes down to the floor and turns into a slide
    assert_eq!(state.step_among(world.entity(0), &world.all(), &mut context), None);
    assert_eq!(state.mover(world.entity(0)).position(), px(102, 36));
    assert_eq!(state.attempt(), px(2, 0));
    // the second makes the slide and ends the movement
    assert_eq!(
        state.step_among(world.entity(0), &world.all(), &mut context),
        Some(Movement {
            position: px(104, 36),
            velocity: px(4, 10),
            can_jump: true
        })
    );
}

#[test]
fn movement_ends_after_sixteen_steps() {
    assert_eq!(MAX_ITERATIONS, 16);
    let world = World::new(vec![
        (px(100, 36), character(32, 64)),
        (px(0, 100), block(400, 20)),
    ]);
    let mut context = MovementContext::new();
    let mut state = MovementStateMachine::new(px(0, 20), px(100, 36));
    // the character rests on the floor: each step is held at once, and
    // what is left of the movement is nothing along the floor
    let first = state.step_among(world.entity(0), &world.all(), &mut context);
    assert_eq!(first, None);
    assert_eq!(state.attempt(), px(0, 0));
    let second = state.step_among(world.entity(0), &world.all(), &mut context);
    assert_eq!(
        second,
        Some(Movement {
            position: px(100, 36),
            velocity: px(0, 0),
            can_jump: true
        })
    );
    // a state that is stepped with the same collisions again and again
    // gives up when its steps are used up
    let collisions = swept_collision::collide::for_each_movement_collision(
        &world.shapes[0].2,
        px(100, 36),
        0,
        &world.shapes[1].2,
        px(0, 100),
        1,
        px(0, 20),
    );
    let mut stubborn = MovementStateMachine::new(px(0, 20), px(100, 36));
    let mut steps = 0;
    let outcome = loop {
        match stubborn.step_with(&collisions, px(100, 36)) {
            Some(outcome) => break outcome,
            None => steps += 1,
        }
    };
    assert_eq!(steps, 16);
    assert_eq!(outcome.position, px(100, 36));
}

// A world that counts how often it is asked.
struct Counting<'a> {
    world: &'a World,
    asked: std::cell::Cell<usize>,
}

impl<'a> ForEachShapePosition for Counting<'a> {
    fn for_each(&self, aabb: Aabb) -> Vec<ShapePosition> {
        self.asked.set(self.asked.get() + 1);
        self.world.for_each(aabb)
    }
}

fn resolve_counting(world: &World, movement: Vector2) -> (Movement, usize) {
    let counting = Counting {
        world,
        asked: std::cell::Cell::new(0),
    };
    let moved = MovementContext::new().position_after_allowed_movement(
        world.entity(0),
        movement,
        &counting,
    );
    (moved, counting.asked.get())
}

#[test]
fn world_is_asked_once_for_each_step() {
    let free = World::new(vec![(px(0, 0), character(32, 64))]);
    assert_eq!(resolve_counting(&free, px(3, 4)).1, 1);
    let landing = World::new(vec![
        (px(100, 26), character(32, 64)),
        (px(0, 100), block(400, 20)),
    ]);
    assert_eq!(resolve_counting(&landing, px(4, 20)).1, 2);
    let step = World::new(vec![
        (px(0, 36), character(32, 64)),
        (px(-100, 100), block(400, 20)),
        (px(40, 99), block(20, 20)),
    ]);
    assert_eq!(resolve_counting(&step, px(10, 0)).1, 3);
}

#[test]
fn world_is_asked_sixteen_times_at_most() {
    // A box that comes down into a narrow cleft slides along one side into
    // the other and back, a little less each time, until its steps are
    // spent.
    let left = Shape::LineSegment(LineSegment::new_both_solid(px(-100, 0), px(0, 300)));
    let right = Shape::LineSegment(LineSegment::new_both_solid(px(100, 0), px(0, 300)));
    let cleft = World::new(vec![
        (px(-20, 150), block(40, 10)),
        (px(0, 0), left),
        (px(0, 0), right),
    ]);
    let (moved, asked) = resolve_counting(&cleft, px(0, 200));
    assert_eq!(asked, 16);
    // it stays where it is wedged: its lower corners on the two sides
    assert!((moved.position.x - px(-20, 0).x).abs() < 1000);
    assert!((moved.position.y - px(0, 230).y).abs() < 1000);
    assert_eq!(moved.velocity, moved.position.minus(px(-20, 150)));
}
