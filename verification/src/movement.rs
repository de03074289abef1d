//! Moving a shape as far as the shapes around it allow.

use vstd::prelude::*;
use best::BestMultiSet;
use crate::aabb::{Aabb, Box2};
use crate::bump::{longest_nudge, max_bump_of, BUMP_DISTANCE};
use crate::closest::{
    clear_set, drain_set, items_of_set, new_set, offered_contacts, set_is_empty, tied,
};
use crate::collide::{
    channels, contacts, flags, shape_contacts, Collide, Collision, EdgeContact, POSITION_LIMIT,
};
use crate::left_solid_edge::{lemma_remainder_within, EdgeContacts, StartOrEnd};
use crate::shape::{Shape, ShapePosition};
use crate::vector::{lemma_component_bound, lemma_projection_shrinks, Vec2, Vector2};

verus! {

/// The handle of an entity. The library never looks behind it.
pub type EntityId = u32;

/// Hands out entity ids in ascending order, starting at zero.
#[derive(Debug)]
pub struct EntityIdAllocator {
    next: u32,
}

impl EntityIdAllocator {
    /// The id that will be handed out next, which is also the number of ids
    /// handed out since the last reset.
    pub closed spec fn next_id(&self) -> nat {
        self.next as nat
    }

    pub fn new() -> (allocator: Self)
        ensures
            allocator.next_id() == 0,
    {
        Self { next: 0 }
    }

    /// The next id. No id comes twice between two resets.
    pub fn allocate(&mut self) -> (id: EntityId)
        requires
            old(self).next_id() < u32::MAX,
        ensures
            id == old(self).next_id(),
            final(self).next_id() == old(self).next_id() + 1,
    {
        let id = self.next;
        self.next += 1;
        id
    }

    /// Starts again at zero.
    pub fn reset(&mut self)
        ensures
            final(self).next_id() == 0,
    {
        self.next = 0;
    }

    /// Whether another id can be had.
    pub fn has_next(&self) -> (b: bool)
        ensures
            b == (self.next_id() < u32::MAX),
    {
        self.next < u32::MAX
    }
}

impl Default for EntityIdAllocator {
    fn default() -> (allocator: Self)
        ensures
            allocator.next_id() == 0,
    {
        Self::new()
    }
}

/// A shape is moved in at most this many steps.
pub const MAX_ITERATIONS: u8 = 16;

/// No coordinate of a movement to be resolved exceeds this: a thousand
/// pixels a tick.
pub const MOVEMENT_LIMIT: i64 = 1_000_000;

/// A shape to be moved lies no further than this from the origin, so that
/// wherever the steps take it, it stays within [`POSITION_LIMIT`].
pub const START_LIMIT: i64 = 40_000_000;

/// How far down a shape is probed for something to stand on: a hundredth of
/// a pixel.
pub const JUMP_TEST_DISTANCE: i64 = 10;

/// The squared length of the longest movement that is resolved.
pub open spec fn longest_movement2() -> int {
    2 * (MOVEMENT_LIMIT * MOVEMENT_LIMIT)
}

/// How far one step can take a shape along either axis.
pub open spec fn step_reach() -> int {
    2 * MOVEMENT_LIMIT + BUMP_DISTANCE
}

/// Where a shape ends up, how fast it went, and whether it found a floor.
#[derive(Clone, Copy, Debug, PartialEq, Eq, Structural)]
pub struct Movement {
    pub position: Vector2,
    pub velocity: Vector2,
    pub can_jump: bool,
}

/// The model of a [`Movement`].
pub struct Outcome {
    pub position: Vec2,
    pub velocity: Vec2,
    pub can_jump: bool,
}

impl View for Movement {
    type V = Outcome;

    open spec fn view(&self) -> Outcome {
        Outcome { position: self.position@, velocity: self.velocity@, can_jump: self.can_jump }
    }
}

/// What knows the shapes of the world: for a box, the shapes whose bounds
/// meet it. Nothing is taken for granted of what it gives.
pub trait ForEachShapePosition {
    fn for_each(&self, aabb: Aabb) -> Vec<ShapePosition>;
}

/// The contacts that tie for the earliest when the shape `shape` of the
/// entity `entity_id`, at `position`, is displaced by `movement` among
/// `others`. The entity's own shape is passed over.
pub open spec fn closest_contacts(
    shape: &Shape,
    entity_id: EntityId,
    position: Vec2,
    movement: Vec2,
    others: Seq<ShapePosition>,
) -> Seq<EdgeContact>
    decreases others.len(),
{
    if others.len() == 0 {
        Seq::empty()
    } else {
        let before = closest_contacts(shape, entity_id, position, movement, others.drop_last());
        let other = others.last();
        if other.spec_entity_id() == entity_id {
            before
        } else {
            offered_contacts(
                before,
                shape_contacts(
                    shape,
                    position,
                    entity_id,
                    other.spec_shape(),
                    other.spec_position()@,
                    other.spec_entity_id(),
                    movement,
                ),
            )
        }
    }
}

/// The box that covers the shape at `position` and where `movement` would
/// take it.
pub open spec fn swept_bound(shape: &Shape, position: Vec2, movement: Vec2) -> Box2 {
    shape.spec_aabb(position).union(shape.spec_aabb(position.plus(movement)))
}

/// The edge is within about twenty-five degrees of upright: too steep to
/// stand on.
pub open spec fn is_steep(edge_vector: Vec2) -> bool {
    let across = if edge_vector.x < 0 { -edge_vector.x } else { edge_vector.x };
    let up = if edge_vector.y < 0 { -edge_vector.y } else { edge_vector.y };
    across * 10000 < up * 4663
}

/// The given end of the other edge is among the vertices that touch.
pub open spec fn touched_by(contacts: EdgeContacts, part: StartOrEnd) -> bool {
    match contacts {
        EdgeContacts::Zero => false,
        EdgeContacts::One(only) => only.which_part_of_other_edge == part,
        EdgeContacts::Two { min, max } => min.which_part_of_other_edge == part
            || max.which_part_of_other_edge == part,
    }
}

/// The contact is one with a floor: the moving edge is on the floor channel,
/// or it touches with an end that is flagged as a foot and what it touches
/// is not steep.
pub open spec fn is_floor_contact(contact: EdgeContact) -> bool {
    ||| contact.moving_edge.channels & channels::FLOOR != 0
    ||| {
        &&& !is_steep(contact.stationary_edge.vector)
        &&& {
            ||| (contact.moving_edge.flags & flags::FLOOR_START != 0 && touched_by(
                contact.contact.stationary_edge,
                StartOrEnd::Start,
            ))
            ||| (contact.moving_edge.flags & flags::FLOOR_END != 0 && touched_by(
                contact.contact.stationary_edge,
                StartOrEnd::End,
            ))
        }
    }
}

/// One of the contacts is a floor contact.
pub open spec fn any_floor_contact(contacts: Seq<EdgeContact>) -> bool {
    exists|i: int| 0 <= i < contacts.len() && is_floor_contact(#[trigger] contacts[i])
}

/// The state of a movement that is being resolved: sliding by `movement`
/// where `bump` is `None`, else trying the nudge `bump` with `movement` still
/// to come.
pub struct ResolverState {
    pub movement: Vec2,
    pub position: Vec2,
    pub bump: Option<Vec2>,
    pub velocity_correction: Vec2,
    pub remaining: nat,
    pub can_jump: bool,
}

/// A step either ends the movement or leaves a state to go on from.
pub enum Step {
    Done(Outcome),
    Next(ResolverState),
}

impl ResolverState {
    /// The state before the first step.
    pub open spec fn start(movement: Vec2, position: Vec2) -> ResolverState {
        ResolverState {
            movement,
            position,
            bump: None,
            velocity_correction: Vec2 { x: 0, y: 0 },
            remaining: MAX_ITERATIONS as nat,
            can_jump: false,
        }
    }

    /// The outcome where the movement ends in this state. The velocity is
    /// the way made, without the nudges.
    pub open spec fn outcome(self, start: Vec2) -> Outcome {
        Outcome {
            position: self.position,
            velocity: self.position.minus(start).plus(self.velocity_correction),
            can_jump: self.can_jump,
        }
    }

    /// The displacement that the next step tries.
    pub open spec fn attempt(self) -> Vec2 {
        match self.bump {
            Some(bump) => bump,
            None => self.movement,
        }
    }

    /// The next step, where `closest` are the contacts that tie for the
    /// earliest when the shape is displaced by [`ResolverState::attempt`].
    ///
    /// A nudge that meets nothing is made and sliding resumes; one that
    /// meets something ends the movement. A slide that meets nothing is made
    /// and ends the movement. One that meets something is made up to the
    /// contact; then the longest nudge that the contacts call for is tried,
    /// or without one the rest of the movement slides along the edge of the
    /// first contact.
    pub open spec fn step(self, closest: Seq<EdgeContact>, start: Vec2) -> Step {
        if self.remaining == 0 {
            Step::Done(self.outcome(start))
        } else {
            match self.bump {
                Some(bump) => if closest.len() > 0 {
                    Step::Done(self.outcome(start))
                } else {
                    Step::Next(
                        ResolverState {
                            position: self.position.plus(bump),
                            velocity_correction: self.velocity_correction.minus(bump),
                            bump: None,
                            remaining: (self.remaining - 1) as nat,
                            ..self
                        },
                    )
                },
                None => if closest.len() == 0 {
                    Step::Done(
                        ResolverState { position: self.position.plus(self.movement), ..self }.outcome(
                            start,
                        ),
                    )
                } else {
                    let first = closest.first().contact;
                    let position = self.position.plus(first.movement_to_collision(self.movement));
                    let can_jump = self.can_jump || any_floor_contact(closest);
                    let remaining = (self.remaining - 1) as nat;
                    match longest_nudge(closest) {
                        None => Step::Next(
                            ResolverState {
                                movement: first.slide(self.movement),
                                position,
                                can_jump,
                                remaining,
                                ..self
                            },
                        ),
                        Some(nudge) => Step::Next(
                            ResolverState {
                                movement: first.movement_following_collision(self.movement),
                                position,
                                bump: Some(nudge.displacement),
                                can_jump,
                                remaining,
                                ..self
                            },
                        ),
                    }
                },
            }
        }
    }

    /// The state is one that the steps can reach from `start` with a
    /// movement no longer than the longest: it is then in range for the next
    /// step.
    pub open spec fn reachable_from(self, start: Vec2) -> bool {
        &&& self.remaining <= MAX_ITERATIONS
        &&& start.within(START_LIMIT as int)
        &&& self.movement.magnitude2() <= longest_movement2()
        &&& (self.bump matches Some(bump) ==> bump.within(BUMP_DISTANCE as int))
        &&& self.position.minus(start).within((MAX_ITERATIONS - self.remaining) * step_reach())
        &&& self.velocity_correction.within((MAX_ITERATIONS - self.remaining) * BUMP_DISTANCE)
    }
}

/// What has become of a movement after some steps, each against the shapes
/// of one of `answers`: the state to go on from, or the outcome if a step
/// ended it.
pub open spec fn after_steps(
    state: ResolverState,
    shape: &Shape,
    entity_id: EntityId,
    start: Vec2,
    answers: Seq<Seq<ShapePosition>>,
) -> Step
    decreases answers.len(),
{
    if answers.len() == 0 {
        Step::Next(state)
    } else {
        match after_steps(state, shape, entity_id, start, answers.drop_last()) {
            Step::Done(outcome) => Step::Done(outcome),
            Step::Next(reached) => reached.step(
                closest_contacts(
                    shape,
                    entity_id,
                    reached.position,
                    reached.attempt(),
                    answers.last(),
                ),
                start,
            ),
        }
    }
}

/// The outcome with which a movement has ended: that of the step that ended
/// it, or, where its steps are spent, that of the state that it has reached.
/// `None` while there are steps to make.
pub open spec fn ended(step: Step, start: Vec2) -> Option<Outcome> {
    match step {
        Step::Done(outcome) => Some(outcome),
        Step::Next(reached) => if reached.remaining == 0 {
            Some(reached.outcome(start))
        } else {
            None
        },
    }
}

/// The scratch space of the resolver: the collisions that tie for the
/// earliest in the step at hand.
pub struct MovementContext {
    closest_collisions: BestMultiSet<Collision>,
}

/// The collisions that tie for the earliest.
pub type ClosestCollisions<'a> = &'a BestMultiSet<Collision>;

/// A movement that is being resolved.
pub struct MovementStateMachine {
    movement: Vector2,
    position: Vector2,
    bump: Option<Vector2>,
    velocity_correction: Vector2,
    remaining: u8,
    can_jump: bool,
}

impl View for MovementStateMachine {
    type V = ResolverState;

    closed spec fn view(&self) -> ResolverState {
        ResolverState {
            movement: self.movement@,
            position: self.position@,
            bump: match self.bump {
                Some(bump) => Some(bump@),
                None => None,
            },
            velocity_correction: self.velocity_correction@,
            remaining: self.remaining as nat,
            can_jump: self.can_jump,
        }
    }
}

/// Whether a collision is one with a floor.
pub fn is_floor_collision(collision: &Collision) -> (b: bool)
    ensures
        b == is_floor_contact(collision@),
{
    let moving = collision.moving_edge_vector();
    if moving.channels & channels::FLOOR != 0 {
        return true;
    }
    let stationary = collision.stationary_edge_vector().vector;
    let across: i128 = if stationary.x < 0 {
        -(stationary.x as i128)
    } else {
        stationary.x as i128
    };
    let up: i128 = if stationary.y < 0 {
        -(stationary.y as i128)
    } else {
        stationary.y as i128
    };
    if across * 10000 < up * 4663 {
        return false;
    }
    let contact = collision.left_solid_edge_collision();
    let low = contact.stationary_edge_min_collision_position();
    let high = contact.stationary_edge_max_collision_position();
    let start_touches = (match low {
        Some(p) => p.which_part_of_other_edge == StartOrEnd::Start,
        None => false,
    }) || (match high {
        Some(p) => p.which_part_of_other_edge == StartOrEnd::Start,
        None => false,
    });
    let end_touches = (match low {
        Some(p) => p.which_part_of_other_edge == StartOrEnd::End,
        None => false,
    }) || (match high {
        Some(p) => p.which_part_of_other_edge == StartOrEnd::End,
        None => false,
    });
    (moving.flags & flags::FLOOR_START != 0 && start_touches) || (moving.flags & flags::FLOOR_END
        != 0 && end_touches)
}

/// Whether one of the collisions is one with a floor.
pub fn any_floor_collision(collisions: &Vec<Collision>) -> (b: bool)
    ensures
        b == any_floor_contact(contacts(collisions@)),
{
    let mut i: usize = 0;
    while i < collisions.len()
        invariant
            i <= collisions.len(),
            forall|k: int| 0 <= k < i ==> !is_floor_contact(#[trigger] contacts(collisions@)[k]),
        decreases collisions.len() - i,
    {
        if is_floor_collision(&collisions[i]) {
            assert(is_floor_contact(contacts(collisions@)[i as int]));
            return true;
        }
        i += 1;
    }
    false
}

impl MovementStateMachine {
    /// The state before the first step of moving a shape at `position` by
    /// `movement`.
    pub fn new(movement: Vector2, position: Vector2) -> (state: Self)
        requires
            movement@.within(MOVEMENT_LIMIT as int),
            position@.within(START_LIMIT as int),
        ensures
            state@ == ResolverState::start(movement@, position@),
            state@.reachable_from(position@),
    {
        proof {
            lemma_limit_is_longest(movement@);
        }
        Self {
            movement,
            position,
            bump: None,
            velocity_correction: Vector2::zero(),
            remaining: MAX_ITERATIONS,
            can_jump: false,
        }
    }

    fn to_movement(&self, start: Vector2) -> (movement: Movement)
        requires
            start@.within(START_LIMIT as int),
            self@.position.minus(start@).within(16 * step_reach()),
            self@.velocity_correction.within(16 * BUMP_DISTANCE),
        ensures
            movement@ == self@.outcome(start@),
            movement@.position.minus(start@).within(16 * step_reach()),
    {
        Movement {
            position: self.position,
            velocity: self.position.minus(start).plus(self.velocity_correction),
            can_jump: self.can_jump,
        }
    }

    /// The displacement that the next step tries.
    pub fn attempt(&self) -> (v: Vector2)
        ensures
            v@ == self@.attempt(),
    {
        match self.bump {
            Some(bump) => bump,
            None => self.movement,
        }
    }

    /// The shape of the entity `entity_id` where the movement has taken it.
    pub fn mover<'a>(&self, entity: ShapePosition<'a>) -> (mover: ShapePosition<'a>)
        requires
            self@.reachable_from(entity.spec_position()@),
        ensures
            mover.spec_entity_id() == entity.spec_entity_id(),
            mover.spec_shape() == entity.spec_shape(),
            mover.spec_position()@ == self@.position,
            mover.spec_position()@.plus(self@.attempt()).within(POSITION_LIMIT as int),
    {
        proof {
            lemma_within_longest(self.movement@);
            assert((MAX_ITERATIONS - self.remaining) * step_reach() <= 16 * step_reach())
                by (nonlinear_arith)
                requires
                    0 <= self.remaining <= 16,
                    step_reach() >= 0,
            ;
        }
        ShapePosition::new(entity.entity_id(), self.position, entity.shape())
    }

    /// The next step, given the collisions that tie for the earliest when
    /// the shape is displaced by the attempt of this state: the outcome if
    /// the step ends the movement, else `None` with the state moved on.
    pub fn step_with(&mut self, closest: &Vec<Collision>, start: Vector2) -> (done:
        Option<Movement>)
        requires
            old(self)@.reachable_from(start@),
        ensures
            match old(self)@.step(contacts(closest@), start@) {
                Step::Done(outcome) => done matches Some(movement) && movement@ == outcome,
                Step::Next(next) => done.is_none() && final(self)@ == next
                    && next.reachable_from(start@) && next.remaining + 1 == old(
                    self,
                )@.remaining,
            },
            done matches Some(movement) ==> movement@.position.minus(start@).within(
                16 * step_reach(),
            ),
    {
        proof {
            assert((MAX_ITERATIONS - self.remaining) * step_reach() <= 16 * step_reach())
                by (nonlinear_arith)
                requires
                    0 <= self.remaining <= 16,
                    step_reach() >= 0,
            ;
            assert((MAX_ITERATIONS - self.remaining) * BUMP_DISTANCE <= 16 * BUMP_DISTANCE)
                by (nonlinear_arith)
                requires
                    0 <= self.remaining <= 16,
            ;
        }
        if self.remaining == 0 {
            return Some(self.to_movement(start));
        }
        proof {
            lemma_within_longest(self.movement@);
            assert((MAX_ITERATIONS - self.remaining) * step_reach() <= 15 * step_reach())
                by (nonlinear_arith)
                requires
                    1 <= self.remaining <= 16,
                    step_reach() >= 0,
            ;
            assert((MAX_ITERATIONS - self.remaining) * BUMP_DISTANCE <= 15 * BUMP_DISTANCE)
                by (nonlinear_arith)
                requires
                    1 <= self.remaining <= 16,
            ;
            assert((MAX_ITERATIONS - (self.remaining - 1)) * step_reach() == (MAX_ITERATIONS
                - self.remaining) * step_reach() + step_reach()) by (nonlinear_arith);
            assert((MAX_ITERATIONS - (self.remaining - 1)) * BUMP_DISTANCE == (MAX_ITERATIONS
                - self.remaining) * BUMP_DISTANCE + BUMP_DISTANCE) by (nonlinear_arith);
        }
        match self.bump {
            Some(bump) => {
                if closest.len() > 0 {
                    return Some(self.to_movement(start));
                }
                self.position = self.position.plus(bump);
                self.velocity_correction = self.velocity_correction.minus(bump);
                self.bump = None;
            },
            None => {
                if closest.len() == 0 {
                    self.position = self.position.plus(self.movement);
                    return Some(self.to_movement(start));
                }
                let first = closest[0].left_solid_edge_collision();
                proof {
                    assert(contacts(closest@).first() == closest[0]@);
                    lemma_remainder_within(first@, self.movement@, 2 * MOVEMENT_LIMIT);
                    lemma_projection_shrinks(
                        first@.movement_following_collision(self.movement@),
                        first@.edge_vector,
                    );
                }
                self.position = self.position.plus(first.movement_to_collision(self.movement));
                if any_floor_collision(closest) {
                    self.can_jump = true;
                }
                match max_bump_of(closest) {
                    None => {
                        self.movement = first.slide(self.movement);
                    },
                    Some(max_bump) => {
                        self.bump = Some(max_bump.vector());
                        self.movement = first.movement_following_collision(self.movement);
                    },
                }
            },
        }
        self.remaining -= 1;
        None
    }

    /// The next step of moving the shape of `entity`, against the shapes
    /// `others`.
    pub fn step_among(
        &mut self,
        entity: ShapePosition,
        others: &Vec<ShapePosition>,
        ctx: &mut MovementContext,
    ) -> (done: Option<Movement>)
        requires
            old(self)@.reachable_from(entity.spec_position()@),
        ensures
            match old(self)@.step(
                closest_contacts(
                    entity.spec_shape(),
                    entity.spec_entity_id(),
                    old(self)@.position,
                    old(self)@.attempt(),
                    others@,
                ),
                entity.spec_position()@,
            ) {
                Step::Done(outcome) => done matches Some(movement) && movement@ == outcome,
                Step::Next(next) => done.is_none() && final(self)@ == next
                    && next.reachable_from(entity.spec_position()@) && next.remaining + 1
                    == old(self)@.remaining,
            },
            done matches Some(movement) ==> movement@.position.minus(
                entity.spec_position()@,
            ).within(16 * step_reach()),
    {
        let mover = self.mover(entity);
        let attempt = self.attempt();
        proof {
            lemma_within_longest(self.movement@);
        }
        ctx.closest_collisions_among(mover, attempt, others);
        let closest = items_of_set(&ctx.closest_collisions);
        self.step_with(&closest, entity.position())
    }
}

/// A movement no longer than the longest has coordinates within twice the
/// limit for movements.
pub proof fn lemma_within_longest(movement: Vec2)
    requires
        movement.magnitude2() <= longest_movement2(),
    ensures
        movement.within(2 * MOVEMENT_LIMIT),
{
    let limit = Vec2 { x: MOVEMENT_LIMIT as int, y: MOVEMENT_LIMIT as int };
    assert(limit.magnitude2() == longest_movement2());
    lemma_component_bound(movement, limit, MOVEMENT_LIMIT as int);
}

/// A movement within the limit for movements is no longer than the longest.
pub proof fn lemma_limit_is_longest(movement: Vec2)
    requires
        movement.within(MOVEMENT_LIMIT as int),
    ensures
        movement.magnitude2() <= longest_movement2(),
{
    crate::arith::lemma_product_bound(
        movement.x,
        movement.x,
        MOVEMENT_LIMIT as int,
        MOVEMENT_LIMIT as int,
    );
    crate::arith::lemma_product_bound(
        movement.y,
        movement.y,
        MOVEMENT_LIMIT as int,
        MOVEMENT_LIMIT as int,
    );
}

impl MovementContext {
    /// A context with empty scratch space.
    pub fn new() -> (context: Self)
        ensures
            context.closest().len() == 0,
    {
        Self { closest_collisions: new_set() }
    }

    /// The collisions that the last query left in the scratch space.
    pub closed spec fn closest(&self) -> Seq<Collision> {
        tied(self.closest_collisions)
    }

    /// Fills the scratch space with the collisions that tie for the earliest
    /// when `shape_position` is displaced by `movement` among `others`.
    pub fn closest_collisions_among(
        &mut self,
        shape_position: ShapePosition,
        movement: Vector2,
        others: &Vec<ShapePosition>,
    )
        requires
            movement.in_range(),
        ensures
            contacts(final(self).closest()) == closest_contacts(
                shape_position.spec_shape(),
                shape_position.spec_entity_id(),
                shape_position.spec_position()@,
                movement@,
                others@,
            ),
    {
        clear_set(&mut self.closest_collisions);
        let mut i: usize = 0;
        assert(others@.take(0) =~= Seq::<ShapePosition>::empty());
        assert(contacts(Seq::<Collision>::empty()) =~= Seq::<EdgeContact>::empty());
        while i < others.len()
            invariant
                i <= others.len(),
                movement.in_range(),
                contacts(self.closest()) == closest_contacts(
                    shape_position.spec_shape(),
                    shape_position.spec_entity_id(),
                    shape_position.spec_position()@,
                    movement@,
                    others@.take(i as int),
                ),
            decreases others.len() - i,
        {
            let other_shape_position = others[i];
            proof {
                assert(others@.take(i + 1).drop_last() =~= others@.take(i as int));
                assert(others@.take(i + 1).last() == other_shape_position);
            }
            if other_shape_position.entity_id() != shape_position.entity_id() {
                shape_position.movement_collision_test(
                    other_shape_position,
                    movement,
                    &mut self.closest_collisions,
                );
            }
            i += 1;
        }
        proof {
            assert(others@.take(others.len() as int) =~= others@);
        }
    }

    /// Whether the shape would run into any of `others` if it moved down by
    /// [`JUMP_TEST_DISTANCE`].
    pub fn can_jump_among(&mut self, shape_position: ShapePosition, others: &Vec<ShapePosition>) -> (b:
        bool)
        ensures
            b == (closest_contacts(
                shape_position.spec_shape(),
                shape_position.spec_entity_id(),
                shape_position.spec_position()@,
                Vec2 { x: 0, y: JUMP_TEST_DISTANCE as int },
                others@,
            ).len() > 0),
    {
        self.closest_collisions_among(shape_position, Vector2::new(0, JUMP_TEST_DISTANCE), others);
        !set_is_empty(&self.closest_collisions)
    }

    /// Whether the shape has something to stand on: whether it would run
    /// into any of the shapes that `for_each_shape_position` gives if it
    /// moved down by [`JUMP_TEST_DISTANCE`].
    pub fn can_jump<F: ForEachShapePosition>(
        &mut self,
        shape_position: ShapePosition,
        for_each_shape_position: &F,
    ) -> (b: bool)
        requires
            shape_position.spec_position()@.within(POSITION_LIMIT - JUMP_TEST_DISTANCE),
        ensures
            exists|others: Seq<ShapePosition>|
                b == (#[trigger] closest_contacts(
                    shape_position.spec_shape(),
                    shape_position.spec_entity_id(),
                    shape_position.spec_position()@,
                    Vec2 { x: 0, y: JUMP_TEST_DISTANCE as int },
                    others,
                ).len() > 0),
    {
        let others = for_each_shape_position.for_each(
            shape_position.movement_aabb(Vector2::new(0, JUMP_TEST_DISTANCE)),
        );
        self.can_jump_among(shape_position, &others)
    }

    /// Moves the shape by `movement` as far as the shapes around it allow:
    /// up to each contact, then along the edge that was hit or over a low
    /// corner, in at most [`MAX_ITERATIONS`] steps. Each step is made
    /// against the shapes that `for_each_shape_position` gives for the box
    /// that the step sweeps, so it is asked at most [`MAX_ITERATIONS`] times:
    /// where the steps are spent the shape stays where it has got to and
    /// what is left of the movement is dropped. The outcome is that of the
    /// steps against whatever was given, and lies within sixteen steps' reach
    /// of where the shape was.
    pub fn position_after_allowed_movement<F: ForEachShapePosition>(
        &mut self,
        shape_position: ShapePosition,
        movement: Vector2,
        for_each_shape_position: &F,
    ) -> (moved: Movement)
        requires
            shape_position.spec_position()@.within(START_LIMIT as int),
            movement@.within(MOVEMENT_LIMIT as int),
        ensures
            exists|answers: Seq<Seq<ShapePosition>>|
                answers.len() <= MAX_ITERATIONS && ended(
                    #[trigger] after_steps(
                        ResolverState::start(movement@, shape_position.spec_position()@),
                        shape_position.spec_shape(),
                        shape_position.spec_entity_id(),
                        shape_position.spec_position()@,
                        answers,
                    ),
                    shape_position.spec_position()@,
                ) == Some(moved@),
            moved@.position.minus(shape_position.spec_position()@).within(16 * step_reach()),
    {
        let mut state = MovementStateMachine::new(movement, shape_position.position());
        let ghost first = state@;
        let ghost start = shape_position.spec_position()@;
        let ghost mut answers: Seq<Seq<ShapePosition>> = Seq::empty();
        loop
            invariant
                state@.reachable_from(start),
                start == shape_position.spec_position()@,
                first == ResolverState::start(movement@, start),
                answers.len() + state@.remaining == MAX_ITERATIONS,
                after_steps(
                    first,
                    shape_position.spec_shape(),
                    shape_position.spec_entity_id(),
                    start,
                    answers,
                ) == Step::Next(state@),
            decreases state@.remaining,
        {
            if state.remaining == 0 {
                proof {
                    assert((MAX_ITERATIONS - state.remaining) * step_reach() == 16 * step_reach())
                        by (nonlinear_arith)
                        requires
                            state.remaining == 0,
                    ;
                    assert((MAX_ITERATIONS - state.remaining) * BUMP_DISTANCE == 16
                        * BUMP_DISTANCE) by (nonlinear_arith)
                        requires
                            state.remaining == 0,
                    ;
                }
                return state.to_movement(shape_position.position());
            }
            let mover = state.mover(shape_position);
            let others = for_each_shape_position.for_each(mover.movement_aabb(state.attempt()));
            let ghost before = answers;
            proof {
                answers = answers.push(others@);
                assert(answers.drop_last() =~= before);
                assert(answers.last() == others@);
            }
            match state.step_among(shape_position, &others, self) {
                Some(moved) => {
                    return moved;
                },
                None => {},
            }
        }
    }

    /// The entities among `others` that the shape pushes when it moves by
    /// `movement`, each with the part of the movement that is left when the
    /// shape reaches it, added to `displacements` in the order of `others`.
    pub fn displacement_after_movement_among(
        &mut self,
        shape_position: ShapePosition,
        movement: Vector2,
        others: &Vec<ShapePosition>,
        displacements: &mut Vec<(EntityId, Vector2)>,
    )
        requires
            movement.in_range(),
        ensures
            pushes(final(displacements)@) == pushes(old(displacements)@) + pushed(
                shape_position.spec_shape(),
                shape_position.spec_entity_id(),
                shape_position.spec_position()@,
                movement@,
                others@,
            ),
    {
        clear_set(&mut self.closest_collisions);
        let mut i: usize = 0;
        assert(others@.take(0) =~= Seq::<ShapePosition>::empty());
        assert(pushes(displacements@) =~= pushes(old(displacements)@) + Seq::<
            (EntityId, Vec2),
        >::empty());
        while i < others.len()
            invariant
                i <= others.len(),
                movement.in_range(),
                self.closest().len() == 0,
                pushes(displacements@) == pushes(old(displacements)@) + pushed(
                    shape_position.spec_shape(),
                    shape_position.spec_entity_id(),
                    shape_position.spec_position()@,
                    movement@,
                    others@.take(i as int),
                ),
            decreases others.len() - i,
        {
            let other_shape_position = others[i];
            let other_entity_id = other_shape_position.entity_id();
            let ghost before = displacements@;
            proof {
                assert(others@.take(i + 1).drop_last() =~= others@.take(i as int));
                assert(others@.take(i + 1).last() == other_shape_position);
                assert(contacts(self.closest()) =~= Seq::<EdgeContact>::empty());
            }
            if other_entity_id != shape_position.entity_id() {
                shape_position.movement_collision_test(
                    other_shape_position,
                    movement,
                    &mut self.closest_collisions,
                );
                let found = drain_set(&mut self.closest_collisions);
                if found.len() > 0 {
                    let collision = found[0];
                    let displacement_movement =
                        collision.left_solid_edge_collision().movement_following_collision(
                        movement,
                    );
                    displacements.push((other_entity_id, displacement_movement));
                    proof {
                        assert(contacts(found@).first() == collision@);
                        assert(pushes(displacements@) =~= pushes(before).push(
                            (other_entity_id, displacement_movement@),
                        ));
                    }
                } else {
                    proof {
                        assert(contacts(found@).len() == 0);
                    }
                }
            }
            i += 1;
        }
        proof {
            assert(others@.take(others.len() as int) =~= others@);
        }
    }

    /// The entities that the shape pushes when it moves by `movement`, among
    /// the shapes that `for_each_shape_position` gives for the box that is
    /// swept, added to `displacements`.
    pub fn displacement_after_movement<F: ForEachShapePosition>(
        &mut self,
        shape_position: ShapePosition,
        movement: Vector2,
        for_each_shape_position: &F,
        displacements: &mut Vec<(EntityId, Vector2)>,
    )
        requires
            shape_position.spec_position()@.plus(movement@).within(POSITION_LIMIT as int),
            movement.in_range(),
        ensures
            exists|others: Seq<ShapePosition>|
                pushes(final(displacements)@) == pushes(old(displacements)@) + #[trigger] pushed(
                    shape_position.spec_shape(),
                    shape_position.spec_entity_id(),
                    shape_position.spec_position()@,
                    movement@,
                    others,
                ),
    {
        let others = for_each_shape_position.for_each(shape_position.movement_aabb(movement));
        self.displacement_after_movement_among(shape_position, movement, &others, displacements);
    }
}

impl Default for MovementContext {
    fn default() -> (context: Self)
        ensures
            context.closest().len() == 0,
    {
        Self::new()
    }
}

/// The models of a list of pushes.
pub open spec fn pushes(displacements: Seq<(EntityId, Vector2)>) -> Seq<(EntityId, Vec2)> {
    Seq::new(displacements.len(), |i: int| (displacements[i].0, displacements[i].1@))
}

/// The entities among `others` that the shape runs into when it is displaced
/// by `movement`, each with the part of the movement that is left at the
/// first of the earliest contacts with it.
pub open spec fn pushed(
    shape: &Shape,
    entity_id: EntityId,
    position: Vec2,
    movement: Vec2,
    others: Seq<ShapePosition>,
) -> Seq<(EntityId, Vec2)>
    decreases others.len(),
{
    if others.len() == 0 {
        Seq::empty()
    } else {
        let before = pushed(shape, entity_id, position, movement, others.drop_last());
        let other = others.last();
        let closest = offered_contacts(
            Seq::empty(),
            shape_contacts(
                shape,
                position,
                entity_id,
                other.spec_shape(),
                other.spec_position()@,
                other.spec_entity_id(),
                movement,
            ),
        );
        if other.spec_entity_id() == entity_id || closest.len() == 0 {
            before
        } else {
            before.push(
                (
                    other.spec_entity_id(),
                    closest.first().contact.movement_following_collision(movement),
                ),
            )
        }
    }
}

} // verus!
