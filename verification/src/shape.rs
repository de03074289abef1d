//! The shapes that collide, and a shape at a position.

use vstd::prelude::*;
use best::BestMultiSet;
use crate::aabb::{Aabb, Box2};
use crate::axis_aligned_rect::AxisAlignedRect;
use crate::closest::{offer_all_to_set, offered_contacts, tied};
use crate::collide::{
    contacts, for_each_movement_collision, shape_contacts, Collide, Collision, Edge, EdgeContact,
    POSITION_LIMIT,
};
use crate::line_segment::LineSegment;
use crate::movement::EntityId;
use crate::vector::{Vec2, Vector2};

verus! {

/// A rectangle or a line segment.
#[derive(Clone, Copy, Debug)]
pub enum Shape {
    AxisAlignedRect(AxisAlignedRect),
    LineSegment(LineSegment),
}

impl Collide for Shape {
    open spec fn fits_shape_limit(&self) -> bool {
        match self {
            Shape::AxisAlignedRect(rect) => rect.fits_shape_limit(),
            Shape::LineSegment(line_segment) => line_segment.fits_shape_limit(),
        }
    }

    open spec fn spec_aabb(&self, top_left: Vec2) -> Box2 {
        match self {
            Shape::AxisAlignedRect(rect) => rect.spec_aabb(top_left),
            Shape::LineSegment(line_segment) => line_segment.spec_aabb(top_left),
        }
    }

    open spec fn edges_facing(&self, direction: Vec2) -> Seq<Edge> {
        match self {
            Shape::AxisAlignedRect(rect) => rect.edges_facing(direction),
            Shape::LineSegment(line_segment) => line_segment.edges_facing(direction),
        }
    }

    fn aabb(&self, top_left: Vector2) -> (aabb: Aabb) {
        match self {
            Shape::AxisAlignedRect(rect) => rect.aabb(top_left),
            Shape::LineSegment(line_segment) => line_segment.aabb(top_left),
        }
    }

    fn for_each_left_solid_edge_facing(&self, direction: Vector2) -> (edges: Vec<Edge>) {
        match self {
            Shape::AxisAlignedRect(rect) => rect.for_each_left_solid_edge_facing(direction),
            Shape::LineSegment(line_segment) => line_segment.for_each_left_solid_edge_facing(
                direction,
            ),
        }
    }
}

/// A shape of some entity, within the limit for shapes, at a position within
/// [`POSITION_LIMIT`].
#[derive(Clone, Copy, Debug)]
pub struct ShapePosition<'a> {
    entity_id: EntityId,
    position: Vector2,
    shape: &'a Shape,
}

impl<'a> ShapePosition<'a> {
    #[verifier::type_invariant]
    spec fn well_formed(self) -> bool {
        self.wf()
    }

    /// The shape is within the limit for shapes and the position within
    /// [`POSITION_LIMIT`]: true of every value that code can hold.
    pub open spec fn wf(self) -> bool {
        &&& self.spec_shape().fits_shape_limit()
        &&& self.spec_position()@.within(POSITION_LIMIT as int)
    }

    pub closed spec fn spec_entity_id(self) -> EntityId {
        self.entity_id
    }

    pub closed spec fn spec_position(self) -> Vector2 {
        self.position
    }

    pub closed spec fn spec_shape(self) -> &'a Shape {
        self.shape
    }

    /// The shape `shape` of the entity `entity_id` at `position`.
    pub fn new(entity_id: EntityId, position: Vector2, shape: &'a Shape) -> (shape_position: Self)
        requires
            shape.fits_shape_limit(),
            position@.within(POSITION_LIMIT as int),
        ensures
            shape_position.spec_entity_id() == entity_id,
            shape_position.spec_position() == position,
            shape_position.spec_shape() == shape,
            shape_position.wf(),
    {
        Self { entity_id, position, shape }
    }

    pub fn entity_id(&self) -> (id: EntityId)
        ensures
            id == self.spec_entity_id(),
    {
        self.entity_id
    }

    pub fn position(&self) -> (position: Vector2)
        ensures
            position == self.spec_position(),
            self.wf(),
    {
        proof {
            use_type_invariant(self);
        }
        self.position
    }

    pub fn shape(&self) -> (shape: &'a Shape)
        ensures
            shape == self.spec_shape(),
            self.wf(),
    {
        proof {
            use_type_invariant(self);
        }
        self.shape
    }

    /// The bounding box of the shape where it is.
    pub open spec fn spec_aabb(self) -> Box2 {
        self.spec_shape().spec_aabb(self.spec_position()@)
    }

    /// The box that covers the shape where it is and where `movement` would
    /// take it.
    pub open spec fn spec_movement_aabb(self, movement: Vec2) -> Box2 {
        self.spec_aabb().union(self.spec_shape().spec_aabb(self.spec_position()@.plus(movement)))
    }

    /// The contacts of this shape, displaced by `movement`, with
    /// `stationary`.
    pub open spec fn contacts_with(self, stationary: ShapePosition, movement: Vec2) -> Seq<
        EdgeContact,
    > {
        shape_contacts(
            self.spec_shape(),
            self.spec_position()@,
            self.spec_entity_id(),
            stationary.spec_shape(),
            stationary.spec_position()@,
            stationary.spec_entity_id(),
            movement,
        )
    }

    /// The bounding box of the shape where it is.
    pub fn aabb(&self) -> (aabb: Aabb)
        ensures
            aabb@ == self.spec_aabb(),
            aabb.in_range(),
    {
        proof {
            use_type_invariant(self);
        }
        self.shape.aabb(self.position)
    }

    /// The box that covers the shape where it is and where `movement` would
    /// take it.
    pub fn movement_aabb(&self, movement: Vector2) -> (aabb: Aabb)
        requires
            self.spec_position()@.plus(movement@).within(POSITION_LIMIT as int),
        ensures
            aabb@ == self.spec_movement_aabb(movement@),
            aabb.in_range(),
    {
        proof {
            use_type_invariant(self);
        }
        let current_aabb = self.aabb();
        let moved_aabb = self.shape.aabb(self.position.plus(movement));
        current_aabb.union(&moved_aabb)
    }

    /// The collisions of `moving`, displaced by `movement`, with this shape,
    /// offered to `closest_collisions` in the order of the moving shape's
    /// edges.
    pub fn stationary_collision_test(
        &self,
        moving: ShapePosition,
        movement: Vector2,
        closest_collisions: &mut BestMultiSet<Collision>,
    )
        requires
            movement.in_range(),
        ensures
            contacts(tied(*final(closest_collisions))) == offered_contacts(
                contacts(tied(*old(closest_collisions))),
                moving.contacts_with(*self, movement@),
            ),
    {
        let collisions = for_each_movement_collision(
            moving.shape(),
            moving.position(),
            moving.entity_id(),
            self.shape,
            self.position(),
            self.entity_id,
            movement,
        );
        offer_all_to_set(closest_collisions, &collisions);
    }

    /// The collisions of this shape, displaced by `movement`, with
    /// `stationary`, offered to `closest_collisions` in the order of this
    /// shape's edges.
    pub fn movement_collision_test(
        &self,
        stationary: ShapePosition,
        movement: Vector2,
        closest_collisions: &mut BestMultiSet<Collision>,
    )
        requires
            movement.in_range(),
        ensures
            contacts(tied(*final(closest_collisions))) == offered_contacts(
                contacts(tied(*old(closest_collisions))),
                self.contacts_with(stationary, movement@),
            ),
    {
        stationary.stationary_collision_test(*self, movement, closest_collisions)
    }
}

} // verus!
