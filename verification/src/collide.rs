//! Edges with channels and flags, and the collisions between the outlines of
//! two shapes.

use vstd::prelude::*;
use best::BestMultiSet;
use crate::aabb::{Aabb, Box2};
use crate::closest::{offer_all_to_set, offered_contacts, tied};
use crate::left_solid_edge::{swept_contact, LeftSolidEdge, LeftSolidEdgeCollision, SweptContact};
use crate::movement::EntityId;
use crate::vector::{Vec2, Vector2};

pub mod channels;
pub mod flags;

verus! {

/// The roles of the ends of an edge, one bit each: see [`flags`].
pub type Flags = u32;

/// The channels of an edge, one bit each: see [`channels`].
pub type Channels = u32;

/// No vertex of a shape lies further than this from the shape's position.
pub const SHAPE_LIMIT: i64 = 10_000_000;

/// No shape that takes part in a collision test lies further than this from
/// the origin.
pub const POSITION_LIMIT: i64 = 80_000_000;

/// An edge of a shape's outline, with the channels on which it collides and
/// the roles of its ends.
#[derive(Clone, Copy, Debug, PartialEq, Eq, Structural)]
pub struct Edge {
    pub left_solid_edge: LeftSolidEdge,
    pub channels: Channels,
    pub flags: Flags,
}

/// The direction of an edge, with its channels and flags.
#[derive(Clone, Copy, Debug, PartialEq, Eq, Structural)]
pub struct EdgeVector {
    pub vector: Vector2,
    pub channels: Channels,
    pub flags: Flags,
}

/// The model of an [`EdgeVector`].
pub struct EdgeDirection {
    pub vector: Vec2,
    pub channels: Channels,
    pub flags: Flags,
}

impl View for EdgeVector {
    type V = EdgeDirection;

    open spec fn view(&self) -> EdgeDirection {
        EdgeDirection { vector: self.vector@, channels: self.channels, flags: self.flags }
    }
}

/// A contact between an edge of a moving shape and an edge of a shape that
/// stays where it is, with the entities that the two shapes belong to.
#[derive(Clone, Copy, Debug)]
pub struct Collision {
    left_solid_edge_collision: LeftSolidEdgeCollision,
    moving_edge_vector: EdgeVector,
    stationary_edge_vector: EdgeVector,
    moving_entity_id: EntityId,
    stationary_entity_id: EntityId,
}

/// The model of a [`Collision`].
pub struct EdgeContact {
    pub contact: SweptContact,
    pub moving_edge: EdgeDirection,
    pub stationary_edge: EdgeDirection,
    pub moving_entity: EntityId,
    pub stationary_entity: EntityId,
}

impl EdgeContact {
    /// The contact is well formed, and both edge vectors are those of edges
    /// of shapes.
    pub open spec fn wf(self) -> bool {
        &&& self.contact.wf()
        &&& self.moving_edge.vector.within(2 * SHAPE_LIMIT)
        &&& self.stationary_edge.vector.within(2 * SHAPE_LIMIT)
    }
}

impl View for Collision {
    type V = EdgeContact;

    closed spec fn view(&self) -> EdgeContact {
        EdgeContact {
            contact: self.left_solid_edge_collision@,
            moving_edge: self.moving_edge_vector@,
            stationary_edge: self.stationary_edge_vector@,
            moving_entity: self.moving_entity_id,
            stationary_entity: self.stationary_entity_id,
        }
    }
}

impl Collision {
    #[verifier::type_invariant]
    spec fn well_formed(self) -> bool {
        self@.wf()
    }

    /// A collision of two edges whose vectors are those of edges of shapes.
    pub fn new(
        left_solid_edge_collision: LeftSolidEdgeCollision,
        moving_edge_vector: EdgeVector,
        stationary_edge_vector: EdgeVector,
        moving_entity_id: EntityId,
        stationary_entity_id: EntityId,
    ) -> (collision: Self)
        requires
            moving_edge_vector.vector@.within(2 * SHAPE_LIMIT),
            stationary_edge_vector.vector@.within(2 * SHAPE_LIMIT),
        ensures
            collision@ == (EdgeContact {
                contact: left_solid_edge_collision@,
                moving_edge: moving_edge_vector@,
                stationary_edge: stationary_edge_vector@,
                moving_entity: moving_entity_id,
                stationary_entity: stationary_entity_id,
            }),
            collision@.wf(),
    {
        let _ = left_solid_edge_collision.movement_multiplier();
        Collision {
            left_solid_edge_collision,
            moving_edge_vector,
            stationary_edge_vector,
            moving_entity_id,
            stationary_entity_id,
        }
    }

    /// The entity whose shape moved.
    pub fn moving_entity_id(&self) -> (id: EntityId)
        ensures
            id == self@.moving_entity,
    {
        self.moving_entity_id
    }

    /// The entity whose shape was run into.
    pub fn stationary_entity_id(&self) -> (id: EntityId)
        ensures
            id == self@.stationary_entity,
    {
        self.stationary_entity_id
    }

    pub fn left_solid_edge_collision(&self) -> (c: LeftSolidEdgeCollision)
        ensures
            c@ == self@.contact,
            self@.wf(),
    {
        proof {
            use_type_invariant(self);
        }
        self.left_solid_edge_collision
    }

    pub fn moving_edge_vector(&self) -> (e: EdgeVector)
        ensures
            e@ == self@.moving_edge,
            self@.wf(),
    {
        proof {
            use_type_invariant(self);
        }
        self.moving_edge_vector
    }

    pub fn stationary_edge_vector(&self) -> (e: EdgeVector)
        ensures
            e@ == self@.stationary_edge,
            self@.wf(),
    {
        proof {
            use_type_invariant(self);
        }
        self.stationary_edge_vector
    }
}

impl Edge {
    /// An edge on the main channel, with no flags.
    pub fn new(start: Vector2, end: Vector2) -> (edge: Self)
        ensures
            edge == Edge::spec_new(start, end),
    {
        Edge { left_solid_edge: LeftSolidEdge::new(start, end), channels: channels::MAIN, flags: 0 }
    }

    /// An edge on the main channel, with no flags.
    pub open spec fn spec_new(start: Vector2, end: Vector2) -> Edge {
        Edge { left_solid_edge: LeftSolidEdge { start, end }, channels: channels::MAIN, flags: 0 }
    }

    pub fn with_channels(self, channels: Channels) -> (edge: Self)
        ensures
            edge == (Edge { channels, ..self }),
    {
        Edge { left_solid_edge: self.left_solid_edge, channels, flags: self.flags }
    }

    pub fn with_flags(self, flags: Flags) -> (edge: Self)
        ensures
            edge == (Edge { flags, ..self }),
    {
        Edge { left_solid_edge: self.left_solid_edge, channels: self.channels, flags }
    }

    pub fn start(&self) -> (v: Vector2)
        ensures
            v == self.left_solid_edge.start,
    {
        self.left_solid_edge.start
    }

    pub fn end(&self) -> (v: Vector2)
        ensures
            v == self.left_solid_edge.end,
    {
        self.left_solid_edge.end
    }

    pub fn vector(&self) -> (v: Vector2)
        requires
            self.left_solid_edge.spec_vector().within(i64::MAX as int),
        ensures
            v@ == self.left_solid_edge.spec_vector(),
    {
        self.left_solid_edge.vector()
    }

    /// The direction of the edge with its channels and flags.
    pub open spec fn spec_edge_vector(self) -> EdgeDirection {
        EdgeDirection {
            vector: self.left_solid_edge.spec_vector(),
            channels: self.channels,
            flags: self.flags,
        }
    }

    pub fn edge_vector(&self) -> (e: EdgeVector)
        requires
            self.left_solid_edge.spec_vector().within(i64::MAX as int),
        ensures
            e@ == self.spec_edge_vector(),
    {
        EdgeVector { vector: self.vector(), channels: self.channels, flags: self.flags }
    }

    /// Both ends lie within the limit for a shape's vertices.
    pub open spec fn in_shape(self) -> bool {
        &&& self.left_solid_edge.start@.within(SHAPE_LIMIT as int)
        &&& self.left_solid_edge.end@.within(SHAPE_LIMIT as int)
    }

    /// The edge where it lies when its shape is at `position`.
    pub open spec fn placed(self, position: Vec2) -> LeftSolidEdge {
        LeftSolidEdge {
            start: Vector2 {
                x: (self.left_solid_edge.start.x + position.x) as i64,
                y: (self.left_solid_edge.start.y + position.y) as i64,
            },
            end: Vector2 {
                x: (self.left_solid_edge.end.x + position.x) as i64,
                y: (self.left_solid_edge.end.y + position.y) as i64,
            },
        }
    }
}

/// Two edges can collide where they share a channel.
pub open spec fn share_channel(a: Channels, b: Channels) -> bool {
    a & b != 0
}

/// The contact of one edge of a moving shape with one edge of a shape that
/// stays where it is, if they share a channel and meet.
pub open spec fn edge_contact(
    moving: Edge,
    position: Vec2,
    moving_entity: EntityId,
    stationary: Edge,
    stationary_position: Vec2,
    stationary_entity: EntityId,
    movement: Vec2,
) -> Option<EdgeContact> {
    if !share_channel(moving.channels, stationary.channels) {
        None
    } else {
        match swept_contact(moving.placed(position), stationary.placed(stationary_position), movement) {
            Some(contact) => Some(
                EdgeContact {
                    contact,
                    moving_edge: moving.spec_edge_vector(),
                    stationary_edge: stationary.spec_edge_vector(),
                    moving_entity,
                    stationary_entity,
                },
            ),
            None => None,
        }
    }
}

/// The contacts of one edge of a moving shape with the edges of a shape that
/// stays where it is, in the order of those edges.
pub open spec fn contacts_of_edge(
    moving: Edge,
    position: Vec2,
    moving_entity: EntityId,
    stationary: Seq<Edge>,
    stationary_position: Vec2,
    stationary_entity: EntityId,
    movement: Vec2,
) -> Seq<EdgeContact>
    decreases stationary.len(),
{
    if stationary.len() == 0 {
        Seq::empty()
    } else {
        let before = contacts_of_edge(
            moving,
            position,
            moving_entity,
            stationary.drop_last(),
            stationary_position,
            stationary_entity,
            movement,
        );
        match edge_contact(
            moving,
            position,
            moving_entity,
            stationary.last(),
            stationary_position,
            stationary_entity,
            movement,
        ) {
            Some(contact) => before.push(contact),
            None => before,
        }
    }
}

/// The contacts of the edges of a moving shape with the edges of a shape that
/// stays where it is: edge by edge of the moving shape, and for each in the
/// order of the other's edges.
pub open spec fn contacts_of_edges(
    moving: Seq<Edge>,
    position: Vec2,
    moving_entity: EntityId,
    stationary: Seq<Edge>,
    stationary_position: Vec2,
    stationary_entity: EntityId,
    movement: Vec2,
) -> Seq<EdgeContact>
    decreases moving.len(),
{
    if moving.len() == 0 {
        Seq::empty()
    } else {
        contacts_of_edges(
            moving.drop_last(),
            position,
            moving_entity,
            stationary,
            stationary_position,
            stationary_entity,
            movement,
        ) + contacts_of_edge(
            moving.last(),
            position,
            moving_entity,
            stationary,
            stationary_position,
            stationary_entity,
            movement,
        )
    }
}

/// The models of a sequence of collisions.
pub open spec fn contacts(collisions: Seq<Collision>) -> Seq<EdgeContact> {
    Seq::new(collisions.len(), |i: int| collisions[i]@)
}

/// What can be collided with: a shape that has a bounding box and an outline
/// of edges, both given relative to its position.
pub trait Collide {
    /// No vertex lies further than [`SHAPE_LIMIT`] from the position.
    spec fn fits_shape_limit(&self) -> bool;

    /// The bounding box of the shape at `top_left`.
    spec fn spec_aabb(&self, top_left: Vec2) -> Box2;

    /// The edges of the outline that can be run into by something that
    /// moves in `direction`, relative to the shape's position.
    spec fn edges_facing(&self, direction: Vec2) -> Seq<Edge>;

    fn aabb(&self, top_left: Vector2) -> (aabb: Aabb)
        requires
            self.fits_shape_limit(),
            top_left@.within(POSITION_LIMIT as int),
        ensures
            aabb@ == self.spec_aabb(top_left@),
            aabb.in_range(),
    ;

    fn for_each_left_solid_edge_facing(&self, direction: Vector2) -> (edges: Vec<Edge>)
        requires
            self.fits_shape_limit(),
            direction.in_range(),
        ensures
            edges@ == self.edges_facing(direction@),
            forall|i: int| 0 <= i < edges.len() ==> (#[trigger] edges[i]).in_shape(),
    ;
}

/// The contacts of the shape `moving` at `position`, displaced by `movement`,
/// with the shape `stationary` at `stationary_position`.
pub open spec fn shape_contacts<M: Collide, S: Collide>(
    moving: &M,
    position: Vec2,
    moving_entity: EntityId,
    stationary: &S,
    stationary_position: Vec2,
    stationary_entity: EntityId,
    movement: Vec2,
) -> Seq<EdgeContact> {
    contacts_of_edges(
        moving.edges_facing(movement),
        position,
        moving_entity,
        stationary.edges_facing(movement.negated()),
        stationary_position,
        stationary_entity,
        movement,
    )
}

/// The collisions of the shape `moving` of the entity `moving_entity` at
/// `position`, displaced by `movement`, with the shape `stationary` of the
/// entity `stationary_entity` at `stationary_position`: every pair of an edge
/// of the one that faces the movement and an edge of the other that faces
/// against it, where the two share a channel and meet.
pub fn for_each_movement_collision<M: Collide, S: Collide>(
    moving: &M,
    position: Vector2,
    moving_entity: EntityId,
    stationary: &S,
    stationary_position: Vector2,
    stationary_entity: EntityId,
    movement: Vector2,
) -> (collisions: Vec<Collision>)
    requires
        moving.fits_shape_limit(),
        stationary.fits_shape_limit(),
        position@.within(POSITION_LIMIT as int),
        stationary_position@.within(POSITION_LIMIT as int),
        movement.in_range(),
    ensures
        contacts(collisions@) == shape_contacts(
            moving,
            position@,
            moving_entity,
            stationary,
            stationary_position@,
            stationary_entity,
            movement@,
        ),
{
    let moving_edges = moving.for_each_left_solid_edge_facing(movement);
    let stationary_edges = stationary.for_each_left_solid_edge_facing(movement.negated());
    let mut collisions: Vec<Collision> = Vec::new();
    let mut i: usize = 0;
    assert(moving_edges@.take(0) =~= Seq::<Edge>::empty());
    assert(contacts(collisions@) =~= Seq::<EdgeContact>::empty());
    while i < moving_edges.len()
        invariant
            i <= moving_edges.len(),
            position@.within(POSITION_LIMIT as int),
            stationary_position@.within(POSITION_LIMIT as int),
            movement.in_range(),
            forall|k: int| 0 <= k < moving_edges.len() ==> (#[trigger] moving_edges[k]).in_shape(),
            forall|k: int|
                0 <= k < stationary_edges.len() ==> (#[trigger] stationary_edges[k]).in_shape(),
            contacts(collisions@) == contacts_of_edges(
                moving_edges@.take(i as int),
                position@,
                moving_entity,
                stationary_edges@,
                stationary_position@,
                stationary_entity,
                movement@,
            ),
        decreases moving_edges.len() - i,
    {
        let moving_rel_edge = moving_edges[i];
        let moving_edge = moving_rel_edge.left_solid_edge.add_vector(position);
        let ghost before = collisions@;
        let mut j: usize = 0;
        assert(stationary_edges@.take(0) =~= Seq::<Edge>::empty());
        assert(contacts(collisions@) =~= contacts(before) + Seq::<EdgeContact>::empty());
        while j < stationary_edges.len()
            invariant
                j <= stationary_edges.len(),
                i < moving_edges.len(),
                moving_rel_edge == moving_edges[i as int],
                moving_rel_edge.in_shape(),
                moving_edge == moving_rel_edge.placed(position@),
                moving_edge.in_range(),
                position@.within(POSITION_LIMIT as int),
                stationary_position@.within(POSITION_LIMIT as int),
                movement.in_range(),
                forall|k: int|
                    0 <= k < stationary_edges.len() ==> (#[trigger] stationary_edges[k]).in_shape(),
                contacts(collisions@) == contacts(before) + contacts_of_edge(
                    moving_rel_edge,
                    position@,
                    moving_entity,
                    stationary_edges@.take(j as int),
                    stationary_position@,
                    stationary_entity,
                    movement@,
                ),
            decreases stationary_edges.len() - j,
        {
            let stationary_rel_edge = stationary_edges[j];
            let ghost so_far = collisions@;
            proof {
                assert(stationary_edges@.take(j + 1).drop_last() =~= stationary_edges@.take(
                    j as int,
                ));
                assert(stationary_edges@.take(j + 1).last() == stationary_rel_edge);
            }
            if moving_rel_edge.channels & stationary_rel_edge.channels != 0 {
                let stationary_edge = stationary_rel_edge.left_solid_edge.add_vector(
                    stationary_position,
                );
                assert(stationary_edge == stationary_rel_edge.placed(stationary_position@));
                match moving_edge.collide_with_stationary_edge(&stationary_edge, movement) {
                    Some(left_solid_edge_collision) => {
                        let collision = Collision::new(
                            left_solid_edge_collision,
                            moving_rel_edge.edge_vector(),
                            stationary_rel_edge.edge_vector(),
                            moving_entity,
                            stationary_entity,
                        );
                        collisions.push(collision);
                        assert(contacts(collisions@) =~= contacts(so_far).push(collision@));
                    },
                    None => {},
                }
            }
            j += 1;
        }
        proof {
            assert(stationary_edges@.take(stationary_edges.len() as int) =~= stationary_edges@);
            assert(moving_edges@.take(i + 1).drop_last() =~= moving_edges@.take(i as int));
            assert(moving_edges@.take(i + 1).last() == moving_rel_edge);
        }
        i += 1;
    }
    proof {
        assert(moving_edges@.take(moving_edges.len() as int) =~= moving_edges@);
    }
    collisions
}

/// Something that collides, of some entity, at a position.
pub struct CollidePosition<'a, C: Collide> {
    pub collide: &'a C,
    pub position: Vector2,
    pub entity_id: EntityId,
}

impl<'a, C: Collide> CollidePosition<'a, C> {
    /// The shape is within the limit for shapes, and its position within
    /// [`POSITION_LIMIT`].
    pub open spec fn wf(self) -> bool {
        &&& self.collide.fits_shape_limit()
        &&& self.position@.within(POSITION_LIMIT as int)
    }

    /// The collisions of this shape, displaced by `movement`, with
    /// `stationary`, offered to `closest_collisions` in the order of this
    /// shape's edges.
    pub fn movement_collision_test<Stationary: Collide>(
        &self,
        stationary: CollidePosition<Stationary>,
        movement: Vector2,
        closest_collisions: &mut BestMultiSet<Collision>,
    )
        requires
            self.wf(),
            stationary.wf(),
            movement.in_range(),
        ensures
            contacts(tied(*final(closest_collisions))) == offered_contacts(
                contacts(tied(*old(closest_collisions))),
                shape_contacts(
                    self.collide,
                    self.position@,
                    self.entity_id,
                    stationary.collide,
                    stationary.position@,
                    stationary.entity_id,
                    movement@,
                ),
            ),
    {
        let collisions = for_each_movement_collision(
            self.collide,
            self.position,
            self.entity_id,
            stationary.collide,
            stationary.position,
            stationary.entity_id,
            movement,
        );
        offer_all_to_set(closest_collisions, &collisions);
    }
}

} // verus!
