//! Rectangles with sides along the axes.

use vstd::prelude::*;
use crate::aabb::{Aabb, Box2};
use crate::collide::{channels, edge_contact, flags, share_channel, Collide, Edge, SHAPE_LIMIT};
use crate::left_solid_edge::LeftSolidEdge;
use crate::movement::EntityId;
use crate::vector::{Vec2, Vector2};

verus! {

/// What a rectangle is to the things that run into it.
#[derive(Clone, Copy, Debug, PartialEq, Eq, Structural)]
pub enum Metadata {
    /// Solid from every side.
    Main,
    /// Something that walks: its underside stands on floors, and its sides
    /// step over low corners.
    Character,
    /// A platform that is solid from above only.
    FloorOnly,
}

impl Metadata {
    pub open spec fn spec_top_channel(self) -> u32 {
        match self {
            Metadata::FloorOnly => channels::MAIN | channels::FLOOR,
            _ => channels::MAIN,
        }
    }

    pub open spec fn spec_bottom_channel(self) -> u32 {
        match self {
            Metadata::FloorOnly => 0,
            Metadata::Character => channels::MAIN | channels::FLOOR,
            Metadata::Main => channels::MAIN,
        }
    }

    pub open spec fn spec_side_channel(self) -> u32 {
        match self {
            Metadata::FloorOnly => 0,
            _ => channels::MAIN,
        }
    }

    pub open spec fn spec_left_flags(self) -> u32 {
        match self {
            Metadata::Character => flags::FLOOR_START | flags::BUMP_START,
            _ => 0,
        }
    }

    pub open spec fn spec_right_flags(self) -> u32 {
        match self {
            Metadata::Character => flags::FLOOR_END | flags::BUMP_END,
            _ => 0,
        }
    }

    /// The channels of the top side: solid for every shape, and on a
    /// floor-only platform a floor as well.
    pub fn top_channel(self) -> (c: u32)
        ensures
            c == self.spec_top_channel(),
    {
        match self {
            Metadata::FloorOnly => channels::MAIN | channels::FLOOR,
            Metadata::Character => channels::MAIN,
            _ => channels::MAIN,
        }
    }

    /// The channels of the underside: none for a floor-only platform, the
    /// floor channel too for a character.
    pub fn bottom_channel(self) -> (c: u32)
        ensures
            c == self.spec_bottom_channel(),
    {
        match self {
            Metadata::FloorOnly => 0,
            Metadata::Character => channels::MAIN | channels::FLOOR,
            _ => channels::MAIN,
        }
    }

    /// The channels of the left side: none for a floor-only platform.
    pub fn left_channel(self) -> (c: u32)
        ensures
            c == self.spec_side_channel(),
    {
        match self {
            Metadata::FloorOnly => 0,
            Metadata::Character => channels::MAIN,
            _ => channels::MAIN,
        }
    }

    /// The channels of the right side: none for a floor-only platform.
    pub fn right_channel(self) -> (c: u32)
        ensures
            c == self.spec_side_channel(),
    {
        match self {
            Metadata::FloorOnly => 0,
            Metadata::Character => channels::MAIN,
            _ => channels::MAIN,
        }
    }

    /// The top side has no role.
    pub fn top_flags(self) -> (f: u32)
        ensures
            f == 0,
    {
        0
    }

    /// The underside has no role.
    pub fn bottom_flags(self) -> (f: u32)
        ensures
            f == 0,
    {
        0
    }

    /// The left side of a character starts at its foot.
    pub fn left_flags(self) -> (f: u32)
        ensures
            f == self.spec_left_flags(),
    {
        match self {
            Metadata::Character => flags::FLOOR_START | flags::BUMP_START,
            _ => 0,
        }
    }

    /// The right side of a character ends at its foot.
    pub fn right_flags(self) -> (f: u32)
        ensures
            f == self.spec_right_flags(),
    {
        match self {
            Metadata::Character => flags::FLOOR_END | flags::BUMP_END,
            _ => 0,
        }
    }
}

/// A rectangle with its top left corner at its position.
#[derive(Clone, Copy, Debug)]
pub struct AxisAlignedRect {
    dimensions: Vector2,
    metadata: Metadata,
}

impl AxisAlignedRect {
    #[verifier::type_invariant]
    spec fn well_formed(self) -> bool {
        self.wf()
    }

    /// Neither side is negative or longer than [`SHAPE_LIMIT`]: true of
    /// every rectangle that code can hold.
    pub open spec fn wf(self) -> bool {
        &&& 0 <= self.spec_dimensions().x <= SHAPE_LIMIT
        &&& 0 <= self.spec_dimensions().y <= SHAPE_LIMIT
    }

    /// The width and height.
    pub closed spec fn spec_dimensions(self) -> Vector2 {
        self.dimensions
    }

    /// What the rectangle is to the things that run into it.
    pub closed spec fn spec_metadata(self) -> Metadata {
        self.metadata
    }

    /// The corner with the given offsets from the top left.
    pub open spec fn corner(self, right: bool, bottom: bool) -> Vector2 {
        Vector2 {
            x: if right { self.spec_dimensions().x } else { 0 },
            y: if bottom { self.spec_dimensions().y } else { 0 },
        }
    }

    /// The top side, from left to right.
    pub open spec fn spec_top(self) -> Edge {
        Edge {
            left_solid_edge: LeftSolidEdge {
                start: self.corner(false, false),
                end: self.corner(true, false),
            },
            channels: self.spec_metadata().spec_top_channel(),
            flags: 0,
        }
    }

    /// The right side, from top to bottom.
    pub open spec fn spec_right(self) -> Edge {
        Edge {
            left_solid_edge: LeftSolidEdge {
                start: self.corner(true, false),
                end: self.corner(true, true),
            },
            channels: self.spec_metadata().spec_side_channel(),
            flags: self.spec_metadata().spec_right_flags(),
        }
    }

    /// The underside, from right to left.
    pub open spec fn spec_bottom(self) -> Edge {
        Edge {
            left_solid_edge: LeftSolidEdge {
                start: self.corner(true, true),
                end: self.corner(false, true),
            },
            channels: self.spec_metadata().spec_bottom_channel(),
            flags: 0,
        }
    }

    /// The left side, from bottom to top.
    pub open spec fn spec_left(self) -> Edge {
        Edge {
            left_solid_edge: LeftSolidEdge {
                start: self.corner(false, true),
                end: self.corner(false, false),
            },
            channels: self.spec_metadata().spec_side_channel(),
            flags: self.spec_metadata().spec_left_flags(),
        }
    }

    /// A rectangle that is solid from every side.
    pub fn new(dimensions: Vector2) -> (rect: Self)
        requires
            0 <= dimensions.x <= SHAPE_LIMIT,
            0 <= dimensions.y <= SHAPE_LIMIT,
        ensures
            rect.spec_dimensions() == dimensions,
            rect.spec_metadata() == Metadata::Main,
            rect.wf(),
    {
        Self { dimensions, metadata: Metadata::Main }
    }

    /// A rectangle that walks.
    pub fn new_character(dimensions: Vector2) -> (rect: Self)
        requires
            0 <= dimensions.x <= SHAPE_LIMIT,
            0 <= dimensions.y <= SHAPE_LIMIT,
        ensures
            rect.spec_dimensions() == dimensions,
            rect.spec_metadata() == Metadata::Character,
            rect.wf(),
    {
        Self { dimensions, metadata: Metadata::Character }
    }

    /// A platform that is solid from above only.
    pub fn new_floor_only(dimensions: Vector2) -> (rect: Self)
        requires
            0 <= dimensions.x <= SHAPE_LIMIT,
            0 <= dimensions.y <= SHAPE_LIMIT,
        ensures
            rect.spec_dimensions() == dimensions,
            rect.spec_metadata() == Metadata::FloorOnly,
            rect.wf(),
    {
        Self { dimensions, metadata: Metadata::FloorOnly }
    }

    fn top_left(&self) -> (v: Vector2)
        ensures
            v == self.corner(false, false),
    {
        Vector2::new(0, 0)
    }

    fn top_right(&self) -> (v: Vector2)
        ensures
            v == self.corner(true, false),
    {
        Vector2::new(self.dimensions.x, 0)
    }

    fn bottom_left(&self) -> (v: Vector2)
        ensures
            v == self.corner(false, true),
    {
        Vector2::new(0, self.dimensions.y)
    }

    fn bottom_right(&self) -> (v: Vector2)
        ensures
            v == self.corner(true, true),
    {
        self.dimensions
    }

    fn top(&self) -> (edge: Edge)
        ensures
            edge == Edge::spec_new(self.corner(false, false), self.corner(true, false)),
    {
        Edge::new(self.top_left(), self.top_right())
    }

    fn right(&self) -> (edge: Edge)
        ensures
            edge == Edge::spec_new(self.corner(true, false), self.corner(true, true)),
    {
        Edge::new(self.top_right(), self.bottom_right())
    }

    fn bottom(&self) -> (edge: Edge)
        ensures
            edge == Edge::spec_new(self.corner(true, true), self.corner(false, true)),
    {
        Edge::new(self.bottom_right(), self.bottom_left())
    }

    fn left(&self) -> (edge: Edge)
        ensures
            edge == Edge::spec_new(self.corner(false, true), self.corner(false, false)),
    {
        Edge::new(self.bottom_left(), self.top_left())
    }

    pub fn dimensions(&self) -> (v: Vector2)
        ensures
            v == self.spec_dimensions(),
            self.wf(),
    {
        proof {
            use_type_invariant(self);
        }
        self.dimensions
    }
}

impl Collide for AxisAlignedRect {
    /// Every rectangle that code can hold is within the limit.
    open spec fn fits_shape_limit(&self) -> bool {
        true
    }

    open spec fn spec_aabb(&self, top_left: Vec2) -> Box2 {
        Box2 { top_left, size: self.spec_dimensions()@ }
    }

    /// The underside for a movement that does not go up, the top side for
    /// one that does not go down, the right side for one that does not go
    /// left and the left side for one that does not go right, in this order.
    open spec fn edges_facing(&self, direction: Vec2) -> Seq<Edge> {
        (if direction.y >= 0 {
            seq![self.spec_bottom()]
        } else {
            Seq::empty()
        }) + (if direction.y <= 0 {
            seq![self.spec_top()]
        } else {
            Seq::empty()
        }) + (if direction.x >= 0 {
            seq![self.spec_right()]
        } else {
            Seq::empty()
        }) + (if direction.x <= 0 {
            seq![self.spec_left()]
        } else {
            Seq::empty()
        })
    }

    fn aabb(&self, top_left: Vector2) -> (aabb: Aabb) {
        proof {
            use_type_invariant(self);
        }
        Aabb::new(top_left, self.dimensions)
    }

    fn for_each_left_solid_edge_facing(&self, direction: Vector2) -> (edges: Vec<Edge>) {
        proof {
            use_type_invariant(self);
        }
        let mut edges: Vec<Edge> = Vec::new();
        if direction.y >= 0 {
            edges.push(
                self.bottom().with_channels(self.metadata.bottom_channel()).with_flags(
                    self.metadata.bottom_flags(),
                ),
            );
        }
        if direction.y <= 0 {
            edges.push(
                self.top().with_channels(self.metadata.top_channel()).with_flags(
                    self.metadata.top_flags(),
                ),
            );
        }
        if direction.x >= 0 {
            edges.push(
                self.right().with_channels(self.metadata.right_channel()).with_flags(
                    self.metadata.right_flags(),
                ),
            );
        }
        if direction.x <= 0 {
            edges.push(
                self.left().with_channels(self.metadata.left_channel()).with_flags(
                    self.metadata.left_flags(),
                ),
            );
        }
        proof {
            assert(edges@ =~= self.edges_facing(direction@));
        }
        edges
    }
}

/// A floor-only platform is solid from above only: its top side is solid
/// and a floor, and nothing collides with its underside or with its left or
/// right side, whatever its channels, wherever it is and however it moves.
pub proof fn lemma_floor_only_is_solid_from_above_only(
    rect: AxisAlignedRect,
    moving: Edge,
    position: Vec2,
    moving_entity: EntityId,
    rect_position: Vec2,
    rect_entity: EntityId,
    movement: Vec2,
)
    requires
        rect.spec_metadata() == Metadata::FloorOnly,
    ensures
        rect.spec_top().channels == channels::MAIN | channels::FLOOR,
        edge_contact(
            moving,
            position,
            moving_entity,
            rect.spec_bottom(),
            rect_position,
            rect_entity,
            movement,
        ).is_none(),
        edge_contact(
            moving,
            position,
            moving_entity,
            rect.spec_left(),
            rect_position,
            rect_entity,
            movement,
        ).is_none(),
        edge_contact(
            moving,
            position,
            moving_entity,
            rect.spec_right(),
            rect_position,
            rect_entity,
            movement,
        ).is_none(),
{
    let c = moving.channels;
    assert(c & 0 == 0) by (bit_vector);
}

/// Every rectangle that comes down on a floor-only platform is carried: the
/// underside of a character and that of a rectangle that is solid from every
/// side each share a channel with the platform's top side, as they do with
/// the top side of a rectangle that is solid from every side.
pub proof fn lemma_floor_only_carries_every_rectangle()
    ensures
        share_channel(Metadata::Character.spec_bottom_channel(), Metadata::FloorOnly.spec_top_channel()),
        share_channel(Metadata::Main.spec_bottom_channel(), Metadata::FloorOnly.spec_top_channel()),
        share_channel(Metadata::Character.spec_bottom_channel(), Metadata::Main.spec_top_channel()),
        share_channel(Metadata::Main.spec_bottom_channel(), Metadata::Main.spec_top_channel()),
{
    assert((1u32 | 2u32) & (1u32 | 2u32) != 0) by (bit_vector);
    assert(1u32 & (1u32 | 2u32) != 0) by (bit_vector);
    assert((1u32 | 2u32) & 1u32 != 0) by (bit_vector);
    assert(1u32 & 1u32 != 0) by (bit_vector);
}

} // verus!
