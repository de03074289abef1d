//! Axis-aligned bounding boxes.

use vstd::prelude::*;
use crate::vector::{Vec2, Vector2, COORDINATE_LIMIT};

verus! {

/// The box that an [`Aabb`] stands for: the points from `top_left` to
/// `top_left + size`, both included.
pub struct Box2 {
    pub top_left: Vec2,
    pub size: Vec2,
}

impl Box2 {
    pub open spec fn bottom_right(self) -> Vec2 {
        self.top_left.plus(self.size)
    }

    /// The box has no negative extent and lies within `limit` of the origin.
    pub open spec fn within(self, limit: int) -> bool {
        &&& self.size.x >= 0
        &&& self.size.y >= 0
        &&& self.top_left.within(limit)
        &&& self.bottom_right().within(limit)
    }

    /// The point lies in the box.
    pub open spec fn contains(self, point: Vec2) -> bool {
        &&& self.top_left.x <= point.x <= self.bottom_right().x
        &&& self.top_left.y <= point.y <= self.bottom_right().y
    }

    /// The other box lies in this one.
    pub open spec fn covers(self, other: Box2) -> bool {
        &&& self.top_left.x <= other.top_left.x
        &&& self.top_left.y <= other.top_left.y
        &&& other.bottom_right().x <= self.bottom_right().x
        &&& other.bottom_right().y <= self.bottom_right().y
    }

    /// The boxes share a point. Boxes that only touch do.
    pub open spec fn intersects(self, other: Box2) -> bool {
        &&& self.bottom_right().x >= other.top_left.x
        &&& other.bottom_right().x >= self.top_left.x
        &&& self.bottom_right().y >= other.top_left.y
        &&& other.bottom_right().y >= self.top_left.y
    }

    /// The smallest box that covers both.
    pub open spec fn union(self, other: Box2) -> Box2 {
        let left = if self.top_left.x <= other.top_left.x {
            self.top_left.x
        } else {
            other.top_left.x
        };
        let top = if self.top_left.y <= other.top_left.y {
            self.top_left.y
        } else {
            other.top_left.y
        };
        let right = if self.bottom_right().x >= other.bottom_right().x {
            self.bottom_right().x
        } else {
            other.bottom_right().x
        };
        let bottom = if self.bottom_right().y >= other.bottom_right().y {
            self.bottom_right().y
        } else {
            other.bottom_right().y
        };
        Box2 { top_left: Vec2 { x: left, y: top }, size: Vec2 { x: right - left, y: bottom - top } }
    }

    /// The box that reaches `margin` further to every side.
    pub open spec fn grown(self, margin: int) -> Box2 {
        Box2 {
            top_left: Vec2 { x: self.top_left.x - margin, y: self.top_left.y - margin },
            size: Vec2 { x: self.size.x + 2 * margin, y: self.size.y + 2 * margin },
        }
    }

    /// Half the size, rounded down.
    pub open spec fn half_size(self) -> Vec2 {
        Vec2 { x: self.size.x / 2, y: self.size.y / 2 }
    }

    /// The centre, rounded toward the top left.
    pub open spec fn centre(self) -> Vec2 {
        self.top_left.plus(self.half_size())
    }

    /// The box with the given centre that reaches `half_size` to each side.
    pub open spec fn from_centre_and_half_size(centre: Vec2, half_size: Vec2) -> Box2 {
        Box2 {
            top_left: centre.minus(half_size),
            size: Vec2 { x: 2 * half_size.x, y: 2 * half_size.y },
        }
    }

    /// The box of twice the size about the same centre.
    pub open spec fn doubled_about_centre(self) -> Box2 {
        Box2::from_centre_and_half_size(self.centre(), self.size)
    }

    /// The quadrant with the given offset from the top left, in half sizes.
    pub open spec fn quadrant(self, right: bool, bottom: bool) -> Box2 {
        let half = self.half_size();
        Box2 {
            top_left: Vec2 {
                x: if right { self.top_left.x + half.x } else { self.top_left.x },
                y: if bottom { self.top_left.y + half.y } else { self.top_left.y },
            },
            size: half,
        }
    }
}

/// An axis-aligned box, given by its top left corner and its size.
#[derive(Clone, Copy, Debug, PartialEq, Eq, Structural)]
pub struct Aabb {
    top_left: Vector2,
    size: Vector2,
}

impl View for Aabb {
    type V = Box2;

    closed spec fn view(&self) -> Box2 {
        Box2 { top_left: self.top_left@, size: self.size@ }
    }
}

/// The four quadrants of a box.
#[derive(Clone, Copy, Debug)]
pub struct AabbSplitFour {
    pub top_left: Aabb,
    pub top_right: Aabb,
    pub bottom_left: Aabb,
    pub bottom_right: Aabb,
}

impl Aabb {
    /// The box has no negative extent and lies within the coordinate limit.
    pub open spec fn in_range(self) -> bool {
        self@.within(COORDINATE_LIMIT as int)
    }

    pub fn is_in_range(&self) -> (b: bool)
        ensures
            b == self.in_range(),
    {
        self.size.x >= 0 && self.size.y >= 0 && self.top_left.is_in_range() && (self.top_left.x
            as i128) + (self.size.x as i128) <= COORDINATE_LIMIT as i128 && (self.top_left.y
            as i128) + (self.size.y as i128) <= COORDINATE_LIMIT as i128
    }

    pub fn new(top_left: Vector2, size: Vector2) -> (aabb: Self)
        ensures
            aabb@ == (Box2 { top_left: top_left@, size: size@ }),
    {
        Self { top_left, size }
    }

    /// The box with the given centre that reaches `half_size` to each side.
    pub fn from_centre_and_half_size(centre: Vector2, half_size: Vector2) -> (aabb: Self)
        requires
            centre.in_range(),
            half_size@.within(2 * COORDINATE_LIMIT),
        ensures
            aabb@ == Box2::from_centre_and_half_size(centre@, half_size@),
    {
        let top_left = centre.minus(half_size);
        let size = Vector2::new(2 * half_size.x, 2 * half_size.y);
        Self::new(top_left, size)
    }

    fn bottom_right_coord(&self) -> (v: Vector2)
        requires
            self.in_range(),
        ensures
            v@ == self@.bottom_right(),
    {
        self.top_left.plus(self.size)
    }

    /// The smallest box that covers both `a` and `b`.
    pub fn from_union(a: &Aabb, b: &Aabb) -> (aabb: Self)
        requires
            a.in_range(),
            b.in_range(),
        ensures
            aabb@ == a@.union(b@),
            aabb.in_range(),
            aabb@.covers(a@),
            aabb@.covers(b@),
    {
        let left = if a.top_left.x <= b.top_left.x {
            a.top_left.x
        } else {
            b.top_left.x
        };
        let top = if a.top_left.y <= b.top_left.y {
            a.top_left.y
        } else {
            b.top_left.y
        };
        let a_bottom_right_coord = a.bottom_right_coord();
        let b_bottom_right_coord = b.bottom_right_coord();
        let right = if a_bottom_right_coord.x >= b_bottom_right_coord.x {
            a_bottom_right_coord.x
        } else {
            b_bottom_right_coord.x
        };
        let bottom = if a_bottom_right_coord.y >= b_bottom_right_coord.y {
            a_bottom_right_coord.y
        } else {
            b_bottom_right_coord.y
        };
        Self::new(Vector2::new(left, top), Vector2::new(right - left, bottom - top))
    }

    /// The smallest box that covers both this one and `other`.
    pub fn union(&self, other: &Self) -> (aabb: Self)
        requires
            self.in_range(),
            other.in_range(),
        ensures
            aabb@ == self@.union(other@),
            aabb.in_range(),
            aabb@.covers(self@),
            aabb@.covers(other@),
    {
        Self::from_union(self, other)
    }

    pub fn top_left(&self) -> (v: Vector2)
        ensures
            v@ == self@.top_left,
    {
        self.top_left
    }

    pub fn size(&self) -> (v: Vector2)
        ensures
            v@ == self@.size,
    {
        self.size
    }

    /// Whether the boxes share a point. Boxes that only touch do.
    pub fn is_intersecting(&self, other: &Aabb) -> (b: bool)
        ensures
            b == self@.intersects(other@),
    {
        (self.top_left.x as i128) + (self.size.x as i128) >= other.top_left.x as i128 && (
        other.top_left.x as i128) + (other.size.x as i128) >= self.top_left.x as i128 && (
        self.top_left.y as i128) + (self.size.y as i128) >= other.top_left.y as i128 && (
        other.top_left.y as i128) + (other.size.y as i128) >= self.top_left.y as i128
    }

    /// The centre, rounded toward the top left.
    pub fn centre(&self) -> (v: Vector2)
        requires
            self.in_range(),
        ensures
            v@ == self@.centre(),
            self@.contains(v@),
    {
        Vector2::new(self.top_left.x + self.size.x / 2, self.top_left.y + self.size.y / 2)
    }

    /// The four quadrants, each of half the size rounded down. They tile the
    /// box where its size is even.
    pub fn split_four(&self) -> (quadrants: AabbSplitFour)
        requires
            self.in_range(),
        ensures
            quadrants.top_left@ == self@.quadrant(false, false),
            quadrants.top_right@ == self@.quadrant(true, false),
            quadrants.bottom_left@ == self@.quadrant(false, true),
            quadrants.bottom_right@ == self@.quadrant(true, true),
            quadrants.top_left.in_range(),
            quadrants.top_right.in_range(),
            quadrants.bottom_left.in_range(),
            quadrants.bottom_right.in_range(),
    {
        let size = Vector2::new(self.size.x / 2, self.size.y / 2);
        AabbSplitFour {
            top_left: Self::new(self.top_left, size),
            top_right: Self::new(Vector2::new(self.top_left.x + size.x, self.top_left.y), size),
            bottom_left: Self::new(Vector2::new(self.top_left.x, self.top_left.y + size.y), size),
            bottom_right: Self::new(self.top_left.plus(size), size),
        }
    }

    /// The box of twice the size about the same centre.
    pub fn double_about_centre(&self) -> (aabb: Self)
        requires
            self.in_range(),
        ensures
            aabb@ == self@.doubled_about_centre(),
            aabb@.covers(self@),
    {
        Self::from_centre_and_half_size(self.centre(), self.size)
    }
}

/// The union of two boxes covers both, and every box that covers both covers
/// the union.
pub proof fn lemma_union_is_least_cover(a: Box2, b: Box2, c: Box2)
    ensures
        a.union(b).covers(a),
        a.union(b).covers(b),
        c.covers(a) && c.covers(b) ==> c.covers(a.union(b)),
{
}

/// The quadrants of a box of even size tile it: they have half its size,
/// every point of the box lies in one of them, and every point of one of
/// them lies in the box.
pub proof fn lemma_quadrants_tile(b: Box2, point: Vec2)
    requires
        b.size.x >= 0,
        b.size.y >= 0,
        b.size.x % 2 == 0,
        b.size.y % 2 == 0,
    ensures
        2 * b.half_size().x == b.size.x,
        2 * b.half_size().y == b.size.y,
        b.contains(point) <==> (b.quadrant(false, false).contains(point) || b.quadrant(
            true,
            false,
        ).contains(point) || b.quadrant(false, true).contains(point) || b.quadrant(
            true,
            true,
        ).contains(point)),
{
}

/// Doubling a box about its centre keeps the centre and doubles the size.
pub proof fn lemma_doubled_keeps_centre(b: Box2)
    requires
        b.size.x >= 0,
        b.size.y >= 0,
    ensures
        b.doubled_about_centre().centre() == b.centre(),
        b.doubled_about_centre().size.x == 2 * b.size.x,
        b.doubled_about_centre().size.y == 2 * b.size.y,
        b.doubled_about_centre().covers(b),
{
}

} // verus!
