//! A line segment, solid on both sides.

use vstd::prelude::*;
use crate::aabb::{Aabb, Box2};
use crate::collide::{Collide, Edge, SHAPE_LIMIT};
use crate::vector::{Vec2, Vector2};

verus! {

/// A segment from `start` to `end`. Where it is a shape, the two are given
/// relative to its position.
#[derive(Clone, Copy, Debug, PartialEq, Eq, Structural)]
pub struct LineSegment {
    pub start: Vector2,
    pub end: Vector2,
}

/// Half the thickness that a segment has for a collision: a tenth of a
/// pixel.
pub const WIDTH: i64 = 100;

/// How far the bounding box reaches beyond the segment's ends: one pixel, for
/// the corners of the thin rectangle that the segment collides as.
pub const MARGIN: i64 = 1000;

/// No end of a segment that is a shape lies further than this from the
/// shape's position, so that the thin rectangle about it stays within
/// [`SHAPE_LIMIT`].
pub const END_LIMIT: i64 = 9_999_900;

impl LineSegment {
    pub fn new_both_solid(start: Vector2, end: Vector2) -> (segment: Self)
        ensures
            segment.start == start,
            segment.end == end,
    {
        Self { start, end }
    }

    /// Both ends lie within the coordinate limit.
    pub open spec fn in_range(self) -> bool {
        self.start.in_range() && self.end.in_range()
    }

    pub fn is_in_range(&self) -> (b: bool)
        ensures
            b == self.in_range(),
    {
        self.start.is_in_range() && self.end.is_in_range()
    }

    /// Both ends lie within [`END_LIMIT`], so that the segment can be a
    /// shape.
    pub open spec fn in_shape(self) -> bool {
        &&& self.start@.within(END_LIMIT as int)
        &&& self.end@.within(END_LIMIT as int)
    }

    /// Whether the segment can be a shape.
    pub fn is_in_shape(&self) -> (b: bool)
        ensures
            b == self.in_shape(),
    {
        -END_LIMIT <= self.start.x && self.start.x <= END_LIMIT && -END_LIMIT <= self.start.y
            && self.start.y <= END_LIMIT && -END_LIMIT <= self.end.x && self.end.x <= END_LIMIT
            && -END_LIMIT <= self.end.y && self.end.y <= END_LIMIT
    }

    /// The vector from the start to the end.
    pub open spec fn spec_vector(self) -> Vec2 {
        self.end@.minus(self.start@)
    }

    /// The segment moved by `vector`.
    pub fn add_vector(&self, vector: Vector2) -> (segment: Self)
        requires
            self.start@.plus(vector@).within(i64::MAX as int),
            self.end@.plus(vector@).within(i64::MAX as int),
        ensures
            segment.start@ == self.start@.plus(vector@),
            segment.end@ == self.end@.plus(vector@),
    {
        Self { start: self.start.plus(vector), end: self.end.plus(vector) }
    }

    pub fn vector(&self) -> (v: Vector2)
        requires
            self.spec_vector().within(i64::MAX as int),
        ensures
            v@ == self.spec_vector(),
    {
        self.end.minus(self.start)
    }
}

/// The vector with the given coordinates, which fit.
pub open spec fn spec_vector2(v: Vec2) -> Vector2 {
    Vector2 { x: v.x as i64, y: v.y as i64 }
}

impl LineSegment {
    /// The vector of length [`WIDTH`] square to the segment, to its left.
    pub open spec fn spec_left_offset(self) -> Vec2 {
        self.spec_vector().rot90().resized(WIDTH as int)
    }

    /// The long side on the left of the segment, which runs from its end to
    /// its start.
    pub open spec fn spec_left_side(self) -> Edge {
        Edge::spec_new(
            spec_vector2(self.end@.plus(self.spec_left_offset())),
            spec_vector2(self.start@.plus(self.spec_left_offset())),
        )
    }

    /// The long side on the right of the segment, which runs from its start
    /// to its end.
    pub open spec fn spec_right_side(self) -> Edge {
        Edge::spec_new(
            spec_vector2(self.start@.minus(self.spec_left_offset())),
            spec_vector2(self.end@.minus(self.spec_left_offset())),
        )
    }

    /// The edge from `start` to `end`.
    fn left_solid_edge(start: Vector2, end: Vector2) -> (edge: Edge)
        ensures
            edge == Edge::spec_new(start, end),
    {
        Edge::new(start, end)
    }

    /// The edge from `end` to `start`.
    fn left_solid_edge_flipped(start: Vector2, end: Vector2) -> (edge: Edge)
        ensures
            edge == Edge::spec_new(end, start),
    {
        Edge::new(end, start)
    }
}

impl Collide for LineSegment {
    open spec fn fits_shape_limit(&self) -> bool {
        self.in_shape()
    }

    /// The box about both ends, with a margin.
    open spec fn spec_aabb(&self, top_left: Vec2) -> Box2 {
        Box2 { top_left: self.start@.plus(top_left), size: Vec2 { x: 0, y: 0 } }.union(
            Box2 { top_left: self.end@.plus(top_left), size: Vec2 { x: 0, y: 0 } },
        ).grown(MARGIN as int)
    }

    /// The four sides of the thin rectangle about the segment, whatever the
    /// direction: the long side on its left, the long side on its right, the
    /// cap at its start and the cap at its end.
    open spec fn edges_facing(&self, direction: Vec2) -> Seq<Edge> {
        let a = self.spec_left_side();
        let b = self.spec_right_side();
        seq![
            a,
            b,
            Edge::spec_new(a.left_solid_edge.end, b.left_solid_edge.start),
            Edge::spec_new(b.left_solid_edge.end, a.left_solid_edge.start),
        ]
    }

    fn aabb(&self, top_left: Vector2) -> (aabb: Aabb) {
        let start = self.start.plus(top_left);
        let end = self.end.plus(top_left);
        let x_min = (if start.x <= end.x {
            start.x
        } else {
            end.x
        }) - MARGIN;
        let x_max = (if start.x >= end.x {
            start.x
        } else {
            end.x
        }) + MARGIN;
        let y_min = (if start.y <= end.y {
            start.y
        } else {
            end.y
        }) - MARGIN;
        let y_max = (if start.y >= end.y {
            start.y
        } else {
            end.y
        }) + MARGIN;
        let top_left = Vector2::new(x_min, y_min);
        let bottom_right = Vector2::new(x_max, y_max);
        Aabb::new(top_left, bottom_right.minus(top_left))
    }

    fn for_each_left_solid_edge_facing(&self, _direction: Vector2) -> (edges: Vec<Edge>) {
        let vector = self.vector();
        let left = vector.rot90().resize(WIDTH);
        let a = Self::left_solid_edge_flipped(self.start.plus(left), self.end.plus(left));
        let b = Self::left_solid_edge(self.start.minus(left), self.end.minus(left));
        let mut edges: Vec<Edge> = Vec::new();
        edges.push(a);
        edges.push(b);
        edges.push(Edge::new(a.end(), b.start()));
        edges.push(Edge::new(b.end(), a.start()));
        proof {
            assert(edges@ =~= self.edges_facing(_direction@));
        }
        edges
    }
}

} // verus!
