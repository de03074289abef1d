//! Continuous collision resolution for a two-dimensional platformer.
//!
//! Given the shapes of a world and the displacement that a shape would like
//! to make, the library finds how much of it can be made before the shape
//! touches anything, lets the rest slide along what was touched or step over
//! a low corner, and goes on until the movement is spent or blocked. A loose
//! quadtree keeps the number of shapes that have to be looked at small.
//!
//! Every length is a whole number of units, a thousand of them to the pixel,
//! so that the swept intersection algebra is exact: multipliers are ratios of
//! cross products and are compared by cross-multiplication, never divided
//! until a displacement has to be handed back. A displacement that is handed
//! back is rounded toward zero, so that nothing moves further than it may; a
//! nudge over a corner is rounded away from zero, so that the corner is
//! cleared.
//!
//! Coordinates are bounded, so that no product overflows: what takes part in
//! a collision test lies within [`vector::COORDINATE_LIMIT`] of the origin, a
//! shape's vertices within [`collide::SHAPE_LIMIT`] of its position, and a
//! shape within [`collide::POSITION_LIMIT`] of the origin.
//!
//! - [`vector`], [`ratio`], [`arith`], [`normalize`]: whole vectors, fractions
//!   and the rounding that they need.
//! - [`aabb`], [`loose_quad_tree`]: bounding boxes and the spatial index.
//! - [`left_solid_edge`]: one edge swept against another.
//! - [`collide`], [`axis_aligned_rect`], [`line_segment`], [`shape`]: the
//!   outlines of shapes, and the collisions between two of them.
//! - [`closest`], [`bump`], [`movement`]: the collisions that tie for the
//!   earliest, the nudge over a corner, and the steps of a movement.
//! - [`collision`], [`vertex_edge_collision`], [`padding`]: a single vertex
//!   swept against a single edge, with a margin kept between them.

pub mod arith;
pub mod vector;
pub mod ratio;
pub mod normalize;
pub mod padding;
pub mod aabb;
pub mod loose_quad_tree;
pub mod left_solid_edge;
pub mod line_segment;
pub mod collision;
pub mod vertex_edge_collision;
pub mod collide;
pub mod closest;
pub mod axis_aligned_rect;
pub mod shape;
pub mod bump;
pub mod movement;
