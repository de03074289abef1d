//! The swept intersection of two directed edges, each solid on its left.
//!
//! A moving edge and a stationary edge can only meet where a vertex of one
//! reaches the other, so the sweep is four vertex-against-edge problems in
//! the frame of the edge that is hit. Each yields two fractions over the same
//! cross product: how far along the edge the vertex arrives, and how much of
//! the movement is spent when it does.

use vstd::prelude::*;
use crate::arith::lemma_product_bound;
use crate::ratio::{Fraction, Ratio};
use crate::vector::{
    abs, lemma_projection_is_along, lemma_projection_shrinks, Vec2, Vector2, COORDINATE_LIMIT,
    WIDE_LIMIT,
};

verus! {

/// The tolerance on a multiplier is one part in this many.
pub const EPSILON_PARTS: i64 = 1_000_000;

/// A directed segment whose solid side is on the left of `end - start`.
#[derive(Clone, Copy, Debug, PartialEq, Eq, Structural)]
pub struct LeftSolidEdge {
    pub start: Vector2,
    pub end: Vector2,
}

/// Which end of an edge.
#[derive(Clone, Copy, Debug, PartialEq, Eq, Structural)]
pub enum StartOrEnd {
    Start,
    End,
}

/// Where on an edge a vertex of the other edge arrives.
#[derive(Clone, Copy, Debug)]
pub struct EdgeCollisionPosition {
    pub which_part_of_other_edge: StartOrEnd,
    pub how_far_along_this_edge: Ratio,
}

/// The model of an [`EdgeCollisionPosition`].
pub struct ContactPosition {
    pub which_part_of_other_edge: StartOrEnd,
    pub how_far_along_this_edge: Fraction,
}

impl View for EdgeCollisionPosition {
    type V = ContactPosition;

    open spec fn view(&self) -> ContactPosition {
        ContactPosition {
            which_part_of_other_edge: self.which_part_of_other_edge,
            how_far_along_this_edge: self.how_far_along_this_edge@,
        }
    }
}

/// The vertices of the other edge that arrive on an edge at the moment of
/// contact: none, one, or both, and then in the order in which they lie
/// along this edge.
pub enum EdgeContacts {
    Zero,
    One(ContactPosition),
    Two { min: ContactPosition, max: ContactPosition },
}

impl EdgeContacts {
    /// The contacts of an edge, from what became of the other edge's start
    /// and of its end. Two facing edges run in opposite directions, so where
    /// both vertices arrive the other edge's end comes first along this one.
    pub open spec fn from_vertices(
        other_edge_start: Option<VertexContact>,
        other_edge_end: Option<VertexContact>,
    ) -> EdgeContacts {
        match (other_edge_start, other_edge_end) {
            (None, None) => EdgeContacts::Zero,
            (Some(start), None) => EdgeContacts::One(
                ContactPosition {
                    which_part_of_other_edge: StartOrEnd::Start,
                    how_far_along_this_edge: start.edge_parameter,
                },
            ),
            (None, Some(end)) => EdgeContacts::One(
                ContactPosition {
                    which_part_of_other_edge: StartOrEnd::End,
                    how_far_along_this_edge: end.edge_parameter,
                },
            ),
            (Some(start), Some(end)) => EdgeContacts::Two {
                min: ContactPosition {
                    which_part_of_other_edge: StartOrEnd::End,
                    how_far_along_this_edge: end.edge_parameter,
                },
                max: ContactPosition {
                    which_part_of_other_edge: StartOrEnd::Start,
                    how_far_along_this_edge: start.edge_parameter,
                },
            },
        }
    }

    /// The contact nearest the start of this edge.
    pub open spec fn min_position(self) -> Option<ContactPosition> {
        match self {
            EdgeContacts::Zero => None,
            EdgeContacts::One(only) => Some(only),
            EdgeContacts::Two { min, .. } => Some(min),
        }
    }

    /// The contact nearest the end of this edge.
    pub open spec fn max_position(self) -> Option<ContactPosition> {
        match self {
            EdgeContacts::Zero => None,
            EdgeContacts::One(only) => Some(only),
            EdgeContacts::Two { max, .. } => Some(max),
        }
    }
}

#[derive(Clone, Copy, Debug)]
enum EdgeCollisions {
    Zero,
    One(EdgeCollisionPosition),
    Two { min: EdgeCollisionPosition, max: EdgeCollisionPosition },
}

impl View for EdgeCollisions {
    type V = EdgeContacts;

    closed spec fn view(&self) -> EdgeContacts {
        match self {
            EdgeCollisions::Zero => EdgeContacts::Zero,
            EdgeCollisions::One(only) => EdgeContacts::One(only@),
            EdgeCollisions::Two { min, max } => EdgeContacts::Two { min: min@, max: max@ },
        }
    }
}

/// What one vertex-against-edge problem yields when the vertex arrives.
pub struct VertexContact {
    /// The part of the movement spent before the vertex reaches the edge.
    pub movement_multiplier: Fraction,
    /// Where along the edge it arrives: zero at the start, one at the end.
    pub edge_parameter: Fraction,
    /// The direction of the edge that is hit.
    pub edge_vector: Vec2,
}

#[derive(Clone, Copy, Debug)]
struct VertexCollision {
    movement_multiplier: Ratio,
    edge_vector_multiplier: Ratio,
    edge_vector: Vector2,
}

impl View for VertexCollision {
    type V = VertexContact;

    closed spec fn view(&self) -> VertexContact {
        VertexContact {
            movement_multiplier: self.movement_multiplier@,
            edge_parameter: self.edge_vector_multiplier@,
            edge_vector: self.edge_vector@,
        }
    }
}

/// The window in which a vertex must arrive along the edge to count. A start
/// vertex is taken from just after the edge's start to just after its end, an
/// end vertex from just before the start to just before the end, so that a
/// contact at a corner shared by two edges of one outline counts once.
pub open spec fn parameter_in_window(parameter: Fraction, role: StartOrEnd) -> bool {
    match role {
        StartOrEnd::Start => !parameter.lt_fraction(1, EPSILON_PARTS as int)
            && !parameter.gt_fraction(EPSILON_PARTS + 1, EPSILON_PARTS as int),
        StartOrEnd::End => !parameter.lt_fraction(-1, EPSILON_PARTS as int)
            && !parameter.gt_fraction(EPSILON_PARTS - 1, EPSILON_PARTS as int),
    }
}

/// The movement multiplier lies between zero and one, up to the tolerance.
pub open spec fn multiplier_in_window(multiplier: Fraction) -> bool {
    !multiplier.lt_fraction(-1, EPSILON_PARTS as int) && !multiplier.gt_fraction(
        EPSILON_PARTS + 1,
        EPSILON_PARTS as int,
    )
}

/// A vertex at `vertex` moving by `movement` against the edge from
/// `edge_start` along `edge_vector`, where the movement crosses the edge from
/// its open side, that is `movement.cross(edge_vector) < 0`.
///
/// The vertex's path meets the edge's line at `edge_start + p * edge_vector`
/// after `m * movement`, with
/// `p = (edge_start - vertex) x movement / movement x edge_vector` and
/// `m = (edge_start - vertex) x edge_vector / movement x edge_vector`. Both
/// are given over the positive denominator `-(movement x edge_vector)`.
pub open spec fn vertex_contact(
    edge_start: Vec2,
    edge_vector: Vec2,
    vertex: Vec2,
    movement: Vec2,
    role: StartOrEnd,
) -> Option<VertexContact> {
    let den = -movement.cross(edge_vector);
    let to_start = edge_start.minus(vertex);
    let parameter = Fraction { num: -to_start.cross(movement), den };
    let multiplier = Fraction { num: -to_start.cross(edge_vector), den };
    if parameter_in_window(parameter, role) && multiplier_in_window(multiplier) {
        Some(VertexContact { movement_multiplier: multiplier, edge_parameter: parameter, edge_vector })
    } else {
        None
    }
}

/// The earlier of two contacts; the first of them where they tie.
pub open spec fn earlier(
    first: Option<VertexContact>,
    second: Option<VertexContact>,
) -> Option<VertexContact> {
    match (first, second) {
        (None, _) => second,
        (Some(_), None) => first,
        (Some(a), Some(b)) => if b.movement_multiplier.lt(a.movement_multiplier) {
            second
        } else {
            first
        },
    }
}

/// The contact, unless it comes later than `least`.
pub open spec fn not_later_than(contact: Option<VertexContact>, least: Fraction) -> Option<
    VertexContact,
> {
    match contact {
        Some(c) => if c.movement_multiplier.gt(least) {
            None
        } else {
            contact
        },
        None => None,
    }
}

/// The model of a [`LeftSolidEdgeCollision`].
pub struct SweptContact {
    pub moving_edge: EdgeContacts,
    pub stationary_edge: EdgeContacts,
    /// The part of the attempted movement that is free, between zero and one.
    pub movement_multiplier: Fraction,
    /// The direction of the edge on which the earliest vertex arrived.
    pub edge_vector: Vec2,
}

impl SweptContact {
    /// The multiplier lies between zero and one, and the edge vector is the
    /// difference of two points in range.
    pub open spec fn wf(self) -> bool {
        &&& self.movement_multiplier.wf()
        &&& self.movement_multiplier.in_unit_interval()
        &&& self.edge_vector.within(2 * COORDINATE_LIMIT)
    }

    /// The part of `attempt` that can be moved before contact.
    pub open spec fn movement_to_collision(self, attempt: Vec2) -> Vec2 {
        attempt.scaled_toward_zero(self.movement_multiplier.num, self.movement_multiplier.den)
    }

    /// The part of `attempt` that is left at contact.
    pub open spec fn movement_following_collision(self, attempt: Vec2) -> Vec2 {
        attempt.minus(self.movement_to_collision(attempt))
    }

    /// What is left of `attempt` at contact, along the edge that was hit.
    pub open spec fn slide(self, attempt: Vec2) -> Vec2 {
        self.movement_following_collision(attempt).projected_on(self.edge_vector)
    }
}

/// The contact of the edge `moving`, displaced by `movement`, with the edge
/// `stationary`.
///
/// There is none unless the movement crosses the stationary edge from its
/// open side and the moving edge faces the other way. Then each vertex of
/// either edge is swept against the other edge, the stationary edge's
/// vertices moving backward in the moving edge's frame. The earliest arrival
/// gives the multiplier, brought into the unit interval, and the edge vector;
/// the arrivals that tie with it are recorded on the edge that they reach.
pub open spec fn swept_contact(
    moving: LeftSolidEdge,
    stationary: LeftSolidEdge,
    movement: Vec2,
) -> Option<SweptContact> {
    let moving_vector = moving.end@.minus(moving.start@);
    let stationary_vector = stationary.end@.minus(stationary.start@);
    let reverse = movement.negated();
    if movement.cross(stationary_vector) >= 0 || reverse.cross(moving_vector) >= 0 {
        None
    } else {
        let on_moving_start = vertex_contact(
            moving.start@,
            moving_vector,
            stationary.start@,
            reverse,
            StartOrEnd::Start,
        );
        let on_moving_end = vertex_contact(
            moving.start@,
            moving_vector,
            stationary.end@,
            reverse,
            StartOrEnd::End,
        );
        let on_stationary_start = vertex_contact(
            stationary.start@,
            stationary_vector,
            moving.start@,
            movement,
            StartOrEnd::Start,
        );
        let on_stationary_end = vertex_contact(
            stationary.start@,
            stationary_vector,
            moving.end@,
            movement,
            StartOrEnd::End,
        );
        match earlier(
            earlier(earlier(on_moving_start, on_moving_end), on_stationary_start),
            on_stationary_end,
        ) {
            None => None,
            Some(first) => {
                let least = first.movement_multiplier;
                Some(
                    SweptContact {
                        moving_edge: EdgeContacts::from_vertices(
                            not_later_than(on_moving_start, least),
                            not_later_than(on_moving_end, least),
                        ),
                        stationary_edge: EdgeContacts::from_vertices(
                            not_later_than(on_stationary_start, least),
                            not_later_than(on_stationary_end, least),
                        ),
                        movement_multiplier: least.clamped_to_unit(),
                        edge_vector: first.edge_vector,
                    },
                )
            },
        }
    }
}


/// The model of what a vertex-against-edge problem returned.
spec fn contact_of(collision: Option<VertexCollision>) -> Option<VertexContact> {
    match collision {
        Some(c) => Some(c@),
        None => None,
    }
}

impl EdgeCollisions {
    fn new(
        other_edge_start: &Option<VertexCollision>,
        other_edge_end: &Option<VertexCollision>,
    ) -> (r: Self)
        ensures
            r@ == EdgeContacts::from_vertices(
                contact_of(*other_edge_start),
                contact_of(*other_edge_end),
            ),
    {
        match (other_edge_start, other_edge_end) {
            (None, None) => EdgeCollisions::Zero,
            (Some(start), None) => EdgeCollisions::One(
                EdgeCollisionPosition {
                    which_part_of_other_edge: StartOrEnd::Start,
                    how_far_along_this_edge: start.edge_vector_multiplier,
                },
            ),
            (None, Some(end)) => EdgeCollisions::One(
                EdgeCollisionPosition {
                    which_part_of_other_edge: StartOrEnd::End,
                    how_far_along_this_edge: end.edge_vector_multiplier,
                },
            ),
            (Some(start), Some(end)) => EdgeCollisions::Two {
                min: EdgeCollisionPosition {
                    which_part_of_other_edge: StartOrEnd::End,
                    how_far_along_this_edge: end.edge_vector_multiplier,
                },
                max: EdgeCollisionPosition {
                    which_part_of_other_edge: StartOrEnd::Start,
                    how_far_along_this_edge: start.edge_vector_multiplier,
                },
            },
        }
    }

    fn min_edge_collision_position(&self) -> (r: Option<EdgeCollisionPosition>)
        ensures
            position_of(r) == self@.min_position(),
    {
        match self {
            EdgeCollisions::Zero => None,
            EdgeCollisions::One(only) => Some(*only),
            EdgeCollisions::Two { min, .. } => Some(*min),
        }
    }

    fn max_edge_collision_position(&self) -> (r: Option<EdgeCollisionPosition>)
        ensures
            position_of(r) == self@.max_position(),
    {
        match self {
            EdgeCollisions::Zero => None,
            EdgeCollisions::One(only) => Some(*only),
            EdgeCollisions::Two { max, .. } => Some(*max),
        }
    }
}

/// The model of a position that may be absent.
pub open spec fn position_of(position: Option<EdgeCollisionPosition>) -> Option<ContactPosition> {
    match position {
        Some(p) => Some(p@),
        None => None,
    }
}

/// The outcome of sweeping one edge against another: how much of the
/// attempted movement is free, the direction of the edge that was hit, and
/// which vertices of each edge touch the other at contact.
#[derive(Clone, Copy, Debug)]
pub struct LeftSolidEdgeCollision {
    moving_edge_collisions: EdgeCollisions,
    stationary_edge_collisions: EdgeCollisions,
    movement_multiplier: Ratio,
    edge_vector: Vector2,
}

impl View for LeftSolidEdgeCollision {
    type V = SweptContact;

    closed spec fn view(&self) -> SweptContact {
        SweptContact {
            moving_edge: self.moving_edge_collisions@,
            stationary_edge: self.stationary_edge_collisions@,
            movement_multiplier: self.movement_multiplier@,
            edge_vector: self.edge_vector@,
        }
    }
}

impl LeftSolidEdgeCollision {
    #[verifier::type_invariant]
    spec fn well_formed(self) -> bool {
        self@.wf()
    }

    /// The part of the attempted movement that is free, between zero and one.
    pub fn movement_multiplier(&self) -> (m: Ratio)
        ensures
            m@ == self@.movement_multiplier,
            self@.wf(),
    {
        proof {
            use_type_invariant(self);
        }
        self.movement_multiplier
    }

    /// The direction of the edge that was hit.
    pub fn edge_vector(&self) -> (v: Vector2)
        ensures
            v@ == self@.edge_vector,
            self@.wf(),
    {
        proof {
            use_type_invariant(self);
        }
        self.edge_vector
    }

    /// The part of `movement_attempt` that can be moved before contact.
    pub fn movement_to_collision(&self, movement_attempt: Vector2) -> (v: Vector2)
        requires
            movement_attempt@.within(i64::MAX as int),
        ensures
            v@ == self@.movement_to_collision(movement_attempt@),
    {
        proof {
            use_type_invariant(self);
        }
        movement_attempt.scale_toward_zero(
            self.movement_multiplier.numerator(),
            self.movement_multiplier.denominator(),
        )
    }

    /// What is left of `movement_attempt` at contact.
    pub fn movement_following_collision(&self, movement_attempt: Vector2) -> (v: Vector2)
        requires
            movement_attempt@.within(i64::MAX as int),
        ensures
            v@ == self@.movement_following_collision(movement_attempt@),
    {
        proof {
            use_type_invariant(self);
            lemma_remainder_within(self@, movement_attempt@, i64::MAX as int);
        }
        let spent = self.movement_to_collision(movement_attempt);
        movement_attempt.minus(spent)
    }

    /// What is left of `movement_attempt` at contact, projected on the edge
    /// that was hit.
    pub fn slide(&self, movement_attempt: Vector2) -> (v: Vector2)
        requires
            movement_attempt@.within(WIDE_LIMIT as int),
        ensures
            v@ == self@.slide(movement_attempt@),
            v@.magnitude2() <= movement_attempt@.magnitude2(),
    {
        proof {
            use_type_invariant(self);
            lemma_remainder_within(self@, movement_attempt@, WIDE_LIMIT as int);
        }
        self.movement_following_collision(movement_attempt).project_on(self.edge_vector)
    }

    /// The contact on the moving edge that lies nearest its start.
    pub fn moving_edge_min_collision_position(&self) -> (r: Option<EdgeCollisionPosition>)
        ensures
            position_of(r) == self@.moving_edge.min_position(),
    {
        self.moving_edge_collisions.min_edge_collision_position()
    }

    /// The contact on the moving edge that lies nearest its end.
    pub fn moving_edge_max_collision_position(&self) -> (r: Option<EdgeCollisionPosition>)
        ensures
            position_of(r) == self@.moving_edge.max_position(),
    {
        self.moving_edge_collisions.max_edge_collision_position()
    }

    /// The contact on the stationary edge that lies nearest its start.
    pub fn stationary_edge_min_collision_position(&self) -> (r: Option<EdgeCollisionPosition>)
        ensures
            position_of(r) == self@.stationary_edge.min_position(),
    {
        self.stationary_edge_collisions.min_edge_collision_position()
    }

    /// The contact on the stationary edge that lies nearest its end.
    pub fn stationary_edge_max_collision_position(&self) -> (r: Option<EdgeCollisionPosition>)
        ensures
            position_of(r) == self@.stationary_edge.max_position(),
    {
        self.stationary_edge_collisions.max_edge_collision_position()
    }
}

/// Both parts of a split movement point the way the attempt does and neither
/// is longer than it.
pub proof fn lemma_remainder_within(contact: SweptContact, attempt: Vec2, limit: int)
    requires
        contact.wf(),
        attempt.within(limit),
    ensures
        contact.movement_to_collision(attempt).within(limit),
        contact.movement_following_collision(attempt).within(limit),
        contact.movement_following_collision(attempt).magnitude2() <= attempt.magnitude2(),
        contact.movement_to_collision(attempt).magnitude2() <= attempt.magnitude2(),
{
    let m = contact.movement_multiplier;
    lemma_split_component(attempt.x, m.num, m.den);
    lemma_split_component(attempt.y, m.num, m.den);
}

/// A coordinate times a fraction in the unit interval, rounded toward zero,
/// lies between zero and the coordinate, and so does what is left.
pub proof fn lemma_split_component(c: int, num: int, den: int)
    requires
        den > 0,
        0 <= num <= den,
    ensures
        ({
            let q = crate::arith::div_toward_zero(c * num, den);
            &&& (c >= 0 ==> 0 <= q <= c)
            &&& (c <= 0 ==> c <= q <= 0)
            &&& q * q <= c * c
            &&& (c - q) * (c - q) <= c * c
        }),
{
    let q = crate::arith::div_toward_zero(c * num, den);
    let p = c * num;
    if c >= 0 {
        assert(0 <= p <= c * den) by (nonlinear_arith)
            requires
                p == c * num,
                0 <= num <= den,
                c >= 0,
        ;
        assert(0 <= p / den <= c) by (nonlinear_arith)
            requires
                0 <= p <= c * den,
                den > 0,
        ;
    } else {
        let n = -p;
        assert(0 <= n <= (-c) * den) by (nonlinear_arith)
            requires
                n == -(c * num),
                0 <= num <= den,
                c < 0,
        ;
        assert(0 <= n / den <= -c) by (nonlinear_arith)
            requires
                0 <= n <= (-c) * den,
                den > 0,
        ;
    }
    assert(q * q <= c * c && (c - q) * (c - q) <= c * c) by (nonlinear_arith)
        requires
            (0 <= q <= c) || (c <= q <= 0),
    ;
}

impl LeftSolidEdge {
    pub fn new(start: Vector2, end: Vector2) -> (edge: Self)
        ensures
            edge.start == start,
            edge.end == end,
    {
        Self { start, end }
    }

    /// Both ends lie within the coordinate limit.
    pub open spec fn in_range(self) -> bool {
        self.start.in_range() && self.end.in_range()
    }

    pub fn is_in_range(&self) -> (b: bool)
        ensures
            b == self.in_range(),
    {
        self.start.is_in_range() && self.end.is_in_range()
    }

    /// The vector from the start to the end.
    pub open spec fn spec_vector(self) -> Vec2 {
        self.end@.minus(self.start@)
    }

    /// The edge moved by `vector`.
    pub fn add_vector(&self, vector: Vector2) -> (edge: Self)
        requires
            self.start@.plus(vector@).within(i64::MAX as int),
            self.end@.plus(vector@).within(i64::MAX as int),
        ensures
            edge.start@ == self.start@.plus(vector@),
            edge.end@ == self.end@.plus(vector@),
    {
        Self { start: self.start.plus(vector), end: self.end.plus(vector) }
    }

    pub fn vector(&self) -> (v: Vector2)
        requires
            self.spec_vector().within(i64::MAX as int),
        ensures
            v@ == self.spec_vector(),
    {
        self.end.minus(self.start)
    }

    /// One vertex swept against this edge. `cross` is the cross product of
    /// the vertex's movement with the edge's vector, and negative.
    fn collide_moving_vertex(
        &self,
        vertex: Vector2,
        vertex_movement: Vector2,
        role: StartOrEnd,
        edge_vector: Vector2,
        cross: i64,
    ) -> (r: Option<VertexCollision>)
        requires
            self.in_range(),
            vertex.in_range(),
            vertex_movement.in_range(),
            edge_vector@ == self.spec_vector(),
            cross == vertex_movement@.cross(edge_vector@),
            cross < 0,
        ensures
            contact_of(r) == vertex_contact(
                self.start@,
                self.spec_vector(),
                vertex@,
                vertex_movement@,
                role,
            ),
    {
        let vertex_to_start = self.start.minus(vertex);
        proof {
            let l = COORDINATE_LIMIT as int;
            lemma_product_bound(vertex_to_start.x as int, vertex_movement.y as int, 2 * l, l);
            lemma_product_bound(vertex_to_start.y as int, vertex_movement.x as int, 2 * l, l);
            lemma_product_bound(vertex_to_start.x as int, edge_vector.y as int, 2 * l, 2 * l);
            lemma_product_bound(vertex_to_start.y as int, edge_vector.x as int, 2 * l, 2 * l);
            lemma_product_bound(vertex_movement.x as int, edge_vector.y as int, l, 2 * l);
            lemma_product_bound(vertex_movement.y as int, edge_vector.x as int, l, 2 * l);
            assert((2 * l) * l == 20_000_000_000_000_000);
            assert(l * (2 * l) == 20_000_000_000_000_000);
            assert((2 * l) * (2 * l) == 40_000_000_000_000_000);
        }
        let den: i64 = -cross;
        let along: i128 = vertex_to_start.cross(vertex_movement);
        let parameter = Ratio::new((-along) as i64, den);
        let inside = match role {
            StartOrEnd::Start => !parameter.is_less_than_fraction(1, EPSILON_PARTS)
                && !parameter.is_greater_than_fraction(EPSILON_PARTS + 1, EPSILON_PARTS),
            StartOrEnd::End => !parameter.is_less_than_fraction(-1, EPSILON_PARTS)
                && !parameter.is_greater_than_fraction(EPSILON_PARTS - 1, EPSILON_PARTS),
        };
        if !inside {
            return None;
        }
        let spent: i128 = vertex_to_start.cross(edge_vector);
        let multiplier = Ratio::new((-spent) as i64, den);
        if multiplier.is_less_than_fraction(-1, EPSILON_PARTS) || multiplier.is_greater_than_fraction(
            EPSILON_PARTS + 1,
            EPSILON_PARTS,
        ) {
            return None;
        }
        Some(
            VertexCollision {
                movement_multiplier: multiplier,
                edge_vector_multiplier: parameter,
                edge_vector,
            },
        )
    }

    /// The contact of this edge, displaced by `movement`, with the edge
    /// `other`, which stays where it is; `None` where they do not meet, the
    /// edges face the wrong way, the movement runs along either of them, or
    /// an edge has no length.
    pub fn collide_with_stationary_edge(&self, other: &Self, movement: Vector2) -> (r: Option<
        LeftSolidEdgeCollision,
    >)
        requires
            self.in_range(),
            other.in_range(),
            movement.in_range(),
        ensures
            match r {
                Some(c) => swept_contact(*self, *other, movement@) == Some(c@) && c@.wf(),
                None => swept_contact(*self, *other, movement@).is_none(),
            },
    {
        let stationary_vector = other.vector();
        let moving_vector = self.vector();
        let reverse = movement.negated();
        proof {
            let l = COORDINATE_LIMIT as int;
            lemma_product_bound(movement.x as int, stationary_vector.y as int, l, 2 * l);
            lemma_product_bound(movement.y as int, stationary_vector.x as int, l, 2 * l);
            lemma_product_bound(reverse.x as int, moving_vector.y as int, l, 2 * l);
            lemma_product_bound(reverse.y as int, moving_vector.x as int, l, 2 * l);
            assert(l * (2 * l) == 20_000_000_000_000_000);
        }
        let stationary_cross: i128 = movement.cross(stationary_vector);
        if stationary_cross >= 0 {
            return None;
        }
        let moving_cross: i128 = reverse.cross(moving_vector);
        if moving_cross >= 0 {
            return None;
        }
        let on_moving_start = self.collide_moving_vertex(
            other.start,
            reverse,
            StartOrEnd::Start,
            moving_vector,
            moving_cross as i64,
        );
        let on_moving_end = self.collide_moving_vertex(
            other.end,
            reverse,
            StartOrEnd::End,
            moving_vector,
            moving_cross as i64,
        );
        let on_stationary_start = other.collide_moving_vertex(
            self.start,
            movement,
            StartOrEnd::Start,
            stationary_vector,
            stationary_cross as i64,
        );
        let on_stationary_end = other.collide_moving_vertex(
            self.end,
            movement,
            StartOrEnd::End,
            stationary_vector,
            stationary_cross as i64,
        );
        let first = earlier_collision(
            earlier_collision(
                earlier_collision(on_moving_start, on_moving_end),
                on_stationary_start,
            ),
            on_stationary_end,
        );
        match first {
            None => None,
            Some(first) => {
                let least = first.movement_multiplier;
                let moving_edge_collisions = EdgeCollisions::new(
                    &keep_not_later(on_moving_start, &least),
                    &keep_not_later(on_moving_end, &least),
                );
                let stationary_edge_collisions = EdgeCollisions::new(
                    &keep_not_later(on_stationary_start, &least),
                    &keep_not_later(on_stationary_end, &least),
                );
                let movement_multiplier = least.clamp_to_unit();
                proof {
                    assert(first.edge_vector@.within(2 * COORDINATE_LIMIT));
                }
                Some(
                    LeftSolidEdgeCollision {
                        moving_edge_collisions,
                        stationary_edge_collisions,
                        movement_multiplier,
                        edge_vector: first.edge_vector,
                    },
                )
            },
        }
    }
}

fn earlier_collision(first: Option<VertexCollision>, second: Option<VertexCollision>) -> (r: Option<
    VertexCollision,
>)
    requires
        first matches Some(c) ==> c.edge_vector@.within(2 * COORDINATE_LIMIT),
        second matches Some(c) ==> c.edge_vector@.within(2 * COORDINATE_LIMIT),
    ensures
        contact_of(r) == earlier(contact_of(first), contact_of(second)),
        r matches Some(c) ==> c.edge_vector@.within(2 * COORDINATE_LIMIT),
{
    match (first, second) {
        (None, _) => second,
        (Some(_), None) => first,
        (Some(a), Some(b)) => if b.movement_multiplier.is_less_than(&a.movement_multiplier) {
            second
        } else {
            first
        },
    }
}

fn keep_not_later(contact: Option<VertexCollision>, least: &Ratio) -> (r: Option<VertexCollision>)
    ensures
        contact_of(r) == not_later_than(contact_of(contact), least@),
{
    match contact {
        Some(c) => if c.movement_multiplier.is_greater_than(least) {
            None
        } else {
            contact
        },
        None => None,
    }
}

/// The movement up to a contact and the movement that is left at it make up
/// the attempted movement between them: the free part and the rest are one
/// whole.
pub proof fn lemma_parts_make_the_attempt(contact: SweptContact, attempt: Vec2)
    ensures
        contact.movement_to_collision(attempt).plus(contact.movement_following_collision(attempt))
            == attempt,
{
}

/// Neither part of a split movement is longer than the attempt, and each
/// coordinate of either lies between zero and that of the attempt.
pub proof fn lemma_parts_lie_within_the_attempt(contact: SweptContact, attempt: Vec2)
    requires
        contact.wf(),
    ensures
        contact.movement_to_collision(attempt).magnitude2() <= attempt.magnitude2(),
        contact.movement_following_collision(attempt).magnitude2() <= attempt.magnitude2(),
        attempt.x >= 0 ==> 0 <= contact.movement_to_collision(attempt).x <= attempt.x,
        attempt.x <= 0 ==> attempt.x <= contact.movement_to_collision(attempt).x <= 0,
        attempt.y >= 0 ==> 0 <= contact.movement_to_collision(attempt).y <= attempt.y,
        attempt.y <= 0 ==> attempt.y <= contact.movement_to_collision(attempt).y <= 0,
{
    let m = contact.movement_multiplier;
    lemma_split_component(attempt.x, m.num, m.den);
    lemma_split_component(attempt.y, m.num, m.den);
}

/// A slide runs along the edge that was hit: its dot product with the edge's
/// normal is less than the sum of the coordinates of the edge's vector, which
/// is what rounding to whole units can leave, and it is zero where the edge
/// runs along an axis. The slide is no longer than the attempt.
pub proof fn lemma_slide_is_along_the_edge(contact: SweptContact, attempt: Vec2)
    requires
        contact.wf(),
    ensures
        ({
            let slide = contact.slide(attempt);
            let edge = contact.edge_vector;
            &&& abs(slide.dot(edge.rot90())) <= abs(edge.x) + abs(edge.y)
            &&& (!edge.is_zero() ==> abs(slide.dot(edge.rot90())) < abs(edge.x) + abs(edge.y))
            &&& (edge.x == 0 || edge.y == 0 ==> slide.dot(edge.rot90()) == 0)
            &&& slide.magnitude2() <= attempt.magnitude2()
        }),
{
    let rest = contact.movement_following_collision(attempt);
    let slide = contact.slide(attempt);
    let edge = contact.edge_vector;
    lemma_projection_is_along(rest, edge);
    lemma_projection_shrinks(rest, edge);
    lemma_parts_lie_within_the_attempt(contact, attempt);
    if edge.x == 0 || edge.y == 0 {
        assert(slide.dot(edge.rot90()) == 0) by (nonlinear_arith)
            requires
                slide.dot(edge.rot90()) == slide.x * (-edge.y) + slide.y * edge.x,
                edge.x == 0 ==> slide.x == 0,
                edge.y == 0 ==> slide.y == 0,
                edge.x == 0 || edge.y == 0,
        ;
    }
}

/// The earlier of two arrivals is one of the two, and neither of them comes
/// before it.
pub proof fn lemma_earlier_is_least(first: Option<VertexContact>, second: Option<VertexContact>)
    ensures
        earlier(first, second) == first || earlier(first, second) == second,
        earlier(first, second).is_none() <==> first.is_none() && second.is_none(),
        earlier(first, second) matches Some(least) ==> {
            &&& (first matches Some(a) ==> !a.movement_multiplier.lt(least.movement_multiplier))
            &&& (second matches Some(b) ==> !b.movement_multiplier.lt(least.movement_multiplier))
        },
{
}

/// Where a vertex arrives on an edge it does arrive: the vertex, moved by
/// the multiplier's part of its movement, is the point at the parameter's
/// part of the edge. Both sides are given times the common denominator.
pub proof fn lemma_vertex_arrives_on_the_edge(
    edge_start: Vec2,
    edge_vector: Vec2,
    vertex: Vec2,
    movement: Vec2,
    role: StartOrEnd,
)
    ensures
        vertex_contact(edge_start, edge_vector, vertex, movement, role) matches Some(contact) ==> {
            let den = contact.movement_multiplier.den;
            let spent = contact.movement_multiplier.num;
            let along = contact.edge_parameter.num;
            &&& contact.edge_parameter.den == den
            &&& den == -movement.cross(edge_vector)
            &&& den * vertex.x + spent * movement.x == den * edge_start.x + along * edge_vector.x
            &&& den * vertex.y + spent * movement.y == den * edge_start.y + along * edge_vector.y
        },
{
    let w = vertex.minus(edge_start);
    let to_start = edge_start.minus(vertex);
    let den = -movement.cross(edge_vector);
    let spent = -to_start.cross(edge_vector);
    let along = -to_start.cross(movement);
    assert(spent == w.x * edge_vector.y - w.y * edge_vector.x) by (nonlinear_arith)
        requires
            spent == -(to_start.x * edge_vector.y - to_start.y * edge_vector.x),
            to_start.x == -w.x,
            to_start.y == -w.y,
    ;
    assert(along == w.x * movement.y - w.y * movement.x) by (nonlinear_arith)
        requires
            along == -(to_start.x * movement.y - to_start.y * movement.x),
            to_start.x == -w.x,
            to_start.y == -w.y,
    ;
    // the triple product identity of plane vectors
    assert(den * w.x + spent * movement.x == along * edge_vector.x) by (nonlinear_arith)
        requires
            den == -(movement.x * edge_vector.y - movement.y * edge_vector.x),
            spent == w.x * edge_vector.y - w.y * edge_vector.x,
            along == w.x * movement.y - w.y * movement.x,
    ;
    assert(den * w.y + spent * movement.y == along * edge_vector.y) by (nonlinear_arith)
        requires
            den == -(movement.x * edge_vector.y - movement.y * edge_vector.x),
            spent == w.x * edge_vector.y - w.y * edge_vector.x,
            along == w.x * movement.y - w.y * movement.x,
    ;
    assert(den * w.x == den * vertex.x - den * edge_start.x) by (nonlinear_arith)
        requires
            w.x == vertex.x - edge_start.x,
    ;
    assert(den * w.y == den * vertex.y - den * edge_start.y) by (nonlinear_arith)
        requires
            w.y == vertex.y - edge_start.y,
    ;
}

/// There is no contact where an edge has no length, where nothing moves,
/// where the movement runs along the stationary edge or away from its open
/// side, or where the moving edge does not face the way it moves.
pub proof fn lemma_degenerate_sweeps_do_not_collide(
    moving: LeftSolidEdge,
    stationary: LeftSolidEdge,
    movement: Vec2,
)
    ensures
        moving.spec_vector().is_zero() ==> swept_contact(moving, stationary, movement).is_none(),
        stationary.spec_vector().is_zero() ==> swept_contact(moving, stationary, movement).is_none(),
        movement.is_zero() ==> swept_contact(moving, stationary, movement).is_none(),
        movement.cross(stationary.spec_vector()) >= 0 ==> swept_contact(
            moving,
            stationary,
            movement,
        ).is_none(),
        movement.cross(moving.spec_vector()) <= 0 ==> swept_contact(
            moving,
            stationary,
            movement,
        ).is_none(),
{
    let m = moving.spec_vector();
    let s = stationary.spec_vector();
    let reverse = movement.negated();
    assert(reverse.cross(m) == -movement.cross(m)) by (nonlinear_arith)
        requires
            reverse.x == -movement.x,
            reverse.y == -movement.y,
            reverse.cross(m) == reverse.x * m.y - reverse.y * m.x,
            movement.cross(m) == movement.x * m.y - movement.y * m.x,
    ;
    if m.is_zero() {
        assert(movement.cross(m) == 0) by (nonlinear_arith)
            requires
                m.x == 0,
                m.y == 0,
                movement.cross(m) == movement.x * m.y - movement.y * m.x,
        ;
    }
    if s.is_zero() {
        assert(movement.cross(s) == 0) by (nonlinear_arith)
            requires
                s.x == 0,
                s.y == 0,
                movement.cross(s) == movement.x * s.y - movement.y * s.x,
        ;
    }
    if movement.is_zero() {
        assert(movement.cross(s) == 0) by (nonlinear_arith)
            requires
                movement.x == 0,
                movement.y == 0,
                movement.cross(s) == movement.x * s.y - movement.y * s.x,
        ;
    }
}

} // verus!
