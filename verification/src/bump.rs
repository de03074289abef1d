//! Stepping over a low corner.
//!
//! Where a corner of something solid arrives on a flagged edge of a moving
//! shape only just past the edge's end, the shape is nudged along that edge
//! so that it clears the corner.

use vstd::prelude::*;
use best::BestMultiSet;
use crate::arith::{div_away_from_zero, divide_away_from_zero, lemma_product_bound};
use crate::closest::{items_of_set, tied};
use crate::collide::{contacts, flags, Collision, EdgeContact, SHAPE_LIMIT};
use crate::left_solid_edge::StartOrEnd;
use crate::ratio::Fraction;
use crate::vector::{abs, Vec2, Vector2};

verus! {

/// The longest nudge: two pixels.
pub const BUMP_DISTANCE: i64 = 2000;

/// A nudge along an edge.
#[derive(Clone, Copy, Debug)]
pub struct Bump {
    distance2: i64,
    direction: Vector2,
    displacement: Vector2,
}

/// The model of a [`Bump`].
pub struct Nudge {
    /// The squared length of the displacement.
    pub distance2: int,
    /// The vector of the edge along which the shape is nudged, pointing the
    /// way of the nudge.
    pub direction: Vec2,
    pub displacement: Vec2,
}

impl View for Bump {
    type V = Nudge;

    closed spec fn view(&self) -> Nudge {
        Nudge {
            distance2: self.distance2 as int,
            direction: self.direction@,
            displacement: self.displacement@,
        }
    }
}

impl Nudge {
    /// The nudge is no longer than [`BUMP_DISTANCE`], and its squared length
    /// is what it says.
    pub open spec fn wf(self) -> bool {
        &&& self.distance2 == self.displacement.magnitude2()
        &&& self.distance2 <= BUMP_DISTANCE * BUMP_DISTANCE
        &&& self.displacement.within(BUMP_DISTANCE as int)
    }
}

impl Bump {
    #[verifier::type_invariant]
    spec fn well_formed(self) -> bool {
        self@.wf()
    }

    /// The displacement that clears the corner.
    pub fn vector(&self) -> (v: Vector2)
        ensures
            v@ == self@.displacement,
            self@.wf(),
    {
        proof {
            use_type_invariant(self);
        }
        self.displacement
    }

    /// The squared length of the displacement.
    pub fn distance2(&self) -> (d: i64)
        ensures
            d == self@.distance2,
            self@.wf(),
    {
        proof {
            use_type_invariant(self);
        }
        self.distance2
    }
}

/// The nudge by the part `fraction` of `direction`, rounded away from zero so
/// that the corner is cleared, if the fraction is not negative and the nudge
/// is no longer than [`BUMP_DISTANCE`].
pub open spec fn nudge_along(direction: Vec2, fraction: Fraction) -> Option<Nudge> {
    let displacement = direction.scaled_away_from_zero(fraction.num, fraction.den);
    if fraction.num >= 0 && displacement.magnitude2() <= BUMP_DISTANCE * BUMP_DISTANCE {
        Some(Nudge { distance2: displacement.magnitude2(), direction, displacement })
    } else {
        None
    }
}

/// The nudge toward the start of the moving edge, if the edge steps over
/// corners at its start and the start of the other edge arrived nearest to
/// it.
pub open spec fn nudge_at_start(contact: EdgeContact) -> Option<Nudge> {
    match contact.contact.moving_edge.min_position() {
        Some(position) => if contact.moving_edge.flags & flags::BUMP_START != 0
            && position.which_part_of_other_edge == StartOrEnd::Start {
            nudge_along(contact.moving_edge.vector, position.how_far_along_this_edge)
        } else {
            None
        },
        None => None,
    }
}

/// The nudge toward the end of the moving edge, if the edge steps over
/// corners at its end and the end of the other edge arrived nearest to it.
pub open spec fn nudge_at_end(contact: EdgeContact) -> Option<Nudge> {
    match contact.contact.moving_edge.max_position() {
        Some(position) => if contact.moving_edge.flags & flags::BUMP_END != 0
            && position.which_part_of_other_edge == StartOrEnd::End {
            nudge_along(
                contact.moving_edge.vector.negated(),
                position.how_far_along_this_edge.complement(),
            )
        } else {
            None
        },
        None => None,
    }
}

/// The nudge that a contact calls for, if any: at the start of the moving
/// edge if there is one, else at its end.
pub open spec fn nudge_of(contact: EdgeContact) -> Option<Nudge> {
    match nudge_at_start(contact) {
        Some(nudge) => Some(nudge),
        None => nudge_at_end(contact),
    }
}

/// The longest nudge that any of the contacts calls for; the last of them
/// where several are equally long.
pub open spec fn longest_nudge(contacts: Seq<EdgeContact>) -> Option<Nudge>
    decreases contacts.len(),
{
    if contacts.len() == 0 {
        None
    } else {
        let before = longest_nudge(contacts.drop_last());
        match (before, nudge_of(contacts.last())) {
            (_, None) => before,
            (None, Some(nudge)) => Some(nudge),
            (Some(longest), Some(nudge)) => if nudge.distance2 >= longest.distance2 {
                Some(nudge)
            } else {
                before
            },
        }
    }
}

/// The model of a bump that may be absent.
pub open spec fn nudge_model(bump: Option<Bump>) -> Option<Nudge> {
    match bump {
        Some(b) => Some(b@),
        None => None,
    }
}

/// One coordinate of a nudge: `c * num / den` rounded away from zero, if it
/// is within [`BUMP_DISTANCE`].
fn nudge_coordinate(c: i64, num: i128, den: i64) -> (r: Option<i64>)
    requires
        -2 * SHAPE_LIMIT <= c <= 2 * SHAPE_LIMIT,
        den > 0,
        -0x1_0000_0000_0000_0000 <= num <= 0x1_0000_0000_0000_0000,
    ensures
        match r {
            Some(q) => q == div_away_from_zero(c * num, den as int) && -BUMP_DISTANCE <= q
                <= BUMP_DISTANCE,
            None => abs(div_away_from_zero(c * num, den as int)) > BUMP_DISTANCE,
        },
{
    proof {
        lemma_product_bound(c as int, num as int, 2 * SHAPE_LIMIT, 0x1_0000_0000_0000_0000);
        assert(2 * SHAPE_LIMIT * 0x1_0000_0000_0000_0000 < 0x4000_0000_0000_0000_0000_0000_0000_0000);
    }
    let q: i128 = divide_away_from_zero((c as i128) * num, den as i128);
    if q < -(BUMP_DISTANCE as i128) || q > BUMP_DISTANCE as i128 {
        None
    } else {
        Some(q as i64)
    }
}

/// The nudge by the part `num / den` of `direction`.
fn nudge(direction: Vector2, num: i128, den: i64) -> (r: Option<Bump>)
    requires
        direction@.within(2 * SHAPE_LIMIT),
        den > 0,
        -0x1_0000_0000_0000_0000 <= num <= 0x1_0000_0000_0000_0000,
    ensures
        nudge_model(r) == nudge_along(direction@, Fraction { num: num as int, den: den as int }),
        r matches Some(b) ==> b@.wf(),
{
    if num < 0 {
        return None;
    }
    let x = nudge_coordinate(direction.x, num, den);
    let y = nudge_coordinate(direction.y, num, den);
    match (x, y) {
        (Some(x), Some(y)) => {
            proof {
                lemma_product_bound(x as int, x as int, BUMP_DISTANCE as int, BUMP_DISTANCE as int);
                lemma_product_bound(y as int, y as int, BUMP_DISTANCE as int, BUMP_DISTANCE as int);
            }
            let distance2: i64 = x * x + y * y;
            if distance2 <= BUMP_DISTANCE * BUMP_DISTANCE {
                Some(Bump { distance2, direction, displacement: Vector2::new(x, y) })
            } else {
                None
            }
        },
        _ => {
            proof {
                let d = direction@.scaled_away_from_zero(num as int, den as int);
                assert(d.x * d.x + d.y * d.y > BUMP_DISTANCE * BUMP_DISTANCE) by (nonlinear_arith)
                    requires
                        abs(d.x) > BUMP_DISTANCE || abs(d.y) > BUMP_DISTANCE,
                ;
            }
            None
        },
    }
}

/// The nudge that a collision calls for, if any.
pub fn bump(collision_info: &Collision) -> (r: Option<Bump>)
    ensures
        nudge_model(r) == nudge_of(collision_info@),
        r matches Some(b) ==> b@.wf(),
{
    let moving = collision_info.moving_edge_vector();
    let contact = collision_info.left_solid_edge_collision();
    if moving.flags & flags::BUMP_START != 0 {
        if let Some(edge_collision_position) = contact.moving_edge_min_collision_position() {
            if edge_collision_position.which_part_of_other_edge == StartOrEnd::Start {
                let multiplier = edge_collision_position.how_far_along_this_edge;
                let at_start = nudge(
                    moving.vector,
                    multiplier.numerator() as i128,
                    multiplier.denominator(),
                );
                if at_start.is_some() {
                    return at_start;
                }
            }
        }
    }
    if moving.flags & flags::BUMP_END != 0 {
        if let Some(edge_collision_position) = contact.moving_edge_max_collision_position() {
            if edge_collision_position.which_part_of_other_edge == StartOrEnd::End {
                let multiplier = edge_collision_position.how_far_along_this_edge;
                return nudge(
                    moving.vector.negated(),
                    (multiplier.denominator() as i128) - (multiplier.numerator() as i128),
                    multiplier.denominator(),
                );
            }
        }
    }
    None
}

/// The longest nudge that any of `collisions` calls for.
pub fn max_bump_of(collisions: &Vec<Collision>) -> (r: Option<Bump>)
    ensures
        nudge_model(r) == longest_nudge(contacts(collisions@)),
        r matches Some(b) ==> b@.wf(),
{
    let mut longest: Option<Bump> = None;
    let mut i: usize = 0;
    assert(contacts(collisions@.take(0)) =~= Seq::<EdgeContact>::empty());
    while i < collisions.len()
        invariant
            i <= collisions.len(),
            nudge_model(longest) == longest_nudge(contacts(collisions@.take(i as int))),
            longest matches Some(b) ==> b@.wf(),
        decreases collisions.len() - i,
    {
        proof {
            assert(contacts(collisions@.take(i + 1)).drop_last() =~= contacts(
                collisions@.take(i as int),
            ));
            assert(contacts(collisions@.take(i + 1)).last() == collisions[i as int]@);
        }
        match bump(&collisions[i]) {
            None => {},
            Some(found) => {
                longest = match longest {
                    None => Some(found),
                    Some(so_far) => if found.distance2() >= so_far.distance2() {
                        Some(found)
                    } else {
                        Some(so_far)
                    },
                };
            },
        }
        i += 1;
    }
    proof {
        assert(collisions@.take(collisions.len() as int) =~= collisions@);
    }
    longest
}

/// The longest nudge that any of the tied collisions calls for.
pub fn max_bump(closest_collisions: &BestMultiSet<Collision>) -> (r: Option<Bump>)
    ensures
        nudge_model(r) == longest_nudge(contacts(tied(*closest_collisions))),
        r matches Some(b) ==> b@.wf(),
{
    let collisions = items_of_set(closest_collisions);
    max_bump_of(&collisions)
}

/// A nudge is never longer than [`BUMP_DISTANCE`] and points along the edge
/// that called for it: each of its coordinates has the sign of the edge
/// vector's, or is zero where that one is, so along a side of a rectangle
/// the nudge is exactly parallel to the side.
pub proof fn lemma_nudge_is_short_and_along_the_edge(contact: EdgeContact)
    requires
        contact.contact.moving_edge.min_position() matches Some(p)
            ==> p.how_far_along_this_edge.den > 0,
        contact.contact.moving_edge.max_position() matches Some(p)
            ==> p.how_far_along_this_edge.den > 0,
    ensures
        nudge_of(contact) matches Some(nudge) ==> {
            &&& nudge.displacement.magnitude2() <= BUMP_DISTANCE * BUMP_DISTANCE
            &&& (nudge.direction == contact.moving_edge.vector || nudge.direction
                == contact.moving_edge.vector.negated())
            &&& (nudge.direction.x == 0 ==> nudge.displacement.x == 0)
            &&& (nudge.direction.y == 0 ==> nudge.displacement.y == 0)
            &&& (nudge.direction.x > 0 ==> nudge.displacement.x >= 0)
            &&& (nudge.direction.x < 0 ==> nudge.displacement.x <= 0)
            &&& (nudge.direction.y > 0 ==> nudge.displacement.y >= 0)
            &&& (nudge.direction.y < 0 ==> nudge.displacement.y <= 0)
        },
{
    match nudge_of(contact) {
        Some(nudge) => {
            let fraction = if nudge_at_start(contact).is_some() {
                contact.contact.moving_edge.min_position().unwrap().how_far_along_this_edge
            } else {
                contact.contact.moving_edge.max_position().unwrap().how_far_along_this_edge.complement()
            };
            assert(nudge_along(nudge.direction, fraction) == Some(nudge));
            lemma_rounded_quotient_sign(nudge.direction.x, fraction.num, fraction.den);
            lemma_rounded_quotient_sign(nudge.direction.y, fraction.num, fraction.den);
        },
        None => {},
    }
}

/// A coordinate times a fraction that is not negative, rounded away from
/// zero, keeps the side of zero that the coordinate is on.
pub proof fn lemma_rounded_quotient_sign(c: int, num: int, den: int)
    requires
        num >= 0,
        den > 0,
    ensures
        c == 0 ==> div_away_from_zero(c * num, den) == 0,
        c > 0 ==> div_away_from_zero(c * num, den) >= 0,
        c < 0 ==> div_away_from_zero(c * num, den) <= 0,
{
    let p = c * num;
    assert((c == 0 ==> p == 0) && (c > 0 ==> p >= 0) && (c < 0 ==> p <= 0)) by (nonlinear_arith)
        requires
            p == c * num,
            num >= 0,
    ;
    if p >= 0 {
        assert((p + den - 1) / den >= 0 && (p == 0 ==> (p + den - 1) / den == 0)) by (nonlinear_arith)
            requires
                p >= 0,
                den > 0,
        ;
    } else {
        let n = -p;
        assert((n + den - 1) / den >= 0) by (nonlinear_arith)
            requires
                n >= 0,
                den > 0,
        ;
    }
}

} // verus!
