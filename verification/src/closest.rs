//! The collisions that tie for the earliest, kept in the order in which they
//! were found.

use vstd::prelude::*;
use best::BestMultiSet;
use std::cmp::Ordering;
use crate::collide::{contacts, Collision, EdgeContact};

verus! {

/// Two multipliers closer than one part in this many are taken as tied.
pub const TIE_PARTS: i64 = 1000;

/// `best::BestMultiSet`, a set of the items that tie for the best. Nothing is
/// known of a value of it but what [`tied`] names.
#[verifier::external_type_specification]
#[verifier::external_body]
#[verifier::reject_recursive_types(T)]
pub struct ExBestMultiSet<T>(BestMultiSet<T>);

/// The collisions that a set holds, in the order in which they went in.
pub uninterp spec fn tied(set: BestMultiSet<Collision>) -> Seq<Collision>;

/// The multipliers of the two are closer than the tie window.
pub open spec fn are_tied(a: EdgeContact, b: EdgeContact) -> bool {
    a.contact.movement_multiplier.closer_than(b.contact.movement_multiplier, tie_parts())
}

/// How the multiplier of `a` stands to that of `b`: equal where they are
/// tied, else less or greater.
pub open spec fn multiplier_order(a: EdgeContact, b: EdgeContact) -> Ordering {
    if are_tied(a, b) {
        Ordering::Equal
    } else if a.contact.movement_multiplier.gt(b.contact.movement_multiplier) {
        Ordering::Greater
    } else {
        Ordering::Less
    }
}

/// What a set of tied collisions holds once `value` has been offered to it:
/// `value` alone where it comes earlier than the first that the set held or
/// the set was empty, `value` after the others where it ties with the first,
/// and what the set held where it comes later.
pub open spec fn offered(held: Seq<Collision>, value: Collision) -> Seq<Collision> {
    if held.len() == 0 {
        seq![value]
    } else {
        match multiplier_order(value@, held.first()@) {
            Ordering::Equal => held.push(value),
            Ordering::Less => seq![value],
            Ordering::Greater => held,
        }
    }
}

/// [`offered`], on the models.
pub open spec fn offered_contact(held: Seq<EdgeContact>, value: EdgeContact) -> Seq<EdgeContact> {
    if held.len() == 0 {
        seq![value]
    } else {
        match multiplier_order(value, held.first()) {
            Ordering::Equal => held.push(value),
            Ordering::Less => seq![value],
            Ordering::Greater => held,
        }
    }
}

/// The contacts that tie for the earliest among `held` and `values`, where
/// `held` are tied already: each value in turn is weighed against the first
/// of the tied.
pub open spec fn offered_contacts(held: Seq<EdgeContact>, values: Seq<EdgeContact>) -> Seq<
    EdgeContact,
>
    decreases values.len(),
{
    if values.len() == 0 {
        held
    } else {
        offered_contact(offered_contacts(held, values.drop_last()), values.last())
    }
}

/// Offering collisions to a set does to their models what
/// [`offered_contacts`] says.
pub proof fn lemma_offered_models(held: Seq<Collision>, values: Seq<Collision>)
    ensures
        contacts(offered_all(held, values)) == offered_contacts(contacts(held), contacts(values)),
    decreases values.len(),
{
    if values.len() == 0 {
    } else {
        lemma_offered_models(held, values.drop_last());
        let before = offered_all(held, values.drop_last());
        let value = values.last();
        assert(contacts(values).drop_last() =~= contacts(values.drop_last()));
        assert(contacts(values).last() == value@);
        assert(contacts(offered(before, value)) =~= offered_contact(contacts(before), value@));
    }
}

/// What a set holds once each of `values` has been offered to it in turn.
pub open spec fn offered_all(held: Seq<Collision>, values: Seq<Collision>) -> Seq<Collision>
    decreases values.len(),
{
    if values.len() == 0 {
        held
    } else {
        offered(offered_all(held, values.drop_last()), values.last())
    }
}

/// Compares two collisions by their movement multipliers, with the tie
/// window.
pub fn compare_multipliers(a: &Collision, b: &Collision) -> (order: Ordering)
    ensures
        order == multiplier_order(a@, b@),
{
    let first = a.left_solid_edge_collision().movement_multiplier();
    let second = b.left_solid_edge_collision().movement_multiplier();
    if first.is_closer_than(&second, TIE_PARTS) {
        Ordering::Equal
    } else if first.is_greater_than(&second) {
        Ordering::Greater
    } else {
        Ordering::Less
    }
}

/// `BestMultiSet::new`: a set that holds nothing.
#[verifier::external_body]
pub(crate) fn new_set() -> (set: BestMultiSet<Collision>)
    ensures
        tied(set) == Seq::<Collision>::empty(),
{
    BestMultiSet::new()
}

/// `BestMultiSet::clear`: the set holds nothing afterwards.
#[verifier::external_body]
pub(crate) fn clear_set(set: &mut BestMultiSet<Collision>)
    ensures
        tied(*final(set)) == Seq::<Collision>::empty(),
{
    set.clear()
}

/// `BestMultiSet::is_empty`: whether the set holds nothing.
#[verifier::external_body]
pub(crate) fn set_is_empty(set: &BestMultiSet<Collision>) -> (empty: bool)
    ensures
        empty == (tied(*set).len() == 0),
{
    set.is_empty()
}

/// `BestMultiSet::iter`: the collisions in the order in which they went in.
#[verifier::external_body]
pub(crate) fn items_of_set(set: &BestMultiSet<Collision>) -> (items: Vec<Collision>)
    ensures
        items@ == tied(*set),
{
    set.iter().copied().collect()
}

/// `BestMultiSet::drain`: the collisions in the order in which they went in,
/// and the set holds nothing afterwards.
#[verifier::external_body]
pub(crate) fn drain_set(set: &mut BestMultiSet<Collision>) -> (items: Vec<Collision>)
    ensures
        items@ == tied(*old(set)),
        tied(*final(set)) == Seq::<Collision>::empty(),
{
    set.drain().collect()
}

/// `BestMultiSet::insert_lt_by` with [`compare_multipliers`]: the set
/// compares `value` with the collision that went in first. It keeps `value`
/// alone where that is less or the set is empty, appends it where the two
/// are equal, and stays as it is where `value` is greater.
#[verifier::external_body]
pub(crate) fn offer_to_set(set: &mut BestMultiSet<Collision>, value: Collision)
    ensures
        tied(*final(set)) == offered(tied(*old(set)), value),
{
    set.insert_lt_by(value, |a, b| compare_multipliers(a, b))
}

/// Offers each of `collisions` to the set, in order.
pub fn offer_all_to_set(set: &mut BestMultiSet<Collision>, collisions: &Vec<Collision>)
    ensures
        tied(*final(set)) == offered_all(tied(*old(set)), collisions@),
        contacts(tied(*final(set))) == offered_contacts(
            contacts(tied(*old(set))),
            contacts(collisions@),
        ),
{
    let mut i: usize = 0;
    assert(collisions@.take(0) =~= Seq::<Collision>::empty());
    while i < collisions.len()
        invariant
            i <= collisions.len(),
            tied(*set) == offered_all(tied(*old(set)), collisions@.take(i as int)),
        decreases collisions.len() - i,
    {
        proof {
            assert(collisions@.take(i + 1).drop_last() =~= collisions@.take(i as int));
            assert(collisions@.take(i + 1).last() == collisions[i as int]);
        }
        offer_to_set(set, collisions[i]);
        i += 1;
    }
    proof {
        assert(collisions@.take(collisions.len() as int) =~= collisions@);
        lemma_offered_models(tied(*old(set)), collisions@);
    }
}

/// The multiplier of `a` is less than that of `b` by the tie window or more.
pub open spec fn comes_before(a: EdgeContact, b: EdgeContact) -> bool {
    !are_tied(a, b) && !a.contact.movement_multiplier.gt(b.contact.movement_multiplier)
}

/// Every multiplier has a positive denominator.
pub open spec fn all_well_formed(values: Seq<EdgeContact>) -> bool {
    forall|i: int| 0 <= i < values.len() ==> (#[trigger] values[i]).contact.movement_multiplier.den > 0
}

/// The contacts that tie for the earliest are contacts that were offered;
/// there is one unless none was offered; each of them ties with the first;
/// and no contact that was offered comes before the first by the tie window
/// or more.
pub proof fn lemma_tied_are_the_earliest(values: Seq<EdgeContact>)
    requires
        all_well_formed(values),
    ensures
        ({
            let tied = offered_contacts(Seq::empty(), values);
            &&& (tied.len() == 0 <==> values.len() == 0)
            &&& forall|i: int| 0 <= i < tied.len() ==> values.contains(#[trigger] tied[i])
            &&& forall|i: int| 0 <= i < tied.len() ==> are_tied(#[trigger] tied[i], tied.first())
            &&& forall|j: int|
                0 <= j < values.len() ==> !comes_before(#[trigger] values[j], tied.first())
        }),
    decreases values.len(),
{
    if values.len() > 0 {
        let earlier = values.drop_last();
        let value = values.last();
        let before = offered_contacts(Seq::empty(), earlier);
        let tied = offered_contacts(Seq::empty(), values);
        assert(all_well_formed(earlier)) by {
            assert forall|i: int| 0 <= i < earlier.len() implies (
            #[trigger] earlier[i]).contact.movement_multiplier.den > 0 by {
                assert(earlier[i] == values[i]);
            }
        }
        lemma_tied_are_the_earliest(earlier);
        assert(tied == offered_contact(before, value));
        assert(values[values.len() - 1] == value);
        lemma_ties_with_itself(value);
        assert forall|i: int| 0 <= i < before.len() implies values.contains(
            #[trigger] before[i],
        ) by {
            let k = choose|k: int| 0 <= k < earlier.len() && earlier[k] == before[i];
            assert(values[k] == before[i]);
        }
        if before.len() > 0 {
            let first = before.first();
            assert(values.contains(first));
            if comes_before(value, first) {
                assert(tied =~= seq![value]);
                assert forall|j: int| 0 <= j < values.len() implies !comes_before(
                    #[trigger] values[j],
                    value,
                ) by {
                    if j < earlier.len() {
                        assert(values[j] == earlier[j]);
                        lemma_not_before_a_later_one(values[j], first, value);
                    }
                }
            } else {
                assert forall|j: int| 0 <= j < values.len() implies !comes_before(
                    #[trigger] values[j],
                    first,
                ) by {
                    if j < earlier.len() {
                        assert(values[j] == earlier[j]);
                    }
                }
                if are_tied(value, first) {
                    assert(tied =~= before.push(value));
                } else {
                    assert(tied =~= before);
                }
            }
        } else {
            assert(tied =~= seq![value]);
            assert(earlier.len() == 0);
        }
    }
}

/// A contact ties with itself.
pub proof fn lemma_ties_with_itself(a: EdgeContact)
    requires
        a.contact.movement_multiplier.den > 0,
    ensures
        are_tied(a, a),
        !comes_before(a, a),
{
    let d = a.contact.movement_multiplier.den;
    assert(d * d > 0) by (nonlinear_arith)
        requires
            d > 0,
    ;
}

/// A contact that does not come before `first` does not come before a
/// contact that comes before `first` either.
pub proof fn lemma_not_before_a_later_one(v: EdgeContact, first: EdgeContact, x: EdgeContact)
    requires
        v.contact.movement_multiplier.den > 0,
        first.contact.movement_multiplier.den > 0,
        x.contact.movement_multiplier.den > 0,
        !comes_before(v, first),
        comes_before(x, first),
    ensures
        !comes_before(v, x),
{
    let vn = v.contact.movement_multiplier.num;
    let vd = v.contact.movement_multiplier.den;
    let fn_ = first.contact.movement_multiplier.num;
    let fd = first.contact.movement_multiplier.den;
    let xn = x.contact.movement_multiplier.num;
    let xd = x.contact.movement_multiplier.den;
    let w = tie_parts();
    // v > first - 1/w and first >= x + 1/w, so v > x
    let a = vn * fd - fn_ * vd;
    let b = fn_ * xd - xn * fd;
    let behind = xn * fd - fn_ * xd;
    assert(vd * fd > 0 && xd * fd > 0) by (nonlinear_arith)
        requires
            vd > 0,
            fd > 0,
            xd > 0,
    ;
    assert(a > 0 ==> a * w > 0) by (nonlinear_arith)
        requires
            w > 0,
    ;
    assert(behind <= 0 ==> behind * w <= 0) by (nonlinear_arith)
        requires
            w > 0,
    ;
    assert(a * w > -(vd * fd));
    assert(behind * w <= -(xd * fd));
    assert(a * w * xd > -(vd * fd) * xd) by (nonlinear_arith)
        requires
            a * w > -(vd * fd),
            xd > 0,
    ;
    assert(b * w * vd >= xd * fd * vd) by (nonlinear_arith)
        requires
            b * w >= xd * fd,
            vd > 0,
    ;
    assert((xn * fd - fn_ * xd) * w == -(b * w)) by (nonlinear_arith)
        requires
            b == fn_ * xd - xn * fd,
    ;
    let c = vn * xd - xn * vd;
    assert(a * xd + b * vd == fd * c) by (nonlinear_arith)
        requires
            a == vn * fd - fn_ * vd,
            b == fn_ * xd - xn * fd,
            c == vn * xd - xn * vd,
    ;
    assert(a * w * xd + b * w * vd == fd * c * w) by (nonlinear_arith)
        requires
            a * xd + b * vd == fd * c,
    ;
    assert(-(vd * fd) * xd + xd * fd * vd == 0) by (nonlinear_arith);
    assert(fd * c * w > 0);
    assert(c > 0) by (nonlinear_arith)
        requires
            fd * c * w > 0,
            fd > 0,
            w > 0,
    ;
    assert(vn * xd > xn * vd);
}

/// The tie window, in parts.
pub open spec fn tie_parts() -> int {
    TIE_PARTS as int
}

} // verus!
