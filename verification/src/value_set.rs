use linked_hash_set::LinkedHashSet;
use vstd::prelude::*;

verus! {

#[verifier::external_type_specification]
#[verifier::external_body]
#[verifier::reject_recursive_types(T)]
#[verifier::reject_recursive_types(S)]
pub struct ExLinkedHashSet<T, S>(LinkedHashSet<T, S>);

/// The elements a `LinkedHashSet<u32>` holds, in insertion order.
pub uninterp spec fn lhset_elems(s: &LinkedHashSet<u32>) -> Seq<u32>;

/// Relies on `LinkedHashSet::new`: creates an empty set.
#[verifier::external_body]
pub(crate) fn lhset_new() -> (r: LinkedHashSet<u32>)
    ensures
        lhset_elems(&r) == Seq::<u32>::empty(),
{
    LinkedHashSet::new()
}

/// Relies on `LinkedHashSet::insert`: appends an absent value at the back of
/// the ordering, moves a present one to the back, and returns whether the
/// value was absent.
#[verifier::external_body]
pub(crate) fn lhset_insert(s: &mut LinkedHashSet<u32>, v: u32) -> (r: bool)
    ensures
        r == !lhset_elems(old(s)).contains(v),
        !lhset_elems(old(s)).contains(v) ==> lhset_elems(final(s)) == lhset_elems(old(s)).push(v),
        lhset_elems(old(s)).contains(v) ==> lhset_elems(final(s)) == lhset_elems(old(s)).remove(
            lhset_elems(old(s)).index_of(v),
        ).push(v),
{
    s.insert(v)
}

/// Relies on `LinkedHashSet::into_iter`: moves each value out of the set in
/// insertion order.
#[verifier::external_body]
pub(crate) fn lhset_into_vec(s: LinkedHashSet<u32>) -> (r: Vec<u32>)
    ensures
        r@ == lhset_elems(&s),
{
    s.into_iter().collect()
}

} // verus!
