//! Ordering rules: the relations by which a heap ranks its elements.
//!
//! A rule is a binary relation `rel`, read "`rel(a, b)`: `a` ranks strictly
//! above `b`". The guarantees of a heap are stated for rules that are strict
//! weak orders, which is what a comparison such as `a < b` on a totally
//! ordered type computes.

use vstd::laws_cmp::{
    obeys_cmp, obeys_cmp_ord, obeys_cmp_partial_ord, obeys_partial_cmp_spec_properties,
};
use vstd::laws_eq::obeys_eq_spec_properties;
use vstd::prelude::*;
use vstd::std_specs::cmp::{PartialEqSpec, PartialOrdIs, PartialOrdSpec};

verus! {

/// `rel` is a strict weak order: no two elements rank above each other, and
/// "does not rank above" is transitive. Every strict total order is one.
pub open spec fn strict_weak_order<T>(rel: spec_fn(T, T) -> bool) -> bool {
    &&& forall|a: T, b: T| #[trigger] rel(a, b) ==> !rel(b, a)
    &&& forall|a: T, b: T, c: T|
        #![trigger rel(a, b), rel(b, c)]
        !rel(a, b) && !rel(b, c) ==> !rel(a, c)
}

/// `rel` is a strict total order: irreflexive, transitive, and any two
/// different elements are ranked one way or the other.
pub open spec fn strict_total_order<T>(rel: spec_fn(T, T) -> bool) -> bool {
    &&& forall|a: T| !#[trigger] rel(a, a)
    &&& forall|a: T, b: T, c: T|
        #![trigger rel(a, b), rel(b, c)]
        rel(a, b) && rel(b, c) ==> rel(a, c)
    &&& forall|a: T, b: T| a != b ==> #[trigger] rel(a, b) || rel(b, a)
}

/// A strict total order is a strict weak order.
pub proof fn lemma_total_order_is_weak<T>(rel: spec_fn(T, T) -> bool)
    requires
        strict_total_order(rel),
    ensures
        strict_weak_order(rel),
{
    assert forall|a: T, b: T| #[trigger] rel(a, b) implies !rel(b, a) by {
        if rel(b, a) {
            assert(rel(a, a));
        }
    }
    assert forall|a: T, b: T, c: T|
        #![trigger rel(a, b), rel(b, c)]
        !rel(a, b) && !rel(b, c) implies !rel(a, c) by {
        // were a above c, b could not be a, so it would rank above a and,
        // through a, above c
        if rel(a, c) && a != b {
            assert(rel(b, a));
        }
    }
}

/// The type's own comparison obeys the laws of a total order.
pub open spec fn total_order<T: Ord>() -> bool {
    obeys_cmp::<T>()
}

/// On a totally ordered type the comparison operators return what the type's
/// order says.
pub proof fn lemma_total_order_compares<T: Ord>()
    ensures
        total_order::<T>() ==> T::obeys_partial_cmp_spec(),
{
    reveal(obeys_cmp_partial_ord);
}

/// The rule of a min-heap: the smaller of two elements ranks above.
pub open spec fn ascending<T: PartialOrd>() -> spec_fn(T, T) -> bool {
    |a: T, b: T| a.is_lt(&b)
}

/// The rule of a max-heap: the greater of two elements ranks above.
pub open spec fn descending<T: PartialOrd>() -> spec_fn(T, T) -> bool {
    |a: T, b: T| a.is_gt(&b)
}

/// On a totally ordered type, "smaller than" and "greater than" are strict
/// weak orders.
pub proof fn lemma_natural_rules_are_weak_orders<T: Ord>()
    requires
        total_order::<T>(),
    ensures
        strict_weak_order(ascending::<T>()),
        strict_weak_order(descending::<T>()),
{
    reveal(obeys_eq_spec_properties);
    reveal(obeys_partial_cmp_spec_properties);
    let up = ascending::<T>();
    let down = descending::<T>();
    assert forall|a: T, b: T| #[trigger] up(a, b) implies !up(b, a) by {}
    assert forall|a: T, b: T| #[trigger] down(a, b) implies !down(b, a) by {}
    assert forall|a: T, b: T, c: T|
        #![trigger up(a, b), up(b, c)]
        !up(a, b) && !up(b, c) implies !up(a, c) by {
        lemma_compared::<T>(a, b);
        lemma_compared::<T>(b, c);
    }
    assert forall|a: T, b: T, c: T|
        #![trigger down(a, b), down(b, c)]
        !down(a, b) && !down(b, c) implies !down(a, c) by {
        lemma_compared::<T>(a, b);
        lemma_compared::<T>(b, c);
    }
}

/// On a totally ordered type, "not smaller" is "at least" and "not greater"
/// is "at most".
pub proof fn lemma_not_less_is_at_least<T: Ord>(a: T, b: T)
    requires
        total_order::<T>(),
    ensures
        !a.is_lt(&b) <==> b.is_le(&a),
        !a.is_gt(&b) <==> b.is_ge(&a),
{
    reveal(obeys_partial_cmp_spec_properties);
    reveal(obeys_cmp_ord);
}

/// On a totally ordered type any two elements compare, and the three
/// outcomes exclude each other.
proof fn lemma_compared<T: Ord>(a: T, b: T)
    requires
        total_order::<T>(),
    ensures
        a.is_lt(&b) || a.is_gt(&b) || a.eq_spec(&b),
        a.is_lt(&b) <==> b.is_gt(&a),
        a.eq_spec(&b) <==> b.eq_spec(&a),
        a.eq_spec(&b) ==> !a.is_lt(&b) && !a.is_gt(&b),
{
    reveal(obeys_partial_cmp_spec_properties);
    reveal(obeys_cmp_ord);
}

} // verus!
