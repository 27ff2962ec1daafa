//! What the lists ask of their elements: equality for searching, and an order for
//! the ascending policy. Both are the element type's own `==` and `<`, as far as
//! their results are specified.

use vstd::prelude::*;
use core::cmp::Ordering;
use vstd::std_specs::cmp::{PartialEqSpec, PartialOrdSpec};

verus! {

/// Whether `==` on `T` is specified, so that its results can be stated.
pub open spec fn eq_known<T: PartialEq>() -> bool {
    T::obeys_eq_spec()
}

/// Whether the element `e` of a list counts as the searched value `v`: `e == v`.
pub open spec fn matches_value<T: PartialEq>(e: T, v: T) -> bool {
    e.eq_spec(&v)
}

/// Whether `<` and `<=` on `T` are specified, so that their results can be stated.
pub open spec fn order_known<T: PartialOrd>() -> bool {
    T::obeys_partial_cmp_spec()
}

/// `a < b` in the order of `T`.
pub open spec fn below<T: PartialOrd>(a: T, b: T) -> bool {
    a.partial_cmp_spec(&b) == Some(Ordering::Less)
}

/// `a <= b` in the order of `T`.
pub open spec fn at_most<T: PartialOrd>(a: T, b: T) -> bool {
    match a.partial_cmp_spec(&b) {
        Some(Ordering::Less) => true,
        Some(Ordering::Equal) => true,
        _ => false,
    }
}

/// Whether the order of `T` ranks every two values and is transitive, with `<` as
/// the strict part of `<=`. Values that are not comparable (such as a float that
/// is no number) rule this out.
pub open spec fn total_order<T: PartialOrd>() -> bool {
    &&& forall|a: T, b: T| #[trigger] at_most(a, b) || at_most(b, a)
    &&& forall|a: T, b: T, c: T| #[trigger]
        at_most(a, b) && #[trigger] at_most(b, c) ==> at_most(a, c)
    &&& forall|a: T, b: T| #[trigger] below(a, b) <==> at_most(a, b) && !at_most(b, a)
}

/// Whether values that the order of `T` ranks alike are the same value.
pub open spec fn ties_are_identical<T: PartialOrd>() -> bool {
    forall|a: T, b: T| #[trigger] at_most(a, b) && at_most(b, a) ==> a == b
}

} // verus!
