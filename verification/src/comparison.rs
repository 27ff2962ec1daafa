//! Equality and order of nodes. Both go by the value alone: what follows a node
//! plays no part. The terminal marker equals itself and stands below every node
//! that holds a value.

use vstd::prelude::*;
use core::cmp::Ordering;
use vstd::std_specs::cmp::{PartialEqSpec, PartialEqSpecImpl, PartialOrdSpec, PartialOrdSpecImpl};
use crate::node::Node;

verus! {

impl<T: Copy> Default for Node<T> {
    /// The terminal marker.
    fn default() -> (n: Node<T>)
        ensures
            n is Nil,
    {
        Node::Nil
    }
}

impl<T: Copy + PartialEq> PartialEq for Node<T> {
    fn eq(&self, other: &Self) -> (r: bool) {
        match (self.get_value(), other.get_value()) {
            (Some(a), Some(b)) => a == b,
            (None, None) => true,
            _ => false,
        }
    }
}

impl<T: Copy + PartialEq> PartialEqSpecImpl for Node<T> {
    open spec fn obeys_eq_spec() -> bool {
        T::obeys_eq_spec()
    }

    open spec fn eq_spec(&self, other: &Self) -> bool {
        match (self.first(), other.first()) {
            (Some(a), Some(b)) => a.eq_spec(&b),
            (None, None) => true,
            _ => false,
        }
    }
}

impl<T: Copy + PartialOrd> PartialOrd for Node<T> {
    fn partial_cmp(&self, other: &Self) -> (r: Option<Ordering>) {
        match (self.get_value(), other.get_value()) {
            (Some(a), Some(b)) => a.partial_cmp(&b),
            (None, None) => Some(Ordering::Equal),
            (None, Some(_)) => Some(Ordering::Less),
            (Some(_), None) => Some(Ordering::Greater),
        }
    }
}

impl<T: Copy + PartialOrd> PartialOrdSpecImpl for Node<T> {
    open spec fn obeys_partial_cmp_spec() -> bool {
        T::obeys_partial_cmp_spec()
    }

    open spec fn partial_cmp_spec(&self, other: &Self) -> Option<Ordering> {
        match (self.first(), other.first()) {
            (Some(a), Some(b)) => a.partial_cmp_spec(&b),
            (None, None) => Some(Ordering::Equal),
            (None, Some(_)) => Some(Ordering::Less),
            (Some(_), None) => Some(Ordering::Greater),
        }
    }
}

} // verus!
