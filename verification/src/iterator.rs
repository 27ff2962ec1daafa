//! A forward pass over the values of a chain that leaves the chain as it is.

use vstd::prelude::*;
use crate::lifo::Lifo;
use crate::list::{pop_rest, pop_value};
use crate::methods::Methods;
use crate::node::Node;

verus! {

/// A position in a chain. Each step hands out the value at the position and moves
/// on to the successor; at the end of the chain it hands out nothing and stays.
/// The chain is only read, so that several passes over it can be under way at once.
pub struct ListIterator<'a, T: Copy> {
    current: &'a Node<T>,
}

impl<'a, T: Copy> View for ListIterator<'a, T> {
    type V = Seq<T>;

    /// The values that are still to come, in order.
    closed spec fn view(&self) -> Seq<T> {
        self.current@
    }
}

impl<'a, T: Copy> ListIterator<'a, T> {
    /// A pass that starts at `current`.
    pub fn new(current: &'a Node<T>) -> (it: Self)
        ensures
            it@ == current@,
    {
        ListIterator { current }
    }

    /// The next value of the pass, if the chain has not ended.
    pub fn next(&mut self) -> (r: Option<T>)
        ensures
            r == pop_value(old(self)@),
            final(self)@ == pop_rest(old(self)@),
    {
        proof {
            Node::lemma_values_unfold(*self.current);
        }
        match self.current {
            Node::Content { value, next } => {
                self.current = &**next;
                Some(*value)
            },
            Node::Nil => None,
        }
    }
}

impl<T: Copy + PartialEq> Lifo<T> {
    /// A pass over the values of the list, from the head on.
    pub fn iter(&self) -> (it: ListIterator<'_, T>)
        ensures
            it@ == self@,
    {
        ListIterator::new(self.head())
    }
}

} // verus!
