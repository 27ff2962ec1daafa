//! The last-in-first-out policy: a stack.

use vstd::prelude::*;
use crate::list::List;
use crate::methods::Methods;
use crate::node::Node;

verus! {

/// A list that places each pushed value at the head, so that the value pushed last
/// is popped first.
pub struct Lifo<T: Copy> {
    l: List<T>,
}

impl<T: Copy> View for Lifo<T> {
    type V = Seq<T>;

    /// The values of the list, from the head on.
    closed spec fn view(&self) -> Seq<T> {
        self.l@
    }
}

impl<T: Copy> List<T> {
    /// An empty last-in-first-out list.
    pub fn lifo() -> (r: Box<Lifo<T>>)
        ensures
            r@ == Seq::<T>::empty(),
    {
        Box::new(Lifo { l: List::empty() })
    }
}

impl<T: Copy + PartialEq> Methods<T> for Lifo<T> {
    open spec fn pushes(pre: Seq<T>, val: T, post: Seq<T>) -> bool {
        post == seq![val] + pre
    }

    proof fn lemma_pushes_inserts(pre: Seq<T>, val: T, post: Seq<T>) {
        assert(post =~= pre.insert(0, val));
    }

    fn head(&self) -> (n: &Node<T>) {
        self.l.head()
    }

    fn size(&self) -> (n: usize) {
        self.l.size()
    }

    fn push(&mut self, val: T) {
        let (head, count) = self.l.take();
        let mut new = Node::new(val);
        if !head.is_nil() {
            new.set_next(head);
        }
        self.l.put(new, count + 1);
    }

    fn pop(&mut self) -> (r: Option<T>) {
        self.l.pop()
    }

    fn remove(&mut self, val: T) -> (b: bool) {
        self.l.remove(val)
    }

    fn contains(&self, val: T) -> (b: bool) {
        self.l.contains(val)
    }
}

} // verus!
