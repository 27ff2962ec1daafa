//! The first-in-first-out policy: a queue.

use vstd::prelude::*;
use crate::list::List;
use crate::methods::Methods;
use crate::node::Node;

verus! {

/// A list that places each pushed value behind the last one, so that values are
/// popped in the order in which they were pushed. No tail is remembered: a push
/// walks the whole chain.
pub struct Fifo<T: Copy> {
    l: List<T>,
}

impl<T: Copy> View for Fifo<T> {
    type V = Seq<T>;

    /// The values of the list, from the head on.
    closed spec fn view(&self) -> Seq<T> {
        self.l@
    }
}

impl<T: Copy> List<T> {
    /// An empty first-in-first-out list.
    pub fn fifo() -> (r: Box<Fifo<T>>)
        ensures
            r@ == Seq::<T>::empty(),
    {
        Box::new(Fifo { l: List::empty() })
    }
}

/// Attaches a node that holds `val` behind the last node of a chain that is not empty.
fn attach_last<T: Copy>(first: &mut Node<T>, val: T)
    requires
        old(first)@.len() > 0,
    ensures
        final(first)@ == old(first)@.push(val),
{
    let mut cur: &mut Node<T> = first;
    let ghost mut done: Seq<T> = Seq::empty();
    proof {
        assert(done + cur@ =~= cur@);
    }
    loop
        invariant_except_break
            after_borrow(*first) == Node::joined(done, *final(cur)),
            old(first)@ == done + cur@,
            cur@.len() > 0,
        ensures
            after_borrow(*first)@ == old(first)@.push(val),
        decreases cur@.len(),
    {
        proof {
            Node::lemma_values_unfold(*cur);
        }
        if cur.next().is_none() {
            cur.set_next(Node::new(val));
            proof {
                Node::lemma_joined_values(done, *cur);
                assert(done + (seq![old(first)@[done.len() as int]] + seq![val]) =~= old(
                    first,
                )@.push(val));
            }
            break;
        }
        match cur {
            Node::Content { value, next } => {
                proof {
                    Node::lemma_joined_shift(done, *value, **final(next));
                    assert(done.push(*value) + next@ =~= done + (seq![*value] + next@));
                    done = done.push(*value);
                }
                cur = &mut **next;
            },
            Node::Nil => {},
        }
    }
}

impl<T: Copy + PartialEq> Methods<T> for Fifo<T> {
    open spec fn pushes(pre: Seq<T>, val: T, post: Seq<T>) -> bool {
        post == pre.push(val)
    }

    proof fn lemma_pushes_inserts(pre: Seq<T>, val: T, post: Seq<T>) {
        assert(post =~= pre.insert(pre.len() as int, val));
    }

    fn head(&self) -> (n: &Node<T>) {
        self.l.head()
    }

    fn size(&self) -> (n: usize) {
        self.l.size()
    }

    fn push(&mut self, val: T) {
        let (mut first, count) = self.l.take();
        if first.is_nil() {
            first = Node::new(val);
            proof {
                assert(Seq::<T>::empty().push(val) =~= seq![val]);
            }
        } else {
            attach_last(&mut first, val);
        }
        self.l.put(first, count + 1);
    }

    fn pop(&mut self) -> (r: Option<T>) {
        self.l.pop()
    }

    fn remove(&mut self, val: T) -> (b: bool) {
        self.l.remove(val)
    }

    fn contains(&self, val: T) -> (b: bool) {
        self.l.contains(val)
    }
}

} // verus!
