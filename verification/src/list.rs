//! The list core: a head slot and a counter, with the operations that every
//! insertion policy shares.

use vstd::prelude::*;
use crate::element::{eq_known, matches_value};
use crate::node::Node;

verus! {

/// What a pop hands out of a chain that holds `s`: the value at the front, if any.
pub open spec fn pop_value<T>(s: Seq<T>) -> Option<T> {
    if s.len() == 0 {
        None
    } else {
        Some(s[0])
    }
}

/// What a pop leaves of a chain that holds `s`: all but the front; an empty chain
/// stays empty.
pub open spec fn pop_rest<T>(s: Seq<T>) -> Seq<T> {
    if s.len() == 0 {
        s
    } else {
        s.skip(1)
    }
}

/// Whether some element of `s` matches `v`.
pub open spec fn has_match<T: PartialEq>(s: Seq<T>, v: T) -> bool {
    exists|i: int| 0 <= i < s.len() && matches_value(#[trigger] s[i], v)
}

/// The index of the first element of `s` that matches `v`; the length of `s` if
/// none does.
pub open spec fn first_match<T: PartialEq>(s: Seq<T>, v: T) -> int
    decreases s.len(),
{
    if s.len() == 0 {
        0
    } else if matches_value(s[0], v) {
        0
    } else {
        1 + first_match(s.skip(1), v)
    }
}

/// `s` without its first element that matches `v`; `s` itself where none matches.
pub open spec fn without_first_match<T: PartialEq>(s: Seq<T>, v: T) -> Seq<T> {
    if first_match(s, v) < s.len() {
        s.remove(first_match(s, v))
    } else {
        s
    }
}

/// Whether `post` is `pre` with one element taken out and the others in place.
pub open spec fn one_removed<T>(pre: Seq<T>, post: Seq<T>) -> bool {
    exists|i: int| 0 <= i < pre.len() && post == #[trigger] pre.remove(i)
}

/// `first_match` is the least index that holds a match, and the length where there
/// is no match.
pub proof fn lemma_first_match<T: PartialEq>(s: Seq<T>, v: T)
    ensures
        0 <= first_match(s, v) <= s.len(),
        first_match(s, v) < s.len() ==> matches_value(s[first_match(s, v)], v),
        forall|i: int| 0 <= i < first_match(s, v) ==> !matches_value(#[trigger] s[i], v),
        first_match(s, v) < s.len() <==> has_match(s, v),
    decreases s.len(),
{
    if s.len() > 0 && matches_value(s[0], v) {
        assert(has_match(s, v));
    }
    if s.len() > 0 && !matches_value(s[0], v) {
        let rest = s.skip(1);
        lemma_first_match(rest, v);
        assert forall|i: int| 0 <= i < first_match(s, v) implies !matches_value(
            #[trigger] s[i],
            v,
        ) by {
            if i > 0 {
                assert(s[i] == rest[i - 1]);
            }
        }
        if first_match(s, v) < s.len() {
            assert(matches_value(s[first_match(s, v)], v));
        }
    }
}

/// A chain with the number of values it holds. The counter is kept by every
/// operation, so that the size is read without walking the chain.
pub struct List<T: Copy> {
    first: Node<T>,
    count: usize,
}

impl<T: Copy> View for List<T> {
    type V = Seq<T>;

    /// The values of the list, from the head on.
    closed spec fn view(&self) -> Seq<T> {
        self.first@
    }
}

impl<T: Copy> Default for List<T> {
    /// The list without a value.
    fn default() -> (l: List<T>)
        ensures
            l@ == Seq::<T>::empty(),
    {
        List::empty()
    }
}

impl<T: Copy> List<T> {
    #[verifier::type_invariant]
    spec fn counted(&self) -> bool {
        self.count == self.first@.len()
    }

    /// The list without a value.
    pub(crate) fn empty() -> (l: List<T>)
        ensures
            l@ == Seq::<T>::empty(),
    {
        List { first: Node::Nil, count: 0 }
    }

    /// Takes the chain and its length out and leaves the list empty.
    pub(crate) fn take(&mut self) -> (r: (Node<T>, usize))
        ensures
            r.0@ == old(self)@,
            r.1 == old(self)@.len(),
            final(self)@ == Seq::<T>::empty(),
    {
        let mut out = List::empty();
        core::mem::swap(self, &mut out);
        proof {
            use_type_invariant(&out);
        }
        let List { first, count } = out;
        (first, count)
    }

    /// Puts a chain with its length into the list, in place of what it held.
    pub(crate) fn put(&mut self, first: Node<T>, count: usize)
        requires
            count == first@.len(),
        ensures
            final(self)@ == first@,
    {
        *self = List { first, count };
    }

    /// The number of values in the list.
    pub fn size(&self) -> (n: usize)
        ensures
            n == self@.len(),
    {
        proof {
            use_type_invariant(self);
        }
        self.count
    }

    /// The node at the head of the list: the terminal marker if the list is empty.
    pub fn head(&self) -> (n: &Node<T>)
        ensures
            n@ == self@,
            n is Nil <==> self@.len() == 0,
    {
        proof {
            Node::lemma_values_unfold(self.first);
        }
        &self.first
    }

    /// Whether some value of the list equals `val`.
    pub fn contains(&self, val: T) -> (b: bool) where T: PartialEq
        ensures
            eq_known::<T>() ==> b == has_match(self@, val),
            b ==> self@.len() > 0,
    {
        let mut cur: &Node<T> = &self.first;
        let ghost mut seen: int = 0;
        proof {
            assert(self@.skip(0) =~= self@);
        }
        loop
            invariant
                0 <= seen <= self@.len(),
                cur@ == self@.skip(seen),
                eq_known::<T>() ==> first_match(self@, val) == seen + first_match(cur@, val),
            decreases cur@.len(),
        {
            proof {
                Node::lemma_values_unfold(*cur);
                lemma_first_match(self@, val);
            }
            match cur {
                Node::Nil => {
                    return false;
                },
                Node::Content { value, next } => {
                    if *value == val {
                        return true;
                    }
                    proof {
                        assert(self@.skip(seen).skip(1) =~= self@.skip(seen + 1));
                        seen = seen + 1;
                    }
                    cur = &**next;
                },
            }
        }
    }

    /// Unlinks the first value that equals `val` and says whether there was one.
    /// The other values keep their order.
    pub fn remove(&mut self, val: T) -> (b: bool) where T: PartialEq
        ensures
            eq_known::<T>() ==> b == has_match(old(self)@, val),
            eq_known::<T>() ==> final(self)@ == without_first_match(old(self)@, val),
            !b ==> final(self)@ == old(self)@,
            b ==> one_removed(old(self)@, final(self)@),
    {
        let (mut first, count) = self.take();
        let ghost all = first@;
        proof {
            lemma_first_match(all, val);
        }
        let mut found = false;
        let ghost mut done: Seq<T> = Seq::empty();
        {
            let mut cur: &mut Node<T> = &mut first;
            proof {
                assert(done + cur@ =~= cur@);
            }
            loop
                invariant_except_break
                    !found,
                    after_borrow(first) == Node::joined(done, *final(cur)),
                    all == done + cur@,
                    eq_known::<T>() ==> first_match(all, val) == done.len() + first_match(
                        cur@,
                        val,
                    ),
                ensures
                    done.len() <= all.len(),
                    !found ==> after_borrow(first)@ == all,
                    found ==> done.len() < all.len() && after_borrow(first)@ == all.remove(
                        done.len() as int,
                    ),
                    eq_known::<T>() ==> found == (first_match(all, val) < all.len()),
                    eq_known::<T>() && found ==> first_match(all, val) == done.len(),
                decreases cur@.len(),
            {
                proof {
                    Node::lemma_values_unfold(*cur);
                }
                let hit = match cur.get_value() {
                    Some(v) => v == val,
                    None => {
                        proof {
                            Node::lemma_joined_values(done, *cur);
                        }
                        break;
                    },
                };
                if hit {
                    let mut unlinked: Node<T> = Node::Nil;
                    core::mem::swap(cur, &mut unlinked);
                    match unlinked {
                        Node::Content { value, next } => {
                            *cur = *next;
                            proof {
                                Node::lemma_joined_values(done, *cur);
                                assert(done + cur@ =~= (done + (seq![value] + cur@)).remove(
                                    done.len() as int,
                                ));
                            }
                        },
                        Node::Nil => {},
                    }
                    found = true;
                    break;
                }
                match cur {
                    Node::Content { value, next } => {
                        proof {
                            Node::lemma_joined_shift(done, *value, **final(next));
                            assert(done.push(*value) + next@ =~= done + (seq![*value] + next@));
                            assert((seq![*value] + next@).skip(1) =~= next@);
                            done = done.push(*value);
                        }
                        cur = &mut **next;
                    },
                    Node::Nil => {},
                }
            }
        }
        if found {
            self.put(first, count - 1);
        } else {
            self.put(first, count);
        }
        found
    }

    /// Removes the value at the head and returns it. On an empty list nothing
    /// changes and there is no value.
    pub fn pop(&mut self) -> (r: Option<T>)
        ensures
            r == pop_value(old(self)@),
            final(self)@ == pop_rest(old(self)@),
    {
        let (first, count) = self.take();
        proof {
            Node::lemma_values_unfold(first);
        }
        match first {
            Node::Nil => None,
            Node::Content { value, next } => {
                self.put(*next, count - 1);
                Some(value)
            },
        }
    }
}

} // verus!
