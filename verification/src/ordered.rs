//! The ascending policy: a list kept in non-decreasing order.

use vstd::prelude::*;
use crate::element::{at_most, below, order_known, ties_are_identical, total_order};
use crate::list::List;
use crate::methods::Methods;
use crate::node::Node;

verus! {

/// Where the walk over a chain that holds `s` places `v` behind some node: behind
/// the first node that is below `v` while its successor is not, or behind the last
/// node. `s` is not empty; the result counts from the head.
pub open spec fn pair_slot<T: PartialOrd>(s: Seq<T>, v: T) -> int
    decreases s.len(),
{
    if s.len() <= 1 {
        s.len() as int
    } else if below(s[0], v) && at_most(v, s[1]) {
        1
    } else {
        1 + pair_slot(s.skip(1), v)
    }
}

/// The index at which a push places `v` in a list that holds `s`: the head where the
/// list is empty or `v` is at most the head's value, else where the walk finds it.
pub open spec fn slot<T: PartialOrd>(s: Seq<T>, v: T) -> int {
    if s.len() == 0 || at_most(v, s[0]) {
        0
    } else {
        pair_slot(s, v)
    }
}

/// Whether `post` is `pre` with `val` added at one place and the others in order.
pub open spec fn one_inserted<T>(pre: Seq<T>, val: T, post: Seq<T>) -> bool {
    exists|i: int| 0 <= i <= pre.len() && post == #[trigger] pre.insert(i, val)
}

/// Whether the values of `s` never go down from one to the next.
pub open spec fn ascending<T: PartialOrd>(s: Seq<T>) -> bool {
    forall|i: int, j: int| 0 <= i < j < s.len() ==> at_most(#[trigger] s[i], #[trigger] s[j])
}

/// The index behind all values of `s` that are at most `v`, where `s` is ascending:
/// the first index that holds a value above `v`, or the length of `s`.
pub open spec fn slot_behind_ties<T: PartialOrd>(s: Seq<T>, v: T) -> int
    decreases s.len(),
{
    if s.len() == 0 || below(v, s[0]) {
        0
    } else {
        1 + slot_behind_ties(s.skip(1), v)
    }
}

/// In a total order the walk stops at the first value that `v` is at most: every
/// value in front of that place is below `v`.
pub proof fn lemma_pair_slot_first<T: PartialOrd>(s: Seq<T>, v: T)
    requires
        total_order::<T>(),
        s.len() > 0,
        below(s[0], v),
    ensures
        1 <= pair_slot(s, v) <= s.len(),
        forall|i: int| 0 <= i < pair_slot(s, v) ==> below(#[trigger] s[i], v),
        pair_slot(s, v) < s.len() ==> at_most(v, s[pair_slot(s, v)]),
    decreases s.len(),
{
    if s.len() > 1 && !(below(s[0], v) && at_most(v, s[1])) {
        let rest = s.skip(1);
        assert(at_most(v, s[1]) || at_most(s[1], v));
        assert(below(rest[0], v));
        lemma_pair_slot_first(rest, v);
        assert forall|i: int| 0 <= i < pair_slot(s, v) implies below(#[trigger] s[i], v) by {
            if i > 0 {
                assert(s[i] == rest[i - 1]);
            }
        }
    }
}

/// In a total order a push places `v` in front of the first value that `v` is at
/// most: every value in front of that place is below `v`.
pub proof fn lemma_slot_first<T: PartialOrd>(s: Seq<T>, v: T)
    requires
        total_order::<T>(),
    ensures
        0 <= slot(s, v) <= s.len(),
        forall|i: int| 0 <= i < slot(s, v) ==> below(#[trigger] s[i], v),
        slot(s, v) < s.len() ==> at_most(v, s[slot(s, v)]),
{
    if s.len() > 0 && !at_most(v, s[0]) {
        assert(at_most(v, s[0]) || at_most(s[0], v));
        lemma_pair_slot_first(s, v);
    }
}

/// In a total order a push keeps an ascending list ascending.
pub proof fn lemma_push_keeps_ascending<T: PartialOrd>(s: Seq<T>, v: T)
    requires
        total_order::<T>(),
        ascending(s),
    ensures
        ascending(s.insert(slot(s, v), v)),
{
    lemma_slot_first(s, v);
    let k = slot(s, v);
    let t = s.insert(k, v);
    assert(at_most(v, v));
    assert forall|i: int, j: int| 0 <= i < j < t.len() implies at_most(
        #[trigger] t[i],
        #[trigger] t[j],
    ) by {
        if j < k {
            assert(t[i] == s[i] && t[j] == s[j]);
        } else if j == k {
            assert(t[i] == s[i] && t[j] == v);
            assert(below(s[i], v));
        } else if i == k {
            assert(t[i] == v && t[j] == s[j - 1]);
            if j - 1 > k {
                assert(at_most(s[k], s[j - 1]));
            }
            assert(at_most(v, s[k]));
        } else if i < k {
            assert(t[i] == s[i] && t[j] == s[j - 1]);
        } else {
            assert(t[i] == s[i - 1] && t[j] == s[j - 1]);
        }
    }
}

/// The place behind the ties lies in the list, no value in front of it is above
/// `v`, and in an ascending list every value from it on is.
pub proof fn lemma_slot_behind_ties<T: PartialOrd>(s: Seq<T>, v: T)
    requires
        total_order::<T>(),
        ascending(s),
    ensures
        0 <= slot_behind_ties(s, v) <= s.len(),
        forall|i: int| 0 <= i < slot_behind_ties(s, v) ==> at_most(#[trigger] s[i], v),
        forall|i: int| slot_behind_ties(s, v) <= i < s.len() ==> below(v, #[trigger] s[i]),
    decreases s.len(),
{
    if s.len() > 0 {
        let rest = s.skip(1);
        assert forall|i: int, j: int| 0 <= i < j < rest.len() implies at_most(
            #[trigger] rest[i],
            #[trigger] rest[j],
        ) by {
            assert(rest[i] == s[i + 1] && rest[j] == s[j + 1]);
        }
        if below(v, s[0]) {
            assert forall|i: int| 0 <= i < s.len() implies below(v, #[trigger] s[i]) by {
                if i > 0 {
                    assert(at_most(s[0], s[i]));
                    assert(at_most(v, s[0]) && !at_most(s[0], v));
                    assert(at_most(v, s[i]));
                    if at_most(s[i], v) {
                        assert(at_most(s[0], v));
                    }
                }
            }
        } else {
            lemma_slot_behind_ties(rest, v);
            let k = slot_behind_ties(s, v);
            assert(at_most(v, s[0]) || at_most(s[0], v));
            assert forall|i: int| 0 <= i < k implies at_most(#[trigger] s[i], v) by {
                if i > 0 {
                    assert(s[i] == rest[i - 1]);
                }
            }
            assert forall|i: int| k <= i < s.len() implies below(v, #[trigger] s[i]) by {
                assert(s[i] == rest[i - 1]);
            }
        }
    }
}

/// Where values that rank alike are identical, a push leaves an ascending list as
/// if it had placed the value behind all values that rank like it.
pub proof fn lemma_push_behind_ties<T: PartialOrd>(s: Seq<T>, v: T)
    requires
        total_order::<T>(),
        ties_are_identical::<T>(),
        ascending(s),
    ensures
        slot(s, v) <= slot_behind_ties(s, v) <= s.len(),
        s.insert(slot(s, v), v) == s.insert(slot_behind_ties(s, v), v),
{
    lemma_slot_first(s, v);
    lemma_slot_behind_ties(s, v);
    let a = slot(s, v);
    let b = slot_behind_ties(s, v);
    if b < a {
        assert(below(s[b], v) && below(v, s[b]));
    }
    assert forall|i: int| a <= i < b implies s[i] == v by {
        assert(at_most(s[i], v));
        if i > a {
            assert(at_most(s[a], s[i]));
        }
        assert(at_most(v, s[a]));
        assert(at_most(v, s[i]));
    }
    assert(s.insert(a, v) =~= s.insert(b, v));
}

/// A list that places each pushed value in front of the first value that is not
/// below it, so that the smallest value is popped first.
pub struct Ordered<T: Copy> {
    l: List<T>,
}

impl<T: Copy> View for Ordered<T> {
    type V = Seq<T>;

    /// The values of the list, from the head on.
    closed spec fn view(&self) -> Seq<T> {
        self.l@
    }
}

impl<T: Copy> List<T> {
    /// An empty ascending list.
    pub fn ordered() -> (r: Box<Ordered<T>>)
        ensures
            r@ == Seq::<T>::empty(),
    {
        Box::new(Ordered { l: List::empty() })
    }
}

/// Links a node that holds `val` behind one of the nodes of a chain that is not
/// empty: where the pair walk finds its place.
fn link_behind<T: Copy + PartialOrd>(first: &mut Node<T>, val: T)
    requires
        old(first)@.len() > 0,
    ensures
        one_inserted(old(first)@, val, final(first)@),
        order_known::<T>() ==> final(first)@ == old(first)@.insert(
            pair_slot(old(first)@, val),
            val,
        ),
{
    let ghost all = first@;
    let mut cur: &mut Node<T> = first;
    let ghost mut done: Seq<T> = Seq::empty();
    proof {
        assert(done + cur@ =~= cur@);
    }
    loop
        invariant_except_break
            after_borrow(*first) == Node::joined(done, *final(cur)),
            all == done + cur@,
            cur@.len() > 0,
            order_known::<T>() ==> pair_slot(all, val) == done.len() + pair_slot(cur@, val),
        ensures
            done.len() < all.len(),
            after_borrow(*first)@ == all.insert(done.len() as int + 1, val),
            order_known::<T>() ==> pair_slot(all, val) == done.len() + 1,
        decreases cur@.len(),
    {
        proof {
            Node::lemma_values_unfold(*cur);
        }
        let ghost here = cur@;
        let gap = match (cur.get_value(), cur.next()) {
            (Some(c), Some(succ)) => match succ.get_value() {
                Some(n) => {
                    proof {
                        Node::lemma_values_unfold(*succ);
                    }
                    Some(c < val && val <= n)
                },
                None => None,
            },
            _ => None,
        };
        match gap {
            None => {
                cur.set_next(Node::new(val));
                proof {
                    Node::lemma_joined_values(done, *cur);
                    assert(done + (seq![here[0]] + seq![val]) =~= all.insert(
                        done.len() as int + 1,
                        val,
                    ));
                }
                break;
            },
            Some(true) => {
                match cur {
                    Node::Content { value, next } => {
                        let mut new = Node::new(val);
                        let mut rest: Node<T> = Node::Nil;
                        core::mem::swap(&mut **next, &mut rest);
                        new.set_next(rest);
                        **next = new;
                    },
                    Node::Nil => {},
                }
                proof {
                    Node::lemma_values_unfold(*cur);
                    Node::lemma_joined_values(done, *cur);
                    assert(done + (seq![here[0]] + (seq![val] + here.skip(1))) =~= all.insert(
                        done.len() as int + 1,
                        val,
                    ));
                }
                break;
            },
            Some(false) => {},
        }
        match cur {
            Node::Content { value, next } => {
                proof {
                    Node::lemma_joined_shift(done, *value, **final(next));
                    assert(done.push(*value) + next@ =~= done + (seq![*value] + next@));
                    done = done.push(*value);
                }
                cur = &mut **next;
            },
            Node::Nil => {},
        }
    }
}

impl<T: Copy + PartialOrd> Methods<T> for Ordered<T> {
    open spec fn pushes(pre: Seq<T>, val: T, post: Seq<T>) -> bool {
        &&& one_inserted(pre, val, post)
        &&& order_known::<T>() ==> post == pre.insert(slot(pre, val), val)
    }

    proof fn lemma_pushes_inserts(pre: Seq<T>, val: T, post: Seq<T>) {
    }

    fn head(&self) -> (n: &Node<T>) {
        self.l.head()
    }

    fn size(&self) -> (n: usize) {
        self.l.size()
    }

    fn push(&mut self, val: T) {
        let (mut first, count) = self.l.take();
        let ghost pre = first@;
        let at_head = match first.get_value() {
            None => true,
            Some(h) => val <= h,
        };
        proof {
            Node::lemma_values_unfold(first);
        }
        if at_head {
            let mut new = Node::new(val);
            if !first.is_nil() {
                new.set_next(first);
            }
            first = new;
            proof {
                assert(first@ =~= pre.insert(0, val));
            }
        } else {
            link_behind(&mut first, val);
        }
        self.l.put(first, count + 1);
    }

    fn pop(&mut self) -> (r: Option<T>) {
        self.l.pop()
    }

    fn remove(&mut self, val: T) -> (b: bool) {
        self.l.remove(val)
    }

    fn contains(&self, val: T) -> (b: bool) {
        self.l.contains(val)
    }
}

} // verus!
