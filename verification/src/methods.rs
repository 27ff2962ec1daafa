//! The interface that the three insertion policies share.

use vstd::prelude::*;
use crate::element::eq_known;
use crate::list::{has_match, one_removed, pop_rest, pop_value, without_first_match};
use crate::node::Node;

verus! {

/// A list with an insertion policy. The policies differ in where `push` places a
/// value; everything else is the same for all of them.
pub trait Methods<T: Copy + PartialEq>: Sized + View<V = Seq<T>> {
    /// Where the policy places a pushed value: whether a list that held `pre` may
    /// hold `post` after `val` was pushed.
    spec fn pushes(pre: Seq<T>, val: T, post: Seq<T>) -> bool;

    /// Under every policy a push adds the value at one place and moves nothing else.
    proof fn lemma_pushes_inserts(pre: Seq<T>, val: T, post: Seq<T>)
        requires
            Self::pushes(pre, val, post),
        ensures
            exists|i: int| 0 <= i <= pre.len() && post == #[trigger] pre.insert(i, val),
    ;

    /// The node at the head of the list: the terminal marker if the list is empty.
    fn head(&self) -> (n: &Node<T>)
        ensures
            n@ == self@,
            n is Nil <==> self@.len() == 0,
    ;

    /// The number of values in the list.
    fn size(&self) -> (n: usize)
        ensures
            n == self@.len(),
    ;

    /// Adds `val` at the place that the policy gives it.
    fn push(&mut self, val: T)
        requires
            old(self)@.len() < usize::MAX,
        ensures
            Self::pushes(old(self)@, val, final(self)@),
    ;

    /// Removes the value at the head and returns it. On an empty list nothing
    /// changes and there is no value.
    fn pop(&mut self) -> (r: Option<T>)
        ensures
            r == pop_value(old(self)@),
            final(self)@ == pop_rest(old(self)@),
    ;

    /// Unlinks the first value that equals `val` and says whether there was one.
    fn remove(&mut self, val: T) -> (b: bool)
        ensures
            eq_known::<T>() ==> b == has_match(old(self)@, val),
            eq_known::<T>() ==> final(self)@ == without_first_match(
                old(self)@,
                val,
            ),
            !b ==> final(self)@ == old(self)@,
            b ==> one_removed(old(self)@, final(self)@),
    ;

    /// Whether some value of the list equals `val`.
    fn contains(&self, val: T) -> (b: bool)
        ensures
            eq_known::<T>() ==> b == has_match(self@, val),
            b ==> self@.len() > 0,
    ;
}

} // verus!
