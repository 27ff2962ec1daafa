//! What holds of the lists over whole runs of pushes and pops.

use vstd::prelude::*;
use crate::element::{at_most, order_known, ties_are_identical, total_order};
use crate::fifo::Fifo;
use crate::lifo::Lifo;
use crate::list::{pop_rest, pop_value};
use crate::methods::Methods;
use crate::node::Node;
use crate::ordered::{
    ascending, lemma_push_behind_ties, lemma_push_keeps_ascending, lemma_slot_first, slot,
    slot_behind_ties, Ordered,
};

verus! {

/// Whether `states` are the values of a list of policy `L` before, between and
/// after pushing the values of `vals` one after the other.
pub open spec fn push_run<T: Copy + PartialEq, L: Methods<T>>(
    states: Seq<Seq<T>>,
    vals: Seq<T>,
) -> bool {
    &&& states.len() == vals.len() + 1
    &&& forall|i: int|
        0 <= i < vals.len() ==> L::pushes(#[trigger] states[i], vals[i], states[i + 1])
}

/// A chain is what it holds: two chains with the same values are the same chain.
/// So a contract that gives the values of a node or of a head says which node it is.
pub proof fn law_values_determine_chain<T: Copy>(a: Node<T>, b: Node<T>)
    requires
        a@ == b@,
    ensures
        a == b,
    decreases a,
{
    Node::lemma_values_unfold(a);
    Node::lemma_values_unfold(b);
    match (a, b) {
        (Node::Content { value: _, next: behind_a }, Node::Content { value: _, next: behind_b }) => {
            law_values_determine_chain(*behind_a, *behind_b);
        },
        _ => {},
    }
}

/// One operation on a list.
pub enum Op<T> {
    /// A push of the value.
    Push(T),
    /// A pop.
    Pop,
}

/// Whether a list of policy `L` that held `pre` may hold `post` after `op`.
pub open spec fn step<T: Copy + PartialEq, L: Methods<T>>(
    pre: Seq<T>,
    op: Op<T>,
    post: Seq<T>,
) -> bool {
    match op {
        Op::Push(v) => L::pushes(pre, v, post),
        Op::Pop => post == pop_rest(pre),
    }
}

/// Whether `states` are the values of a list of policy `L` that starts empty,
/// before, between and after the operations of `ops`.
pub open spec fn run<T: Copy + PartialEq, L: Methods<T>>(
    states: Seq<Seq<T>>,
    ops: Seq<Op<T>>,
) -> bool {
    &&& states.len() == ops.len() + 1
    &&& states[0] == Seq::<T>::empty()
    &&& forall|i: int| 0 <= i < ops.len() ==> step::<T, L>(#[trigger] states[i], ops[i], states[i + 1])
}

/// The number of pushes among the first `n` operations.
pub open spec fn pushes_among<T>(ops: Seq<Op<T>>, n: nat) -> nat
    decreases n,
{
    if n == 0 {
        0
    } else {
        pushes_among(ops, (n - 1) as nat) + (if ops[n - 1] is Push {
            1nat
        } else {
            0nat
        })
    }
}

/// The number of pops among the first `n` operations that found a value.
pub open spec fn pops_with_value<T>(states: Seq<Seq<T>>, ops: Seq<Op<T>>, n: nat) -> nat
    decreases n,
{
    if n == 0 {
        0
    } else {
        pops_with_value(states, ops, (n - 1) as nat) + (if ops[n - 1] is Pop && states[n - 1].len()
            > 0 {
            1nat
        } else {
            0nat
        })
    }
}

/// Size invariant. Under every policy, whatever was pushed and popped, the list
/// holds as many values as were pushed less those that pops took out.
pub proof fn law_size<T: Copy + PartialEq, L: Methods<T>>(
    states: Seq<Seq<T>>,
    ops: Seq<Op<T>>,
    n: nat,
)
    requires
        run::<T, L>(states, ops),
        n <= ops.len(),
    ensures
        states[n as int].len() == pushes_among(ops, n) - pops_with_value(states, ops, n),
    decreases n,
{
    if n > 0 {
        let j = (n - 1) as int;
        law_size::<T, L>(states, ops, j as nat);
        assert(step::<T, L>(states[j], ops[j], states[j + 1]));
        match ops[j] {
            Op::Push(v) => {
                L::lemma_pushes_inserts(states[j], v, states[j + 1]);
            },
            Op::Pop => {},
        }
    }
}

/// The values left of `s` after `k` pops.
pub open spec fn after_pops<T>(s: Seq<T>, k: nat) -> Seq<T>
    decreases k,
{
    if k == 0 {
        s
    } else {
        pop_rest(after_pops(s, (k - 1) as nat))
    }
}

/// What the pop that follows `k` earlier pops hands out of a list that held `s`.
pub open spec fn popped<T>(s: Seq<T>, k: nat) -> Option<T> {
    pop_value(after_pops(s, k))
}

/// Pops take the values from the front, one each, until none is left; from then on
/// every pop finds the list empty.
pub proof fn lemma_pops<T>(s: Seq<T>, k: nat)
    ensures
        k <= s.len() ==> after_pops(s, k) == s.skip(k as int),
        k >= s.len() ==> after_pops(s, k) == Seq::<T>::empty(),
        popped(s, k) == (if k < s.len() {
            Some(s[k as int])
        } else {
            None
        }),
    decreases k,
{
    if k == 0 {
        assert(s.skip(0) =~= s);
        assert(s.len() == 0 ==> s =~= Seq::<T>::empty());
    } else {
        let j = (k - 1) as nat;
        lemma_pops(s, j);
        if k <= s.len() {
            assert(s.skip(j as int).skip(1) =~= s.skip(k as int));
        }
        if k == s.len() {
            assert(s.skip(k as int) =~= Seq::<T>::empty());
        }
    }
}

/// Stack law. After the values of `vals` were pushed on an empty last-in-first-out
/// list, the list holds them in reverse; so the pops hand them out last first, and
/// every pop after that finds no value and leaves the list empty.
pub proof fn law_stack<T: Copy + PartialEq>(states: Seq<Seq<T>>, vals: Seq<T>)
    requires
        push_run::<T, Lifo<T>>(states, vals),
        states[0] == Seq::<T>::empty(),
    ensures
        states.last() == vals.reverse(),
        forall|k: nat|
            k < vals.len() ==> #[trigger] popped(states.last(), k) == Some(
                vals[vals.len() - 1 - k],
            ),
        forall|k: nat|
            k >= vals.len() ==> #[trigger] popped(states.last(), k) is None && after_pops(
                states.last(),
                k,
            ).len() == 0,
{
    lemma_stack_prefix(states, vals, vals.len());
    assert(vals.take(vals.len() as int) =~= vals);
    let end = states.last();
    assert forall|k: nat| k < vals.len() implies #[trigger] popped(end, k) == Some(
        vals[vals.len() - 1 - k],
    ) by {
        lemma_pops(end, k);
    }
    assert forall|k: nat| k >= vals.len() implies #[trigger] popped(end, k) is None && after_pops(
        end,
        k,
    ).len() == 0 by {
        lemma_pops(end, k);
    }
}

/// After the first `n` pushes a last-in-first-out list holds them in reverse.
proof fn lemma_stack_prefix<T: Copy + PartialEq>(states: Seq<Seq<T>>, vals: Seq<T>, n: nat)
    requires
        push_run::<T, Lifo<T>>(states, vals),
        states[0] == Seq::<T>::empty(),
        n <= vals.len(),
    ensures
        states[n as int] == vals.take(n as int).reverse(),
    decreases n,
{
    if n == 0 {
        assert(vals.take(0).reverse() =~= Seq::<T>::empty());
    } else {
        let j = (n - 1) as int;
        lemma_stack_prefix(states, vals, j as nat);
        assert(Lifo::<T>::pushes(states[j], vals[j], states[j + 1]));
        assert(seq![vals[j]] + vals.take(j).reverse() =~= vals.take(n as int).reverse());
    }
}

/// Queue law. After the values of `vals` were pushed on an empty first-in-first-out
/// list, the list holds them as they came; so the pops hand them out first first,
/// and every pop after that finds no value.
pub proof fn law_queue<T: Copy + PartialEq>(states: Seq<Seq<T>>, vals: Seq<T>)
    requires
        push_run::<T, Fifo<T>>(states, vals),
        states[0] == Seq::<T>::empty(),
    ensures
        states.last() == vals,
        forall|k: nat| k < vals.len() ==> #[trigger] popped(states.last(), k) == Some(vals[k as int]),
        forall|k: nat|
            k >= vals.len() ==> #[trigger] popped(states.last(), k) is None && after_pops(
                states.last(),
                k,
            ).len() == 0,
{
    lemma_queue_prefix(states, vals, vals.len());
    assert(vals.take(vals.len() as int) =~= vals);
    let end = states.last();
    assert forall|k: nat| k < vals.len() implies #[trigger] popped(end, k) == Some(
        vals[k as int],
    ) by {
        lemma_pops(end, k);
    }
    assert forall|k: nat| k >= vals.len() implies #[trigger] popped(end, k) is None && after_pops(
        end,
        k,
    ).len() == 0 by {
        lemma_pops(end, k);
    }
}

/// After the first `n` pushes a first-in-first-out list holds them as they came.
proof fn lemma_queue_prefix<T: Copy + PartialEq>(states: Seq<Seq<T>>, vals: Seq<T>, n: nat)
    requires
        push_run::<T, Fifo<T>>(states, vals),
        states[0] == Seq::<T>::empty(),
        n <= vals.len(),
    ensures
        states[n as int] == vals.take(n as int),
    decreases n,
{
    if n == 0 {
        assert(vals.take(0) =~= Seq::<T>::empty());
    } else {
        let j = (n - 1) as int;
        lemma_queue_prefix(states, vals, j as nat);
        assert(Fifo::<T>::pushes(states[j], vals[j], states[j + 1]));
        assert(vals.take(j).push(vals[j]) =~= vals.take(n as int));
    }
}

/// After the first `n` pushes an ascending list is ascending and holds what was
/// pushed.
proof fn lemma_sort_prefix<T: Copy + PartialOrd>(states: Seq<Seq<T>>, vals: Seq<T>, n: nat)
    requires
        push_run::<T, Ordered<T>>(states, vals),
        states[0] == Seq::<T>::empty(),
        order_known::<T>(),
        total_order::<T>(),
        n <= vals.len(),
    ensures
        ascending(states[n as int]),
        states[n as int].to_multiset() == vals.take(n as int).to_multiset(),
        states[n as int].len() == n,
    decreases n,
{
    broadcast use vstd::seq_lib::group_to_multiset_ensures;

    if n == 0 {
        assert(vals.take(0) =~= Seq::<T>::empty());
    } else {
        let j = (n - 1) as int;
        lemma_sort_prefix(states, vals, j as nat);
        assert(Ordered::<T>::pushes(states[j], vals[j], states[j + 1]));
        lemma_slot_first(states[j], vals[j]);
        lemma_push_keeps_ascending(states[j], vals[j]);
        assert(vals.take(j).push(vals[j]) =~= vals.take(n as int));
    }
}

/// Sort law. After the values of `vals` were pushed on an empty ascending list, in
/// whatever order, the list holds just these values and never goes down from one
/// to the next; so the pops hand them out in non-decreasing order, and every pop
/// after that finds no value. This is stated where the order of `T` is total.
pub proof fn law_sort<T: Copy + PartialOrd>(states: Seq<Seq<T>>, vals: Seq<T>)
    requires
        push_run::<T, Ordered<T>>(states, vals),
        states[0] == Seq::<T>::empty(),
        order_known::<T>(),
        total_order::<T>(),
    ensures
        ascending(states.last()),
        states.last().to_multiset() == vals.to_multiset(),
        forall|j: nat, k: nat|
            j < k < vals.len() ==> at_most(
                (#[trigger] popped(states.last(), j))->0,
                (#[trigger] popped(states.last(), k))->0,
            ),
        forall|k: nat|
            k >= vals.len() ==> #[trigger] popped(states.last(), k) is None && after_pops(
                states.last(),
                k,
            ).len() == 0,
{
    lemma_sort_prefix(states, vals, vals.len());
    assert(vals.take(vals.len() as int) =~= vals);
    let end = states.last();
    assert forall|j: nat, k: nat| j < k < vals.len() implies at_most(
        (#[trigger] popped(end, j))->0,
        (#[trigger] popped(end, k))->0,
    ) by {
        lemma_pops(end, j);
        lemma_pops(end, k);
        assert(at_most(end[j as int], end[k as int]));
    }
    assert forall|k: nat| k >= vals.len() implies #[trigger] popped(end, k) is None && after_pops(
        end,
        k,
    ).len() == 0 by {
        lemma_pops(end, k);
    }
}

/// Values that rank alike come out in the order in which they went in. Where such
/// values are identical, each push on an ascending list leaves the list as if the
/// value had been placed behind all values that rank like it.
pub proof fn law_sort_keeps_ties_in_order<T: Copy + PartialOrd>(
    states: Seq<Seq<T>>,
    vals: Seq<T>,
)
    requires
        push_run::<T, Ordered<T>>(states, vals),
        states[0] == Seq::<T>::empty(),
        order_known::<T>(),
        total_order::<T>(),
        ties_are_identical::<T>(),
    ensures
        forall|i: int|
            0 <= i < vals.len() ==> #[trigger] states[i + 1] == states[i].insert(
                slot_behind_ties(states[i], vals[i]),
                vals[i],
            ),
{
    assert forall|i: int| 0 <= i < vals.len() implies #[trigger] states[i + 1] == states[i].insert(
        slot_behind_ties(states[i], vals[i]),
        vals[i],
    ) by {
        lemma_sort_prefix(states, vals, i as nat);
        assert(Ordered::<T>::pushes(states[i], vals[i], states[i + 1]));
        lemma_push_behind_ties(states[i], vals[i]);
    }
}

/// The order in which values are pushed plays no part in what an ascending list
/// holds: where values that rank alike are identical, two runs that push the same
/// values end with the same list.
pub proof fn law_sort_any_push_order<T: Copy + PartialOrd>(
    states_a: Seq<Seq<T>>,
    vals_a: Seq<T>,
    states_b: Seq<Seq<T>>,
    vals_b: Seq<T>,
)
    requires
        push_run::<T, Ordered<T>>(states_a, vals_a),
        push_run::<T, Ordered<T>>(states_b, vals_b),
        states_a[0] == Seq::<T>::empty(),
        states_b[0] == Seq::<T>::empty(),
        vals_a.to_multiset() == vals_b.to_multiset(),
        order_known::<T>(),
        total_order::<T>(),
        ties_are_identical::<T>(),
    ensures
        states_a.last() == states_b.last(),
{
    law_sort(states_a, vals_a);
    law_sort(states_b, vals_b);
    let leq = |a: T, b: T| at_most(a, b);
    assert(vstd::relations::total_ordering(leq)) by {
        assert forall|a: T| #[trigger] leq(a, a) by {
            assert(at_most(a, a) || at_most(a, a));
        }
        assert forall|a: T, b: T| #[trigger] leq(a, b) || #[trigger] leq(b, a) by {
            assert(at_most(a, b) || at_most(b, a));
        }
    }
    assert(vstd::relations::sorted_by(states_a.last(), leq));
    assert(vstd::relations::sorted_by(states_b.last(), leq));
    vstd::seq_lib::lemma_sorted_unique(states_a.last(), states_b.last(), leq);
}

/// Popping a list that is empty finds no value and leaves it empty, however often
/// it is done.
pub proof fn law_empty_pop<T>(k: nat)
    ensures
        popped(Seq::<T>::empty(), k) is None,
        after_pops(Seq::<T>::empty(), k) == Seq::<T>::empty(),
        after_pops(Seq::<T>::empty(), k + 1) == Seq::<T>::empty(),
{
    lemma_pops(Seq::<T>::empty(), k);
    lemma_pops(Seq::<T>::empty(), k + 1);
}

} // verus!
