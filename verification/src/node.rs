//! The link element of a chain: a value with its successor, or the terminal marker.

use vstd::prelude::*;

verus! {

/// One element of a chain. `Nil` ends every chain; `Content` holds a value and owns
/// the rest of the chain behind it.
#[derive(Debug)]
pub enum Node<T: Copy> {
    Nil,
    Content { value: T, next: Box<Node<T>> },
}

impl<T: Copy> View for Node<T> {
    type V = Seq<T>;

    /// The values of the chain that starts at this node, first to last.
    open spec fn view(&self) -> Seq<T> {
        self.values()
    }
}

impl<T: Copy> Clone for Node<T> {
    /// A chain of its own that holds the same values.
    fn clone(&self) -> (n: Node<T>)
        ensures
            n == *self,
        decreases self,
    {
        match self {
            Node::Nil => Node::Nil,
            Node::Content { value, next } => {
                let behind = (&**next).clone();
                Node::Content { value: *value, next: Box::new(behind) }
            },
        }
    }
}

impl<T: Copy> Node<T> {
    /// The values held from this node to the end of its chain.
    pub open spec fn values(&self) -> Seq<T>
        decreases self,
    {
        match self {
            Node::Nil => Seq::empty(),
            Node::Content { value, next } => seq![*value] + next.values(),
        }
    }

    /// The value at the front of the chain, if the chain holds any.
    pub open spec fn first(&self) -> Option<T> {
        match self {
            Node::Nil => None,
            Node::Content { value, .. } => Some(*value),
        }
    }

    /// The chain behind this node; behind the terminal marker there is only the marker.
    pub open spec fn rest(&self) -> Node<T> {
        match self {
            Node::Nil => Node::Nil,
            Node::Content { next, .. } => **next,
        }
    }

    /// This node with `n` behind it; the terminal marker stays what it is.
    pub open spec fn with_next(&self, n: Node<T>) -> Node<T> {
        match self {
            Node::Nil => Node::Nil,
            Node::Content { value, .. } => Node::Content { value: *value, next: Box::new(n) },
        }
    }

    /// What `values` says of each of the two variants.
    pub proof fn lemma_values_unfold(n: Node<T>)
        ensures
            n is Nil <==> n@.len() == 0,
            n matches Node::Content { value, next } ==> {
                &&& n@ == seq![value] + next@
                &&& n@.len() == next@.len() + 1
                &&& n@[0] == value
                &&& n@.skip(1) == next@
            },
    {
    }

    /// The chain that holds the values of `prefix`, in order, and then goes on with `tail`.
    pub open spec fn joined(prefix: Seq<T>, tail: Node<T>) -> Node<T>
        decreases prefix.len(),
    {
        if prefix.len() == 0 {
            tail
        } else {
            Node::Content { value: prefix[0], next: Box::new(Self::joined(prefix.skip(1), tail)) }
        }
    }

    /// The values of a joined chain are the prefix followed by the values of the tail.
    pub proof fn lemma_joined_values(prefix: Seq<T>, tail: Node<T>)
        ensures
            Self::joined(prefix, tail)@ == prefix + tail@,
        decreases prefix.len(),
    {
        if prefix.len() == 0 {
            assert(prefix + tail@ =~= tail@);
        } else {
            Self::lemma_joined_values(prefix.skip(1), tail);
            Self::lemma_values_unfold(Self::joined(prefix, tail));
            assert(seq![prefix[0]] + (prefix.skip(1) + tail@) =~= prefix + tail@);
        }
    }

    /// Moving a value from the front of the tail to the end of the prefix leaves the
    /// joined chain as it is.
    pub proof fn lemma_joined_shift(prefix: Seq<T>, v: T, tail: Node<T>)
        ensures
            Self::joined(prefix.push(v), tail) == Self::joined(
                prefix,
                Node::Content { value: v, next: Box::new(tail) },
            ),
        decreases prefix.len(),
    {
        let longer = prefix.push(v);
        if prefix.len() == 0 {
            assert(longer.skip(1) =~= Seq::<T>::empty());
            assert(Self::joined(longer.skip(1), tail) == tail);
        } else {
            Self::lemma_joined_shift(prefix.skip(1), v, tail);
            assert(longer.skip(1) =~= prefix.skip(1).push(v));
        }
    }

    /// A chain of one value.
    pub fn new(val: T) -> (n: Node<T>)
        ensures
            n@ == seq![val],
    {
        let n = Node::Content { value: val, next: Box::new(Node::Nil) };
        proof {
            Self::lemma_values_unfold(n);
            Self::lemma_values_unfold(Node::<T>::Nil);
        }
        n
    }

    /// The terminal marker: the empty chain.
    pub fn nil() -> (n: Node<T>)
        ensures
            n is Nil,
            n@ == Seq::<T>::empty(),
    {
        Node::Nil
    }

    /// Whether this node is the terminal marker.
    pub fn is_nil(&self) -> (b: bool)
        ensures
            b == (self is Nil),
            b == (self@.len() == 0),
    {
        proof {
            Self::lemma_values_unfold(*self);
        }
        match self {
            Node::Nil => true,
            _ => false,
        }
    }

    /// The successor, where there is one that holds a value. The terminal marker is
    /// never handed out: a node that ends its chain has no successor, and neither has
    /// the marker itself.
    pub fn next(&self) -> (r: Option<&Node<T>>)
        ensures
            r is Some <==> self@.len() >= 2,
            r matches Some(succ) ==> {
                &&& *succ == self.rest()
                &&& succ@ == self@.skip(1)
            },
    {
        proof {
            Self::lemma_values_unfold(*self);
        }
        match self {
            Node::Content { value: _, next } => {
                proof {
                    Self::lemma_values_unfold(**next);
                }
                if next.is_nil() {
                    None
                } else {
                    Some(&**next)
                }
            },
            Node::Nil => None,
        }
    }

    /// The successor, as `next` gives it, to be changed in place: what is done to it
    /// is done to the chain behind this node.
    pub fn next_mut(&mut self) -> (r: Option<&mut Node<T>>)
        ensures
            r is Some <==> old(self)@.len() >= 2,
            r matches Some(succ) ==> {
                &&& *succ == old(self).rest()
                &&& succ@ == old(self)@.skip(1)
                &&& *final(self) == old(self).with_next(*final(succ))
            },
            r is None ==> *final(self) == *old(self),
    {
        proof {
            Self::lemma_values_unfold(*self);
        }
        match self {
            Node::Content { value: _, next } => {
                proof {
                    Self::lemma_values_unfold(**next);
                }
                if next.is_nil() {
                    None
                } else {
                    Some(&mut **next)
                }
            },
            Node::Nil => None,
        }
    }

    /// Puts `n` behind this node in place of whatever followed it. The value of this
    /// node stays. On the terminal marker nothing changes.
    pub fn set_next(&mut self, n: Node<T>)
        ensures
            *final(self) == old(self).with_next(n),
            final(self)@ == (if old(self)@.len() == 0 {
                Seq::<T>::empty()
            } else {
                seq![old(self)@[0]] + n@
            }),
    {
        match self {
            Node::Content { value: _, next } => {
                *next = Box::new(n);
            },
            Node::Nil => {},
        }
        proof {
            Self::lemma_values_unfold(*old(self));
            Self::lemma_values_unfold(*self);
        }
    }

    /// The value of this node; none on the terminal marker.
    pub fn get_value(&self) -> (r: Option<T>)
        ensures
            r == self.first(),
    {
        match self {
            Node::Content { value, next: _ } => Some(*value),
            Node::Nil => None,
        }
    }
}

} // verus!
