//! The text of a chain, for diagnostics.

use vstd::prelude::*;
use vstd::string::{to_string_from_display_ensures, StringExecFns};
use crate::node::Node;

verus! {

/// The text of a chain whose values read as `labels`: the marker `nil` for the end
/// of the chain, and for a node its label, an arrow and the text of what follows,
/// in square brackets.
pub open spec fn chain_text(labels: Seq<String>) -> Seq<char>
    decreases labels.len(),
{
    if labels.len() == 0 {
        "nil"@
    } else {
        "[ "@ + labels[0]@ + " -> "@ + chain_text(labels.skip(1)) + "]"@
    }
}

/// Whether each of `labels` is what its value of `values` displays as.
pub open spec fn displayed<T: core::fmt::Display>(values: Seq<T>, labels: Seq<String>) -> bool {
    &&& labels.len() == values.len()
    &&& forall|i: int|
        0 <= i < values.len() ==> to_string_from_display_ensures::<T>(
            &#[trigger] values[i],
            labels[i],
        )
}

/// Whether `text` is the text of a chain that holds `values`.
pub open spec fn renders<T: core::fmt::Display>(values: Seq<T>, text: Seq<char>) -> bool {
    exists|labels: Seq<String>| #[trigger] displayed(values, labels) && text == chain_text(labels)
}

impl<T: Copy + core::fmt::Display> Node<T> {
    /// The text of the chain, with the labels that went into it.
    fn render_labelled(&self) -> (r: (String, Ghost<Seq<String>>))
        ensures
            displayed(self@, r.1@),
            r.0@ == chain_text(r.1@),
        decreases self,
    {
        proof {
            Self::lemma_values_unfold(*self);
        }
        match self {
            Node::Nil => ("nil".to_owned(), Ghost(Seq::empty())),
            Node::Content { value, next } => {
                let shown = value.to_string();
                let (rest, Ghost(behind)) = next.render_labelled();
                let mut text = "[ ".to_owned();
                text.append(shown.as_str());
                text.append(" -> ");
                text.append(rest.as_str());
                text.append("]");
                let ghost labels = seq![shown] + behind;
                proof {
                    assert(labels.skip(1) =~= behind);
                    assert forall|i: int| 0 <= i < self@.len() implies to_string_from_display_ensures::<
                        T,
                    >(&#[trigger] self@[i], labels[i]) by {
                        if i > 0 {
                            assert(self@[i] == next@[i - 1]);
                        }
                    }
                }
                (text, Ghost(labels))
            },
        }
    }

    /// The chain as text, such as `[ 1 -> [ 2 -> nil]]`.
    pub fn render(&self) -> (text: String)
        ensures
            renders(self@, text@),
    {
        let (text, Ghost(labels)) = self.render_labelled();
        text
    }
}

} // verus!
