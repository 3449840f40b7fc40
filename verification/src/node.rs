//! The linked cells that a history is built from.

use std::rc::Rc;
use vstd::prelude::*;

verus! {

/// One entry of a history: a value and a shared handle to the entry that was
/// committed just before it. An entry is never changed once it is built, so
/// any number of newer entries and owners may hold handles to it.
pub struct Node<T: Copy> {
    value: T,
    predecessor: Option<Rc<Node<T>>>,
}

impl<T: Copy> Node<T> {
    /// The value stored in this entry.
    pub closed spec fn spec_value(&self) -> T {
        self.value
    }

    /// The entry before this one; `None` for the oldest entry of a history.
    pub closed spec fn spec_get_parent(&self) -> Option<Rc<Node<T>>> {
        self.predecessor
    }

    /// The values from the oldest entry up to and including this one.
    pub open spec fn history(&self) -> Seq<T>
        decreases self,
    {
        match self.get_parent() {
            None => seq![self.value()],
            Some(before) => before.history().push(self.value()),
        }
    }

    /// The entry reached by following the predecessor link `steps` times,
    /// or `None` when the links end earlier.
    pub open spec fn ancestor(&self, steps: nat) -> Option<Node<T>>
        decreases steps,
    {
        if steps == 0 {
            Some(*self)
        } else {
            match self.get_parent() {
                None => None,
                Some(before) => before.ancestor((steps - 1) as nat),
            }
        }
    }

    /// The links behind an entry are as many as its history is long: each
    /// step back drops the newest value that is left, until the oldest
    /// entry is reached, and behind that one there is nothing.
    pub proof fn lemma_ancestor_history(&self, steps: nat)
        ensures
            steps < self@.len() ==> (self.ancestor(steps) matches Some(reached) && reached@
                == self@.take(self@.len() - steps)),
            steps >= self@.len() ==> self.ancestor(steps) is None,
        decreases steps,
    {
        if steps > 0 {
            match self.get_parent() {
                None => {},
                Some(before) => {
                    before.lemma_ancestor_history((steps - 1) as nat);
                    if steps < self@.len() {
                        assert(before@.take(self@.len() - steps) =~= self@.take(
                            self@.len() - steps,
                        ));
                    }
                },
            }
        } else {
            assert(self@.take(self@.len() as int) =~= self@);
        }
    }

    /// Builds the entry that follows `predecessor`, or a first entry when
    /// there is none.
    pub fn new(predecessor: Option<Rc<Node<T>>>, value: T) -> (node: Self)
        ensures
            node.value() == value,
            node.get_parent() == predecessor,
            node@ == match predecessor {
                None => seq![value],
                Some(before) => before@.push(value),
            },
    {
        Node { value, predecessor }
    }

    /// A copy of the value stored in this entry.
    #[verifier::when_used_as_spec(spec_value)]
    pub fn value(&self) -> (value: T)
        ensures
            value == self.spec_value(),
            value == self@.last(),
    {
        self.value
    }

    /// A new shared handle to the entry before this one, if there is one.
    #[verifier::when_used_as_spec(spec_get_parent)]
    pub fn get_parent(&self) -> (parent: Option<Rc<Node<T>>>)
        ensures
            parent == self.spec_get_parent(),
            parent is None <==> self@.len() == 1,
            parent matches Some(before) ==> before@ == self@.drop_last(),
    {
        match &self.predecessor {
            None => None,
            Some(before) => {
                assert(before.history().len() >= 1);
                Some(Rc::clone(before))
            },
        }
    }
}

impl<T: Copy> View for Node<T> {
    type V = Seq<T>;

    /// An entry stands for the history that ends with it.
    open spec fn view(&self) -> Seq<T> {
        self.history()
    }
}

} // verus!
