//! The history itself: commits go in at the head, reads step back from it.

use crate::decimal::{decimal, push_decimal};
use crate::node::Node;
use std::rc::Rc;
use vstd::prelude::*;

verus! {

/// Why a read of the history failed.
#[derive(PartialEq, Eq, Structural, Debug)]
pub enum Error {
    /// The read asked for an entry further back than the history goes. The
    /// first number is how many entries the chain holds, the second how many
    /// steps back were asked for.
    NotEnoughElements(usize, usize),
}

impl Error {
    /// The sentence that states this error, with both counts in decimal.
    pub open spec fn message_text(&self) -> Seq<char> {
        match self {
            Error::NotEnoughElements(have, asked) => "Chain only have "@ + decimal(*have as nat)
                + " elements, requested "@ + decimal(*asked as nat) + "."@,
        }
    }

    /// The sentence that states this error, ready to be shown.
    pub fn message(&self) -> (text: String)
        ensures
            text@ == self.message_text(),
    {
        match self {
            Error::NotEnoughElements(have, asked) => {
                let mut text = String::from_str("Chain only have ");
                push_decimal(&mut text, *have);
                text.append(" elements, requested ");
                push_decimal(&mut text, *asked);
                text.append(".");
                text
            },
        }
    }
}

/// A history of committed values. It only grows: a commit adds a newest
/// entry, and nothing is ever taken out or changed.
///
/// A chain is viewed as the sequence of its values in the order of their
/// commits, oldest first; every contract below speaks of that sequence.
pub struct Chain<T: Copy> {
    /// The oldest entry. Nothing reads it; it is the far end of the links.
    root: Option<Rc<Node<T>>>,
    /// The newest entry.
    head: Option<Rc<Node<T>>>,
    /// How many entries there are.
    size: usize,
}

impl<T: Copy> View for Chain<T> {
    type V = Seq<T>;

    open spec fn view(&self) -> Seq<T> {
        match self.head() {
            None => Seq::empty(),
            Some(newest) => newest@,
        }
    }
}

/// A new handle to the entry that `handle` refers to, if it refers to one.
fn share<T: Copy>(handle: &Option<Rc<Node<T>>>) -> (shared: Option<Rc<Node<T>>>)
    ensures
        shared == *handle,
{
    match handle {
        None => None,
        Some(entry) => Some(Rc::clone(entry)),
    }
}

impl<T: Copy> Chain<T> {
    /// The newest entry, or `None` in an empty chain.
    pub closed spec fn head(&self) -> Option<Rc<Node<T>>> {
        self.head
    }

    /// The oldest entry, or `None` in an empty chain.
    pub closed spec fn root(&self) -> Option<Rc<Node<T>>> {
        self.root
    }

    /// The count that the chain keeps of its entries.
    pub closed spec fn spec_size(&self) -> usize {
        self.size
    }

    /// What holds of every chain at all times. An empty chain has neither
    /// head nor root, and size zero. Otherwise the size is the number of
    /// entries that hang off the head, itself included, and the root is the
    /// last of them: following the links from the head exactly `size - 1`
    /// times arrives there.
    #[verifier::type_invariant]
    pub open spec fn wf(&self) -> bool {
        match self.head() {
            None => self.size() == 0 && self.root() is None,
            Some(newest) => {
                &&& self.size() == newest@.len()
                &&& self.root() matches Some(oldest)
                &&& newest.ancestor((self.size() - 1) as nat) == Some(*oldest)
            },
        }
    }

    /// What reading the head of a chain that holds `history` gives: the
    /// newest value, or nothing when nothing was committed.
    pub open spec fn head_of(history: Seq<T>) -> Option<T> {
        if history.len() == 0 {
            None
        } else {
            Some(history.last())
        }
    }

    /// What reading `by` steps behind the head of a chain that holds
    /// `history` gives: the value at that depth, or the error when the
    /// history is not that deep.
    pub open spec fn older_of(history: Seq<T>, by: usize) -> Result<T, Error> {
        if by < history.len() {
            Ok(history[history.len() - 1 - by])
        } else {
            Err(Error::NotEnoughElements(history.len() as usize, by))
        }
    }

    /// What a chain that held `history` holds once `values` have been
    /// committed to it one by one, in their order.
    pub open spec fn after_commits(history: Seq<T>, values: Seq<T>) -> Seq<T>
        decreases values.len(),
    {
        if values.len() == 0 {
            history
        } else {
            Self::after_commits(history, values.drop_last()).push(values.last())
        }
    }

    /// An empty chain. Reading its head gives nothing, and reading at any
    /// depth fails.
    pub fn new() -> (chain: Self)
        ensures
            chain@ == Seq::<T>::empty(),
            chain.head() is None,
            chain.root() is None,
            chain.size() == 0,
            Self::head_of(chain@) == None::<T>,
            Self::older_of(chain@, 0) == Err::<T, Error>(Error::NotEnoughElements(0, 0)),
    {
        Chain { root: None, head: None, size: 0 }
    }

    /// The number of values committed so far.
    #[verifier::when_used_as_spec(spec_size)]
    pub fn size(&self) -> (size: usize)
        ensures
            size == self.spec_size(),
            size == self@.len(),
    {
        proof {
            use_type_invariant(self);
        }
        self.size
    }

    /// Appends `value` as the newest entry. The entries committed earlier
    /// stay as they are, each one step further from the head.
    ///
    /// The new entry follows the old head and becomes the head. It also
    /// becomes the root when the chain was empty; otherwise the root stays.
    ///
    /// The count of entries must have room for one more.
    pub fn commit(&mut self, value: T)
        requires
            old(self)@.len() < usize::MAX,
        ensures
            final(self)@ == old(self)@.push(value),
            final(self)@.len() == old(self)@.len() + 1,
            final(self).size() == old(self).size() + 1,
            Self::head_of(final(self)@) == Some(value),
            final(self).head() matches Some(newest) && newest.value() == value
                && newest.get_parent() == old(self).head(),
            old(self)@.len() == 0 ==> final(self).root() == final(self).head(),
            old(self)@.len() > 0 ==> final(self).root() == old(self).root(),
    {
        proof {
            use_type_invariant(&*self);
        }
        let node = Rc::new(Node::new(share(&self.head), value));
        let root = if self.size == 0 {
            Some(Rc::clone(&node))
        } else {
            share(&self.root)
        };
        *self = Chain { root, head: Some(node), size: self.size + 1 };
    }

    /// The newest value, or `None` while nothing has been committed. On a
    /// chain that holds something this is what `get_older(0)` reads; on an
    /// empty one `get_older(0)` fails, and only this read answers quietly.
    pub fn get_head(&self) -> (head: Option<T>)
        ensures
            head == Self::head_of(self@),
            head is Some <==> self@.len() > 0,
            head matches Some(newest) ==> Self::older_of(self@, 0) == Ok::<T, Error>(newest),
    {
        match &self.head {
            None => None,
            Some(newest) => Some(newest.value()),
        }
    }

    /// The value committed `by` steps before the newest one: `0` reads the
    /// newest, `1` the one before it, and so on. It is found by walking back
    /// from the head, one link per step.
    ///
    /// Fails when the chain holds `by` entries or fewer, which includes
    /// every read of an empty chain.
    pub fn get_older(&self, by: usize) -> (found: Result<T, Error>)
        ensures
            found == Self::older_of(self@, by),
            self@.len() <= usize::MAX,
            by < self@.len() ==> found == Ok::<T, Error>(self@[self@.len() - 1 - by]),
            by >= self@.len() ==> found == Err::<T, Error>(
                Error::NotEnoughElements(self@.len() as usize, by),
            ),
    {
        proof {
            use_type_invariant(self);
        }
        if by >= self.size {
            return Err(Error::NotEnoughElements(self.size, by));
        }
        let mut i: usize = by;
        let mut node = share(&self.head);
        while i >= 1
            invariant
                i <= by < self@.len(),
                node matches Some(reached) && reached@ == self@.take(self@.len() - (by - i)),
            decreases i,
        {
            let parent = node.unwrap().get_parent();
            node = parent;
            i -= 1;
        }
        Ok(node.unwrap().value())
    }

    /// What the invariant comes to. The size is the number of values held.
    /// A chain is empty exactly when it has neither head nor root. In a
    /// chain that holds something the root is the oldest entry: it holds
    /// the value committed first and nothing comes before it.
    pub proof fn lemma_shape(chain: Self)
        requires
            chain.wf(),
        ensures
            chain.size() == chain@.len(),
            chain.size() == 0 <==> chain.head() is None && chain.root() is None,
            chain.head() is None <==> chain.root() is None,
            chain.root() matches Some(oldest) ==> oldest@ == seq![chain@[0]]
                && oldest.get_parent() is None,
    {
        if let Some(newest) = chain.head() {
            newest.lemma_ancestor_history((chain.size() - 1) as nat);
            let oldest = chain.root().unwrap();
            assert(oldest@ =~= seq![chain@[0]]);
            if let Some(before) = oldest.get_parent() {
                assert(before@.len() >= 1);
            }
        }
    }

    /// Commits pile up in order: a run of commits appends its values, as
    /// they came, to what the chain held before.
    pub proof fn lemma_commits_append(history: Seq<T>, values: Seq<T>)
        ensures
            Self::after_commits(history, values) == history + values,
        decreases values.len(),
    {
        if values.len() > 0 {
            Self::lemma_commits_append(history, values.drop_last());
        }
    }

    /// A commit takes nothing away: what was read `by` steps back before it
    /// is read `by + 1` steps back after it.
    pub proof fn lemma_commit_keeps_earlier(history: Seq<T>, value: T, by: usize)
        requires
            by < history.len() < usize::MAX,
        ensures
            Self::older_of(history.push(value), (by + 1) as usize) == Self::older_of(history, by),
    {
    }

    /// After one or more values have been committed to an empty chain, the
    /// head is the last of them, and a read `by` steps back gives the value
    /// that was committed `by` commits before the last, for every `by` below
    /// the number of commits.
    pub proof fn lemma_reads_after_commits(values: Seq<T>, by: usize)
        requires
            values.len() >= 1,
        ensures
            Self::head_of(Self::after_commits(Seq::empty(), values)) == Some(values.last()),
            by < values.len() ==> Self::older_of(Self::after_commits(Seq::empty(), values), by)
                == Ok::<T, Error>(values[values.len() - 1 - by]),
    {
        Self::lemma_commits_append(Seq::empty(), values);
    }

    /// A read is decided by what the chain holds and changes none of it: as
    /// long as nothing is committed in between, a repeated read gives what
    /// the first one gave, be it a value, nothing, or an error.
    pub proof fn lemma_reads_repeat(first: Self, again: Self, by: usize)
        requires
            again@ == first@,
        ensures
            Self::head_of(again@) == Self::head_of(first@),
            Self::older_of(again@, by) == Self::older_of(first@, by),
    {
    }
}

impl<T: Copy> Default for Chain<T> {
    /// An empty chain, as `new` gives.
    fn default() -> (chain: Self)
        ensures
            chain@ == Seq::<T>::empty(),
    {
        Self::new()
    }
}

} // verus!
