//! The adaptor over overlapping pairs: `a0, a1, a2` gives `(a0, a1), (a1, a2)`.

use vstd::prelude::*;
use vstd::std_specs::iter::IteratorSpec;

use crate::pair_walk::{option_seq, pair_step};

verus! {

/// Yields each element of the source paired with the one after it.
///
/// The walk of the adaptor (see `walk_with`) is the element held over from the
/// previous step, if any, followed by what the source has still to give.
#[must_use]
#[verifier::reject_recursive_types(A)]
pub struct AdjacentPairs<I, A> where I: Iterator<Item = A>, A: Clone {
    iterator: I,
    last_item: Option<A>,
}

impl<I, A> AdjacentPairs<I, A> where I: Iterator<Item = A>, A: Clone {
    /// The source iterator, as it stands.
    pub closed spec fn source(&self) -> I {
        self.iterator
    }

    /// The element held over from the previous step, to lead the next pair.
    pub closed spec fn pending(&self) -> Option<A> {
        self.last_item
    }

    /// The elements still to be paired, given what the source has still to give.
    pub open spec fn walk_with(&self, rem: Seq<A>) -> Seq<A> {
        option_seq(self.pending()) + rem
    }

    /// Takes ownership of `iterator`; nothing is drawn from it yet.
    pub fn new(iterator: I) -> (r: AdjacentPairs<I, A>)
        ensures
            r.source() == iterator,
            r.pending() is None,
    {
        AdjacentPairs { iterator, last_item: None }
    }

    /// Produces the next pair, or `None` once fewer than two elements are left
    /// to pair; from then on every call gives `None`.
    pub fn next(&mut self) -> (r: Option<(A, A)>)
        ensures
            IteratorSpec::obeys_prophetic_iter_laws(&final(self).source())
                == IteratorSpec::obeys_prophetic_iter_laws(&old(self).source()),
            IteratorSpec::obeys_prophetic_iter_laws(&old(self).source()) ==> pair_step(
                old(self).walk_with(IteratorSpec::remaining(&old(self).source())),
                r,
                final(self).walk_with(IteratorSpec::remaining(&final(self).source())),
            ),
    {
        let last_item = match self.last_item.take() {
            Some(item) => item,
            None => match self.iterator.next() {
                Some(item) => item,
                None => return None,
            },
        };
        let current_item = match self.iterator.next() {
            Some(item) => item,
            None => return None,
        };
        self.last_item = Some(current_item.clone());
        proof {
            if IteratorSpec::obeys_prophetic_iter_laws(&old(self).iterator) {
                assert(self.walk_with(IteratorSpec::remaining(&self.iterator)).drop_first() =~= old(
                    self,
                ).walk_with(IteratorSpec::remaining(&old(self).iterator)).skip(2));
            }
        }
        Some((last_item, current_item))
    }
}

/// Builds an `AdjacentPairs` over an iterator, as a method of that iterator.
pub trait AdjacentPairIterator {
    type Item: Clone;

    type Iterator: Iterator<Item = Self::Item>;

    /// The source that `adjacent_pairs` hands to the adaptor.
    spec fn pair_source(self) -> Self::Iterator;

    fn adjacent_pairs(self) -> (r: AdjacentPairs<Self::Iterator, Self::Item>)
        ensures
            r.source() == self.pair_source(),
            r.pending() is None,
    ;
}

impl<I> AdjacentPairIterator for I where I: Iterator, I::Item: Clone {
    type Item = I::Item;

    type Iterator = Self;

    open spec fn pair_source(self) -> Self {
        self
    }

    fn adjacent_pairs(self) -> (r: AdjacentPairs<Self::Iterator, Self::Item>) {
        AdjacentPairs::<Self::Iterator, Self::Item>::new(self)
    }
}

} // verus!
