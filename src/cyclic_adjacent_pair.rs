//! The adaptor over overlapping pairs that closes the ring: `a0, a1, a2` gives
//! `(a0, a1), (a1, a2), (a2, a0)`.

use vstd::prelude::*;
use vstd::std_specs::iter::IteratorSpec;

use crate::pair_walk::{cyclic_step, option_seq};

verus! {

/// Yields each element of the source paired with the one after it, and then
/// the last element paired with the first.
///
/// Before the first pair the walk of the adaptor (see `walk_with`) is what the
/// source has still to give. Once started, it is the element held over from
/// the previous step, then what the source has still to give, then the kept
/// first element if the closing pair has not been produced yet.
#[must_use]
#[verifier::reject_recursive_types(A)]
pub struct CyclicAdjacentPairs<I, A> where I: Iterator<Item = A>, A: Clone {
    iterator: I,
    prev_item: Option<A>,
    first_item: Option<A>,
}

impl<I, A> CyclicAdjacentPairs<I, A> where I: Iterator<Item = A>, A: Clone {
    /// The source iterator, as it stands.
    pub closed spec fn source(&self) -> I {
        self.iterator
    }

    /// The element held over from the previous step, to lead the next pair.
    pub closed spec fn previous(&self) -> Option<A> {
        self.prev_item
    }

    /// The kept first element, to close the ring.
    pub closed spec fn first(&self) -> Option<A> {
        self.first_item
    }

    /// Whether a pair has been produced since the adaptor was built or last
    /// ran dry.
    pub open spec fn started(&self) -> bool {
        self.previous() is Some
    }

    /// The elements still to be walked, given what the source has still to give.
    pub open spec fn walk_with(&self, rem: Seq<A>) -> Seq<A> {
        if self.started() {
            option_seq(self.previous()) + rem + option_seq(self.first())
        } else {
            rem
        }
    }

    /// Takes ownership of `iterator`; nothing is drawn from it yet.
    pub fn new(iterator: I) -> (r: CyclicAdjacentPairs<I, A>)
        ensures
            r.source() == iterator,
            r.previous() is None,
            r.first() is None,
    {
        CyclicAdjacentPairs { iterator, prev_item: None, first_item: None }
    }

    /// Produces the next pair, the closing pair after the ordinary ones, or
    /// `None` once the walk is done; from then on every call gives `None`.
    pub fn next(&mut self) -> (r: Option<(A, A)>)
        ensures
            IteratorSpec::obeys_prophetic_iter_laws(&final(self).source())
                == IteratorSpec::obeys_prophetic_iter_laws(&old(self).source()),
            IteratorSpec::obeys_prophetic_iter_laws(&old(self).source()) ==> cyclic_step(
                old(self).started(),
                old(self).walk_with(IteratorSpec::remaining(&old(self).source())),
                r,
                final(self).walk_with(IteratorSpec::remaining(&final(self).source())),
            ),
            final(self).started() <==> r is Some,
    {
        let (prev_item, current_item) = match (self.prev_item.take(), self.iterator.next()) {
            (Some(prev), Some(current)) => (prev, current),
            (Some(prev), None) => match self.first_item.take() {
                Some(first) => (prev, first),
                None => return None,
            },
            (None, Some(current)) => {
                let next = match self.iterator.next() {
                    Some(item) => item,
                    None => return None,
                };
                self.first_item = Some(current.clone());
                (current, next)
            },
            (None, None) => return None,
        };
        self.prev_item = Some(current_item.clone());
        proof {
            if IteratorSpec::obeys_prophetic_iter_laws(&old(self).iterator) {
                let w = old(self).walk_with(IteratorSpec::remaining(&old(self).iterator));
                let rest = self.walk_with(IteratorSpec::remaining(&self.iterator));
                if old(self).started() {
                    assert(rest.drop_first() =~= w.skip(2));
                } else {
                    assert(rest.subrange(1, w.len() - 1) =~= w.skip(2));
                }
            }
        }
        Some((prev_item, current_item))
    }
}

/// Builds a `CyclicAdjacentPairs` over an iterator, as a method of that iterator.
pub trait CyclicAdjacentPairIterator {
    type Item: Clone;

    type Iterator: Iterator<Item = Self::Item>;

    /// The source that `cyclic_adjacent_pairs` hands to the adaptor.
    spec fn ring_source(self) -> Self::Iterator;

    fn cyclic_adjacent_pairs(self) -> (r: CyclicAdjacentPairs<Self::Iterator, Self::Item>)
        ensures
            r.source() == self.ring_source(),
            r.previous() is None,
            r.first() is None,
    ;
}

impl<I> CyclicAdjacentPairIterator for I where I: Iterator, I::Item: Clone {
    type Item = I::Item;

    type Iterator = Self;

    open spec fn ring_source(self) -> Self {
        self
    }

    fn cyclic_adjacent_pairs(self) -> (r: CyclicAdjacentPairs<Self::Iterator, Self::Item>) {
        CyclicAdjacentPairs::new(self)
    }
}

} // verus!
