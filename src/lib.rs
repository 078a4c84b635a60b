//! Iterator adaptors over overlapping pairs of elements.
//!
//! `AdjacentPairs` turns `a0, a1, ..., an` into `(a0, a1), (a1, a2), ..., (a(n-1), an)`;
//! `CyclicAdjacentPairs` adds the closing pair `(an, a0)`.
//!
//! Both adaptors are modelled by the "walk": the elements that are still to be
//! paired, in order. Each call of `next` takes one step on the walk, as stated
//! in `pair_walk`.

pub mod adjacent_pair;
pub mod cyclic_adjacent_pair;
pub mod pair_walk;

pub use crate::adjacent_pair::{AdjacentPairIterator, AdjacentPairs};
pub use crate::cyclic_adjacent_pair::{CyclicAdjacentPairIterator, CyclicAdjacentPairs};
