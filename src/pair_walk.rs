//! The mathematical model shared by both adaptors.
//!
//! A walk is the sequence of elements that are still to be paired. One step on
//! a walk of two or more elements yields its first two elements as a pair and
//! leaves the walk without its first element, where the new head is a clone of
//! the element that was second. On a shorter walk a step yields nothing and
//! leaves nothing.

use vstd::prelude::*;

verus! {

/// One production step: `out` is what the step returns and `rest` is the walk
/// that it leaves, starting from the walk `w`.
pub open spec fn pair_step<A: Clone>(w: Seq<A>, out: Option<(A, A)>, rest: Seq<A>) -> bool {
    if w.len() >= 2 {
        &&& out == Some((w[0], w[1]))
        &&& rest.len() == w.len() - 1
        &&& cloned(w[1], rest[0])
        &&& rest.drop_first() == w.skip(2)
    } else {
        &&& out is None
        &&& rest.len() == 0
    }
}

/// The first step of the cyclic adaptor: as `pair_step`, but a clone of the
/// first element is kept at the end of the walk that is left, so that the last
/// pair closes the ring.
pub open spec fn ring_start_step<A: Clone>(w: Seq<A>, out: Option<(A, A)>, rest: Seq<A>) -> bool {
    if w.len() >= 2 {
        &&& out == Some((w[0], w[1]))
        &&& rest.len() == w.len()
        &&& cloned(w[1], rest[0])
        &&& rest.subrange(1, w.len() - 1) == w.skip(2)
        &&& cloned(w[0], rest.last())
    } else {
        &&& out is None
        &&& rest.len() == 0
    }
}

/// A step of the cyclic adaptor: the first step of a ring when it has not
/// started, an ordinary step once it has.
pub open spec fn cyclic_step<A: Clone>(
    started: bool,
    w: Seq<A>,
    out: Option<(A, A)>,
    rest: Seq<A>,
) -> bool {
    if started {
        pair_step(w, out, rest)
    } else {
        ring_start_step(w, out, rest)
    }
}

/// The sequence that holds the one value of `o`, or nothing.
pub open spec fn option_seq<A>(o: Option<A>) -> Seq<A> {
    match o {
        Some(x) => seq![x],
        None => Seq::empty(),
    }
}

/// Walking a sequence `e` to the end with the non-cyclic step: with `n` the
/// length of `e`, the first `n - 1` steps (none, where `n` is 0 or 1) each yield
/// a pair, the `j`-th made of (a clone of) `e[j]` and `e[j + 1]`, the very first
/// being exactly `(e[0], e[1])`; every step after those yields nothing, however
/// many are taken.
pub proof fn lemma_adjacent_run<A: Clone>(
    e: Seq<A>,
    walks: Seq<Seq<A>>,
    outs: Seq<Option<(A, A)>>,
)
    requires
        walks.len() == outs.len() + 1,
        walks[0] == e,
        forall|j: int| 0 <= j < outs.len() ==> pair_step(walks[j], #[trigger] outs[j], walks[j + 1]),
    ensures
        forall|j: int| 0 <= j < outs.len() ==> (#[trigger] outs[j] is Some <==> j + 1 < e.len()),
        forall|j: int|
            0 <= j < outs.len() && j + 1 < e.len() ==> {
                let (left, right) = (#[trigger] outs[j])->0;
                cloned(e[j], left) && right == e[j + 1]
            },
        outs.len() > 0 && e.len() >= 2 ==> outs[0] == Some((e[0], e[1])),
{
    lemma_adjacent_walks(e, walks, outs, outs.len() as int);
    assert forall|j: int| 0 <= j < outs.len() implies (#[trigger] outs[j] is Some <==> j + 1 < e.len()) by {
        lemma_adjacent_walks(e, walks, outs, j);
        assert(pair_step(walks[j], outs[j], walks[j + 1]));
    }
    assert forall|j: int| 0 <= j < outs.len() && j + 1 < e.len() implies {
        let (left, right) = (#[trigger] outs[j])->0;
        cloned(e[j], left) && right == e[j + 1]
    } by {
        lemma_adjacent_walks(e, walks, outs, j);
        assert(pair_step(walks[j], outs[j], walks[j + 1]));
        assert(walks[j].drop_first()[0] == e.skip(j + 1)[0]);
    }
    if outs.len() > 0 && e.len() >= 2 {
        assert(pair_step(walks[0], outs[0], walks[1]));
    }
}

/// The shape of the walk after `k` non-cyclic steps from `e`.
proof fn lemma_adjacent_walks<A: Clone>(
    e: Seq<A>,
    walks: Seq<Seq<A>>,
    outs: Seq<Option<(A, A)>>,
    k: int,
)
    requires
        walks.len() == outs.len() + 1,
        walks[0] == e,
        forall|j: int| 0 <= j < outs.len() ==> pair_step(walks[j], #[trigger] outs[j], walks[j + 1]),
        0 <= k <= outs.len(),
    ensures
        walks[k].len() == if k < e.len() { e.len() - k } else { 0 },
        k < e.len() ==> walks[k].drop_first() == e.skip(k + 1),
        k < e.len() ==> cloned(e[k], walks[k][0]),
    decreases k,
{
    if k > 0 {
        lemma_adjacent_walks(e, walks, outs, k - 1);
        assert(pair_step(walks[k - 1], outs[k - 1], walks[k]));
        if k < e.len() {
            assert(walks[k - 1].drop_first()[0] == e.skip(k)[0]);
            let prev = walks[k - 1];
            assert forall|i: int| 0 <= i < e.len() - (k + 1) implies #[trigger] prev.skip(2)[i]
                == e.skip(k + 1)[i] by {
                assert(prev.drop_first()[i + 1] == e.skip(k)[i + 1]);
            }
            assert(prev.skip(2) =~= e.skip(k + 1));
            assert(walks[k].drop_first() =~= e.skip(k + 1));
        }
    }
}

/// Walking a sequence `e` to the end with the cyclic steps, from an adaptor
/// that has not started: with `n` the length of `e`, where `n` is at least 2 the
/// first `n` steps each yield a pair, the `j`-th made of (a clone of) `e[j]` and
/// (a clone of) `e[(j + 1) % n]`, the very first being exactly `(e[0], e[1])`
/// and every right element but the closing one being exactly `e[j + 1]`; where
/// `n` is 0 or 1 no step yields a pair; every step after those yields nothing,
/// however many are taken.
pub proof fn lemma_cyclic_run<A: Clone>(
    e: Seq<A>,
    started: Seq<bool>,
    walks: Seq<Seq<A>>,
    outs: Seq<Option<(A, A)>>,
)
    requires
        walks.len() == outs.len() + 1,
        started.len() == walks.len(),
        walks[0] == e,
        !started[0],
        forall|j: int|
            0 <= j < outs.len() ==> {
                &&& cyclic_step(started[j], walks[j], #[trigger] outs[j], walks[j + 1])
                &&& started[j + 1] == (outs[j] is Some)
            },
    ensures
        forall|j: int| 0 <= j < outs.len() ==> (#[trigger] outs[j] is Some <==> e.len() >= 2 && j < e.len()),
        forall|j: int|
            0 <= j < outs.len() && e.len() >= 2 && j < e.len() ==> {
                let (left, right) = (#[trigger] outs[j])->0;
                cloned(e[j], left) && cloned(e[(j + 1) % (e.len() as int)], right)
            },
        forall|j: int|
            0 <= j < outs.len() && j + 1 < e.len() ==> {
                let (left, right) = (#[trigger] outs[j])->0;
                right == e[j + 1]
            },
        outs.len() > 0 && e.len() >= 2 ==> outs[0] == Some((e[0], e[1])),
{
    if outs.len() > 0 {
        let n = e.len() as int;
        assert(cyclic_step(started[0], walks[0], outs[0], walks[1]));
        let f = walks[1];
        let walks1 = walks.skip(1);
        let outs1 = outs.skip(1);
        assert forall|k: int| 0 <= k < outs1.len() implies pair_step(
            walks1[k],
            #[trigger] outs1[k],
            walks1[k + 1],
        ) by {
            assert(cyclic_step(started[k + 1], walks[k + 1], outs[k + 1], walks[k + 2]));
            assert(cyclic_step(started[k], walks[k], outs[k], walks[k + 1]));
        }
        lemma_adjacent_run(f, walks1, outs1);
        assert forall|j: int| 0 <= j < outs.len() implies (#[trigger] outs[j] is Some <==> n >= 2
            && j < n) by {
            if j > 0 {
                assert(outs[j] == outs1[j - 1]);
            }
        }
        assert forall|j: int| 0 <= j < outs.len() && n >= 2 && j < n implies {
            let (left, right) = (#[trigger] outs[j])->0;
            cloned(e[j], left) && cloned(e[(j + 1) % n], right)
        } by {
            if j == 0 {
                assert((j + 1) % n == 1) by (nonlinear_arith)
                    requires
                        j == 0,
                        n >= 2,
                ;
            } else {
                assert(outs[j] == outs1[j - 1]);
                if j + 1 < n {
                    assert((j + 1) % n == j + 1) by (nonlinear_arith)
                        requires
                            0 < j + 1 < n,
                    ;
                    assert(f.subrange(1, n - 1)[j - 1] == e.skip(2)[j - 1]);
                    if j >= 2 {
                        assert(f.subrange(1, n - 1)[j - 2] == e.skip(2)[j - 2]);
                    }
                } else {
                    assert((j + 1) % n == 0) by (nonlinear_arith)
                        requires
                            j + 1 == n,
                            n >= 2,
                    ;
                    if j >= 2 {
                        assert(f.subrange(1, n - 1)[j - 2] == e.skip(2)[j - 2]);
                    }
                }
            }
        }
        assert forall|j: int| 0 <= j < outs.len() && j + 1 < n implies {
            let (left, right) = (#[trigger] outs[j])->0;
            right == e[j + 1]
        } by {
            if j > 0 {
                assert(outs[j] == outs1[j - 1]);
                assert(f.subrange(1, n - 1)[j - 1] == e.skip(2)[j - 1]);
            }
        }
    }
}

} // verus!
