//! Quick-Find: every entry names its group's representative directly.

use vstd::prelude::*;
use crate::strategy::{merged, AlgorithmContainer, Connected, Find, Union};
use crate::vertex::{parents, position, VertexType};

verus! {

/// [`QuickFind`] algorithm. With `IS_SLICE` the representative array is
/// borrowed from the caller, without it the engine owns an array.
#[derive(Debug, Default)]
pub struct QuickFind<const IS_SLICE: bool>;

impl<'a, T: VertexType + 'a, const N: usize> AlgorithmContainer<'a, T, N> for QuickFind<false> {
    type HeuristicContainer = [usize; 0];

    type RepresentativeContainer = [T; N];
}

impl<'a, T: VertexType + 'a, const N: usize> AlgorithmContainer<'a, T, N> for QuickFind<true> {
    type HeuristicContainer = [usize; 0];

    type RepresentativeContainer = &'a mut [T];
}

/// Every entry names a position, and the entry at that position is the same
/// entry again: the members of a group all hold their representative's own
/// entry.
pub open spec fn flat<T: VertexType>(rep: Seq<T>) -> bool {
    forall|i: int|
        0 <= i < rep.len() ==> {
            &&& 0 <= position(#[trigger] rep[i]) < rep.len()
            &&& rep[position(rep[i])] == rep[i]
        }
}

/// `rep` with every entry that names the position of `from` replaced by `to`;
/// `rep` itself where the two name one position.
pub open spec fn repainted<T: VertexType>(rep: Seq<T>, from: T, to: T) -> Seq<T> {
    if position(from) == position(to) {
        rep
    } else {
        Seq::new(
            rep.len(),
            |i: int|
                if position(rep[i]) == position(from) {
                    to
                } else {
                    rep[i]
                },
        )
    }
}

impl<T, const IS_SLICE: bool> Find<T> for QuickFind<IS_SLICE> where T: VertexType {
    open spec fn valid(rep: Seq<T>) -> bool {
        flat(rep)
    }

    open spec fn partition(rep: Seq<T>) -> Seq<int> {
        parents(rep)
    }

    open spec fn searched(rep: Seq<T>, a: int) -> Seq<T> {
        rep
    }

    proof fn lemma_searched(rep: Seq<T>, a: int) {
    }

    fn find(representative: &mut [T], a: T::IdentifierType) -> (r: T) {
        representative[T::usize(a)]
    }
}

impl<T, const IS_SLICE: bool> Connected<T> for QuickFind<IS_SLICE> where T: VertexType {
    fn connected(representative: &mut [T], a: T::IdentifierType, b: T::IdentifierType) -> (r:
        bool) {
        let root_a = Self::find(representative, a);
        let root_b = Self::find(representative, b);
        T::usize(root_a.id()) == T::usize(root_b.id())
    }
}

impl<T, const IS_SLICE: bool> Union<T> for QuickFind<IS_SLICE> where T: VertexType {
    /// The heuristic array is not used.
    open spec fn weighted(rep: Seq<T>, heur: Seq<usize>) -> bool {
        true
    }

    proof fn lemma_searched_weighted(rep: Seq<T>, heur: Seq<usize>, a: int) {
    }

    open spec fn survivor(rep: Seq<T>, heur: Seq<usize>, a: int, b: int) -> int {
        position(rep[b])
    }

    open spec fn united(rep: Seq<T>, heur: Seq<usize>, a: int, b: int) -> (Seq<T>, Seq<usize>) {
        (repainted(rep, rep[a], rep[b]), heur)
    }

    proof fn lemma_survivor(rep: Seq<T>, heur: Seq<usize>, a: int, b: int) {
    }

    fn union_sets(
        representative: &mut [T],
        heuristic: &mut [usize],
        a: T::IdentifierType,
        b: T::IdentifierType,
    ) {
        let ghost before = representative@;
        let root_a = Self::find(representative, a);
        let root_b = Self::find(representative, b);
        let from: usize = T::usize(root_a.id());
        let to: usize = T::usize(root_b.id());
        if from != to {
            let n: usize = representative.len();
            let mut i: usize = 0;
            while i < n
                invariant
                    i <= n,
                    n == before.len(),
                    representative@.len() == n,
                    from == position(root_a),
                    from != position(root_b),
                    forall|j: int|
                        0 <= j < i ==> #[trigger] representative@[j] == repainted(
                            before,
                            root_a,
                            root_b,
                        )[j],
                    forall|j: int| i <= j < n ==> #[trigger] representative@[j] == before[j],
                decreases n - i,
            {
                if T::usize(representative[i].id()) == from {
                    representative[i] = root_b;
                }
                i += 1;
            }
            assert(representative@ =~= repainted(before, root_a, root_b));
        }
        proof {
            let after = representative@;
            let pa = T::spec_usize(a) as int;
            let pb = T::spec_usize(b) as int;
            assert(parents(after) =~= merged(parents(before), pa, pb, position(root_b)));
            assert forall|i: int| 0 <= i < after.len() implies {
                &&& 0 <= position(#[trigger] after[i]) < after.len()
                &&& after[position(after[i])] == after[i]
            } by {
                assert(before[position(before[i])] == before[i]);
                assert(before[position(before[pb])] == before[pb]);
            }
        }
    }
}

} // verus!
