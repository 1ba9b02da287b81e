//! What a strategy is: how it stores its arrays, and what its three
//! operations promise.

use vstd::prelude::*;
use crate::error::Error;
use crate::storage::Storage;
use crate::vertex::{position, VertexType};

verus! {

/// The storage that an algorithm uses for an engine of `N` elements of type
/// `T`: one container for the representatives and one for the heuristic.
pub trait AlgorithmContainer<'a, T: VertexType + 'a, const N: usize> {
    type HeuristicContainer: Storage<usize>;

    type RepresentativeContainer: Storage<T>;
}

/// Positions `a` and `b` are in one group of the partition `part`.
pub open spec fn same_group(part: Seq<int>, a: int, b: int) -> bool {
    part[a] == part[b]
}

/// The partition in which the groups of `a` and `b` have become one group,
/// with `s` as its representative.
pub open spec fn merged(part: Seq<int>, a: int, b: int, s: int) -> Seq<int> {
    Seq::new(
        part.len(),
        |i: int|
            if part[i] == part[a] || part[i] == part[b] {
                s
            } else {
                part[i]
            },
    )
}

/// From the partition `before` to the partition `after`, the groups of `a`
/// and `b` have become one group and nothing else has changed: two
/// positions are in one group after where they were before, or where each of
/// them was in the group of `a` or in that of `b`.
pub open spec fn unites(before: Seq<int>, after: Seq<int>, a: int, b: int) -> bool {
    &&& after.len() == before.len()
    &&& forall|x: int, y: int|
        0 <= x < before.len() && 0 <= y < before.len() ==> (#[trigger] same_group(after, x, y)
            <==> same_group(before, x, y) || ((same_group(before, x, a) || same_group(
            before,
            x,
            b,
        )) && (same_group(before, y, a) || same_group(before, y, b))))
}

/// Merging the groups of `a` and `b` under the representative of one of
/// them unites the two groups.
pub proof fn lemma_merged_unites(part: Seq<int>, a: int, b: int, s: int)
    requires
        0 <= a < part.len(),
        0 <= b < part.len(),
        s == part[a] || s == part[b],
    ensures
        unites(part, merged(part, a, b, s), a, b),
{
}

/// The lookup of a strategy, and the model that its contracts are stated
/// over.
pub trait Find<T: VertexType> {
    /// What the strategy needs of a representative array, and keeps.
    spec fn valid(rep: Seq<T>) -> bool;

    /// For each position, the position of its group's representative.
    spec fn partition(rep: Seq<T>) -> Seq<int>;

    /// The array that a lookup from position `a` leaves behind.
    spec fn searched(rep: Seq<T>, a: int) -> Seq<T>;

    /// The partition covers every position; a lookup keeps what the strategy
    /// needs, and the partition.
    proof fn lemma_searched(rep: Seq<T>, a: int)
        requires
            Self::valid(rep),
            0 <= a < rep.len(),
        ensures
            Self::partition(rep).len() == rep.len(),
            Self::searched(rep, a).len() == rep.len(),
            Self::valid(Self::searched(rep, a)),
            Self::partition(Self::searched(rep, a)) == Self::partition(rep),
    ;

    /// The representative of the group of `a`: the entry at the position that
    /// the partition gives for `a`. The partition stays as it was.
    fn find(representative: &mut [T], a: T::IdentifierType) -> (r: T)
        requires
            Self::valid(old(representative)@),
            T::spec_usize(a) < old(representative)@.len(),
        ensures
            position(r) == Self::partition(old(representative)@)[T::spec_usize(a) as int],
            0 <= position(r) < old(representative)@.len(),
            r == final(representative)@[position(r)],
            final(representative)@ == Self::searched(old(representative)@, T::spec_usize(a) as int),
            final(representative)@.len() == old(representative)@.len(),
            Self::valid(final(representative)@),
            Self::partition(final(representative)@) == Self::partition(old(representative)@),
    ;

    /// [`Self::find`], for an identifier that need not name a position of
    /// the array: one that does not is reported, and the array is neither
    /// read nor written.
    fn try_find(representative: &mut [T], a: T::IdentifierType) -> (r: Result<T, Error>)
        requires
            Self::valid(old(representative)@),
        ensures
            final(representative)@.len() == old(representative)@.len(),
            Self::valid(final(representative)@),
            Self::partition(final(representative)@) == Self::partition(old(representative)@),
            match r {
                Ok(v) => {
                    &&& T::spec_usize(a) < old(representative)@.len()
                    &&& position(v) == Self::partition(old(representative)@)[T::spec_usize(
                        a,
                    ) as int]
                    &&& 0 <= position(v) < old(representative)@.len()
                    &&& v == final(representative)@[position(v)]
                    &&& final(representative)@ == Self::searched(
                        old(representative)@,
                        T::spec_usize(a) as int,
                    )
                },
                Err(e) => {
                    &&& e == Error::OutOfRange
                    &&& T::spec_usize(a) >= old(representative)@.len()
                    &&& final(representative)@ == old(representative)@
                },
            },
    {
        if T::usize(a) >= representative.len() {
            return Err(Error::OutOfRange);
        }
        Ok(Self::find(representative, a))
    }
}

/// The connectivity test of a strategy.
pub trait Connected<T: VertexType>: Find<T> {
    /// Whether `a` and `b` are in one group. The array is left as the two
    /// lookups leave it.
    fn connected(representative: &mut [T], a: T::IdentifierType, b: T::IdentifierType) -> (r:
        bool)
        requires
            Self::valid(old(representative)@),
            T::spec_usize(a) < old(representative)@.len(),
            T::spec_usize(b) < old(representative)@.len(),
        ensures
            r == same_group(
                Self::partition(old(representative)@),
                T::spec_usize(a) as int,
                T::spec_usize(b) as int,
            ),
            final(representative)@ == Self::searched(
                Self::searched(old(representative)@, T::spec_usize(a) as int),
                T::spec_usize(b) as int,
            ),
            final(representative)@.len() == old(representative)@.len(),
            Self::valid(final(representative)@),
            Self::partition(final(representative)@) == Self::partition(old(representative)@),
    ;

    /// [`Self::connected`], for identifiers that need not name positions of
    /// the array: one that does not is reported, and the array is neither
    /// read nor written.
    fn try_connected(
        representative: &mut [T],
        a: T::IdentifierType,
        b: T::IdentifierType,
    ) -> (r: Result<bool, Error>)
        requires
            Self::valid(old(representative)@),
        ensures
            final(representative)@.len() == old(representative)@.len(),
            Self::valid(final(representative)@),
            Self::partition(final(representative)@) == Self::partition(old(representative)@),
            match r {
                Ok(c) => {
                    &&& T::spec_usize(a) < old(representative)@.len()
                    &&& T::spec_usize(b) < old(representative)@.len()
                    &&& c == same_group(
                        Self::partition(old(representative)@),
                        T::spec_usize(a) as int,
                        T::spec_usize(b) as int,
                    )
                    &&& final(representative)@ == Self::searched(
                        Self::searched(old(representative)@, T::spec_usize(a) as int),
                        T::spec_usize(b) as int,
                    )
                },
                Err(e) => {
                    &&& e == Error::OutOfRange
                    &&& T::spec_usize(a) >= old(representative)@.len() || T::spec_usize(b) >= old(
                        representative,
                    )@.len()
                    &&& final(representative)@ == old(representative)@
                },
            },
    {
        if T::usize(a) >= representative.len() || T::usize(b) >= representative.len() {
            return Err(Error::OutOfRange);
        }
        Ok(Self::connected(representative, a, b))
    }
}

/// The merge of a strategy.
pub trait Union<T: VertexType>: Find<T> {
    /// What the strategy needs of the heuristic array beside the
    /// representative array, and keeps.
    spec fn weighted(rep: Seq<T>, heur: Seq<usize>) -> bool;

    /// A lookup keeps what the strategy needs of the heuristic array.
    proof fn lemma_searched_weighted(rep: Seq<T>, heur: Seq<usize>, a: int)
        requires
            Self::valid(rep),
            Self::weighted(rep, heur),
            0 <= a < rep.len(),
        ensures
            Self::weighted(Self::searched(rep, a), heur),
    ;

    /// The position of the representative that the merged group of `a` and
    /// `b` gets.
    spec fn survivor(rep: Seq<T>, heur: Seq<usize>, a: int, b: int) -> int;

    /// The two arrays after the groups of `a` and `b` were merged.
    spec fn united(rep: Seq<T>, heur: Seq<usize>, a: int, b: int) -> (Seq<T>, Seq<usize>);

    /// The merged group is represented by the representative of one of the
    /// two groups.
    proof fn lemma_survivor(rep: Seq<T>, heur: Seq<usize>, a: int, b: int)
        requires
            Self::valid(rep),
            0 <= a < rep.len(),
            0 <= b < rep.len(),
        ensures
            Self::survivor(rep, heur, a, b) == Self::partition(rep)[a] || Self::survivor(
                rep,
                heur,
                a,
                b,
            ) == Self::partition(rep)[b],
    ;

    /// Merges the groups of `a` and `b`; where they are one group already,
    /// the partition stays as it was.
    fn union_sets(
        representative: &mut [T],
        heuristic: &mut [usize],
        a: T::IdentifierType,
        b: T::IdentifierType,
    )
        requires
            Self::valid(old(representative)@),
            Self::weighted(old(representative)@, old(heuristic)@),
            T::spec_usize(a) < old(representative)@.len(),
            T::spec_usize(b) < old(representative)@.len(),
        ensures
            (final(representative)@, final(heuristic)@) == Self::united(
                old(representative)@,
                old(heuristic)@,
                T::spec_usize(a) as int,
                T::spec_usize(b) as int,
            ),
            final(representative)@.len() == old(representative)@.len(),
            Self::valid(final(representative)@),
            Self::weighted(final(representative)@, final(heuristic)@),
            Self::partition(final(representative)@) == merged(
                Self::partition(old(representative)@),
                T::spec_usize(a) as int,
                T::spec_usize(b) as int,
                Self::survivor(
                    old(representative)@,
                    old(heuristic)@,
                    T::spec_usize(a) as int,
                    T::spec_usize(b) as int,
                ),
            ),
    ;

    /// [`Self::union_sets`], for identifiers that need not name positions of
    /// the array: one that does not is reported, and the arrays are neither
    /// read nor written.
    fn try_union_sets(
        representative: &mut [T],
        heuristic: &mut [usize],
        a: T::IdentifierType,
        b: T::IdentifierType,
    ) -> (r: Result<(), Error>)
        requires
            Self::valid(old(representative)@),
            Self::weighted(old(representative)@, old(heuristic)@),
        ensures
            final(representative)@.len() == old(representative)@.len(),
            Self::valid(final(representative)@),
            Self::weighted(final(representative)@, final(heuristic)@),
            match r {
                Ok(_) => {
                    &&& T::spec_usize(a) < old(representative)@.len()
                    &&& T::spec_usize(b) < old(representative)@.len()
                    &&& (final(representative)@, final(heuristic)@) == Self::united(
                        old(representative)@,
                        old(heuristic)@,
                        T::spec_usize(a) as int,
                        T::spec_usize(b) as int,
                    )
                    &&& Self::partition(final(representative)@) == merged(
                        Self::partition(old(representative)@),
                        T::spec_usize(a) as int,
                        T::spec_usize(b) as int,
                        Self::survivor(
                            old(representative)@,
                            old(heuristic)@,
                            T::spec_usize(a) as int,
                            T::spec_usize(b) as int,
                        ),
                    )
                },
                Err(e) => {
                    &&& e == Error::OutOfRange
                    &&& T::spec_usize(a) >= old(representative)@.len() || T::spec_usize(b) >= old(
                        representative,
                    )@.len()
                    &&& final(representative)@ == old(representative)@
                    &&& final(heuristic)@ == old(heuristic)@
                },
            },
    {
        if T::usize(a) >= representative.len() || T::usize(b) >= representative.len() {
            return Err(Error::OutOfRange);
        }
        Self::union_sets(representative, heuristic, a, b);
        Ok(())
    }
}

} // verus!
