//! The engine: one strategy, one element type and a fixed number of elements
//! behind `union_sets`, `find` and `connected`.

use core::marker::PhantomData;
use vstd::prelude::*;
use crate::error::Error;
use crate::storage::Storage;
use crate::strategy::{
    lemma_merged_unites,
    merged,
    same_group,
    unites,
    AlgorithmContainer,
    Connected,
    Find,
    Union,
};
use crate::vertex::{position, VertexType};

verus! {

/// What an engine holds: its two arrays.
pub ghost struct Arrays<T> {
    pub representative: Seq<T>,
    pub heuristic: Seq<usize>,
}

/// [`UnionFind`] data structure
///
/// This data structure stores a collection of disjoint (non-overlapping) sets.
///
/// [`UnionFind`] is parameterized by the following
/// - `A` - Algorithm, i.e., `QuickFind`, `QuickUnion`
/// - `T` - Any unsigned integral types, i.e., [`u8`], [`u16`], [`u32`], [`u64`], [`usize`] or any type that implements `VertexType`
/// - `N` - Size of internal representative buffer
///
/// An engine that owns its arrays is as large as the two arrays; one that
/// borrows them is as large as the references to them.
pub struct UnionFind<'a, A, T, const N: usize> where
    T: VertexType + 'a,
    A: AlgorithmContainer<'a, T, N>,
 {
    pub(crate) representative: A::RepresentativeContainer,
    pub(crate) heuristic: A::HeuristicContainer,
    pub(crate) algorithm: PhantomData<A>,
}

impl<'a, A, T, const N: usize> View for UnionFind<'a, A, T, N> where
    T: VertexType + 'a,
    A: AlgorithmContainer<'a, T, N>,
 {
    type V = Arrays<T>;

    closed spec fn view(&self) -> Arrays<T> {
        Arrays { representative: self.representative.items(), heuristic: self.heuristic.items() }
    }
}

impl<'a, A, T, const N: usize> UnionFind<'a, A, T, N> where
    T: VertexType + 'a,
    A: AlgorithmContainer<'a, T, N>,
 {
    /// The view of an engine is what its two containers hold.
    pub(crate) proof fn lemma_view(&self)
        ensures
            self@.representative == self.representative.items(),
            self@.heuristic == self.heuristic.items(),
    {
    }
}

impl<'a, A, T, const N: usize> UnionFind<'a, A, T, N> where
    T: VertexType + 'a,
    A: AlgorithmContainer<'a, T, N> + Union<T> + Find<T> + Connected<T>,
 {
    /// The engine has `N` elements, its partition covers them all, and its
    /// arrays are as its strategy needs them.
    pub open spec fn wf(&self) -> bool {
        &&& self@.representative.len() == N
        &&& self.partition().len() == N
        &&& A::valid(self@.representative)
        &&& A::weighted(self@.representative, self@.heuristic)
    }

    /// For each position, the position of its group's representative.
    pub open spec fn partition(&self) -> Seq<int> {
        A::partition(self@.representative)
    }

    /// Checks whether 2 nodes are connected to each other. The partition stays
    /// as it was; the representative array is left as the two lookups leave
    /// it.
    pub fn connected(&mut self, a: T::IdentifierType, b: T::IdentifierType) -> (r: bool)
        requires
            old(self).wf(),
            T::spec_usize(a) < N,
            T::spec_usize(b) < N,
        ensures
            r == same_group(old(self).partition(), T::spec_usize(a) as int, T::spec_usize(b) as int),
            final(self).wf(),
            final(self).partition() == old(self).partition(),
            final(self)@.representative == A::searched(
                A::searched(old(self)@.representative, T::spec_usize(a) as int),
                T::spec_usize(b) as int,
            ),
            final(self)@.heuristic == old(self)@.heuristic,
    {
        proof {
            let rep = self@.representative;
            let pa = T::spec_usize(a) as int;
            A::lemma_searched(rep, pa);
            A::lemma_searched_weighted(rep, self@.heuristic, pa);
            A::lemma_searched_weighted(
                A::searched(rep, pa),
                self@.heuristic,
                T::spec_usize(b) as int,
            );
        }
        A::connected(self.representative.as_mut_slice(), a, b)
    }

    /// Finds a node: the result is the entry of the representative of the
    /// group of `a`. The partition stays as it was; the representative array
    /// is left as the lookup leaves it.
    pub fn find(&mut self, a: T::IdentifierType) -> (r: T)
        requires
            old(self).wf(),
            T::spec_usize(a) < N,
        ensures
            position(r) == old(self).partition()[T::spec_usize(a) as int],
            0 <= position(r) < N,
            r == final(self)@.representative[position(r)],
            final(self).wf(),
            final(self).partition() == old(self).partition(),
            final(self)@.representative == A::searched(
                old(self)@.representative,
                T::spec_usize(a) as int,
            ),
            final(self)@.heuristic == old(self)@.heuristic,
    {
        proof {
            A::lemma_searched_weighted(
                self@.representative,
                self@.heuristic,
                T::spec_usize(a) as int,
            );
        }
        A::find(self.representative.as_mut_slice(), a)
    }

    /// Unions 2 node: their two components become one, and no other
    /// component changes. If those 2 nodes are already part of the same
    /// component then the partition stays as it was.
    pub fn union_sets(&mut self, a: T::IdentifierType, b: T::IdentifierType)
        requires
            old(self).wf(),
            T::spec_usize(a) < N,
            T::spec_usize(b) < N,
        ensures
            final(self).wf(),
            (final(self)@.representative, final(self)@.heuristic) == A::united(
                old(self)@.representative,
                old(self)@.heuristic,
                T::spec_usize(a) as int,
                T::spec_usize(b) as int,
            ),
            final(self).partition() == merged(
                old(self).partition(),
                T::spec_usize(a) as int,
                T::spec_usize(b) as int,
                A::survivor(
                    old(self)@.representative,
                    old(self)@.heuristic,
                    T::spec_usize(a) as int,
                    T::spec_usize(b) as int,
                ),
            ),
            unites(
                old(self).partition(),
                final(self).partition(),
                T::spec_usize(a) as int,
                T::spec_usize(b) as int,
            ),
    {
        proof {
            let pa = T::spec_usize(a) as int;
            let pb = T::spec_usize(b) as int;
            A::lemma_survivor(self@.representative, self@.heuristic, pa, pb);
            lemma_merged_unites(
                self.partition(),
                pa,
                pb,
                A::survivor(self@.representative, self@.heuristic, pa, pb),
            );
        }
        A::union_sets(self.representative.as_mut_slice(), self.heuristic.as_mut_slice(), a, b)
    }

    /// [`Self::connected`], for identifiers that need not lie in the universe:
    /// one that does not is reported, and nothing is looked up.
    pub fn try_connected(&mut self, a: T::IdentifierType, b: T::IdentifierType) -> (r: Result<
        bool,
        Error,
    >)
        requires
            old(self).wf(),
        ensures
            final(self).wf(),
            final(self).partition() == old(self).partition(),
            final(self)@.heuristic == old(self)@.heuristic,
            match r {
                Ok(c) => {
                    &&& T::spec_usize(a) < N
                    &&& T::spec_usize(b) < N
                    &&& c == same_group(
                        old(self).partition(),
                        T::spec_usize(a) as int,
                        T::spec_usize(b) as int,
                    )
                    &&& final(self)@.representative == A::searched(
                        A::searched(old(self)@.representative, T::spec_usize(a) as int),
                        T::spec_usize(b) as int,
                    )
                },
                Err(e) => {
                    &&& e == Error::OutOfRange
                    &&& T::spec_usize(a) >= N || T::spec_usize(b) >= N
                    &&& final(self)@ == old(self)@
                },
            },
    {
        proof {
            let rep = self@.representative;
            if T::spec_usize(a) < N && T::spec_usize(b) < N {
                let pa = T::spec_usize(a) as int;
                A::lemma_searched(rep, pa);
                A::lemma_searched_weighted(rep, self@.heuristic, pa);
                A::lemma_searched_weighted(
                    A::searched(rep, pa),
                    self@.heuristic,
                    T::spec_usize(b) as int,
                );
            }
        }
        A::try_connected(self.representative.as_mut_slice(), a, b)
    }

    /// [`Self::find`], for an identifier that need not lie in the universe:
    /// one that does not is reported, and nothing is looked up.
    pub fn try_find(&mut self, a: T::IdentifierType) -> (r: Result<T, Error>)
        requires
            old(self).wf(),
        ensures
            final(self).wf(),
            final(self).partition() == old(self).partition(),
            final(self)@.heuristic == old(self)@.heuristic,
            match r {
                Ok(v) => {
                    &&& T::spec_usize(a) < N
                    &&& position(v) == old(self).partition()[T::spec_usize(a) as int]
                    &&& 0 <= position(v) < N
                    &&& v == final(self)@.representative[position(v)]
                    &&& final(self)@.representative == A::searched(
                        old(self)@.representative,
                        T::spec_usize(a) as int,
                    )
                },
                Err(e) => {
                    &&& e == Error::OutOfRange
                    &&& T::spec_usize(a) >= N
                    &&& final(self)@ == old(self)@
                },
            },
    {
        proof {
            if T::spec_usize(a) < N {
                A::lemma_searched_weighted(
                    self@.representative,
                    self@.heuristic,
                    T::spec_usize(a) as int,
                );
            }
        }
        A::try_find(self.representative.as_mut_slice(), a)
    }

    /// [`Self::union_sets`], for identifiers that need not lie in the
    /// universe: one that does not is reported, and nothing is merged.
    pub fn try_union_sets(&mut self, a: T::IdentifierType, b: T::IdentifierType) -> (r: Result<
        (),
        Error,
    >)
        requires
            old(self).wf(),
        ensures
            final(self).wf(),
            match r {
                Ok(_) => {
                    &&& T::spec_usize(a) < N
                    &&& T::spec_usize(b) < N
                    &&& (final(self)@.representative, final(self)@.heuristic) == A::united(
                        old(self)@.representative,
                        old(self)@.heuristic,
                        T::spec_usize(a) as int,
                        T::spec_usize(b) as int,
                    )
                    &&& final(self).partition() == merged(
                        old(self).partition(),
                        T::spec_usize(a) as int,
                        T::spec_usize(b) as int,
                        A::survivor(
                            old(self)@.representative,
                            old(self)@.heuristic,
                            T::spec_usize(a) as int,
                            T::spec_usize(b) as int,
                        ),
                    )
                    &&& unites(
                        old(self).partition(),
                        final(self).partition(),
                        T::spec_usize(a) as int,
                        T::spec_usize(b) as int,
                    )
                },
                Err(e) => {
                    &&& e == Error::OutOfRange
                    &&& T::spec_usize(a) >= N || T::spec_usize(b) >= N
                    &&& final(self)@ == old(self)@
                },
            },
    {
        proof {
            if T::spec_usize(a) < N && T::spec_usize(b) < N {
                let pa = T::spec_usize(a) as int;
                let pb = T::spec_usize(b) as int;
                A::lemma_survivor(self@.representative, self@.heuristic, pa, pb);
                lemma_merged_unites(
                    self.partition(),
                    pa,
                    pb,
                    A::survivor(self@.representative, self@.heuristic, pa, pb),
                );
            }
        }
        A::try_union_sets(
            self.representative.as_mut_slice(),
            self.heuristic.as_mut_slice(),
            a,
            b,
        )
    }

    /// Gets the representative slice
    pub fn representative(&self) -> (r: &A::RepresentativeContainer)
        ensures
            r.items() == self@.representative,
    {
        &self.representative
    }

    /// Gets the heuristic slice
    pub fn heuristic(&self) -> (r: &A::HeuristicContainer)
        ensures
            r.items() == self@.heuristic,
    {
        &self.heuristic
    }
}

} // verus!
