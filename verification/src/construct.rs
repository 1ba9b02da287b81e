//! How engines are made: in the state in which every element is alone, or
//! over arrays that the caller hands over.

use core::marker::PhantomData;
use vstd::prelude::*;
use crate::engine::UnionFind;
use crate::error::Error;
use crate::forest::{classes, forest, lemma_singletons, singletons};
use crate::heuristic::{lemma_singleton_sizes, ByRank, BySize, Heuristic, Unweighted};
use crate::quickfind::{flat, QuickFind};
use crate::quickunion::QuickUnion;
use crate::seed::{admit_arrays, all_same, identity_array, names_own_positions, refusal, seeded};
use crate::vertex::{identity, parents, IndexVertex, VertexType};

verus! {

/// Entries that name their own positions are what Quick-Find starts from:
/// no element is connected to another.
pub proof fn lemma_identity_flat<T: VertexType>(rep: Seq<T>)
    requires
        identity(rep),
    ensures
        flat(rep),
        parents(rep) == singletons(rep.len()),
{
    assert(parents(rep) =~= singletons(rep.len()));
}

/// Entries that name their own positions are a forest of single positions.
pub proof fn lemma_identity_forest<T: VertexType>(rep: Seq<T>)
    requires
        identity(rep),
    ensures
        forest(parents(rep)),
        classes(parents(rep)) == singletons(rep.len()),
{
    assert(parents(rep) =~= singletons(rep.len()));
    lemma_singletons(rep.len());
}

/// Entries that name their own positions, with every rank 0, are what
/// linking by rank starts from.
pub proof fn lemma_rank_seed<T: VertexType>(rep: Seq<T>, heur: Seq<usize>)
    requires
        identity(rep),
        heur == all_same(rep.len(), 0),
    ensures
        forest(parents(rep)),
        classes(parents(rep)) == singletons(rep.len()),
        ByRank::weighted(parents(rep), heur),
{
    lemma_identity_forest(rep);
    lemma_singleton_sizes(rep.len());
}

/// Entries that name their own positions, with every size 1, are what
/// linking by size starts from.
pub proof fn lemma_size_seed<T: VertexType>(rep: Seq<T>, heur: Seq<usize>)
    requires
        identity(rep),
        heur == all_same(rep.len(), 1),
    ensures
        forest(parents(rep)),
        classes(parents(rep)) == singletons(rep.len()),
        BySize::weighted(parents(rep), heur),
{
    lemma_identity_forest(rep);
    lemma_singleton_sizes(rep.len());
}

impl<'a, T: IndexVertex + 'a, const N: usize> Default for UnionFind<'a, QuickFind<false>, T, N> {
    /// The engine of `N` elements in which every element is alone. It
    /// is ready for use where the element type reaches as far as position
    /// `N - 1`.
    fn default() -> (uf: Self)
        ensures
            uf@.representative == seeded::<T>(N as nat),
            uf@.heuristic == Seq::<usize>::empty(),
            N == 0 || N - 1 <= T::limit() ==> uf.wf() && uf.partition() == singletons(N as nat),
    {
        let representative: [T; N] = identity_array::<T, N>();
        let heuristic: [usize; 0] = [];
        let uf = Self { representative, heuristic, algorithm: PhantomData };
        proof {
            uf.lemma_view();
            assert(heuristic@ =~= Seq::<usize>::empty());
            if N == 0 || N - 1 <= T::limit() {
                lemma_identity_flat(representative@);
            }
        }
        uf
    }
}

impl<'a, T: VertexType + 'a, const N: usize> UnionFind<'a, QuickFind<false>, T, N> {
    /// The engine over the entries handed over, in which every element is
    /// alone. It is refused unless entry `i` names position `i`,
    /// for every `i`.
    pub fn try_from(entries: [T; N]) -> (r: Result<Self, Error>)
        ensures
            match r {
                Ok(uf) => {
                    &&& identity(entries@)
                    &&& uf@.representative == entries@
                    &&& uf@.heuristic == Seq::<usize>::empty()
                    &&& uf.wf()
                    &&& uf.partition() == singletons(N as nat)
                },
                Err(e) => e == Error::InvalidData && !identity(entries@),
            },
    {
        if !names_own_positions(&entries) {
            return Err(Error::InvalidData);
        }
        let heuristic: [usize; 0] = [];
        let uf = Self { representative: entries, heuristic, algorithm: PhantomData };
        proof {
            uf.lemma_view();
            assert(heuristic@ =~= Seq::<usize>::empty());
            lemma_identity_flat(entries@);
        }
        Ok(uf)
    }
}

impl<'a, T: VertexType + 'a, const N: usize> UnionFind<'a, QuickFind<true>, T, N> {
    /// The engine over memory that the caller has filled: nothing is written
    /// to it here. The array has the `N` entries that the engine's type asks
    /// for; what it holds is the caller's business.
    pub fn new(representative: &'a mut [T]) -> (uf: Self)
        requires
            old(representative)@.len() == N,
        ensures
            uf@.representative == old(representative)@,
            uf@.heuristic == Seq::<usize>::empty(),
    {
        let heuristic: [usize; 0] = [];
        let uf = Self { representative, heuristic, algorithm: PhantomData };
        proof {
            uf.lemma_view();
            assert(heuristic@ =~= Seq::<usize>::empty());
        }
        uf
    }

    /// The engine over memory that the caller has filled, if it holds `N`
    /// entries of which each names its own position; the reason why not,
    /// otherwise.
    pub fn try_new(representative: &'a mut [T]) -> (r: Result<Self, Error>)
        ensures
            match r {
                Ok(uf) => {
                    &&& refusal(old(representative)@, Seq::<usize>::empty(), N as nat, 0, 0)
                        is None
                    &&& uf@.representative == old(representative)@
                    &&& uf@.heuristic == Seq::<usize>::empty()
                    &&& uf.wf()
                    &&& uf.partition() == singletons(N as nat)
                },
                Err(e) => refusal(old(representative)@, Seq::<usize>::empty(), N as nat, 0, 0)
                    == Some(e),
            },
    {
        let heuristic: [usize; 0] = [];
        assert(heuristic@ =~= Seq::<usize>::empty());
        match admit_arrays(&*representative, &heuristic, N, 0, 0) {
            Some(e) => Err(e),
            None => {
                proof {
                    lemma_identity_flat(representative@);
                }
                Ok(Self::new(representative))
            },
        }
    }
}

impl<'a, T: IndexVertex + 'a, const N: usize, const COMPRESS_PATH: bool> Default for UnionFind<
    'a,
    QuickUnion<ByRank, COMPRESS_PATH, false>,
    T,
    N,
> {
    /// The engine of `N` elements in which every element is alone, all of rank 0. It
    /// is ready for use where the element type reaches as far as position
    /// `N - 1`.
    fn default() -> (uf: Self)
        ensures
            uf@.representative == seeded::<T>(N as nat),
            uf@.heuristic == all_same(N as nat, 0),
            N == 0 || N - 1 <= T::limit() ==> uf.wf() && uf.partition() == singletons(N as nat),
    {
        let representative: [T; N] = identity_array::<T, N>();
        let heuristic: [usize; N] = [0;N];
        let uf = Self { representative, heuristic, algorithm: PhantomData };
        proof {
            uf.lemma_view();
            assert(heuristic@ =~= all_same(N as nat, 0));
            if N == 0 || N - 1 <= T::limit() {
                lemma_rank_seed(representative@, heuristic@);
            }
        }
        uf
    }
}

impl<'a, T: VertexType + 'a, const N: usize, const COMPRESS_PATH: bool> UnionFind<
    'a,
    QuickUnion<ByRank, COMPRESS_PATH, false>,
    T,
    N,
> {
    /// The engine over the entries handed over, in which every element is
    /// alone, all of rank 0. It is refused unless entry `i` names position `i`,
    /// for every `i`.
    pub fn try_from(entries: [T; N]) -> (r: Result<Self, Error>)
        ensures
            match r {
                Ok(uf) => {
                    &&& identity(entries@)
                    &&& uf@.representative == entries@
                    &&& uf@.heuristic == all_same(N as nat, 0)
                    &&& uf.wf()
                    &&& uf.partition() == singletons(N as nat)
                },
                Err(e) => e == Error::InvalidData && !identity(entries@),
            },
    {
        if !names_own_positions(&entries) {
            return Err(Error::InvalidData);
        }
        let heuristic: [usize; N] = [0;N];
        let uf = Self { representative: entries, heuristic, algorithm: PhantomData };
        proof {
            uf.lemma_view();
            assert(heuristic@ =~= all_same(N as nat, 0));
            lemma_rank_seed(entries@, heuristic@);
        }
        Ok(uf)
    }
}

impl<'a, T: VertexType + 'a, const N: usize, const COMPRESS_PATH: bool> UnionFind<
    'a,
    QuickUnion<ByRank, COMPRESS_PATH, true>,
    T,
    N,
> {
    /// The engine over memory that the caller has filled: nothing is written
    /// to it here. Both arrays have the `N` entries that the engine's type
    /// asks for; what they hold is the caller's business.
    pub fn new(representative: &'a mut [T], heuristic: &'a mut [usize]) -> (uf: Self)
        requires
            old(representative)@.len() == N,
            old(heuristic)@.len() == N,
        ensures
            uf@.representative == old(representative)@,
            uf@.heuristic == old(heuristic)@,
    {
        let uf = Self { representative, heuristic, algorithm: PhantomData };
        proof {
            uf.lemma_view();
        }
        uf
    }

    /// The engine over memory that the caller has filled, if it holds `N`
    /// entries of which each names its own position, and `N` counters of
    /// rank 0; the reason why not, otherwise.
    pub fn try_new(representative: &'a mut [T], heuristic: &'a mut [usize]) -> (r: Result<
        Self,
        Error,
    >)
        ensures
            match r {
                Ok(uf) => {
                    &&& refusal(old(representative)@, old(heuristic)@, N as nat, N as nat, 0)
                        is None
                    &&& uf@.representative == old(representative)@
                    &&& uf@.heuristic == old(heuristic)@
                    &&& uf.wf()
                    &&& uf.partition() == singletons(N as nat)
                },
                Err(e) => refusal(old(representative)@, old(heuristic)@, N as nat, N as nat, 0)
                    == Some(e),
            },
    {
        match admit_arrays(&*representative, &*heuristic, N, N, 0) {
            Some(e) => Err(e),
            None => {
                proof {
                    lemma_rank_seed(representative@, heuristic@);
                }
                Ok(Self::new(representative, heuristic))
            },
        }
    }
}

impl<'a, T: IndexVertex + 'a, const N: usize, const COMPRESS_PATH: bool> Default for UnionFind<
    'a,
    QuickUnion<BySize, COMPRESS_PATH, false>,
    T,
    N,
> {
    /// The engine of `N` elements in which every element is alone, all of size 1. It
    /// is ready for use where the element type reaches as far as position
    /// `N - 1`.
    fn default() -> (uf: Self)
        ensures
            uf@.representative == seeded::<T>(N as nat),
            uf@.heuristic == all_same(N as nat, 1),
            N == 0 || N - 1 <= T::limit() ==> uf.wf() && uf.partition() == singletons(N as nat),
    {
        let representative: [T; N] = identity_array::<T, N>();
        let heuristic: [usize; N] = [1;N];
        let uf = Self { representative, heuristic, algorithm: PhantomData };
        proof {
            uf.lemma_view();
            assert(heuristic@ =~= all_same(N as nat, 1));
            if N == 0 || N - 1 <= T::limit() {
                lemma_size_seed(representative@, heuristic@);
            }
        }
        uf
    }
}

impl<'a, T: VertexType + 'a, const N: usize, const COMPRESS_PATH: bool> UnionFind<
    'a,
    QuickUnion<BySize, COMPRESS_PATH, false>,
    T,
    N,
> {
    /// The engine over the entries handed over, in which every element is
    /// alone, all of size 1. It is refused unless entry `i` names position `i`,
    /// for every `i`.
    pub fn try_from(entries: [T; N]) -> (r: Result<Self, Error>)
        ensures
            match r {
                Ok(uf) => {
                    &&& identity(entries@)
                    &&& uf@.representative == entries@
                    &&& uf@.heuristic == all_same(N as nat, 1)
                    &&& uf.wf()
                    &&& uf.partition() == singletons(N as nat)
                },
                Err(e) => e == Error::InvalidData && !identity(entries@),
            },
    {
        if !names_own_positions(&entries) {
            return Err(Error::InvalidData);
        }
        let heuristic: [usize; N] = [1;N];
        let uf = Self { representative: entries, heuristic, algorithm: PhantomData };
        proof {
            uf.lemma_view();
            assert(heuristic@ =~= all_same(N as nat, 1));
            lemma_size_seed(entries@, heuristic@);
        }
        Ok(uf)
    }
}

impl<'a, T: VertexType + 'a, const N: usize, const COMPRESS_PATH: bool> UnionFind<
    'a,
    QuickUnion<BySize, COMPRESS_PATH, true>,
    T,
    N,
> {
    /// The engine over memory that the caller has filled: nothing is written
    /// to it here. Both arrays have the `N` entries that the engine's type
    /// asks for; what they hold is the caller's business.
    pub fn new(representative: &'a mut [T], heuristic: &'a mut [usize]) -> (uf: Self)
        requires
            old(representative)@.len() == N,
            old(heuristic)@.len() == N,
        ensures
            uf@.representative == old(representative)@,
            uf@.heuristic == old(heuristic)@,
    {
        let uf = Self { representative, heuristic, algorithm: PhantomData };
        proof {
            uf.lemma_view();
        }
        uf
    }

    /// The engine over memory that the caller has filled, if it holds `N`
    /// entries of which each names its own position, and `N` counters of
    /// size 1; the reason why not, otherwise.
    pub fn try_new(representative: &'a mut [T], heuristic: &'a mut [usize]) -> (r: Result<
        Self,
        Error,
    >)
        ensures
            match r {
                Ok(uf) => {
                    &&& refusal(old(representative)@, old(heuristic)@, N as nat, N as nat, 1)
                        is None
                    &&& uf@.representative == old(representative)@
                    &&& uf@.heuristic == old(heuristic)@
                    &&& uf.wf()
                    &&& uf.partition() == singletons(N as nat)
                },
                Err(e) => refusal(old(representative)@, old(heuristic)@, N as nat, N as nat, 1)
                    == Some(e),
            },
    {
        match admit_arrays(&*representative, &*heuristic, N, N, 1) {
            Some(e) => Err(e),
            None => {
                proof {
                    lemma_size_seed(representative@, heuristic@);
                }
                Ok(Self::new(representative, heuristic))
            },
        }
    }
}

impl<'a, T: IndexVertex + 'a, const N: usize, const COMPRESS_PATH: bool> Default for UnionFind<
    'a,
    QuickUnion<Unweighted, COMPRESS_PATH, false>,
    T,
    N,
> {
    /// The engine of `N` elements in which every element is alone. It
    /// is ready for use where the element type reaches as far as position
    /// `N - 1`.
    fn default() -> (uf: Self)
        ensures
            uf@.representative == seeded::<T>(N as nat),
            uf@.heuristic == Seq::<usize>::empty(),
            N == 0 || N - 1 <= T::limit() ==> uf.wf() && uf.partition() == singletons(N as nat),
    {
        let representative: [T; N] = identity_array::<T, N>();
        let heuristic: [usize; 0] = [];
        let uf = Self { representative, heuristic, algorithm: PhantomData };
        proof {
            uf.lemma_view();
            assert(heuristic@ =~= Seq::<usize>::empty());
            if N == 0 || N - 1 <= T::limit() {
                lemma_identity_forest(representative@);
            }
        }
        uf
    }
}

impl<'a, T: VertexType + 'a, const N: usize, const COMPRESS_PATH: bool> UnionFind<
    'a,
    QuickUnion<Unweighted, COMPRESS_PATH, false>,
    T,
    N,
> {
    /// The engine over the entries handed over, in which every element is
    /// alone. It is refused unless entry `i` names position `i`,
    /// for every `i`.
    pub fn try_from(entries: [T; N]) -> (r: Result<Self, Error>)
        ensures
            match r {
                Ok(uf) => {
                    &&& identity(entries@)
                    &&& uf@.representative == entries@
                    &&& uf@.heuristic == Seq::<usize>::empty()
                    &&& uf.wf()
                    &&& uf.partition() == singletons(N as nat)
                },
                Err(e) => e == Error::InvalidData && !identity(entries@),
            },
    {
        if !names_own_positions(&entries) {
            return Err(Error::InvalidData);
        }
        let heuristic: [usize; 0] = [];
        let uf = Self { representative: entries, heuristic, algorithm: PhantomData };
        proof {
            uf.lemma_view();
            assert(heuristic@ =~= Seq::<usize>::empty());
            lemma_identity_forest(entries@);
        }
        Ok(uf)
    }
}

impl<'a, T: VertexType + 'a, const N: usize, const COMPRESS_PATH: bool> UnionFind<
    'a,
    QuickUnion<Unweighted, COMPRESS_PATH, true>,
    T,
    N,
> {
    /// The engine over memory that the caller has filled: nothing is written
    /// to it here. The array has the `N` entries that the engine's type asks
    /// for; what it holds is the caller's business.
    pub fn new(representative: &'a mut [T]) -> (uf: Self)
        requires
            old(representative)@.len() == N,
        ensures
            uf@.representative == old(representative)@,
            uf@.heuristic == Seq::<usize>::empty(),
    {
        let heuristic: [usize; 0] = [];
        let uf = Self { representative, heuristic, algorithm: PhantomData };
        proof {
            uf.lemma_view();
            assert(heuristic@ =~= Seq::<usize>::empty());
        }
        uf
    }

    /// The engine over memory that the caller has filled, if it holds `N`
    /// entries of which each names its own position; the reason why not,
    /// otherwise.
    pub fn try_new(representative: &'a mut [T]) -> (r: Result<Self, Error>)
        ensures
            match r {
                Ok(uf) => {
                    &&& refusal(old(representative)@, Seq::<usize>::empty(), N as nat, 0, 0)
                        is None
                    &&& uf@.representative == old(representative)@
                    &&& uf@.heuristic == Seq::<usize>::empty()
                    &&& uf.wf()
                    &&& uf.partition() == singletons(N as nat)
                },
                Err(e) => refusal(old(representative)@, Seq::<usize>::empty(), N as nat, 0, 0)
                    == Some(e),
            },
    {
        let heuristic: [usize; 0] = [];
        assert(heuristic@ =~= Seq::<usize>::empty());
        match admit_arrays(&*representative, &heuristic, N, 0, 0) {
            Some(e) => Err(e),
            None => {
                proof {
                    lemma_identity_forest(representative@);
                }
                Ok(Self::new(representative))
            },
        }
    }
}

} // verus!
