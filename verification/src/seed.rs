//! The state that an engine starts in, and the checks that admit arrays
//! handed over by the caller as such a state.

use vstd::prelude::*;
use crate::error::Error;
use crate::vertex::{identity, position, IndexVertex, VertexType};

verus! {

/// The entries that an engine of `n` elements starts with where the element
/// type is its own identifier: entry `i` is the vertex made for position `i`.
pub open spec fn seeded<T: IndexVertex>(n: nat) -> Seq<T> {
    Seq::new(n, |i: int| T::spec_at(i as usize))
}

/// An array whose entry `i` is the vertex made for position `i`; it names
/// position `i` as long as the type reaches that far.
pub fn identity_array<T: IndexVertex, const N: usize>() -> (r: [T; N])
    ensures
        r@ == seeded::<T>(N as nat),
        N == 0 || N - 1 <= T::limit() ==> identity(r@),
{
    let mut representative: [T; N] = [T::at(0);N];
    let mut i: usize = 0;
    while i < N
        invariant
            i <= N,
            forall|j: int| 0 <= j < i ==> #[trigger] representative@[j] == T::spec_at(j as usize),
            forall|j: int|
                0 <= j < i && j <= T::limit() ==> position(#[trigger] representative@[j]) == j,
        decreases N - i,
    {
        representative[i] = T::at(i);
        i += 1;
    }
    assert(representative@ =~= seeded::<T>(N as nat));
    representative
}

/// Whether entry `i` names position `i`, for every entry.
pub fn names_own_positions<T: VertexType>(items: &[T]) -> (r: bool)
    ensures
        r == identity(items@),
{
    let n: usize = items.len();
    let mut i: usize = 0;
    while i < n
        invariant
            i <= n,
            n == items@.len(),
            forall|j: int| 0 <= j < i ==> position(#[trigger] items@[j]) == j,
        decreases n - i,
    {
        if T::usize(items[i].id()) != i {
            return false;
        }
        i += 1;
    }
    true
}

/// `n` counters that all hold `seed`.
pub open spec fn all_same(n: nat, seed: usize) -> Seq<usize> {
    Seq::new(n, |i: int| seed)
}

/// Whether every counter holds `seed`.
pub fn all_equal_to(items: &[usize], seed: usize) -> (r: bool)
    ensures
        r == (items@ =~= all_same(items@.len(), seed)),
{
    let n: usize = items.len();
    let mut i: usize = 0;
    while i < n
        invariant
            i <= n,
            n == items@.len(),
            forall|j: int| 0 <= j < i ==> #[trigger] items@[j] == seed,
        decreases n - i,
    {
        if items[i] != seed {
            assert(all_same(items@.len(), seed)[i as int] == seed);
            return false;
        }
        i += 1;
    }
    assert(items@ =~= all_same(items@.len(), seed));
    true
}

/// Why arrays handed over for an engine of `n` elements with `m` counters
/// are refused, if they are: for their lengths first, then for what they
/// hold. They are admitted where entry `i` names position `i` and every
/// counter holds `seed`.
pub open spec fn refusal<T: VertexType>(
    rep: Seq<T>,
    heur: Seq<usize>,
    n: nat,
    m: nat,
    seed: usize,
) -> Option<Error> {
    if rep.len() != n || heur.len() != m {
        Some(Error::SizeMismatch)
    } else if !identity(rep) || !(heur =~= all_same(m, seed)) {
        Some(Error::InvalidData)
    } else {
        None
    }
}

/// Checks arrays handed over for an engine of `n` elements with `m`
/// counters.
pub fn admit_arrays<T: VertexType>(
    representative: &[T],
    heuristic: &[usize],
    n: usize,
    m: usize,
    seed: usize,
) -> (r: Option<Error>)
    ensures
        r == refusal(representative@, heuristic@, n as nat, m as nat, seed),
{
    if representative.len() != n || heuristic.len() != m {
        Some(Error::SizeMismatch)
    } else if !names_own_positions(representative) || !all_equal_to(heuristic, seed) {
        Some(Error::InvalidData)
    } else {
        None
    }
}

} // verus!
