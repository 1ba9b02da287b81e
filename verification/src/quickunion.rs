//! Quick-Union: the entries are parent pointers, a group is a tree.

use core::marker::PhantomData;
use vstd::prelude::*;
use crate::forest::{
    ancestor,
    classes,
    depth,
    forest,
    is_root,
    lemma_ancestor_settled,
    lemma_ancestor_split,
    lemma_parent,
    lemma_shortcut,
    root_of,
    shortcut,
};
use crate::heuristic::{
    absorbed,
    lemma_link_partition,
    linked,
    other,
    ByRank,
    BySize,
    Heuristic,
    Unweighted,
};
use crate::strategy::{merged, AlgorithmContainer, Connected, Find, Union};
use crate::vertex::{parents, position, VertexType};

verus! {

/// [`QuickUnion`] algorithm
///
/// This algorithm is parameterized by the following
/// - `H` - Heuristic Type. Available types: [`ByRank`], [`BySize`], [`Unweighted`]
/// - `COMPRESS_PATH` - boolean value, enables path compression during find operation
/// - `IS_SLICE` - boolean value, has the engine borrow its arrays from the caller
#[derive(Debug, Default)]
pub struct QuickUnion<H, const COMPRESS_PATH: bool, const IS_SLICE: bool> {
    heuristic: PhantomData<H>,
}

impl<'a, T: VertexType + 'a, const N: usize, const COMPRESS_PATH: bool> AlgorithmContainer<
    'a,
    T,
    N,
> for QuickUnion<ByRank, COMPRESS_PATH, false> {
    type HeuristicContainer = [usize; N];

    type RepresentativeContainer = [T; N];
}

impl<'a, T: VertexType + 'a, const N: usize, const COMPRESS_PATH: bool> AlgorithmContainer<
    'a,
    T,
    N,
> for QuickUnion<BySize, COMPRESS_PATH, false> {
    type HeuristicContainer = [usize; N];

    type RepresentativeContainer = [T; N];
}

impl<'a, T: VertexType + 'a, const N: usize, const COMPRESS_PATH: bool> AlgorithmContainer<
    'a,
    T,
    N,
> for QuickUnion<Unweighted, COMPRESS_PATH, false> {
    type HeuristicContainer = [usize; 0];

    type RepresentativeContainer = [T; N];
}

impl<'a, T: VertexType + 'a, const N: usize, const COMPRESS_PATH: bool> AlgorithmContainer<
    'a,
    T,
    N,
> for QuickUnion<ByRank, COMPRESS_PATH, true> {
    type HeuristicContainer = &'a mut [usize];

    type RepresentativeContainer = &'a mut [T];
}

impl<'a, T: VertexType + 'a, const N: usize, const COMPRESS_PATH: bool> AlgorithmContainer<
    'a,
    T,
    N,
> for QuickUnion<BySize, COMPRESS_PATH, true> {
    type HeuristicContainer = &'a mut [usize];

    type RepresentativeContainer = &'a mut [T];
}

impl<'a, T: VertexType + 'a, const N: usize, const COMPRESS_PATH: bool> AlgorithmContainer<
    'a,
    T,
    N,
> for QuickUnion<Unweighted, COMPRESS_PATH, true> {
    type HeuristicContainer = [usize; 0];

    type RepresentativeContainer = &'a mut [T];
}

/// A lookup from `a` with path compression stops at `x` on its way and
/// re-points it: `x` is not a root, and lies an even number of steps above
/// `a`.
pub open spec fn on_halving_path(p: Seq<int>, a: int, x: int) -> bool {
    &&& !is_root(p, x)
    &&& depth(p, x) <= depth(p, a)
    &&& (depth(p, a) - depth(p, x)) % 2 == 0
    &&& ancestor(p, a, (depth(p, a) - depth(p, x)) as nat) == x
}

/// The array after a lookup from `a` with path compression: every position
/// on the halving path holds the entry that its parent held.
pub open spec fn halved<T: VertexType>(rep: Seq<T>, a: int) -> Seq<T> {
    Seq::new(
        rep.len(),
        |x: int|
            if on_halving_path(parents(rep), a, x) {
                rep[parents(rep)[x]]
            } else {
                rep[x]
            },
    )
}

/// A lookup with path compression points positions at their grandparents
/// and does nothing else.
pub proof fn lemma_halved_shortcut<T: VertexType>(rep: Seq<T>, a: int)
    requires
        forest(parents(rep)),
    ensures
        shortcut(parents(rep), parents(halved(rep, a))),
{
    let p = parents(rep);
    let q = parents(halved(rep, a));
    assert forall|x: int| 0 <= x < p.len() implies #[trigger] q[x] == p[x] || q[x] == p[p[x]] by {
        lemma_parent(p, x);
    }
}

/// A lookup with path compression keeps the forest and the root of every
/// position.
pub proof fn lemma_halved<T: VertexType>(rep: Seq<T>, a: int)
    requires
        forest(parents(rep)),
    ensures
        forest(parents(halved(rep, a))),
        classes(parents(halved(rep, a))) == classes(parents(rep)),
        forall|x: int|
            0 <= x < rep.len() ==> (is_root(parents(halved(rep, a)), x) <==> is_root(
                parents(rep),
                x,
            )),
{
    lemma_halved_shortcut(rep, a);
    lemma_shortcut(parents(rep), parents(halved(rep, a)));
}

impl<H, T, const COMPRESS_PATH: bool, const IS_SLICE: bool> Find<T> for QuickUnion<
    H,
    COMPRESS_PATH,
    IS_SLICE,
> where T: VertexType {
    /// The parent pointers form a forest.
    open spec fn valid(rep: Seq<T>) -> bool {
        forest(parents(rep))
    }

    open spec fn partition(rep: Seq<T>) -> Seq<int> {
        classes(parents(rep))
    }

    open spec fn searched(rep: Seq<T>, a: int) -> Seq<T> {
        if COMPRESS_PATH {
            halved(rep, a)
        } else {
            rep
        }
    }

    proof fn lemma_searched(rep: Seq<T>, a: int) {
        lemma_searched_roots::<H, T, COMPRESS_PATH, IS_SLICE>(rep, a);
    }

    fn find(representative: &mut [T], a: T::IdentifierType) -> (r: T) {
        let ghost before = representative@;
        let ghost origin = parents(before);
        let ghost start = T::spec_usize(a) as int;
        let mut a: usize = T::usize(a);
        proof {
            lemma_parent(origin, start);
        }
        while T::usize(representative[a].id()) != a
            invariant
                representative@.len() == before.len(),
                origin == parents(before),
                forest(origin),
                forest(parents(representative@)),
                classes(parents(representative@)) == classes(origin),
                0 <= start < before.len(),
                0 <= a < before.len(),
                depth(origin, a as int) <= depth(origin, start),
                a == ancestor(origin, start, (depth(origin, start) - depth(origin, a as int)) as nat),
                COMPRESS_PATH ==> is_root(origin, a as int) || (depth(origin, start) - depth(origin, a as int))
                    % 2 == 0,
                forall|x: int|
                    0 <= x < before.len() ==> #[trigger] representative@[x] == (if COMPRESS_PATH
                        && on_halving_path(origin, start, x) && depth(origin, x) > depth(origin, a as int) {
                        before[origin[x]]
                    } else {
                        before[x]
                    }),
            decreases depth(origin, a as int),
        {
            let ghost cur = representative@;
            let ghost at = a as int;
            let ghost k = (depth(origin, start) - depth(origin, at)) as nat;
            proof {
                assert(cur[at] == before[at]);
                assert(origin[at] == position(before[at]));
                lemma_parent(origin, at);
                lemma_parent(origin, origin[at]);
                assert(cur[origin[at]] == before[origin[at]]);
                lemma_ancestor_split(origin, start, k, 1);
                assert(ancestor(origin, at, 1) == origin[at]) by {
                    assert(ancestor(origin, origin[at], 0) == origin[at]);
                }
                lemma_ancestor_split(origin, start, k + 1, 1);
                assert(ancestor(origin, origin[at], 1) == origin[origin[at]]) by {
                    assert(ancestor(origin, origin[origin[at]], 0) == origin[origin[at]]);
                }
            }
            // path compression
            if COMPRESS_PATH {
                representative[a] = representative[T::usize(representative[a].id())];
                proof {
                    let pc = parents(cur);
                    assert(pc[at] == origin[at]);
                    assert(pc[origin[at]] == origin[origin[at]]);
                    assert(parents(representative@) =~= pc.update(at, pc[pc[at]]));
                    lemma_shortcut(pc, parents(representative@));
                }
            }
            a = T::usize(representative[a].id());
        }
        proof {
            let at = a as int;
            let k = (depth(origin, start) - depth(origin, at)) as nat;
            assert(representative@[at] == before[at]);
            assert(origin[at] == position(before[at]));
            lemma_parent(origin, at);
            lemma_ancestor_settled(origin, start, k, origin.len());
            assert(root_of(origin, start) == at);
            if COMPRESS_PATH {
                assert forall|x: int| 0 <= x < before.len() implies #[trigger] representative@[x]
                    == halved(before, start)[x] by {
                    lemma_parent(origin, x);
                }
                assert(representative@ =~= halved(before, start));
            } else {
                assert(representative@ =~= before);
            }
        }
        representative[a]
    }
}

/// A lookup, with or without path compression, keeps the forest, its roots
/// and the root of every position.
pub proof fn lemma_searched_roots<
    H,
    T: VertexType,
    const COMPRESS_PATH: bool,
    const IS_SLICE: bool,
>(
    rep: Seq<T>,
    a: int,
)
    requires
        forest(parents(rep)),
    ensures
        ({
            let found = <QuickUnion<H, COMPRESS_PATH, IS_SLICE> as Find<T>>::searched(rep, a);
            &&& found.len() == rep.len()
            &&& forest(parents(found))
            &&& classes(parents(found)) == classes(parents(rep))
            &&& forall|x: int|
                0 <= x < rep.len() ==> (is_root(parents(found), x) <==> is_root(parents(rep), x))
        }),
{
    if COMPRESS_PATH {
        lemma_halved(rep, a);
    }
}

/// A union keeps the forest and merges the groups of `a` and `b` into one,
/// whose root is the survivor.
pub proof fn lemma_united<
    H: Heuristic,
    T: VertexType,
    const COMPRESS_PATH: bool,
    const IS_SLICE: bool,
>(rep: Seq<T>, heur: Seq<usize>, a: int, b: int)
    requires
        forest(parents(rep)),
        0 <= a < rep.len(),
        0 <= b < rep.len(),
    ensures
        ({
            let after = <QuickUnion<H, COMPRESS_PATH, IS_SLICE> as Union<T>>::united(
                rep,
                heur,
                a,
                b,
            );
            let s = <QuickUnion<H, COMPRESS_PATH, IS_SLICE> as Union<T>>::survivor(
                rep,
                heur,
                a,
                b,
            );
            &&& after.0.len() == rep.len()
            &&& forest(parents(after.0))
            &&& classes(parents(after.0)) == merged(classes(parents(rep)), a, b, s)
            &&& 0 <= s < rep.len()
            &&& classes(parents(after.0))[a] == s
            &&& classes(parents(after.0))[b] == s
        }),
{
    let p = parents(rep);
    let part = classes(p);
    let x = part[a];
    let y = part[b];
    let first = <QuickUnion<H, COMPRESS_PATH, IS_SLICE> as Find<T>>::searched(rep, a);
    let found = <QuickUnion<H, COMPRESS_PATH, IS_SLICE> as Find<T>>::searched(first, b);
    lemma_searched_roots::<H, T, COMPRESS_PATH, IS_SLICE>(rep, a);
    lemma_searched_roots::<H, T, COMPRESS_PATH, IS_SLICE>(first, b);
    lemma_parent(p, a);
    lemma_parent(p, b);
    lemma_parent(p, x);
    lemma_parent(p, y);
    assert(parents(found)[x] == position(found[x]));
    assert(parents(found)[y] == position(found[y]));
    H::lemma_survivor(heur, x, y);
    let s = H::survivor(heur, x, y);
    if x != y {
        lemma_link_partition(found, s, other(x, y, s));
        assert(absorbed(part, s, other(x, y, s)) =~= merged(part, a, b, s));
    } else {
        assert(part =~= merged(part, a, b, x));
    }
}

impl<H, T, const COMPRESS_PATH: bool, const IS_SLICE: bool> Connected<T> for QuickUnion<
    H,
    COMPRESS_PATH,
    IS_SLICE,
> where T: VertexType {
    fn connected(representative: &mut [T], a: T::IdentifierType, b: T::IdentifierType) -> (r:
        bool) {
        let root_a = Self::find(representative, a);
        let root_b = Self::find(representative, b);
        T::usize(root_a.id()) == T::usize(root_b.id())
    }
}

impl<H, T, const COMPRESS_PATH: bool, const IS_SLICE: bool> Union<T> for QuickUnion<
    H,
    COMPRESS_PATH,
    IS_SLICE,
> where T: VertexType, H: Heuristic {
    open spec fn weighted(rep: Seq<T>, heur: Seq<usize>) -> bool {
        H::weighted(parents(rep), heur)
    }

    proof fn lemma_searched_weighted(rep: Seq<T>, heur: Seq<usize>, a: int) {
        if COMPRESS_PATH {
            lemma_halved_shortcut(rep, a);
            H::lemma_shortcut_weighted(parents(rep), parents(halved(rep, a)), heur);
        }
    }

    /// The root that the policy `H` lets stay; the common root where `a` and
    /// `b` are in one tree already.
    open spec fn survivor(rep: Seq<T>, heur: Seq<usize>, a: int, b: int) -> int {
        let part = classes(parents(rep));
        if part[a] == part[b] {
            part[a]
        } else {
            H::survivor(heur, part[a], part[b])
        }
    }

    /// The arrays as the lookups of `a` and of `b` leave them, with the two
    /// roots linked by the policy `H`.
    open spec fn united(rep: Seq<T>, heur: Seq<usize>, a: int, b: int) -> (Seq<T>, Seq<usize>) {
        let part = classes(parents(rep));
        linked::<H, T>(Self::searched(Self::searched(rep, a), b), heur, part[a], part[b])
    }

    proof fn lemma_survivor(rep: Seq<T>, heur: Seq<usize>, a: int, b: int) {
        let part = classes(parents(rep));
        H::lemma_survivor(heur, part[a], part[b]);
    }

    fn union_sets(
        representative: &mut [T],
        heuristic: &mut [usize],
        a: T::IdentifierType,
        b: T::IdentifierType,
    ) {
        let ghost before = representative@;
        let ghost part = classes(parents(before));
        assert(part.len() == before.len());
        let ghost pa = T::spec_usize(a) as int;
        let ghost pb = T::spec_usize(b) as int;
        let ghost x = part[pa];
        let ghost y = part[pb];
        proof {
            let rep = representative@;
            Self::lemma_searched(rep, pa);
            Self::lemma_searched_weighted(rep, heuristic@, pa);
            Self::lemma_searched_weighted(Self::searched(rep, pa), heuristic@, pb);
        }
        let a = Self::find(representative, a).id();
        proof {
            lemma_parent(parents(representative@), x);
            assert(part[x] == x);
        }
        let b = Self::find(representative, b).id();
        let ghost found = representative@;
        let ghost heur = heuristic@;
        proof {
            let p = parents(found);
            lemma_parent(p, y);
            assert(part[y] == y);
            assert(root_of(p, x) == x) by {
                assert(classes(p)[x] == x);
            }
            assert(is_root(p, root_of(p, x)));
            assert(p[x] == position(found[x]));
            assert(representative.len() == found.len());
            H::lemma_weighted_linkable(p, heur, x, y);
        }
        H::handle_decision(a, b, heuristic, representative);
        proof {
            lemma_united::<H, T, COMPRESS_PATH, IS_SLICE>(before, heur, pa, pb);
        }
    }
}

} // verus!
