//! The linking policies of Quick-Union: which of two roots stays a root, and
//! what is written down about the trees.

use vstd::prelude::*;
use crate::counting::{
    count,
    lemma_count_bound,
    lemma_count_disjoint,
    lemma_count_member,
    lemma_count_one,
    lemma_count_same,
};
use crate::forest::{
    classes,
    depth,
    forest,
    lemma_link,
    lemma_link_depth,
    lemma_parent,
    lemma_shortcut,
    lemma_shortcut_depth,
    root_of,
    shortcut,
    singletons,
};
use crate::vertex::{parents, position, VertexType};

verus! {

/// Link by rank of tree
#[derive(Default, Debug)]
pub struct ByRank;

/// Link by size of tree
#[derive(Default, Debug)]
pub struct BySize;

/// No heuristic linking
#[derive(Default, Debug)]
pub struct Unweighted;

/// The positions that the partition `part` puts into the group of `r`.
pub open spec fn in_group(part: Seq<int>, r: int) -> spec_fn(int) -> bool {
    |i: int| part[i] == r
}

/// How many positions the partition `part` puts into the group of `r`.
pub open spec fn group_size(part: Seq<int>, r: int) -> nat {
    count(part.len(), in_group(part, r))
}

/// Of the roots `a` and `b`, the one that is not `s`.
pub open spec fn other(a: int, b: int, s: int) -> int {
    if s == a {
        b
    } else {
        a
    }
}

/// A linking policy: it is asked once for every union of two trees.
pub trait Heuristic: Sized {
    /// What the policy keeps true of the heuristic array beside the forest
    /// `p`, from the making of an engine on.
    spec fn weighted(p: Seq<int>, heur: Seq<usize>) -> bool;

    /// What one link of the roots `a` and `b` needs of the heuristic array.
    spec fn linkable(p: Seq<int>, heur: Seq<usize>, a: int, b: int) -> bool;

    /// An engine's arrays are fit for the link of any two of its roots.
    proof fn lemma_weighted_linkable(p: Seq<int>, heur: Seq<usize>, a: int, b: int)
        requires
            forest(p),
            p.len() <= usize::MAX,
            Self::weighted(p, heur),
            0 <= a < p.len(),
            0 <= b < p.len(),
            p[a] == a,
            p[b] == b,
        ensures
            Self::linkable(p, heur, a, b),
    ;

    /// Pointing positions at their grandparents, as a lookup with path
    /// compression does, keeps it true.
    proof fn lemma_shortcut_weighted(p: Seq<int>, q: Seq<int>, heur: Seq<usize>)
        requires
            forest(p),
            shortcut(p, q),
            Self::weighted(p, heur),
        ensures
            Self::weighted(q, heur),
    ;

    /// Of two distinct roots `a` and `b`, the one that stays a root.
    spec fn survivor(heur: Seq<usize>, a: int, b: int) -> int;

    /// The heuristic array after the distinct roots `a` and `b` were linked.
    spec fn reweighed(heur: Seq<usize>, a: int, b: int) -> Seq<usize>;

    /// The survivor is one of the two roots.
    proof fn lemma_survivor(heur: Seq<usize>, a: int, b: int)
        ensures
            Self::survivor(heur, a, b) == a || Self::survivor(heur, a, b) == b,
    ;

    /// Links the roots `a` and `b`: the one that does not survive gets the
    /// survivor's entry, and the heuristic array is brought up to date.
    /// Nothing changes where `a` and `b` are one root. What the policy keeps
    /// true of an engine's arrays stays true where it was.
    fn handle_decision<T>(
        a: T::IdentifierType,
        b: T::IdentifierType,
        heuristic: &mut [usize],
        representative: &mut [T],
    ) where T: VertexType
        requires
            forest(parents(old(representative)@)),
            T::spec_usize(a) < old(representative)@.len(),
            T::spec_usize(b) < old(representative)@.len(),
            position(old(representative)@[T::spec_usize(a) as int]) == T::spec_usize(a),
            position(old(representative)@[T::spec_usize(b) as int]) == T::spec_usize(b),
            Self::linkable(
                parents(old(representative)@),
                old(heuristic)@,
                T::spec_usize(a) as int,
                T::spec_usize(b) as int,
            ),
        ensures
            T::spec_usize(a) == T::spec_usize(b) ==> final(representative)@ == old(
                representative,
            )@ && final(heuristic)@ == old(heuristic)@,
            T::spec_usize(a) != T::spec_usize(b) ==> ({
                let x = T::spec_usize(a) as int;
                let y = T::spec_usize(b) as int;
                let s = Self::survivor(old(heuristic)@, x, y);
                &&& final(representative)@ == old(representative)@.update(
                    other(x, y, s),
                    old(representative)@[s],
                )
                &&& final(heuristic)@ == Self::reweighed(old(heuristic)@, x, y)
            }),
            forest(parents(final(representative)@)),
            Self::weighted(parents(old(representative)@), old(heuristic)@) ==> Self::weighted(
                parents(final(representative)@),
                final(heuristic)@,
            ),
    ;
}

/// The two arrays after the policy `H` has linked the roots `a` and `b`: the
/// root that does not survive gets the survivor's entry. Nothing changes
/// where `a` and `b` are one root.
pub open spec fn linked<H: Heuristic, T: VertexType>(
    rep: Seq<T>,
    heur: Seq<usize>,
    a: int,
    b: int,
) -> (Seq<T>, Seq<usize>) {
    if a == b {
        (rep, heur)
    } else {
        let s = H::survivor(heur, a, b);
        (rep.update(other(a, b, s), rep[s]), H::reweighed(heur, a, b))
    }
}

/// The partition after root `lose` was hung under root `win`.
pub open spec fn absorbed(part: Seq<int>, win: int, lose: int) -> Seq<int> {
    Seq::new(
        part.len(),
        |i: int|
            if part[i] == lose {
                win
            } else {
                part[i]
            },
    )
}

/// Hanging the root `lose` under the root `win` makes the partition
/// `absorbed(.., win, lose)` of the one before.
pub proof fn lemma_link_partition<T: VertexType>(rep: Seq<T>, win: int, lose: int)
    requires
        forest(parents(rep)),
        0 <= win < rep.len(),
        0 <= lose < rep.len(),
        win != lose,
        position(rep[win]) == win,
        position(rep[lose]) == lose,
    ensures
        forest(parents(rep.update(lose, rep[win]))),
        classes(parents(rep.update(lose, rep[win]))) == absorbed(classes(parents(rep)), win, lose),
        classes(parents(rep))[win] == win,
        classes(parents(rep))[lose] == lose,
{
    let p = parents(rep);
    let q = parents(rep.update(lose, rep[win]));
    assert(q =~= p.update(lose, win));
    lemma_link(p, lose, win);
    lemma_parent(p, win);
    lemma_parent(p, lose);
    assert(classes(q) =~= absorbed(classes(p), win, lose));
}

/// The group of `win` grows by the group of `lose`, which is not empty; the
/// other groups keep their sizes.
pub proof fn lemma_absorbed_sizes(part: Seq<int>, win: int, lose: int)
    requires
        0 <= win < part.len(),
        0 <= lose < part.len(),
        win != lose,
        part[win] == win,
        part[lose] == lose,
    ensures
        group_size(absorbed(part, win, lose), win) == group_size(part, win) + group_size(
            part,
            lose,
        ),
        group_size(part, lose) >= 1,
        group_size(part, win) >= 1,
        group_size(part, win) + group_size(part, lose) <= part.len(),
        forall|r: int|
            r != win && r != lose ==> #[trigger] group_size(absorbed(part, win, lose), r)
                == group_size(part, r),
{
    let n = part.len();
    let after = absorbed(part, win, lose);
    lemma_count_disjoint(n, in_group(part, win), in_group(part, lose), in_group(after, win));
    lemma_count_member(n, in_group(part, win), win);
    lemma_count_member(n, in_group(part, lose), lose);
    lemma_count_bound(n, in_group(after, win));
    assert forall|r: int| r != win && r != lose implies #[trigger] group_size(after, r)
        == group_size(part, r) by {
        lemma_count_same(n, in_group(after, r), in_group(part, r));
    }
}

/// Where every position is alone, every group has one member.
pub proof fn lemma_singleton_sizes(n: nat)
    ensures
        forall|r: int| 0 <= r < n ==> #[trigger] group_size(singletons(n), r) == 1,
{
    assert forall|r: int| 0 <= r < n implies #[trigger] group_size(singletons(n), r) == 1 by {
        lemma_count_one(n, in_group(singletons(n), r), r);
    }
}

impl Heuristic for Unweighted {
    /// The heuristic array is not used.
    open spec fn weighted(p: Seq<int>, heur: Seq<usize>) -> bool {
        true
    }

    proof fn lemma_shortcut_weighted(p: Seq<int>, q: Seq<int>, heur: Seq<usize>) {
    }

    /// The link needs nothing of the heuristic array.
    open spec fn linkable(p: Seq<int>, heur: Seq<usize>, a: int, b: int) -> bool {
        true
    }

    proof fn lemma_weighted_linkable(p: Seq<int>, heur: Seq<usize>, a: int, b: int) {
    }

    /// The first root is hung under the second.
    open spec fn survivor(heur: Seq<usize>, a: int, b: int) -> int {
        b
    }

    open spec fn reweighed(heur: Seq<usize>, a: int, b: int) -> Seq<usize> {
        heur
    }

    proof fn lemma_survivor(heur: Seq<usize>, a: int, b: int) {
    }

    fn handle_decision<T>(
        a: T::IdentifierType,
        b: T::IdentifierType,
        _heuristic: &mut [usize],
        representative: &mut [T],
    ) where T: VertexType {
        let a: usize = T::usize(a);
        let b: usize = T::usize(b);
        if a == b {
            return ;
        }
        proof {
            lemma_link_partition(representative@, b as int, a as int);
        }
        representative[a] = representative[b];
    }
}

/// Every root's rank is below the size of its group.
pub open spec fn ranked_below_size(part: Seq<int>, heur: Seq<usize>) -> bool {
    &&& heur.len() == part.len()
    &&& forall|r: int|
        0 <= r < part.len() && part[r] == r ==> #[trigger] heur[r] < group_size(part, r)
}

/// No position is further from its root than the root's rank says.
pub open spec fn ranked_above_height(p: Seq<int>, heur: Seq<usize>) -> bool {
    forall|i: int| 0 <= i < p.len() ==> depth(p, i) <= heur[#[trigger] root_of(p, i)]
}

/// Every root's counter is the size of its group.
pub open spec fn sized(part: Seq<int>, heur: Seq<usize>) -> bool {
    &&& heur.len() == part.len()
    &&& forall|r: int|
        0 <= r < part.len() && part[r] == r ==> #[trigger] heur[r] == group_size(part, r)
}

impl Heuristic for ByRank {
    /// A root's rank is at least the height of its tree, and below the size
    /// of its tree.
    open spec fn weighted(p: Seq<int>, heur: Seq<usize>) -> bool {
        &&& ranked_below_size(classes(p), heur)
        &&& ranked_above_height(p, heur)
    }

    proof fn lemma_shortcut_weighted(p: Seq<int>, q: Seq<int>, heur: Seq<usize>) {
        lemma_shortcut(p, q);
        assert forall|i: int| 0 <= i < q.len() implies depth(q, i) <= heur[#[trigger] root_of(
            q,
            i,
        )] by {
            lemma_shortcut_depth(p, q, i);
            assert(classes(q)[i] == classes(p)[i]);
        }
    }

    /// There is a rank for every position, no position is further from its
    /// root than the root's rank says, and a rank that the link is to raise
    /// is not the largest number there is.
    open spec fn linkable(p: Seq<int>, heur: Seq<usize>, a: int, b: int) -> bool {
        &&& heur.len() == p.len()
        &&& ranked_above_height(p, heur)
        &&& a != b && heur[a] == heur[b] ==> heur[a] < usize::MAX
    }

    proof fn lemma_weighted_linkable(p: Seq<int>, heur: Seq<usize>, a: int, b: int) {
        lemma_parent(p, a);
        lemma_count_bound(p.len(), in_group(classes(p), a));
        assert(classes(p)[a] == a);
    }

    /// The root of the higher rank; the first where the ranks are equal.
    open spec fn survivor(heur: Seq<usize>, a: int, b: int) -> int {
        if heur[a] < heur[b] {
            b
        } else {
            a
        }
    }

    /// Equal ranks raise the survivor's rank by one.
    open spec fn reweighed(heur: Seq<usize>, a: int, b: int) -> Seq<usize> {
        if heur[a] == heur[b] {
            heur.update(a, (heur[a] + 1) as usize)
        } else {
            heur
        }
    }

    proof fn lemma_survivor(heur: Seq<usize>, a: int, b: int) {
    }

    /// After the link as before it, no position is further from its root
    /// than the root's rank says.
    fn handle_decision<T>(
        a: T::IdentifierType,
        b: T::IdentifierType,
        rank: &mut [usize],
        representative: &mut [T],
    ) where T: VertexType
        ensures
            ranked_above_height(parents(final(representative)@), final(rank)@),
    {
        let mut a: usize = T::usize(a);
        let mut b: usize = T::usize(b);
        if a != b {
            if rank[a] < rank[b] {
                core::mem::swap(&mut a, &mut b);
            }
            let ghost p = parents(representative@);
            proof {
                lemma_link_partition(representative@, a as int, b as int);
                if ranked_below_size(classes(p), rank@) {
                    lemma_absorbed_sizes(classes(p), a as int, b as int);
                }
            }
            representative[b] = representative[a];
            if rank[a] == rank[b] {
                rank[a] += 1;
            }
            proof {
                let q = parents(representative@);
                assert(q =~= p.update(b as int, a as int));
                assert forall|i: int| 0 <= i < q.len() implies depth(q, i) <= rank@[#[trigger] root_of(
                    q,
                    i,
                )] by {
                    lemma_link_depth(p, b as int, a as int, i);
                    lemma_parent(p, i);
                    assert(classes(q)[i] == absorbed(classes(p), a as int, b as int)[i]);
                    assert(depth(p, i) <= old(rank)@[root_of(p, i)]);
                }
            }
        }
    }
}

impl Heuristic for BySize {
    /// A root's counter is the size of its tree.
    open spec fn weighted(p: Seq<int>, heur: Seq<usize>) -> bool {
        sized(classes(p), heur)
    }

    proof fn lemma_shortcut_weighted(p: Seq<int>, q: Seq<int>, heur: Seq<usize>) {
        lemma_shortcut(p, q);
    }

    /// Every root's counter is the size of its tree: the sum of two of them
    /// is then no more than the number of positions.
    open spec fn linkable(p: Seq<int>, heur: Seq<usize>, a: int, b: int) -> bool {
        sized(classes(p), heur)
    }

    proof fn lemma_weighted_linkable(p: Seq<int>, heur: Seq<usize>, a: int, b: int) {
    }

    /// The root of the larger tree; the first where the sizes are equal.
    open spec fn survivor(heur: Seq<usize>, a: int, b: int) -> int {
        if heur[a] < heur[b] {
            b
        } else {
            a
        }
    }

    /// The survivor's size grows by the size of the other tree.
    open spec fn reweighed(heur: Seq<usize>, a: int, b: int) -> Seq<usize> {
        let s = Self::survivor(heur, a, b);
        heur.update(s, (heur[a] + heur[b]) as usize)
    }

    proof fn lemma_survivor(heur: Seq<usize>, a: int, b: int) {
    }

    fn handle_decision<T>(
        a: T::IdentifierType,
        b: T::IdentifierType,
        size: &mut [usize],
        representative: &mut [T],
    ) where T: VertexType {
        let mut a: usize = T::usize(a);
        let mut b: usize = T::usize(b);
        if a != b {
            if size[a] < size[b] {
                core::mem::swap(&mut a, &mut b);
            }
            proof {
                let part = classes(parents(representative@));
                lemma_link_partition(representative@, a as int, b as int);
                lemma_absorbed_sizes(part, a as int, b as int);
            }
            representative[b] = representative[a];
            size[a] += size[b];
        }
    }
}

} // verus!
