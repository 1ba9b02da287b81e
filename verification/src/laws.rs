//! What holds of every engine, stated over the partitions and arrays that the
//! contracts of the operations speak of.

use vstd::prelude::*;
use crate::forest::{ancestor, classes, forest, is_root, root_of, singletons};
use crate::heuristic::Heuristic;
use crate::quickfind::{flat, QuickFind};
use crate::quickunion::{lemma_searched_roots, lemma_united, QuickUnion};
use crate::strategy::{lemma_merged_unites, merged, same_group, unites, Find, Union};
use crate::vertex::{parents, position, VertexType};

verus! {

/// In an engine as it is made, an element is connected to itself and to no
/// other element.
pub proof fn law_fresh_engine(n: nat, x: int, y: int)
    requires
        0 <= x < n,
        0 <= y < n,
    ensures
        same_group(singletons(n), x, x),
        same_group(singletons(n), x, y) <==> x == y,
{
}

/// To be connected is an equivalence relation on the elements, in every
/// state of an engine: it is reflexive, symmetric and transitive.
pub proof fn law_equivalence(part: Seq<int>, x: int, y: int, z: int)
    ensures
        same_group(part, x, x),
        same_group(part, x, y) ==> same_group(part, y, x),
        same_group(part, x, y) && same_group(part, y, z) ==> same_group(part, x, z),
{
}

/// After the union of `a` and `b`, two elements are connected where they
/// were connected before, or where each of them was connected to `a` or to
/// `b`; and nowhere else. In particular `a` and `b` are connected.
pub proof fn law_union_connects(part: Seq<int>, a: int, b: int, s: int)
    requires
        0 <= a < part.len(),
        0 <= b < part.len(),
        s == part[a] || s == part[b],
    ensures
        unites(part, merged(part, a, b, s), a, b),
        same_group(merged(part, a, b, s), a, b),
{
    lemma_merged_unites(part, a, b, s);
}

/// Quick-Find: the union of `a` and `b`, made a second time, leaves both
/// arrays as the first left them.
pub proof fn law_quickfind_union_idempotent<T: VertexType, const IS_SLICE: bool>(
    rep: Seq<T>,
    heur: Seq<usize>,
    a: int,
    b: int,
)
    requires
        flat(rep),
        0 <= a < rep.len(),
        0 <= b < rep.len(),
    ensures
        ({
            let once = <QuickFind<IS_SLICE> as Union<T>>::united(rep, heur, a, b);
            <QuickFind<IS_SLICE> as Union<T>>::united(once.0, once.1, a, b) == once
        }),
{
    assert(rep[a] == rep[position(rep[a])]);
    assert(rep[b] == rep[position(rep[b])]);
}

/// Quick-Union: the union of `a` and `b`, made a second time, leaves both
/// arrays as the first left them, provided that the lookups of the second
/// call find nothing to compress.
pub proof fn law_quickunion_union_idempotent<
    H: Heuristic,
    T: VertexType,
    const COMPRESS_PATH: bool,
    const IS_SLICE: bool,
>(rep: Seq<T>, heur: Seq<usize>, a: int, b: int)
    requires
        forest(parents(rep)),
        0 <= a < rep.len(),
        0 <= b < rep.len(),
        ({
            let once = <QuickUnion<H, COMPRESS_PATH, IS_SLICE> as Union<T>>::united(
                rep,
                heur,
                a,
                b,
            );
            <QuickUnion<H, COMPRESS_PATH, IS_SLICE> as Find<T>>::searched(
                <QuickUnion<H, COMPRESS_PATH, IS_SLICE> as Find<T>>::searched(once.0, a),
                b,
            ) == once.0
        }),
    ensures
        ({
            let once = <QuickUnion<H, COMPRESS_PATH, IS_SLICE> as Union<T>>::united(
                rep,
                heur,
                a,
                b,
            );
            <QuickUnion<H, COMPRESS_PATH, IS_SLICE> as Union<T>>::united(once.0, once.1, a, b)
                == once
        }),
{
    lemma_united::<H, T, COMPRESS_PATH, IS_SLICE>(rep, heur, a, b);
}

/// Quick-Union: a lookup with path compression leaves every element with
/// the root it had, and a union on two forests that stand for one partition,
/// one made with path compression and one without, leaves them standing for
/// one partition again, with equal heuristic arrays. Compression changes
/// the shape of the trees and nothing that `connected` reports.
pub proof fn law_compression_keeps_groups<H: Heuristic, T: VertexType, const IS_SLICE: bool>(
    with: Seq<T>,
    without: Seq<T>,
    heur: Seq<usize>,
    a: int,
    b: int,
)
    requires
        forest(parents(with)),
        forest(parents(without)),
        with.len() == without.len(),
        classes(parents(with)) == classes(parents(without)),
        0 <= a < with.len(),
        0 <= b < with.len(),
    ensures
        classes(parents(<QuickUnion<H, true, IS_SLICE> as Find<T>>::searched(with, a)))
            == classes(parents(<QuickUnion<H, false, IS_SLICE> as Find<T>>::searched(without, a))),
        ({
            let compressed = <QuickUnion<H, true, IS_SLICE> as Union<T>>::united(
                with,
                heur,
                a,
                b,
            );
            let plain = <QuickUnion<H, false, IS_SLICE> as Union<T>>::united(
                without,
                heur,
                a,
                b,
            );
            &&& classes(parents(compressed.0)) == classes(parents(plain.0))
            &&& compressed.1 == plain.1
        }),
{
    lemma_searched_roots::<H, T, true, IS_SLICE>(with, a);
    lemma_united::<H, T, true, IS_SLICE>(with, heur, a, b);
    lemma_united::<H, T, false, IS_SLICE>(without, heur, a, b);
}

/// Quick-Union: after a union, following the parent pointers from any
/// element reaches a root in at most as many steps as there are elements.
pub proof fn law_walk_ends_in_root<
    H: Heuristic,
    T: VertexType,
    const COMPRESS_PATH: bool,
    const IS_SLICE: bool,
>(rep: Seq<T>, heur: Seq<usize>, a: int, b: int, i: int)
    requires
        forest(parents(rep)),
        0 <= a < rep.len(),
        0 <= b < rep.len(),
        0 <= i < rep.len(),
    ensures
        ({
            let after = parents(
                <QuickUnion<H, COMPRESS_PATH, IS_SLICE> as Union<T>>::united(rep, heur, a, b).0,
            );
            is_root(after, ancestor(after, i, rep.len()))
        }),
{
    lemma_united::<H, T, COMPRESS_PATH, IS_SLICE>(rep, heur, a, b);
    let after = parents(
        <QuickUnion<H, COMPRESS_PATH, IS_SLICE> as Union<T>>::united(rep, heur, a, b).0,
    );
    assert(is_root(after, root_of(after, i)));
}

} // verus!
