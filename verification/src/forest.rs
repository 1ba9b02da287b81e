//! Parent-pointer forests as sequences of positions.
//!
//! Element `i` of a sequence `p` is the position of the parent of `i`; a
//! position that is its own parent is a root.

use vstd::prelude::*;
use vstd::set_lib::*;

verus! {

/// Every parent pointer names a position of the sequence.
pub open spec fn bounded(p: Seq<int>) -> bool {
    forall|i: int| 0 <= i < p.len() ==> 0 <= #[trigger] p[i] < p.len()
}

/// Position `i` is its own parent.
pub open spec fn is_root(p: Seq<int>, i: int) -> bool {
    p[i] == i
}

/// The position reached from `i` by following `k` parent pointers.
pub open spec fn ancestor(p: Seq<int>, i: int, k: nat) -> int
    decreases k,
{
    if k == 0 {
        i
    } else {
        ancestor(p, p[i], (k - 1) as nat)
    }
}

/// The position reached from `i` after as many steps as there are elements.
pub open spec fn root_of(p: Seq<int>, i: int) -> int {
    ancestor(p, i, p.len())
}

/// Following parent pointers from any position ends in a root after at most
/// `p.len()` steps.
pub open spec fn forest(p: Seq<int>) -> bool {
    &&& bounded(p)
    &&& forall|i: int| 0 <= i < p.len() ==> is_root(p, #[trigger] root_of(p, i))
}

/// The number of non-root positions met when walking up from `i`, the walk
/// being cut off after `fuel` steps.
pub open spec fn climb(p: Seq<int>, i: int, fuel: nat) -> nat
    decreases fuel,
{
    if fuel == 0 || p[i] == i {
        0
    } else {
        1 + climb(p, p[i], (fuel - 1) as nat)
    }
}

/// The number of parent pointers between `i` and its root.
pub open spec fn depth(p: Seq<int>, i: int) -> nat {
    climb(p, i, p.len())
}

/// Each position's root, as a sequence: the partition that `p` stands for.
pub open spec fn classes(p: Seq<int>) -> Seq<int> {
    Seq::new(p.len(), |i: int| root_of(p, i))
}

/// The parent pointers of the partition in which every position is alone.
pub open spec fn singletons(n: nat) -> Seq<int> {
    Seq::new(n, |i: int| i)
}

/// Where every position is its own parent, every position is its own root.
pub proof fn lemma_singletons(n: nat)
    ensures
        forest(singletons(n)),
        classes(singletons(n)) == singletons(n),
{
    let p = singletons(n);
    assert forall|i: int| 0 <= i < n implies #[trigger] root_of(p, i) == i by {
        lemma_root_fixed(p, i, n);
    }
    assert(classes(p) =~= p);
}

pub proof fn lemma_ancestor_bounded(p: Seq<int>, i: int, k: nat)
    requires
        bounded(p),
        0 <= i < p.len(),
    ensures
        0 <= ancestor(p, i, k) < p.len(),
    decreases k,
{
    if k > 0 {
        lemma_ancestor_bounded(p, p[i], (k - 1) as nat);
    }
}

pub proof fn lemma_ancestor_split(p: Seq<int>, i: int, j: nat, k: nat)
    ensures
        ancestor(p, i, j + k) == ancestor(p, ancestor(p, i, j), k),
    decreases j,
{
    if j > 0 {
        lemma_ancestor_split(p, p[i], (j - 1) as nat, k);
        assert((j + k - 1) as nat == (j - 1) as nat + k);
    }
}

pub proof fn lemma_root_fixed(p: Seq<int>, r: int, k: nat)
    requires
        is_root(p, r),
    ensures
        ancestor(p, r, k) == r,
    decreases k,
{
    if k > 0 {
        lemma_root_fixed(p, r, (k - 1) as nat);
    }
}

/// Once a walk has reached a root, more steps change nothing.
pub proof fn lemma_ancestor_settled(p: Seq<int>, i: int, j: nat, k: nat)
    requires
        is_root(p, ancestor(p, i, j)),
        j <= k,
    ensures
        ancestor(p, i, k) == ancestor(p, i, j),
{
    lemma_ancestor_split(p, i, j, (k - j) as nat);
    lemma_root_fixed(p, ancestor(p, i, j), (k - j) as nat);
    assert(j + (k - j) as nat == k);
}

/// A walk that ends in a root within `fuel` steps needs `climb` steps, and
/// more fuel does not change the count.
pub proof fn lemma_climb_settled(p: Seq<int>, i: int, fuel: nat, more: nat)
    requires
        is_root(p, ancestor(p, i, fuel)),
        fuel <= more,
    ensures
        climb(p, i, fuel) <= fuel,
        climb(p, i, more) == climb(p, i, fuel),
        ancestor(p, i, climb(p, i, fuel)) == ancestor(p, i, fuel),
    decreases fuel,
{
    if fuel == 0 {
        assert(p[i] == i);
        assert(climb(p, i, more) == 0);
    } else if p[i] == i {
        lemma_root_fixed(p, i, fuel);
    } else {
        lemma_climb_settled(p, p[i], (fuel - 1) as nat, (more - 1) as nat);
    }
}

/// How depth and root of a position relate to those of its parent.
pub proof fn lemma_parent(p: Seq<int>, i: int)
    requires
        forest(p),
        0 <= i < p.len(),
    ensures
        0 <= root_of(p, i) < p.len(),
        is_root(p, root_of(p, i)),
        root_of(p, p[i]) == root_of(p, i),
        is_root(p, i) ==> depth(p, i) == 0 && root_of(p, i) == i,
        !is_root(p, i) ==> depth(p, i) == depth(p, p[i]) + 1,
        depth(p, i) <= p.len(),
        ancestor(p, i, depth(p, i)) == root_of(p, i),
{
    let n = p.len();
    lemma_ancestor_bounded(p, i, n);
    assert(is_root(p, root_of(p, i)));
    lemma_climb_settled(p, i, n, n);
    if is_root(p, i) {
        lemma_root_fixed(p, i, n);
    } else {
        let m = (n - 1) as nat;
        assert(ancestor(p, i, n) == ancestor(p, p[i], m));
        lemma_ancestor_settled(p, p[i], m, n);
        lemma_climb_settled(p, p[i], m, n);
    }
}

/// `d` gets smaller along every parent pointer that leaves a non-root.
pub open spec fn ranked(p: Seq<int>, d: spec_fn(int) -> nat) -> bool {
    forall|j: int| 0 <= j < p.len() && p[j] != j ==> d(#[trigger] p[j]) < d(j)
}

/// The first `k + 1` positions of a walk that has not reached a root are
/// pairwise different: the set returned holds all of them.
proof fn lemma_walk_distinct(p: Seq<int>, d: spec_fn(int) -> nat, i: int, k: nat) -> (s: Set<int>)
    requires
        bounded(p),
        ranked(p, d),
        0 <= i < p.len(),
        !is_root(p, ancestor(p, i, k)),
    ensures
        s.finite(),
        s.len() == k + 1,
        s.subset_of(set_int_range(0, p.len() as int)),
        forall|x: int| s.contains(x) ==> d(x) >= d(ancestor(p, i, k)),
    decreases k,
{
    if k == 0 {
        set![i]
    } else {
        let j = (k - 1) as nat;
        let prev = ancestor(p, i, j);
        lemma_ancestor_bounded(p, i, j);
        lemma_ancestor_split(p, i, j, 1);
        assert(ancestor(p, prev, 1) == p[prev]) by {
            assert(ancestor(p, p[prev], 0) == p[prev]);
        }
        assert(ancestor(p, i, k) == p[prev]);
        let s0 = lemma_walk_distinct(p, d, i, j);
        assert(d(p[prev]) < d(prev));
        s0.insert(p[prev])
    }
}

/// A sequence whose parent pointers lower some measure is a forest: a walk
/// that met no root in `p.len()` steps would have met more positions than
/// there are.
pub proof fn lemma_ranked_forest(p: Seq<int>, d: spec_fn(int) -> nat)
    requires
        bounded(p),
        ranked(p, d),
    ensures
        forest(p),
{
    assert forall|i: int| 0 <= i < p.len() implies is_root(p, #[trigger] root_of(p, i)) by {
        if !is_root(p, root_of(p, i)) {
            let s = lemma_walk_distinct(p, d, i, p.len());
            lemma_int_range(0, p.len() as int);
            lemma_len_subset(s, set_int_range(0, p.len() as int));
        }
    }
}

proof fn lemma_class_kept(p: Seq<int>, f: spec_fn(int) -> int, i: int, k: nat)
    requires
        bounded(p),
        0 <= i < p.len(),
        forall|j: int| 0 <= j < p.len() ==> f(#[trigger] p[j]) == f(j),
    ensures
        f(ancestor(p, i, k)) == f(i),
    decreases k,
{
    if k > 0 {
        lemma_class_kept(p, f, p[i], (k - 1) as nat);
    }
}

/// A map that is constant along parent pointers and fixes every root is the
/// map from positions to roots.
pub proof fn lemma_classes_by(p: Seq<int>, f: spec_fn(int) -> int)
    requires
        forest(p),
        forall|j: int| 0 <= j < p.len() ==> f(#[trigger] p[j]) == f(j),
        forall|r: int| 0 <= r < p.len() && is_root(p, r) ==> #[trigger] f(r) == r,
    ensures
        forall|i: int| 0 <= i < p.len() ==> #[trigger] root_of(p, i) == f(i),
{
    assert forall|i: int| 0 <= i < p.len() implies #[trigger] root_of(p, i) == f(i) by {
        lemma_class_kept(p, f, i, p.len());
        lemma_ancestor_bounded(p, i, p.len());
        assert(is_root(p, root_of(p, i)));
    }
}

/// `q` is `p` with some positions pointed at their grandparents.
pub open spec fn shortcut(p: Seq<int>, q: Seq<int>) -> bool {
    &&& q.len() == p.len()
    &&& forall|x: int| 0 <= x < p.len() ==> #[trigger] q[x] == p[x] || q[x] == p[p[x]]
}

/// Pointing positions at their grandparents keeps the forest, its roots and
/// the root of every position.
pub proof fn lemma_shortcut(p: Seq<int>, q: Seq<int>)
    requires
        forest(p),
        shortcut(p, q),
    ensures
        forest(q),
        classes(q) == classes(p),
        forall|x: int| 0 <= x < p.len() ==> (is_root(q, x) <==> is_root(p, x)),
{
    let d = |x: int| depth(p, x);
    let f = |x: int| root_of(p, x);
    assert forall|j: int| 0 <= j < q.len() implies 0 <= #[trigger] q[j] < q.len() by {
        lemma_parent(p, j);
        lemma_parent(p, p[j]);
    }
    assert forall|j: int| 0 <= j < q.len() && q[j] != j implies d(#[trigger] q[j]) < d(j) by {
        lemma_parent(p, j);
        lemma_parent(p, p[j]);
    }
    lemma_ranked_forest(q, d);
    assert forall|j: int| 0 <= j < q.len() implies f(#[trigger] q[j]) == f(j) by {
        lemma_parent(p, j);
        lemma_parent(p, p[j]);
    }
    assert forall|r: int| 0 <= r < q.len() implies (is_root(q, r) <==> is_root(p, r)) by {
        lemma_parent(p, r);
        lemma_parent(p, p[r]);
    }
    assert forall|r: int| 0 <= r < q.len() && is_root(q, r) implies #[trigger] f(r) == r by {
        lemma_parent(p, r);
    }
    lemma_classes_by(q, f);
    assert(classes(q) =~= classes(p));
}

/// Pointing positions at their grandparents lengthens no way to a root.
pub proof fn lemma_shortcut_depth(p: Seq<int>, q: Seq<int>, i: int)
    requires
        forest(p),
        shortcut(p, q),
        0 <= i < p.len(),
    ensures
        depth(q, i) <= depth(p, i),
    decreases depth(p, i),
{
    lemma_shortcut(p, q);
    lemma_parent(p, i);
    lemma_parent(q, i);
    if !is_root(p, i) {
        lemma_parent(p, p[i]);
        lemma_shortcut_depth(p, q, q[i]);
    }
}

/// The root that position `i` has once root `x` hangs under root `y`.
pub open spec fn joined(p: Seq<int>, x: int, y: int, i: int) -> int {
    if root_of(p, i) == x {
        y
    } else {
        root_of(p, i)
    }
}

/// Hanging one root under another root keeps the forest and merges exactly
/// the two trees.
pub proof fn lemma_link(p: Seq<int>, x: int, y: int)
    requires
        forest(p),
        0 <= x < p.len(),
        0 <= y < p.len(),
        is_root(p, x),
        is_root(p, y),
        x != y,
    ensures
        forest(p.update(x, y)),
        forall|i: int| 0 <= i < p.len() ==> #[trigger] root_of(p.update(x, y), i) == joined(p, x, y, i),
{
    let q = p.update(x, y);
    let d = |j: int| if root_of(p, j) == x { depth(p, j) + 1 } else { depth(p, j) };
    let f = |j: int| joined(p, x, y, j);
    lemma_parent(p, x);
    lemma_parent(p, y);
    assert forall|j: int| 0 <= j < q.len() && q[j] != j implies d(#[trigger] q[j]) < d(j) by {
        lemma_parent(p, j);
    }
    lemma_ranked_forest(q, d);
    assert forall|j: int| 0 <= j < q.len() implies f(#[trigger] q[j]) == f(j) by {
        lemma_parent(p, j);
    }
    assert forall|r: int| 0 <= r < q.len() && is_root(q, r) implies #[trigger] f(r) == r by {
        lemma_parent(p, r);
    }
    lemma_classes_by(q, f);
}

/// Hanging the root `x` under the root `y` puts the positions of the tree of
/// `x` one step further from their root, and moves no other position.
pub proof fn lemma_link_depth(p: Seq<int>, x: int, y: int, i: int)
    requires
        forest(p),
        0 <= x < p.len(),
        0 <= y < p.len(),
        is_root(p, x),
        is_root(p, y),
        x != y,
        0 <= i < p.len(),
    ensures
        depth(p.update(x, y), i) == (if root_of(p, i) == x {
            depth(p, i) + 1
        } else {
            depth(p, i)
        }),
    decreases depth(p, i),
{
    let q = p.update(x, y);
    lemma_link(p, x, y);
    lemma_parent(p, i);
    lemma_parent(q, i);
    if i == x {
        lemma_parent(q, y);
    } else if !is_root(p, i) {
        lemma_link_depth(p, x, y, p[i]);
    }
}

} // verus!
