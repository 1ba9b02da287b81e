//! Counting the positions below a bound that satisfy a predicate.

use vstd::prelude::*;

verus! {

/// How many `i` with `0 <= i < n` satisfy `f`.
pub open spec fn count(n: nat, f: spec_fn(int) -> bool) -> nat
    decreases n,
{
    if n == 0 {
        0
    } else {
        count((n - 1) as nat, f) + if f(n - 1) {
            1nat
        } else {
            0nat
        }
    }
}

pub proof fn lemma_count_bound(n: nat, f: spec_fn(int) -> bool)
    ensures
        count(n, f) <= n,
    decreases n,
{
    if n > 0 {
        lemma_count_bound((n - 1) as nat, f);
    }
}

/// Predicates that agree below `n` count the same.
pub proof fn lemma_count_same(n: nat, f: spec_fn(int) -> bool, g: spec_fn(int) -> bool)
    requires
        forall|i: int| 0 <= i < n ==> #[trigger] f(i) == g(i),
    ensures
        count(n, f) == count(n, g),
    decreases n,
{
    if n > 0 {
        lemma_count_same((n - 1) as nat, f, g);
    }
}

/// A position that satisfies the predicate is counted.
pub proof fn lemma_count_member(n: nat, f: spec_fn(int) -> bool, x: int)
    requires
        0 <= x < n,
        f(x),
    ensures
        count(n, f) >= 1,
    decreases n,
{
    if x < n - 1 {
        lemma_count_member((n - 1) as nat, f, x);
    }
}

/// A predicate that holds of one position below `n` only counts 1.
pub proof fn lemma_count_one(n: nat, f: spec_fn(int) -> bool, x: int)
    requires
        0 <= x < n,
        forall|i: int| 0 <= i < n ==> #[trigger] f(i) == (i == x),
    ensures
        count(n, f) == 1,
    decreases n,
{
    if x < n - 1 {
        lemma_count_one((n - 1) as nat, f, x);
    } else {
        lemma_count_same((n - 1) as nat, f, |i: int| false);
        lemma_count_none((n - 1) as nat);
    }
}

proof fn lemma_count_none(n: nat)
    ensures
        count(n, |i: int| false) == 0,
    decreases n,
{
    if n > 0 {
        lemma_count_none((n - 1) as nat);
    }
}

/// Where `h` holds of exactly the positions of which one of `f` and `g`
/// holds, and these two never hold together, `h` counts their sum.
pub proof fn lemma_count_disjoint(
    n: nat,
    f: spec_fn(int) -> bool,
    g: spec_fn(int) -> bool,
    h: spec_fn(int) -> bool,
)
    requires
        forall|i: int| 0 <= i < n ==> #[trigger] h(i) == (f(i) || g(i)),
        forall|i: int| 0 <= i < n ==> !(#[trigger] f(i) && g(i)),
    ensures
        count(n, h) == count(n, f) + count(n, g),
    decreases n,
{
    if n > 0 {
        lemma_count_disjoint((n - 1) as nat, f, g, h);
    }
}

} // verus!
