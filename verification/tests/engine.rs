use core::mem::size_of;
use pulau_rs::{ByRank, QuickFind, QuickUnion, UnionFind};

#[test]
fn test_qf_sz() {
    assert_eq!(
        size_of::<UnionFind::<'_, QuickFind<false>, u32, 32>>(),
        size_of::<[u32; 32]>()
    );
    assert_eq!(
        size_of::<UnionFind::<'_, QuickFind<false>, u8, 32>>(),
        size_of::<[u8; 32]>()
    );
    assert_eq!(
        size_of::<UnionFind::<'_, QuickFind<false>, usize, 32>>(),
        size_of::<[usize; 32]>()
    );
}

#[test]
fn lib_test_wqupc_sz() {
    assert_eq!(
        size_of::<UnionFind::<'_, QuickUnion<ByRank, true, false>, usize, 32>>(),
        size_of::<[usize; 32]>() * 2
    );

    assert_eq!(
        size_of::<UnionFind::<'_, QuickUnion<ByRank, true, false>, usize, 32>>(),
        size_of::<[usize; 32]>() + size_of::<[usize; 32]>()
    );
}
