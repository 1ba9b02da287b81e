use core::mem;
use pulau_rs::{ByRank, BySize, QuickUnion, UnionFind, Unweighted, VertexType};

#[derive(Clone, Copy)]
pub struct CityVertex<'a> {
    pub id: u8,
    pub name: &'a str,
    pub road_cost: u32,
}

impl PartialEq for CityVertex<'_> {
    fn eq(&self, other: &Self) -> bool {
        self.id == other.id
    }
}

impl Eq for CityVertex<'_> {}

impl VertexType for CityVertex<'_> {
    type IdentifierType = u8;

    fn id(&self) -> u8 {
        self.id
    }

    fn usize(a: u8) -> usize {
        a as usize
    }
}

#[test]
fn test_qu() {
    let mut uf = UnionFind::<QuickUnion<Unweighted, false, false>, u8, 10>::default();
    uf.union_sets(4, 3);
    uf.union_sets(3, 8);
    uf.union_sets(6, 5);
    uf.union_sets(9, 4);
    assert!(uf.connected(3, 9));
}

#[test]
fn test_getter_qu() {
    let mut uf = UnionFind::<QuickUnion<Unweighted, false, false>, u8, 10>::default();
    uf.union_sets(4, 3);
    uf.union_sets(3, 8);
    uf.union_sets(6, 5);
    uf.union_sets(9, 4);
    for _ in uf.heuristic() {
        panic!("Should not even loop!");
    }
}

#[test]
fn test_qu_mem() {
    assert_eq!(
        mem::size_of::<[u32; 10]>(),
        mem::size_of::<UnionFind::<'_, QuickUnion<Unweighted, false, false>, u32, 10>>()
    );
    assert_eq!(
        mem::size_of::<[CityVertex<'_>; 10]>(),
        mem::size_of::<UnionFind::<'_, QuickUnion<Unweighted, false, false>, CityVertex<'_>, 10>>()
    );
}

#[test]
fn test_qupc() {
    let mut uf = UnionFind::<QuickUnion<Unweighted, true, false>, u8, 10>::default();
    uf.union_sets(4, 3);
    uf.union_sets(3, 8);
    uf.union_sets(6, 5);
    uf.union_sets(9, 4);
    assert!(uf.connected(3, 9));
}

#[test]
fn test_getter_qupc() {
    let mut uf = UnionFind::<QuickUnion<Unweighted, true, false>, u8, 10>::default();
    uf.union_sets(4, 3);
    uf.union_sets(3, 8);
    uf.union_sets(6, 5);
    uf.union_sets(9, 4);
    for _ in uf.heuristic() {
        panic!("Should not even loop!");
    }
}

#[test]
fn test_qupc_mem() {
    assert_eq!(
        mem::size_of::<[u32; 10]>(),
        mem::size_of::<UnionFind::<'_, QuickUnion<Unweighted, true, false>, u32, 10>>()
    );
    assert_eq!(
        mem::size_of::<[CityVertex<'_>; 10]>(),
        mem::size_of::<UnionFind::<'_, QuickUnion<Unweighted, true, false>, CityVertex<'_>, 10>>()
    );
}

#[test]
fn quickunion_test_wqupc_sz() {
    let mut uf = UnionFind::<QuickUnion<BySize, true, false>, u8, 10>::default();
    uf.union_sets(1, 2);
    uf.union_sets(2, 3);
    uf.union_sets(3, 4);
    assert_eq!([1, 4, 1, 1, 1, 1, 1, 1, 1, 1], *uf.heuristic());
    uf.union_sets(5, 6);
    uf.union_sets(6, 7);
    uf.union_sets(7, 8);
    uf.union_sets(8, 9);
    assert_eq!([1, 4, 1, 1, 1, 5, 1, 1, 1, 1], *uf.heuristic());
    assert_eq!([0, 1, 1, 1, 1, 5, 5, 5, 5, 5], *uf.representative());
    uf.union_sets(4, 5);
    assert_eq!([0, 5, 1, 1, 1, 5, 5, 5, 5, 5], *uf.representative());
}

#[test]
fn test_wqupc_mem() {
    assert_eq!(
        mem::size_of::<[u32; 10]>() + mem::size_of::<[usize; 10]>(),
        mem::size_of::<UnionFind::<'_, QuickUnion<BySize, true, false>, u32, 10>>()
    );
    assert_eq!(
        mem::size_of::<[CityVertex<'_>; 10]>() + mem::size_of::<[usize; 10]>(),
        mem::size_of::<UnionFind::<'_, QuickUnion<BySize, true, false>, CityVertex<'_>, 10>>()
    );
}

#[test]
fn test_wqupc_rank() {
    let mut uf = UnionFind::<QuickUnion<ByRank, true, false>, u8, 12>::default();
    uf.union_sets(1, 2);
    uf.union_sets(2, 3);
    uf.union_sets(3, 4);
    assert_eq!([0, 1, 0, 0, 0, 0, 0, 0, 0, 0, 0, 0], *uf.heuristic());
    uf.union_sets(5, 6);
    uf.union_sets(6, 7);
    uf.union_sets(7, 8);
    uf.union_sets(8, 9);
    assert_eq!([0, 1, 0, 0, 0, 1, 0, 0, 0, 0, 0, 0], *uf.heuristic());
    assert_eq!([0, 1, 1, 1, 1, 5, 5, 5, 5, 5, 10, 11], *uf.representative());
    uf.union_sets(4, 5);
    assert_eq!([0, 1, 1, 1, 1, 1, 5, 5, 5, 5, 10, 11], *uf.representative());
    assert_eq!([0, 2, 0, 0, 0, 1, 0, 0, 0, 0, 0, 0], *uf.heuristic());
    uf.union_sets(4, 11);
    assert_eq!([0, 1, 1, 1, 1, 1, 5, 5, 5, 5, 10, 1], *uf.representative());
    assert_eq!([0, 2, 0, 0, 0, 1, 0, 0, 0, 0, 0, 0], *uf.heuristic());
}

#[test]
fn test_wqupc_rank_mem() {
    assert_eq!(
        mem::size_of::<[u32; 10]>() + mem::size_of::<[usize; 10]>(),
        mem::size_of::<UnionFind::<'_, QuickUnion<ByRank, true, false>, u32, 10>>()
    );
    assert_eq!(
        mem::size_of::<[CityVertex<'_>; 10]>() + mem::size_of::<[usize; 10]>(),
        mem::size_of::<UnionFind::<'_, QuickUnion<ByRank, true, false>, CityVertex<'_>, 10>>()
    );
}

#[test]
fn test_slice() {
    let mut representative = heapless::Vec::<_, 12>::new();
    let _ = representative.resize(12, 0);

    for i in 0..(12 as u8) {
        representative[i as usize] = i;
    }

    let mut heuristic = heapless::Vec::<usize, 12>::from_slice(&[0; 12]).unwrap();

    {
        let mut uf = UnionFind::<QuickUnion<ByRank, true, true>, u8, 12>::new(
            &mut representative,
            &mut heuristic,
        );

        uf.union_sets(1, 2);
        uf.union_sets(2, 3);
        uf.union_sets(3, 4);
        assert_eq!([0, 1, 0, 0, 0, 0, 0, 0, 0, 0, 0, 0], **uf.heuristic());
        uf.union_sets(5, 6);
        uf.union_sets(6, 7);
        uf.union_sets(7, 8);
        uf.union_sets(8, 9);
        assert_eq!([0, 1, 0, 0, 0, 1, 0, 0, 0, 0, 0, 0], **uf.heuristic());
        assert_eq!([0, 1, 1, 1, 1, 5, 5, 5, 5, 5, 10, 11], **uf.representative());
        uf.union_sets(4, 5);
        assert_eq!([0, 1, 1, 1, 1, 1, 5, 5, 5, 5, 10, 11], **uf.representative());
        assert_eq!([0, 2, 0, 0, 0, 1, 0, 0, 0, 0, 0, 0], **uf.heuristic());
        uf.union_sets(4, 11);
        assert_eq!([0, 1, 1, 1, 1, 1, 5, 5, 5, 5, 10, 1], **uf.representative());
        assert_eq!([0, 2, 0, 0, 0, 1, 0, 0, 0, 0, 0, 0], **uf.heuristic());
    }
}
