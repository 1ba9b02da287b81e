use core::mem;
use pulau_rs::{QuickFind, UnionFind, VertexType};

#[derive(Clone, Copy)]
pub struct CityVertex<'a> {
    pub id: u8,
    pub name: &'a str,
    pub road_cost: u32,
}

impl<'a> CityVertex<'a> {
    pub fn new(id: u8, name: &'a str, road_cost: u32) -> Self {
        Self {
            id,
            name,
            road_cost,
        }
    }
}

impl PartialEq for CityVertex<'_> {
    fn eq(&self, other: &Self) -> bool {
        self.id == other.id
    }
}

impl PartialOrd for CityVertex<'_> {
    fn partial_cmp(&self, other: &Self) -> Option<core::cmp::Ordering> {
        Some(self.id.cmp(&other.id))
    }
}

impl Eq for CityVertex<'_> {}

impl VertexType for CityVertex<'_> {
    type IdentifierType = u8;

    fn id(&self) -> u8 {
        self.id
    }

    fn usize(a: u8) -> usize {
        a as usize
    }
}

#[test]
fn test_qf() {
    let mut uf = UnionFind::<QuickFind<false>, u32, 10>::default();
    uf.union_sets(4, 3);
    uf.union_sets(3, 8);
    uf.union_sets(6, 5);
    uf.union_sets(9, 4);
    assert!(uf.connected(3, 9));
}

#[test]
fn test_qf_slice() {
    let mut representative = (0..10).collect::<heapless::Vec<_, 10>>();
    let mut uf = UnionFind::<QuickFind<true>, u32, 10>::new(representative.as_mut());
    uf.union_sets(4, 3);
    uf.union_sets(3, 8);
    uf.union_sets(6, 5);
    uf.union_sets(9, 4);
    assert!(uf.connected(3, 9));
}

#[test]
fn test_custom_type() {
    let cities = [
        CityVertex::new(0, "Zurich", 320),
        CityVertex::new(1, "Munich", 210),
        CityVertex::new(2, "Paris", 180),
        CityVertex::new(3, "London", 190),
        CityVertex::new(4, "Oslo", 250),
        CityVertex::new(5, "Stockholm", 280),
        CityVertex::new(6, "Helsinki", 280),
    ];

    let mut uf = UnionFind::<QuickFind<false>, CityVertex<'static>, 7>::try_from(cities).unwrap();
    uf.union_sets(4, 3);
    uf.union_sets(3, 2);
    uf.union_sets(6, 5);
    assert!(uf.connected(4, 2));
    assert!(uf.connected(6, 5));
}

#[test]
fn test_sz() {
    assert_eq!(
        mem::size_of::<[u32; 10]>(),
        mem::size_of::<UnionFind::<'_, QuickFind<false>, u32, 10>>()
    );
    assert_eq!(
        mem::size_of::<&'_ [u32]>(),
        mem::size_of::<UnionFind::<'_, QuickFind<true>, u32, 10>>()
    );
    assert_eq!(
        mem::size_of::<[CityVertex<'_>; 10]>(),
        mem::size_of::<UnionFind::<'_, QuickFind<false>, CityVertex<'_>, 10>>()
    );
}

#[test]
fn test_getter() {
    let mut uf = UnionFind::<QuickFind<false>, u32, 10>::default();
    uf.union_sets(4, 3);
    uf.union_sets(3, 8);
    uf.union_sets(6, 5);
    uf.union_sets(9, 4);
    for _ in uf.heuristic() {
        panic!("Should not even loop!");
    }
}
