use pulau_rs::seed::{admit_arrays, all_equal_to, identity_array, names_own_positions};
use pulau_rs::{
    ByRank, BySize, Connected, Error, Find, Heuristic, IndexVertex, QuickFind, QuickUnion,
    Storage, Union, UnionFind, Unweighted, VertexType,
};

type Plain = UnionFind<'static, QuickUnion<Unweighted, false, false>, u8, 10>;
type Halving = UnionFind<'static, QuickUnion<Unweighted, true, false>, u8, 10>;

const PAIRS: [(u8, u8); 6] = [(4, 3), (3, 8), (6, 5), (9, 4), (2, 1), (8, 9)];

fn steps_to_root(parents: &[u8], from: usize) -> Option<usize> {
    let mut at = from;
    for steps in 0..=parents.len() {
        if parents[at] as usize == at {
            return Some(steps);
        }
        at = parents[at] as usize;
    }
    None
}

#[test]
fn fresh_engine_connects_each_element_to_itself_only() {
    let mut qf = UnionFind::<QuickFind<false>, u16, 10>::default();
    let mut rank = UnionFind::<QuickUnion<ByRank, true, false>, u16, 10>::default();
    let mut size = UnionFind::<QuickUnion<BySize, false, false>, u16, 10>::default();
    for x in 0..10u16 {
        for y in 0..10u16 {
            assert_eq!(qf.connected(x, y), x == y);
            assert_eq!(rank.connected(x, y), x == y);
            assert_eq!(size.connected(x, y), x == y);
        }
    }
    assert_eq!(*qf.representative(), [0, 1, 2, 3, 4, 5, 6, 7, 8, 9]);
    assert_eq!(*rank.heuristic(), [0; 10]);
    assert_eq!(*size.heuristic(), [1; 10]);
}

#[test]
fn quick_find_merges_groups_and_keeps_others_apart() {
    let mut uf = UnionFind::<QuickFind<false>, u32, 10>::default();
    uf.union_sets(4, 3);
    uf.union_sets(3, 8);
    uf.union_sets(6, 5);
    uf.union_sets(9, 4);
    assert!(uf.connected(3, 9));
    assert!(!uf.connected(5, 9));
    assert_eq!(*uf.representative(), [0, 1, 2, 8, 8, 5, 5, 7, 8, 8]);
    assert_eq!(uf.find(9), 8);
}

#[test]
fn second_union_changes_nothing() {
    let mut qf = UnionFind::<QuickFind<false>, u8, 10>::default();
    let mut plain = Plain::default();
    let mut rank = UnionFind::<QuickUnion<ByRank, true, false>, u8, 10>::default();
    for (a, b) in PAIRS {
        qf.union_sets(a, b);
        let once = *qf.representative();
        qf.union_sets(a, b);
        assert_eq!(*qf.representative(), once);

        plain.union_sets(a, b);
        let once = *plain.representative();
        plain.union_sets(a, b);
        assert_eq!(*plain.representative(), once);

        rank.union_sets(a, b);
        let once = (*rank.representative(), *rank.heuristic());
        rank.union_sets(a, b);
        assert_eq!((*rank.representative(), *rank.heuristic()), once);
    }
}

#[test]
fn second_union_may_compress_a_deep_tree_further() {
    let mut parents: [u8; 5] = [0, 0, 1, 2, 3];
    let mut uf = UnionFind::<QuickUnion<Unweighted, true, true>, u8, 5>::new(&mut parents);
    uf.union_sets(4, 0);
    assert_eq!(**uf.representative(), [0, 0, 0, 2, 2]);
    uf.union_sets(4, 0);
    assert_eq!(**uf.representative(), [0, 0, 0, 2, 0]);
    assert!(uf.connected(3, 1));
}

#[test]
fn connected_is_an_equivalence() {
    let mut uf = UnionFind::<QuickUnion<BySize, true, false>, u8, 10>::default();
    for (a, b) in PAIRS {
        uf.union_sets(a, b);
    }
    for x in 0..10u8 {
        assert!(uf.connected(x, x));
        for y in 0..10u8 {
            assert_eq!(uf.connected(x, y), uf.connected(y, x));
            for z in 0..10u8 {
                if uf.connected(x, y) && uf.connected(y, z) {
                    assert!(uf.connected(x, z));
                }
            }
        }
    }
    assert!(uf.connected(3, 9));
    assert!(uf.connected(1, 2));
    assert!(!uf.connected(1, 3));
    assert!(!uf.connected(0, 7));
}

#[test]
fn union_connects_the_two_groups_and_nothing_else() {
    let mut uf = UnionFind::<QuickUnion<ByRank, true, false>, u8, 8>::default();
    uf.union_sets(0, 1);
    uf.union_sets(2, 3);
    uf.union_sets(4, 5);
    let mut before = [[false; 8]; 8];
    for i in 0..8u8 {
        for j in 0..8u8 {
            before[i as usize][j as usize] = uf.connected(i, j);
        }
    }
    uf.union_sets(1, 3);
    for i in 0..8usize {
        for j in 0..8usize {
            let joins = (before[i][1] || before[i][3]) && (before[j][1] || before[j][3]);
            assert_eq!(uf.connected(i as u8, j as u8), before[i][j] || joins);
        }
    }
}

#[test]
fn compression_changes_no_answer() {
    let mut plain = Plain::default();
    let mut halving = Halving::default();
    for (a, b) in PAIRS {
        plain.union_sets(a, b);
        halving.union_sets(a, b);
        for x in 0..10u8 {
            assert_eq!(plain.find(x), halving.find(x));
            for y in 0..10u8 {
                assert_eq!(plain.connected(x, y), halving.connected(x, y));
            }
        }
    }
    assert_eq!(*plain.representative(), [0, 1, 1, 8, 3, 5, 5, 7, 8, 8]);
    assert_eq!(*halving.representative(), [0, 1, 1, 8, 8, 5, 5, 7, 8, 8]);
}

#[test]
fn every_walk_ends_in_a_root_within_n_steps() {
    let mut plain = Plain::default();
    let mut rank = UnionFind::<QuickUnion<ByRank, true, false>, u8, 10>::default();
    for (a, b) in [(0, 1), (1, 2), (2, 3), (3, 4), (4, 5), (5, 6), (6, 7), (7, 8), (8, 9)] {
        plain.union_sets(a, b);
        rank.union_sets(a, b);
        for x in 0..10 {
            assert!(steps_to_root(plain.representative(), x).unwrap() <= 10);
            assert!(steps_to_root(rank.representative(), x).unwrap() <= 10);
        }
    }
    assert_eq!(*plain.representative(), [1, 2, 3, 4, 5, 6, 7, 8, 9, 9]);
    assert_eq!(steps_to_root(plain.representative(), 0), Some(9));
}

#[test]
fn lookup_with_compression_halves_the_path() {
    let mut parents: [u8; 7] = [0, 0, 1, 2, 3, 4, 6];
    let mut uf = UnionFind::<QuickUnion<Unweighted, true, true>, u8, 7>::new(&mut parents);
    assert_eq!(uf.find(5), 0);
    assert_eq!(**uf.representative(), [0, 0, 1, 1, 3, 3, 6]);
    assert_eq!(uf.find(5), 0);
    assert_eq!(**uf.representative(), [0, 0, 1, 1, 3, 1, 6]);
    assert_eq!(uf.find(6), 6);
}

#[test]
fn lookup_without_compression_writes_nothing() {
    let mut parents: [u8; 6] = [0, 0, 1, 2, 3, 4];
    let mut uf = UnionFind::<QuickUnion<Unweighted, false, true>, u8, 6>::new(&mut parents);
    assert_eq!(uf.find(5), 0);
    assert!(uf.connected(5, 2));
    assert_eq!(**uf.representative(), [0, 0, 1, 2, 3, 4]);
}

#[test]
fn unweighted_hangs_the_first_root_under_the_second() {
    let mut uf = Plain::default();
    uf.union_sets(4, 3);
    assert_eq!(*uf.representative(), [0, 1, 2, 3, 3, 5, 6, 7, 8, 9]);
    uf.union_sets(3, 8);
    assert_eq!(*uf.representative(), [0, 1, 2, 8, 3, 5, 6, 7, 8, 9]);
    uf.union_sets(8, 4);
    assert_eq!(*uf.representative(), [0, 1, 2, 8, 3, 5, 6, 7, 8, 9]);
}

#[test]
fn rank_keeps_the_first_root_on_a_tie_and_the_higher_otherwise() {
    let mut uf = UnionFind::<QuickUnion<ByRank, false, false>, u8, 6>::default();
    uf.union_sets(0, 1);
    assert_eq!(*uf.representative(), [0, 0, 2, 3, 4, 5]);
    assert_eq!(*uf.heuristic(), [1, 0, 0, 0, 0, 0]);
    uf.union_sets(2, 0);
    assert_eq!(*uf.representative(), [0, 0, 0, 3, 4, 5]);
    assert_eq!(*uf.heuristic(), [1, 0, 0, 0, 0, 0]);
    uf.union_sets(3, 4);
    uf.union_sets(3, 0);
    assert_eq!(*uf.representative(), [3, 0, 0, 3, 3, 5]);
    assert_eq!(*uf.heuristic(), [1, 0, 0, 2, 0, 0]);
}

#[test]
fn size_adds_the_smaller_tree_to_the_larger() {
    let mut uf = UnionFind::<QuickUnion<BySize, false, false>, u8, 6>::default();
    uf.union_sets(0, 1);
    uf.union_sets(2, 0);
    assert_eq!(*uf.representative(), [0, 0, 0, 3, 4, 5]);
    assert_eq!(*uf.heuristic(), [3, 1, 1, 1, 1, 1]);
    uf.union_sets(3, 4);
    uf.union_sets(4, 1);
    assert_eq!(*uf.representative(), [0, 0, 0, 0, 3, 5]);
    assert_eq!(*uf.heuristic(), [5, 1, 1, 2, 1, 1]);
}

#[test]
fn out_of_range_is_reported() {
    let mut qf = UnionFind::<QuickFind<false>, u32, 10>::default();
    let mut qu = UnionFind::<QuickUnion<ByRank, true, false>, u32, 10>::default();
    assert_eq!(qf.try_find(10), Err(Error::OutOfRange));
    assert_eq!(qf.try_union_sets(10, 0), Err(Error::OutOfRange));
    assert_eq!(qf.try_union_sets(0, 10), Err(Error::OutOfRange));
    assert_eq!(qf.try_connected(3, 11), Err(Error::OutOfRange));
    assert_eq!(qu.try_find(10), Err(Error::OutOfRange));
    assert_eq!(qu.try_union_sets(10, 0), Err(Error::OutOfRange));
    assert_eq!(qu.try_connected(u32::MAX, 0), Err(Error::OutOfRange));
    assert_eq!(*qf.representative(), [0, 1, 2, 3, 4, 5, 6, 7, 8, 9]);
    assert_eq!(*qu.representative(), [0, 1, 2, 3, 4, 5, 6, 7, 8, 9]);
    assert_eq!(*qu.heuristic(), [0; 10]);

    assert_eq!(qf.try_union_sets(9, 0), Ok(()));
    assert_eq!(qf.try_find(9), Ok(0));
    assert_eq!(qf.try_connected(0, 9), Ok(true));
    assert_eq!(qu.try_union_sets(9, 0), Ok(()));
    assert_eq!(qu.try_find(0), Ok(9));
    assert_eq!(qu.try_connected(0, 1), Ok(false));
}

#[test]
fn records_must_name_their_own_positions() {
    assert!(UnionFind::<QuickFind<false>, u8, 3>::try_from([0, 1, 2]).is_ok());
    assert!(matches!(
        UnionFind::<QuickFind<false>, u8, 3>::try_from([0, 2, 1]),
        Err(Error::InvalidData)
    ));
    assert!(matches!(
        UnionFind::<QuickUnion<ByRank, true, false>, u8, 3>::try_from([1, 1, 2]),
        Err(Error::InvalidData)
    ));
    assert!(matches!(
        UnionFind::<QuickUnion<Unweighted, false, false>, u8, 3>::try_from([0, 1, 3]),
        Err(Error::InvalidData)
    ));
    let mut uf = UnionFind::<QuickUnion<BySize, true, false>, u8, 3>::try_from([0, 1, 2]).unwrap();
    assert_eq!(*uf.heuristic(), [1, 1, 1]);
    uf.union_sets(2, 1);
    assert_eq!(*uf.representative(), [0, 2, 2]);
    assert_eq!(*uf.heuristic(), [1, 1, 2]);
    let rank = UnionFind::<QuickUnion<ByRank, true, false>, u8, 3>::try_from([0, 1, 2]).unwrap();
    assert_eq!(*rank.heuristic(), [0, 0, 0]);
}

#[test]
fn borrowed_arrays_are_checked_on_request() {
    let mut short: [u8; 3] = [0, 1, 2];
    assert!(matches!(
        UnionFind::<QuickFind<true>, u8, 4>::try_new(&mut short),
        Err(Error::SizeMismatch)
    ));
    let mut shuffled: [u8; 3] = [0, 2, 1];
    assert!(matches!(
        UnionFind::<QuickFind<true>, u8, 3>::try_new(&mut shuffled),
        Err(Error::InvalidData)
    ));
    let mut wrong_length: [u8; 3] = [2, 1, 0];
    assert!(matches!(
        UnionFind::<QuickUnion<Unweighted, true, true>, u8, 2>::try_new(&mut wrong_length),
        Err(Error::SizeMismatch)
    ));

    let mut parents: [u8; 3] = [0, 1, 2];
    let mut ranks: [usize; 2] = [0, 0];
    assert!(matches!(
        UnionFind::<QuickUnion<ByRank, true, true>, u8, 3>::try_new(&mut parents, &mut ranks),
        Err(Error::SizeMismatch)
    ));
    let mut ranks: [usize; 3] = [0, 1, 0];
    assert!(matches!(
        UnionFind::<QuickUnion<ByRank, true, true>, u8, 3>::try_new(&mut parents, &mut ranks),
        Err(Error::InvalidData)
    ));
    let mut sizes: [usize; 3] = [0, 0, 0];
    assert!(matches!(
        UnionFind::<QuickUnion<BySize, true, true>, u8, 3>::try_new(&mut parents, &mut sizes),
        Err(Error::InvalidData)
    ));

    let mut sizes: [usize; 3] = [1, 1, 1];
    {
        let mut uf =
            UnionFind::<QuickUnion<BySize, true, true>, u8, 3>::try_new(&mut parents, &mut sizes)
                .unwrap();
        uf.union_sets(0, 1);
        uf.union_sets(2, 1);
        assert!(uf.connected(0, 2));
    }
    assert_eq!(parents, [0, 0, 0]);
    assert_eq!(sizes, [3, 1, 1]);

    let mut entries: [u8; 3] = [0, 1, 2];
    {
        let mut uf = UnionFind::<QuickFind<true>, u8, 3>::try_new(&mut entries).unwrap();
        uf.union_sets(0, 2);
        assert!(uf.heuristic().is_empty());
    }
    assert_eq!(entries, [2, 1, 2]);

    let mut entries: [u8; 3] = [0, 1, 2];
    {
        let mut uf =
            UnionFind::<QuickUnion<Unweighted, false, true>, u8, 3>::try_new(&mut entries).unwrap();
        uf.union_sets(0, 2);
        uf.union_sets(1, 0);
        assert!(uf.heuristic().is_empty());
    }
    assert_eq!(entries, [2, 2, 2]);
}

#[test]
fn identifiers_become_positions_without_loss() {
    assert_eq!(<u8 as VertexType>::usize(255), 255);
    assert_eq!(<u16 as VertexType>::usize(65535), 65535);
    assert_eq!(<u32 as VertexType>::usize(70000), 70000);
    assert_eq!(<usize as VertexType>::usize(usize::MAX), usize::MAX);
    assert_eq!(<u64 as VertexType>::usize(12), 12);
    assert_eq!(<u64 as VertexType>::usize(u64::MAX), usize::MAX);
    assert_eq!(VertexType::id(&7u32), 7);
    assert_eq!(VertexType::id(&7u64), 7);
}

#[test]
fn vertices_are_made_for_positions_within_reach() {
    assert_eq!(<u8 as IndexVertex>::at(255), 255);
    assert_eq!(<u8 as IndexVertex>::at(256), 0);
    assert_eq!(<u16 as IndexVertex>::at(65535), 65535);
    assert_eq!(<u16 as IndexVertex>::at(65536), 0);
    assert_eq!(<u32 as IndexVertex>::at(4_000_000_000), 4_000_000_000);
    assert_eq!(<u64 as IndexVertex>::at(usize::MAX), usize::MAX as u64);
    assert_eq!(<usize as IndexVertex>::at(17), 17);

    let small: [u8; 4] = identity_array::<u8, 4>();
    assert_eq!(small, [0, 1, 2, 3]);
    let wide = UnionFind::<QuickFind<false>, u8, 300>::default();
    assert_eq!(wide.representative()[255], 255);
    assert_eq!(wide.representative()[256], 0);
    assert_eq!(wide.representative()[299], 0);
    let full = UnionFind::<QuickFind<false>, u8, 256>::default();
    assert_eq!(full.representative()[255], 255);
}

#[test]
fn arrays_are_admitted_by_length_then_by_content() {
    assert!(names_own_positions::<u8>(&[0, 1, 2]));
    assert!(names_own_positions::<u8>(&[]));
    assert!(!names_own_positions::<u8>(&[0, 1, 1]));
    assert!(all_equal_to(&[1, 1, 1], 1));
    assert!(all_equal_to(&[], 5));
    assert!(!all_equal_to(&[1, 0, 1], 1));
    assert_eq!(admit_arrays::<u8>(&[0, 1], &[0, 0], 2, 2, 0), None);
    assert_eq!(admit_arrays::<u8>(&[0, 1], &[0], 2, 2, 0), Some(Error::SizeMismatch));
    assert_eq!(admit_arrays::<u8>(&[1, 0, 2], &[0, 0], 2, 2, 0), Some(Error::SizeMismatch));
    assert_eq!(admit_arrays::<u8>(&[1, 0], &[0, 0], 2, 2, 0), Some(Error::InvalidData));
    assert_eq!(admit_arrays::<u8>(&[0, 1], &[0, 1], 2, 2, 0), Some(Error::InvalidData));
}

#[test]
fn strategies_work_on_plain_slices() {
    let mut entries: [u16; 5] = [0, 1, 2, 3, 4];
    let mut none: [usize; 0] = [];
    <QuickFind<true> as Union<u16>>::union_sets(&mut entries, &mut none, 1, 4);
    <QuickFind<true> as Union<u16>>::union_sets(&mut entries, &mut none, 4, 2);
    assert_eq!(entries, [0, 2, 2, 3, 2]);
    assert_eq!(<QuickFind<true> as Find<u16>>::find(&mut entries, 1), 2);
    assert!(<QuickFind<true> as Connected<u16>>::connected(&mut entries, 1, 4));
    assert!(!<QuickFind<true> as Connected<u16>>::connected(&mut entries, 0, 4));

    let mut parents: [u16; 5] = [0, 1, 2, 3, 4];
    let mut sizes: [usize; 5] = [1; 5];
    type Sized = QuickUnion<BySize, true, true>;
    <Sized as Union<u16>>::union_sets(&mut parents, &mut sizes, 1, 4);
    <Sized as Union<u16>>::union_sets(&mut parents, &mut sizes, 2, 4);
    assert_eq!(parents, [0, 1, 1, 3, 1]);
    assert_eq!(sizes, [1, 3, 1, 1, 1]);
    assert_eq!(<Sized as Find<u16>>::find(&mut parents, 2), 1);
    assert!(<Sized as Connected<u16>>::connected(&mut parents, 2, 4));
}

#[test]
fn policies_link_two_roots() {
    let mut parents: [u8; 4] = [0, 1, 2, 3];
    let mut none: [usize; 0] = [];
    Unweighted::handle_decision::<u8>(0, 1, &mut none, &mut parents);
    assert_eq!(parents, [1, 1, 2, 3]);
    Unweighted::handle_decision::<u8>(2, 2, &mut none, &mut parents);
    assert_eq!(parents, [1, 1, 2, 3]);

    let mut parents: [u8; 4] = [0, 1, 2, 3];
    let mut ranks: [usize; 4] = [0, 2, 0, 0];
    ByRank::handle_decision::<u8>(0, 1, &mut ranks, &mut parents);
    assert_eq!(parents, [1, 1, 2, 3]);
    assert_eq!(ranks, [0, 2, 0, 0]);
    ByRank::handle_decision::<u8>(2, 3, &mut ranks, &mut parents);
    assert_eq!(parents, [1, 1, 2, 2]);
    assert_eq!(ranks, [0, 2, 1, 0]);

    let mut parents: [u8; 4] = [0, 1, 2, 3];
    let mut sizes: [usize; 4] = [1, 1, 1, 1];
    BySize::handle_decision::<u8>(0, 1, &mut sizes, &mut parents);
    assert_eq!(parents, [0, 0, 2, 3]);
    assert_eq!(sizes, [2, 1, 1, 1]);
    BySize::handle_decision::<u8>(2, 0, &mut sizes, &mut parents);
    assert_eq!(parents, [0, 0, 0, 3]);
    assert_eq!(sizes, [3, 1, 1, 1]);
}

#[test]
fn rank_hangs_the_shallower_root_under_the_deeper() {
    let mut ranks: [usize; 3] = [0, 1, 0];
    let mut parents: [u8; 3] = [0, 1, 2];
    ByRank::handle_decision::<u8>(0, 1, &mut ranks, &mut parents);
    assert_eq!(parents, [1, 1, 2]);
    assert_eq!(ranks, [0, 1, 0]);
    ByRank::handle_decision::<u8>(1, 2, &mut ranks, &mut parents);
    assert_eq!(parents, [1, 1, 1]);
    assert_eq!(ranks, [0, 1, 0]);
}

#[test]
fn strategies_report_positions_outside_the_array() {
    let mut parents: [u8; 10] = [0, 0, 1, 3, 4, 5, 6, 7, 8, 9];
    let mut ranks: [usize; 10] = [2, 0, 0, 0, 0, 0, 0, 0, 0, 0];
    type Ranked = QuickUnion<ByRank, true, true>;
    assert_eq!(<Ranked as Find<u8>>::try_find(&mut parents, 10), Err(Error::OutOfRange));
    assert_eq!(<Ranked as Find<u8>>::try_find(&mut parents, 255), Err(Error::OutOfRange));
    assert_eq!(
        <Ranked as Connected<u8>>::try_connected(&mut parents, 2, 10),
        Err(Error::OutOfRange)
    );
    assert_eq!(
        <Ranked as Union<u8>>::try_union_sets(&mut parents, &mut ranks, 10, 0),
        Err(Error::OutOfRange)
    );
    assert_eq!(parents, [0, 0, 1, 3, 4, 5, 6, 7, 8, 9]);
    assert_eq!(ranks, [2, 0, 0, 0, 0, 0, 0, 0, 0, 0]);

    assert_eq!(<Ranked as Find<u8>>::try_find(&mut parents, 2), Ok(0));
    assert_eq!(parents, [0, 0, 0, 3, 4, 5, 6, 7, 8, 9]);
    assert_eq!(<Ranked as Connected<u8>>::try_connected(&mut parents, 2, 9), Ok(false));
    assert_eq!(<Ranked as Union<u8>>::try_union_sets(&mut parents, &mut ranks, 9, 2), Ok(()));
    assert_eq!(parents, [0, 0, 0, 3, 4, 5, 6, 7, 8, 0]);
    assert_eq!(ranks, [2, 0, 0, 0, 0, 0, 0, 0, 0, 0]);

    let mut entries: [u16; 4] = [0, 1, 2, 3];
    let mut none: [usize; 0] = [];
    type Flat = QuickFind<true>;
    assert_eq!(<Flat as Find<u16>>::try_find(&mut entries, 4), Err(Error::OutOfRange));
    assert_eq!(
        <Flat as Union<u16>>::try_union_sets(&mut entries, &mut none, 4, 0),
        Err(Error::OutOfRange)
    );
    assert_eq!(<Flat as Connected<u16>>::try_connected(&mut entries, 0, 4), Err(Error::OutOfRange));
    assert_eq!(entries, [0, 1, 2, 3]);
    assert_eq!(<Flat as Union<u16>>::try_union_sets(&mut entries, &mut none, 3, 0), Ok(()));
    assert_eq!(entries, [0, 1, 2, 0]);
    assert_eq!(<Flat as Find<u16>>::try_find(&mut entries, 3), Ok(0));
    assert_eq!(<Flat as Connected<u16>>::try_connected(&mut entries, 3, 0), Ok(true));
}

#[test]
fn storage_hands_out_its_entries() {
    let mut owned: [u32; 3] = [5, 6, 7];
    assert_eq!(Storage::as_slice(&owned), &[5, 6, 7]);
    Storage::as_mut_slice(&mut owned)[1] = 9;
    assert_eq!(owned, [5, 9, 7]);

    let mut backing: [u32; 2] = [1, 2];
    {
        let mut lent: &mut [u32] = &mut backing;
        assert_eq!(Storage::as_slice(&lent), &[1, 2]);
        Storage::as_mut_slice(&mut lent)[0] = 4;
    }
    assert_eq!(backing, [4, 2]);
}
