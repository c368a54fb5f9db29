use toecs::world::ent::EntityPool;
use toecs::world::sparse::{
    DenseIndex, Generation, RawDenseIndex, RawSparseIndex, SparseArray, SparseIndex, SparseSet,
    UNIT_LEN,
};

fn index(slot: u32, gen: u32) -> SparseIndex {
    SparseIndex::new(RawSparseIndex(slot), Generation { raw: gen })
}

#[test]
fn sparse_set() {
    let mut set = SparseSet::<usize>::default();

    // Indices are allocatead manually:
    let i0 = SparseIndex::initial(RawSparseIndex(0));
    let i1 = SparseIndex::initial(RawSparseIndex(1));
    let i2 = SparseIndex::initial(RawSparseIndex(2));

    assert_eq!(set.insert(i0, 0), None);
    assert_eq!(set.insert(i1, 1), None);
    assert_eq!(set.insert(i2, 2), None);

    assert_eq!(set.get(i0), Some(&0));
    assert_eq!(set.get(i1), Some(&1));
    assert_eq!(set.get(i2), Some(&2));

    let i1_new = i1.increment_generation();
    assert_eq!(set.insert(i1_new, 100), Some(1));

    assert_eq!(set.get(i0), Some(&0));
    // old index is invalidated
    assert_eq!(set.get(i1), None);
    assert_eq!(set.get(i1_new), Some(&100));
    assert_eq!(set.get(i2), Some(&2));

    assert_eq!(set.swap_remove(i0), Some(0));

    for (i, x) in set.iter_with_index() {
        match i {
            _ if *i == i1_new => assert_eq!(x, &100),
            _ if *i == i2 => assert_eq!(x, &2),
            _ => unreachable!(),
        }
    }
}

#[test]
fn tests_sparse_set() {
    let mut set = SparseSet::<usize>::default();

    let i0 = SparseIndex::initial(RawSparseIndex(0));
    let i1 = SparseIndex::initial(RawSparseIndex(1));
    let i2 = SparseIndex::initial(RawSparseIndex(2));

    assert_eq!(set.insert(i0, 0), None);
    assert_eq!(set.insert(i1, 1), None);
    assert_eq!(set.insert(i2, 2), None);

    assert_eq!(set.get(i0), Some(&0));
    assert_eq!(set.get(i1), Some(&1));
    assert_eq!(set.get(i2), Some(&2));

    let i1_new = i1.increment_generation();
    assert_eq!(set.insert(i1_new, 100), Some(1));

    assert_eq!(set.get(i0), Some(&0));
    assert_eq!(set.get(i1), None);
    assert_eq!(set.get(i1_new), Some(&100));
    assert_eq!(set.get(i2), Some(&2));

    assert_eq!(set.swap_remove(i0), Some(0));

    for (i, x) in set.iter_with_index() {
        match i {
            _ if *i == i1_new => assert_eq!(x, &100),
            _ if *i == i2 => assert_eq!(x, &2),
            _ => unreachable!(),
        }
    }
}

#[test]
fn entity_pool() {
    let mut pool = EntityPool::default();
    let e0 = pool.allocate();
    let e1 = pool.allocate();
    let e2 = pool.allocate();

    assert_eq!(pool.iter().collect::<Vec<_>>(), [&e0, &e1, &e2]);

    // deallocation at the boundary
    assert!(pool.dealloc(e2));
    assert!(!pool.dealloc(e2));
    assert_eq!(pool.iter().collect::<Vec<_>>(), [&e0, &e1]);

    // make sure the slot is recycled:
    let e2_new = pool.allocate();
    assert_eq!(e2_new.generation().to_usize(), 2);

    // deallocation at non-boundary
    assert!(pool.dealloc(e1));
    assert!(!pool.dealloc(e1));
    assert_eq!(pool.iter().collect::<Vec<_>>(), [&e0, &e2_new]);
}

#[test]
fn tests_entity_pool() {
    let mut pool = EntityPool::default();
    let e0 = pool.allocate();
    let e1 = pool.allocate();
    let e2 = pool.allocate();

    assert_eq!(pool.iter().collect::<Vec<_>>(), [&e0, &e1, &e2]);

    assert!(pool.dealloc(e2));
    assert!(!pool.dealloc(e2));
    assert_eq!(pool.iter().collect::<Vec<_>>(), [&e0, &e1]);

    let e2_new = pool.allocate();
    assert_eq!(e2_new.generation().to_usize(), 2);

    assert!(pool.dealloc(e1));
    assert!(!pool.dealloc(e1));
    assert_eq!(pool.iter().collect::<Vec<_>>(), [&e0, &e2_new]);
}

#[test]
fn index_conversions() {
    assert_eq!(RawSparseIndex::from_usize(7), RawSparseIndex(7));
    assert_eq!(RawSparseIndex(7).to_usize(), 7);
    assert_eq!(RawDenseIndex::from_usize(9), RawDenseIndex(9));
    assert_eq!(RawDenseIndex(9).to_usize(), 9);
    assert_eq!(Generation::initial().to_usize(), 1);
    assert_eq!(Generation::initial().increment().to_usize(), 2);
    let i = SparseIndex::initial(RawSparseIndex(3));
    assert_eq!(i.raw(), RawSparseIndex(3));
    assert_eq!(i.generation(), Generation { raw: 1 });
    assert_eq!(i.to_usize(), 3);
    assert_eq!(i.increment_generation(), index(3, 2));
    let d = DenseIndex::initial(RawDenseIndex(4));
    assert_eq!(d, DenseIndex::new(RawDenseIndex(4), Generation { raw: 1 }));
    assert_eq!(d.raw(), RawDenseIndex(4));
    assert_eq!(d.generation().to_usize(), 1);
    assert_eq!(d.to_usize(), 4);
}

#[test]
fn sparse_array_grows_in_units() {
    let mut array = SparseArray::new();
    assert_eq!(array.data.len(), 0);
    assert!(array.maybe_grow(0));
    assert_eq!(array.data.len(), UNIT_LEN);
    assert!(!array.maybe_grow(63));
    assert_eq!(array.data.len(), 64);
    assert!(array.maybe_grow(64));
    assert_eq!(array.data.len(), 128);
    assert!(array.maybe_grow(1000));
    assert_eq!(array.data.len(), 1024);
    assert!(array.data.iter().all(|link| link.is_none()));
}

#[test]
fn sparse_array_links() {
    let mut array = SparseArray::new();
    let i5 = index(5, 1);
    assert_eq!(array.get(i5), None);
    assert!(array.get_or_alloc_mut(i5).is_none());
    assert_eq!(array.data.len(), 64);
    let link = DenseIndex::new(RawDenseIndex(0), Generation { raw: 1 });
    array.set(5, link);
    assert_eq!(array.get(i5), Some(link));
    assert_eq!(array.get_or_alloc_mut(i5).map(|d| *d), Some(link));
    array.get_or_alloc_mut(i5).unwrap().gen = Generation { raw: 3 };
    assert_eq!(array.get(i5).unwrap().generation().to_usize(), 3);
    array.set(5, link);
    // a link is found whatever the generation that is asked for
    assert_eq!(array.get(index(5, 9)), Some(link));
    assert_eq!(array.remove(i5), Some(link));
    assert_eq!(array.remove(i5), None);
    assert_eq!(array.get(i5), None);
    assert_eq!(array.remove(index(500, 1)), None);
    assert_eq!(array.data.len(), 64);
}

#[test]
fn swap_remove_keeps_the_others() {
    // for each place of a set of five
    for victim in 0..5u32 {
        let mut set = SparseSet::<u32>::default();
        for slot in 0..5u32 {
            assert_eq!(set.insert(index(slot, 1), slot * 10), None);
        }
        assert_eq!(set.len(), 5);
        assert_eq!(set.swap_remove(index(victim, 1)), Some(victim * 10));
        assert_eq!(set.len(), 4);
        assert_eq!(set.get(index(victim, 1)), None);
        assert!(!set.contains(index(victim, 1)));
        for slot in 0..5u32 {
            if slot != victim {
                assert!(set.contains(index(slot, 1)));
                assert_eq!(set.get(index(slot, 1)), Some(&(slot * 10)));
            }
        }
        // no value is duplicated
        let mut values = set.as_slice().to_vec();
        values.sort();
        values.dedup();
        assert_eq!(values.len(), 4);
        // removing once more changes nothing
        assert_eq!(set.swap_remove(index(victim, 1)), None);
        assert_eq!(set.len(), 4);
    }
}

#[test]
fn swap_remove_moves_the_last_item() {
    let mut set = SparseSet::<&str>::default();
    set.insert(index(0, 1), "a");
    set.insert(index(1, 1), "b");
    set.insert(index(2, 1), "c");
    set.insert(index(3, 1), "d");
    assert_eq!(set.swap_remove(index(1, 1)), Some("b"));
    assert_eq!(set.as_slice(), ["a", "d", "c"]);
    assert_eq!(set.indices(), [index(0, 1), index(3, 1), index(2, 1)]);
    assert_eq!(set.swap_remove(index(2, 1)), Some("c"));
    assert_eq!(set.as_slice(), ["a", "d"]);
    assert_eq!(set.swap_remove(index(0, 1)), Some("a"));
    assert_eq!(set.as_slice(), ["d"]);
    assert_eq!(set.swap_remove(index(3, 1)), Some("d"));
    assert_eq!(set.len(), 0);
    assert_eq!(set.swap_remove(index(3, 1)), None);
}

#[test]
fn stale_index_is_absent() {
    let mut set = SparseSet::<u8>::default();
    let old = index(4, 1);
    let new = index(4, 2);
    assert_eq!(set.insert(new, 7), None);
    assert!(!set.contains(old));
    assert_eq!(set.get(old), None);
    assert_eq!(set.get_mut(old), None);
    assert_eq!(set.get_with_index(old), None);
    assert_eq!(set.get_with_index_mut(old), None);
    // a stale index takes nothing out and leaves the set as it is
    assert_eq!(set.swap_remove(old), None);
    assert_eq!(set.len(), 1);
    assert_eq!(set.get(new), Some(&7));
    assert_eq!(set.insert(index(4, 3), 8), Some(7));
    assert_eq!(set.len(), 1);
    assert_eq!(set.get(new), None);
}

#[test]
fn sparse_set_access() {
    let mut set = SparseSet::<i32>::default();
    let a = index(70, 1);
    let b = index(3, 5);
    set.insert(a, -1);
    set.insert(b, -2);
    assert_eq!(set.len(), 2);
    assert_eq!(set.as_slice(), [-1, -2]);
    assert_eq!(set.indices(), [a, b]);
    assert_eq!(set.as_slice_with_indices(), (&[a, b][..], &[-1, -2][..]));
    assert_eq!(set.iter().copied().collect::<Vec<_>>(), [-1, -2]);
    assert_eq!(set.iter_with_index(), [(&a, &-1), (&b, &-2)]);
    assert_eq!(set.get_with_index(b), Some((&b, &-2)));

    *set.get_mut(a).unwrap() = 10;
    assert_eq!(set.get(a), Some(&10));
    {
        let (i, x) = set.get_with_index_mut(b).unwrap();
        assert_eq!(*i, b);
        *x = 20;
    }
    assert_eq!(set.as_slice(), [10, 20]);
    set.as_mut_slice()[0] = 11;
    {
        let (indices, items) = set.as_mut_slice_with_indices();
        assert_eq!(indices, [a, b]);
        items[1] = 21;
    }
    assert_eq!(set.as_slice(), [11, 21]);

    let (links, indices, items) = set.parts();
    assert_eq!(links.len(), 128);
    assert_eq!(links[70], Some(DenseIndex::new(RawDenseIndex(0), Generation { raw: 1 })));
    assert_eq!(links[3], Some(DenseIndex::new(RawDenseIndex(1), Generation { raw: 5 })));
    assert_eq!(links.iter().filter(|l| l.is_some()).count(), 2);
    assert_eq!(indices, [a, b]);
    assert_eq!(items, [11, 21]);
    {
        let (_, _, items) = set.parts_mut();
        items[0] = 12;
    }
    assert_eq!(set.get(a), Some(&12));
}
