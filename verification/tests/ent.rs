use toecs::world::ent::{Entity, EntityPool};
use toecs::world::sparse::{Generation, RawSparseIndex, SparseIndex};

fn entity(slot: u32, gen: u32) -> Entity {
    Entity(SparseIndex::new(RawSparseIndex(slot), Generation { raw: gen }))
}

#[test]
fn first_entities_are_initial() {
    let mut pool = EntityPool::default();
    assert_eq!(pool.slice().len(), 0);
    assert_eq!(pool.allocate(), entity(0, 1));
    assert_eq!(pool.allocate(), entity(1, 1));
    assert_eq!(pool.allocate(), Entity::initial(RawSparseIndex(2)));
    assert_eq!(pool.slice(), [entity(0, 1), entity(1, 1), entity(2, 1)]);
    assert!(pool.contains(entity(1, 1)));
    assert!(!pool.contains(entity(1, 2)));
    assert!(!pool.contains(entity(3, 1)));
}

#[test]
fn dealloc_of_unknown_entities() {
    let mut pool = EntityPool::default();
    // nothing was ever allocated
    assert!(!pool.dealloc(entity(0, 1)));
    let e0 = pool.allocate();
    // never allocated, and a generation that the slot has not reached
    assert!(!pool.dealloc(entity(5, 1)));
    assert!(!pool.dealloc(entity(0, 2)));
    assert_eq!(pool.slice(), [e0]);
    assert!(pool.dealloc(e0));
    assert!(!pool.dealloc(e0));
    assert_eq!(pool.slice().len(), 0);
}

#[test]
fn generation_grows_with_each_cycle() {
    // one slot, used again and again
    let mut pool = EntityPool::default();
    let mut seen: Vec<Entity> = Vec::new();
    let mut e = pool.allocate();
    for cycle in 1..=20u32 {
        assert_eq!(e, entity(0, cycle));
        for old in &seen {
            assert!(old.generation().to_usize() < e.generation().to_usize());
            assert!(!pool.contains(*old));
        }
        assert!(pool.contains(e));
        seen.push(e);
        // the generation is left as it is until the slot is used again
        assert!(pool.dealloc(e));
        assert!(!pool.contains(e));
        e = pool.allocate();
    }
}

#[test]
fn free_slots_are_reused_last_freed_first() {
    let mut pool = EntityPool::default();
    let e: Vec<Entity> = (0..4).map(|_| pool.allocate()).collect();
    assert!(pool.dealloc(e[1]));
    assert!(pool.dealloc(e[3]));
    assert!(pool.can_allocate());
    assert_eq!(pool.find_nth_free(0), RawSparseIndex(3));
    assert_eq!(pool.find_nth_free(1), RawSparseIndex(1));
    assert_eq!(pool.allocate(), entity(3, 2));
    assert_eq!(pool.allocate(), entity(1, 2));
    assert_eq!(pool.allocate(), entity(4, 1));
}

#[test]
fn dealloc_patches_the_moved_entity() {
    let mut pool = EntityPool::default();
    let e: Vec<Entity> = (0..5).map(|_| pool.allocate()).collect();
    assert!(pool.dealloc(e[1]));
    // the last entity took the place of the one that left
    assert_eq!(pool.slice(), [e[0], e[4], e[2], e[3]]);
    for live in [e[0], e[2], e[3], e[4]] {
        assert!(pool.contains(live));
    }
    assert!(pool.dealloc(e[4]));
    assert_eq!(pool.slice(), [e[0], e[3], e[2]]);
    assert!(pool.dealloc(e[3]));
    assert_eq!(pool.slice(), [e[0], e[2]]);
    assert!(pool.contains(e[2]));
    assert!(pool.dealloc(e[2]));
    assert!(pool.dealloc(e[0]));
    assert_eq!(pool.slice().len(), 0);
    assert!(!pool.dealloc(e[0]));
}

#[test]
fn reserved_entities_appear_on_synchronize() {
    let mut pool = EntityPool::default();
    let e: Vec<Entity> = (0..3).map(|_| pool.allocate()).collect();
    assert!(pool.dealloc(e[0]));
    assert!(pool.dealloc(e[2]));

    // two free slots, then new slots
    let r0 = pool.reserve_atomic().unwrap();
    let r1 = pool.reserve_atomic().unwrap();
    let r2 = pool.reserve_atomic().unwrap();
    assert_eq!(r0, entity(2, 2));
    assert_eq!(r1, entity(0, 2));
    assert_eq!(r2, entity(3, 1));
    // not there before the pool is synchronized
    assert!(!pool.contains(r0));
    assert!(!pool.contains(r1));
    assert!(!pool.contains(r2));
    assert_eq!(pool.slice(), [e[1]]);

    pool.synchronize();
    assert_eq!(pool.slice(), [e[1], r0, r1, r2]);
    assert!(pool.contains(r0) && pool.contains(r1) && pool.contains(r2));
    assert!(!pool.contains(e[0]));
    assert!(!pool.contains(e[2]));

    // the count starts again
    pool.synchronize();
    assert_eq!(pool.slice().len(), 4);
    assert_eq!(pool.reserve_atomic(), Some(entity(4, 1)));
}

#[test]
fn reserve_nth_names_the_coming_entities() {
    let mut pool = EntityPool::default();
    let e0 = pool.allocate();
    let _e1 = pool.allocate();
    assert!(pool.dealloc(e0));
    assert!(pool.can_reserve(0));
    assert!(pool.can_reserve(5));
    assert_eq!(pool.reserve_nth(0), entity(0, 2));
    assert_eq!(pool.reserve_nth(1), entity(2, 1));
    assert_eq!(pool.reserve_nth(4), entity(5, 1));
    assert!(!pool.can_reserve(u32::MAX as usize));
    assert_eq!(pool.allocate_many(3), 3);
    assert_eq!(pool.slice()[1..], [entity(0, 2), entity(2, 1), entity(3, 1)]);
    assert_eq!(pool.allocate_many(0), 0);
}

#[test]
fn despawned_slot_is_reused() {
    let mut pool = EntityPool::default();
    let e0 = pool.allocate();
    let e1 = pool.allocate();
    let e2 = pool.allocate();
    assert!(pool.dealloc(e1));
    let e3 = pool.allocate();
    assert_eq!(e3.0.raw(), e1.0.raw());
    assert_eq!(e3.generation().to_usize(), 2);
    assert!(!pool.contains(e1));
    assert!(pool.contains(e0) && pool.contains(e2) && pool.contains(e3));
    assert_eq!(pool.iter().copied().collect::<Vec<_>>(), [e0, e2, e3]);
}
