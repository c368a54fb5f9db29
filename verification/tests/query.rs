use toecs::query::{ISparseSet, Iter, PoolSet, SingleIter, SparseIter, SparseIter3};
use toecs::world::comp::{Component, ComponentPool};
use toecs::world::ent::Entity;
use toecs::world::World;

#[derive(Debug, Clone, Copy, PartialEq, Eq, PartialOrd, Ord)]
struct U(usize);
#[derive(Debug, Clone, Copy, PartialEq, Eq, PartialOrd, Ord)]
struct U32(u32);
#[derive(Debug, Clone, Copy, PartialEq, Eq, PartialOrd, Ord)]
struct I(isize);
#[derive(Debug, Clone, Copy, PartialEq, PartialOrd)]
struct F(f32);

#[derive(Debug, Clone, Copy, PartialEq, Eq)]
struct A(u8);
#[derive(Debug, Clone, Copy, PartialEq, Eq)]
struct B(u8);
#[derive(Debug, Clone, Copy, PartialEq, Eq)]
struct C(u8);

impl Component for U {}
impl Component for U32 {}
impl Component for I {}
impl Component for F {}
impl Component for A {}
impl Component for B {}
impl Component for C {}

fn single<T: Copy>(pool: &ComponentPool<T>) -> Vec<(Entity, T)> {
    let mut iter = pool.iter().entities();
    let mut out = Vec::new();
    while let Some((e, x)) = iter.next() {
        out.push((e, *x));
    }
    out
}

fn join2<X: Copy, Y: Copy>(x: &ComponentPool<X>, y: &ComponentPool<Y>) -> Vec<(Entity, (X, Y))> {
    let mut iter = (x, y).iter().entities();
    let mut out = Vec::new();
    while let Some((e, (a, b))) = iter.next() {
        out.push((e, (*a, *b)));
    }
    out
}

fn join3<X: Copy, Y: Copy, Z: Copy>(
    x: &ComponentPool<X>,
    y: &ComponentPool<Y>,
    z: &ComponentPool<Z>,
) -> Vec<(Entity, (X, Y, Z))> {
    let mut iter = (x, y, z).iter().entities();
    let mut out = Vec::new();
    while let Some((e, (a, b, c))) = iter.next() {
        out.push((e, (*a, *b, *c)));
    }
    out
}

#[test]
fn single_iter() {
    let mut world = World::default();

    world.register_set::<(U, I)>();

    let e1 = world.spawn((U(10), I(-10))).0;
    let e2 = world.spawn((U(20), I(-20))).0;
    let e3 = world.spawn((U(30), I(-30))).0;

    fn add_system(mut us: toecs::world::comp::CompMut<U>) {
        let mut pool = us.deref_mut();
        for u in pool.as_mut_slice() {
            u.0 += 10;
        }
    }

    world.run(add_system).unwrap();

    let us = world.comp::<U>().unwrap();
    let (ents, values): (Vec<Entity>, Vec<U>) = single(us.deref()).into_iter().unzip();
    assert_eq!((ents, values), (vec![e1, e2, e3], vec![U(10 + 10), U(10 + 20), U(10 + 30)]));
}

#[test]
fn sparse_iter() {
    let mut world = World::default();

    world.register_set::<(U, I)>();

    let e1 = world.spawn((U(10), I(-10))).0;
    let e2 = world.spawn((U(20), I(-20))).0;
    let e3 = world.spawn((U(30), I(-30))).0;

    fn add_system((mut us, is): (toecs::world::comp::CompMut<U>, toecs::world::comp::Comp<I>)) {
        let joined = (us.deref(), is.deref()).iter().entities().collect_entities();
        for e in joined {
            let i = *is.deref().get(e).unwrap();
            let mut pool = us.deref_mut();
            let u = pool.get_mut(e).unwrap();
            u.0 += -i.0 as usize + 10;
        }
    }

    world.run(add_system).unwrap();

    {
        let us = world.comp::<U>().unwrap();
        let (ents, values): (Vec<Entity>, Vec<U>) = single(us.deref()).into_iter().unzip();
        assert_eq!(
            (ents, values),
            (vec![e1, e2, e3], vec![U(10 + 10 + 10), U(20 + 20 + 10), U(30 + 30 + 10)])
        );
    }

    world.register::<U32>();
    let e = world.spawn((U(10), I(20), U32(30))).0;

    fn triple(
        (mut u, i, u2): (
            toecs::world::comp::CompMut<U>,
            toecs::world::comp::Comp<I>,
            toecs::world::comp::Comp<U32>,
        ),
    ) {
        let joined = (u.deref(), i.deref(), u2.deref()).iter().entities().collect_entities();
        for e in joined {
            let i = *i.deref().get(e).unwrap();
            let u2 = *u2.deref().get(e).unwrap();
            let mut pool = u.deref_mut();
            let u = pool.get_mut(e).unwrap();
            u.0 += i.0 as usize + u2.0 as usize;
        }
    }

    world.run(triple).unwrap();

    assert_eq!(world.comp::<U>().unwrap().deref().get(e), Some(&(U(10 + 20 + 30))));
}

#[test]
fn sparse_iter_holes() {
    let mut world = World::default();

    world.register_set::<(U, I, F)>();

    let ui_ = world.spawn((U(10), I(10))).0;
    let u_f = world.spawn((U(20), F(20.0))).0;
    let uif = world.spawn((U(30), I(30), F(30.0))).0;

    let u = world.comp::<U>().unwrap();
    let i = world.comp::<I>().unwrap();
    let f = world.comp::<F>().unwrap();
    let (u, i, f) = (u.deref(), i.deref(), f.deref());

    // uif
    assert_eq!(
        join3(u, i, f),
        [(uif, (*u.get(uif).unwrap(), *i.get(uif).unwrap(), *f.get(uif).unwrap()))],
    );
    assert_eq!(join3(u, i, f), [(uif, (U(30), I(30), F(30.0)))]);

    // ui_
    assert_eq!(
        join2(u, i),
        [
            (ui_, (*u.get(ui_).unwrap(), *i.get(ui_).unwrap())),
            (uif, (*u.get(uif).unwrap(), *i.get(uif).unwrap())),
        ],
    );

    // u_f
    assert_eq!(
        join2(u, f),
        [
            (u_f, (*u.get(u_f).unwrap(), *f.get(u_f).unwrap())),
            (uif, (*u.get(uif).unwrap(), *f.get(uif).unwrap())),
        ],
    );

    // _if
    assert_eq!(join2(i, f), [(uif, (*i.get(uif).unwrap(), *f.get(uif).unwrap()))]);
}

#[test]
fn joins_over_three_columns() {
    let mut world = World::default();
    world.register_set::<(A, B, C)>();
    let x = world.spawn((A(1), B(1))).0;
    let y = world.spawn((B(2), C(2))).0;
    let z = world.spawn((A(3), B(3), C(3))).0;

    let a = world.comp::<A>().unwrap();
    let b = world.comp::<B>().unwrap();
    let c = world.comp::<C>().unwrap();
    let (a, b, c) = (a.deref(), b.deref(), c.deref());

    assert_eq!(join2(a, b), [(x, (A(1), B(1))), (z, (A(3), B(3)))]);
    assert_eq!(join2(b, c), [(y, (B(2), C(2))), (z, (B(3), C(3)))]);
    assert_eq!(join2(a, c), [(z, (A(3), C(3)))]);
    assert_eq!(join3(a, b, c), [(z, (A(3), B(3), C(3)))]);
    assert_eq!(join3(c, b, a), [(z, (C(3), B(3), A(3)))]);
}

#[test]
fn join_yields_the_common_entities_whichever_pool_is_shortest() {
    let mut world = World::default();
    let ents: Vec<Entity> = (0..12).map(|_| world.spawn_empty()).collect();
    // which of the three pools each entity is in
    let masks: [[u8; 12]; 3] = [
        [7, 7, 1, 2, 4, 3, 5, 6, 7, 0, 1, 1],
        [7, 3, 2, 2, 2, 3, 5, 6, 7, 0, 2, 2],
        [7, 5, 4, 4, 4, 3, 5, 6, 7, 0, 4, 6],
    ];
    for mask in masks {
        let mut a = ComponentPool::<A>::default();
        let mut b = ComponentPool::<B>::default();
        let mut c = ComponentPool::<C>::default();
        for (k, e) in ents.iter().enumerate() {
            if mask[k] & 1 != 0 {
                a.insert(*e, A(k as u8));
            }
            if mask[k] & 2 != 0 {
                b.insert(*e, B(k as u8 + 100));
            }
            if mask[k] & 4 != 0 {
                c.insert(*e, C(k as u8 + 200));
            }
        }
        // holes in the packed order
        a.swap_remove(ents[0]);
        a.insert(ents[0], A(0));

        let in_a = |e: &Entity| a.contains(*e);
        let in_b = |e: &Entity| b.contains(*e);
        let in_c = |e: &Entity| c.contains(*e);

        let mut got: Vec<Entity> = join2(&a, &b).iter().map(|x| x.0).collect();
        let mut got_swapped: Vec<Entity> = join2(&b, &a).iter().map(|x| x.0).collect();
        let mut want: Vec<Entity> = ents.iter().copied().filter(|e| in_a(e) && in_b(e)).collect();
        got.sort_by_key(|e| e.0.to_usize());
        got_swapped.sort_by_key(|e| e.0.to_usize());
        want.sort_by_key(|e| e.0.to_usize());
        assert_eq!(got, want);
        assert_eq!(got_swapped, want);
        for (e, (x, y)) in join2(&a, &b) {
            assert_eq!((Some(&x), Some(&y)), (a.get(e), b.get(e)));
        }

        let mut got: Vec<Entity> = join3(&a, &b, &c).iter().map(|x| x.0).collect();
        let mut want: Vec<Entity> =
            ents.iter().copied().filter(|e| in_a(e) && in_b(e) && in_c(e)).collect();
        got.sort_by_key(|e| e.0.to_usize());
        want.sort_by_key(|e| e.0.to_usize());
        assert_eq!(got, want);
        assert!(!want.is_empty());
        for (e, (x, y, z)) in join3(&c, &a, &b) {
            assert_eq!((Some(&x), Some(&y), Some(&z)), (c.get(e), a.get(e), b.get(e)));
        }
    }
}

#[test]
fn join_walks_the_shorter_pool() {
    let mut world = World::default();
    let e: Vec<Entity> = (0..4).map(|_| world.spawn_empty()).collect();
    let mut a = ComponentPool::<A>::default();
    let mut b = ComponentPool::<B>::default();
    for k in [0, 1, 2, 3] {
        a.insert(e[k], A(k as u8));
    }
    for k in [3, 1] {
        b.insert(e[k], B(k as u8));
    }
    // the order is that of the shorter pool
    assert_eq!(join2(&a, &b), [(e[3], (A(3), B(3))), (e[1], (A(1), B(1)))]);
    // where both are equally long, that of the first
    b.insert(e[2], B(2));
    b.insert(e[0], B(0));
    assert_eq!(join2(&a, &b).iter().map(|x| x.0).collect::<Vec<_>>(), [e[0], e[1], e[2], e[3]]);
    assert_eq!(join2(&b, &a).iter().map(|x| x.0).collect::<Vec<_>>(), [e[3], e[1], e[2], e[0]]);
}

#[test]
fn join_does_not_yield_stale_entities() {
    let mut world = World::default();
    let old = world.spawn_empty();
    world.despawn(old);
    let new = world.spawn_empty();
    assert_eq!(old.0.raw(), new.0.raw());
    let mut a = ComponentPool::<A>::default();
    let mut b = ComponentPool::<B>::default();
    a.insert(old, A(1));
    b.insert(new, B(2));
    assert_eq!(join2(&a, &b), []);
    assert_eq!(join2(&b, &a), []);
    a.insert(new, A(3));
    assert_eq!(join2(&a, &b), [(new, (A(3), B(2)))]);
}

#[test]
fn iterators_without_entities() {
    let mut world = World::default();
    let e: Vec<Entity> = (0..3).map(|_| world.spawn_empty()).collect();
    let mut a = ComponentPool::<A>::default();
    let mut b = ComponentPool::<B>::default();
    let mut c = ComponentPool::<C>::default();
    for k in 0..3 {
        a.insert(e[k], A(k as u8));
        c.insert(e[k], C(k as u8));
    }
    b.insert(e[2], B(2));

    let mut iter: SingleIter<A> = (&a).iter();
    assert_eq!(iter.next(), Some(&A(0)));
    assert_eq!(iter.next(), Some(&A(1)));
    let mut rest = iter.entities();
    assert_eq!(rest.next(), Some((e[2], &A(2))));
    assert_eq!(rest.next(), None);
    assert_eq!(rest.next(), None);

    let mut iter: SparseIter<A, C> = (&a, &c).iter();
    assert_eq!(iter.next(), Some((&A(0), &C(0))));
    let mut rest = iter.entities();
    assert_eq!(rest.next(), Some((e[1], (&A(1), &C(1)))));
    assert_eq!(rest.next(), Some((e[2], (&A(2), &C(2)))));
    assert_eq!(rest.next(), None);

    assert_eq!((&a, &c).iter().entities().collect_entities(), e);
    assert_eq!((&c, &b, &a).iter().entities().collect_entities(), [e[2]]);
    let mut skipped = (&a, &c).iter();
    skipped.next();
    assert_eq!(skipped.entities().collect_entities(), e[1..]);

    let mut iter: SparseIter3<A, B, C> = (&a, &b, &c).iter();
    assert_eq!(iter.next(), Some((&A(2), &B(2), &C(2))));
    assert_eq!(iter.next(), None);
    assert_eq!(iter.next(), None);

    let empty = ComponentPool::<B>::default();
    assert_eq!((&empty).iter().next(), None);
    assert_eq!((&a, &empty).iter().next(), None);
    assert_eq!((&empty, &a, &c).iter().entities().next(), None);
}

#[test]
fn pool_set() {
    let mut world = World::default();
    let e: Vec<Entity> = (0..3).map(|_| world.spawn_empty()).collect();
    let mut a = ComponentPool::<A>::default();
    a.insert(e[2], A(2));
    a.insert(e[0], A(0));
    let mut set = PoolSet::new(&a);
    assert_eq!(set.len(), 2);
    assert_eq!(set.entity(0), e[2]);
    assert_eq!(set.entity(1), e[0]);
    assert_eq!(set.get_dense(1), &A(0));
    assert_eq!(set.get(e[0]), Some(&A(0)));
    assert_eq!(set.get(e[1]), None);
    assert_eq!(set.get_sparse(e[2]), Some(&A(2)));
    assert_eq!(set.get_sparse(e[1]), None);
}

#[test]
fn component_pool_access() {
    let mut world = World::default();
    let e: Vec<Entity> = (0..3).map(|_| world.spawn_empty()).collect();
    let mut pool = ComponentPool::<U>::default();
    assert_eq!(pool.insert(e[0], U(0)), None);
    assert_eq!(pool.insert(e[1], U(1)), None);
    assert!(pool.contains(e[1]));
    assert!(!pool.contains(e[2]));
    assert_eq!(pool.get(e[1]), Some(&U(1)));
    assert_eq!(e[1].get(&pool), Some(&U(1)));
    pool.get_mut(e[1]).unwrap().0 = 5;
    assert_eq!(pool.get_mut(e[2]), None);
    assert_eq!(pool.as_slice(), [U(0), U(5)]);
    pool.as_mut_slice()[0] = U(7);
    assert_eq!(pool.entities(), [e[0], e[1]]);
    assert_eq!(pool.as_slice_with_entities(), (vec![e[0], e[1]], &[U(7), U(5)][..]));
    {
        let (ents, items) = pool.as_mut_slice_with_entities();
        assert_eq!(ents, [e[0], e[1]]);
        items[1] = U(9);
    }
    let (links, ents, items) = pool.parts();
    assert_eq!(links.len(), 64);
    assert_eq!(ents, [e[0], e[1]]);
    assert_eq!(items, [U(7), U(9)]);
    {
        let (_, _, items) = pool.parts_mut();
        items[0] = U(8);
    }
    let (links, indices, items) = pool.raw_parts();
    assert_eq!(links.iter().filter(|l| l.is_some()).count(), 2);
    assert_eq!(indices, [e[0].0, e[1].0]);
    assert_eq!(items, [U(8), U(9)]);
    {
        let (x, y) = pool.get2_mut(e[1], e[0]).unwrap();
        assert_eq!((*x, *y), (U(9), U(8)));
        std::mem::swap(x, y);
    }
    assert_eq!(pool.as_slice(), [U(9), U(8)]);
    {
        let (x, y) = pool.get2_mut(e[0], e[1]).unwrap();
        std::mem::swap(x, y);
    }
    assert_eq!(pool.as_slice(), [U(8), U(9)]);
    assert!(pool.get2_mut(e[0], e[2]).is_none());
    assert!(pool.get2_mut(e[2], e[1]).is_none());
    assert_eq!(pool.swap_remove(e[0]), Some(U(8)));
    assert_eq!(pool.swap_remove(e[0]), None);
    assert_eq!(pool.entities(), [e[1]]);
}
