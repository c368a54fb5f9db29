use std::any::TypeId;
use toecs::query::Iter;
use toecs::world::comp::{BorrowError, Component, ComponentPool, ComponentPoolMap};
use toecs::world::ent::Entity;
use toecs::world::fetch::{AutoFetch, FetchError, RunError};
use toecs::world::res::{Res, ResMut, ResourceMap};
use toecs::world::{insert_if_live, remove_if_live, ComponentSet, TypeInfo, World};
use toecs::world::comp::{Comp, CompMut};

#[derive(Debug, Clone, Copy, PartialEq, Eq, PartialOrd, Ord)]
struct U(usize);

#[derive(Debug, Clone, Copy, PartialEq, Eq, PartialOrd, Ord)]
struct I(isize);

#[derive(Debug, Clone, Copy, PartialEq, Eq, PartialOrd, Ord)]
struct U32(u32);

#[derive(Debug, Clone, Copy, PartialEq, PartialOrd)]
struct F(f32);

impl Component for U {}
impl Component for I {}
impl Component for U32 {}
impl Component for F {}

fn values<T: Component + Copy>(world: &World) -> Vec<T> {
    world.comp::<T>().unwrap().deref().as_slice().to_vec()
}

fn entities_of<T: Component>(world: &World) -> Vec<Entity> {
    world.comp::<T>().unwrap().deref().entities()
}

#[test]
fn resource_map() {
    let mut res = ResourceMap::default();
    res.insert(U(30));
    res.insert(I(-30));

    // mutably borrow two resources
    {
        let mut u = res.try_borrow_mut::<U>().unwrap();
        let mut i = res.try_borrow_mut::<I>().unwrap();
        u.deref_mut().0 += 5;
        i.deref_mut().0 += 5;
        assert_eq!(u.deref().0, 30 + 5);
        assert_eq!(i.deref().0, -30 + 5);
    }

    // insert, remove
    assert_eq!(res.insert(U(2)), Some(U(30 + 5)));
    assert_eq!(res.remove::<U>(), Some(U(2)));
}

#[test]
fn tests_resource_map() {
    let mut res = ResourceMap::default();
    res.insert(30usize);
    res.insert(-30isize);

    // mutably borrow two resources
    {
        let mut u = res.try_borrow_mut::<usize>().unwrap();
        let mut i = res.try_borrow_mut::<isize>().unwrap();
        *u.deref_mut() += 5;
        *i.deref_mut() += 5;
        assert_eq!(*u.deref(), 30 + 5);
        assert_eq!(*i.deref(), -30 + 5);
    }

    // insert, remove
    assert_eq!(res.insert(2usize), Some(30 + 5));
    assert_eq!(res.remove::<usize>(), Some(2usize));
}

#[test]
#[should_panic]
fn resource_panic() {
    let mut res = ResourceMap::default();
    res.insert(U(0));
    let _u1 = res.try_borrow_mut::<U>().unwrap();
    let _u2 = res.try_borrow::<U>().unwrap();
}

#[test]
fn resource_safe() {
    let mut res = ResourceMap::default();
    res.insert(U(0));
    let _u1 = res.try_borrow::<U>().unwrap();
    let _u2 = res.try_borrow::<U>().unwrap();
}

#[test]
fn resource_system() {
    fn system((x, mut y): (Res<U>, ResMut<I>)) {
        y.deref_mut().0 = x.deref().0 as isize + y.deref().0;
    }

    let mut world = World::default();
    world.res.insert(U(10));
    world.res.insert(I(30));

    world.run(system).unwrap();
    assert_eq!(*world.res.try_borrow::<I>().unwrap().deref(), I(10 + 30));
}

#[test]
fn resource_borrow_errors() {
    let mut res = ResourceMap::default();
    assert!(!res.contains::<U>());
    assert!(matches!(res.try_borrow::<U>(), Err(toecs::world::res::BorrowError::NotFound(ty)) if ty == TypeId::of::<U>()));
    assert!(matches!(res.try_borrow_mut::<U>(), Err(toecs::world::res::BorrowError::NotFound(_))));
    assert_eq!(res.remove::<U>(), None);
    assert_eq!(res.insert(U(1)), None);
    assert!(res.contains::<U>());
    assert!(res.contains_raw(TypeId::of::<U>()));
    assert!(!res.contains::<I>());
    {
        let _shared = res.try_borrow::<U>().unwrap();
        assert!(res.try_borrow::<U>().is_ok());
        assert!(matches!(
            res.try_borrow_mut::<U>(),
            Err(toecs::world::res::BorrowError::AlreadyBorrowed(ty)) if ty == TypeId::of::<U>()
        ));
    }
    {
        let _exclusive = res.try_borrow_mut::<U>().unwrap();
        assert!(matches!(
            res.try_borrow::<U>(),
            Err(toecs::world::res::BorrowError::AlreadyBorrowed(_))
        ));
        assert!(matches!(
            res.try_borrow_mut::<U>(),
            Err(toecs::world::res::BorrowError::AlreadyBorrowed(_))
        ));
    }
    // the borrows were given back
    assert_eq!(res.try_borrow_mut::<U>().unwrap().deref(), &U(1));
    // a value of another type under the identifier is not found
    assert_eq!(res.insert_raw(TypeId::of::<I>(), U(7)), None);
    assert!(matches!(
        res.try_borrow::<I>(),
        Err(toecs::world::res::BorrowError::WrongType(ty)) if ty == TypeId::of::<I>()
    ));
    assert_eq!(res.try_borrow_raw::<U>(TypeId::of::<I>()).unwrap().deref(), &U(7));
    assert_eq!(res.remove_raw::<U>(TypeId::of::<I>()), Some(U(7)));
    assert!(!res.contains::<I>());
}

#[test]
fn component_pool_map() {
    let mut world = World::default();

    assert!(!world.comp.is_registered::<U>());
    assert!(!world.comp.register::<U>());
    assert!(world.comp.is_registered::<U>());
    assert!(!world.comp.register::<I>());

    let e0 = world.ents.allocate();
    let e1 = world.ents.allocate();
    let e2 = world.ents.allocate();

    let us = world.comp.get_mut::<U>().unwrap();
    assert_eq!(us.insert(e0, U(100)), None);
    assert_eq!(us.insert(e0, U(0)), Some(U(100)));
    assert_eq!(us.insert(e1, U(1)), None);
    assert_eq!(us.insert(e2, U(2)), None);

    let is = world.comp.get_mut::<I>().unwrap();
    assert_eq!(is.insert(e0, I(-0)), None);
    assert_eq!(is.insert(e1, I(-1)), None);
    assert_eq!(is.insert(e2, I(-2)), None);

    assert_eq!(is.swap_remove(e0), Some(I(-0)));
    assert_eq!(is.get(e1), Some(&I(-1)));
    assert_eq!(is.get(e2), Some(&I(-2)));
}

#[test]
fn tests_component_pool_map() {
    let mut world = World::default();

    assert!(!world.is_registered::<U>());
    assert!(!world.register::<U>());
    assert!(world.is_registered::<U>());
    assert!(world.is_registered_raw(TypeId::of::<U>()));
    assert!(world.register::<U>());
    assert!(!world.register::<I>());

    let e0 = world.spawn_empty();
    let e1 = world.spawn_empty();
    let e2 = world.spawn_empty();

    assert_eq!(world.insert(e0, U(100)).unwrap(), None);
    assert_eq!(world.insert(e0, U(0)).unwrap(), Some(U(100)));
    assert_eq!(world.insert(e1, U(1)).unwrap(), None);
    assert_eq!(world.insert(e2, U(2)).unwrap(), None);

    assert_eq!(world.insert(e0, I(-0)).unwrap(), None);
    assert_eq!(world.insert(e1, I(-1)).unwrap(), None);
    assert_eq!(world.insert(e2, I(-2)).unwrap(), None);

    assert_eq!(world.remove::<I>(e0).unwrap(), Some(I(-0)));
    let us = world.comp_mut::<U>().unwrap();
    let is = world.comp_mut::<I>().unwrap();
    assert_eq!(is.deref().get(e1), Some(&I(-1)));
    assert_eq!(is.deref().get(e2), Some(&I(-2)));
    assert_eq!(us.deref().as_slice(), [U(0), U(1), U(2)]);
}

#[test]
fn component_safe() {
    let mut comp = ComponentPoolMap::default();
    comp.register::<U>();
    let _u1 = comp.try_borrow::<U>().unwrap();
    let _u2 = comp.try_borrow::<U>().unwrap();
}

#[test]
#[should_panic]
fn component_panic() {
    let mut comp = ComponentPoolMap::default();
    comp.register::<U>();
    let _u1 = comp.try_borrow_mut::<I>().unwrap();
    let _u2 = comp.try_borrow::<I>().unwrap();
}

#[test]
fn component_borrow_errors() {
    let mut comp = ComponentPoolMap::default();
    assert!(matches!(comp.try_borrow::<U>(), Err(BorrowError::NotRegistered(ty)) if ty == TypeId::of::<U>()));
    assert!(matches!(comp.try_borrow_mut::<U>(), Err(BorrowError::NotRegistered(_))));
    assert!(comp.get_mut::<U>().is_none());
    assert!(!comp.register::<U>());
    assert!(comp.register::<U>());
    assert!(comp.get_mut::<U>().is_some());
    assert!(comp.try_borrow::<I>().is_err());
    {
        let _shared = comp.try_borrow::<U>().unwrap();
        assert!(matches!(
            comp.try_borrow_mut::<U>(),
            Err(BorrowError::AlreadyBorrowed(ty)) if ty == TypeId::of::<U>()
        ));
    }
    {
        let _exclusive = comp.try_borrow_mut::<U>().unwrap();
        assert!(matches!(comp.try_borrow::<U>(), Err(BorrowError::AlreadyBorrowed(_))));
        assert!(matches!(comp.try_borrow_mut::<U>(), Err(BorrowError::AlreadyBorrowed(_))));
    }
    assert!(comp.try_borrow_mut::<U>().is_ok());
    // registering again keeps the pool
    let e = Entity::initial(toecs::world::sparse::RawSparseIndex(0));
    comp.get_mut::<U>().unwrap().insert(e, U(3));
    assert!(comp.register::<U>());
    assert_eq!(comp.try_borrow::<U>().unwrap().deref().get(e), Some(&U(3)));
    // a pool of another type under the identifier is not found
    assert!(!comp.register_raw::<U>(TypeId::of::<I>()));
    assert!(comp.is_registered::<I>());
    assert!(matches!(comp.try_borrow::<I>(), Err(BorrowError::WrongType(ty)) if ty == TypeId::of::<I>()));
    assert!(matches!(comp.try_borrow_mut::<I>(), Err(BorrowError::WrongType(_))));
    assert!(matches!(comp.get_mut_raw::<I>(TypeId::of::<I>()), Err(BorrowError::WrongType(_))));
    assert!(matches!(comp.get_mut_raw::<I>(TypeId::of::<F>()), Err(BorrowError::NotRegistered(_))));
    assert!(comp.try_borrow_raw::<U>(TypeId::of::<I>()).is_ok());
    assert!(comp.try_borrow_mut_raw::<U>(TypeId::of::<I>()).is_ok());
    assert!(comp.get_mut::<I>().is_none());
}

#[test]
fn ignore_dead_entity() {
    let mut world = World::default();
    world.register_set::<(I, U)>();

    let dead = world.spawn_empty();
    world.despawn(dead);

    assert_eq!(world.insert(dead, I(10)).unwrap(), None);
    assert!(values::<I>(&world).is_empty());

    world.insert_set(dead, (I(10), U(10))).unwrap();
    assert!(values::<I>(&world).is_empty());
    assert!(values::<U>(&world).is_empty());
    assert_eq!(world.remove::<I>(dead).unwrap(), None);
}

#[test]
fn component_set() {
    let mut world = World::default();

    type A = (U, I);
    world.register_set::<A>();

    let e0 = world.spawn_empty();
    (U(10), I(-10)).insert(e0, &mut world).unwrap();

    assert_eq!(world.comp::<U>().unwrap().deref().get(e0), Some(&U(10)));
    assert_eq!(world.comp::<I>().unwrap().deref().get(e0), Some(&I(-10)));

    A::remove(e0, &mut world).unwrap();

    assert_eq!(world.comp::<U>().unwrap().deref().get(e0), None);
    assert_eq!(world.comp::<I>().unwrap().deref().get(e0), None);
}

#[test]
fn tests_component_set() {
    let mut world = World::default();

    type A = (U, I);
    world.register_set::<A>();
    assert_eq!(A::type_ids(), vec![TypeId::of::<U>(), TypeId::of::<I>()]);
    assert_eq!(<((U,), (I, F, U32))>::type_ids().len(), 4);
    assert_eq!(U::type_ids(), vec![TypeId::of::<U>()]);

    let e0 = world.spawn_empty();
    world.insert_set(e0, (U(10), I(-10))).unwrap();

    assert_eq!(world.comp::<U>().unwrap().deref().get(e0), Some(&U(10)));
    assert_eq!(world.comp::<I>().unwrap().deref().get(e0), Some(&I(-10)));

    world.remove_set::<A>(e0).unwrap();

    assert_eq!(world.comp::<U>().unwrap().deref().get(e0), None);
    assert_eq!(world.comp::<I>().unwrap().deref().get(e0), None);
}

#[test]
fn world_api() {
    let mut world = World::default();

    // resource
    assert_eq!(world.set_res(U(1)), None);
    assert_eq!(world.set_res(U(100)), Some(U(1)));
    world.set_res(I(-100));

    // components
    world.register_set::<(U, I)>();

    let e1 = world.spawn_empty();
    world.insert_set(e1, (U(10), I(-10))).unwrap();
    let e2 = world.spawn((U(20), I(-20))).0;
    let e3 = world.spawn((U(30), I(-30))).0;

    assert_eq!(world.remove::<I>(e1).unwrap(), Some(I(-10)));

    assert!(world.despawn(e2));
    assert!(!world.despawn(e2));

    let e2 = world.spawn_empty();
    assert_eq!(world.entities().iter().collect::<Vec<_>>(), [&e1, &e3, &e2]);

    {
        let us = world.comp::<U>().unwrap();
        let mut iter = us.deref().iter();
        let mut seen = Vec::new();
        while let Some(u) = iter.next() {
            seen.push(u);
        }
        assert_eq!(seen, [&U(10), &U(30)]);
    }

    world.remove_set::<(U, I)>(e1).unwrap();
    assert_eq!(world.comp::<U>().unwrap().deref().get(e1), None);
    assert_eq!(world.comp::<I>().unwrap().deref().get(e1), None);

    assert_eq!(world.take_res::<U>(), Some(U(100)));
    assert_eq!(world.take_res::<U>(), None);
    assert_eq!(world.res::<I>().unwrap().deref(), &I(-100));
    world.res_mut::<I>().unwrap().deref_mut().0 = 1;
    assert_eq!(world.take_res::<I>(), Some(I(1)));
}

#[test]
fn despawn_drops_the_component() {
    let mut world = World::default();
    world.register::<U>();
    let e0 = world.spawn(U(10)).0;
    let e1 = world.spawn(U(20)).0;
    let e2 = world.spawn(U(30)).0;
    assert_eq!(values::<U>(&world), [U(10), U(20), U(30)]);

    assert!(world.despawn(e1));
    let e3 = world.spawn_empty();
    assert_eq!(e3.0.raw(), e1.0.raw());
    assert_eq!(e3.generation().to_usize(), 2);
    assert!(!world.contains(e1));
    assert!(world.contains(e0) && world.contains(e2) && world.contains(e3));

    let us = world.comp::<U>().unwrap();
    let mut iter = us.deref().iter().entities();
    let mut seen = Vec::new();
    while let Some((e, u)) = iter.next() {
        seen.push((e, u.0));
    }
    assert_eq!(seen, [(e0, 10), (e2, 30)]);
    assert_eq!(us.deref().get(e1), None);
    assert_eq!(us.deref().get(e3), None);
}

#[test]
fn despawn_reaches_every_pool() {
    let mut world = World::default();
    world.register_set::<(U, I, U32)>();
    let a = world.spawn((U(1), I(1), U32(1))).0;
    let b = world.spawn((U(2), U32(2))).0;
    let c = world.spawn((I(3),)).0;
    assert!(world.despawn(a));
    assert_eq!(entities_of::<U>(&world), [b]);
    assert_eq!(entities_of::<I>(&world), [c]);
    assert_eq!(entities_of::<U32>(&world), [b]);
    assert!(!world.despawn(a));
    assert!(world.despawn(c));
    assert!(entities_of::<I>(&world).is_empty());
    assert_eq!(values::<U>(&world), [U(2)]);
}

#[test]
fn insert_without_a_pool_is_an_error() {
    let mut world = World::default();
    let e = world.spawn_empty();
    assert!(matches!(world.insert(e, U(1)), Err(BorrowError::NotRegistered(ty)) if ty == TypeId::of::<U>()));
    assert!(matches!(world.remove::<U>(e), Err(BorrowError::NotRegistered(_))));
    assert!(matches!(world.comp::<U>(), Err(BorrowError::NotRegistered(_))));
    assert!(matches!(world.comp_mut::<U>(), Err(BorrowError::NotRegistered(_))));
    world.register::<U>();
    // the first component is inserted, the second finds no pool
    assert!(matches!(world.insert_set(e, (U(2), I(2))), Err(BorrowError::NotRegistered(ty)) if ty == TypeId::of::<I>()));
    assert_eq!(values::<U>(&world), [U(2)]);
    let (e2, r) = world.spawn((I(1), U(3)));
    assert!(r.is_err());
    assert!(world.contains(e2));
    assert_eq!(values::<U>(&world), [U(2)]);
    assert_eq!(world.insert(e, U(5)).unwrap(), Some(U(2)));
    assert_eq!(world.remove::<U>(e).unwrap(), Some(U(5)));
    assert_eq!(world.remove::<U>(e).unwrap(), None);
}

#[test]
fn insert_and_remove_if_live() {
    let mut world = World::default();
    let live = world.spawn_empty();
    let dead = world.spawn_empty();
    world.despawn(dead);
    let mut pool = ComponentPool::<U>::default();
    assert_eq!(insert_if_live(&world.ents, &mut pool, live, U(1)), None);
    assert_eq!(insert_if_live(&world.ents, &mut pool, live, U(2)), Some(U(1)));
    assert_eq!(insert_if_live(&world.ents, &mut pool, dead, U(3)), None);
    assert_eq!(pool.as_slice(), [U(2)]);
    assert_eq!(pool.entities(), [live]);
    // data of a dead entity stays where it is
    pool.insert(dead, U(4));
    assert_eq!(remove_if_live(&world.ents, &mut pool, dead), None);
    assert_eq!(pool.as_slice(), [U(2), U(4)]);
    assert_eq!(remove_if_live(&world.ents, &mut pool, live), Some(U(2)));
    assert_eq!(pool.as_slice(), [U(4)]);
    assert_eq!(live.get(&pool), None);
    assert_eq!(dead.get(&pool), Some(&U(4)));
}

#[test]
fn reserved_entities_in_the_world() {
    let mut world = World::default();
    world.register::<U>();
    let e0 = world.spawn(U(0)).0;
    world.despawn(e0);
    let r0 = world.reserve_atomic().unwrap();
    let r1 = world.reserve_atomic().unwrap();
    assert!(!world.contains(r0) && !world.contains(r1));
    assert_eq!(world.insert(r0, U(1)).unwrap(), None);
    assert!(values::<U>(&world).is_empty());
    world.synchronize();
    assert_eq!(world.entities(), [r0, r1]);
    assert_eq!(world.insert(r0, U(1)).unwrap(), None);
    assert_eq!(values::<U>(&world), [U(1)]);
}

#[test]
fn borrow_type_inference() {
    let mut world = World::default();

    world.set_res_set((U(0), I(0)));
    world.register_set::<(U, I)>();

    {
        let _: Res<U> = world.borrow().unwrap();
        let _: ResMut<I> = world.borrow().unwrap();
    }

    {
        let _: Comp<U> = world.borrow().unwrap();
        let _: CompMut<I> = world.borrow().unwrap();
    }

    let (_, _, _, _): (Res<U>, Res<I>, Comp<U>, CompMut<I>) = world.borrow().unwrap();

    world.take_res_set::<(U, I)>();
    assert!(matches!(
        world.borrow::<Res<U>>(),
        Err(FetchError::Res(toecs::world::res::BorrowError::NotFound(_)))
    ));
}

#[test]
fn run_with_args() {
    let mut world = World::default();
    world.set_res_set((U(0), I(0), F(0.0)));

    fn sys(arg: u32, (_u, _i, _f): (Res<U>, Res<I>, Res<F>)) -> u32 {
        arg
    }

    assert_eq!(world.run_arg(10u32, sys).unwrap(), 10);
}

#[test]
fn run_checks_the_accesses_first() {
    let mut world = World::default();
    world.set_res_set((U(1), I(2)));
    world.register::<U>();

    let mut ran = false;
    let r = world.run(|(_a, _b): (Res<U>, ResMut<U>)| ran = true);
    match r {
        Err(RunError::SelfConflict(set)) => assert!(set.self_conflict()),
        _ => unreachable!(),
    }
    assert!(!ran);
    // the check did not borrow anything
    assert!(world.res_mut::<U>().is_ok());

    let r = world.run(|(_a, _b): (Res<U>, Comp<I>)| ran = true);
    assert!(matches!(r, Err(RunError::Fetch(FetchError::Comp(BorrowError::NotRegistered(_))))));
    assert!(!ran);

    let sum = world.run(|(a, b, c): (Res<U>, Res<I>, CompMut<U>)| {
        a.deref().0 as isize + b.deref().0 + c.deref().as_slice().len() as isize
    });
    assert_eq!(sum.unwrap(), 3);

    let held = world.comp::<U>().unwrap();
    let r = world.run(|_c: CompMut<U>| ());
    assert!(matches!(r, Err(RunError::Fetch(FetchError::Comp(BorrowError::AlreadyBorrowed(_))))));
    assert!(held.deref().as_slice().is_empty());
}

#[test]
fn component_set_definition() {
    let mut world = World::default();
    world.register_set::<(U, I, F)>();

    let entity = world.spawn_empty();

    // a component is a component set
    world.insert_set(entity, U(0)).unwrap();

    // set of components is a component set
    world.insert_set(entity, (I(1), U(1))).unwrap();

    // set of component set is a component set
    world.insert_set(entity, ((U(2), I(2), F(2.2)), (U(3), I(3)))).unwrap();
    assert_eq!(values::<U>(&world), [U(3)]);
    assert_eq!(values::<I>(&world), [I(3)]);
    assert_eq!(values::<F>(&world), [F(2.2)]);
}

#[test]
fn type_info() {
    assert_eq!(TypeInfo::of::<U>().ty, TypeId::of::<U>());
    assert_ne!(TypeInfo::of::<U>().ty, TypeInfo::of::<I>().ty);
}

#[test]
#[should_panic]
fn tests_resource_panic() {
    let mut res = ResourceMap::default();
    res.insert(0usize);
    let _u1 = res.try_borrow_mut::<usize>().unwrap();
    let _u2 = res.try_borrow::<usize>().unwrap();
}

#[test]
fn tests_resource_safe() {
    let mut res = ResourceMap::default();
    res.insert(0usize);
    let _u1 = res.try_borrow::<usize>().unwrap();
    let _u2 = res.try_borrow::<usize>().unwrap();
}

#[test]
fn tests_resource_system() {
    fn system((x, mut y): (Res<usize>, ResMut<isize>)) {
        *y.deref_mut() = *x.deref() as isize + *y.deref();
    }

    let mut world = World::default();
    world.res.insert(10usize);
    world.res.insert(30isize);

    world.run(system).unwrap();
    assert_eq!(*world.res.try_borrow::<isize>().unwrap().deref(), 10 + 30);
}

#[test]
fn tests_component_safe() {
    let mut comp = ComponentPoolMap::default();
    comp.register::<U>();
    let _u1 = comp.try_borrow::<U>().unwrap();
    let _u2 = comp.try_borrow::<U>().unwrap();
}

#[test]
#[should_panic]
fn tests_component_panic() {
    let mut comp = ComponentPoolMap::default();
    comp.register::<U>();
    let _u1 = comp.try_borrow_mut::<I>().unwrap();
    let _u2 = comp.try_borrow::<I>().unwrap();
}

pub struct CustomFetch<'w> {
    _res_u: Res<'w, U>,
    _res_i: ResMut<'w, I>,
    _comp_u: Comp<'w, U>,
    _comp_i: CompMut<'w, I>,
}

impl<'w> AutoFetch<'w> for CustomFetch<'w> {
    fn spec_accesses(_set: toecs::world::fetch::AccessSet) -> bool {
        true
    }

    fn spec_fetch_ok(_w: World) -> bool {
        true
    }

    fn spec_fetch_err(_w: World, _e: FetchError) -> bool {
        true
    }

    fn fetch(w: &'w World) -> Result<Self, FetchError> {
        Ok(CustomFetch {
            _res_u: w.borrow()?,
            _res_i: w.borrow()?,
            _comp_u: w.borrow()?,
            _comp_i: w.borrow()?,
        })
    }

    fn accesses() -> toecs::world::fetch::AccessSet {
        toecs::world::fetch::AccessSet::concat(&[
            <Res<U>>::accesses(),
            <ResMut<I>>::accesses(),
            <Comp<U>>::accesses(),
            <CompMut<I>>::accesses(),
        ])
        .unwrap()
    }
}

#[test]
fn custom_borrow_access_set() {
    assert_eq!(
        <CustomFetch as AutoFetch>::accesses(),
        <(Res<U>, ResMut<I>, Comp<U>, CompMut<I>) as AutoFetch>::accesses(),
    );

    let mut world = World::default();

    world.register_set::<(U, I)>();
    world.set_res_set((U(10), I(10)));
    world.spawn((U(20), I(20)));

    fn test_custom_borrow(_c: CustomFetch) {
        //
    }

    world.run(test_custom_borrow).unwrap();
}

pub struct CustomComponentSet {
    u: U,
    i: I,
}

impl ComponentSet for CustomComponentSet {
    fn spec_registers(_before: ComponentPoolMap, _after: ComponentPoolMap) -> bool {
        true
    }

    fn spec_inserted(
        _before: ComponentPoolMap,
        _after: ComponentPoolMap,
        _ent: Entity,
        _error: Option<BorrowError>,
    ) -> bool {
        true
    }

    fn spec_removed(
        _before: ComponentPoolMap,
        _after: ComponentPoolMap,
        _ent: Entity,
        _error: Option<BorrowError>,
    ) -> bool {
        true
    }

    fn spec_type_ids(_ids: Vec<TypeId>) -> bool {
        true
    }

    fn register(map: &mut ComponentPoolMap) {
        <(U, I)>::register(map);
    }

    fn insert(self, ent: Entity, world: &mut World) -> Result<(), BorrowError> {
        (self.u, self.i).insert(ent, world)
    }

    fn remove(ent: Entity, world: &mut World) -> Result<(), BorrowError> {
        <(U, I)>::remove(ent, world)
    }

    fn type_ids() -> Vec<TypeId> {
        <(U, I)>::type_ids()
    }
}

#[test]
fn custom_component_set_derive() {
    let mut world = World::default();

    world.register_set::<(U, I)>();
    let _entity = world.spawn(CustomComponentSet { u: U(10), i: I(20) });

    let u = world.borrow::<Comp<U>>().unwrap();
    assert_eq!(u.deref().as_slice().len(), 1);
    let i = world.borrow::<Comp<I>>().unwrap();
    assert_eq!(i.deref().as_slice().len(), 1);
}

#[test]
fn nothing_is_looked_up_for_a_dead_entity() {
    let mut world = World::default();
    let dead = world.spawn_empty();
    world.despawn(dead);
    // no pool is registered, and no error comes of it
    assert_eq!(world.insert(dead, U(1)).unwrap(), None);
    assert_eq!(world.remove::<U>(dead).unwrap(), None);
    assert!(world.insert_set(dead, (U(1), I(2))).is_ok());
    assert!(world.remove_set::<(U, (I, F))>(dead).is_ok());
    assert!(!world.is_registered::<U>());
    let live = world.spawn_empty();
    assert!(world.insert(live, U(1)).is_err());
    assert!(world.remove_set::<(U, I)>(live).is_err());
}

#[test]
fn a_leaked_borrow_gives_an_error_and_no_panic() {
    let mut world = World::default();
    world.register_set::<(U, I)>();
    let e = world.spawn((U(1), I(1))).0;
    // the borrow of the pool is never given back
    std::mem::forget(world.comp_mut::<U>().unwrap());
    assert!(matches!(world.insert(e, U(2)), Err(BorrowError::AlreadyBorrowed(ty)) if ty == TypeId::of::<U>()));
    assert!(matches!(world.remove::<U>(e), Err(BorrowError::AlreadyBorrowed(_))));
    assert!(world.comp.get_mut::<U>().is_none());
    assert!(matches!(world.comp::<U>(), Err(BorrowError::AlreadyBorrowed(_))));
    // the other pool is had, and the despawn goes on past the pool that is not
    assert_eq!(world.insert(e, I(2)).unwrap(), Some(I(1)));
    assert!(world.despawn(e));
    assert!(values::<I>(&world).is_empty());
    assert!(world.register::<U>());

    // a resource whose borrow was leaked is replaced, and lost
    world.set_res(U(7));
    std::mem::forget(world.res::<U>().unwrap());
    assert_eq!(world.set_res(U(8)), None);
    assert_eq!(world.res::<U>().unwrap().deref(), &U(8));
    std::mem::forget(world.res_mut::<U>().unwrap());
    assert_eq!(world.take_res::<U>(), None);
    assert!(matches!(world.res::<U>(), Err(toecs::world::res::BorrowError::NotFound(_))));
}

#[test]
fn registering_again_leaves_the_pool() {
    let mut world = World::default();
    assert!(!world.register::<U>());
    let e = world.spawn(U(5)).0;
    assert!(world.register::<U>());
    assert!(world.comp.register_raw::<U>(TypeId::of::<U>()));
    assert_eq!(values::<U>(&world), [U(5)]);
    assert_eq!(entities_of::<U>(&world), [e]);
}

#[test]
fn raw_insert_and_remove() {
    let mut world = World::default();
    world.register::<U>();
    let e = world.spawn_empty();
    let ty = TypeId::of::<U>();
    assert_eq!(world.insert_raw(ty, e, U(1)).unwrap(), None);
    assert_eq!(world.insert_raw(ty, e, U(2)).unwrap(), Some(U(1)));
    assert_eq!(entities_of::<U>(&world), [e]);
    assert!(matches!(world.insert_raw(TypeId::of::<I>(), e, I(1)), Err(BorrowError::NotRegistered(_))));
    assert!(matches!(world.insert_raw(ty, e, I(1)), Err(BorrowError::WrongType(_))));
    assert!(matches!(world.remove_raw::<I>(ty, e), Err(BorrowError::WrongType(_))));
    assert_eq!(world.remove_raw::<U>(ty, e).unwrap(), Some(U(2)));
    assert_eq!(world.remove_raw::<U>(ty, e).unwrap(), None);
    assert!(entities_of::<U>(&world).is_empty());
}

#[test]
fn a_handle_changes_components_and_no_entities() {
    let mut world = World::default();
    world.register::<U>();
    let a = world.spawn(U(1)).0;
    let b = world.spawn(U(2)).0;
    {
        let mut us = world.comp_mut::<U>().unwrap();
        let mut pool = us.deref_mut();
        pool.get_mut(a).unwrap().0 = 10;
        pool.as_mut_slice()[1].0 = 20;
        assert_eq!(pool.pool().entities(), [a, b]);
        {
            let (x, y) = pool.get2_mut(a, b).unwrap();
            std::mem::swap(x, y);
        }
        assert_eq!(pool.pool().as_slice(), [U(20), U(10)]);
        {
            let (ents, values) = pool.as_mut_slice_with_entities();
            assert_eq!(ents, [a, b]);
            values.swap(0, 1);
        }
        assert!(pool.get_mut(Entity::initial(toecs::world::sparse::RawSparseIndex(9))).is_none());
    }
    assert_eq!(values::<U>(&world), [U(10), U(20)]);
}
