//! World: container of entities, components and resources

pub mod cells;
pub mod comp;
pub mod ent;
pub mod fetch;
pub mod res;
pub mod sparse;

use crate::world::comp::{
    all_seen, borrow_error, borrow_result, dropped_from, entity_indices, lemma_pool_orders,
    with_entity, without_entity, BorrowError, Comp, CompMut, Component, ComponentPool,
    ComponentPoolMap,
};
use crate::world::ent::{lemma_seen_stays, Entity, EntityPool, EntityPoolView};
use crate::world::sparse::has_slot;
use crate::world::res::{Res, ResMut, Resource, ResourceMap};
use std::any::TypeId;
use vstd::prelude::*;

verus! {

/// Metadata for types stored in any map
#[derive(Debug, Clone, Copy)]
pub struct TypeInfo {
    pub ty: TypeId,
}

impl TypeInfo {
    pub fn of<T: 'static>() -> Self {
        TypeInfo { ty: TypeId::of::<T>() }
    }
}

/// Gives a live entity the component, and a dead one nothing. Returns the component that the
/// slot of the entity held before.
///
/// The pool holds components only for entities that the pool of entities has made, so that
/// what the slot of a live entity held was of an earlier generation.
pub fn insert_if_live<T>(ents: &EntityPool, pool: &mut ComponentPool<T>, ent: Entity, comp: T) -> (r:
    Option<T>)
    requires
        ents.wf(),
        old(pool).wf(),
        all_seen(ents@, old(pool).spec_entities()),
    ensures
        final(pool).wf(),
        all_seen(ents@, final(pool).spec_entities()),
        if ents@.contains(ent) {
            old(pool).inserted(*final(pool), ent, comp, r)
        } else {
            r is None && *final(pool) == *old(pool)
        },
{
    if ents.contains(ent) {
        proof {
            let i = ents@.entities.index_of(ent);
            assert(ents@.entities[i].slot() < ents@.generations.len());
            let indices = pool.spec_set().spec_indices();
            assert forall|k: int| 0 <= k < indices.len() && (#[trigger] indices[k]).raw
                == ent.0.raw implies indices[k].gen.raw <= ent.0.gen.raw by {
                assert(ents@.has_seen(pool.spec_entities()[k]));
            }
        }
        let ghost before = *pool;
        let r = pool.insert(ent, comp);
        proof {
            lemma_pool_orders(before, *pool, ent);
            assert(ents@.has_seen(ent));
        }
        r
    } else {
        None
    }
}

/// Takes the component of a live entity out, and nothing of a dead one.
pub fn remove_if_live<T>(ents: &EntityPool, pool: &mut ComponentPool<T>, ent: Entity) -> (r: Option<
    T,
>)
    requires
        ents.wf(),
        old(pool).wf(),
    ensures
        final(pool).wf(),
        all_seen(ents@, old(pool).spec_entities()) ==> all_seen(ents@, final(pool).spec_entities()),
        if ents@.contains(ent) {
            old(pool).removed(*final(pool), ent, r)
        } else {
            r is None && *final(pool) == *old(pool)
        },
{
    if ents.contains(ent) {
        let ghost before = *pool;
        let r = pool.swap_remove(ent);
        proof {
            lemma_pool_orders(before, *pool, ent);
        }
        r
    } else {
        None
    }
}

/// In-memory central DB
pub struct World {
    pub res: ResourceMap,
    pub ents: EntityPool,
    pub comp: ComponentPoolMap,
}

impl Default for World {
    fn default() -> (r: Self)
        ensures
            r.wf(),
            r.ents@.entities.len() == 0,
            r.ents@.generations.len() == 0,
            r.comp.registered() == Set::<TypeId>::empty(),
            r.res.present() == Set::<TypeId>::empty(),
    {
        World { res: ResourceMap::default(), ents: EntityPool::default(), comp: ComponentPoolMap::default() }
    }
}

/// The error of a result, if it is one.
pub open spec fn error_of<V>(r: Result<V, BorrowError>) -> Option<BorrowError> {
    match r {
        Ok(_) => None,
        Err(e) => Some(e),
    }
}

/// Whether `after` is `before` after the pool under `ty` was sought and `ent` given a component
/// in it: without an error the pool holds `ent`, in the place of the entity of its slot or in a
/// new one at the end, and no other pool has changed; with an error, which is one of a borrow
/// of that pool, nothing has changed.
pub open spec fn inserted_at(
    before: ComponentPoolMap,
    after: ComponentPoolMap,
    ty: TypeId,
    ent: Entity,
    error: Option<BorrowError>,
) -> bool {
    &&& after.registered() == before.registered()
    &&& match error {
        None => {
            &&& before.registered().contains(ty)
            &&& after.entities() == before.entities().insert(
                ty,
                with_entity(before.entities()[ty], ent),
            )
        },
        Some(e) => after == before && borrow_error(before.registered(), ty, e),
    }
}

/// Whether `after` is `before` after the pool under `ty` was sought and the component of `ent`
/// taken out of it: without an error the pool holds what it held but `ent`, the last entity
/// in its place, and no other pool has changed; with an error, which is one of a borrow of
/// that pool, nothing has changed.
pub open spec fn removed_at(
    before: ComponentPoolMap,
    after: ComponentPoolMap,
    ty: TypeId,
    ent: Entity,
    error: Option<BorrowError>,
) -> bool {
    &&& after.registered() == before.registered()
    &&& match error {
        None => {
            &&& before.registered().contains(ty)
            &&& after.entities() == before.entities().insert(
                ty,
                without_entity(before.entities()[ty], ent),
            )
        },
        Some(e) => after == before && borrow_error(before.registered(), ty, e),
    }
}

/// One set of components after another: the second is done where the first gave no error, and
/// the error of the first is the error of both.
pub open spec fn then_inserted<A: ComponentSet, B: ComponentSet>(
    before: ComponentPoolMap,
    mid: ComponentPoolMap,
    after: ComponentPoolMap,
    ent: Entity,
    error: Option<BorrowError>,
) -> bool {
    ||| A::spec_inserted(before, mid, ent, None) && B::spec_inserted(mid, after, ent, error)
    ||| error is Some && A::spec_inserted(before, after, ent, error)
}

/// One set of components after another: the second is done where the first gave no error, and
/// the error of the first is the error of both.
pub open spec fn then_removed<A: ComponentSet, B: ComponentSet>(
    before: ComponentPoolMap,
    mid: ComponentPoolMap,
    after: ComponentPoolMap,
    ent: Entity,
    error: Option<BorrowError>,
) -> bool {
    ||| A::spec_removed(before, mid, ent, None) && B::spec_removed(mid, after, ent, error)
    ||| error is Some && A::spec_removed(before, after, ent, error)
}

impl World {
    /// The invariant of the world: that of its pool of entities, and that the pools of
    /// components hold components only for entities that the pool of entities has made.
    pub open spec fn wf(&self) -> bool {
        self.ents.wf() && self.comp.known_to(self.ents@)
    }

    /// Whether `after` is this world after `ent` was given a component in the pool under `ty`,
    /// and `r` the result: a dead entity gets nothing and nothing is sought for it; a live one
    /// gets its place in the pool, and what the entity of its slot had there is returned.
    pub open spec fn inserted<V>(
        self,
        after: World,
        ty: TypeId,
        ent: Entity,
        r: Result<Option<V>, BorrowError>,
    ) -> bool {
        &&& after.ents == self.ents
        &&& after.res == self.res
        &&& if self.ents@.contains(ent) {
            &&& inserted_at(self.comp, after.comp, ty, ent, error_of(r))
            &&& r matches Ok(x) ==> (x is Some <==> has_slot(
                entity_indices(self.comp.entities()[ty]),
                ent.0.raw,
            ))
        } else {
            r == Ok::<Option<V>, BorrowError>(None) && after == self
        }
    }

    /// Whether `after` is this world after the component of `ent` was taken out of the pool
    /// under `ty`, and `r` the result: a dead entity loses nothing and nothing is sought for
    /// it; a live one leaves the pool, and what it had there is returned.
    pub open spec fn removed<V>(
        self,
        after: World,
        ty: TypeId,
        ent: Entity,
        r: Result<Option<V>, BorrowError>,
    ) -> bool {
        &&& after.ents == self.ents
        &&& after.res == self.res
        &&& if self.ents@.contains(ent) {
            &&& removed_at(self.comp, after.comp, ty, ent, error_of(r))
            &&& r matches Ok(x) ==> (x is Some <==> self.comp.entities()[ty].contains(ent))
        } else {
            r == Ok::<Option<V>, BorrowError>(None) && after == self
        }
    }

    /// Sets a resource, a unique instance of type `T`. Returns some old value if it's present.
    pub fn set_res<T: Resource>(&mut self, res: T) -> (r: Option<T>)
        ensures
            final(self).ents == old(self).ents,
            final(self).comp == old(self).comp,
            exists|ty: TypeId|
                final(self).res.present() == old(self).res.present().insert(ty) && (r is Some
                    ==> old(self).res.present().contains(ty)),
    {
        self.res.insert(res)
    }

    /// Takes out a resource
    pub fn take_res<T: Resource>(&mut self) -> (r: Option<T>)
        ensures
            final(self).ents == old(self).ents,
            final(self).comp == old(self).comp,
            exists|ty: TypeId|
                final(self).res.present() == old(self).res.present().remove(ty) && (r is Some
                    ==> old(self).res.present().contains(ty)),
    {
        self.res.remove()
    }

    /// Tries to get an immutable access to a resource of type `T`
    pub fn res<T: Resource>(&self) -> (r: Result<Res<'_, T>, crate::world::res::BorrowError>)
        ensures
            exists|ty: TypeId| crate::world::res::borrow_result(self.res.present(), ty, r),
    {
        self.res.try_borrow::<T>()
    }

    /// Tries to get a mutable access to a resource of type `T`
    pub fn res_mut<T: Resource>(&self) -> (r: Result<ResMut<'_, T>, crate::world::res::BorrowError>)
        ensures
            exists|ty: TypeId| crate::world::res::borrow_result(self.res.present(), ty, r),
    {
        self.res.try_borrow_mut::<T>()
    }

    /// Checks if we have a component pool for type `T`
    pub fn is_registered<T: Component>(&self) -> (r: bool)
        ensures
            exists|ty: TypeId| r == self.comp.registered().contains(ty),
    {
        self.comp.is_registered::<T>()
    }

    /// [`is_registered`] by `TypeId`
    ///
    /// [`is_registered`]: Self::is_registered
    pub fn is_registered_raw(&self, ty: TypeId) -> (r: bool)
        ensures
            r == self.comp.registered().contains(ty),
    {
        self.comp.is_registered_raw(ty)
    }

    /// Registers a component pool for type `T`. Returns true if it was already registered:
    /// then nothing has changed, and else an empty pool has come.
    pub fn register<T: Component>(&mut self) -> (r: bool)
        ensures
            final(self).ents == old(self).ents,
            final(self).res == old(self).res,
            exists|ty: TypeId| old(self).comp.registered_as(final(self).comp, ty, r),
            old(self).wf() ==> final(self).wf(),
    {
        let r = self.comp.register::<T>();
        proof {
            let ty = choose|ty: TypeId| old(self).comp.registered_as(self.comp, ty, r);
            assert(old(self).comp.registered_as(self.comp, ty, r));
        }
        r
    }

    /// Spawns an [`Entity`] with no component
    pub fn spawn_empty(&mut self) -> (r: Entity)
        requires
            old(self).wf(),
            old(self).ents@.can_alloc(),
        ensures
            final(self).wf(),
            r == old(self).ents@.next_entity(),
            final(self).ents@ == old(self).ents@.allocated(),
            final(self).comp == old(self).comp,
            final(self).res == old(self).res,
    {
        self.ents.allocate()
    }

    /// Reserves an [`Entity`]. Make sure to call [`synchronize`](Self::synchronize) before
    /// use.
    pub fn reserve_atomic(&mut self) -> (r: Option<Entity>)
        requires
            old(self).wf(),
        ensures
            *final(self) == *old(self),
            match r {
                Some(e) => exists|n: nat|
                    old(self).ents@.can_reserve(n) && e == old(self).ents@.reserved(n),
                None => exists|n: nat| !old(self).ents@.can_reserve(n),
            },
    {
        self.ents.reserve_atomic()
    }

    /// Spawns all the reserved entities
    pub fn synchronize(&mut self)
        requires
            old(self).wf(),
        ensures
            final(self).wf(),
            final(self).comp == old(self).comp,
            final(self).res == old(self).res,
            exists|k: nat|
                old(self).ents@.can_alloc_n(k) && final(self).ents@ == old(self).ents@.allocated_n(
                    k,
                ),
    {
        self.ents.synchronize();
        proof {
            let k = choose|k: nat|
                old(self).ents@.can_alloc_n(k) && self.ents@ == old(self).ents@.allocated_n(k);
            assert forall|ty: TypeId| self.comp.registered().contains(ty) implies all_seen(
                self.ents@,
                #[trigger] self.comp.entities()[ty],
            ) by {
                let held = self.comp.entities()[ty];
                assert(all_seen(old(self).ents@, held));
                assert forall|i: int| 0 <= i < held.len() implies self.ents@.has_seen(
                    #[trigger] held[i],
                ) by {
                    lemma_seen_stays(old(self).ents@, k, held[i]);
                }
            }
        }
    }

    /// Despawns an [`Entity`]. Returns if it was an active entity.
    ///
    /// A live entity leaves the pool of entities, and every pool of components that can be
    /// had drops its component: a pool holds afterwards what it held but the entity, or, where
    /// its cell did not hand it out, what it held.
    pub fn despawn(&mut self, ent: Entity) -> (r: bool)
        requires
            old(self).wf(),
        ensures
            final(self).wf(),
            r == old(self).ents@.contains(ent),
            final(self).ents@ == old(self).ents@.deallocated(ent),
            final(self).comp.registered() == old(self).comp.registered(),
            final(self).res == old(self).res,
            !r ==> final(self).comp == old(self).comp,
            forall|ty: TypeId|
                #![trigger final(self).comp.entities()[ty]]
                final(self).comp.entities()[ty] == old(self).comp.entities()[ty] || dropped_from(
                    old(self).comp.entities()[ty],
                    final(self).comp.entities()[ty],
                    ent,
                ),
    {
        if !self.ents.dealloc(ent) {
            // old entity
            return false;
        }
        self.comp.remove_all(ent);
        proof {
            assert forall|ty: TypeId| self.comp.registered().contains(ty) implies all_seen(
                self.ents@,
                #[trigger] self.comp.entities()[ty],
            ) by {
                let held = self.comp.entities()[ty];
                assert(all_seen(old(self).ents@, old(self).comp.entities()[ty]));
                assert forall|i: int| 0 <= i < held.len() implies self.ents@.has_seen(
                    #[trigger] held[i],
                ) by {
                    assert(held.contains(held[i]));
                    assert(old(self).comp.entities()[ty].contains(held[i]));
                }
            }
        }
        true
    }

    pub fn entities(&self) -> (r: &[Entity])
        ensures
            r@ == self.ents@.entities,
    {
        self.ents.slice()
    }

    pub fn contains(&self, ent: Entity) -> (r: bool)
        requires
            self.wf(),
        ensures
            r == self.ents@.contains(ent),
    {
        self.ents.contains(ent)
    }

    /// Tries to get an immutable access to a component pool of type `T`
    pub fn comp<T: Component>(&self) -> (r: Result<Comp<'_, T>, BorrowError>)
        ensures
            exists|ty: TypeId| borrow_result(self.comp.registered(), ty, r),
    {
        self.comp.try_borrow::<T>()
    }

    /// Tries to get a mutable access to a component pool of type `T`
    pub fn comp_mut<T: Component>(&self) -> (r: Result<CompMut<'_, T>, BorrowError>)
        ensures
            exists|ty: TypeId| borrow_result(self.comp.registered(), ty, r),
    {
        self.comp.try_borrow_mut::<T>()
    }

    /// Inserts a component to an entity. Returns some old component if it is present.
    ///
    /// A dead entity gets nothing, and nothing is looked up for it. For a live entity the
    /// component goes into the pool of `T`; where that pool cannot be had, nothing is inserted
    /// and the error says why.
    pub fn insert<T: Component>(&mut self, ent: Entity, comp: T) -> (r: Result<Option<T>, BorrowError>)
        requires
            old(self).wf(),
        ensures
            exists|ty: TypeId| old(self).inserted(*final(self), ty, ent, r),
    {
        let ty = TypeId::of::<T>();
        let r = self.insert_raw(ty, ent, comp);
        assert(old(self).inserted(*self, ty, ent, r));
        r
    }

    /// Inserts a component to an entity, into the pool that is registered under `ty`, which is
    /// the identifier of `T`. Returns some old component if it is present.
    pub fn insert_raw<T: Component>(&mut self, ty: TypeId, ent: Entity, comp: T) -> (r: Result<
        Option<T>,
        BorrowError,
    >)
        requires
            old(self).wf(),
        ensures
            old(self).inserted(*final(self), ty, ent, r),
    {
        if self.ents.contains(ent) {
            match self.comp.get_mut_raw::<T>(ty) {
                Ok(pool) => {
                    let ghost before = *pool;
                    let x = insert_if_live(&self.ents, pool, ent, comp);
                    proof {
                        lemma_pool_orders(before, *pool, ent);
                    }
                    Ok(x)
                },
                Err(e) => Err(e),
            }
        } else {
            Ok(None)
        }
    }

    /// Removes a component from an entity.
    ///
    /// A dead entity loses nothing, and nothing is looked up for it. For a live entity the
    /// component is taken out of the pool of `T`; where that pool cannot be had, the error
    /// says why.
    pub fn remove<T: Component>(&mut self, ent: Entity) -> (r: Result<Option<T>, BorrowError>)
        requires
            old(self).wf(),
        ensures
            exists|ty: TypeId| old(self).removed(*final(self), ty, ent, r),
    {
        let ty = TypeId::of::<T>();
        let r = self.remove_raw::<T>(ty, ent);
        assert(old(self).removed(*self, ty, ent, r));
        r
    }

    /// Removes a component from an entity, out of the pool that is registered under `ty`,
    /// which is the identifier of `T`.
    pub fn remove_raw<T: Component>(&mut self, ty: TypeId, ent: Entity) -> (r: Result<
        Option<T>,
        BorrowError,
    >)
        requires
            old(self).wf(),
        ensures
            old(self).removed(*final(self), ty, ent, r),
    {
        if self.ents.contains(ent) {
            match self.comp.get_mut_raw::<T>(ty) {
                Ok(pool) => {
                    let ghost before = *pool;
                    let x = remove_if_live(&self.ents, pool, ent);
                    proof {
                        lemma_pool_orders(before, *pool, ent);
                    }
                    Ok(x)
                },
                Err(e) => Err(e),
            }
        } else {
            Ok(None)
        }
    }
}

impl World {
    /// Sets a set of of resources
    pub fn set_res_set<T: ResourceSet>(&mut self, set: T)
        ensures
            final(self).ents == old(self).ents,
            final(self).comp == old(self).comp,
            T::spec_inserts(old(self).res, final(self).res),
            old(self).res.present().subset_of(final(self).res.present()),
    {
        set.insert(self);
    }

    /// Takes out a set of resource
    pub fn take_res_set<T: ResourceSet>(&mut self)
        ensures
            final(self).ents == old(self).ents,
            final(self).comp == old(self).comp,
            T::spec_takes(old(self).res, final(self).res),
            final(self).res.present().subset_of(old(self).res.present()),
    {
        T::take(self);
    }

    /// Registers a set of component pools
    pub fn register_set<C: ComponentSet>(&mut self)
        ensures
            final(self).ents == old(self).ents,
            final(self).res == old(self).res,
            C::spec_registers(old(self).comp, final(self).comp),
            old(self).comp.registered().subset_of(final(self).comp.registered()),
            old(self).wf() ==> final(self).wf(),
    {
        C::register(&mut self.comp);
    }

    /// Spawns an [`Entity`] with its components. The entity is spawned also where a component
    /// finds no pool: the error then names the first one that found none.
    pub fn spawn<C: ComponentSet>(&mut self, comps: C) -> (r: (Entity, Result<(), BorrowError>))
        requires
            old(self).wf(),
            old(self).ents@.can_alloc(),
        ensures
            final(self).wf(),
            r.0 == old(self).ents@.next_entity(),
            final(self).ents@ == old(self).ents@.allocated(),
            final(self).res == old(self).res,
            final(self).comp.registered() == old(self).comp.registered(),
            C::spec_inserted(old(self).comp, final(self).comp, r.0, error_of(r.1)),
    {
        let ent = self.ents.allocate();
        proof {
            crate::world::ent::lemma_allocated(old(self).ents@);
        }
        let r = comps.insert(ent, self);
        (ent, r)
    }

    /// Inserts a set of component to an entity
    pub fn insert_set<C: ComponentSet>(&mut self, ent: Entity, set: C) -> (r: Result<(), BorrowError>)
        requires
            old(self).wf(),
        ensures
            final(self).wf(),
            final(self).ents == old(self).ents,
            final(self).res == old(self).res,
            final(self).comp.registered() == old(self).comp.registered(),
            if old(self).ents@.contains(ent) {
                C::spec_inserted(old(self).comp, final(self).comp, ent, error_of(r))
            } else {
                r is Ok && *final(self) == *old(self)
            },
    {
        set.insert(ent, self)
    }

    /// Removes a set of component to from entity.
    pub fn remove_set<C: ComponentSet>(&mut self, ent: Entity) -> (r: Result<(), BorrowError>)
        requires
            old(self).wf(),
        ensures
            final(self).wf(),
            final(self).ents == old(self).ents,
            final(self).res == old(self).res,
            final(self).comp.registered() == old(self).comp.registered(),
            if old(self).ents@.contains(ent) {
                C::spec_removed(old(self).comp, final(self).comp, ent, error_of(r))
            } else {
                r is Ok && *final(self) == *old(self)
            },
    {
        C::remove(ent, self)
    }
}

/// One ore more components, or set of component sets
pub trait ComponentSet: Sized {
    /// Whether `after` is `before` with the pools of this set registered, one after the other.
    spec fn spec_registers(before: ComponentPoolMap, after: ComponentPoolMap) -> bool;

    /// Whether `after` is `before` after the components of this set were inserted for `ent`,
    /// a live entity, one after the other up to the first error, and `error` that error.
    spec fn spec_inserted(
        before: ComponentPoolMap,
        after: ComponentPoolMap,
        ent: Entity,
        error: Option<BorrowError>,
    ) -> bool;

    /// Whether `after` is `before` after the components of this set were removed from `ent`, a
    /// live entity, one after the other up to the first error, and `error` that error.
    spec fn spec_removed(
        before: ComponentPoolMap,
        after: ComponentPoolMap,
        ent: Entity,
        error: Option<BorrowError>,
    ) -> bool;

    /// Whether `ids` can be the identifiers of the component types of this set: as many as
    /// there are components, those of a member set beside each other.
    spec fn spec_type_ids(ids: Vec<TypeId>) -> bool;

    /// Registers the set of component storages to the world
    fn register(map: &mut ComponentPoolMap)
        ensures
            Self::spec_registers(*old(map), *final(map)),
            old(map).registered().subset_of(final(map).registered()),
            forall|ents: EntityPoolView|
                old(map).known_to(ents) ==> #[trigger] final(map).known_to(ents),
    ;

    /// Inserts the set of components to an entity, one after the other, up to the first whose
    /// pool cannot be had. A dead entity gets nothing.
    fn insert(self, ent: Entity, world: &mut World) -> (r: Result<(), BorrowError>)
        requires
            old(world).wf(),
        ensures
            final(world).wf(),
            final(world).ents == old(world).ents,
            final(world).res == old(world).res,
            final(world).comp.registered() == old(world).comp.registered(),
            if old(world).ents@.contains(ent) {
                Self::spec_inserted(old(world).comp, final(world).comp, ent, error_of(r))
            } else {
                r is Ok && *final(world) == *old(world)
            },
    ;

    /// Removes the set of components from an entity, one after the other, up to the first
    /// whose pool cannot be had. A dead entity loses nothing.
    fn remove(ent: Entity, world: &mut World) -> (r: Result<(), BorrowError>)
        requires
            old(world).wf(),
        ensures
            final(world).wf(),
            final(world).ents == old(world).ents,
            final(world).res == old(world).res,
            final(world).comp.registered() == old(world).comp.registered(),
            if old(world).ents@.contains(ent) {
                Self::spec_removed(old(world).comp, final(world).comp, ent, error_of(r))
            } else {
                r is Ok && *final(world) == *old(world)
            },
    ;

    /// Enumerates the component types in this set
    fn type_ids() -> (r: Vec<TypeId>)
        ensures
            Self::spec_type_ids(r),
    ;
}

impl<T: Component> ComponentSet for T {
    open spec fn spec_registers(before: ComponentPoolMap, after: ComponentPoolMap) -> bool {
        exists|ty: TypeId, r: bool| before.registered_as(after, ty, r)
    }

    open spec fn spec_inserted(
        before: ComponentPoolMap,
        after: ComponentPoolMap,
        ent: Entity,
        error: Option<BorrowError>,
    ) -> bool {
        exists|ty: TypeId| inserted_at(before, after, ty, ent, error)
    }

    open spec fn spec_removed(
        before: ComponentPoolMap,
        after: ComponentPoolMap,
        ent: Entity,
        error: Option<BorrowError>,
    ) -> bool {
        exists|ty: TypeId| removed_at(before, after, ty, ent, error)
    }

    open spec fn spec_type_ids(ids: Vec<TypeId>) -> bool {
        ids@.len() == 1
    }

    fn register(map: &mut ComponentPoolMap) {
        map.register::<Self>();
    }

    fn insert(self, ent: Entity, world: &mut World) -> (r: Result<(), BorrowError>) {
        let ty = TypeId::of::<T>();
        let r = match world.insert_raw(ty, ent, self) {
            Ok(_) => Ok(()),
            Err(e) => Err(e),
        };
        assert(old(world).ents@.contains(ent) ==> inserted_at(
            old(world).comp,
            world.comp,
            ty,
            ent,
            error_of(r),
        ));
        r
    }

    fn remove(ent: Entity, world: &mut World) -> (r: Result<(), BorrowError>) {
        let ty = TypeId::of::<T>();
        let r = match world.remove_raw::<Self>(ty, ent) {
            Ok(_) => Ok(()),
            Err(e) => Err(e),
        };
        assert(old(world).ents@.contains(ent) ==> removed_at(
            old(world).comp,
            world.comp,
            ty,
            ent,
            error_of(r),
        ));
        r
    }

    fn type_ids() -> (r: Vec<TypeId>) {
        let mut ids: Vec<TypeId> = Vec::new();
        ids.push(TypeId::of::<T>());
        ids
    }
}

impl<C0: ComponentSet> ComponentSet for (C0,) {
    open spec fn spec_registers(before: ComponentPoolMap, after: ComponentPoolMap) -> bool {
        C0::spec_registers(before, after)
    }

    open spec fn spec_inserted(
        before: ComponentPoolMap,
        after: ComponentPoolMap,
        ent: Entity,
        error: Option<BorrowError>,
    ) -> bool {
        C0::spec_inserted(before, after, ent, error)
    }

    open spec fn spec_removed(
        before: ComponentPoolMap,
        after: ComponentPoolMap,
        ent: Entity,
        error: Option<BorrowError>,
    ) -> bool {
        C0::spec_removed(before, after, ent, error)
    }

    open spec fn spec_type_ids(ids: Vec<TypeId>) -> bool {
        C0::spec_type_ids(ids)
    }

    fn register(map: &mut ComponentPoolMap) {
        C0::register(map);
    }

    fn insert(self, ent: Entity, world: &mut World) -> (r: Result<(), BorrowError>) {
        C0::insert(self.0, ent, world)
    }

    fn remove(ent: Entity, world: &mut World) -> (r: Result<(), BorrowError>) {
        C0::remove(ent, world)
    }

    fn type_ids() -> (r: Vec<TypeId>) {
        C0::type_ids()
    }
}

impl<C0: ComponentSet, C1: ComponentSet> ComponentSet for (C0, C1) {
    open spec fn spec_registers(before: ComponentPoolMap, after: ComponentPoolMap) -> bool {
        exists|m1: ComponentPoolMap|
            C0::spec_registers(before, m1)
                && C1::spec_registers(m1, after)
    }

    open spec fn spec_inserted(
        before: ComponentPoolMap,
        after: ComponentPoolMap,
        ent: Entity,
        error: Option<BorrowError>,
    ) -> bool {
        exists|mid: ComponentPoolMap| then_inserted::<C0, C1>(before, mid, after, ent, error)
    }

    open spec fn spec_removed(
        before: ComponentPoolMap,
        after: ComponentPoolMap,
        ent: Entity,
        error: Option<BorrowError>,
    ) -> bool {
        exists|mid: ComponentPoolMap| then_removed::<C0, C1>(before, mid, after, ent, error)
    }

    open spec fn spec_type_ids(ids: Vec<TypeId>) -> bool {
        exists|i0: Vec<TypeId>, i1: Vec<TypeId>|
            C0::spec_type_ids(i0)
                && C1::spec_type_ids(i1)
                && ids@ == i0@ + i1@
    }

    fn register(map: &mut ComponentPoolMap) {
        C0::register(map);
        let ghost m1 = *map;
        C1::register(map);
        assert(C0::spec_registers(*old(map), m1)
            && C1::spec_registers(m1, *map));
    }

    fn insert(self, ent: Entity, world: &mut World) -> (r: Result<(), BorrowError>) {
        let r = C0::insert(self.0, ent, world);
        let ghost mid = world.comp;
        let ghost r0 = r;
        match r {
            Ok(()) => {
                let r = C1::insert(self.1, ent, world);
                assert(old(world).ents@.contains(ent) ==> then_inserted::<C0, C1>(
                    old(world).comp,
                    mid,
                    world.comp,
                    ent,
                    error_of(r),
                ));
                r
            },
            Err(e) => {
                assert(old(world).ents@.contains(ent) ==> then_inserted::<C0, C1>(
                    old(world).comp,
                    mid,
                    world.comp,
                    ent,
                    error_of(r0),
                ));
                Err(e)
            },
        }
    }

    fn remove(ent: Entity, world: &mut World) -> (r: Result<(), BorrowError>) {
        let r = C0::remove(ent, world);
        let ghost mid = world.comp;
        let ghost r0 = r;
        match r {
            Ok(()) => {
                let r = C1::remove(ent, world);
                assert(old(world).ents@.contains(ent) ==> then_removed::<C0, C1>(
                    old(world).comp,
                    mid,
                    world.comp,
                    ent,
                    error_of(r),
                ));
                r
            },
            Err(e) => {
                assert(old(world).ents@.contains(ent) ==> then_removed::<C0, C1>(
                    old(world).comp,
                    mid,
                    world.comp,
                    ent,
                    error_of(r0),
                ));
                Err(e)
            },
        }
    }

    fn type_ids() -> (r: Vec<TypeId>) {
        let mut ids = C0::type_ids();
        let ghost i0 = ids;
        let mut more = C1::type_ids();
        let ghost i1 = more;
        ids.append(&mut more);
        assert(C0::spec_type_ids(i0)
            && C1::spec_type_ids(i1)
            && ids@ == i0@ + i1@);
        ids
    }
}

impl<C0: ComponentSet, C1: ComponentSet, C2: ComponentSet> ComponentSet for (C0, C1, C2) {
    open spec fn spec_registers(before: ComponentPoolMap, after: ComponentPoolMap) -> bool {
        exists|m1: ComponentPoolMap, m2: ComponentPoolMap|
            C0::spec_registers(before, m1)
                && C1::spec_registers(m1, m2)
                && C2::spec_registers(m2, after)
    }

    open spec fn spec_inserted(
        before: ComponentPoolMap,
        after: ComponentPoolMap,
        ent: Entity,
        error: Option<BorrowError>,
    ) -> bool {
        exists|mid: ComponentPoolMap| then_inserted::<(C0, C1), C2>(before, mid, after, ent, error)
    }

    open spec fn spec_removed(
        before: ComponentPoolMap,
        after: ComponentPoolMap,
        ent: Entity,
        error: Option<BorrowError>,
    ) -> bool {
        exists|mid: ComponentPoolMap| then_removed::<(C0, C1), C2>(before, mid, after, ent, error)
    }

    open spec fn spec_type_ids(ids: Vec<TypeId>) -> bool {
        exists|i0: Vec<TypeId>, i1: Vec<TypeId>, i2: Vec<TypeId>|
            C0::spec_type_ids(i0)
                && C1::spec_type_ids(i1)
                && C2::spec_type_ids(i2)
                && ids@ == i0@ + i1@ + i2@
    }

    fn register(map: &mut ComponentPoolMap) {
        C0::register(map);
        let ghost m1 = *map;
        C1::register(map);
        let ghost m2 = *map;
        C2::register(map);
        assert(C0::spec_registers(*old(map), m1)
            && C1::spec_registers(m1, m2)
            && C2::spec_registers(m2, *map));
    }

    fn insert(self, ent: Entity, world: &mut World) -> (r: Result<(), BorrowError>) {
        let r = <(C0, C1) as ComponentSet>::insert((self.0, self.1), ent, world);
        let ghost mid = world.comp;
        let ghost r0 = r;
        match r {
            Ok(()) => {
                let r = C2::insert(self.2, ent, world);
                assert(old(world).ents@.contains(ent) ==> then_inserted::<(C0, C1), C2>(
                    old(world).comp,
                    mid,
                    world.comp,
                    ent,
                    error_of(r),
                ));
                r
            },
            Err(e) => {
                assert(old(world).ents@.contains(ent) ==> then_inserted::<(C0, C1), C2>(
                    old(world).comp,
                    mid,
                    world.comp,
                    ent,
                    error_of(r0),
                ));
                Err(e)
            },
        }
    }

    fn remove(ent: Entity, world: &mut World) -> (r: Result<(), BorrowError>) {
        let r = <(C0, C1) as ComponentSet>::remove(ent, world);
        let ghost mid = world.comp;
        let ghost r0 = r;
        match r {
            Ok(()) => {
                let r = C2::remove(ent, world);
                assert(old(world).ents@.contains(ent) ==> then_removed::<(C0, C1), C2>(
                    old(world).comp,
                    mid,
                    world.comp,
                    ent,
                    error_of(r),
                ));
                r
            },
            Err(e) => {
                assert(old(world).ents@.contains(ent) ==> then_removed::<(C0, C1), C2>(
                    old(world).comp,
                    mid,
                    world.comp,
                    ent,
                    error_of(r0),
                ));
                Err(e)
            },
        }
    }

    fn type_ids() -> (r: Vec<TypeId>) {
        let mut ids = C0::type_ids();
        let ghost i0 = ids;
        let mut more = C1::type_ids();
        let ghost i1 = more;
        ids.append(&mut more);
        let mut more = C2::type_ids();
        let ghost i2 = more;
        ids.append(&mut more);
        assert(C0::spec_type_ids(i0)
            && C1::spec_type_ids(i1)
            && C2::spec_type_ids(i2)
            && ids@ == i0@ + i1@ + i2@);
        ids
    }
}

impl<
    C0: ComponentSet,
    C1: ComponentSet,
    C2: ComponentSet,
    C3: ComponentSet,
> ComponentSet for (C0, C1, C2, C3) {
    open spec fn spec_registers(before: ComponentPoolMap, after: ComponentPoolMap) -> bool {
        exists|m1: ComponentPoolMap, m2: ComponentPoolMap, m3: ComponentPoolMap|
            C0::spec_registers(before, m1)
                && C1::spec_registers(m1, m2)
                && C2::spec_registers(m2, m3)
                && C3::spec_registers(m3, after)
    }

    open spec fn spec_inserted(
        before: ComponentPoolMap,
        after: ComponentPoolMap,
        ent: Entity,
        error: Option<BorrowError>,
    ) -> bool {
        exists|mid: ComponentPoolMap| then_inserted::<(C0, C1, C2), C3>(before, mid, after, ent, error)
    }

    open spec fn spec_removed(
        before: ComponentPoolMap,
        after: ComponentPoolMap,
        ent: Entity,
        error: Option<BorrowError>,
    ) -> bool {
        exists|mid: ComponentPoolMap| then_removed::<(C0, C1, C2), C3>(before, mid, after, ent, error)
    }

    open spec fn spec_type_ids(ids: Vec<TypeId>) -> bool {
        exists|i0: Vec<TypeId>, i1: Vec<TypeId>, i2: Vec<TypeId>, i3: Vec<TypeId>|
            C0::spec_type_ids(i0)
                && C1::spec_type_ids(i1)
                && C2::spec_type_ids(i2)
                && C3::spec_type_ids(i3)
                && ids@ == i0@ + i1@ + i2@ + i3@
    }

    fn register(map: &mut ComponentPoolMap) {
        C0::register(map);
        let ghost m1 = *map;
        C1::register(map);
        let ghost m2 = *map;
        C2::register(map);
        let ghost m3 = *map;
        C3::register(map);
        assert(C0::spec_registers(*old(map), m1)
            && C1::spec_registers(m1, m2)
            && C2::spec_registers(m2, m3)
            && C3::spec_registers(m3, *map));
    }

    fn insert(self, ent: Entity, world: &mut World) -> (r: Result<(), BorrowError>) {
        let r = <(C0, C1, C2) as ComponentSet>::insert((self.0, self.1, self.2), ent, world);
        let ghost mid = world.comp;
        let ghost r0 = r;
        match r {
            Ok(()) => {
                let r = C3::insert(self.3, ent, world);
                assert(old(world).ents@.contains(ent) ==> then_inserted::<(C0, C1, C2), C3>(
                    old(world).comp,
                    mid,
                    world.comp,
                    ent,
                    error_of(r),
                ));
                r
            },
            Err(e) => {
                assert(old(world).ents@.contains(ent) ==> then_inserted::<(C0, C1, C2), C3>(
                    old(world).comp,
                    mid,
                    world.comp,
                    ent,
                    error_of(r0),
                ));
                Err(e)
            },
        }
    }

    fn remove(ent: Entity, world: &mut World) -> (r: Result<(), BorrowError>) {
        let r = <(C0, C1, C2) as ComponentSet>::remove(ent, world);
        let ghost mid = world.comp;
        let ghost r0 = r;
        match r {
            Ok(()) => {
                let r = C3::remove(ent, world);
                assert(old(world).ents@.contains(ent) ==> then_removed::<(C0, C1, C2), C3>(
                    old(world).comp,
                    mid,
                    world.comp,
                    ent,
                    error_of(r),
                ));
                r
            },
            Err(e) => {
                assert(old(world).ents@.contains(ent) ==> then_removed::<(C0, C1, C2), C3>(
                    old(world).comp,
                    mid,
                    world.comp,
                    ent,
                    error_of(r0),
                ));
                Err(e)
            },
        }
    }

    fn type_ids() -> (r: Vec<TypeId>) {
        let mut ids = C0::type_ids();
        let ghost i0 = ids;
        let mut more = C1::type_ids();
        let ghost i1 = more;
        ids.append(&mut more);
        let mut more = C2::type_ids();
        let ghost i2 = more;
        ids.append(&mut more);
        let mut more = C3::type_ids();
        let ghost i3 = more;
        ids.append(&mut more);
        assert(C0::spec_type_ids(i0)
            && C1::spec_type_ids(i1)
            && C2::spec_type_ids(i2)
            && C3::spec_type_ids(i3)
            && ids@ == i0@ + i1@ + i2@ + i3@);
        ids
    }
}

/// Tuple of resources
pub trait ResourceSet: Sized {
    /// Whether `after` is `before` with the resources of this set set, one after the other.
    spec fn spec_inserts(before: ResourceMap, after: ResourceMap) -> bool;

    /// Whether `after` is `before` with the resources of this set taken out, one after the
    /// other.
    spec fn spec_takes(before: ResourceMap, after: ResourceMap) -> bool;

    /// Inserts the set of resources to the world
    fn insert(self, world: &mut World)
        ensures
            final(world).ents == old(world).ents,
            final(world).comp == old(world).comp,
            Self::spec_inserts(old(world).res, final(world).res),
            old(world).res.present().subset_of(final(world).res.present()),
    ;

    /// Remove the set of resources from the world
    fn take(world: &mut World)
        ensures
            final(world).ents == old(world).ents,
            final(world).comp == old(world).comp,
            Self::spec_takes(old(world).res, final(world).res),
            final(world).res.present().subset_of(old(world).res.present()),
    ;
}

/// Whether `after` is `before` with a resource set under some identifier.
pub open spec fn one_set(before: ResourceMap, after: ResourceMap) -> bool {
    exists|ty: TypeId| after.present() == before.present().insert(ty)
}

/// Whether `after` is `before` with the resource under some identifier taken out.
pub open spec fn one_taken(before: ResourceMap, after: ResourceMap) -> bool {
    exists|ty: TypeId| after.present() == before.present().remove(ty)
}

impl<R0: Resource> ResourceSet for (R0,) {
    open spec fn spec_inserts(before: ResourceMap, after: ResourceMap) -> bool {
        one_set(before, after)
    }

    open spec fn spec_takes(before: ResourceMap, after: ResourceMap) -> bool {
        one_taken(before, after)
    }

    fn insert(self, world: &mut World) {
        world.set_res(self.0);
    }

    fn take(world: &mut World) {
        world.take_res::<R0>();
    }
}

impl<R0: Resource, R1: Resource> ResourceSet for (R0, R1) {
    open spec fn spec_inserts(before: ResourceMap, after: ResourceMap) -> bool {
        exists|m1: ResourceMap| one_set(before, m1) && one_set(m1, after)
    }

    open spec fn spec_takes(before: ResourceMap, after: ResourceMap) -> bool {
        exists|m1: ResourceMap| one_taken(before, m1) && one_taken(m1, after)
    }

    fn insert(self, world: &mut World) {
        world.set_res(self.0);
        let ghost m1 = world.res;
        world.set_res(self.1);
        assert(one_set(old(world).res, m1) && one_set(m1, world.res));
    }

    fn take(world: &mut World) {
        world.take_res::<R0>();
        let ghost m1 = world.res;
        world.take_res::<R1>();
        assert(one_taken(old(world).res, m1) && one_taken(m1, world.res));
    }
}

impl<R0: Resource, R1: Resource, R2: Resource> ResourceSet for (R0, R1, R2) {
    open spec fn spec_inserts(before: ResourceMap, after: ResourceMap) -> bool {
        exists|m1: ResourceMap, m2: ResourceMap|
            one_set(before, m1) && one_set(m1, m2) && one_set(m2, after)
    }

    open spec fn spec_takes(before: ResourceMap, after: ResourceMap) -> bool {
        exists|m1: ResourceMap, m2: ResourceMap|
            one_taken(before, m1) && one_taken(m1, m2) && one_taken(m2, after)
    }

    fn insert(self, world: &mut World) {
        world.set_res(self.0);
        let ghost m1 = world.res;
        world.set_res(self.1);
        let ghost m2 = world.res;
        world.set_res(self.2);
        assert(one_set(old(world).res, m1) && one_set(m1, m2) && one_set(m2, world.res));
    }

    fn take(world: &mut World) {
        world.take_res::<R0>();
        let ghost m1 = world.res;
        world.take_res::<R1>();
        let ghost m2 = world.res;
        world.take_res::<R2>();
        assert(one_taken(old(world).res, m1) && one_taken(m1, m2)
            && one_taken(m2, world.res));
    }
}

impl<R0: Resource, R1: Resource, R2: Resource, R3: Resource> ResourceSet for (R0, R1, R2, R3) {
    open spec fn spec_inserts(before: ResourceMap, after: ResourceMap) -> bool {
        exists|m1: ResourceMap, m2: ResourceMap, m3: ResourceMap|
            one_set(before, m1) && one_set(m1, m2) && one_set(m2, m3) && one_set(m3, after)
    }

    open spec fn spec_takes(before: ResourceMap, after: ResourceMap) -> bool {
        exists|m1: ResourceMap, m2: ResourceMap, m3: ResourceMap|
            one_taken(before, m1) && one_taken(m1, m2) && one_taken(m2, m3) && one_taken(
                m3,
                after,
            )
    }

    fn insert(self, world: &mut World) {
        world.set_res(self.0);
        let ghost m1 = world.res;
        world.set_res(self.1);
        let ghost m2 = world.res;
        world.set_res(self.2);
        let ghost m3 = world.res;
        world.set_res(self.3);
        assert(one_set(old(world).res, m1) && one_set(m1, m2) && one_set(m2, m3)
            && one_set(m3, world.res));
    }

    fn take(world: &mut World) {
        world.take_res::<R0>();
        let ghost m1 = world.res;
        world.take_res::<R1>();
        let ghost m2 = world.res;
        world.take_res::<R2>();
        let ghost m3 = world.res;
        world.take_res::<R3>();
        assert(one_taken(old(world).res, m1) && one_taken(m1, m2) && one_taken(m2, m3)
            && one_taken(m3, world.res));
    }
}

} // verus!
