//! Components: data that forms an entity
//!
//! Each type of components is stored in a pool backed by a [`SparseSet`].

use crate::world::cells::{
    cell_keys, cells_borrow, cells_borrow_mut, cells_contains, cells_new, Cells, Lookup,
};
use crate::world::ent::{Entity, EntityPoolView};
use crate::world::sparse::{
    distinct_slots, has_slot, not_older, parts_wf, slot_position, swap_removed, DenseIndex,
    SparseIndex, SparseSet,
};
use atomic_refcell::{AtomicRef, AtomicRefCell, AtomicRefMut};
use std::any::TypeId;
use std::marker::PhantomData;
use vstd::prelude::*;

verus! {

/// Type boundary for component types
pub trait Component: 'static + Send + Sync {

}

/// The entities that the indices name, in the same order.
pub open spec fn as_entities(indices: Seq<SparseIndex>) -> Seq<Entity> {
    Seq::new(indices.len(), |i: int| Entity(indices[i]))
}

/// Sparse set of components of type T
#[derive(Debug)]
pub struct ComponentPool<T> {
    set: SparseSet<T>,
}

impl<T> View for ComponentPool<T> {
    type V = Map<Entity, T>;

    open spec fn view(&self) -> Map<Entity, T> {
        Map::new(|e: Entity| self.spec_set()@.contains_key(e.0), |e: Entity| self.spec_set()@[e.0])
    }
}

impl<T> Default for ComponentPool<T> {
    fn default() -> (r: Self)
        ensures
            r.wf(),
            r.spec_entities() == Seq::<Entity>::empty(),
            r.spec_values() == Seq::<T>::empty(),
    {
        let r = ComponentPool { set: SparseSet::default() };
        r
    }
}

impl<T> ComponentPool<T> {
    /// The sparse set that holds the components.
    pub closed spec fn spec_set(&self) -> SparseSet<T> {
        self.set
    }

    /// The invariant of the pool.
    pub open spec fn wf(&self) -> bool {
        self.spec_set().wf()
    }

    /// The entities that have a component, in packed order.
    pub open spec fn spec_entities(&self) -> Seq<Entity> {
        as_entities(self.spec_set().spec_indices())
    }

    /// The components, in packed order: each belongs to the entity at its position.
    pub open spec fn spec_values(&self) -> Seq<T> {
        self.spec_set().spec_values()
    }

    pub fn contains(&self, ent: Entity) -> (r: bool)
        requires
            self.wf(),
        ensures
            r == self@.contains_key(ent),
            r == self.spec_entities().contains(ent),
    {
        proof {
            lemma_as_entities_contains(self.set.spec_indices(), ent);
        }
        self.set.contains(ent.0)
    }

    pub fn get(&self, ent: Entity) -> (r: Option<&T>)
        requires
            self.wf(),
        ensures
            match r {
                Some(v) => self@.contains_key(ent) && *v == self@[ent],
                None => !self@.contains_key(ent),
            },
    {
        self.set.get(ent.0)
    }

    pub fn get_mut(&mut self, ent: Entity) -> (r: Option<&mut T>)
        requires
            old(self).wf(),
        ensures
            final(self).wf(),
            final(self).spec_entities() == old(self).spec_entities(),
            match r {
                Some(v) => {
                    &&& old(self)@.contains_key(ent)
                    &&& *v == old(self)@[ent]
                    &&& final(self).spec_values() == old(self).spec_values().update(
                        old(self).spec_entities().index_of(ent),
                        *final(v),
                    )
                },
                None => !old(self)@.contains_key(ent) && final(self).spec_values() == old(self).spec_values(),
            },
    {
        proof {
            lemma_as_entities_contains(self.set.spec_indices(), ent);
        }
        self.set.get_mut(ent.0)
    }

    /// The components of two different entities, to be changed in their places.
    pub fn get2_mut(&mut self, a: Entity, b: Entity) -> (r: Option<(&mut T, &mut T)>)
        requires
            old(self).wf(),
            a != b,
        ensures
            final(self).wf(),
            final(self).spec_entities() == old(self).spec_entities(),
            match r {
                Some((x, y)) => {
                    &&& old(self)@.contains_key(a)
                    &&& old(self)@.contains_key(b)
                    &&& *x == old(self)@[a]
                    &&& *y == old(self)@[b]
                    &&& final(self).spec_values() == old(self).spec_values().update(
                        old(self).spec_entities().index_of(a),
                        *final(x),
                    ).update(old(self).spec_entities().index_of(b), *final(y))
                },
                None => {
                    &&& !(old(self)@.contains_key(a) && old(self)@.contains_key(b))
                    &&& final(self).spec_values() == old(self).spec_values()
                },
            },
    {
        proof {
            lemma_as_entities_contains(self.set.spec_indices(), a);
            lemma_as_entities_contains(self.set.spec_indices(), b);
        }
        self.set.get2_mut(a.0, b.0)
    }

    pub fn as_slice(&self) -> (r: &[T])
        ensures
            r@ == self.spec_values(),
    {
        self.set.as_slice()
    }

    pub fn as_mut_slice(&mut self) -> (r: &mut [T])
        requires
            old(self).wf(),
        ensures
            r@ == old(self).spec_values(),
            final(self).spec_values() == final(r)@,
            final(self).spec_entities() == old(self).spec_entities(),
            final(r)@.len() == r@.len() ==> final(self).wf(),
    {
        self.set.as_mut_slice()
    }

    /// The entities that have a component, in packed order.
    pub fn entities(&self) -> (r: Vec<Entity>)
        ensures
            r@ == self.spec_entities(),
    {
        Self::to_entities(self.set.indices())
    }

    pub fn as_slice_with_entities(&self) -> (r: (Vec<Entity>, &[T]))
        ensures
            r.0@ == self.spec_entities(),
            r.1@ == self.spec_values(),
    {
        let (sparse, comps) = self.set.as_slice_with_indices();
        (Self::to_entities(sparse), comps)
    }

    pub fn as_mut_slice_with_entities(&mut self) -> (r: (Vec<Entity>, &mut [T]))
        requires
            old(self).wf(),
        ensures
            r.0@ == old(self).spec_entities(),
            r.1@ == old(self).spec_values(),
            final(self).spec_values() == final(r.1)@,
            final(self).spec_entities() == old(self).spec_entities(),
            final(r.1)@.len() == r.1@.len() ==> final(self).wf(),
    {
        let (sparse, comps) = self.set.as_mut_slice_with_indices();
        (Self::to_entities(sparse), comps)
    }

    fn to_entities(sparse: &[SparseIndex]) -> (r: Vec<Entity>)
        ensures
            r@ == as_entities(sparse@),
    {
        let mut out: Vec<Entity> = Vec::new();
        let mut i: usize = 0;
        while i < sparse.len()
            invariant
                i <= sparse@.len(),
                out@ == as_entities(sparse@.take(i as int)),
            decreases sparse@.len() - i,
        {
            out.push(Entity(sparse[i]));
            i += 1;
        }
        out
    }

    /// Whether `after` is this pool after `ent` was given `comp`, and `r` what the slot of `ent`
    /// held before: the component takes the place of the one that the slot held, whatever the
    /// generation that it was stored under, or a new place at the end of the packed order.
    pub open spec fn inserted(self, after: Self, ent: Entity, comp: T, r: Option<T>) -> bool {
        &&& after@ == self@.remove_keys(Set::new(|e: Entity| e.0.raw == ent.0.raw)).insert(ent, comp)
        &&& match r {
            Some(old_item) => {
                let i = slot_position(self.spec_set().spec_indices(), ent.0.raw);
                &&& has_slot(self.spec_set().spec_indices(), ent.0.raw)
                &&& old_item == self.spec_values()[i]
                &&& after.spec_entities() == self.spec_entities().update(i, ent)
                &&& after.spec_values() == self.spec_values().update(i, comp)
            },
            None => {
                &&& !has_slot(self.spec_set().spec_indices(), ent.0.raw)
                &&& after.spec_entities() == self.spec_entities().push(ent)
                &&& after.spec_values() == self.spec_values().push(comp)
            },
        }
    }

    /// Whether `after` is this pool after the component of `ent` was taken out, and `r` that
    /// component: the last component of the packed order has moved into its place.
    pub open spec fn removed(self, after: Self, ent: Entity, r: Option<T>) -> bool {
        &&& after@ == self@.remove(ent)
        &&& match r {
            Some(item) => {
                let i = self.spec_entities().index_of(ent);
                &&& self@.contains_key(ent)
                &&& item == self@[ent]
                &&& after.spec_entities() == swap_removed(self.spec_entities(), i)
                &&& after.spec_values() == swap_removed(self.spec_values(), i)
            },
            None => {
                &&& !self@.contains_key(ent)
                &&& after.spec_entities() == self.spec_entities()
                &&& after.spec_values() == self.spec_values()
            },
        }
    }

    /// Gives the entity the component. Returns the component that the slot of the entity held
    /// before, if any: that of the entity itself or of an earlier entity of the slot, never of
    /// a later one.
    pub fn insert(&mut self, ent: Entity, comp: T) -> (r: Option<T>)
        requires
            old(self).wf(),
            ent.slot() < usize::MAX,
            not_older(old(self).spec_set().spec_indices(), ent.0),
        ensures
            final(self).wf(),
            old(self).inserted(*final(self), ent, comp, r),
    {
        let r = self.set.insert(ent.0, comp);
        proof {
            let before = old(self).spec_set();
            assert(final(self).spec_entities() =~= match r {
                Some(_) => old(self).spec_entities().update(
                    slot_position(before.spec_indices(), ent.0.raw),
                    ent,
                ),
                None => old(self).spec_entities().push(ent),
            });
            assert(final(self)@ =~= old(self)@.remove_keys(
                Set::new(|e: Entity| e.0.raw == ent.0.raw),
            ).insert(ent, comp));
        }
        r
    }

    /// Takes the component of the entity out, and moves the last component of the packed order
    /// into its place.
    pub fn swap_remove(&mut self, ent: Entity) -> (r: Option<T>)
        requires
            old(self).wf(),
        ensures
            final(self).wf(),
            old(self).removed(*final(self), ent, r),
    {
        proof {
            lemma_as_entities_contains(self.set.spec_indices(), ent);
        }
        let r = self.set.swap_remove(ent.0);
        proof {
            assert(final(self)@ =~= old(self)@.remove(ent));
            if r is Some {
                let i = old(self).spec_entities().index_of(ent);
                assert(final(self).spec_entities() =~= swap_removed(old(self).spec_entities(), i));
            }
        }
        r
    }

    /// The sparse array, the indices of the entities and the components, as they lie.
    pub fn raw_parts(&self) -> (r: (&[Option<DenseIndex>], &[SparseIndex], &[T]))
        requires
            self.wf(),
        ensures
            parts_wf(r.0@, r.1@, r.2@.len()),
            as_entities(r.1@) == self.spec_entities(),
            r.2@ == self.spec_values(),
    {
        proof {
            self.set.lemma_links();
        }
        self.set.parts()
    }

    /// The sparse array, the entities and the components.
    pub fn parts(&self) -> (r: (&[Option<DenseIndex>], Vec<Entity>, &[T]))
        ensures
            r.0@ == self.spec_set().spec_links(),
            r.1@ == self.spec_entities(),
            r.2@ == self.spec_values(),
    {
        let (a, b, c) = self.set.parts();
        (a, Self::to_entities(b), c)
    }

    pub fn parts_mut(&mut self) -> (r: (&[Option<DenseIndex>], Vec<Entity>, &mut [T]))
        requires
            old(self).wf(),
        ensures
            r.0@ == old(self).spec_set().spec_links(),
            r.1@ == old(self).spec_entities(),
            r.2@ == old(self).spec_values(),
            final(self).spec_values() == final(r.2)@,
            final(self).spec_entities() == old(self).spec_entities(),
            final(r.2)@.len() == r.2@.len() ==> final(self).wf(),
    {
        let (a, b, c) = self.set.parts_mut();
        (a, Self::to_entities(b), c)
    }
}

impl Entity {
    /// The component of the entity in the pool.
    pub fn get<'a, T>(&self, comp: &'a ComponentPool<T>) -> (r: Option<&'a T>)
        requires
            comp.wf(),
        ensures
            match r {
                Some(v) => comp@.contains_key(*self) && *v == comp@[*self],
                None => !comp@.contains_key(*self),
            },
    {
        comp.get(*self)
    }
}

/// An entity is among the entities of some indices exactly if its index is among the indices,
/// and then at the same place.
pub proof fn lemma_as_entities_contains(indices: Seq<SparseIndex>, ent: Entity)
    ensures
        as_entities(indices).contains(ent) == indices.contains(ent.0),
        indices.contains(ent.0) ==> as_entities(indices)[indices.index_of(ent.0)] == ent,
        distinct_slots(indices) && indices.contains(ent.0) ==> as_entities(
            indices,
        ).index_of(ent) == indices.index_of(ent.0),
{
    let ents = as_entities(indices);
    if indices.contains(ent.0) {
        let i = indices.index_of(ent.0);
        assert(ents[i] == ent);
    }
}

/// The indices of the entities, in the same order.
pub open spec fn entity_indices(ents: Seq<Entity>) -> Seq<SparseIndex> {
    Seq::new(ents.len(), |i: int| ents[i].0)
}

/// The packed order of a pool after `e` was given a component: `e` takes the place of the
/// entity of its slot, or a new place at the end.
pub open spec fn with_entity(ents: Seq<Entity>, e: Entity) -> Seq<Entity> {
    if has_slot(entity_indices(ents), e.0.raw) {
        ents.update(slot_position(entity_indices(ents), e.0.raw), e)
    } else {
        ents.push(e)
    }
}

/// The packed order of a pool after the component of `e` was taken out: the last entity has
/// moved into its place.
pub open spec fn without_entity(ents: Seq<Entity>, e: Entity) -> Seq<Entity> {
    if ents.contains(e) {
        swap_removed(ents, ents.index_of(e))
    } else {
        ents
    }
}

/// Whether the pool of entities has made every entity of the sequence: each is on a slot that
/// the pool has given out, with a generation that the slot has reached.
pub open spec fn all_seen(ents: EntityPoolView, s: Seq<Entity>) -> bool {
    forall|i: int| 0 <= i < s.len() ==> ents.has_seen(#[trigger] s[i])
}

/// Whether `after` holds the entities of `before` but `e`: no other entity has left or come.
pub open spec fn dropped_from(before: Seq<Entity>, after: Seq<Entity>, e: Entity) -> bool {
    &&& !after.contains(e)
    &&& forall|x: Entity| x != e ==> (#[trigger] after.contains(x) <==> before.contains(x))
}

/// What an insertion and a removal do to the packed order of a pool.
pub proof fn lemma_pool_orders<T>(before: ComponentPool<T>, after: ComponentPool<T>, ent: Entity)
    requires
        before.wf(),
    ensures
        forall|comp: T, r: Option<T>| #[trigger]
            before.inserted(after, ent, comp, r) ==> after.spec_entities() == with_entity(
                before.spec_entities(),
                ent,
            ),
        forall|r: Option<T>| #[trigger]
            before.removed(after, ent, r) ==> after.spec_entities() == without_entity(
                before.spec_entities(),
                ent,
            ),
        before.spec_entities().no_duplicates(),
        entity_indices(before.spec_entities()) == before.spec_set().spec_indices(),
        dropped_from(before.spec_entities(), without_entity(before.spec_entities(), ent), ent),
{
    let ents = before.spec_entities();
    let indices = before.spec_set().spec_indices();
    assert(entity_indices(ents) =~= indices);
    lemma_as_entities_contains(indices, ent);
    assert(ents.no_duplicates()) by {
        assert forall|x: int, y: int| 0 <= x < ents.len() && 0 <= y < ents.len() && x != y implies ents[x]
            != ents[y] by {
            if ents[x] == ents[y] {
                assert(indices[x].raw == indices[y].raw);
            }
        }
    }
    if ents.contains(ent) {
        let i = ents.index_of(ent);
        let last = ents.len() - 1;
        let rest = swap_removed(ents, i);
        assert forall|x: Entity| x != ent implies (#[trigger] rest.contains(x) <==> ents.contains(x)) by {
            if rest.contains(x) {
                let j = rest.index_of(x);
                let j0 = if j == i { last } else { j };
                assert(ents[j0] == x);
            }
            if ents.contains(x) {
                let j = ents.index_of(x);
                let j2 = if j == last { i } else { j };
                assert(rest[j2] == x);
            }
        }
        if rest.contains(ent) {
            let j = rest.index_of(ent);
            let j0 = if j == i { last } else { j };
            assert(ents[j0] == ent);
        }
    }
}

/// Component borrow error type
#[derive(Debug)]
pub enum BorrowError {
    /// No pool is registered for the type of components, which the identifier names.
    NotRegistered(TypeId),
    /// The pool is lent out in a way that excludes the borrow.
    AlreadyBorrowed(TypeId),
    /// A pool of another type of components is registered under the identifier.
    WrongType(TypeId),
}

/// The result of a borrow of the pool under `ty`, for what the search for it came to.
pub fn borrowed<B>(found: Lookup<B>, ty: TypeId) -> (r: Result<B, BorrowError>)
    ensures
        r == match found {
            Lookup::Missing => Err::<B, BorrowError>(BorrowError::NotRegistered(ty)),
            Lookup::Busy => Err(BorrowError::AlreadyBorrowed(ty)),
            Lookup::Mismatch => Err(BorrowError::WrongType(ty)),
            Lookup::Found(borrow) => Ok(borrow),
        },
{
    match found {
        Lookup::Missing => Err(BorrowError::NotRegistered(ty)),
        Lookup::Busy => Err(BorrowError::AlreadyBorrowed(ty)),
        Lookup::Mismatch => Err(BorrowError::WrongType(ty)),
        Lookup::Found(borrow) => Ok(borrow),
    }
}

/// Whether `e` can be the error of a borrow of the pool under `ty`, of which `registered` are
/// registered: an identifier that is not registered gives `NotRegistered` and nothing else,
/// and no other gives it.
pub open spec fn borrow_error(registered: Set<TypeId>, ty: TypeId, e: BorrowError) -> bool {
    match e {
        BorrowError::NotRegistered(t) => t == ty && !registered.contains(ty),
        BorrowError::AlreadyBorrowed(t) => t == ty && registered.contains(ty),
        BorrowError::WrongType(t) => t == ty && registered.contains(ty),
    }
}

/// Whether `r` can be the result of a borrow of the pool under `ty`.
pub open spec fn borrow_result<B>(registered: Set<TypeId>, ty: TypeId, r: Result<B, BorrowError>) -> bool {
    match r {
        Ok(_) => registered.contains(ty),
        Err(e) => borrow_error(registered, ty, e),
    }
}

/// By identifier, the entities of the pool that a cell holds, in packed order. They change
/// under exclusive access to the cells only: a borrow of a cell gives no way to insert into
/// the pool, to remove from it or to replace it.
pub uninterp spec fn cell_entities(cells: Cells) -> Map<TypeId, Seq<Entity>>;

/// Calls `HashMap::insert` with a new `AtomicRefCell` that holds the pool: afterwards a cell
/// is held for `ty`, with the entities of the pool. A cell that was held for `ty` before is
/// dropped with what it holds.
#[verifier::external_body]
fn pool_insert<T: 'static>(cells: &mut Cells, ty: TypeId, pool: ComponentPool<T>)
    ensures
        cell_keys(*final(cells)) == cell_keys(*old(cells)).insert(ty),
        cell_entities(*final(cells)) == cell_entities(*old(cells)).insert(ty, pool.spec_entities()),
{
    cells.map.insert(ty, AtomicRefCell::new(Box::new(pool)));
}

/// Calls `HashMap::get_mut`, then `AtomicRefCell::try_borrow_mut` on the cell that was found,
/// to see whether a borrow of it is out, then `AtomicRefCell::get_mut` and `downcast_mut`: the
/// pool that is held for `ty`, if one is held, no borrow of it is out and it is a pool of `T`.
/// A borrow can be out under exclusive access to the cells only where it was leaked.
///
/// The pool has the entities that the cells hold for `ty`, and the cells hold for `ty` what the
/// pool is left with. The same cells are held afterwards, and where no pool is handed out
/// nothing has changed. The pool is well formed, as every pool is: pools are made empty and
/// changed by their own functions only.
#[verifier::external_body]
fn pool_mut<'a, T: 'static>(cells: &'a mut Cells, ty: TypeId) -> (r: Lookup<
    &'a mut ComponentPool<T>,
>)
    ensures
        cell_keys(*final(cells)) == cell_keys(*old(cells)),
        r is Missing <==> !cell_keys(*old(cells)).contains(ty),
        match r {
            Lookup::Found(pool) => {
                &&& pool.wf()
                &&& pool.spec_entities() == cell_entities(*old(cells))[ty]
                &&& cell_entities(*final(cells)) == cell_entities(*old(cells)).insert(
                    ty,
                    final(pool).spec_entities(),
                )
            },
            _ => *final(cells) == *old(cells),
        },
{
    let cell = match cells.map.get_mut(&ty) {
        Some(cell) => cell,
        None => return Lookup::Missing,
    };
    if cell.try_borrow_mut().is_err() {
        return Lookup::Busy;
    }
    match (**cell.get_mut()).as_any_mut().downcast_mut::<ComponentPool<T>>() {
        Some(pool) => Lookup::Found(pool),
        None => Lookup::Mismatch,
    }
}

/// What can be done for an entity in a pool whatever the type of its components
pub trait ErasedComponentPool {
    /// The identifier under which the pool is registered.
    spec fn spec_key(&self) -> TypeId;

    /// Drops the component of the entity from the pool, where the cells hand the pool out:
    /// then the pool holds the entities that it held but this one, and else nothing has changed.
    fn erased_remove(&self, cells: &mut Cells, entity: Entity)
        ensures
            cell_keys(*final(cells)) == cell_keys(*old(cells)),
            *final(cells) == *old(cells) || {
                &&& cell_keys(*old(cells)).contains(self.spec_key())
                &&& cell_entities(*final(cells)) == cell_entities(*old(cells)).insert(
                    self.spec_key(),
                    without_entity(cell_entities(*old(cells))[self.spec_key()], entity),
                )
                &&& dropped_from(
                    cell_entities(*old(cells))[self.spec_key()],
                    cell_entities(*final(cells))[self.spec_key()],
                    entity,
                )
            },
    ;
}

/// Stands for the pool of the components of type `T` that is registered under an identifier.
pub struct PoolOf<T> {
    ty: TypeId,
    marker: PhantomData<T>,
}

impl<T: Component> ErasedComponentPool for PoolOf<T> {
    closed spec fn spec_key(&self) -> TypeId {
        self.ty
    }

    fn erased_remove(&self, cells: &mut Cells, entity: Entity) {
        match pool_mut::<T>(cells, self.ty) {
            Lookup::Found(pool) => {
                let ghost before = *pool;
                pool.swap_remove(entity);
                proof {
                    lemma_pool_orders(before, *pool, entity);
                }
            },
            _ => {},
        }
    }
}

/// SoA storage of components backed by sparse sets
///
/// It holds one pool for each registered type of components, each in a cell of its own that
/// checks its borrows at run time.
pub struct ComponentPoolMap {
    cells: Cells,
    erasers: Vec<Box<dyn ErasedComponentPool>>,
}

impl Default for ComponentPoolMap {
    fn default() -> (r: Self)
        ensures
            r.registered() == Set::<TypeId>::empty(),
    {
        ComponentPoolMap { cells: cells_new(), erasers: Vec::new() }
    }
}

impl ComponentPoolMap {
    /// The identifiers of the types of components that a pool is registered for.
    pub closed spec fn registered(&self) -> Set<TypeId> {
        cell_keys(self.cells)
    }

    /// By registered identifier, the entities that have a component in the pool, in packed
    /// order.
    pub closed spec fn entities(&self) -> Map<TypeId, Seq<Entity>> {
        cell_entities(self.cells)
    }

    /// Whether the pools hold components only for entities that the pool of entities has
    /// made.
    pub open spec fn known_to(&self, ents: EntityPoolView) -> bool {
        forall|ty: TypeId|
            self.registered().contains(ty) ==> all_seen(ents, #[trigger] self.entities()[ty])
    }

    /// Checks if we have a component pool for type `T`
    pub fn is_registered<T: Component>(&self) -> (r: bool)
        ensures
            exists|ty: TypeId| r == self.registered().contains(ty),
    {
        let ty = TypeId::of::<T>();
        let r = self.is_registered_raw(ty);
        assert(r == self.registered().contains(ty));
        r
    }

    /// [`is_registered`] by `TypeId`
    ///
    /// [`is_registered`]: Self::is_registered
    pub fn is_registered_raw(&self, ty: TypeId) -> (r: bool)
        ensures
            r == self.registered().contains(ty),
    {
        cells_contains(&self.cells, ty)
    }

    /// Whether `after` is this map after a pool was registered under `ty`, and `r` whether one
    /// was registered already: then nothing has changed, and else an empty pool has come.
    pub open spec fn registered_as(self, after: Self, ty: TypeId, r: bool) -> bool {
        &&& r == self.registered().contains(ty)
        &&& after.registered() == self.registered().insert(ty)
        &&& if r {
            after == self
        } else {
            after.entities() == self.entities().insert(ty, Seq::<Entity>::empty())
        }
    }

    /// Registers a component pool for type `T`. Returns true if it was already registered.
    pub fn register<T: Component>(&mut self) -> (r: bool)
        ensures
            exists|ty: TypeId| old(self).registered_as(*final(self), ty, r),
            forall|ents: EntityPoolView|
                old(self).known_to(ents) ==> #[trigger] final(self).known_to(ents),
    {
        let ty = TypeId::of::<T>();
        let r = self.register_raw::<T>(ty);
        assert(old(self).registered_as(*self, ty, r));
        r
    }

    /// Registers a component pool for type `T` under the identifier `ty`, which is that of `T`.
    /// Returns true if a pool was already registered under it.
    pub fn register_raw<T: Component>(&mut self, ty: TypeId) -> (r: bool)
        ensures
            old(self).registered_as(*final(self), ty, r),
            forall|ents: EntityPoolView|
                old(self).known_to(ents) ==> #[trigger] final(self).known_to(ents),
    {
        if cells_contains(&self.cells, ty) {
            assert(self.registered().insert(ty) =~= self.registered());
            return true;
        }
        pool_insert(&mut self.cells, ty, ComponentPool::<T>::default());
        self.erasers.push(Box::new(PoolOf::<T> { ty, marker: PhantomData }));
        false
    }

    /// Tries to get an immutable access to a component pool
    pub fn try_borrow<T: Component>(&self) -> (r: Result<Comp<'_, T>, BorrowError>)
        ensures
            exists|ty: TypeId| borrow_result(self.registered(), ty, r),
    {
        let ty = TypeId::of::<T>();
        let r = self.try_borrow_raw::<T>(ty);
        assert(borrow_result(self.registered(), ty, r));
        r
    }

    /// Tries to get an immutable access to the component pool that is registered under `ty`.
    ///
    /// The borrow fails with `NotRegistered` exactly where no pool is registered under `ty`;
    /// where one is, its cell decides whether it lends the pool.
    pub fn try_borrow_raw<T: Component>(&self, ty: TypeId) -> (r: Result<Comp<'_, T>, BorrowError>)
        ensures
            borrow_result(self.registered(), ty, r),
    {
        match borrowed(cells_borrow::<ComponentPool<T>>(&self.cells, ty), ty) {
            Ok(borrow) => Ok(Comp { borrow }),
            Err(e) => Err(e),
        }
    }

    /// Tries to get a mutable access to a component pool
    pub fn try_borrow_mut<T: Component>(&self) -> (r: Result<CompMut<'_, T>, BorrowError>)
        ensures
            exists|ty: TypeId| borrow_result(self.registered(), ty, r),
    {
        let ty = TypeId::of::<T>();
        let r = self.try_borrow_mut_raw::<T>(ty);
        assert(borrow_result(self.registered(), ty, r));
        r
    }

    /// Tries to get a mutable access to the component pool that is registered under `ty`.
    ///
    /// The borrow fails with `NotRegistered` exactly where no pool is registered under `ty`;
    /// where one is, its cell decides whether it lends the pool.
    pub fn try_borrow_mut_raw<T: Component>(&self, ty: TypeId) -> (r: Result<
        CompMut<'_, T>,
        BorrowError,
    >)
        ensures
            borrow_result(self.registered(), ty, r),
    {
        match borrowed(cells_borrow_mut::<ComponentPool<T>>(&self.cells, ty), ty) {
            Ok(borrow) => Ok(CompMut { borrow }),
            Err(e) => Err(e),
        }
    }

    /// The pool that is registered under `ty`, under exclusive access to the whole map.
    ///
    /// A pool that is handed out has the entities that the map holds for `ty`, and the map
    /// holds for `ty` what the pool is left with. Where none is handed out, nothing has changed.
    pub fn get_mut_raw<T: Component>(&mut self, ty: TypeId) -> (r: Result<
        &mut ComponentPool<T>,
        BorrowError,
    >)
        ensures
            final(self).registered() == old(self).registered(),
            match r {
                Ok(pool) => {
                    &&& old(self).registered().contains(ty)
                    &&& pool.wf()
                    &&& pool.spec_entities() == old(self).entities()[ty]
                    &&& final(self).entities() == old(self).entities().insert(
                        ty,
                        final(pool).spec_entities(),
                    )
                },
                Err(e) => *final(self) == *old(self) && borrow_error(old(self).registered(), ty, e),
            },
    {
        borrowed(pool_mut::<T>(&mut self.cells, ty), ty)
    }

    /// The pool of the components of type `T`, under exclusive access to the whole map.
    pub fn get_mut<T: Component>(&mut self) -> (r: Option<&mut ComponentPool<T>>)
        ensures
            final(self).registered() == old(self).registered(),
            match r {
                Some(pool) => exists|ty: TypeId|
                    {
                        &&& old(self).registered().contains(ty)
                        &&& pool.wf()
                        &&& pool.spec_entities() == old(self).entities()[ty]
                        &&& final(self).entities() == old(self).entities().insert(
                            ty,
                            final(pool).spec_entities(),
                        )
                    },
                None => *final(self) == *old(self),
            },
    {
        let ty = TypeId::of::<T>();
        match self.get_mut_raw::<T>(ty) {
            Ok(pool) => {
                assert(old(self).registered().contains(ty));
                Some(pool)
            },
            Err(_) => None,
        }
    }

    /// Drops the components of the entity from every pool that the cells hand out. Each pool
    /// holds afterwards what it held, or what it held but the entity.
    pub fn remove_all(&mut self, entity: Entity)
        ensures
            final(self).registered() == old(self).registered(),
            forall|ty: TypeId|
                #![trigger final(self).entities()[ty]]
                final(self).entities()[ty] == old(self).entities()[ty] || dropped_from(
                    old(self).entities()[ty],
                    final(self).entities()[ty],
                    entity,
                ),
    {
        let mut i: usize = 0;
        while i < self.erasers.len()
            invariant
                self.registered() == old(self).registered(),
                forall|ty: TypeId|
                    #![trigger self.entities()[ty]]
                    self.entities()[ty] == old(self).entities()[ty] || dropped_from(
                        old(self).entities()[ty],
                        self.entities()[ty],
                        entity,
                    ),
            decreases self.erasers.len() - i,
        {
            let ghost before = self.entities();
            let ghost key = self.erasers@[i as int].spec_key();
            self.erasers[i].erased_remove(&mut self.cells, entity);
            proof {
                assert forall|ty: TypeId|
                    #![trigger self.entities()[ty]]
                    self.entities()[ty] == old(self).entities()[ty] || dropped_from(
                        old(self).entities()[ty],
                        self.entities()[ty],
                        entity,
                    ) by {
                    if self.entities() != before && ty == key {
                        assert(dropped_from(before[ty], self.entities()[ty], entity));
                        if before[ty] != old(self).entities()[ty] {
                            assert(dropped_from(old(self).entities()[ty], before[ty], entity));
                            assert forall|x: Entity| x != entity implies (#[trigger] self.entities()[ty].contains(
                                x,
                            ) <==> old(self).entities()[ty].contains(x)) by {
                                assert(before[ty].contains(x) <==> old(self).entities()[ty].contains(x));
                            }
                        }
                    } else {
                        assert(self.entities()[ty] == before[ty]);
                    }
                }
            }
            i += 1;
        }
    }
}

/// Immutable access to a component pool of type `T`
#[verifier::reject_recursive_types(T)]
pub struct Comp<'r, T: 'static> {
    borrow: AtomicRef<'r, ComponentPool<T>>,
}

impl<'r, T: Component> Comp<'r, T> {
    /// Calls `deref` of `AtomicRef`: the pool that was borrowed. It is well formed, as every
    /// pool is: pools are made empty and changed by their own functions only.
    #[verifier::external_body]
    pub fn deref(&self) -> (r: &ComponentPool<T>)
        ensures
            r.wf(),
    {
        &*self.borrow
    }
}

/// A pool whose components can be changed in their places, and nothing else of it: the same
/// entities have a component afterwards.
pub struct PoolMut<'a, T> {
    pool: &'a mut ComponentPool<T>,
}

impl<'a, T> PoolMut<'a, T> {
    /// The pool.
    pub closed spec fn spec_pool(&self) -> ComponentPool<T> {
        *self.pool
    }

    /// The invariant: that of the pool.
    pub open spec fn wf(&self) -> bool {
        self.spec_pool().wf()
    }

    /// The pool, to be read.
    pub fn pool(&self) -> (r: &ComponentPool<T>)
        ensures
            *r == self.spec_pool(),
    {
        &*self.pool
    }

    /// The component of an entity, to be changed in its place.
    pub fn get_mut(&mut self, ent: Entity) -> (r: Option<&mut T>)
        requires
            old(self).wf(),
        ensures
            final(self).wf(),
            final(self).spec_pool().spec_entities() == old(self).spec_pool().spec_entities(),
            match r {
                Some(v) => {
                    &&& old(self).spec_pool()@.contains_key(ent)
                    &&& *v == old(self).spec_pool()@[ent]
                    &&& final(self).spec_pool().spec_values() == old(self).spec_pool().spec_values().update(
                        old(self).spec_pool().spec_entities().index_of(ent),
                        *final(v),
                    )
                },
                None => {
                    &&& !old(self).spec_pool()@.contains_key(ent)
                    &&& final(self).spec_pool().spec_values() == old(self).spec_pool().spec_values()
                },
            },
    {
        self.pool.get_mut(ent)
    }

    /// The components of two different entities, to be changed in their places.
    pub fn get2_mut(&mut self, a: Entity, b: Entity) -> (r: Option<(&mut T, &mut T)>)
        requires
            old(self).wf(),
            a != b,
        ensures
            final(self).wf(),
            final(self).spec_pool().spec_entities() == old(self).spec_pool().spec_entities(),
            match r {
                Some((x, y)) => {
                    &&& old(self).spec_pool()@.contains_key(a)
                    &&& old(self).spec_pool()@.contains_key(b)
                    &&& *x == old(self).spec_pool()@[a]
                    &&& *y == old(self).spec_pool()@[b]
                    &&& final(self).spec_pool().spec_values() == old(self).spec_pool().spec_values().update(
                        old(self).spec_pool().spec_entities().index_of(a),
                        *final(x),
                    ).update(old(self).spec_pool().spec_entities().index_of(b), *final(y))
                },
                None => {
                    &&& !(old(self).spec_pool()@.contains_key(a) && old(self).spec_pool()@.contains_key(b))
                    &&& final(self).spec_pool().spec_values() == old(self).spec_pool().spec_values()
                },
            },
    {
        self.pool.get2_mut(a, b)
    }

    /// The components in packed order, to be changed in their places.
    pub fn as_mut_slice(&mut self) -> (r: &mut [T])
        requires
            old(self).wf(),
        ensures
            r@ == old(self).spec_pool().spec_values(),
            final(self).spec_pool().spec_values() == final(r)@,
            final(self).spec_pool().spec_entities() == old(self).spec_pool().spec_entities(),
            final(r)@.len() == r@.len() ==> final(self).wf(),
    {
        self.pool.as_mut_slice()
    }

    /// The entities and the components in packed order, the components to be changed in their
    /// places.
    pub fn as_mut_slice_with_entities(&mut self) -> (r: (Vec<Entity>, &mut [T]))
        requires
            old(self).wf(),
        ensures
            r.0@ == old(self).spec_pool().spec_entities(),
            r.1@ == old(self).spec_pool().spec_values(),
            final(self).spec_pool().spec_values() == final(r.1)@,
            final(self).spec_pool().spec_entities() == old(self).spec_pool().spec_entities(),
            final(r.1)@.len() == r.1@.len() ==> final(self).wf(),
    {
        self.pool.as_mut_slice_with_entities()
    }
}

/// Mutable access to a component pool of type `T`
#[verifier::reject_recursive_types(T)]
pub struct CompMut<'r, T: 'static> {
    borrow: AtomicRefMut<'r, ComponentPool<T>>,
}

impl<'r, T: Component> CompMut<'r, T> {
    /// Calls `deref` of `AtomicRefMut`: the pool that was borrowed. It is well formed, as
    /// every pool is: pools are made empty and changed by their own functions only.
    #[verifier::external_body]
    pub fn deref(&self) -> (r: &ComponentPool<T>)
        ensures
            r.wf(),
    {
        &*self.borrow
    }

    /// Calls `deref_mut` of `AtomicRefMut`: the pool that was borrowed, as one whose components
    /// can be changed and whose entities cannot. It is well formed, as every pool is.
    #[verifier::external_body]
    pub fn deref_mut(&mut self) -> (r: PoolMut<'_, T>)
        ensures
            r.wf(),
    {
        PoolMut { pool: &mut *self.borrow }
    }
}

} // verus!
