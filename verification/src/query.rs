//! Queries: component iteration
//!
//! One pool is walked in its packed order. Two or three pools are joined: the shortest of their
//! packed orders is walked, and an entity is left out if another pool has no component for it.

use crate::world::comp::{as_entities, ComponentPool};
use crate::world::ent::Entity;
use crate::world::sparse::{packed_map, parts_wf, DenseIndex, SparseIndex};
use vstd::prelude::*;

verus! {

/// The components of a pool by entity, as its packed arrays give them.
pub open spec fn pool_map<T>(indices: Seq<SparseIndex>, items: Seq<T>) -> Map<Entity, T> {
    Map::new(
        |e: Entity| packed_map(indices, items).contains_key(e.0),
        |e: Entity| packed_map(indices, items)[e.0],
    )
}

/// The entities of `ents` that have a component in `a` and in `b`, in the order of `ents`, each
/// with its two components.
pub open spec fn joined2<A, B>(ents: Seq<Entity>, a: Map<Entity, A>, b: Map<Entity, B>) -> Seq<
    (Entity, (A, B)),
>
    decreases ents.len(),
{
    if ents.len() == 0 {
        Seq::empty()
    } else {
        let rest = joined2(ents.drop_first(), a, b);
        if a.contains_key(ents[0]) && b.contains_key(ents[0]) {
            seq![(ents[0], (a[ents[0]], b[ents[0]]))] + rest
        } else {
            rest
        }
    }
}

/// The entities of `ents` that have a component in `a`, in `b` and in `c`, in the order of
/// `ents`, each with its three components.
pub open spec fn joined3<A, B, C>(
    ents: Seq<Entity>,
    a: Map<Entity, A>,
    b: Map<Entity, B>,
    c: Map<Entity, C>,
) -> Seq<(Entity, (A, B, C))>
    decreases ents.len(),
{
    if ents.len() == 0 {
        Seq::empty()
    } else {
        let rest = joined3(ents.drop_first(), a, b, c);
        if a.contains_key(ents[0]) && b.contains_key(ents[0]) && c.contains_key(ents[0]) {
            seq![(ents[0], (a[ents[0]], b[ents[0]], c[ents[0]]))] + rest
        } else {
            rest
        }
    }
}

/// The shorter of two packed orders, and the first of two that are equally long.
pub open spec fn shorter(x: Seq<Entity>, y: Seq<Entity>) -> Seq<Entity> {
    if x.len() <= y.len() {
        x
    } else {
        y
    }
}

/// The entities with their components, pair by pair.
pub open spec fn zipped<T>(ents: Seq<Entity>, items: Seq<T>) -> Seq<(Entity, T)> {
    Seq::new(ents.len(), |i: int| (ents[i], items[i]))
}

/// A sparse set of a single type of components
pub trait ISparseSet: Sized {
    type Component;

    /// The invariant of the set.
    spec fn spec_wf(&self) -> bool;

    /// The component of an entity.
    spec fn spec_get(&self, ent: Entity) -> Option<Self::Component>;

    /// Tries to get the component for an [`Entity`] (sparse index)
    fn get_sparse(&mut self, ent: Entity) -> (r: Option<Self::Component>)
        requires
            old(self).spec_wf(),
        ensures
            *final(self) == *old(self),
            r == old(self).spec_get(ent),
    ;
}

/// Sparse set of components, as a query reads it
pub struct PoolSet<'a, T> {
    to_dense: &'a [Option<DenseIndex>],
    ents: &'a [SparseIndex],
    data: &'a [T],
}

impl<'a, T> View for PoolSet<'a, T> {
    type V = Map<Entity, T>;

    open spec fn view(&self) -> Map<Entity, T> {
        pool_map(self.spec_indices(), self.spec_values())
    }
}

impl<'a, T> PoolSet<'a, T> {
    /// The indices of the entities, in packed order.
    pub closed spec fn spec_indices(&self) -> Seq<SparseIndex> {
        self.ents@
    }

    /// The components, in packed order.
    pub closed spec fn spec_values(&self) -> Seq<T> {
        self.data@
    }

    /// The entities, in packed order.
    pub open spec fn spec_entities(&self) -> Seq<Entity> {
        as_entities(self.spec_indices())
    }

    /// The invariant of the set: its parts fit together.
    pub closed spec fn wf(&self) -> bool {
        parts_wf(self.to_dense@, self.ents@, self.data@.len())
    }

    /// The set of a pool.
    pub fn new(pool: &'a ComponentPool<T>) -> (r: Self)
        requires
            pool.wf(),
        ensures
            r.wf(),
            r.spec_entities() == pool.spec_entities(),
            r.spec_values() == pool.spec_values(),
            r@ == pool@,
    {
        let (to_dense, ents, data) = pool.raw_parts();
        let r = PoolSet { to_dense, ents, data };
        proof {
            lemma_as_entities_injective(ents@, pool.spec_set().spec_indices());
        }
        r
    }

    /// The number of components.
    pub fn len(&self) -> (r: usize)
        requires
            self.wf(),
        ensures
            r == self.spec_entities().len(),
            r == self.spec_values().len(),
    {
        self.ents.len()
    }

    /// The entity at a place of the packed order.
    pub fn entity(&self, slot: usize) -> (r: Entity)
        requires
            self.wf(),
            slot < self.spec_entities().len(),
        ensures
            r == self.spec_entities()[slot as int],
    {
        Entity(self.ents[slot])
    }

    /// The component at a place of the packed order.
    pub fn get_dense(&self, slot: usize) -> (r: &'a T)
        requires
            self.wf(),
            slot < self.spec_values().len(),
        ensures
            *r == self.spec_values()[slot as int],
    {
        let data: &'a [T] = self.data;
        &data[slot]
    }

    /// The component of an entity, if it has one.
    pub fn get(&self, ent: Entity) -> (r: Option<&'a T>)
        requires
            self.wf(),
        ensures
            match r {
                Some(v) => self@.contains_key(ent) && *v == self@[ent],
                None => !self@.contains_key(ent),
            },
    {
        let slot = ent.0.to_usize();
        if slot >= self.to_dense.len() {
            return None;
        }
        match self.to_dense[slot] {
            Some(dense) => {
                if dense.gen == ent.0.gen {
                    let data: &'a [T] = self.data;
                    Some(&data[dense.to_usize()])
                } else {
                    None
                }
            },
            None => {
                None
            },
        }
    }
}

impl<'a, T> ISparseSet for PoolSet<'a, T> {
    type Component = &'a T;

    open spec fn spec_wf(&self) -> bool {
        self.wf()
    }

    open spec fn spec_get(&self, ent: Entity) -> Option<&'a T> {
        if self@.contains_key(ent) {
            Some(&self@[ent])
        } else {
            None
        }
    }

    fn get_sparse(&mut self, ent: Entity) -> (r: Option<&'a T>) {
        self.get(ent)
    }
}

/// Indices that name the same entities are the same indices.
pub proof fn lemma_as_entities_injective(x: Seq<SparseIndex>, y: Seq<SparseIndex>)
    requires
        as_entities(x) == as_entities(y),
    ensures
        x == y,
{
    assert(x.len() == as_entities(x).len());
    assert forall|i: int| 0 <= i < x.len() implies x[i] == y[i] by {
        assert(as_entities(x)[i] == Entity(x[i]));
    }
}

/// Component pool: what a query can read as one column
pub trait IPool<'a>: Sized {
    /// The type of the components.
    type Item: 'a;

    /// The invariant of the pool.
    spec fn spec_wf(&self) -> bool;

    /// The entities of the pool, in packed order.
    spec fn spec_entities(&self) -> Seq<Entity>;

    /// The components of the pool, in packed order.
    spec fn spec_values(&self) -> Seq<Self::Item>;

    /// The components of the pool, by entity.
    spec fn spec_view(&self) -> Map<Entity, Self::Item>;

    /// Destructures the component pool into the set that a query reads
    fn into_parts(self) -> (r: PoolSet<'a, Self::Item>)
        requires
            self.spec_wf(),
        ensures
            r.wf(),
            r.spec_entities() == self.spec_entities(),
            r.spec_values() == self.spec_values(),
            r@ == self.spec_view(),
    ;
}

impl<'a, T> IPool<'a> for &'a ComponentPool<T> {
    type Item = T;

    open spec fn spec_wf(&self) -> bool {
        self.wf()
    }

    open spec fn spec_entities(&self) -> Seq<Entity> {
        ComponentPool::spec_entities(*self)
    }

    open spec fn spec_values(&self) -> Seq<T> {
        ComponentPool::spec_values(*self)
    }

    open spec fn spec_view(&self) -> Map<Entity, T> {
        self@
    }

    fn into_parts(self) -> (r: PoolSet<'a, T>) {
        PoolSet::new(self)
    }
}

/// Iterator constructing API
pub trait Iter<'a>: Sized {
    /// Concrete iterator type returned by [`Self::iter`]
    type I;

    /// The invariant of what is iterated.
    spec fn spec_wf(&self) -> bool;

    /// Whether `it` is the iterator over this, at its start.
    spec fn spec_iter(&self, it: &Self::I) -> bool;

    /// Returns an iterator of components. Chain `.entities()` like `.enumerate()` if [`Entity`]
    /// is needed too.
    fn iter(self) -> (r: Self::I)
        requires
            self.spec_wf(),
        ensures
            self.spec_iter(&r),
    ;
}

// --------------------------------------------------------------------------------
// Single pool iterator
// --------------------------------------------------------------------------------

/// Iterator of items yielded by an [`IPool`]
///
/// This is fast because it's all about a dense vec.
pub struct SingleIter<'a, T> {
    set: PoolSet<'a, T>,
    index: usize,
}

/// Iterator of items and entities yielded by an [`IPool`]
///
/// This is fast because it's all about two dense vecs.
pub struct SingleIterWithEntities<'a, T> {
    set: PoolSet<'a, T>,
    index: usize,
}

impl<'a, T> SingleIter<'a, T> {
    /// The invariant of the iterator.
    pub closed spec fn wf(&self) -> bool {
        self.set.wf() && self.index <= self.set.spec_values().len()
    }

    /// What the iterator has yet to yield: entities with their components.
    pub closed spec fn remaining(&self) -> Seq<(Entity, T)> {
        zipped(self.set.spec_entities(), self.set.spec_values()).skip(self.index as int)
    }

    /// The iterator over a set, at its start.
    pub fn new(set: PoolSet<'a, T>) -> (r: Self)
        requires
            set.wf(),
        ensures
            r.wf(),
            r.remaining() == zipped(set.spec_entities(), set.spec_values()),
    {
        let r = SingleIter { set, index: 0 };
        r
    }

    /// The next component, in packed order.
    pub fn next(&mut self) -> (r: Option<&'a T>)
        requires
            old(self).wf(),
        ensures
            final(self).wf(),
            match r {
                Some(v) => {
                    &&& old(self).remaining().len() > 0
                    &&& *v == old(self).remaining()[0].1
                    &&& final(self).remaining() == old(self).remaining().drop_first()
                },
                None => old(self).remaining().len() == 0 && final(self).remaining().len() == 0,
            },
    {
        if self.index < self.set.len() {
            let index = self.index;
            self.index += 1;
            Some(self.set.get_dense(index))
        } else {
            None
        }
    }

    /// The iterator that yields the entities too.
    pub fn entities(self) -> (r: SingleIterWithEntities<'a, T>)
        requires
            self.wf(),
        ensures
            r.wf(),
            r.remaining() == self.remaining(),
    {
        SingleIterWithEntities { set: self.set, index: self.index }
    }
}

impl<'a, T> SingleIterWithEntities<'a, T> {
    /// The invariant of the iterator.
    pub closed spec fn wf(&self) -> bool {
        self.set.wf() && self.index <= self.set.spec_values().len()
    }

    /// What the iterator has yet to yield: entities with their components.
    pub closed spec fn remaining(&self) -> Seq<(Entity, T)> {
        zipped(self.set.spec_entities(), self.set.spec_values()).skip(self.index as int)
    }

    /// The next entity with its component, in packed order.
    pub fn next(&mut self) -> (r: Option<(Entity, &'a T)>)
        requires
            old(self).wf(),
        ensures
            final(self).wf(),
            match r {
                Some((e, v)) => {
                    &&& old(self).remaining().len() > 0
                    &&& (e, *v) == old(self).remaining()[0]
                    &&& final(self).remaining() == old(self).remaining().drop_first()
                },
                None => old(self).remaining().len() == 0 && final(self).remaining().len() == 0,
            },
    {
        if self.index < self.set.len() {
            let index = self.index;
            self.index += 1;
            Some((self.set.entity(index), self.set.get_dense(index)))
        } else {
            None
        }
    }
}

impl<'a, V: IPool<'a>> Iter<'a> for V {
    type I = SingleIter<'a, V::Item>;

    open spec fn spec_wf(&self) -> bool {
        IPool::spec_wf(self)
    }

    open spec fn spec_iter(&self, it: &Self::I) -> bool {
        it.wf() && it.remaining() == zipped(self.spec_entities(), self.spec_values())
    }

    fn iter(self) -> (r: Self::I) {
        SingleIter::new(self.into_parts())
    }
}

// --------------------------------------------------------------------------------
// Sparse sets iterator
// --------------------------------------------------------------------------------

/// Iterator of items yielded by two [`IPool`] s
///
/// This is slow because of the sparse-to-dense map indirection.
pub struct SparseIter<'a, A, B> {
    /// Entity set actually used for access
    ents: &'a [SparseIndex],
    a: PoolSet<'a, A>,
    b: PoolSet<'a, B>,
    index: usize,
}

/// Iterator of entities and items yielded by two [`IPool`] s
///
/// This is slow because of the sparse-to-dense map indirection.
pub struct SparseIterWithEntities<'a, A, B> {
    /// Entity set actually used for access
    ents: &'a [SparseIndex],
    a: PoolSet<'a, A>,
    b: PoolSet<'a, B>,
    index: usize,
}

impl<'a, T> PoolSet<'a, T> {
    /// The indices of the entities, as they lie.
    fn indices(&self) -> (r: &'a [SparseIndex])
        ensures
            r@ == self.spec_indices(),
    {
        self.ents
    }
}

/// The next entity of `ents` from `index` on that has a component in both sets, with the
/// place behind it.
fn advance2<'a, A, B>(ents: &'a [SparseIndex], a: &PoolSet<'a, A>, b: &PoolSet<'a, B>, index: usize) -> (r:
    (usize, Option<(Entity, &'a A, &'a B)>))
    requires
        a.wf(),
        b.wf(),
        index <= ents@.len(),
    ensures
        index <= r.0 <= ents@.len(),
        match r.1 {
            Some((e, x, y)) => {
                let was = joined2(as_entities(ents@).skip(index as int), a@, b@);
                &&& was.len() > 0
                &&& (e, (*x, *y)) == was[0]
                &&& joined2(as_entities(ents@).skip(r.0 as int), a@, b@) == was.drop_first()
            },
            None => {
                &&& joined2(as_entities(ents@).skip(index as int), a@, b@).len() == 0
                &&& joined2(as_entities(ents@).skip(r.0 as int), a@, b@).len() == 0
            },
        },
{
    let ghost all = as_entities(ents@);
    let mut i = index;
    while i < ents.len()
        invariant
            a.wf(),
            b.wf(),
            all == as_entities(ents@),
            index <= i <= ents@.len(),
            joined2(all.skip(i as int), a@, b@) == joined2(all.skip(index as int), a@, b@),
        decreases ents@.len() - i,
    {
        let ent = Entity(ents[i]);
        proof {
            assert(all.skip(i as int).drop_first() =~= all.skip(i + 1));
        }
        i += 1;
        match (a.get(ent), b.get(ent)) {
            (Some(x), Some(y)) => {
                return (i, Some((ent, x, y)));
            },
            _ => {},
        }
    }
    (i, None)
}

impl<'a, A, B> SparseIter<'a, A, B> {
    /// The invariant of the iterator.
    pub closed spec fn wf(&self) -> bool {
        self.a.wf() && self.b.wf() && self.index <= self.ents@.len()
    }

    /// What the iterator has yet to yield: entities with their components.
    pub closed spec fn remaining(&self) -> Seq<(Entity, (A, B))> {
        joined2(as_entities(self.ents@).skip(self.index as int), self.a@, self.b@)
    }

    /// The iterator over two sets, at its start: it walks the shorter of the two.
    pub fn new(a: PoolSet<'a, A>, b: PoolSet<'a, B>) -> (r: Self)
        requires
            a.wf(),
            b.wf(),
        ensures
            r.wf(),
            r.remaining() == joined2(shorter(a.spec_entities(), b.spec_entities()), a@, b@),
    {
        // NOTE: Here we're choosing the shortest storage's entities as keys:
        let ents = if a.len() <= b.len() {
            a.indices()
        } else {
            b.indices()
        };
        let r = SparseIter { ents, a, b, index: 0 };
        assert(as_entities(ents@).skip(0) =~= as_entities(ents@));
        r
    }

    /// The components of the next entity that has one in both sets.
    pub fn next(&mut self) -> (r: Option<(&'a A, &'a B)>)
        requires
            old(self).wf(),
        ensures
            final(self).wf(),
            match r {
                Some((x, y)) => {
                    &&& old(self).remaining().len() > 0
                    &&& (*x, *y) == old(self).remaining()[0].1
                    &&& final(self).remaining() == old(self).remaining().drop_first()
                },
                None => old(self).remaining().len() == 0 && final(self).remaining().len() == 0,
            },
    {
        let (index, found) = advance2(self.ents, &self.a, &self.b, self.index);
        self.index = index;
        match found {
            Some((_, x, y)) => Some((x, y)),
            None => None,
        }
    }

    /// The iterator that yields the entities too.
    pub fn entities(self) -> (r: SparseIterWithEntities<'a, A, B>)
        requires
            self.wf(),
        ensures
            r.wf(),
            r.remaining() == self.remaining(),
    {
        SparseIterWithEntities { ents: self.ents, a: self.a, b: self.b, index: self.index }
    }
}

impl<'a, A, B> SparseIterWithEntities<'a, A, B> {
    /// The invariant of the iterator.
    pub closed spec fn wf(&self) -> bool {
        self.a.wf() && self.b.wf() && self.index <= self.ents@.len()
    }

    /// What the iterator has yet to yield: entities with their components.
    pub closed spec fn remaining(&self) -> Seq<(Entity, (A, B))> {
        joined2(as_entities(self.ents@).skip(self.index as int), self.a@, self.b@)
    }

    /// The next entity that has a component in both sets, with its components.
    pub fn next(&mut self) -> (r: Option<(Entity, (&'a A, &'a B))>)
        requires
            old(self).wf(),
        ensures
            final(self).wf(),
            match r {
                Some((e, (x, y))) => {
                    &&& old(self).remaining().len() > 0
                    &&& (e, (*x, *y)) == old(self).remaining()[0]
                    &&& final(self).remaining() == old(self).remaining().drop_first()
                },
                None => old(self).remaining().len() == 0 && final(self).remaining().len() == 0,
            },
    {
        let (index, found) = advance2(self.ents, &self.a, &self.b, self.index);
        self.index = index;
        match found {
            Some((e, x, y)) => Some((e, (x, y))),
            None => None,
        }
    }
}

impl<'a, A, B> SparseIterWithEntities<'a, A, B> {
    /// The entities that are yet to be yielded, in their order. With them the components can
    /// be changed in their pools once the query is done.
    pub fn collect_entities(self) -> (r: Vec<Entity>)
        requires
            self.wf(),
        ensures
            r@ == yielded(self.remaining()),
    {
        let mut iter = self;
        let mut out: Vec<Entity> = Vec::new();
        loop
            invariant
                iter.wf(),
                out@ + yielded(iter.remaining()) == yielded(self.remaining()),
            decreases iter.remaining().len(),
        {
            match iter.next() {
                Some((e, _)) => {
                    out.push(e);
                },
                None => {
                    return out;
                },
            }
        }
    }
}

impl<'a, V0: IPool<'a>, V1: IPool<'a>> Iter<'a> for (V0, V1) {
    type I = SparseIter<'a, V0::Item, V1::Item>;

    open spec fn spec_wf(&self) -> bool {
        self.0.spec_wf() && self.1.spec_wf()
    }

    open spec fn spec_iter(&self, it: &Self::I) -> bool {
        it.wf() && it.remaining() == joined2(
            shorter(self.0.spec_entities(), self.1.spec_entities()),
            self.0.spec_view(),
            self.1.spec_view(),
        )
    }

    fn iter(self) -> (r: Self::I) {
        SparseIter::new(self.0.into_parts(), self.1.into_parts())
    }
}

/// Iterator of items yielded by three [`IPool`] s
pub struct SparseIter3<'a, A, B, C> {
    /// Entity set actually used for access
    ents: &'a [SparseIndex],
    a: PoolSet<'a, A>,
    b: PoolSet<'a, B>,
    c: PoolSet<'a, C>,
    index: usize,
}

/// Iterator of entities and items yielded by three [`IPool`] s
pub struct SparseIterWithEntities3<'a, A, B, C> {
    /// Entity set actually used for access
    ents: &'a [SparseIndex],
    a: PoolSet<'a, A>,
    b: PoolSet<'a, B>,
    c: PoolSet<'a, C>,
    index: usize,
}

/// The next entity of `ents` from `index` on that has a component in all three sets, with
/// the place behind it.
fn advance3<'a, A, B, C>(
    ents: &'a [SparseIndex],
    a: &PoolSet<'a, A>,
    b: &PoolSet<'a, B>,
    c: &PoolSet<'a, C>,
    index: usize,
) -> (r: (usize, Option<(Entity, &'a A, &'a B, &'a C)>))
    requires
        a.wf(),
        b.wf(),
        c.wf(),
        index <= ents@.len(),
    ensures
        index <= r.0 <= ents@.len(),
        match r.1 {
            Some((e, x, y, z)) => {
                let was = joined3(as_entities(ents@).skip(index as int), a@, b@, c@);
                &&& was.len() > 0
                &&& (e, (*x, *y, *z)) == was[0]
                &&& joined3(as_entities(ents@).skip(r.0 as int), a@, b@, c@) == was.drop_first()
            },
            None => {
                &&& joined3(as_entities(ents@).skip(index as int), a@, b@, c@).len() == 0
                &&& joined3(as_entities(ents@).skip(r.0 as int), a@, b@, c@).len() == 0
            },
        },
{
    let ghost all = as_entities(ents@);
    let mut i = index;
    while i < ents.len()
        invariant
            a.wf(),
            b.wf(),
            c.wf(),
            all == as_entities(ents@),
            index <= i <= ents@.len(),
            joined3(all.skip(i as int), a@, b@, c@) == joined3(all.skip(index as int), a@, b@, c@),
        decreases ents@.len() - i,
    {
        let ent = Entity(ents[i]);
        proof {
            assert(all.skip(i as int).drop_first() =~= all.skip(i + 1));
        }
        i += 1;
        match (a.get(ent), b.get(ent), c.get(ent)) {
            (Some(x), Some(y), Some(z)) => {
                return (i, Some((ent, x, y, z)));
            },
            _ => {},
        }
    }
    (i, None)
}

/// The shortest of three packed orders, and the first of those that are equally short.
pub open spec fn shortest(x: Seq<Entity>, y: Seq<Entity>, z: Seq<Entity>) -> Seq<Entity> {
    shorter(shorter(x, y), z)
}

impl<'a, A, B, C> SparseIter3<'a, A, B, C> {
    /// The invariant of the iterator.
    pub closed spec fn wf(&self) -> bool {
        self.a.wf() && self.b.wf() && self.c.wf() && self.index <= self.ents@.len()
    }

    /// What the iterator has yet to yield: entities with their components.
    pub closed spec fn remaining(&self) -> Seq<(Entity, (A, B, C))> {
        joined3(as_entities(self.ents@).skip(self.index as int), self.a@, self.b@, self.c@)
    }

    /// The iterator over three sets, at its start: it walks the shortest of the three.
    pub fn new(a: PoolSet<'a, A>, b: PoolSet<'a, B>, c: PoolSet<'a, C>) -> (r: Self)
        requires
            a.wf(),
            b.wf(),
            c.wf(),
        ensures
            r.wf(),
            r.remaining() == joined3(
                shortest(a.spec_entities(), b.spec_entities(), c.spec_entities()),
                a@,
                b@,
                c@,
            ),
    {
        // NOTE: Here we're choosing the shortest storage's entities as keys:
        let ents = if a.len() <= b.len() {
            if a.len() <= c.len() {
                a.indices()
            } else {
                c.indices()
            }
        } else {
            if b.len() <= c.len() {
                b.indices()
            } else {
                c.indices()
            }
        };
        let r = SparseIter3 { ents, a, b, c, index: 0 };
        assert(as_entities(ents@).skip(0) =~= as_entities(ents@));
        r
    }

    /// The components of the next entity that has one in all three sets.
    pub fn next(&mut self) -> (r: Option<(&'a A, &'a B, &'a C)>)
        requires
            old(self).wf(),
        ensures
            final(self).wf(),
            match r {
                Some((x, y, z)) => {
                    &&& old(self).remaining().len() > 0
                    &&& (*x, *y, *z) == old(self).remaining()[0].1
                    &&& final(self).remaining() == old(self).remaining().drop_first()
                },
                None => old(self).remaining().len() == 0 && final(self).remaining().len() == 0,
            },
    {
        let (index, found) = advance3(self.ents, &self.a, &self.b, &self.c, self.index);
        self.index = index;
        match found {
            Some((_, x, y, z)) => Some((x, y, z)),
            None => None,
        }
    }

    /// The iterator that yields the entities too.
    pub fn entities(self) -> (r: SparseIterWithEntities3<'a, A, B, C>)
        requires
            self.wf(),
        ensures
            r.wf(),
            r.remaining() == self.remaining(),
    {
        SparseIterWithEntities3 { ents: self.ents, a: self.a, b: self.b, c: self.c, index: self.index }
    }
}

impl<'a, A, B, C> SparseIterWithEntities3<'a, A, B, C> {
    /// The invariant of the iterator.
    pub closed spec fn wf(&self) -> bool {
        self.a.wf() && self.b.wf() && self.c.wf() && self.index <= self.ents@.len()
    }

    /// What the iterator has yet to yield: entities with their components.
    pub closed spec fn remaining(&self) -> Seq<(Entity, (A, B, C))> {
        joined3(as_entities(self.ents@).skip(self.index as int), self.a@, self.b@, self.c@)
    }

    /// The next entity that has a component in all three sets, with its components.
    pub fn next(&mut self) -> (r: Option<(Entity, (&'a A, &'a B, &'a C))>)
        requires
            old(self).wf(),
        ensures
            final(self).wf(),
            match r {
                Some((e, (x, y, z))) => {
                    &&& old(self).remaining().len() > 0
                    &&& (e, (*x, *y, *z)) == old(self).remaining()[0]
                    &&& final(self).remaining() == old(self).remaining().drop_first()
                },
                None => old(self).remaining().len() == 0 && final(self).remaining().len() == 0,
            },
    {
        let (index, found) = advance3(self.ents, &self.a, &self.b, &self.c, self.index);
        self.index = index;
        match found {
            Some((e, x, y, z)) => Some((e, (x, y, z))),
            None => None,
        }
    }
}

impl<'a, A, B, C> SparseIterWithEntities3<'a, A, B, C> {
    /// The entities that are yet to be yielded, in their order. With them the components can
    /// be changed in their pools once the query is done.
    pub fn collect_entities(self) -> (r: Vec<Entity>)
        requires
            self.wf(),
        ensures
            r@ == yielded(self.remaining()),
    {
        let mut iter = self;
        let mut out: Vec<Entity> = Vec::new();
        loop
            invariant
                iter.wf(),
                out@ + yielded(iter.remaining()) == yielded(self.remaining()),
            decreases iter.remaining().len(),
        {
            match iter.next() {
                Some((e, _)) => {
                    out.push(e);
                },
                None => {
                    return out;
                },
            }
        }
    }
}

impl<'a, V0: IPool<'a>, V1: IPool<'a>, V2: IPool<'a>> Iter<'a> for (V0, V1, V2) {
    type I = SparseIter3<'a, V0::Item, V1::Item, V2::Item>;

    open spec fn spec_wf(&self) -> bool {
        self.0.spec_wf() && self.1.spec_wf() && self.2.spec_wf()
    }

    open spec fn spec_iter(&self, it: &Self::I) -> bool {
        it.wf() && it.remaining() == joined3(
            shortest(self.0.spec_entities(), self.1.spec_entities(), self.2.spec_entities()),
            self.0.spec_view(),
            self.1.spec_view(),
            self.2.spec_view(),
        )
    }

    fn iter(self) -> (r: Self::I) {
        SparseIter3::new(self.0.into_parts(), self.1.into_parts(), self.2.into_parts())
    }
}

/// The entities that a join yields, in its order.
pub open spec fn yielded<V>(items: Seq<(Entity, V)>) -> Seq<Entity> {
    Seq::new(items.len(), |i: int| items[i].0)
}

/// What a join over `ents` yields: each of its items is an entity of `ents` that has a
/// component in `a` and in `b`, with those components; every such entity of `ents` is yielded;
/// and where no entity occurs twice in `ents`, none is yielded twice.
pub proof fn lemma_joined2<A, B>(ents: Seq<Entity>, a: Map<Entity, A>, b: Map<Entity, B>)
    ensures
        forall|i: int|
            0 <= i < joined2(ents, a, b).len() ==> {
                let item = #[trigger] joined2(ents, a, b)[i];
                &&& ents.contains(item.0)
                &&& a.contains_key(item.0)
                &&& b.contains_key(item.0)
                &&& item.1 == (a[item.0], b[item.0])
            },
        forall|e: Entity|
            ents.contains(e) && a.contains_key(e) && b.contains_key(e) ==> #[trigger] yielded(
                joined2(ents, a, b),
            ).contains(e),
        ents.no_duplicates() ==> yielded(joined2(ents, a, b)).no_duplicates(),
    decreases ents.len(),
{
    let j = joined2(ents, a, b);
    if ents.len() > 0 {
        let rest_ents = ents.drop_first();
        let rest = joined2(rest_ents, a, b);
        lemma_joined2(rest_ents, a, b);
        let hit = a.contains_key(ents[0]) && b.contains_key(ents[0]);
        let off: int = if hit { 1 } else { 0 };
        assert forall|e: Entity|
            ents.contains(e) && a.contains_key(e) && b.contains_key(e) implies #[trigger] yielded(
            j,
        ).contains(e) by {
            let k = ents.index_of(e);
            if k == 0 {
                assert(yielded(j)[0] == e);
            } else {
                assert(rest_ents[k - 1] == e);
                assert(yielded(rest).contains(e));
                let m = yielded(rest).index_of(e);
                assert(yielded(j)[m + off] == e);
            }
        }
        if ents.no_duplicates() {
            assert forall|x: int, y: int|
                0 <= x < yielded(j).len() && 0 <= y < yielded(j).len() && x != y implies yielded(
                j,
            )[x] != yielded(j)[y] by {
                if hit && (x == 0 || y == 0) {
                    let other = if x == 0 { y } else { x };
                    assert(j[other] == rest[other - 1]);
                    assert(rest_ents.contains(rest[other - 1].0));
                } else {
                    assert(yielded(j)[x] == yielded(rest)[x - off]);
                    assert(yielded(j)[y] == yielded(rest)[y - off]);
                }
            }
        }
    }
}

/// Join correctness: a query over two pools yields exactly the entities that have a component
/// in both, each once and with its two components, whichever of the two pools it walks.
pub proof fn lemma_join2_correct<A, B>(a: ComponentPool<A>, b: ComponentPool<B>, ents: Seq<Entity>)
    requires
        a.wf(),
        b.wf(),
        ents == a.spec_entities() || ents == b.spec_entities(),
    ensures
        forall|e: Entity|
            #[trigger] yielded(joined2(ents, a@, b@)).contains(e) <==> a@.contains_key(e)
                && b@.contains_key(e),
        yielded(joined2(ents, a@, b@)).no_duplicates(),
        forall|i: int|
            0 <= i < joined2(ents, a@, b@).len() ==> (#[trigger] joined2(ents, a@, b@)[i]).1 == (
                a@[joined2(ents, a@, b@)[i].0],
                b@[joined2(ents, a@, b@)[i].0],
            ),
{
    lemma_joined2(ents, a@, b@);
    lemma_pool_entities(a);
    lemma_pool_entities(b);
}

/// Join correctness: a query over three pools yields exactly the entities that have a
/// component in all three, each once and with its three components, whichever of the three
/// pools it walks.
pub proof fn lemma_join3_correct<A, B, C>(
    a: ComponentPool<A>,
    b: ComponentPool<B>,
    c: ComponentPool<C>,
    ents: Seq<Entity>,
)
    requires
        a.wf(),
        b.wf(),
        c.wf(),
        ents == a.spec_entities() || ents == b.spec_entities() || ents == c.spec_entities(),
    ensures
        forall|e: Entity|
            #[trigger] yielded(joined3(ents, a@, b@, c@)).contains(e) <==> a@.contains_key(e)
                && b@.contains_key(e) && c@.contains_key(e),
        yielded(joined3(ents, a@, b@, c@)).no_duplicates(),
        forall|i: int|
            0 <= i < joined3(ents, a@, b@, c@).len() ==> (#[trigger] joined3(ents, a@, b@, c@)[i]).1
                == (
                a@[joined3(ents, a@, b@, c@)[i].0],
                b@[joined3(ents, a@, b@, c@)[i].0],
                c@[joined3(ents, a@, b@, c@)[i].0],
            ),
{
    lemma_joined3(ents, a@, b@, c@);
    lemma_pool_entities(a);
    lemma_pool_entities(b);
    lemma_pool_entities(c);
}

/// The packed order of a pool holds each entity of the pool, and none twice.
pub proof fn lemma_pool_entities<T>(pool: ComponentPool<T>)
    requires
        pool.wf(),
    ensures
        pool.spec_entities().no_duplicates(),
        forall|e: Entity| pool.spec_entities().contains(e) <==> pool@.contains_key(e),
{
    let ents = pool.spec_entities();
    let indices = pool.spec_set().spec_indices();
    assert forall|e: Entity| ents.contains(e) <==> pool@.contains_key(e) by {
        crate::world::comp::lemma_as_entities_contains(indices, e);
    }
}

/// What a join over `ents` yields: each of its items is an entity of `ents` that has a
/// component in `a`, in `b` and in `c`, with those components; every such entity of `ents` is
/// yielded; and where no entity occurs twice in `ents`, none is yielded twice.
pub proof fn lemma_joined3<A, B, C>(
    ents: Seq<Entity>,
    a: Map<Entity, A>,
    b: Map<Entity, B>,
    c: Map<Entity, C>,
)
    ensures
        forall|i: int|
            0 <= i < joined3(ents, a, b, c).len() ==> {
                let item = #[trigger] joined3(ents, a, b, c)[i];
                &&& ents.contains(item.0)
                &&& a.contains_key(item.0)
                &&& b.contains_key(item.0)
                &&& c.contains_key(item.0)
                &&& item.1 == (a[item.0], b[item.0], c[item.0])
            },
        forall|e: Entity|
            ents.contains(e) && a.contains_key(e) && b.contains_key(e) && c.contains_key(e)
                ==> #[trigger] yielded(joined3(ents, a, b, c)).contains(e),
        ents.no_duplicates() ==> yielded(joined3(ents, a, b, c)).no_duplicates(),
    decreases ents.len(),
{
    let j = joined3(ents, a, b, c);
    if ents.len() > 0 {
        let rest_ents = ents.drop_first();
        let rest = joined3(rest_ents, a, b, c);
        lemma_joined3(rest_ents, a, b, c);
        let hit = a.contains_key(ents[0]) && b.contains_key(ents[0]) && c.contains_key(ents[0]);
        let off: int = if hit { 1 } else { 0 };
        assert forall|e: Entity|
            ents.contains(e) && a.contains_key(e) && b.contains_key(e) && c.contains_key(
                e,
            ) implies #[trigger] yielded(j).contains(e) by {
            let k = ents.index_of(e);
            if k == 0 {
                assert(yielded(j)[0] == e);
            } else {
                assert(rest_ents[k - 1] == e);
                assert(yielded(rest).contains(e));
                let m = yielded(rest).index_of(e);
                assert(yielded(j)[m + off] == e);
            }
        }
        if ents.no_duplicates() {
            assert forall|x: int, y: int|
                0 <= x < yielded(j).len() && 0 <= y < yielded(j).len() && x != y implies yielded(
                j,
            )[x] != yielded(j)[y] by {
                if hit && (x == 0 || y == 0) {
                    let other = if x == 0 { y } else { x };
                    assert(j[other] == rest[other - 1]);
                    assert(rest_ents.contains(rest[other - 1].0));
                } else {
                    assert(yielded(j)[x] == yielded(rest)[x - off]);
                    assert(yielded(j)[y] == yielded(rest)[y - off]);
                }
            }
        }
    }
}

} // verus!
