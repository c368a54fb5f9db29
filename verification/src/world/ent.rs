//! Entity: ID associated with a set of components

use crate::world::sparse::{
    swap_removed, DenseIndex, Generation, RawDenseIndex, RawSparseIndex, SparseIndex,
};
use std::sync::atomic::{AtomicU32, Ordering};
use vstd::pervasive::unreached;
use vstd::prelude::*;
use vstd::std_specs::iter::IteratorSpec;

verus! {

/// Identifier that represents an object made of components
///
/// An entity is a slot together with the generation of the slot at the time the entity was
/// made. Two entities are the same if both agree.
#[derive(Debug, Clone, Copy, PartialEq, Eq, Hash, Structural)]
pub struct Entity(pub SparseIndex);

impl Entity {
    pub fn initial(slot: RawSparseIndex) -> (r: Self)
        ensures
            r == Entity(SparseIndex { raw: slot, gen: Generation { raw: 1 } }),
    {
        Entity(SparseIndex::initial(slot))
    }

    pub fn generation(&self) -> (r: Generation)
        ensures
            r == self.0.gen,
    {
        self.0.generation()
    }

    /// The slot of the entity.
    pub open spec fn slot(self) -> int {
        self.0.raw.0 as int
    }
}

/// What an [`EntityPool`] stands for.
pub struct EntityPoolView {
    /// The live entities, in packed order.
    pub entities: Seq<Entity>,
    /// By slot, the generation that the slot was last given out with.
    pub generations: Seq<Generation>,
    /// The free slots. The first is the next to be given out again.
    pub free: Seq<RawSparseIndex>,
}

impl EntityPoolView {
    /// Every slot is either live or free; a live entity carries the generation of its slot.
    pub open spec fn wf(self) -> bool {
        &&& self.generations.len() <= u32::MAX
        &&& self.entities.len() + self.free.len() == self.generations.len()
        &&& forall|i: int|
            0 <= i < self.entities.len() ==> {
                &&& (#[trigger] self.entities[i]).slot() < self.generations.len()
                &&& self.generations[self.entities[i].slot()] == self.entities[i].0.gen
            }
        &&& forall|i: int, j: int|
            0 <= i < self.entities.len() && 0 <= j < self.entities.len() && self.entities[i].0.raw
                == self.entities[j].0.raw ==> i == j
        &&& forall|i: int| 0 <= i < self.free.len() ==> (#[trigger] self.free[i]).0 < self.generations.len()
        &&& self.free.no_duplicates()
        &&& forall|i: int, j: int|
            0 <= i < self.entities.len() && 0 <= j < self.free.len() ==> (
            #[trigger] self.entities[i]).0.raw != #[trigger] self.free[j]
        &&& forall|s: int| 0 <= s < self.generations.len() ==> (#[trigger] self.generations[s]).raw >= 1
    }

    /// Whether the entity is live.
    pub open spec fn contains(self, e: Entity) -> bool {
        self.entities.contains(e)
    }

    /// Whether the slot has been given out at least once and `e` carries a generation that the
    /// slot has reached.
    pub open spec fn has_seen(self, e: Entity) -> bool {
        e.slot() < self.generations.len() && e.0.gen.raw <= self.generations[e.slot()].raw
    }

    /// Whether another entity can be made: the slot that would be used again has a generation
    /// left, or there is a slot number left for a new slot.
    pub open spec fn can_alloc(self) -> bool {
        if self.free.len() > 0 {
            self.generations[self.free[0].0 as int].raw < u32::MAX
        } else {
            self.generations.len() < u32::MAX
        }
    }

    /// The entity that is made next: the first free slot with its generation incremented, or a
    /// new slot with the initial generation.
    pub open spec fn next_entity(self) -> Entity {
        if self.free.len() > 0 {
            Entity(
                SparseIndex {
                    raw: self.free[0],
                    gen: Generation { raw: (self.generations[self.free[0].0 as int].raw + 1) as u32 },
                },
            )
        } else {
            Entity(
                SparseIndex {
                    raw: RawSparseIndex(self.generations.len() as u32),
                    gen: Generation { raw: 1 },
                },
            )
        }
    }

    /// The pool after the next entity was made.
    pub open spec fn allocated(self) -> Self {
        let e = self.next_entity();
        if self.free.len() > 0 {
            EntityPoolView {
                entities: self.entities.push(e),
                generations: self.generations.update(self.free[0].0 as int, e.0.gen),
                free: self.free.drop_first(),
            }
        } else {
            EntityPoolView {
                entities: self.entities.push(e),
                generations: self.generations.push(e.0.gen),
                free: self.free,
            }
        }
    }

    /// The pool after `n` entities were made, one after the other.
    pub open spec fn allocated_n(self, n: nat) -> Self
        decreases n,
    {
        if n == 0 {
            self
        } else {
            self.allocated().allocated_n((n - 1) as nat)
        }
    }

    /// Whether `n` entities can be made, one after the other.
    pub open spec fn can_alloc_n(self, n: nat) -> bool
        decreases n,
    {
        n == 0 || (self.can_alloc() && self.allocated().can_alloc_n((n - 1) as nat))
    }

    /// Whether the entity that is made after `n` others can be named: its generation or its
    /// slot number exists.
    pub open spec fn can_reserve(self, n: nat) -> bool {
        if n < self.free.len() {
            self.generations[self.free[n as int].0 as int].raw < u32::MAX
        } else {
            self.generations.len() + (n - self.free.len()) < u32::MAX
        }
    }

    /// The entity that is made after `n` others: the free slots are used up in their order,
    /// then new slots follow.
    pub open spec fn reserved(self, n: nat) -> Entity {
        if n < self.free.len() {
            Entity(
                SparseIndex {
                    raw: self.free[n as int],
                    gen: Generation {
                        raw: (self.generations[self.free[n as int].0 as int].raw + 1) as u32,
                    },
                },
            )
        } else {
            Entity(
                SparseIndex {
                    raw: RawSparseIndex((self.generations.len() + (n - self.free.len())) as u32),
                    gen: Generation { raw: 1 },
                },
            )
        }
    }

    /// The pool after `e` was given back: a live entity leaves the packed order by swap-removal
    /// and its slot becomes the first free slot, with its generation as it is. Anything else
    /// changes nothing.
    pub open spec fn deallocated(self, e: Entity) -> Self {
        if self.contains(e) {
            EntityPoolView {
                entities: swap_removed(self.entities, self.entities.index_of(e)),
                generations: self.generations,
                free: seq![e.0.raw] + self.free,
            }
        } else {
            self
        }
    }

    /// The pool after one operation. An allocation that cannot be made is left out.
    pub open spec fn step(self, op: PoolOp) -> Self {
        match op {
            PoolOp::Allocate => if self.can_alloc() {
                self.allocated()
            } else {
                self
            },
            PoolOp::Deallocate(e) => self.deallocated(e),
        }
    }

    /// The pool after a sequence of operations.
    pub open spec fn after(self, ops: Seq<PoolOp>) -> Self
        decreases ops.len(),
    {
        if ops.len() == 0 {
            self
        } else {
            self.step(ops[0]).after(ops.drop_first())
        }
    }
}

/// One operation on a pool: what [`EntityPool::allocate`] and [`EntityPool::dealloc`] do.
pub enum PoolOp {
    Allocate,
    Deallocate(Entity),
}

#[derive(Debug, Clone, Copy, PartialEq, Eq, Hash, Structural)]
enum Entry {
    ToDense(DenseIndex),
    Empty { gen: Generation, next_free: Option<RawSparseIndex> },
}

/// The free slots that follow from `head` through the links of the entries, `n` of them.
spec fn chain(sparse: Seq<Entry>, head: Option<RawSparseIndex>, n: nat) -> Seq<RawSparseIndex>
    decreases n,
{
    if n == 0 {
        Seq::empty()
    } else {
        match head {
            Some(s) => match sparse[s.0 as int] {
                Entry::Empty { gen, next_free } => seq![s] + chain(sparse, next_free, (n - 1) as nat),
                Entry::ToDense(_) => Seq::empty(),
            },
            None => Seq::empty(),
        }
    }
}

/// From `head`, the links lead through exactly `n` empty entries and then end.
spec fn chain_ok(sparse: Seq<Entry>, head: Option<RawSparseIndex>, n: nat) -> bool
    decreases n,
{
    if n == 0 {
        head is None
    } else {
        match head {
            Some(s) => s.0 < sparse.len() && match sparse[s.0 as int] {
                Entry::Empty { gen, next_free } => chain_ok(sparse, next_free, (n - 1) as nat),
                Entry::ToDense(_) => false,
            },
            None => false,
        }
    }
}

spec fn entry_generation(e: Entry) -> Generation {
    match e {
        Entry::ToDense(d) => d.gen,
        Entry::Empty { gen, next_free } => gen,
    }
}

proof fn lemma_chain_props(sparse: Seq<Entry>, head: Option<RawSparseIndex>, n: nat)
    requires
        chain_ok(sparse, head, n),
    ensures
        chain(sparse, head, n).len() == n,
        forall|i: int|
            0 <= i < n ==> (#[trigger] chain(sparse, head, n)[i]).0 < sparse.len()
                && sparse[chain(sparse, head, n)[i].0 as int] is Empty,
        n > 0 ==> head == Some(chain(sparse, head, n)[0]),
    decreases n,
{
    if n > 0 {
        let s = head.unwrap();
        match sparse[s.0 as int] {
            Entry::Empty { gen, next_free } => {
                lemma_chain_props(sparse, next_free, (n - 1) as nat);
            },
            Entry::ToDense(_) => {},
        }
    }
}

/// The chain does not depend on entries that it does not pass.
proof fn lemma_chain_frame(
    s1: Seq<Entry>,
    s2: Seq<Entry>,
    head: Option<RawSparseIndex>,
    n: nat,
)
    requires
        chain_ok(s1, head, n),
        s1.len() <= s2.len(),
        forall|i: int|
            0 <= i < n ==> s2[(#[trigger] chain(s1, head, n)[i]).0 as int] == s1[chain(
                s1,
                head,
                n,
            )[i].0 as int],
    ensures
        chain_ok(s2, head, n),
        chain(s2, head, n) == chain(s1, head, n),
    decreases n,
{
    if n > 0 {
        lemma_chain_props(s1, head, n);
        let s = head.unwrap();
        let c = chain(s1, head, n);
        match s1[s.0 as int] {
            Entry::Empty { gen, next_free } => {
                let rest = chain(s1, next_free, (n - 1) as nat);
                assert forall|i: int| 0 <= i < n - 1 implies s2[(#[trigger] rest[i]).0 as int]
                    == s1[rest[i].0 as int] by {
                    assert(c[i + 1] == rest[i]);
                }
                lemma_chain_frame(s1, s2, next_free, (n - 1) as nat);
            },
            Entry::ToDense(_) => {},
        }
    }
}

/// Pool of entities
///
/// It hands out slots with generations, takes them back, and gives a slot that was taken back
/// out again with the next generation.
#[derive(Debug)]
pub struct EntityPool {
    sparse: Vec<Entry>,
    dense: Vec<Entity>,
    first_free: Option<RawSparseIndex>,
    /// Tracks the number of free entries
    n_free: usize,
    /// Tracks the number of entities reserved atomically
    n_reserved: AtomicU32,
}

impl View for EntityPool {
    type V = EntityPoolView;

    closed spec fn view(&self) -> EntityPoolView {
        EntityPoolView {
            entities: self.dense@,
            generations: Seq::new(self.sparse@.len(), |s: int| entry_generation(self.sparse@[s])),
            free: chain(self.sparse@, self.first_free, self.n_free as nat),
        }
    }
}

impl Default for EntityPool {
    fn default() -> (r: Self)
        ensures
            r.wf(),
            r@.entities.len() == 0,
            r@.generations.len() == 0,
            r@.free.len() == 0,
    {
        let r = EntityPool {
            sparse: Vec::new(),
            dense: Vec::new(),
            first_free: None,
            n_free: 0,
            n_reserved: AtomicU32::new(0),
        };
        r
    }
}

impl EntityPool {
    /// The entries and the packed entities point at each other, and the free list passes
    /// `n_free` empty entries.
    pub closed spec fn links_ok(&self) -> bool {
        &&& chain_ok(self.sparse@, self.first_free, self.n_free as nat)
        &&& forall|i: int|
            0 <= i < self.dense@.len() ==> {
                &&& (#[trigger] self.dense@[i]).slot() < self.sparse@.len()
                &&& self.sparse@[self.dense@[i].slot()] == Entry::ToDense(
                    DenseIndex { raw: RawDenseIndex(i as u32), gen: self.dense@[i].0.gen },
                )
            }
        &&& forall|s: int|
            0 <= s < self.sparse@.len() ==> match #[trigger] self.sparse@[s] {
                Entry::ToDense(d) => d.raw.0 < self.dense@.len() && self.dense@[d.raw.0 as int].slot()
                    == s,
                Entry::Empty { gen, next_free } => true,
            }
    }

    /// The invariant of the pool.
    pub open spec fn wf(&self) -> bool {
        self@.wf() && self.links_ok()
    }

    pub fn slice(&self) -> (r: &[Entity])
        ensures
            r@ == self@.entities,
    {
        self.dense.as_slice()
    }

    pub fn contains(&self, ent: Entity) -> (r: bool)
        requires
            self.wf(),
        ensures
            r == self@.contains(ent),
    {
        let slot = ent.0.to_usize();
        if slot >= self.sparse.len() {
            return false;
        }
        match self.sparse[slot] {
            Entry::ToDense(dense) => {
                let e = &self.dense[dense.to_usize()];
                e.generation() == ent.generation()
            },
            Entry::Empty { gen, next_free } => {
                false
            },
        }
    }

    pub fn iter(&self) -> (r: std::slice::Iter<'_, Entity>)
        ensures
            r.remaining() == self@.entities.as_ref(),
            IteratorSpec::decrease(&r) is Some,
            IteratorSpec::initial_value_relation(&r, &r),
    {
        let slice = self.dense.as_slice();
        slice.iter()
    }

    /// Makes an entity, on the first free slot if there is one and on a new slot if not.
    pub fn allocate(&mut self) -> (r: Entity)
        requires
            old(self).wf(),
            old(self)@.can_alloc(),
        ensures
            final(self).wf(),
            r == old(self)@.next_entity(),
            final(self)@ == old(self)@.allocated(),
    {
        let ghost before = *self;
        proof {
            lemma_chain_props(self.sparse@, self.first_free, self.n_free as nat);
        }
        if let Some(free) = self.first_free {
            let (old_gen, second_free) = match self.sparse[free.to_usize()] {
                Entry::Empty { gen, next_free } => (gen, next_free),
                _ => unreached(),
            };

            let gen = old_gen.increment();
            let entity = Entity(SparseIndex::new(free, gen));
            let dense = DenseIndex::new(RawDenseIndex::from_usize(self.dense.len()), gen);

            // update the sparse/dense array and the free slot
            self.first_free = second_free;
            self.n_free -= 1;
            self.dense.push(entity);
            self.sparse[free.to_usize()] = Entry::ToDense(dense);

            proof {
                let rest = chain(before.sparse@, second_free, self.n_free as nat);
                assert(before@.free.drop_first() =~= rest);
                lemma_chain_frame(before.sparse@, self.sparse@, second_free, self.n_free as nat);
                assert(self@.generations =~= before@.generations.update(free.0 as int, gen));
            }
            entity
        } else {
            // full
            let index = self.dense.len();
            let entity = Entity::initial(RawSparseIndex::from_usize(index));

            // update the sparse/dense array (the free slot is None)
            self.dense.push(entity);
            self.sparse.push(Entry::ToDense(DenseIndex::initial(RawDenseIndex::from_usize(index))));

            proof {
                assert(self@.generations =~= before@.generations.push(Generation { raw: 1 }));
            }
            entity
        }
    }

    /// Gives an entity back. Returns whether it was live.
    pub fn dealloc(&mut self, ent: Entity) -> (r: bool)
        requires
            old(self).wf(),
        ensures
            final(self).wf(),
            r == old(self)@.contains(ent),
            final(self)@ == old(self)@.deallocated(ent),
    {
        let ghost before = *self;
        if !self.contains(ent) {
            return false;
        }
        proof {
            lemma_chain_props(self.sparse@, self.first_free, self.n_free as nat);
        }
        let slot = ent.0.to_usize();
        let dense = match self.sparse[slot] {
            Entry::ToDense(e) => e,
            Entry::Empty { gen, next_free } => unreached(),
        };

        // update sparse/dense array and the free slots
        self.sparse[slot] = Entry::Empty { gen: ent.generation(), next_free: self.first_free };
        self.dense.swap_remove(dense.to_usize());
        if dense.to_usize() < self.dense.len() {
            let moved = self.dense[dense.to_usize()];
            self.sparse[moved.0.to_usize()] = Entry::ToDense(DenseIndex::new(dense.raw, moved.generation()));
        }
        self.first_free = Some(RawSparseIndex::from_usize(slot));
        self.n_free += 1;

        proof {
            lemma_chain_frame(before.sparse@, self.sparse@, before.first_free, before.n_free as nat);
            assert(self@.generations =~= before@.generations);
        }
        true
    }

    /// Whether another entity can be made.
    pub fn can_allocate(&self) -> (r: bool)
        requires
            self.wf(),
        ensures
            r == self@.can_alloc(),
    {
        match self.first_free {
            Some(free) => match self.sparse[free.to_usize()] {
                Entry::Empty { gen, next_free } => gen.raw < u32::MAX,
                Entry::ToDense(_) => unreached(),
            },
            None => self.sparse.len() < u32::MAX as usize,
        }
    }

    /// The free slot that is used after `nth` others.
    pub fn find_nth_free(&self, nth: usize) -> (r: RawSparseIndex)
        requires
            self.wf(),
            nth < self@.free.len(),
        ensures
            r == self@.free[nth as int],
    {
        proof {
            lemma_chain_props(self.sparse@, self.first_free, self.n_free as nat);
        }
        let mut sparse = match self.first_free {
            Some(free) => free,
            None => unreached(),
        };
        let mut i: usize = 0;
        while i < nth
            invariant
                i <= nth < self.n_free,
                self@.free.len() == self.n_free,
                chain_ok(self.sparse@, Some(sparse), (self.n_free - i) as nat),
                chain(self.sparse@, Some(sparse), (self.n_free - i) as nat) == self@.free.skip(
                    i as int,
                ),
            decreases nth - i,
        {
            let ghost here = chain(self.sparse@, Some(sparse), (self.n_free - i) as nat);
            proof {
                reveal_with_fuel(chain_ok, 3);
            }
            sparse = match self.sparse[sparse.to_usize()] {
                Entry::Empty { gen, next_free: Some(free_index) } => free_index,
                _ => unreached(),
            };
            i += 1;
            proof {
                let rest = chain(self.sparse@, Some(sparse), (self.n_free - i) as nat);
                assert(here.drop_first() =~= rest);
            }
        }
        proof {
            lemma_chain_props(self.sparse@, Some(sparse), (self.n_free - i) as nat);
        }
        sparse
    }

    /// Whether the entity that is made after `n` others can be named.
    pub fn can_reserve(&self, n: usize) -> (r: bool)
        requires
            self.wf(),
        ensures
            r == self@.can_reserve(n as nat),
    {
        proof {
            lemma_chain_props(self.sparse@, self.first_free, self.n_free as nat);
        }
        if n < self.n_free {
            let sparse = self.find_nth_free(n);
            match self.sparse[sparse.to_usize()] {
                Entry::Empty { gen, next_free } => gen.raw < u32::MAX,
                Entry::ToDense(_) => unreached(),
            }
        } else {
            let nth_push = n - self.n_free;
            nth_push < u32::MAX as usize && self.sparse.len() < u32::MAX as usize - nth_push
        }
    }

    /// The entity that is made after `n` others.
    pub fn reserve_nth(&self, n: usize) -> (r: Entity)
        requires
            self.wf(),
            self@.can_reserve(n as nat),
        ensures
            r == self@.reserved(n as nat),
    {
        proof {
            lemma_chain_props(self.sparse@, self.first_free, self.n_free as nat);
        }
        if n >= self.n_free {
            let nth_push = n - self.n_free;
            let slot = self.sparse.len() + nth_push;
            Entity::initial(RawSparseIndex::from_usize(slot))
        } else {
            // run linear search for the free slots
            let sparse = self.find_nth_free(n);
            let gen = match self.sparse[sparse.to_usize()] {
                Entry::ToDense(_) => unreached(),
                Entry::Empty { gen, next_free } => gen,
            };
            Entity(SparseIndex::new(sparse, gen.increment()))
        }
    }

    /// Counts one more reservation. Returns how many there were before.
    fn count_reservation(&self) -> u32 {
        self.n_reserved.fetch_add(1, Ordering::Relaxed)
    }

    /// Sets the number of reservations back to none. Returns how many there were.
    fn take_reservations(&mut self) -> (n: u32)
        ensures
            final(self).sparse == old(self).sparse,
            final(self).dense == old(self).dense,
            final(self).first_free == old(self).first_free,
            final(self).n_free == old(self).n_free,
    {
        self.n_reserved.swap(0, Ordering::Relaxed)
    }

    /// Reserves an [`Entity`] only requiring `&self`. Make sure to call
    /// [`synchronize`](Self::synchronize) before use.
    ///
    /// The entity is the one that is made after as many others as were reserved since the pool
    /// was last synchronized. That number is kept in an atomic counter, of which nothing is
    /// known here: the result is `reserved(n)` for some `n`, and nothing when that entity has no
    /// name.
    pub fn reserve_atomic(&self) -> (r: Option<Entity>)
        requires
            self.wf(),
        ensures
            match r {
                Some(e) => exists|n: nat| self@.can_reserve(n) && e == self@.reserved(n),
                None => exists|n: nat| !self@.can_reserve(n),
            },
    {
        let n_reserved = self.count_reservation() as usize;
        if self.can_reserve(n_reserved) {
            let e = self.reserve_nth(n_reserved);
            Some(e)
        } else {
            None
        }
    }

    /// Makes up to `n` entities, and stops early only where no more can be made. Returns how
    /// many were made.
    pub fn allocate_many(&mut self, n: u32) -> (done: u32)
        requires
            old(self).wf(),
        ensures
            final(self).wf(),
            done <= n,
            old(self)@.can_alloc_n(done as nat),
            final(self)@ == old(self)@.allocated_n(done as nat),
            done < n ==> !final(self)@.can_alloc(),
    {
        let ghost before = self@;
        let mut done: u32 = 0;
        while done < n && self.can_allocate()
            invariant
                self.wf(),
                done <= n,
                before.can_alloc_n(done as nat),
                self@ == before.allocated_n(done as nat),
            decreases n - done,
        {
            proof {
                lemma_allocated_n_step(before, done as nat);
            }
            self.allocate();
            done += 1;
        }
        done
    }

    /// Spawns all the reserved entities
    ///
    /// As many entities are made as were reserved since the last call, as far as they can be
    /// made.
    pub fn synchronize(&mut self)
        requires
            old(self).wf(),
        ensures
            final(self).wf(),
            exists|k: nat| old(self)@.can_alloc_n(k) && final(self)@ == old(self)@.allocated_n(k),
    {
        let n_reserved = self.take_reservations();
        self.allocate_many(n_reserved);
    }
}

/// Making `n + 1` entities is making `n` and then one more.
pub proof fn lemma_allocated_n_step(v: EntityPoolView, n: nat)
    ensures
        v.allocated_n(n + 1) == v.allocated_n(n).allocated(),
        v.can_alloc_n(n + 1) == (v.can_alloc_n(n) && v.allocated_n(n).can_alloc()),
    decreases n,
{
    if n == 0 {
        assert(v.allocated_n(1) == v.allocated().allocated_n(0));
        assert(v.can_alloc_n(1) == (v.can_alloc() && v.allocated().can_alloc_n(0)));
    } else {
        lemma_allocated_n_step(v.allocated(), (n - 1) as nat);
    }
}

/// An allocation keeps the pool well formed. The entity that it makes was not live before; where
/// its slot was in use before, its generation is greater than the one the slot had. No slot
/// loses a generation.
pub proof fn lemma_allocated(v: EntityPoolView)
    requires
        v.wf(),
        v.can_alloc(),
    ensures
        v.allocated().wf(),
        !v.contains(v.next_entity()),
        v.allocated().contains(v.next_entity()),
        v.allocated().generations.len() >= v.generations.len(),
        v.next_entity().slot() < v.allocated().generations.len(),
        v.allocated().generations[v.next_entity().slot()] == v.next_entity().0.gen,
        v.next_entity().slot() < v.generations.len() ==> v.next_entity().0.gen.raw
            > v.generations[v.next_entity().slot()].raw,
        forall|s: int|
            0 <= s < v.generations.len() ==> (#[trigger] v.allocated().generations[s]).raw
                >= v.generations[s].raw,
        forall|e: Entity| v.allocated().contains(e) <==> v.contains(e) || e == v.next_entity(),
{
    let e = v.next_entity();
    let w = v.allocated();
    assert(w.entities[v.entities.len() as int] == e);
    assert forall|x: Entity| w.contains(x) <==> v.contains(x) || x == e by {
        if v.contains(x) {
            let i = v.entities.index_of(x);
            assert(w.entities[i] == x);
        }
    }
}

/// A deallocation keeps the pool well formed and the generations as they are. The entity is not
/// live afterwards, and nothing becomes live by it.
pub proof fn lemma_deallocated(v: EntityPoolView, e: Entity)
    requires
        v.wf(),
    ensures
        v.deallocated(e).wf(),
        v.deallocated(e).generations == v.generations,
        !v.deallocated(e).contains(e),
        forall|x: Entity| v.deallocated(e).contains(x) <==> v.contains(x) && x != e,
        v.contains(e) ==> v.deallocated(e).entities.len() == v.entities.len() - 1,
{
    let w = v.deallocated(e);
    if v.contains(e) {
        let pos = v.entities.index_of(e);
        let last = v.entities.len() - 1;
        assert forall|x: Entity| w.contains(x) <==> v.contains(x) && x != e by {
            if v.contains(x) && x != e {
                let i = v.entities.index_of(x);
                let i2 = if i == last { pos } else { i };
                assert(w.entities[i2] == x);
            }
        }
    }
}

/// A slot that was given back is the next to be given out, with the next generation.
pub proof fn lemma_reuse_increments(v: EntityPoolView, e: Entity)
    requires
        v.wf(),
        v.contains(e),
    ensures
        v.deallocated(e).next_entity().0.raw == e.0.raw,
        v.deallocated(e).next_entity().0.gen.raw == (e.0.gen.raw + 1) as u32,
        v.deallocated(e).can_alloc() <==> e.0.gen.raw < u32::MAX,
{
}

/// Generation monotonicity: whatever is allocated and deallocated, no slot loses a generation,
/// and an entity that is made on a slot carries a generation greater than any that the slot had
/// before.
pub proof fn lemma_generations_never_decrease(v: EntityPoolView, ops: Seq<PoolOp>, slot: int)
    requires
        v.wf(),
        0 <= slot < v.generations.len(),
    ensures
        v.after(ops).wf(),
        slot < v.after(ops).generations.len(),
        v.after(ops).generations[slot].raw >= v.generations[slot].raw,
        v.after(ops).can_alloc() && v.after(ops).next_entity().slot() == slot ==> v.after(
            ops,
        ).next_entity().0.gen.raw > v.generations[slot].raw,
    decreases ops.len(),
{
    if ops.len() > 0 {
        lemma_generations_never_decrease(v.step(ops[0]), ops.drop_first(), slot);
    }
}

/// A stale entity is never live again: an entity that is not live, on a slot that has reached
/// its generation, stays so whatever is allocated and deallocated, also when its slot is used
/// again.
pub proof fn lemma_stale_never_live(v: EntityPoolView, ops: Seq<PoolOp>, e: Entity)
    requires
        v.wf(),
        v.has_seen(e),
        !v.contains(e),
    ensures
        v.after(ops).wf(),
        v.after(ops).has_seen(e),
        !v.after(ops).contains(e),
    decreases ops.len(),
{
    if ops.len() > 0 {
        lemma_stale_never_live(v.step(ops[0]), ops.drop_first(), e);
    }
}

/// An entity that was given back is stale.
pub proof fn lemma_deallocated_is_stale(v: EntityPoolView, e: Entity)
    requires
        v.wf(),
        v.contains(e),
    ensures
        v.deallocated(e).has_seen(e),
        !v.deallocated(e).contains(e),
{
}

/// What is reserved is what is made: the entity that is named as made after `n` others is the
/// entity that the pool makes once it has made `n` others, and it can be named exactly if it
/// can be made.
pub proof fn lemma_reserved_is_made(v: EntityPoolView, n: nat)
    requires
        v.wf(),
        v.can_alloc_n(n),
    ensures
        v.allocated_n(n).wf(),
        v.allocated_n(n).next_entity() == v.reserved(n),
        v.allocated_n(n).can_alloc() == v.can_reserve(n),
    decreases n,
{
    if n > 0 {
        lemma_reserved_is_made(v.allocated(), (n - 1) as nat);
    }
}

/// The entities that are made join the live entities in the order in which they were
/// reserved.
pub proof fn lemma_allocated_n_entities(v: EntityPoolView, n: nat)
    requires
        v.wf(),
        v.can_alloc_n(n),
    ensures
        v.allocated_n(n).entities == v.entities + Seq::new(n, |i: int| v.reserved(i as nat)),
    decreases n,
{
    if n > 0 {
        let m = (n - 1) as nat;
        lemma_allocated_n_step(v, m);
        lemma_allocated_n_entities(v, m);
        lemma_reserved_is_made(v, m);
    }
}

/// An entity that the pool has made stays one that it has made, however many entities are
/// made after it.
pub proof fn lemma_seen_stays(v: EntityPoolView, n: nat, e: Entity)
    requires
        v.wf(),
        v.can_alloc_n(n),
        v.has_seen(e),
    ensures
        v.allocated_n(n).wf(),
        v.allocated_n(n).has_seen(e),
    decreases n,
{
    if n > 0 {
        lemma_allocated(v);
        lemma_seen_stays(v.allocated(), (n - 1) as nat, e);
    }
}

} // verus!
