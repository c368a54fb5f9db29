//! Internal [`SparseSet`] utilities
//!
//! A sparse set keeps its items in a packed array and finds them through a sparse array that is
//! indexed by slot. Every link carries a generation, so that an index of an earlier occupant of a
//! slot is told apart from the index of the current one.

use vstd::prelude::*;
use vstd::seq_lib::*;
use vstd::set_lib::*;
use vstd::std_specs::iter::IteratorSpec;

verus! {

/// The length of the sparse array grows in multiples of this value
pub const UNIT_LEN: usize = 64;

/// Newtype sparse index: a slot of the sparse array
#[derive(Debug, Clone, Copy, PartialEq, Eq, Hash, PartialOrd, Ord, Structural)]
pub struct RawSparseIndex(pub u32);

impl RawSparseIndex {
    pub fn from_usize(x: usize) -> (r: Self)
        requires
            x <= u32::MAX,
        ensures
            r.0 == x,
    {
        RawSparseIndex(x as u32)
    }

    pub fn to_usize(&self) -> (r: usize)
        ensures
            r == self.0,
    {
        self.0 as usize
    }
}

/// Newtype dense index: a position in the packed arrays
#[derive(Debug, Clone, Copy, PartialEq, Eq, Hash, PartialOrd, Ord, Structural)]
pub struct RawDenseIndex(pub u32);

impl RawDenseIndex {
    pub fn from_usize(x: usize) -> (r: Self)
        requires
            x <= u32::MAX,
        ensures
            r.0 == x,
    {
        RawDenseIndex(x as u32)
    }

    pub fn to_usize(&self) -> (r: usize)
        ensures
            r == self.0,
    {
        self.0 as usize
    }
}

/// Identifies new/old items at the same slot
///
/// The generation of a slot is incremented when the slot is given to a new item. It starts at one
/// and is never zero.
#[derive(Debug, Clone, Copy, PartialEq, Eq, Hash, PartialOrd, Ord, Structural)]
pub struct Generation {
    pub raw: u32,
}

impl Generation {
    /// The generation of the first item of a slot
    pub fn initial() -> (r: Self)
        ensures
            r.raw == 1,
    {
        Generation { raw: 1 }
    }

    pub fn increment(self) -> (r: Self)
        requires
            self.raw < u32::MAX,
        ensures
            r.raw == self.raw + 1,
    {
        Generation { raw: self.raw + 1 }
    }

    pub fn to_usize(&self) -> (r: usize)
        ensures
            r == self.raw,
    {
        self.raw as usize
    }
}

/// Sparse index with generation
#[derive(Debug, Clone, Copy, PartialEq, Eq, Hash, Structural)]
pub struct SparseIndex {
    pub raw: RawSparseIndex,
    pub gen: Generation,
}

impl SparseIndex {
    pub fn new(raw: RawSparseIndex, gen: Generation) -> (r: Self)
        ensures
            r == (SparseIndex { raw, gen }),
    {
        SparseIndex { raw, gen }
    }

    pub fn initial(raw: RawSparseIndex) -> (r: Self)
        ensures
            r == (SparseIndex { raw, gen: Generation { raw: 1 } }),
    {
        SparseIndex { raw, gen: Generation::initial() }
    }

    pub fn increment_generation(self) -> (r: Self)
        requires
            self.gen.raw < u32::MAX,
        ensures
            r == (SparseIndex { raw: self.raw, gen: Generation { raw: (self.gen.raw + 1) as u32 } }),
    {
        SparseIndex { raw: self.raw, gen: self.gen.increment() }
    }

    pub fn generation(&self) -> (r: Generation)
        ensures
            r == self.gen,
    {
        self.gen
    }

    pub fn raw(&self) -> (r: RawSparseIndex)
        ensures
            r == self.raw,
    {
        self.raw
    }

    pub fn to_usize(&self) -> (r: usize)
        ensures
            r == self.raw.0,
    {
        self.raw.to_usize()
    }
}

/// Dense index with generation
#[derive(Debug, Clone, Copy, PartialEq, Eq, Hash, Structural)]
pub struct DenseIndex {
    pub raw: RawDenseIndex,
    pub gen: Generation,
}

impl DenseIndex {
    pub fn new(raw: RawDenseIndex, gen: Generation) -> (r: Self)
        ensures
            r == (DenseIndex { raw, gen }),
    {
        DenseIndex { raw, gen }
    }

    pub fn initial(raw: RawDenseIndex) -> (r: Self)
        ensures
            r == (DenseIndex { raw, gen: Generation { raw: 1 } }),
    {
        DenseIndex { raw, gen: Generation::initial() }
    }

    pub fn generation(&self) -> (r: Generation)
        ensures
            r == self.gen,
    {
        self.gen
    }

    pub fn raw(&self) -> (r: RawDenseIndex)
        ensures
            r == self.raw,
    {
        self.raw
    }

    pub fn to_usize(&self) -> (r: usize)
        ensures
            r == self.raw.0,
    {
        self.raw.to_usize()
    }
}

/// No two indices of the sequence name the same slot.
pub open spec fn distinct_slots(s: Seq<SparseIndex>) -> bool {
    forall|i: int, j: int| 0 <= i < s.len() && 0 <= j < s.len() && s[i].raw == s[j].raw ==> i == j
}

/// Whether some index of the sequence names the slot.
pub open spec fn has_slot(s: Seq<SparseIndex>, slot: RawSparseIndex) -> bool {
    exists|i: int| 0 <= i < s.len() && s[i].raw == slot
}

/// The position at which the sequence names the slot.
pub open spec fn slot_position(s: Seq<SparseIndex>, slot: RawSparseIndex) -> int {
    choose|i: int| 0 <= i < s.len() && s[i].raw == slot
}

/// How the parts of a sparse set fit together: the sparse array `links`, by slot, and the packed
/// array `indices`, beside `n` packed items. The link of each packed index is the position of
/// the index, with its generation, and every link leads to the packed index of its slot.
pub open spec fn parts_wf(links: Seq<Option<DenseIndex>>, indices: Seq<SparseIndex>, n: nat) -> bool {
    &&& indices.len() == n
    &&& links.len() <= u32::MAX + 1
    &&& distinct_slots(indices)
    &&& forall|i: int|
        0 <= i < indices.len() ==> {
            &&& (#[trigger] indices[i]).raw.0 < links.len()
            &&& links[indices[i].raw.0 as int] is Some
            &&& links[indices[i].raw.0 as int].unwrap().raw.0 == i
            &&& links[indices[i].raw.0 as int].unwrap().gen == indices[i].gen
        }
    &&& forall|s: int|
        0 <= s < links.len() && (#[trigger] links[s]) is Some ==> {
            &&& links[s].unwrap().raw.0 < indices.len()
            &&& indices[links[s].unwrap().raw.0 as int].raw.0 == s
        }
}

/// No index of the sequence names the slot of `index` with a later generation than `index`.
pub open spec fn not_older(s: Seq<SparseIndex>, index: SparseIndex) -> bool {
    forall|i: int|
        0 <= i < s.len() && (#[trigger] s[i]).raw == index.raw ==> s[i].gen.raw <= index.gen.raw
}

/// A sequence with the item at `i` taken out and the last item moved into its place.
pub open spec fn swap_removed<A>(s: Seq<A>, i: int) -> Seq<A> {
    s.update(i, s.last()).drop_last()
}

/// The length to which the sparse array grows to hold a slot: the next multiple of
/// [`UNIT_LEN`] above the slot, or all that the machine can address.
pub open spec fn grown_len(target_slot: usize) -> int {
    if (target_slot / UNIT_LEN + 1) * UNIT_LEN <= usize::MAX {
        (target_slot / UNIT_LEN + 1) * UNIT_LEN
    } else {
        usize::MAX as int
    }
}

/// Maps [`SparseIndex`] to [`DenseIndex`]
#[derive(Debug, Clone)]
pub struct SparseArray {
    pub data: Vec<Option<DenseIndex>>,
}

impl View for SparseArray {
    type V = Seq<Option<DenseIndex>>;

    open spec fn view(&self) -> Seq<Option<DenseIndex>> {
        self.data@
    }
}

impl SparseArray {
    pub fn new() -> (r: Self)
        ensures
            r@.len() == 0,
    {
        SparseArray { data: Vec::new() }
    }

    /// The link stored for a slot, or nothing for a slot that was never reached.
    pub open spec fn link(&self, slot: RawSparseIndex) -> Option<DenseIndex> {
        if slot.0 < self@.len() {
            self@[slot.0 as int]
        } else {
            None
        }
    }

    /// Returns the corresponding item's slot
    pub fn get(&self, sparse: SparseIndex) -> (r: Option<DenseIndex>)
        ensures
            r == self.link(sparse.raw),
    {
        let idx = sparse.to_usize();
        if idx < self.data.len() {
            self.data[idx]
        } else {
            None
        }
    }

    pub fn set(&mut self, sparse_slot: usize, dense: DenseIndex)
        requires
            sparse_slot < old(self)@.len(),
        ensures
            final(self)@ == old(self)@.update(sparse_slot as int, Some(dense)),
    {
        self.data[sparse_slot] = Some(dense);
    }

    /// Returns the corresponding item's index to the sparse, generational index.
    /// If there's no slot, the array will allocate more slots.
    pub fn get_or_alloc_mut(&mut self, sparse: SparseIndex) -> (r: Option<&mut DenseIndex>)
        requires
            sparse.raw.0 < usize::MAX,
        ensures
            sparse.raw.0 < final(self)@.len(),
            final(self)@.len() == if old(self)@.len() <= sparse.raw.0 {
                grown_len(sparse.raw.0 as usize)
            } else {
                old(self)@.len() as int
            },
            forall|slot: RawSparseIndex|
                slot != sparse.raw ==> final(self).link(slot) == old(self).link(slot),
            match r {
                Some(dense) => old(self).link(sparse.raw) == Some(*dense) && final(self).link(
                    sparse.raw,
                ) == Some(*final(dense)),
                None => old(self).link(sparse.raw) is None && final(self).link(sparse.raw) is None,
            },
    {
        let idx_usize = sparse.to_usize();
        self.maybe_grow(idx_usize);
        match &mut self.data[idx_usize] {
            Some(dense) => Some(dense),
            None => None,
        }
    }

    pub fn remove(&mut self, idx: SparseIndex) -> (r: Option<DenseIndex>)
        ensures
            r == old(self).link(idx.raw),
            final(self)@.len() == old(self)@.len(),
            final(self).link(idx.raw) is None,
            forall|slot: RawSparseIndex|
                slot != idx.raw ==> final(self).link(slot) == old(self).link(slot),
    {
        let i = idx.to_usize();
        if i < self.data.len() {
            let old = self.data[i];
            self.data[i] = None;
            old
        } else {
            None
        }
    }

    /// After `maybe_grow`, `self.data.len() >= target_slot + 1`. Returns whether the array grew.
    pub fn maybe_grow(&mut self, target_slot: usize) -> (grew: bool)
        requires
            target_slot < usize::MAX,
        ensures
            grew == (old(self)@.len() <= target_slot),
            final(self)@.len() > target_slot,
            final(self)@.len() >= old(self)@.len(),
            !grew ==> final(self)@ == old(self)@,
            grew ==> final(self)@.len() == grown_len(target_slot),
            forall|i: int| 0 <= i < old(self)@.len() ==> final(self)@[i] == old(self)@[i],
            forall|i: int| old(self)@.len() <= i < final(self)@.len() ==> final(self)@[i] is None,
    {
        if self.data.len() >= target_slot + 1 {
            false
        } else {
            let n_units: usize = target_slot / UNIT_LEN + 1;
            let new_len: usize = match n_units.checked_mul(UNIT_LEN) {
                Some(n) => n,
                None => usize::MAX,
            };
            assert(new_len > target_slot) by (nonlinear_arith)
                requires
                    new_len == usize::MAX || new_len == (target_slot / 64 + 1) * 64,
                    target_slot < usize::MAX,
            ;
            let ghost before = self.data@;
            while self.data.len() < new_len
                invariant
                    new_len == grown_len(target_slot),
                    self.data@.len() <= new_len,
                    self.data@.len() >= before.len(),
                    forall|i: int| 0 <= i < before.len() ==> self.data@[i] == before[i],
                    forall|i: int| before.len() <= i < self.data@.len() ==> self.data@[i] is None,
                decreases new_len - self.data.len(),
            {
                self.data.push(None);
            }
            true
        }
    }
}


/// A sequence of indices with distinct slots, none of which is `free`, is shorter than the number
/// of slots there are.
pub proof fn lemma_distinct_slots_bound(s: Seq<SparseIndex>, free: RawSparseIndex)
    requires
        distinct_slots(s),
        !has_slot(s, free),
    ensures
        s.len() <= u32::MAX,
{
    let slots = Seq::new(s.len(), |i: int| s[i].raw.0 as int);
    slots.unique_seq_to_set();
    let all = set_int_range(0, u32::MAX as int + 1);
    lemma_int_range(0, u32::MAX as int + 1);
    let rest = all.remove(free.0 as int);
    lemma_len_subset(slots.to_set(), rest);
}

/// Dense vec indexed by [`SparseIndex`]
///
/// The items lie in a packed array, `spec_values`, beside the packed array of the indices that
/// they were stored under, `spec_indices`: the item at a position belongs to the index at that
/// position. No two indices of the packed array name the same slot. Seen from outside, the set is
/// the map of `view` from indices to items.
#[derive(Debug, Clone)]
pub struct SparseSet<T> {
    /// Maps `SparseIndex` to `DenseIndex`
    to_dense: SparseArray,
    /// Maps `DenseIndex` back to `SparseIndex`
    to_sparse: Vec<SparseIndex>,
    /// Dense, packed array of target data
    data: Vec<T>,
}

impl<T> View for SparseSet<T> {
    type V = Map<SparseIndex, T>;

    open spec fn view(&self) -> Map<SparseIndex, T> {
        packed_map(self.spec_indices(), self.spec_values())
    }
}

impl<T> Default for SparseSet<T> {
    fn default() -> (r: Self)
        ensures
            r.wf(),
            r.spec_indices() == Seq::<SparseIndex>::empty(),
            r.spec_values() == Seq::<T>::empty(),
    {
        SparseSet { to_dense: SparseArray::new(), to_sparse: Vec::new(), data: Vec::new() }
    }
}

impl<T> SparseSet<T> {
    /// The indices in packed order.
    pub closed spec fn spec_indices(&self) -> Seq<SparseIndex> {
        self.to_sparse@
    }

    /// The items in packed order.
    pub closed spec fn spec_values(&self) -> Seq<T> {
        self.data@
    }

    /// The sparse array, by slot.
    pub closed spec fn spec_links(&self) -> Seq<Option<DenseIndex>> {
        self.to_dense@
    }

    /// The sparse array and the packed array of indices point at each other.
    pub closed spec fn links_ok(&self) -> bool {
        &&& self.to_dense@.len() <= u32::MAX + 1
        &&& forall|i: int|
            0 <= i < self.to_sparse@.len() ==> {
                &&& (#[trigger] self.to_dense.link(self.to_sparse@[i].raw)) is Some
                &&& self.to_dense.link(self.to_sparse@[i].raw).unwrap().raw.0 == i
                &&& self.to_dense.link(self.to_sparse@[i].raw).unwrap().gen == self.to_sparse@[i].gen
            }
        &&& forall|slot: RawSparseIndex|
            (#[trigger] self.to_dense.link(slot)) is Some ==> {
                &&& self.to_dense.link(slot).unwrap().raw.0 < self.to_sparse@.len()
                &&& self.to_sparse@[self.to_dense.link(slot).unwrap().raw.0 as int].raw == slot
            }
    }

    /// The invariant of the set.
    pub open spec fn wf(&self) -> bool {
        &&& self.spec_indices().len() == self.spec_values().len()
        &&& distinct_slots(self.spec_indices())
        &&& self.links_ok()
    }

    /// The sparse array and the packed arrays fit together as [`parts_wf`] says.
    pub proof fn lemma_links(&self)
        requires
            self.wf(),
        ensures
            parts_wf(self.spec_links(), self.spec_indices(), self.spec_values().len()),
    {
        assert forall|i: int| 0 <= i < self.spec_indices().len() implies {
            &&& (#[trigger] self.spec_indices()[i]).raw.0 < self.spec_links().len()
            &&& self.spec_links()[self.spec_indices()[i].raw.0 as int] is Some
            &&& self.spec_links()[self.spec_indices()[i].raw.0 as int].unwrap().raw.0 == i
            &&& self.spec_links()[self.spec_indices()[i].raw.0 as int].unwrap().gen
                == self.spec_indices()[i].gen
        } by {
            assert(self.to_dense.link(self.to_sparse@[i].raw) is Some);
        }
        assert forall|s: int|
            0 <= s < self.spec_links().len() && (#[trigger] self.spec_links()[s]) is Some implies {
            &&& self.spec_links()[s].unwrap().raw.0 < self.spec_indices().len()
            &&& self.spec_indices()[self.spec_links()[s].unwrap().raw.0 as int].raw.0 == s
        } by {
            let slot = RawSparseIndex(s as u32);
            assert(self.to_dense.link(slot) is Some);
        }
    }

    #[inline]
    pub fn len(&self) -> (r: usize)
        ensures
            r == self.spec_values().len(),
    {
        self.data.len()
    }

    pub fn contains(&self, sparse: SparseIndex) -> (r: bool)
        requires
            self.wf(),
        ensures
            r == self.spec_indices().contains(sparse),
            r == self@.contains_key(sparse),
    {
        let dense = match self.to_dense.get(sparse) {
            Some(dense) => dense,
            _ => return false,
        };
        dense.gen == sparse.gen
    }

    pub fn get(&self, sparse: SparseIndex) -> (r: Option<&T>)
        requires
            self.wf(),
        ensures
            match r {
                Some(v) => self@.contains_key(sparse) && *v == self@[sparse],
                None => !self@.contains_key(sparse),
            },
    {
        let dense = self.to_dense.get(sparse)?;
        if dense.gen == sparse.gen {
            Some(&self.data[dense.to_usize()])
        } else {
            None
        }
    }

    pub fn get_mut(&mut self, sparse: SparseIndex) -> (r: Option<&mut T>)
        requires
            old(self).wf(),
        ensures
            final(self).wf(),
            final(self).spec_indices() == old(self).spec_indices(),
            match r {
                Some(v) => {
                    &&& old(self)@.contains_key(sparse)
                    &&& *v == old(self)@[sparse]
                    &&& final(self).spec_values() == old(self).spec_values().update(
                        old(self).spec_indices().index_of(sparse),
                        *final(v),
                    )
                },
                None => {
                    &&& !old(self)@.contains_key(sparse)
                    &&& final(self).spec_values() == old(self).spec_values()
                },
            },
    {
        let dense = self.to_dense.get(sparse)?;
        if dense.gen == sparse.gen {
            Some(&mut self.data[dense.to_usize()])
        } else {
            None
        }
    }

    /// The items of two different indices, to be changed in their places.
    pub fn get2_mut(&mut self, a: SparseIndex, b: SparseIndex) -> (r: Option<(&mut T, &mut T)>)
        requires
            old(self).wf(),
            a != b,
        ensures
            final(self).wf(),
            final(self).spec_indices() == old(self).spec_indices(),
            match r {
                Some((x, y)) => {
                    &&& old(self)@.contains_key(a)
                    &&& old(self)@.contains_key(b)
                    &&& *x == old(self)@[a]
                    &&& *y == old(self)@[b]
                    &&& final(self).spec_values() == old(self).spec_values().update(
                        old(self).spec_indices().index_of(a),
                        *final(x),
                    ).update(old(self).spec_indices().index_of(b), *final(y))
                },
                None => {
                    &&& !(old(self)@.contains_key(a) && old(self)@.contains_key(b))
                    &&& final(self).spec_values() == old(self).spec_values()
                },
            },
    {
        let i = match self.to_dense.get(a) {
            Some(dense) => if dense.gen == a.gen {
                dense.to_usize()
            } else {
                return None;
            },
            None => return None,
        };
        let j = match self.to_dense.get(b) {
            Some(dense) => if dense.gen == b.gen {
                dense.to_usize()
            } else {
                return None;
            },
            None => return None,
        };
        let data = self.data.as_mut_slice();
        if i < j {
            let (lo, hi) = data.split_at_mut(j);
            let x = &mut lo[i];
            let y = &mut hi[0];
            Some((x, y))
        } else {
            let (lo, hi) = data.split_at_mut(i);
            let y = &mut lo[j];
            let x = &mut hi[0];
            Some((x, y))
        }
    }

    pub fn as_slice(&self) -> (r: &[T])
        ensures
            r@ == self.spec_values(),
    {
        self.data.as_slice()
    }

    pub fn as_mut_slice(&mut self) -> (r: &mut [T])
        requires
            old(self).wf(),
        ensures
            r@ == old(self).spec_values(),
            final(self).spec_values() == final(r)@,
            final(self).spec_indices() == old(self).spec_indices(),
            final(self).spec_links() == old(self).spec_links(),
            final(r)@.len() == r@.len() ==> final(self).wf(),
    {
        self.data.as_mut_slice()
    }

    pub fn indices(&self) -> (r: &[SparseIndex])
        ensures
            r@ == self.spec_indices(),
    {
        self.to_sparse.as_slice()
    }

    pub fn as_slice_with_indices(&self) -> (r: (&[SparseIndex], &[T]))
        ensures
            r.0@ == self.spec_indices(),
            r.1@ == self.spec_values(),
    {
        (self.to_sparse.as_slice(), self.data.as_slice())
    }

    pub fn as_mut_slice_with_indices(&mut self) -> (r: (&[SparseIndex], &mut [T]))
        requires
            old(self).wf(),
        ensures
            r.0@ == old(self).spec_indices(),
            r.1@ == old(self).spec_values(),
            final(self).spec_values() == final(r.1)@,
            final(self).spec_indices() == old(self).spec_indices(),
            final(self).spec_links() == old(self).spec_links(),
            final(r.1)@.len() == r.1@.len() ==> final(self).wf(),
    {
        (self.to_sparse.as_slice(), self.data.as_mut_slice())
    }

    pub fn iter(&self) -> (r: std::slice::Iter<'_, T>)
        ensures
            r.remaining() == self.spec_values().as_ref(),
            IteratorSpec::decrease(&r) is Some,
            IteratorSpec::initial_value_relation(&r, &r),
    {
        let slice = self.data.as_slice();
        slice.iter()
    }

    /// The indices and the items, pair by pair, in packed order.
    pub fn iter_with_index(&self) -> (r: Vec<(&SparseIndex, &T)>)
        requires
            self.wf(),
        ensures
            r@.len() == self.spec_indices().len(),
            forall|i: int|
                0 <= i < r@.len() ==> *(#[trigger] r@[i]).0 == self.spec_indices()[i] && *r@[i].1
                    == self.spec_values()[i],
    {
        let mut out: Vec<(&SparseIndex, &T)> = Vec::new();
        let mut i: usize = 0;
        while i < self.to_sparse.len()
            invariant
                self.to_sparse@.len() == self.data@.len(),
                i <= self.to_sparse@.len(),
                out@.len() == i,
                forall|j: int|
                    0 <= j < i ==> *(#[trigger] out@[j]).0 == self.to_sparse@[j] && *out@[j].1
                        == self.data@[j],
            decreases self.to_sparse@.len() - i,
        {
            out.push((&self.to_sparse[i], &self.data[i]));
            i += 1;
        }
        out
    }

    pub fn get_with_index(&self, sparse: SparseIndex) -> (r: Option<(&SparseIndex, &T)>)
        requires
            self.wf(),
        ensures
            match r {
                Some((index, v)) => self@.contains_key(sparse) && *index == sparse && *v
                    == self@[sparse],
                None => !self@.contains_key(sparse),
            },
    {
        let dense = self.to_dense.get(sparse)?;
        if dense.gen == sparse.gen {
            Some((&self.to_sparse[dense.to_usize()], &self.data[dense.to_usize()]))
        } else {
            None
        }
    }

    pub fn get_with_index_mut(&mut self, sparse: SparseIndex) -> (r: Option<(&SparseIndex, &mut T)>)
        requires
            old(self).wf(),
        ensures
            final(self).wf(),
            final(self).spec_indices() == old(self).spec_indices(),
            match r {
                Some((index, v)) => {
                    &&& old(self)@.contains_key(sparse)
                    &&& *index == sparse
                    &&& *v == old(self)@[sparse]
                    &&& final(self).spec_values() == old(self).spec_values().update(
                        old(self).spec_indices().index_of(sparse),
                        *final(v),
                    )
                },
                None => {
                    &&& !old(self)@.contains_key(sparse)
                    &&& final(self).spec_values() == old(self).spec_values()
                },
            },
    {
        let dense = self.to_dense.get(sparse)?;
        if dense.gen == sparse.gen {
            Some((&self.to_sparse[dense.to_usize()], &mut self.data[dense.to_usize()]))
        } else {
            None
        }
    }

    /// The sparse array, the packed indices and the packed items.
    pub fn parts(&self) -> (r: (&[Option<DenseIndex>], &[SparseIndex], &[T]))
        ensures
            r.0@ == self.spec_links(),
            r.1@ == self.spec_indices(),
            r.2@ == self.spec_values(),
    {
        (self.to_dense.data.as_slice(), self.to_sparse.as_slice(), self.data.as_slice())
    }

    pub fn parts_mut(&mut self) -> (r: (&[Option<DenseIndex>], &[SparseIndex], &mut [T]))
        requires
            old(self).wf(),
        ensures
            r.0@ == old(self).spec_links(),
            r.1@ == old(self).spec_indices(),
            r.2@ == old(self).spec_values(),
            final(self).spec_values() == final(r.2)@,
            final(self).spec_indices() == old(self).spec_indices(),
            final(self).spec_links() == old(self).spec_links(),
            final(r.2)@.len() == r.2@.len() ==> final(self).wf(),
    {
        (self.to_dense.data.as_slice(), self.to_sparse.as_slice(), self.data.as_mut_slice())
    }

    /// Returns old item if it's present
    ///
    /// The item takes the place of the item that the slot of `sparse` held, which was stored
    /// under the same generation or an earlier one: the generation of a slot never falls. A
    /// slot that held nothing gets a new place at the end of the packed arrays.
    pub fn insert(&mut self, sparse: SparseIndex, data: T) -> (r: Option<T>)
        requires
            old(self).wf(),
            sparse.raw.0 < usize::MAX,
            not_older(old(self).spec_indices(), sparse),
        ensures
            final(self).wf(),
            match r {
                Some(old_item) => {
                    let i = slot_position(old(self).spec_indices(), sparse.raw);
                    &&& has_slot(old(self).spec_indices(), sparse.raw)
                    &&& old_item == old(self).spec_values()[i]
                    &&& final(self).spec_indices() == old(self).spec_indices().update(i, sparse)
                    &&& final(self).spec_values() == old(self).spec_values().update(i, data)
                },
                None => {
                    &&& !has_slot(old(self).spec_indices(), sparse.raw)
                    &&& final(self).spec_indices() == old(self).spec_indices().push(sparse)
                    &&& final(self).spec_values() == old(self).spec_values().push(data)
                },
            },
            final(self)@ == old(self)@.remove_keys(
                Set::new(|k: SparseIndex| k.raw == sparse.raw),
            ).insert(sparse, data),
            final(self).spec_links().len() == if old(self).spec_links().len() <= sparse.raw.0 {
                grown_len(sparse.raw.0 as usize)
            } else {
                old(self).spec_links().len() as int
            },
    {
        let ghost before = *self;
        match self.to_dense.get_or_alloc_mut(sparse) {
            Some(dense) => {
                // overwrite the existing slots
                dense.gen = sparse.gen;
                let i = dense.to_usize();
                self.data.push(data);
                let old_item = self.data.swap_remove(i);
                self.to_sparse[i] = sparse;
                proof {
                    lemma_view_updated(before.to_sparse@, before.data@, i as int, sparse, data);
                }
                Some(old_item)
            },
            None => {
                proof {
                    lemma_distinct_slots_bound(self.to_sparse@, sparse.raw);
                }
                let pos = RawDenseIndex::from_usize(self.data.len());
                self.to_dense.set(sparse.to_usize(), DenseIndex { raw: pos, gen: sparse.gen });
                self.data.push(data);
                self.to_sparse.push(sparse);
                proof {
                    assert(self.links_ok()) by {
                        assert forall|j: int| 0 <= j < self.to_sparse@.len() implies {
                            &&& (#[trigger] self.to_dense.link(self.to_sparse@[j].raw)) is Some
                            &&& self.to_dense.link(self.to_sparse@[j].raw).unwrap().raw.0 == j
                            &&& self.to_dense.link(self.to_sparse@[j].raw).unwrap().gen
                                == self.to_sparse@[j].gen
                        } by {
                            if j < before.to_sparse@.len() {
                                assert(before.to_dense.link(before.to_sparse@[j].raw) is Some);
                            }
                        }
                        assert forall|slot: RawSparseIndex|
                            (#[trigger] self.to_dense.link(slot)) is Some implies {
                            &&& self.to_dense.link(slot).unwrap().raw.0 < self.to_sparse@.len()
                            &&& self.to_sparse@[self.to_dense.link(slot).unwrap().raw.0 as int].raw
                                == slot
                        } by {
                            if slot != sparse.raw {
                                assert(before.to_dense.link(slot) is Some);
                            }
                        }
                    }
                    lemma_view_pushed(before.to_sparse@, before.data@, sparse, data);
                }
                None
            },
        }
    }

    /// Takes the item of `sparse` out, and moves the last item of the packed arrays into its
    /// place. An index that is not in the set, a stale one too, changes nothing.
    pub fn swap_remove(&mut self, sparse: SparseIndex) -> (r: Option<T>)
        requires
            old(self).wf(),
        ensures
            final(self).wf(),
            match r {
                Some(item) => {
                    let i = old(self).spec_indices().index_of(sparse);
                    &&& old(self).spec_indices().contains(sparse)
                    &&& item == old(self).spec_values()[i]
                    &&& final(self).spec_indices() == swap_removed(old(self).spec_indices(), i)
                    &&& final(self).spec_values() == swap_removed(old(self).spec_values(), i)
                },
                None => {
                    &&& !old(self).spec_indices().contains(sparse)
                    &&& final(self).spec_indices() == old(self).spec_indices()
                    &&& final(self).spec_values() == old(self).spec_values()
                },
            },
            r == old(self)@.get(sparse),
            final(self)@ == old(self)@.remove(sparse),
    {
        let ghost before = *self;
        let dense = match self.to_dense.get(sparse) {
            Some(dense) => dense,
            None => {
                return None;
            },
        };
        if dense.gen != sparse.gen {
            return None;
        }
        let i = dense.to_usize();
        self.to_dense.remove(sparse);
        let removal = self.data.swap_remove(i);
        self.to_sparse.swap_remove(i);

        // if we swap the last item with the hole
        if i < self.to_sparse.len() {
            let swapped_sparse = self.to_sparse[i];
            proof {
                let last = before.to_sparse@.len() - 1;
                assert(before.to_dense.link(before.to_sparse@[last].raw) is Some);
            }
            // update the sparse-dense map to the swapped item
            self.to_dense.set(
                swapped_sparse.to_usize(),
                DenseIndex { raw: dense.raw, gen: swapped_sparse.gen },
            );
        }
        proof {
            let last = before.to_sparse@.len() - 1;
            assert(self.links_ok()) by {
                assert forall|j: int| 0 <= j < self.to_sparse@.len() implies {
                    &&& (#[trigger] self.to_dense.link(self.to_sparse@[j].raw)) is Some
                    &&& self.to_dense.link(self.to_sparse@[j].raw).unwrap().raw.0 == j
                    &&& self.to_dense.link(self.to_sparse@[j].raw).unwrap().gen
                        == self.to_sparse@[j].gen
                } by {
                    if j != i {
                        assert(before.to_dense.link(before.to_sparse@[j].raw) is Some);
                    }
                }
                assert forall|slot: RawSparseIndex|
                    (#[trigger] self.to_dense.link(slot)) is Some implies {
                    &&& self.to_dense.link(slot).unwrap().raw.0 < self.to_sparse@.len()
                    &&& self.to_sparse@[self.to_dense.link(slot).unwrap().raw.0 as int].raw == slot
                } by {
                    if !(i < self.to_sparse@.len() && slot == before.to_sparse@[last].raw) {
                        assert(before.to_dense.link(slot) is Some);
                    }
                }
            }
            lemma_view_swap_removed(before.to_sparse@, before.data@, i as int);
        }
        Some(removal)
    }
}

/// The map that the packed arrays `keys` and `items` stand for.
pub open spec fn packed_map<T>(keys: Seq<SparseIndex>, items: Seq<T>) -> Map<SparseIndex, T> {
    Map::new(|k: SparseIndex| keys.contains(k), |k: SparseIndex| items[keys.index_of(k)])
}

proof fn lemma_view_updated<T>(
    keys: Seq<SparseIndex>,
    items: Seq<T>,
    i: int,
    sparse: SparseIndex,
    data: T,
)
    requires
        keys.len() == items.len(),
        distinct_slots(keys),
        0 <= i < keys.len(),
        keys[i].raw == sparse.raw,
    ensures
        packed_map(keys.update(i, sparse), items.update(i, data)) == packed_map(
            keys,
            items,
        ).remove_keys(Set::new(|k: SparseIndex| k.raw == sparse.raw)).insert(sparse, data),
{
    let keys2 = keys.update(i, sparse);
    let items2 = items.update(i, data);
    let m1 = packed_map(keys2, items2);
    let m2 = packed_map(keys, items).remove_keys(
        Set::new(|k: SparseIndex| k.raw == sparse.raw),
    ).insert(sparse, data);
    assert(keys2[i] == sparse);
    assert forall|k: SparseIndex| m1.contains_key(k) == m2.contains_key(k) by {
        if k != sparse && keys.contains(k) && k.raw != sparse.raw {
            let j = keys.index_of(k);
            assert(keys2[j] == k);
        }
    }
}

proof fn lemma_view_pushed<T>(keys: Seq<SparseIndex>, items: Seq<T>, sparse: SparseIndex, data: T)
    requires
        keys.len() == items.len(),
        distinct_slots(keys),
        !has_slot(keys, sparse.raw),
    ensures
        packed_map(keys.push(sparse), items.push(data)) == packed_map(keys, items).remove_keys(
            Set::new(|k: SparseIndex| k.raw == sparse.raw),
        ).insert(sparse, data),
{
    let keys2 = keys.push(sparse);
    let items2 = items.push(data);
    let m1 = packed_map(keys2, items2);
    let m2 = packed_map(keys, items).remove_keys(
        Set::new(|k: SparseIndex| k.raw == sparse.raw),
    ).insert(sparse, data);
    assert(keys2[keys.len() as int] == sparse);
    assert forall|k: SparseIndex| m1.contains_key(k) == m2.contains_key(k) by {
        if keys.contains(k) {
            let j = keys.index_of(k);
            assert(keys2[j] == k);
        }
    }
}

/// Swap-remove invariant: where the index at a place of the packed arrays is taken out by
/// swap-removal, the set holds one item less, the index is not in it, and every other index
/// is in it as before, with the item that it had.
pub proof fn lemma_view_swap_removed<T>(keys: Seq<SparseIndex>, items: Seq<T>, i: int)
    requires
        keys.len() == items.len(),
        distinct_slots(keys),
        0 <= i < keys.len(),
    ensures
        swap_removed(keys, i).len() == keys.len() - 1,
        swap_removed(items, i).len() == items.len() - 1,
        distinct_slots(swap_removed(keys, i)),
        packed_map(swap_removed(keys, i), swap_removed(items, i)) == packed_map(keys, items).remove(
            keys[i],
        ),
        !packed_map(swap_removed(keys, i), swap_removed(items, i)).contains_key(keys[i]),
        forall|k: SparseIndex|
            k != keys[i] && #[trigger] packed_map(keys, items).contains_key(k) ==> {
                &&& packed_map(swap_removed(keys, i), swap_removed(items, i)).contains_key(k)
                &&& packed_map(swap_removed(keys, i), swap_removed(items, i))[k] == packed_map(
                    keys,
                    items,
                )[k]
            },
{
    let keys2 = swap_removed(keys, i);
    let items2 = swap_removed(items, i);
    let last = keys.len() - 1;
    let m1 = packed_map(keys2, items2);
    let m2 = packed_map(keys, items).remove(keys[i]);
    assert forall|k: SparseIndex| m1.contains_key(k) == m2.contains_key(k) by {
        if keys.contains(k) && k != keys[i] {
            let j = keys.index_of(k);
            let j2 = if j == last { i } else { j };
            assert(keys2[j2] == k);
        }
    }
}

} // verus!
