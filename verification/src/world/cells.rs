//! Cells: type-erased values behind borrows that are checked at run time
//!
//! The pools of components and the resources are kept by the identifier of their type, each
//! in a cell that counts its borrows. The map, the cells and the narrowing of a type-erased
//! value to its type are not verified: this module states what the rest of the library relies
//! on.

use atomic_refcell::{AtomicRef, AtomicRefCell, AtomicRefMut};
use downcast_rs::Downcast;
use rustc_hash::FxHashMap;
use std::any::TypeId;
use vstd::prelude::*;

verus! {

/// `atomic_refcell::AtomicRef`: a shared borrow of what an `AtomicRefCell` holds, given back when
/// it is dropped.
#[verifier::external_type_specification]
#[verifier::external_body]
#[verifier::reject_recursive_types(T)]
pub struct ExAtomicRef<'b, T: ?Sized>(AtomicRef<'b, T>);

/// `atomic_refcell::AtomicRefMut`: the exclusive borrow of what an `AtomicRefCell` holds, given
/// back when it is dropped.
#[verifier::external_type_specification]
#[verifier::external_body]
#[verifier::reject_recursive_types(T)]
pub struct ExAtomicRefMut<'b, T: ?Sized + 'b>(AtomicRefMut<'b, T>);

/// `std::any::TypeId::of`: the identifier of a type. Nothing is stated of it here; that two
/// calls for one type agree is not known to the verifier.
pub assume_specification<T: ?Sized + 'static>[ TypeId::of::<T> ]() -> (r: TypeId);

/// The cells, by the identifier of a type: an `FxHashMap` of `rustc_hash` that holds each value
/// in an `AtomicRefCell` of `atomic_refcell`, behind a `Box<dyn Downcast>` of `downcast_rs`.
#[verifier::external_body]
pub struct Cells {
    pub(crate) map: FxHashMap<TypeId, AtomicRefCell<Box<dyn Downcast>>>,
}

/// The identifiers under which the cells hold a value.
pub uninterp spec fn cell_keys(cells: Cells) -> Set<TypeId>;

/// What a search for a value and a borrow of it came to.
pub enum Lookup<B> {
    /// No cell is held for the identifier.
    Missing,
    /// The cell refused the borrow: it is lent out in a way that excludes this one.
    Busy,
    /// The cell holds a value of another type.
    Mismatch,
    /// The borrow.
    Found(B),
}

/// Calls `FxHashMap::default`: the cells hold nothing.
#[verifier::external_body]
pub(crate) fn cells_new() -> (r: Cells)
    ensures
        cell_keys(r) == Set::<TypeId>::empty(),
{
    Cells { map: FxHashMap::default() }
}

/// Calls `HashMap::contains_key`.
#[verifier::external_body]
pub(crate) fn cells_contains(cells: &Cells, ty: TypeId) -> (r: bool)
    ensures
        r == cell_keys(*cells).contains(ty),
{
    cells.map.contains_key(&ty)
}

/// Calls `HashMap::insert` with a new `AtomicRefCell` that holds the value: afterwards a cell
/// is held for `ty`. A cell that was held for `ty` before is dropped with what it holds.
#[verifier::external_body]
pub(crate) fn cells_insert_new<S: 'static>(cells: &mut Cells, ty: TypeId, value: S)
    ensures
        cell_keys(*final(cells)) == cell_keys(*old(cells)).insert(ty),
{
    cells.map.insert(ty, AtomicRefCell::new(Box::new(value)));
}

/// Calls `HashMap::get_mut`, then `AtomicRefCell::try_borrow_mut` on the cell that was found,
/// to see whether a borrow of it is out, then `AtomicRefCell::get_mut` and `downcast_mut`: the
/// value that is held for `ty`, if one is held, no borrow of it is out and it is of the type
/// `S`. A borrow can be out under exclusive access to the cells only where it was leaked. The
/// same cells are held afterwards, and where no value is handed out nothing has changed.
#[verifier::external_body]
pub(crate) fn cells_get_mut<'a, S: 'static>(cells: &'a mut Cells, ty: TypeId) -> (r: Lookup<
    &'a mut S,
>)
    ensures
        cell_keys(*final(cells)) == cell_keys(*old(cells)),
        r is Missing <==> !cell_keys(*old(cells)).contains(ty),
        !(r is Found) ==> *final(cells) == *old(cells),
{
    let cell = match cells.map.get_mut(&ty) {
        Some(cell) => cell,
        None => return Lookup::Missing,
    };
    if cell.try_borrow_mut().is_err() {
        return Lookup::Busy;
    }
    match (**cell.get_mut()).as_any_mut().downcast_mut::<S>() {
        Some(value) => Lookup::Found(value),
        None => Lookup::Mismatch,
    }
}

/// Calls `HashMap::remove`: afterwards no cell is held for `ty`. Where a cell was held and no
/// borrow of it is out, which `AtomicRefCell::try_borrow_mut` tells, `AtomicRefCell::into_inner`
/// and `Box::downcast` take its value out; the value is returned if it is of the type `S`.
#[verifier::external_body]
pub(crate) fn cells_remove<S: 'static>(cells: &mut Cells, ty: TypeId) -> (r: Option<S>)
    ensures
        cell_keys(*final(cells)) == cell_keys(*old(cells)).remove(ty),
        r is Some ==> cell_keys(*old(cells)).contains(ty),
{
    let old_cell = cells.map.remove(&ty)?;
    if old_cell.try_borrow_mut().is_err() {
        return None;
    }
    match old_cell.into_inner().into_any().downcast::<S>() {
        Ok(old_value) => Some(*old_value),
        Err(_) => None,
    }
}

/// Calls `HashMap::get`, `AtomicRefCell::try_borrow` on the cell that was found, and
/// `AtomicRef::filter_map` with `downcast_ref` on the borrow. Whether the cell lends its value
/// depends on the borrows that are out, of which nothing is known here. `try_borrow` panics
/// where as many shared borrows are out as half of what a `usize` can count.
#[verifier::external_body]
pub(crate) fn cells_borrow<'a, S: 'static>(cells: &'a Cells, ty: TypeId) -> (r: Lookup<
    AtomicRef<'a, S>,
>)
    ensures
        r is Missing <==> !cell_keys(*cells).contains(ty),
{
    match cells.map.get(&ty) {
        None => Lookup::Missing,
        Some(cell) => match cell.try_borrow() {
            Err(_) => Lookup::Busy,
            Ok(inner) => match AtomicRef::filter_map(inner, |x| (**x).as_any().downcast_ref::<S>()) {
                Some(borrow) => Lookup::Found(borrow),
                None => Lookup::Mismatch,
            },
        },
    }
}

/// Calls `HashMap::get`, `AtomicRefCell::try_borrow_mut` on the cell that was found, and
/// `AtomicRefMut::filter_map` with `downcast_mut` on the borrow. Whether the cell lends its
/// value depends on the borrows that are out, of which nothing is known here.
#[verifier::external_body]
pub(crate) fn cells_borrow_mut<'a, S: 'static>(cells: &'a Cells, ty: TypeId) -> (r: Lookup<
    AtomicRefMut<'a, S>,
>)
    ensures
        r is Missing <==> !cell_keys(*cells).contains(ty),
{
    match cells.map.get(&ty) {
        None => Lookup::Missing,
        Some(cell) => match cell.try_borrow_mut() {
            Err(_) => Lookup::Busy,
            Ok(inner) => match AtomicRefMut::filter_map(
                inner,
                |x| (**x).as_any_mut().downcast_mut::<S>(),
            ) {
                Some(borrow) => Lookup::Found(borrow),
                None => Lookup::Mismatch,
            },
        },
    }
}

} // verus!
