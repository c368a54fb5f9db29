//! Resources: virtually `World` fields backed by an anymap

use crate::world::cells::{
    cell_keys, cells_borrow, cells_borrow_mut, cells_contains, cells_get_mut, cells_insert_new,
    cells_new, cells_remove, Cells, Lookup,
};
use atomic_refcell::{AtomicRef, AtomicRefMut};
use std::any::TypeId;
use vstd::prelude::*;

verus! {

/// Type boundary for resource types
pub trait Resource: 'static {

}

impl<T: 'static> Resource for T {

}

/// Resource fetch error type
#[derive(Debug)]
pub enum BorrowError {
    /// No resource of the type is set, which the identifier names.
    NotFound(TypeId),
    /// The resource is lent out in a way that excludes the borrow.
    AlreadyBorrowed(TypeId),
    /// A value of another type is set under the identifier.
    WrongType(TypeId),
}

/// The result of a borrow of the resource under `ty`, for what the search for it came to.
pub fn borrowed<B>(found: Lookup<B>, ty: TypeId) -> (r: Result<B, BorrowError>)
    ensures
        r == match found {
            Lookup::Missing => Err::<B, BorrowError>(BorrowError::NotFound(ty)),
            Lookup::Busy => Err(BorrowError::AlreadyBorrowed(ty)),
            Lookup::Mismatch => Err(BorrowError::WrongType(ty)),
            Lookup::Found(borrow) => Ok(borrow),
        },
{
    match found {
        Lookup::Missing => Err(BorrowError::NotFound(ty)),
        Lookup::Busy => Err(BorrowError::AlreadyBorrowed(ty)),
        Lookup::Mismatch => Err(BorrowError::WrongType(ty)),
        Lookup::Found(borrow) => Ok(borrow),
    }
}

/// Whether `e` can be the error of a borrow of the resource under `ty`, of which `present` are
/// set: an identifier under which nothing is set gives `NotFound` and nothing else, and no
/// other gives it.
pub open spec fn borrow_error(present: Set<TypeId>, ty: TypeId, e: BorrowError) -> bool {
    match e {
        BorrowError::NotFound(t) => t == ty && !present.contains(ty),
        BorrowError::AlreadyBorrowed(t) => t == ty && present.contains(ty),
        BorrowError::WrongType(t) => t == ty && present.contains(ty),
    }
}

/// Whether `r` can be the result of a borrow of the resource under `ty`.
pub open spec fn borrow_result<B>(present: Set<TypeId>, ty: TypeId, r: Result<B, BorrowError>) -> bool {
    match r {
        Ok(_) => present.contains(ty),
        Err(e) => borrow_error(present, ty, e),
    }
}

/// Dynamic fields of a `World` backed by an anymap
///
/// It holds at most one value of each type, each in a cell of its own that checks its borrows
/// at run time.
pub struct ResourceMap {
    cells: Cells,
}

impl Default for ResourceMap {
    fn default() -> (r: Self)
        ensures
            r.present() == Set::<TypeId>::empty(),
    {
        ResourceMap { cells: cells_new() }
    }
}

impl ResourceMap {
    /// The identifiers of the types of which a resource is set.
    pub closed spec fn present(&self) -> Set<TypeId> {
        cell_keys(self.cells)
    }

    /// Sets the resource of type `T`. Returns the resource of that type that was set before.
    pub fn insert<T: Resource>(&mut self, x: T) -> (r: Option<T>)
        ensures
            exists|ty: TypeId|
                {
                    &&& final(self).present() == old(self).present().insert(ty)
                    &&& r is Some ==> old(self).present().contains(ty)
                },
    {
        let ty = TypeId::of::<T>();
        let r = self.insert_raw(ty, x);
        r
    }

    /// Sets the resource under the identifier `ty`, which is that of `T`. Returns the resource
    /// of type `T` that was set under it before. What was set under it and cannot be had, a
    /// value of another type or one whose borrow was leaked, is dropped.
    pub fn insert_raw<T: Resource>(&mut self, ty: TypeId, x: T) -> (r: Option<T>)
        ensures
            final(self).present() == old(self).present().insert(ty),
            r is Some ==> old(self).present().contains(ty),
    {
        let mut x = x;
        match cells_get_mut::<T>(&mut self.cells, ty) {
            Lookup::Found(slot) => {
                std::mem::swap(slot, &mut x);
                assert(self.present().insert(ty) =~= self.present());
                Some(x)
            },
            _ => {
                cells_insert_new(&mut self.cells, ty, x);
                None
            },
        }
    }

    /// Takes the resource of type `T` out.
    pub fn remove<T: Resource>(&mut self) -> (r: Option<T>)
        ensures
            exists|ty: TypeId|
                {
                    &&& final(self).present() == old(self).present().remove(ty)
                    &&& r is Some ==> old(self).present().contains(ty)
                },
    {
        let ty = TypeId::of::<T>();
        let r = self.remove_raw::<T>(ty);
        r
    }

    /// Takes the resource out that is set under the identifier `ty`, which is that of `T`.
    pub fn remove_raw<T: Resource>(&mut self, ty: TypeId) -> (r: Option<T>)
        ensures
            final(self).present() == old(self).present().remove(ty),
            r is Some ==> old(self).present().contains(ty),
    {
        cells_remove::<T>(&mut self.cells, ty)
    }

    /// Whether a resource of type `T` is set.
    pub fn contains<T: Resource>(&self) -> (r: bool)
        ensures
            exists|ty: TypeId| r == self.present().contains(ty),
    {
        let ty = TypeId::of::<T>();
        let r = self.contains_raw(ty);
        r
    }

    /// Whether a resource is set under the identifier.
    pub fn contains_raw(&self, ty: TypeId) -> (r: bool)
        ensures
            r == self.present().contains(ty),
    {
        cells_contains(&self.cells, ty)
    }

    /// Tries to get an immutable access to a resource
    pub fn try_borrow<T: Resource>(&self) -> (r: Result<Res<'_, T>, BorrowError>)
        ensures
            exists|ty: TypeId| borrow_result(self.present(), ty, r),
    {
        let ty = TypeId::of::<T>();
        let r = self.try_borrow_raw::<T>(ty);
        r
    }

    /// Tries to get an immutable access to the resource that is set under `ty`.
    ///
    /// The borrow fails with `NotFound` exactly where nothing is set under `ty`; where a
    /// resource is set, its cell decides whether it lends the resource.
    pub fn try_borrow_raw<T: Resource>(&self, ty: TypeId) -> (r: Result<Res<'_, T>, BorrowError>)
        ensures
            borrow_result(self.present(), ty, r),
    {
        match borrowed(cells_borrow::<T>(&self.cells, ty), ty) {
            Ok(borrow) => Ok(Res { borrow }),
            Err(e) => Err(e),
        }
    }

    /// Tries to get a mutable access to a resource
    pub fn try_borrow_mut<T: Resource>(&self) -> (r: Result<ResMut<'_, T>, BorrowError>)
        ensures
            exists|ty: TypeId| borrow_result(self.present(), ty, r),
    {
        let ty = TypeId::of::<T>();
        let r = self.try_borrow_mut_raw::<T>(ty);
        r
    }

    /// Tries to get a mutable access to the resource that is set under `ty`.
    ///
    /// The borrow fails with `NotFound` exactly where nothing is set under `ty`; where a
    /// resource is set, its cell decides whether it lends the resource.
    pub fn try_borrow_mut_raw<T: Resource>(&self, ty: TypeId) -> (r: Result<
        ResMut<'_, T>,
        BorrowError,
    >)
        ensures
            borrow_result(self.present(), ty, r),
    {
        match borrowed(cells_borrow_mut::<T>(&self.cells, ty), ty) {
            Ok(borrow) => Ok(ResMut { borrow }),
            Err(e) => Err(e),
        }
    }
}

/// Immutable access to a resource of type `T`
#[verifier::reject_recursive_types(T)]
pub struct Res<'r, T: 'static> {
    borrow: AtomicRef<'r, T>,
}

impl<'r, T: Resource> Res<'r, T> {
    /// Calls `deref` of `AtomicRef`: the resource that was borrowed.
    #[verifier::external_body]
    pub fn deref(&self) -> (r: &T) {
        &*self.borrow
    }
}

/// Mutable access to a resource of type `T`
#[verifier::reject_recursive_types(T)]
pub struct ResMut<'r, T: 'static> {
    borrow: AtomicRefMut<'r, T>,
}

impl<'r, T: Resource> ResMut<'r, T> {
    /// Calls `deref` of `AtomicRefMut`: the resource that was borrowed.
    #[verifier::external_body]
    pub fn deref(&self) -> (r: &T) {
        &*self.borrow
    }

    /// Calls `deref_mut` of `AtomicRefMut`: the resource that was borrowed.
    #[verifier::external_body]
    pub fn deref_mut(&mut self) -> (r: &mut T) {
        &mut *self.borrow
    }
}

} // verus!
