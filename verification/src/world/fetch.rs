//! Fetch: declared accesses to the world, and whether they can be had together

use crate::world::comp::{Comp, CompMut, Component};
use crate::world::ent::EntityPool;
use crate::world::res::{Res, ResMut, Resource};
use crate::world::World;
use std::any::TypeId;
use vstd::prelude::*;

verus! {

/// `std::any::TypeId`: the identifier of a type. Nothing is known of what is inside it.
#[verifier::external_type_specification]
#[verifier::external_body]
pub struct ExTypeId(TypeId);

/// Calls `==` of `std::any::TypeId`, which holds for two identifiers of one type and for no
/// others.
#[verifier::external_body]
pub(crate) fn same_type(a: TypeId, b: TypeId) -> (r: bool)
    ensures
        r == (a == b),
{
    a == b
}

/// Type-erased declaration of access to the world
#[derive(Debug, Clone, Copy, PartialEq, Eq, Hash)]
pub enum Access {
    Res(TypeId),
    ResMut(TypeId),
    Comp(TypeId),
    CompMut(TypeId),
}

impl Access {
    /// The type that is accessed.
    pub open spec fn ty(self) -> TypeId {
        match self {
            Access::Res(i) => i,
            Access::ResMut(i) => i,
            Access::Comp(i) => i,
            Access::CompMut(i) => i,
        }
    }

    /// Whether the access is to a resource, and not to a component pool.
    pub open spec fn is_res(self) -> bool {
        self is Res || self is ResMut
    }

    /// Whether the access is exclusive.
    pub open spec fn is_write(self) -> bool {
        self is ResMut || self is CompMut
    }

    /// Two accesses conflict if they have the same target and one of them is exclusive.
    pub open spec fn spec_conflicts(self, other: Self) -> bool {
        &&& self.ty() == other.ty()
        &&& self.is_res() == other.is_res()
        &&& self.is_write() || other.is_write()
    }

    pub fn conflicts(self, other: Self) -> (r: bool)
        ensures
            r == self.spec_conflicts(other),
    {
        match (self, other) {
            (Access::Res(i0), Access::ResMut(i1)) => same_type(i0, i1),
            (Access::ResMut(i0), Access::Res(i1)) => same_type(i0, i1),
            (Access::ResMut(i0), Access::ResMut(i1)) => same_type(i0, i1),
            (Access::Comp(i0), Access::CompMut(i1)) => same_type(i0, i1),
            (Access::CompMut(i0), Access::Comp(i1)) => same_type(i0, i1),
            (Access::CompMut(i0), Access::CompMut(i1)) => same_type(i0, i1),
            _ => false,
        }
    }
}

/// Whether an access of `a` conflicts with an access of `b`.
pub open spec fn sets_conflict(a: Seq<Access>, b: Seq<Access>) -> bool {
    exists|i: int, j: int|
        0 <= i < a.len() && 0 <= j < b.len() && (#[trigger] a[i]).spec_conflicts(#[trigger] b[j])
}

/// Whether two accesses at different places of `a` conflict.
pub open spec fn set_self_conflicts(a: Seq<Access>) -> bool {
    exists|i: int, j: int|
        0 <= i < j < a.len() && (#[trigger] a[i]).spec_conflicts(#[trigger] a[j])
}

/// The accesses of all the sets, one set after the other.
pub open spec fn concat_all(sets: Seq<AccessSet>) -> Seq<Access>
    decreases sets.len(),
{
    if sets.len() == 0 {
        Seq::empty()
    } else {
        concat_all(sets.drop_last()) + sets.last()@
    }
}

/// Type-erased [`Access`] es to the world
///
/// An unordered collection, in which an access may occur more than once.
#[derive(Debug, Default, Clone, PartialEq, Eq, Hash)]
pub struct AccessSet(pub Vec<Access>);

impl View for AccessSet {
    type V = Seq<Access>;

    open spec fn view(&self) -> Seq<Access> {
        self.0@
    }
}

/// The set of accesses that a merge found to be conflicting
#[derive(Debug, Default, Clone, PartialEq, Eq, Hash)]
pub struct MergeError(pub AccessSet);

impl AccessSet {
    /// The set without an access.
    pub fn empty() -> (r: Self)
        ensures
            r@ == Seq::<Access>::empty(),
    {
        AccessSet(Vec::new())
    }

    pub fn new(set: Vec<Access>) -> (r: Self)
        ensures
            r@ == set@,
    {
        AccessSet(set)
    }

    /// Checks if the two set of accesses can be got at the same time
    pub fn conflicts(&self, other: &Self) -> (r: bool)
        ensures
            r == sets_conflict(self@, other@),
    {
        let mut i: usize = 0;
        while i < self.0.len()
            invariant
                i <= self@.len(),
                forall|x: int, y: int|
                    0 <= x < i && 0 <= y < other@.len() ==> !(#[trigger] self@[x]).spec_conflicts(
                        #[trigger] other@[y],
                    ),
            decreases self@.len() - i,
        {
            let mut j: usize = 0;
            while j < other.0.len()
                invariant
                    i < self@.len(),
                    j <= other@.len(),
                    forall|y: int|
                        0 <= y < j ==> !self@[i as int].spec_conflicts(#[trigger] other@[y]),
                decreases other@.len() - j,
            {
                if other.0[j].conflicts(self.0[i]) {
                    return true;
                }
                j += 1;
            }
            i += 1;
        }
        false
    }

    /// Whether the set holds two accesses that cannot be got at the same time
    pub fn self_conflict(&self) -> (r: bool)
        ensures
            r == set_self_conflicts(self@),
    {
        if self.0.len() == 0 {
            return false;
        }
        let mut i: usize = 0;
        while i < self.0.len() - 1
            invariant
                self@.len() > 0,
                i <= self@.len() - 1,
                forall|x: int, y: int|
                    0 <= x < i && x < y < self@.len() ==> !(#[trigger] self@[x]).spec_conflicts(
                        #[trigger] self@[y],
                    ),
            decreases self@.len() - i,
        {
            let mut j: usize = i + 1;
            while j < self.0.len()
                invariant
                    i < self@.len() - 1,
                    i < j <= self@.len(),
                    forall|y: int|
                        i < y < j ==> !self@[i as int].spec_conflicts(#[trigger] self@[y]),
                decreases self@.len() - j,
            {
                if self.0[i].conflicts(self.0[j]) {
                    return true;
                }
                j += 1;
            }
            i += 1;
        }
        false
    }

    pub fn single(access: Access) -> (r: Self)
        ensures
            r@ == seq![access],
    {
        let mut set: Vec<Access> = Vec::new();
        set.push(access);
        AccessSet(set)
    }

    /// Sums up two accesses. Returns `Ok` if the merged accesses are not self-conflicting.
    pub fn merge(&self, other: &Self) -> (r: Result<Self, Self>)
        ensures
            match r {
                Ok(set) => set@ == self@ + other@ && !set_self_conflicts(self@ + other@),
                Err(set) => set@ == self@ + other@ && set_self_conflicts(self@ + other@),
            },
    {
        let mut set = AccessSet::empty();
        set.merge_impl(self);
        set.merge_impl(other);
        if !set.self_conflict() {
            Ok(set)
        } else {
            Err(set)
        }
    }

    /// Sums up the accesses of all the sets, one set after the other. Returns `Ok` if the sum
    /// is not self-conflicting, as `merge` does.
    pub fn concat(sets: &[AccessSet]) -> (r: Result<Self, Self>)
        ensures
            match r {
                Ok(set) => set@ == concat_all(sets@) && !set_self_conflicts(concat_all(sets@)),
                Err(set) => set@ == concat_all(sets@) && set_self_conflicts(concat_all(sets@)),
            },
    {
        let mut state = AccessSet::empty();
        let mut k: usize = 0;
        while k < sets.len()
            invariant
                k <= sets@.len(),
                state@ == concat_all(sets@.take(k as int)),
            decreases sets@.len() - k,
        {
            state.merge_impl(&sets[k]);
            proof {
                assert(sets@.take(k + 1).drop_last() =~= sets@.take(k as int));
            }
            k += 1;
        }
        assert(sets@.take(k as int) =~= sets@);
        if !state.self_conflict() {
            Ok(state)
        } else {
            Err(state)
        }
    }

    /// Appends the accesses of `other`.
    pub fn merge_impl(&mut self, other: &Self)
        ensures
            final(self)@ == old(self)@ + other@,
    {
        let mut k: usize = 0;
        while k < other.0.len()
            invariant
                k <= other@.len(),
                self@ == old(self)@ + other@.take(k as int),
            decreases other@.len() - k,
        {
            self.0.push(other.0[k]);
            k += 1;
        }
    }
}

/// Conflict symmetry: whether two sets of accesses conflict does not depend on their order.
pub proof fn lemma_conflicts_symmetric(a: Seq<Access>, b: Seq<Access>)
    ensures
        sets_conflict(a, b) == sets_conflict(b, a),
{
}

/// A set merged with itself conflicts with itself exactly if it holds an exclusive access.
pub proof fn lemma_merged_with_itself(a: Seq<Access>)
    ensures
        set_self_conflicts(a + a) <==> exists|i: int| 0 <= i < a.len() && (#[trigger] a[i]).is_write(),
{
    let d = a + a;
    if exists|i: int| 0 <= i < a.len() && (#[trigger] a[i]).is_write() {
        let i = choose|i: int| 0 <= i < a.len() && (#[trigger] a[i]).is_write();
        assert(d[i] == a[i]);
        assert(d[i + a.len()] == a[i]);
    }
}

/// A set conflicts with itself exactly if two sets, split from it at any place, conflict with
/// each other or one of them with itself.
pub proof fn lemma_self_conflict_of_merge(a: Seq<Access>, b: Seq<Access>)
    ensures
        set_self_conflicts(a + b) <==> set_self_conflicts(a) || set_self_conflicts(b)
            || sets_conflict(a, b),
{
    let d = a + b;
    if set_self_conflicts(a) {
        let (i, j) = choose|i: int, j: int|
            0 <= i < j < a.len() && (#[trigger] a[i]).spec_conflicts(#[trigger] a[j]);
        assert(d[i].spec_conflicts(d[j]));
    }
    if set_self_conflicts(b) {
        let (i, j) = choose|i: int, j: int|
            0 <= i < j < b.len() && (#[trigger] b[i]).spec_conflicts(#[trigger] b[j]);
        assert(d[i + a.len()] == b[i]);
        assert(d[j + a.len()] == b[j]);
    }
    if sets_conflict(a, b) {
        let (i, j) = choose|i: int, j: int|
            0 <= i < a.len() && 0 <= j < b.len() && (#[trigger] a[i]).spec_conflicts(
                #[trigger] b[j],
            );
        assert(d[i].spec_conflicts(d[j + a.len()]));
    }
}

/// Why a fetch from the world failed
#[derive(Debug)]
pub enum FetchError {
    /// A resource could not be borrowed.
    Res(crate::world::res::BorrowError),
    /// A pool of components could not be borrowed.
    Comp(crate::world::comp::BorrowError),
}

/// Types that are dispatched to systems automatically on run
///
/// # Default implementations
///
/// - [`Res<T>`], [`ResMut<T>`]
/// - [`Comp<T>`], [`CompMut<T>`]
/// - `&EntityPool`
/// - tuples of up to four of them
pub trait AutoFetch<'w>: Sized {
    /// Whether `set` can be what the type declares: an access for each handle, of the kind of
    /// the handle, those of a member beside each other.
    spec fn spec_accesses(set: AccessSet) -> bool;

    /// What holds of a world from which the fetch succeeds.
    spec fn spec_fetch_ok(w: World) -> bool;

    /// Whether the fetch from the world can fail with the error.
    spec fn spec_fetch_err(w: World, e: FetchError) -> bool;

    /// Fetches some data from the world
    fn fetch(w: &'w World) -> (r: Result<Self, FetchError>)
        ensures
            match r {
                Ok(_) => Self::spec_fetch_ok(*w),
                Err(e) => Self::spec_fetch_err(*w, e),
            },
    ;

    /// The accesses to the world that the fetch declares
    fn accesses() -> (r: AccessSet)
        ensures
            Self::spec_accesses(r),
    ;
}

impl<'w> AutoFetch<'w> for &'w EntityPool {
    open spec fn spec_accesses(set: AccessSet) -> bool {
        set@.len() == 0
    }

    open spec fn spec_fetch_ok(w: World) -> bool {
        true
    }

    open spec fn spec_fetch_err(w: World, e: FetchError) -> bool {
        false
    }

    fn fetch(w: &'w World) -> (r: Result<Self, FetchError>)
        ensures
            r matches Ok(pool) && *pool == w.ents,
    {
        Ok(&w.ents)
    }

    fn accesses() -> (r: AccessSet) {
        AccessSet::empty()
    }
}

/// Whether a borrow of a resource from the world can fail with the error: it is an error of a
/// borrow of the resource under some identifier.
pub open spec fn res_fetch_err(w: World, e: FetchError) -> bool {
    match e {
        FetchError::Res(e) => exists|ty: TypeId|
            crate::world::res::borrow_error(w.res.present(), ty, e),
        FetchError::Comp(_) => false,
    }
}

/// Whether a borrow of a pool of components from the world can fail with the error: it is an
/// error of a borrow of the pool under some identifier.
pub open spec fn comp_fetch_err(w: World, e: FetchError) -> bool {
    match e {
        FetchError::Comp(e) => exists|ty: TypeId|
            crate::world::comp::borrow_error(w.comp.registered(), ty, e),
        FetchError::Res(_) => false,
    }
}

impl<'w, T: Resource> AutoFetch<'w> for Res<'w, T> {
    open spec fn spec_accesses(set: AccessSet) -> bool {
        set@.len() == 1 && set@[0] is Res
    }

    open spec fn spec_fetch_ok(w: World) -> bool {
        exists|ty: TypeId| w.res.present().contains(ty)
    }

    open spec fn spec_fetch_err(w: World, e: FetchError) -> bool {
        res_fetch_err(w, e)
    }

    fn fetch(w: &'w World) -> (r: Result<Self, FetchError>) {
        match w.res.try_borrow::<T>() {
            Ok(x) => Ok(x),
            Err(e) => Err(FetchError::Res(e)),
        }
    }

    fn accesses() -> (r: AccessSet) {
        AccessSet::single(Access::Res(TypeId::of::<T>()))
    }
}

impl<'w, T: Resource> AutoFetch<'w> for ResMut<'w, T> {
    open spec fn spec_accesses(set: AccessSet) -> bool {
        set@.len() == 1 && set@[0] is ResMut
    }

    open spec fn spec_fetch_ok(w: World) -> bool {
        exists|ty: TypeId| w.res.present().contains(ty)
    }

    open spec fn spec_fetch_err(w: World, e: FetchError) -> bool {
        res_fetch_err(w, e)
    }

    fn fetch(w: &'w World) -> (r: Result<Self, FetchError>) {
        match w.res.try_borrow_mut::<T>() {
            Ok(x) => Ok(x),
            Err(e) => Err(FetchError::Res(e)),
        }
    }

    fn accesses() -> (r: AccessSet) {
        AccessSet::single(Access::ResMut(TypeId::of::<T>()))
    }
}

impl<'w, T: Component> AutoFetch<'w> for Comp<'w, T> {
    open spec fn spec_accesses(set: AccessSet) -> bool {
        set@.len() == 1 && set@[0] is Comp
    }

    open spec fn spec_fetch_ok(w: World) -> bool {
        exists|ty: TypeId| w.comp.registered().contains(ty)
    }

    open spec fn spec_fetch_err(w: World, e: FetchError) -> bool {
        comp_fetch_err(w, e)
    }

    fn fetch(w: &'w World) -> (r: Result<Self, FetchError>) {
        match w.comp.try_borrow::<T>() {
            Ok(x) => Ok(x),
            Err(e) => Err(FetchError::Comp(e)),
        }
    }

    fn accesses() -> (r: AccessSet) {
        AccessSet::single(Access::Comp(TypeId::of::<T>()))
    }
}

impl<'w, T: Component> AutoFetch<'w> for CompMut<'w, T> {
    open spec fn spec_accesses(set: AccessSet) -> bool {
        set@.len() == 1 && set@[0] is CompMut
    }

    open spec fn spec_fetch_ok(w: World) -> bool {
        exists|ty: TypeId| w.comp.registered().contains(ty)
    }

    open spec fn spec_fetch_err(w: World, e: FetchError) -> bool {
        comp_fetch_err(w, e)
    }

    fn fetch(w: &'w World) -> (r: Result<Self, FetchError>) {
        match w.comp.try_borrow_mut::<T>() {
            Ok(x) => Ok(x),
            Err(e) => Err(FetchError::Comp(e)),
        }
    }

    fn accesses() -> (r: AccessSet) {
        AccessSet::single(Access::CompMut(TypeId::of::<T>()))
    }
}

impl<'w, T0: AutoFetch<'w>> AutoFetch<'w> for (T0,) {
    open spec fn spec_accesses(set: AccessSet) -> bool {
        T0::spec_accesses(set)
    }

    open spec fn spec_fetch_ok(w: World) -> bool {
        T0::spec_fetch_ok(w)
    }

    open spec fn spec_fetch_err(w: World, e: FetchError) -> bool {
        T0::spec_fetch_err(w, e)
    }

    fn fetch(w: &'w World) -> (r: Result<Self, FetchError>) {
        let x0 = T0::fetch(w)?;
        Ok((x0,))
    }

    fn accesses() -> (r: AccessSet) {
        T0::accesses()
    }
}

impl<'w, T0: AutoFetch<'w>, T1: AutoFetch<'w>> AutoFetch<'w> for (T0, T1) {
    open spec fn spec_accesses(set: AccessSet) -> bool {
        exists|s0: AccessSet, s1: AccessSet|
            T0::spec_accesses(s0)
                && T1::spec_accesses(s1)
                && set@ == s0@ + s1@
    }

    open spec fn spec_fetch_ok(w: World) -> bool {
        T0::spec_fetch_ok(w) && T1::spec_fetch_ok(w)
    }

    open spec fn spec_fetch_err(w: World, e: FetchError) -> bool {
        T0::spec_fetch_err(w, e) || T1::spec_fetch_err(w, e)
    }

    fn fetch(w: &'w World) -> (r: Result<Self, FetchError>) {
        let x0 = T0::fetch(w)?;
        let x1 = T1::fetch(w)?;
        Ok((x0, x1))
    }

    fn accesses() -> (r: AccessSet) {
        let mut set = T0::accesses();
        let ghost s0 = set;
        let more = T1::accesses();
        let ghost s1 = more;
        set.merge_impl(&more);
        assert(T0::spec_accesses(s0)
            && T1::spec_accesses(s1)
            && set@ == s0@ + s1@);
        set
    }
}

impl<'w, T0: AutoFetch<'w>, T1: AutoFetch<'w>, T2: AutoFetch<'w>> AutoFetch<'w> for (T0, T1, T2) {
    open spec fn spec_accesses(set: AccessSet) -> bool {
        exists|s0: AccessSet, s1: AccessSet, s2: AccessSet|
            T0::spec_accesses(s0)
                && T1::spec_accesses(s1)
                && T2::spec_accesses(s2)
                && set@ == s0@ + s1@ + s2@
    }

    open spec fn spec_fetch_ok(w: World) -> bool {
        T0::spec_fetch_ok(w) && T1::spec_fetch_ok(w) && T2::spec_fetch_ok(w)
    }

    open spec fn spec_fetch_err(w: World, e: FetchError) -> bool {
        T0::spec_fetch_err(w, e) || T1::spec_fetch_err(w, e) || T2::spec_fetch_err(w, e)
    }

    fn fetch(w: &'w World) -> (r: Result<Self, FetchError>) {
        let x0 = T0::fetch(w)?;
        let x1 = T1::fetch(w)?;
        let x2 = T2::fetch(w)?;
        Ok((x0, x1, x2))
    }

    fn accesses() -> (r: AccessSet) {
        let mut set = T0::accesses();
        let ghost s0 = set;
        let more = T1::accesses();
        let ghost s1 = more;
        set.merge_impl(&more);
        let more = T2::accesses();
        let ghost s2 = more;
        set.merge_impl(&more);
        assert(T0::spec_accesses(s0)
            && T1::spec_accesses(s1)
            && T2::spec_accesses(s2)
            && set@ == s0@ + s1@ + s2@);
        set
    }
}

impl<
    'w,
    T0: AutoFetch<'w>,
    T1: AutoFetch<'w>,
    T2: AutoFetch<'w>,
    T3: AutoFetch<'w>,
> AutoFetch<'w> for (T0, T1, T2, T3) {
    open spec fn spec_accesses(set: AccessSet) -> bool {
        exists|s0: AccessSet, s1: AccessSet, s2: AccessSet, s3: AccessSet|
            T0::spec_accesses(s0)
                && T1::spec_accesses(s1)
                && T2::spec_accesses(s2)
                && T3::spec_accesses(s3)
                && set@ == s0@ + s1@ + s2@ + s3@
    }

    open spec fn spec_fetch_ok(w: World) -> bool {
        T0::spec_fetch_ok(w) && T1::spec_fetch_ok(w) && T2::spec_fetch_ok(w) && T3::spec_fetch_ok(w)
    }

    open spec fn spec_fetch_err(w: World, e: FetchError) -> bool {
        T0::spec_fetch_err(w, e) || T1::spec_fetch_err(w, e) || T2::spec_fetch_err(w, e) || T3::spec_fetch_err(w, e)
    }

    fn fetch(w: &'w World) -> (r: Result<Self, FetchError>) {
        let x0 = T0::fetch(w)?;
        let x1 = T1::fetch(w)?;
        let x2 = T2::fetch(w)?;
        let x3 = T3::fetch(w)?;
        Ok((x0, x1, x2, x3))
    }

    fn accesses() -> (r: AccessSet) {
        let mut set = T0::accesses();
        let ghost s0 = set;
        let more = T1::accesses();
        let ghost s1 = more;
        set.merge_impl(&more);
        let more = T2::accesses();
        let ghost s2 = more;
        set.merge_impl(&more);
        let more = T3::accesses();
        let ghost s3 = more;
        set.merge_impl(&more);
        assert(T0::spec_accesses(s0)
            && T1::spec_accesses(s1)
            && T2::spec_accesses(s2)
            && T3::spec_accesses(s3)
            && set@ == s0@ + s1@ + s2@ + s3@);
        set
    }
}

/// Why a system was not run
#[derive(Debug)]
pub enum RunError {
    /// The accesses that the system declares conflict with each other.
    SelfConflict(AccessSet),
    /// What the system declares could not be fetched.
    Fetch(FetchError),
}

impl World {
    /// Borrows custom type or pre-defined type. Prefer explicit alternative such as
    /// [`res`](Self::res) when doable.
    pub fn borrow<'w, T: AutoFetch<'w>>(&'w self) -> (r: Result<T, FetchError>)
        ensures
            match r {
                Ok(_) => T::spec_fetch_ok(*self),
                Err(e) => T::spec_fetch_err(*self, e),
            },
    {
        T::fetch(self)
    }

    /// Runs a system on what it declares to borrow from the world.
    ///
    /// The system is not run where its accesses conflict with each other, nor where one of
    /// them cannot be had.
    pub fn run<'w, P: AutoFetch<'w>, Ret, S: FnOnce(P) -> Ret>(&'w self, sys: S) -> (r: Result<
        Ret,
        RunError,
    >)
        requires
            forall|p: P| sys.requires((p,)),
        ensures
            match r {
                Ok(ret) => exists|p: P| #[trigger] sys.ensures((p,), ret),
                Err(RunError::SelfConflict(set)) => P::spec_accesses(set) && set_self_conflicts(set@),
                Err(RunError::Fetch(e)) => P::spec_fetch_err(*self, e),
            },
            !(r matches Err(RunError::SelfConflict(_))) ==> exists|set: AccessSet|
                P::spec_accesses(set) && !set_self_conflicts(set@),
            (forall|set: AccessSet| P::spec_accesses(set) ==> set_self_conflicts(set@)) ==> (r matches Err(
                RunError::SelfConflict(_),
            )),
    {
        let accesses = P::accesses();
        if accesses.self_conflict() {
            return Err(RunError::SelfConflict(accesses));
        }
        match P::fetch(self) {
            Ok(p) => {
                let ghost arg = p;
                let r: Result<Ret, RunError> = Ok(sys(p));
                assert(r matches Ok(ret) && sys.ensures((arg,), ret));
                r
            },
            Err(e) => Err(RunError::Fetch(e)),
        }
    }

    /// Run a system with user argument
    ///
    /// The system is not run where its accesses conflict with each other, nor where one of
    /// them cannot be had.
    pub fn run_arg<'w, Data, P: AutoFetch<'w>, Ret, S: FnOnce(Data, P) -> Ret>(
        &'w self,
        data: Data,
        sys: S,
    ) -> (r: Result<Ret, RunError>)
        requires
            forall|p: P| sys.requires((data, p)),
        ensures
            match r {
                Ok(ret) => exists|p: P| #[trigger] sys.ensures((data, p), ret),
                Err(RunError::SelfConflict(set)) => P::spec_accesses(set) && set_self_conflicts(set@),
                Err(RunError::Fetch(e)) => P::spec_fetch_err(*self, e),
            },
            !(r matches Err(RunError::SelfConflict(_))) ==> exists|set: AccessSet|
                P::spec_accesses(set) && !set_self_conflicts(set@),
            (forall|set: AccessSet| P::spec_accesses(set) ==> set_self_conflicts(set@)) ==> (r matches Err(
                RunError::SelfConflict(_),
            )),
    {
        let accesses = P::accesses();
        if accesses.self_conflict() {
            return Err(RunError::SelfConflict(accesses));
        }
        match P::fetch(self) {
            Ok(p) => {
                let ghost arg = p;
                let r: Result<Ret, RunError> = Ok(sys(data, p));
                assert(r matches Ok(ret) && sys.ensures((data, arg), ret));
                r
            },
            Err(e) => Err(RunError::Fetch(e)),
        }
    }
}

} // verus!
