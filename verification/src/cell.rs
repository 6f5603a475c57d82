//! A cell that holds one immutable value. The value is handed out as shared
//! handles and is only ever replaced as a whole, so a handle keeps the value it
//! was given whatever happens to the cell afterwards.

use crate::lock::SpinRwLock;
use std::sync::Arc;
use vstd::prelude::*;

verus! {

/// Makes one more handle to the allocation behind `handle`, by `Arc::clone`.
/// Believed of it: the new handle refers to the same value. That the count of
/// live handles goes up by one is not stated here.
#[verifier::external_body]
fn alias<T>(handle: &Arc<T>) -> (shared: Arc<T>)
    ensures
        shared == *handle,
{
    Arc::clone(handle)
}

/// Moves `value` into a counted allocation of its own, with one handle to it.
pub fn to_arc_ptr<T>(value: T) -> (handle: Arc<T>)
    ensures
        *handle == value,
{
    Arc::new(value)
}

/// A cell for an immutable value.
///
/// The cell owns one handle to the value it holds, its slot, and a lock that
/// every access to the slot takes: shared to read it, exclusive to replace it.
#[derive(Debug)]
pub struct AtomicImmut<T> {
    ptr: Arc<T>,
    rwlock: SpinRwLock,
}

impl<T> View for AtomicImmut<T> {
    type V = T;

    /// The value that the cell holds.
    closed spec fn view(&self) -> T {
        *self.ptr
    }
}

impl<T> AtomicImmut<T> {
    /// The cell is at rest: nobody holds its lock. Every operation expects
    /// this of the cell and leaves it so.
    pub closed spec fn wf(&self) -> bool {
        self.rwlock.is_idle()
    }

    /// `cell` is what `new` makes of `value`: a cell at rest that holds it.
    pub open spec fn made(value: T, cell: Self) -> bool {
        &&& cell.wf()
        &&& cell@ == value
    }

    /// `load` led from `before` to `after` and handed out `handle`: the handle
    /// refers to the value that the cell held, and the cell still holds it.
    pub open spec fn loaded(before: Self, after: Self, handle: Arc<T>) -> bool {
        &&& after.wf()
        &&& *handle == before@
        &&& after@ == before@
    }

    /// `swap` of `value` led from `before` to `after` and handed out
    /// `displaced`: the cell holds `value`, and the handle refers to the value
    /// that the cell held before.
    pub open spec fn swapped(before: Self, value: T, after: Self, displaced: Arc<T>) -> bool {
        &&& after.wf()
        &&& *displaced == before@
        &&& after@ == value
    }

    /// `store` of `value` led to `after`: the cell holds `value`.
    pub open spec fn stored(value: T, after: Self) -> bool {
        &&& after.wf()
        &&& after@ == value
    }

    /// Makes a new cell that holds `value`.
    pub fn new(value: T) -> (cell: Self)
        ensures
            Self::made(value, cell),
    {
        let ptr = to_arc_ptr(value);
        let rwlock = SpinRwLock::new();
        AtomicImmut { ptr, rwlock }
    }

    /// Hands out a handle to the value that the cell holds. The cell keeps its
    /// own handle, so the value has one holder more than before.
    pub fn load(&mut self) -> (handle: Arc<T>)
        requires
            old(self).wf(),
        ensures
            Self::loaded(*old(self), *final(self), handle),
    {
        self.rwlock.rlock();
        let handle = alias(&self.ptr);
        self.rwlock.runlock();
        handle
    }

    /// Replaces the value that the cell holds by `value`. The handle that the
    /// cell had to the value before is dropped, and with it the value, unless
    /// a handle to it is still out.
    pub fn store(&mut self, value: T)
        requires
            old(self).wf(),
        ensures
            Self::stored(value, *final(self)),
    {
        let _ = self.swap(value);
    }

    /// Replaces the value that the cell holds by what `f` makes of it.
    pub fn update<F>(&mut self, f: F) where F: Fn(&T) -> T
        requires
            old(self).wf(),
            f.requires((&old(self)@,)),
        ensures
            final(self).wf(),
            f.ensures((&old(self)@,), final(self)@),
    {
        let old = self.load();
        let new = f(&old);
        let _ = self.swap(new);
    }

    /// Replaces the value that the cell holds by `value` and hands out the
    /// handle that the cell had to the value before. The new value is put in
    /// its allocation before the lock is taken.
    pub fn swap(&mut self, value: T) -> (displaced: Arc<T>)
        requires
            old(self).wf(),
        ensures
            Self::swapped(*old(self), value, *final(self), displaced),
    {
        let mut new = to_arc_ptr(value);
        self.rwlock.wlock();
        std::mem::swap(&mut self.ptr, &mut new);
        self.rwlock.wunlock();
        new
    }
}

impl<T: Default> Default for AtomicImmut<T> {
    /// A cell that holds the default value of `T`.
    fn default() -> (cell: Self)
        ensures
            cell.wf(),
            T::default.ensures((), cell@),
    {
        Self::new(T::default())
    }
}

/// The first `load` of a new cell hands out the value that `new` was given.
pub proof fn law_new_then_load<T>(
    value: T,
    cell: AtomicImmut<T>,
    after: AtomicImmut<T>,
    handle: Arc<T>,
)
    requires
        AtomicImmut::made(value, cell),
        AtomicImmut::loaded(cell, after, handle),
    ensures
        *handle == value,
{
}

/// After a `store`, `load` hands out the value stored, and a handle that was
/// handed out before the `store` still refers to the value of that time.
pub proof fn law_store_then_load<T>(
    first: T,
    second: T,
    cell: AtomicImmut<T>,
    read: AtomicImmut<T>,
    written: AtomicImmut<T>,
    last: AtomicImmut<T>,
    early: Arc<T>,
    late: Arc<T>,
)
    requires
        AtomicImmut::made(first, cell),
        AtomicImmut::loaded(cell, read, early),
        AtomicImmut::stored(second, written),
        AtomicImmut::loaded(written, last, late),
    ensures
        *late == second,
        *early == first,
{
}

/// `swap` hands out the value that the cell held, and a `load` after it hands
/// out the value that was swapped in.
pub proof fn law_swap_then_load<T>(
    first: T,
    second: T,
    cell: AtomicImmut<T>,
    written: AtomicImmut<T>,
    last: AtomicImmut<T>,
    displaced: Arc<T>,
    late: Arc<T>,
)
    requires
        cell.wf(),
        cell@ == first,
        AtomicImmut::swapped(cell, second, written, displaced),
        AtomicImmut::loaded(written, last, late),
    ensures
        *displaced == first,
        *late == second,
{
}

} // verus!
