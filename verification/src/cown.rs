//! The handle through which a program owns a container.

use crate::scheduler::Scheduler;
use crate::store::SlotView;
use crate::sys;
use crate::when::AcquiredCown;
use std::marker::PhantomData;
use vstd::prelude::*;

verus! {

/// A counted handle to a container whose payload is a `T`.
///
/// Each handle stands for one unit of the container's strong count. A second
/// handle comes from [`CownPtr::clone`], and a handle is given up with
/// [`CownPtr::drop`]; a handle that merely goes out of scope leaves its
/// container alive, which a session with leak detection reports.
pub struct CownPtr<T> {
    cown_ptr: sys::CownPtr,
    _marker: PhantomData<T>,
}

impl<T> CownPtr<T> {
    /// The raw reference inside the handle.
    pub closed spec fn raw(&self) -> sys::CownPtr {
        self.cown_ptr
    }

    /// The number of the slot that holds the container.
    pub open spec fn slot(&self) -> int {
        self.raw().slot()
    }

    /// Whether the handle may be used with `sched`.
    pub open spec fn live_in<B1, B2>(&self, sched: &Scheduler<T, B1, B2>) -> bool where
        B1: FnOnce(&mut AcquiredCown<T>),
        B2: FnOnce(&mut AcquiredCown<T>, &mut AcquiredCown<T>),
     {
        sched.is_live(&self.raw())
    }

    /// The raw reference inside the handle.
    pub fn as_raw(&self) -> (raw: &sys::CownPtr)
        ensures
            *raw == self.raw(),
    {
        &self.cown_ptr
    }

    /// The address of the container; two handles to one container agree on
    /// it, and it is never zero for a handle that a scheduler made.
    pub fn addr(&self) -> (addr: usize)
        ensures
            addr == self.raw().addr(),
    {
        self.cown_ptr.lead_address()
    }

    /// Creates a container around `value` in the open session of `sched`.
    /// The container starts with a strong count of one, which the returned
    /// handle holds.
    pub fn new<B1, B2>(sched: &mut Scheduler<T, B1, B2>, value: T) -> (cown: Self) where
        B1: FnOnce(&mut AcquiredCown<T>),
        B2: FnOnce(&mut AcquiredCown<T>, &mut AcquiredCown<T>),

        requires
            old(sched).wf(),
            old(sched)@.open(),
        ensures
            final(sched).wf(),
            final(sched)@ == old(sched)@.create(value),
            final(sched)@.slots[cown.slot()] == SlotView::fresh(value),
            cown.slot() == old(sched)@.slots.len(),
            cown.live_in(final(sched)),
    {
        CownPtr { cown_ptr: sched.create(value), _marker: PhantomData }
    }

    /// Makes a second handle to the same container and counts it.
    pub fn clone<B1, B2>(&self, sched: &mut Scheduler<T, B1, B2>) -> (twin: Self) where
        B1: FnOnce(&mut AcquiredCown<T>),
        B2: FnOnce(&mut AcquiredCown<T>, &mut AcquiredCown<T>),

        requires
            old(sched).wf(),
            self.live_in(old(sched)),
            old(sched)@.has_room(self.slot()),
        ensures
            final(sched).wf(),
            final(sched)@ == old(sched)@.retain(self.slot()),
            twin.raw().addr() == self.raw().addr(),
            twin.live_in(final(sched)),
            self.live_in(final(sched)),
    {
        CownPtr { cown_ptr: sched.retain(&self.cown_ptr), _marker: PhantomData }
    }

    /// Gives up the handle. When it held the last reference to the
    /// container, the payload is destroyed then and there, and the result
    /// says so.
    pub fn drop<B1, B2>(self, sched: &mut Scheduler<T, B1, B2>) -> (destroyed: bool) where
        B1: FnOnce(&mut AcquiredCown<T>),
        B2: FnOnce(&mut AcquiredCown<T>, &mut AcquiredCown<T>),

        requires
            old(sched).wf(),
            self.live_in(old(sched)),
        ensures
            final(sched).wf(),
            final(sched)@ == old(sched)@.release(self.slot()),
            destroyed == (old(sched)@.slots[self.slot()].strong == 1),
            destroyed == (final(sched)@.slots[self.slot()].teardowns == 1),
    {
        sched.release(self.cown_ptr)
    }
}

} // verus!
