//! Raw references into the container store.
//!
//! A raw reference is the address of a slot. Addresses count slots from one,
//! so that zero is free to stand for the null reference.

use vstd::prelude::*;

verus! {

/// A raw counted reference to a container, or null.
///
/// It stands for one unit of the container's strong count, so it is neither
/// `Copy` nor `Clone`: a second reference is made by the scheduler, which
/// counts it.
pub struct CownPtr {
    addr: usize,
}

impl CownPtr {
    /// The address held; zero for the null reference.
    pub closed spec fn addr(&self) -> usize {
        self.addr
    }

    /// The number of the slot referred to.
    pub open spec fn slot(&self) -> int {
        self.addr() - 1
    }

    /// The null reference.
    pub fn null() -> (p: CownPtr)
        ensures
            p.addr() == 0,
    {
        CownPtr { addr: 0 }
    }

    /// The address held; zero for the null reference.
    pub fn lead_address(&self) -> (addr: usize)
        ensures
            addr == self.addr(),
    {
        self.addr
    }

    /// The reference to slot `slot`.
    pub(crate) fn to_slot(slot: usize) -> (p: CownPtr)
        requires
            slot < usize::MAX,
        ensures
            p.slot() == slot,
            p.addr() != 0,
    {
        CownPtr { addr: slot + 1 }
    }
}

/// The address of a container that a running behavior has acquired.
#[derive(Clone, Copy)]
pub struct AquiredCown {
    addr: usize,
}

impl AquiredCown {
    /// The address held.
    pub closed spec fn addr(&self) -> usize {
        self.addr
    }

    /// The address held.
    pub fn lead_address(&self) -> (addr: usize)
        ensures
            addr == self.addr(),
    {
        self.addr
    }

    /// The acquired reference to slot `slot`.
    pub(crate) fn to_slot(slot: usize) -> (p: AquiredCown)
        requires
            slot < usize::MAX,
        ensures
            p.addr() == slot + 1,
    {
        AquiredCown { addr: slot + 1 }
    }
}

} // verus!
