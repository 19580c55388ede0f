//! Behaviors: the guard through which a running body reaches a container's
//! payload, the body itself, and the job that a worker carries out.

use crate::cown::CownPtr;
use crate::scheduler::Scheduler;
use crate::sys;
use vstd::prelude::*;

verus! {

/// Exclusive access to the payload of one container, for the time of one
/// body invocation. While the guard exists the payload is in it and not in
/// the store, so nothing else can reach it.
pub struct AcquiredCown<T> {
    ptr: sys::AquiredCown,
    value: T,
}

impl<T> AcquiredCown<T> {
    /// The payload.
    pub closed spec fn view(&self) -> T {
        self.value
    }

    /// The address of the acquired container.
    pub closed spec fn addr(&self) -> usize {
        self.ptr.addr()
    }

    /// The guard for the container in slot `slot`, holding its payload.
    pub(crate) fn acquire(slot: usize, value: T) -> (g: AcquiredCown<T>)
        requires
            slot < usize::MAX,
        ensures
            g@ == value,
            g.addr() == slot + 1,
    {
        AcquiredCown { ptr: sys::AquiredCown::to_slot(slot), value }
    }

    /// Ends the access and gives the payload back.
    pub(crate) fn release(self) -> (value: T)
        ensures
            value == self@,
    {
        self.value
    }

    /// The address of the acquired container.
    pub fn lead_address(&self) -> (addr: usize)
        ensures
            addr == self.addr(),
    {
        self.ptr.lead_address()
    }

    /// The payload, to read.
    pub fn get(&self) -> (value: &T)
        ensures
            *value == self@,
    {
        &self.value
    }

    /// The payload, to change in place.
    pub fn get_mut(&mut self) -> (value: &mut T)
        ensures
            *value == old(self)@,
            final(self)@ == *final(value),
            final(self).addr() == old(self).addr(),
    {
        &mut self.value
    }

    /// Replaces the payload by `value`.
    pub fn set(&mut self, value: T)
        ensures
            final(self)@ == value,
            final(self).addr() == old(self).addr(),
    {
        self.value = value;
    }
}

/// The body of a behavior: a function of the guards of the containers it
/// acquired, one or two of them.
pub enum Body<B1, B2> {
    /// A body for one container.
    One(B1),
    /// A body for two containers.
    Two(B2),
}

impl<B1, B2> Body<B1, B2> {
    /// The number of containers that the body takes.
    pub open spec fn arity(&self) -> nat {
        match self {
            Body::One(_) => 1,
            Body::Two(_) => 2,
        }
    }

    /// Whether the body may be called on any guards whatever. A body runs
    /// later, on payloads as other behaviors have left them.
    pub open spec fn callable<T>(&self) -> bool where
        B1: FnOnce(&mut AcquiredCown<T>),
        B2: FnOnce(&mut AcquiredCown<T>, &mut AcquiredCown<T>),
     {
        match self {
            Body::One(f) => forall|g: &mut AcquiredCown<T>| call_requires(*f, (g,)),
            Body::Two(f) => forall|g: &mut AcquiredCown<T>, h: &mut AcquiredCown<T>|
                call_requires(*f, (g, h)),
        }
    }
}

/// The payloads that `guards` hold, in order.
pub open spec fn payloads<T>(guards: Seq<AcquiredCown<T>>) -> Seq<T> {
    Seq::new(guards.len(), |k: int| guards[k]@)
}

/// A behavior that a worker has picked up: its number, its body until it
/// has run, and the guards of the containers it acquired.
pub struct Job<T, B1, B2> {
    behavior: usize,
    body: Option<Body<B1, B2>>,
    guards: Vec<AcquiredCown<T>>,
}

impl<T, B1, B2> Job<T, B1, B2> where
    B1: FnOnce(&mut AcquiredCown<T>),
    B2: FnOnce(&mut AcquiredCown<T>, &mut AcquiredCown<T>),
 {
    /// The number of the behavior.
    pub closed spec fn behavior(&self) -> usize {
        self.behavior
    }

    /// The body, until it has run.
    pub closed spec fn body(&self) -> Option<Body<B1, B2>> {
        self.body
    }

    /// The payloads acquired, in the order in which the behavior named
    /// their containers.
    pub closed spec fn values(&self) -> Seq<T> {
        payloads(self.guards@)
    }

    /// Whether the body has yet to run, and can: it takes as many guards as
    /// the job holds and accepts whatever they guard.
    pub open spec fn runnable(&self) -> bool {
        &&& self.body() matches Some(body)
        &&& body.arity() == self.values().len()
        &&& body.callable::<T>()
    }

    /// Whether the body has run.
    pub open spec fn done(&self) -> bool {
        self.body() is None
    }

    /// The number of the behavior.
    pub fn id(&self) -> (b: usize)
        ensures
            b == self.behavior(),
    {
        self.behavior
    }

    /// Makes the job of behavior `behavior` from its body and guards.
    pub(crate) fn assemble(behavior: usize, body: Body<B1, B2>, guards: Vec<AcquiredCown<T>>) -> (job:
        Job<T, B1, B2>)
        ensures
            job.behavior() == behavior,
            job.body() == Some(body),
            job.values() == payloads(guards@),
    {
        Job { behavior, body: Some(body), guards }
    }

    /// Takes the job apart again: the behavior's number and the payloads.
    pub(crate) fn dismantle(self) -> (parts: (usize, Vec<AcquiredCown<T>>))
        ensures
            parts.0 == self.behavior(),
            payloads(parts.1@) == self.values(),
    {
        (self.behavior, self.guards)
    }

    /// Runs the body to completion on the guards. The guards stay with the
    /// job: the body cannot keep them.
    pub fn invoke(&mut self)
        requires
            old(self).runnable(),
        ensures
            final(self).done(),
            final(self).behavior() == old(self).behavior(),
            final(self).values().len() == old(self).values().len(),
            match old(self).body() {
                Some(Body::One(f)) => exists|g: &mut AcquiredCown<T>|
                    {
                        &&& g@ == old(self).values()[0]
                        &&& final(g)@ == final(self).values()[0]
                        &&& #[trigger] call_ensures(f, (g,), ())
                    },
                Some(Body::Two(f)) => exists|g: &mut AcquiredCown<T>, h: &mut AcquiredCown<T>|
                    {
                        &&& g@ == old(self).values()[0]
                        &&& h@ == old(self).values()[1]
                        &&& final(g)@ == final(self).values()[0]
                        &&& final(h)@ == final(self).values()[1]
                        &&& #[trigger] call_ensures(f, (g, h), ())
                    },
                None => true,
            },
    {
        let body = self.body.take();
        match body {
            Some(Body::One(f)) => {
                let mut g = self.guards.pop().unwrap();
                f(&mut g);
                self.guards.push(g);
            },
            Some(Body::Two(f)) => {
                let mut h = self.guards.pop().unwrap();
                let mut g = self.guards.pop().unwrap();
                f(&mut g, &mut h);
                self.guards.push(g);
                self.guards.push(h);
            },
            None => {},
        }
    }
}

/// Schedules `f` to run once it has exclusive access to the container of
/// `cown`. The call only enqueues: the body runs when the session drains,
/// after every behavior submitted earlier on the same container.
pub fn when<T, B1, B2>(sched: &mut Scheduler<T, B1, B2>, cown: &CownPtr<T>, f: B1) where
    B1: FnOnce(&mut AcquiredCown<T>),
    B2: FnOnce(&mut AcquiredCown<T>, &mut AcquiredCown<T>),

    requires
        old(sched).wf(),
        old(sched)@.open(),
        cown.live_in(old(sched)),
        old(sched)@.has_room(cown.slot()),
        forall|g: &mut AcquiredCown<T>| call_requires(f, (g,)),
    ensures
        final(sched).wf(),
        final(sched)@ == old(sched)@.submit(seq![cown.slot() as usize], Body::One(f)),
        cown.live_in(final(sched)),
{
    let b = sched.submit_one(cown.as_raw(), f);
}

/// Schedules `f` to run once it has exclusive access to the containers of
/// `c1` and `c2` together. The two must be different containers.
pub fn when2<T, B1, B2>(sched: &mut Scheduler<T, B1, B2>, c1: &CownPtr<T>, c2: &CownPtr<T>, f: B2) where
    B1: FnOnce(&mut AcquiredCown<T>),
    B2: FnOnce(&mut AcquiredCown<T>, &mut AcquiredCown<T>),

    requires
        old(sched).wf(),
        old(sched)@.open(),
        c1.live_in(old(sched)),
        c2.live_in(old(sched)),
        c1.raw().addr() != c2.raw().addr(),
        old(sched)@.has_room(c1.slot()),
        old(sched)@.has_room(c2.slot()),
        forall|g: &mut AcquiredCown<T>, h: &mut AcquiredCown<T>| call_requires(f, (g, h)),
    ensures
        final(sched).wf(),
        final(sched)@ == old(sched)@.submit(
            seq![c1.slot() as usize, c2.slot() as usize],
            Body::Two(f),
        ),
        c1.live_in(final(sched)),
        c2.live_in(final(sched)),
{
    let b = sched.submit_two(c1.as_raw(), c2.as_raw(), f);
}

} // verus!
