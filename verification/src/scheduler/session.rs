//! A whole session around a function: open, run the function, drain, close.

use crate::scheduler::machine::Scheduler;
use crate::when::AcquiredCown;
use vstd::prelude::*;

verus! {

/// Runs one session on `sched`: opens it with `worker_count` workers,
/// switches leak detection as `leak_check` says, runs `body`, which may
/// create containers and submit behaviors, then drains and closes the
/// session. Whether the session leaked is on record in the scheduler
/// afterwards.
pub fn open_session<T, B1, B2, R, F>(
    sched: &mut Scheduler<T, B1, B2>,
    worker_count: usize,
    leak_check: bool,
    body: F,
) -> (result: R) where
    B1: FnOnce(&mut AcquiredCown<T>),
    B2: FnOnce(&mut AcquiredCown<T>, &mut AcquiredCown<T>),
    F: FnOnce(&mut Scheduler<T, B1, B2>) -> R,

    requires
        old(sched).wf(),
        old(sched)@.session is Uninitialized,
        worker_count >= 1,
        forall|s: &mut Scheduler<T, B1, B2>| s.wf() && s@.open() ==> call_requires(body, (s,)),
        forall|s: &mut Scheduler<T, B1, B2>, r: R|
            s.wf() && s@.open() && call_ensures(body, (s,), r) ==> {
                &&& final(s).wf()
                &&& final(s)@.same_session(s@)
            },
    ensures
        final(sched).wf(),
        final(sched)@.session is Uninitialized,
        !final(sched)@.detect_leaks,
        final(sched)@.base == old(sched)@.slots.len(),
        final(sched)@.leak_detected == (leak_check && final(sched)@.live_allocations() > 0),
        exists|s: &mut Scheduler<T, B1, B2>|
            {
                &&& s@ == old(sched)@.init(worker_count).set_detect_leaks(leak_check)
                &&& #[trigger] call_ensures(body, (s,), result)
                &&& final(sched)@.set_detect_leaks(leak_check).drained_from(final(s)@)
            },
{
    sched.init(worker_count);
    sched.set_detect_leaks(leak_check);
    let result = body(sched);
    sched.run();
    sched.set_detect_leaks(false);
    result
}

/// Runs one session on `sched` around `f`, with one worker, and with leak
/// detection if `detect_leaks` is set.
pub fn with_inner<T, B1, B2, R, F>(sched: &mut Scheduler<T, B1, B2>, f: F, detect_leaks: bool) -> (result:
    R) where
    B1: FnOnce(&mut AcquiredCown<T>),
    B2: FnOnce(&mut AcquiredCown<T>, &mut AcquiredCown<T>),
    F: FnOnce(&mut Scheduler<T, B1, B2>) -> R,

    requires
        old(sched).wf(),
        old(sched)@.session is Uninitialized,
        forall|s: &mut Scheduler<T, B1, B2>| s.wf() && s@.open() ==> call_requires(f, (s,)),
        forall|s: &mut Scheduler<T, B1, B2>, r: R|
            s.wf() && s@.open() && call_ensures(f, (s,), r) ==> {
                &&& final(s).wf()
                &&& final(s)@.same_session(s@)
            },
    ensures
        final(sched).wf(),
        final(sched)@.session is Uninitialized,
        !final(sched)@.detect_leaks,
        final(sched)@.base == old(sched)@.slots.len(),
        final(sched)@.leak_detected == (detect_leaks && final(sched)@.live_allocations() > 0),
        exists|s: &mut Scheduler<T, B1, B2>|
            {
                &&& s@ == old(sched)@.init(1).set_detect_leaks(detect_leaks)
                &&& #[trigger] call_ensures(f, (s,), result)
                &&& final(sched)@.set_detect_leaks(detect_leaks).drained_from(final(s)@)
            },
{
    open_session(sched, 1, detect_leaks, f)
}

/// Runs one session on `sched` around `f`, with one worker and with leak
/// detection.
pub fn with<T, B1, B2, R, F>(sched: &mut Scheduler<T, B1, B2>, f: F) -> (result: R) where
    B1: FnOnce(&mut AcquiredCown<T>),
    B2: FnOnce(&mut AcquiredCown<T>, &mut AcquiredCown<T>),
    F: FnOnce(&mut Scheduler<T, B1, B2>) -> R,

    requires
        old(sched).wf(),
        old(sched)@.session is Uninitialized,
        forall|s: &mut Scheduler<T, B1, B2>| s.wf() && s@.open() ==> call_requires(f, (s,)),
        forall|s: &mut Scheduler<T, B1, B2>, r: R|
            s.wf() && s@.open() && call_ensures(f, (s,), r) ==> {
                &&& final(s).wf()
                &&& final(s)@.same_session(s@)
            },
    ensures
        final(sched).wf(),
        final(sched)@.session is Uninitialized,
        !final(sched)@.detect_leaks,
        final(sched)@.base == old(sched)@.slots.len(),
        final(sched)@.leak_detected == (final(sched)@.live_allocations() > 0),
        exists|s: &mut Scheduler<T, B1, B2>|
            {
                &&& s@ == old(sched)@.init(1).set_detect_leaks(true)
                &&& #[trigger] call_ensures(f, (s,), result)
                &&& final(sched)@.set_detect_leaks(true).drained_from(final(s)@)
            },
{
    with_inner(sched, f, true)
}

/// Runs one session on `sched` around `f`, with one worker and with leak
/// detection.
pub fn with_leak_detector<T, B1, B2, R, F>(sched: &mut Scheduler<T, B1, B2>, f: F) -> (result: R) where
    B1: FnOnce(&mut AcquiredCown<T>),
    B2: FnOnce(&mut AcquiredCown<T>, &mut AcquiredCown<T>),
    F: FnOnce(&mut Scheduler<T, B1, B2>) -> R,

    requires
        old(sched).wf(),
        old(sched)@.session is Uninitialized,
        forall|s: &mut Scheduler<T, B1, B2>| s.wf() && s@.open() ==> call_requires(f, (s,)),
        forall|s: &mut Scheduler<T, B1, B2>, r: R|
            s.wf() && s@.open() && call_ensures(f, (s,), r) ==> {
                &&& final(s).wf()
                &&& final(s)@.same_session(s@)
            },
    ensures
        final(sched).wf(),
        final(sched)@.session is Uninitialized,
        !final(sched)@.detect_leaks,
        final(sched)@.base == old(sched)@.slots.len(),
        final(sched)@.leak_detected == (final(sched)@.live_allocations() > 0),
        exists|s: &mut Scheduler<T, B1, B2>|
            {
                &&& s@ == old(sched)@.init(1).set_detect_leaks(true)
                &&& #[trigger] call_ensures(f, (s,), result)
                &&& final(sched)@.set_detect_leaks(true).drained_from(final(s)@)
            },
{
    with_inner(sched, f, true)
}

} // verus!
