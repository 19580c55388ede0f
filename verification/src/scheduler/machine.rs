//! The scheduler as it runs: the store, the protocol, the bodies, and the
//! session they serve.

use crate::protocol::laws::{
    lemma_complete_counts, lemma_done_iff_idle, lemma_idle_means_done,
    lemma_idle_queue_is_not_required, lemma_prefix_contains, lemma_start_counts,
    lemma_submit_counts,
};
use crate::protocol::model::BehaviorState;
use crate::protocol::queues::Protocol;
use crate::scheduler::laws::{
    lemma_create_wf, lemma_dispatch_wf, lemma_finish_wf, lemma_init_wf, lemma_release_wf,
    lemma_retain_wf, lemma_submit_keeps_wf,
};
use crate::scheduler::model::{SchedulerView, Session};
use crate::store::{lent, retained, returned, Store};
use crate::sys;
use crate::when::{payloads, AcquiredCown, Body, Job};
use vstd::pervasive::unreached;
use vstd::prelude::*;

verus! {

/// The scheduler: the store, the protocol, and the session they serve.
///
/// There is one scheduler for all sessions; a session borrows it for its
/// whole length, so that no two sessions are ever open at once.
pub struct Scheduler<T, B1, B2> {
    session: Session,
    detect_leaks: bool,
    leak_detected: bool,
    base: usize,
    busy: usize,
    store: Store<T>,
    protocol: Protocol,
    bodies: Vec<Option<Body<B1, B2>>>,
}

impl<T, B1, B2> View for Scheduler<T, B1, B2> {
    type V = SchedulerView<T, B1, B2>;

    closed spec fn view(&self) -> SchedulerView<T, B1, B2> {
        SchedulerView {
            session: self.session,
            detect_leaks: self.detect_leaks,
            leak_detected: self.leak_detected,
            base: self.base as nat,
            slots: self.store@,
            protocol: self.protocol@,
            bodies: self.bodies@,
        }
    }
}

/// Takes one reference more to each container in `required`.
fn retain_all<T>(store: &mut Store<T>, required: &Vec<usize>)
    requires
        old(store).wf(),
        required@.no_duplicates(),
        forall|k: int|
            0 <= k < required.len() ==> {
                let c = #[trigger] required[k] as int;
                old(store).live(c) && old(store)@[c].strong < usize::MAX
            },
    ensures
        final(store).wf(),
        final(store)@ == retained(old(store)@, required@),
{
    let ghost before = store@;
    let n = store.len();
    let mut k: usize = 0;
    while k < required.len()
        invariant
            k <= required.len(),
            store.wf(),
            required@.no_duplicates(),
            store@.len() == before.len() == n,
            forall|j: int|
                0 <= j < required.len() ==> {
                    let c = #[trigger] required[j] as int;
                    0 <= c < before.len() && before[c].live() && before[c].strong < usize::MAX
                },
            forall|c: int|
                0 <= c < before.len() ==> #[trigger] store@[c] == if required@.subrange(
                    0,
                    k as int,
                ).contains(c as usize) {
                    before[c].retain()
                } else {
                    before[c]
                },
        decreases required.len() - k,
    {
        let ghost prev = store@;
        let c = required[k];
        proof {
            assert(c == required@[k as int]);
            lemma_prefix_contains(required@, k as int, c);
            assert(prev[c as int] == before[c as int]);
        }
        store.retain(c);
        proof {
            assert forall|x: int| 0 <= x < before.len() implies #[trigger] store@[x]
                == if required@.subrange(0, k + 1).contains(x as usize) {
                before[x].retain()
            } else {
                before[x]
            } by {
                lemma_prefix_contains(required@, k as int, x as usize);
                assert(prev[x] == if required@.subrange(0, k as int).contains(x as usize) {
                    before[x].retain()
                } else {
                    before[x]
                });
            }
        }
        k = k + 1;
    }
    proof {
        assert(required@.subrange(0, k as int) =~= required@);
        assert(store@ =~= retained(before, required@));
    }
}

/// Takes the payload of each container in `required` out of the store and
/// wraps it in a guard.
fn lend_all<T>(store: &mut Store<T>, required: &Vec<usize>) -> (guards: Vec<AcquiredCown<T>>)
    requires
        old(store).wf(),
        required@.no_duplicates(),
        forall|k: int|
            0 <= k < required.len() ==> {
                let c = #[trigger] required[k] as int;
                0 <= c < old(store)@.len() && old(store)@[c].payload is Some
            },
    ensures
        final(store).wf(),
        final(store)@ == lent(old(store)@, required@),
        guards.len() == required.len(),
        forall|k: int|
            0 <= k < required.len() ==> Some(#[trigger] payloads(guards@)[k]) == old(
                store,
            )@[required[k] as int].payload,
{
    let ghost before = store@;
    let n = store.len();
    let mut guards: Vec<AcquiredCown<T>> = Vec::new();
    let mut k: usize = 0;
    while k < required.len()
        invariant
            k <= required.len(),
            store.wf(),
            required@.no_duplicates(),
            store@.len() == before.len() == n,
            guards.len() == k,
            forall|j: int|
                0 <= j < required.len() ==> {
                    let c = #[trigger] required[j] as int;
                    0 <= c < before.len() && before[c].payload is Some
                },
            forall|j: int| 0 <= j < k ==> Some((#[trigger] guards@[j])@) == before[required[j] as int].payload,
            forall|c: int|
                0 <= c < before.len() ==> #[trigger] store@[c] == if required@.subrange(
                    0,
                    k as int,
                ).contains(c as usize) {
                    before[c].lend()
                } else {
                    before[c]
                },
        decreases required.len() - k,
    {
        let ghost prev = store@;
        let c = required[k];
        proof {
            assert(c == required@[k as int]);
            lemma_prefix_contains(required@, k as int, c);
            assert(prev[c as int] == before[c as int]);
        }
        let value = store.lend(c);
        guards.push(AcquiredCown::acquire(c, value));
        proof {
            assert forall|x: int| 0 <= x < before.len() implies #[trigger] store@[x]
                == if required@.subrange(0, k + 1).contains(x as usize) {
                before[x].lend()
            } else {
                before[x]
            } by {
                lemma_prefix_contains(required@, k as int, x as usize);
                assert(prev[x] == if required@.subrange(0, k as int).contains(x as usize) {
                    before[x].lend()
                } else {
                    before[x]
                });
            }
        }
        k = k + 1;
    }
    proof {
        assert(required@.subrange(0, k as int) =~= required@);
        assert(store@ =~= lent(before, required@));
    }
    guards
}

/// Puts the payload of each guard back into the container it was taken
/// from, place by place, and gives up one reference to each container.
fn return_all<T>(store: &mut Store<T>, required: &Vec<usize>, guards: Vec<AcquiredCown<T>>)
    requires
        old(store).wf(),
        required@.no_duplicates(),
        guards.len() == required.len(),
        forall|k: int|
            0 <= k < required.len() ==> {
                let c = #[trigger] required[k] as int;
                0 <= c < old(store)@.len() && old(store)@[c].lent()
            },
    ensures
        final(store).wf(),
        final(store)@ == returned(old(store)@, required@, payloads(guards@)),
{
    let ghost before = store@;
    let ghost values = payloads(guards@);
    let n = store.len();
    let mut guards = guards;
    let mut k: usize = 0;
    while k < required.len()
        invariant
            k <= required.len(),
            store.wf(),
            required@.no_duplicates(),
            store@.len() == before.len() == n,
            values.len() == required.len(),
            guards.len() == required.len() - k,
            forall|j: int| 0 <= j < guards.len() ==> (#[trigger] guards@[j])@ == values[k + j],
            forall|j: int|
                0 <= j < required.len() ==> {
                    let c = #[trigger] required[j] as int;
                    0 <= c < before.len() && before[c].lent()
                },
            forall|c: int|
                0 <= c < before.len() ==> #[trigger] store@[c] == if required@.subrange(
                    0,
                    k as int,
                ).contains(c as usize) {
                    before[c].restore(values[required@.index_of(c as usize)]).release()
                } else {
                    before[c]
                },
        decreases required.len() - k,
    {
        let ghost prev = store@;
        let ghost rest = guards@;
        let c = required[k];
        proof {
            assert(c == required@[k as int]);
            lemma_prefix_contains(required@, k as int, c);
            assert(prev[c as int] == before[c as int]);
            assert(required@.contains(c));
            assert(required@.index_of(c) == k);
        }
        let guard = guards.remove(0);
        assert(guard@ == values[k as int]);
        store.restore(c, guard.release());
        let destroyed = store.release(c);
        proof {
            assert forall|j: int| 0 <= j < guards.len() implies (#[trigger] guards@[j])@ == values[k
                + 1 + j] by {
                assert(guards@[j] == rest[j + 1]);
            }
            assert forall|x: int| 0 <= x < before.len() implies #[trigger] store@[x]
                == if required@.subrange(0, k + 1).contains(x as usize) {
                before[x].restore(values[required@.index_of(x as usize)]).release()
            } else {
                before[x]
            } by {
                lemma_prefix_contains(required@, k as int, x as usize);
                assert(prev[x] == if required@.subrange(0, k as int).contains(x as usize) {
                    before[x].restore(values[required@.index_of(x as usize)]).release()
                } else {
                    before[x]
                });
            }
        }
        k = k + 1;
    }
    proof {
        assert(required@.subrange(0, k as int) =~= required@);
        assert(store@ =~= returned(before, required@, values));
    }
}

impl<T, B1, B2> Scheduler<T, B1, B2> where
    B1: FnOnce(&mut AcquiredCown<T>),
    B2: FnOnce(&mut AcquiredCown<T>, &mut AcquiredCown<T>),
 {
    /// The number of workers that are running a behavior.
    pub closed spec fn busy(&self) -> nat {
        self.busy as nat
    }

    /// The invariant of the scheduler, on the executable state.
    pub open spec fn wf(&self) -> bool {
        &&& self@.wf()
        &&& self.busy() == self@.protocol.running()
    }

    /// Whether `ptr` is a handle of this scheduler that may be used: it
    /// refers to a container of the open session to which a handle is left.
    pub open spec fn is_live(&self, ptr: &sys::CownPtr) -> bool {
        ptr.addr() != 0 && self@.owns(ptr.slot())
    }

    /// The scheduler before its first session.
    pub fn new() -> (s: Self)
        ensures
            s.wf(),
            s@ == SchedulerView::<T, B1, B2>::initial(),
    {
        let s = Scheduler {
            session: Session::Uninitialized,
            detect_leaks: false,
            leak_detected: false,
            base: 0,
            busy: 0,
            store: Store::new(),
            protocol: Protocol::new(),
            bodies: Vec::new(),
        };
        assert(s@.bodies =~= Seq::empty());
        s
    }

    /// The state of the session.
    pub fn session(&self) -> (s: Session)
        ensures
            s == self@.session,
    {
        self.session
    }

    /// Opens a session with `n_threads` workers.
    pub fn init(&mut self, n_threads: usize)
        requires
            old(self).wf(),
            old(self)@.session is Uninitialized,
            n_threads >= 1,
        ensures
            final(self).wf(),
            final(self)@ == old(self)@.init(n_threads),
    {
        proof {
            lemma_init_wf(self@, n_threads);
        }
        self.session = Session::Initialized { workers: n_threads };
        self.leak_detected = false;
        self.base = self.store.len();
    }

    /// Switches the detection of leaks on or off.
    pub fn set_detect_leaks(&mut self, on: bool)
        requires
            old(self).wf(),
        ensures
            final(self).wf(),
            final(self)@ == old(self)@.set_detect_leaks(on),
    {
        self.detect_leaks = on;
    }

    /// The number of containers of this session that are alive.
    pub fn live_allocations(&self) -> (n: usize)
        requires
            self.wf(),
        ensures
            n == self@.live_allocations(),
    {
        self.store.live_from(self.base)
    }

    /// Says whether a leak is to be reported now: detection is on and a
    /// container of this session is alive.
    pub fn has_leaks(&self) -> (leaks: bool)
        requires
            self.wf(),
        ensures
            leaks == self@.leaking(),
    {
        self.detect_leaks && self.store.live_from(self.base) > 0
    }

    /// Says whether the last session that closed reported a leak.
    pub fn leak_detected(&self) -> (leaked: bool)
        ensures
            leaked == self@.leak_detected,
    {
        self.leak_detected
    }

    /// Says whether `ptr` may be used with this scheduler.
    pub fn check_live(&self, ptr: &sys::CownPtr) -> (live: bool)
        requires
            self.wf(),
        ensures
            live == self.is_live(ptr),
    {
        let addr = ptr.lead_address();
        if addr == 0 {
            return false;
        }
        let c = addr - 1;
        if c < self.base || c >= self.store.len() {
            return false;
        }
        self.store.strong_count(c) > self.protocol.queue_len(c)
    }

    /// The strong count of the container that `ptr` refers to.
    pub fn strong_count(&self, ptr: &sys::CownPtr) -> (n: usize)
        requires
            self.wf(),
            self.is_live(ptr),
        ensures
            n == self@.slots[ptr.slot()].strong,
    {
        self.store.strong_count(ptr.lead_address() - 1)
    }

    /// Creates a container around `value` and returns the one handle to it.
    pub fn create(&mut self, value: T) -> (ptr: sys::CownPtr)
        requires
            old(self).wf(),
            old(self)@.open(),
        ensures
            final(self).wf(),
            final(self)@ == old(self)@.create(value),
            ptr.slot() == old(self)@.slots.len(),
            final(self).is_live(&ptr),
    {
        let c = self.store.create(value);
        let q = self.protocol.add_cown();
        let n = self.store.len();
        proof {
            lemma_create_wf(old(self)@, value);
        }
        sys::CownPtr::to_slot(c)
    }

    /// Makes a second handle to the container that `ptr` refers to.
    pub fn retain(&mut self, ptr: &sys::CownPtr) -> (twin: sys::CownPtr)
        requires
            old(self).wf(),
            old(self).is_live(ptr),
            old(self)@.has_room(ptr.slot()),
        ensures
            final(self).wf(),
            final(self)@ == old(self)@.retain(ptr.slot()),
            twin.addr() == ptr.addr(),
            final(self).is_live(&twin),
    {
        let c = ptr.lead_address() - 1;
        proof {
            lemma_retain_wf(self@, c as int);
        }
        self.store.retain(c);
        sys::CownPtr::to_slot(c)
    }

    /// Gives up the handle `ptr`. With the last reference to the container
    /// its payload is destroyed, and the result says so.
    pub fn release(&mut self, ptr: sys::CownPtr) -> (destroyed: bool)
        requires
            old(self).wf(),
            old(self).is_live(&ptr),
        ensures
            final(self).wf(),
            final(self)@ == old(self)@.release(ptr.slot()),
            destroyed == (old(self)@.slots[ptr.slot()].strong == 1),
    {
        let c = ptr.lead_address() - 1;
        proof {
            lemma_release_wf(self@, c as int);
        }
        self.store.release(c)
    }

    /// Whether a behavior may be submitted on the containers in `required`:
    /// none is named twice, a handle to each exists, and each count has room
    /// for the reference that the behavior will hold.
    pub open spec fn may_submit(&self, required: Seq<usize>) -> bool {
        &&& required.no_duplicates()
        &&& forall|k: int|
            0 <= k < required.len() ==> {
                let c = #[trigger] required[k] as int;
                self@.owns(c) && self@.has_room(c)
            }
    }

    /// Submits a behavior with body `body` on the containers in `required`.
    fn submit(&mut self, required: Vec<usize>, body: Body<B1, B2>) -> (b: usize)
        requires
            old(self).wf(),
            old(self)@.open(),
            old(self).may_submit(required@),
            body.arity() == required.len(),
            body.callable::<T>(),
        ensures
            final(self).wf(),
            final(self)@ == old(self)@.submit(required@, body),
            b == old(self)@.protocol.states.len(),
    {
        let ghost names = required@;
        proof {
            assert forall|k: int| 0 <= k < names.len() implies {
                let c = #[trigger] names[k] as int;
                self.store.live(c) && self.store@[c].strong < usize::MAX
            } by {
                let c = names[k] as int;
                assert(self@.owns(c) && self@.has_room(c));
                assert(self@.slots[c].strong >= self@.protocol.queues[c].len());
            }
            assert(self@.protocol.admits(names)) by {
                assert forall|k: int| 0 <= k < names.len() implies (#[trigger] names[k])
                    < self@.protocol.queues.len() by {
                    assert(self@.owns(names[k] as int));
                }
            }
        }
        retain_all(&mut self.store, &required);
        let r = self.protocol.submit(required);
        self.bodies.push(Some(body));
        let n = self.bodies.len();
        proof {
            assert(self@.bodies =~= old(self)@.bodies.push(Some(body)));
            lemma_submit_keeps_wf(old(self)@, names, body);
            lemma_submit_counts(old(self)@.protocol, names);
        }
        match r {
            Ok(b) => b,
            Err(_) => unreached(),
        }
    }

    /// Submits a behavior that requires the one container that `ptr` refers
    /// to. The behavior holds a reference of its own until it has completed,
    /// so the handle may be dropped before the body runs.
    pub fn submit_one(&mut self, ptr: &sys::CownPtr, f: B1) -> (b: usize)
        requires
            old(self).wf(),
            old(self)@.open(),
            old(self).is_live(ptr),
            old(self)@.has_room(ptr.slot()),
            forall|g: &mut AcquiredCown<T>| call_requires(f, (g,)),
        ensures
            final(self).wf(),
            final(self)@ == old(self)@.submit(seq![ptr.slot() as usize], Body::One(f)),
            b == old(self)@.protocol.states.len(),
    {
        let c = ptr.lead_address() - 1;
        let mut required: Vec<usize> = Vec::new();
        required.push(c);
        assert(required@ =~= seq![c]);
        self.submit(required, Body::One(f))
    }

    /// Submits a behavior that requires the two containers that `first` and
    /// `second` refer to, which must differ.
    pub fn submit_two(&mut self, first: &sys::CownPtr, second: &sys::CownPtr, f: B2) -> (b: usize)
        requires
            old(self).wf(),
            old(self)@.open(),
            old(self).is_live(first),
            old(self).is_live(second),
            first.addr() != second.addr(),
            old(self)@.has_room(first.slot()),
            old(self)@.has_room(second.slot()),
            forall|g: &mut AcquiredCown<T>, h: &mut AcquiredCown<T>| call_requires(f, (g, h)),
        ensures
            final(self).wf(),
            final(self)@ == old(self)@.submit(
                seq![first.slot() as usize, second.slot() as usize],
                Body::Two(f),
            ),
            b == old(self)@.protocol.states.len(),
    {
        let c = first.lead_address() - 1;
        let d = second.lead_address() - 1;
        let mut required: Vec<usize> = Vec::new();
        required.push(c);
        required.push(d);
        assert(required@ =~= seq![c, d]);
        self.submit(required, Body::Two(f))
    }

    /// Begins the drain: from now on workers may pick up behaviors.
    pub fn start_run(&mut self)
        requires
            old(self).wf(),
            old(self)@.session is Initialized,
        ensures
            final(self).wf(),
            final(self)@ == old(self)@.start_run(),
    {
        let workers = match self.session {
            Session::Initialized { workers } => workers,
            _ => 1,
        };
        self.session = Session::Running { workers };
    }

    /// Ends the drain once every behavior has completed, records whether
    /// the session leaked, and closes the session.
    pub fn end_run(&mut self)
        requires
            old(self).wf(),
            old(self)@.session is Running,
            old(self)@.protocol.unfinished() == 0,
        ensures
            final(self).wf(),
            final(self)@ == old(self)@.end_run(),
    {
        let leaked = self.has_leaks();
        self.leak_detected = leaked;
        self.session = Session::Uninitialized;
    }

    /// Hands the oldest ready behavior to a worker, if a worker is free and
    /// a behavior is ready. The job carries the body and the guards of the
    /// containers that the behavior acquired.
    pub fn dispatch(&mut self) -> (job: Option<Job<T, B1, B2>>)
        requires
            old(self).wf(),
            old(self)@.session is Running,
        ensures
            final(self).wf(),
            match job {
                Some(j) => {
                    let b = j.behavior() as int;
                    let mine = old(self)@.protocol.required[b];
                    &&& old(self)@.protocol.running() < old(self)@.session->Running_workers
                    &&& old(self)@.protocol.state(b) == BehaviorState::Ready
                    &&& forall|x: int|
                        0 <= x < b ==> old(self)@.protocol.state(x) != BehaviorState::Ready
                    &&& final(self)@ == old(self)@.dispatch(b)
                    &&& j.runnable()
                    &&& j.body() == old(self)@.bodies[b]
                    &&& j.values().len() == mine.len()
                    &&& forall|k: int|
                        0 <= k < mine.len() ==> Some(#[trigger] j.values()[k]) == old(
                            self,
                        )@.slots[mine[k] as int].payload
                },
                None => {
                    &&& final(self)@ == old(self)@
                    &&& old(self)@.protocol.running() >= old(self)@.session->Running_workers
                        || forall|x: int| old(self)@.protocol.state(x) != BehaviorState::Ready
                },
            },
    {
        let workers = match self.session {
            Session::Running { workers } => workers,
            _ => 0,
        };
        if self.busy >= workers {
            return None;
        }
        match self.protocol.next_ready() {
            None => None,
            Some(b) => {
                proof {
                    lemma_dispatch_wf(self@, b as int);
                    lemma_start_counts(self@.protocol, b as int);
                    assert(self@.protocol.admits(self@.protocol.required[b as int]));
                }
                let body = self.bodies[b].take();
                let guards = lend_all(&mut self.store, self.protocol.required(b));
                self.protocol.start(b);
                self.busy = self.busy + 1;
                proof {
                    assert(self@.bodies =~= old(self)@.bodies.update(b as int, None));
                    let taken = old(self)@.bodies[b as int];
                    assert(body == taken);
                }
                match body {
                    Some(body) => Some(Job::assemble(b, body, guards)),
                    None => unreached(),
                }
            },
        }
    }

    /// Takes back a job whose body has run: the payloads return to their
    /// containers, the behavior completes and leaves its queues, and the
    /// references it held are given up.
    pub fn finish(&mut self, job: Job<T, B1, B2>)
        requires
            old(self).wf(),
            old(self)@.protocol.state(job.behavior() as int) == BehaviorState::Running,
            job.done(),
            job.values().len() == old(self)@.protocol.required[job.behavior() as int].len(),
        ensures
            final(self).wf(),
            final(self)@ == old(self)@.finish(job.behavior() as int, job.values()),
    {
        let (b, guards) = job.dismantle();
        proof {
            lemma_finish_wf(self@, b as int, job.values());
            lemma_complete_counts(self@.protocol, b as int);
            assert(self@.protocol.admits(self@.protocol.required[b as int]));
        }
        return_all(&mut self.store, self.protocol.required(b), guards);
        self.protocol.complete(b);
        self.busy = self.busy - 1;
    }

    /// Drains the session: runs every submitted behavior to completion, one
    /// after the other in the order in which they become ready, then closes
    /// the session. It returns because each round completes a behavior and
    /// the protocol cannot deadlock.
    pub fn run(&mut self)
        requires
            old(self).wf(),
            old(self)@.session is Initialized,
        ensures
            final(self).wf(),
            final(self)@.drained_from(old(self)@),
    {
        let ghost before = self@;
        self.start_run();
        loop
            invariant
                self.wf(),
                before.wf(),
                self@.session is Running,
                self@.protocol.running() == 0,
                self@.detect_leaks == before.detect_leaks,
                self@.leak_detected == before.leak_detected,
                self@.base == before.base,
                self@.slots.len() == before.slots.len(),
                self@.protocol.required == before.protocol.required,
                self@.protocol.states.len() == before.protocol.states.len(),
                forall|c: int| 0 <= c < self@.slots.len() ==> self@.handles(c) == before.handles(c),
                forall|c: int|
                    0 <= c < self@.slots.len() && before.protocol.queues[c].len() == 0 ==> {
                        &&& #[trigger] self@.slots[c] == before.slots[c]
                        &&& self@.protocol.queues[c].len() == 0
                    },
            ensures
                self.wf(),
                self@.session is Running,
                self@.detect_leaks == before.detect_leaks,
                self@.base == before.base,
                self@.slots.len() == before.slots.len(),
                self@.protocol.required == before.protocol.required,
                self@.protocol.states.len() == before.protocol.states.len(),
                forall|c: int| 0 <= c < self@.slots.len() ==> self@.handles(c) == before.handles(c),
                forall|c: int|
                    0 <= c < self@.slots.len() && before.protocol.queues[c].len() == 0
                        ==> #[trigger] self@.slots[c] == before.slots[c],
                self@.protocol.unfinished() == 0,
                forall|b: int|
                    0 <= b < self@.protocol.states.len() ==> #[trigger] self@.protocol.states[b]
                        == BehaviorState::Completed,
            decreases self@.protocol.unfinished(),
        {
            let ghost prev = self@;
            match self.dispatch() {
                None => {
                    proof {
                        lemma_idle_means_done(self@.protocol);
                    }
                    break ;
                },
                Some(mut job) => {
                    let ghost b = job.behavior() as int;
                    let ghost mid = self@;
                    proof {
                        lemma_start_counts(prev.protocol, b);
                        assert(mid.protocol.state(b) == BehaviorState::Running);
                        assert forall|c: int| 0 <= c < mid.slots.len() implies mid.handles(c)
                            == prev.handles(c) by {}
                        lemma_idle_queue_is_not_required(prev.protocol, b);
                    }
                    job.invoke();
                    proof {
                        lemma_finish_wf(mid, b, job.values());
                        lemma_complete_counts(mid.protocol, b);
                    }
                    self.finish(job);
                    proof {
                        assert forall|c: int|
                            0 <= c < self@.slots.len() && before.protocol.queues[c].len()
                                == 0 implies {
                            &&& #[trigger] self@.slots[c] == before.slots[c]
                            &&& self@.protocol.queues[c].len() == 0
                        } by {
                            assert(prev.slots[c] == before.slots[c]);
                            assert(!prev.protocol.required[b].contains(c as usize));
                        }
                    }
                },
            }
        }
        self.end_run();
        proof {
            let v = self@;
            assert forall|c: int| 0 <= c < v.slots.len() implies {
                &&& (#[trigger] v.slots[c]).strong == before.handles(c)
                &&& v.protocol.queues[c].len() == 0
                &&& before.protocol.queues[c].len() == 0 ==> v.slots[c] == before.slots[c]
            } by {
                assert(v.handles(c) == before.handles(c));
                if before.protocol.queues[c].len() == 0 {
                    assert(v.slots[c] == before.slots[c]);
                }
                if v.protocol.queues[c].len() > 0 {
                    let h = v.protocol.queues[c][0];
                    assert(v.protocol.states[h as int] != BehaviorState::Completed);
                }
            }
        }
    }

    /// The number of workers that are running a behavior.
    pub fn busy_workers(&self) -> (n: usize)
        requires
            self.wf(),
        ensures
            n == self@.protocol.running(),
    {
        self.busy
    }

    /// The number of behaviors submitted so far, over all sessions.
    pub fn behavior_count(&self) -> (n: usize)
        ensures
            n == self@.protocol.states.len(),
    {
        self.protocol.behavior_count()
    }

    /// The state of behavior `b`.
    pub fn state(&self, b: usize) -> (s: BehaviorState)
        ensures
            s == self@.protocol.state(b as int),
    {
        self.protocol.state(b)
    }

    /// Ends the drain if every behavior has completed, and says whether it
    /// did. While a behavior is left the scheduler stays as it is.
    pub fn try_end_run(&mut self) -> (closed: bool)
        requires
            old(self).wf(),
            old(self)@.session is Running,
        ensures
            final(self).wf(),
            closed == (old(self)@.protocol.unfinished() == 0),
            final(self)@ == if closed {
                old(self)@.end_run()
            } else {
                old(self)@
            },
    {
        proof {
            lemma_done_iff_idle(self@.protocol);
        }
        if self.busy > 0 {
            return false;
        }
        match self.protocol.next_ready() {
            Some(_) => false,
            None => {
                self.end_run();
                true
            },
        }
    }
}

} // verus!
