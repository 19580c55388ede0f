//! The scheduler as a mathematical state with its transitions and invariant.

use crate::protocol::model::{BehaviorState, ProtocolView};
use crate::store::{count_live, lent, retained, returned, SlotView};
use crate::when::{AcquiredCown, Body};
use vstd::prelude::*;

verus! {

/// The state of the session.
#[derive(Clone, Copy, PartialEq, Eq, Structural, Debug)]
pub enum Session {
    /// No session is open.
    Uninitialized,
    /// A session is open: containers may be created and behaviors submitted.
    Initialized { workers: usize },
    /// The session drains: the workers run the behaviors.
    Running { workers: usize },
}

/// The mathematical state of the scheduler.
pub struct SchedulerView<T, B1, B2> {
    /// The state of the session.
    pub session: Session,
    /// Whether containers left alive at the end of the session are reported.
    pub detect_leaks: bool,
    /// Whether the last session that closed reported a leak.
    pub leak_detected: bool,
    /// The first slot of the session; the slots below belong to earlier ones.
    pub base: nat,
    /// The slots of all containers.
    pub slots: Seq<SlotView<T>>,
    /// The queues and the behaviors.
    pub protocol: ProtocolView,
    /// The body of each behavior, until a worker takes it.
    pub bodies: Seq<Option<Body<B1, B2>>>,
}

impl<T, B1, B2> SchedulerView<T, B1, B2> where
    B1: FnOnce(&mut AcquiredCown<T>),
    B2: FnOnce(&mut AcquiredCown<T>, &mut AcquiredCown<T>),
 {
    /// The scheduler before its first session.
    pub open spec fn initial() -> Self {
        SchedulerView {
            session: Session::Uninitialized,
            detect_leaks: false,
            leak_detected: false,
            base: 0,
            slots: Seq::empty(),
            protocol: ProtocolView::empty(),
            bodies: Seq::empty(),
        }
    }

    /// The number of handles to the container in slot `c`: its strong count
    /// less the references that unfinished behaviors hold.
    pub open spec fn handles(self, c: int) -> int {
        self.slots[c].strong - self.protocol.queues[c].len()
    }

    /// Whether a handle to the container in slot `c` can exist: the container
    /// was created in this session, and a reference that no behavior holds is
    /// left.
    pub open spec fn owns(self, c: int) -> bool {
        self.base <= c < self.slots.len() && self.handles(c) > 0
    }

    /// Whether one more reference to the container in slot `c` can be counted.
    pub open spec fn has_room(self, c: int) -> bool {
        self.slots[c].strong < usize::MAX
    }

    /// Whether a session is open for creating containers and submitting
    /// behaviors: from its opening to the end of its drain.
    pub open spec fn open(self) -> bool {
        !(self.session is Uninitialized)
    }

    /// The number of containers of this session that are alive.
    pub open spec fn live_allocations(self) -> nat {
        count_live(self.slots.subrange(self.base as int, self.slots.len() as int))
    }

    /// Whether a leak is to be reported: detection is on and a container of
    /// this session is alive.
    pub open spec fn leaking(self) -> bool {
        self.detect_leaks && self.live_allocations() > 0
    }

    /// The state after a session was opened with `workers` workers.
    pub open spec fn init(self, workers: usize) -> Self {
        SchedulerView {
            session: Session::Initialized { workers },
            leak_detected: false,
            base: self.slots.len(),
            ..self
        }
    }

    /// The state after leak detection was switched.
    pub open spec fn set_detect_leaks(self, on: bool) -> Self {
        SchedulerView { detect_leaks: on, ..self }
    }

    /// The state after a container was created around `value`.
    pub open spec fn create(self, value: T) -> Self {
        SchedulerView {
            slots: self.slots.push(SlotView::fresh(value)),
            protocol: self.protocol.add_cown(),
            ..self
        }
    }

    /// The state after a handle to slot `c` was cloned.
    pub open spec fn retain(self, c: int) -> Self {
        SchedulerView { slots: self.slots.update(c, self.slots[c].retain()), ..self }
    }

    /// The state after a handle to slot `c` was dropped.
    pub open spec fn release(self, c: int) -> Self {
        SchedulerView { slots: self.slots.update(c, self.slots[c].release()), ..self }
    }

    /// The state after a behavior with body `body` was submitted on the
    /// containers in `required`: the behavior holds a reference to each of
    /// them until it has completed.
    pub open spec fn submit(self, required: Seq<usize>, body: Body<B1, B2>) -> Self {
        SchedulerView {
            slots: retained(self.slots, required),
            protocol: self.protocol.submit(required),
            bodies: self.bodies.push(Some(body)),
            ..self
        }
    }

    /// The state after the drain began.
    pub open spec fn start_run(self) -> Self {
        SchedulerView { session: Session::Running { workers: self.session->Initialized_workers }, ..self }
    }

    /// The state after a worker picked up behavior `b`, with its body and
    /// the payloads of its containers.
    pub open spec fn dispatch(self, b: int) -> Self {
        SchedulerView {
            slots: lent(self.slots, self.protocol.required[b]),
            protocol: self.protocol.start(b),
            bodies: self.bodies.update(b, None),
            ..self
        }
    }

    /// The state after behavior `b` completed and handed back `values`.
    pub open spec fn finish(self, b: int, values: Seq<T>) -> Self {
        SchedulerView {
            slots: returned(self.slots, self.protocol.required[b], values),
            protocol: self.protocol.complete(b),
            ..self
        }
    }

    /// The state after the drain ended and the session closed: a leak is
    /// on record if detection was on and a container of the session is alive.
    pub open spec fn end_run(self) -> Self {
        SchedulerView { session: Session::Uninitialized, leak_detected: self.leaking(), ..self }
    }

    /// Whether `other` is in the same session with the same settings.
    pub open spec fn same_session(self, other: Self) -> bool {
        &&& self.session == other.session
        &&& self.detect_leaks == other.detect_leaks
        &&& self.leak_detected == other.leak_detected
        &&& self.base == other.base
    }

    /// Every container is referred to by each unfinished behavior that
    /// requires it.
    pub open spec fn counts_cover_queues(self) -> bool {
        forall|c: int|
            0 <= c < self.slots.len() ==> (#[trigger] self.slots[c]).strong
                >= self.protocol.queues[c].len()
    }

    /// A payload is out of the store exactly while a running behavior holds
    /// its container.
    pub open spec fn lent_iff_running(self) -> bool {
        forall|c: int|
            0 <= c < self.slots.len() ==> (#[trigger] self.slots[c]).lent() == (
            self.protocol.queues[c].len() > 0 && self.protocol.state(
                self.protocol.queues[c][0] as int,
            ) == BehaviorState::Running)
    }

    /// A behavior has its body exactly until a worker picks it up, and the
    /// body takes as many guards as the behavior requires containers.
    pub open spec fn bodies_wf(self) -> bool {
        &&& self.bodies.len() == self.protocol.states.len()
        &&& forall|b: int|
            0 <= b < self.bodies.len() ==> match #[trigger] self.bodies[b] {
                Some(body) => {
                    &&& self.protocol.states[b] == BehaviorState::Waiting
                        || self.protocol.states[b] == BehaviorState::Ready
                    &&& body.arity() == self.protocol.required[b].len()
                    &&& body.callable::<T>()
                },
                None => self.protocol.states[b] == BehaviorState::Running
                    || self.protocol.states[b] == BehaviorState::Completed,
            }
    }

    /// Outside a session every behavior has completed; in an open session
    /// none runs yet; in a drain no more run than there are workers.
    pub open spec fn session_wf(self) -> bool {
        match self.session {
            Session::Uninitialized => self.protocol.unfinished() == 0,
            Session::Initialized { workers } => workers >= 1 && self.protocol.running() == 0,
            Session::Running { workers } => workers >= 1 && self.protocol.running() <= workers,
        }
    }

    /// The invariant of the scheduler.
    pub open spec fn wf(self) -> bool {
        &&& forall|c: int| 0 <= c < self.slots.len() ==> (#[trigger] self.slots[c]).wf()
        &&& self.protocol.wf()
        &&& self.protocol.queues.len() == self.slots.len()
        &&& self.base <= self.slots.len()
        &&& self.counts_cover_queues()
        &&& self.lent_iff_running()
        &&& self.bodies_wf()
        &&& self.session_wf()
    }

    /// Whether `self` is what a drain makes of `before`: every behavior has
    /// completed and left its queues, each container is left with the
    /// references that its handles hold, and the session is closed with the
    /// leak on record. A container that no behavior was waiting for is as it
    /// was; what the bodies made of the payloads of the others is open.
    pub open spec fn drained_from(self, before: Self) -> bool {
        &&& self.session is Uninitialized
        &&& self.detect_leaks == before.detect_leaks
        &&& self.base == before.base
        &&& self.leak_detected == self.leaking()
        &&& self.slots.len() == before.slots.len()
        &&& self.protocol.queues.len() == before.protocol.queues.len()
        &&& self.protocol.required == before.protocol.required
        &&& self.protocol.states.len() == before.protocol.states.len()
        &&& forall|b: int|
            0 <= b < self.protocol.states.len() ==> #[trigger] self.protocol.states[b]
                == BehaviorState::Completed
        &&& forall|c: int|
            0 <= c < self.slots.len() ==> {
                &&& (#[trigger] self.slots[c]).strong == before.handles(c)
                &&& self.protocol.queues[c].len() == 0
                &&& before.protocol.queues[c].len() == 0 ==> self.slots[c] == before.slots[c]
            }
    }
}

} // verus!
