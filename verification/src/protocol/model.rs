//! The protocol as a mathematical state with its transitions and invariant.

use vstd::prelude::*;

verus! {

/// Where a behavior stands on its way from submission to completion.
#[derive(Clone, Copy, PartialEq, Eq, Structural, Debug)]
pub enum BehaviorState {
    /// Not submitted yet.
    Pending,
    /// Enqueued on every required container, behind another behavior on at
    /// least one of them.
    Waiting,
    /// At the head of every required queue, not yet picked up by a worker.
    Ready,
    /// Its body is executing.
    Running,
    /// Its body has returned and its containers are released.
    Completed,
}

/// Why a submission was turned down.
#[derive(Clone, Copy, PartialEq, Eq, Structural, Debug)]
pub enum SubmitError {
    /// A required container is not known to the protocol.
    UnknownContainer,
    /// The same container was named twice.
    DuplicateContainer,
}

/// The mathematical state of the protocol.
pub struct ProtocolView {
    /// For each container, the behaviors waiting for or holding it, oldest first.
    pub queues: Seq<Seq<usize>>,
    /// For each submitted behavior, the containers it requires, in the order given.
    pub required: Seq<Seq<usize>>,
    /// For each submitted behavior, its state.
    pub states: Seq<BehaviorState>,
}

/// Whether every container named in `required` is below `cowns`.
pub open spec fn all_below(required: Seq<usize>, cowns: nat) -> bool {
    forall|k: int| 0 <= k < required.len() ==> (#[trigger] required[k]) < cowns
}

/// How many of `states` are `target`.
pub open spec fn count_in(states: Seq<BehaviorState>, target: BehaviorState) -> nat
    decreases states.len(),
{
    if states.len() == 0 {
        0
    } else {
        count_in(states.drop_last(), target) + if states.last() == target {
            1nat
        } else {
            0nat
        }
    }
}

impl ProtocolView {
    /// The state with no container and no behavior.
    pub open spec fn empty() -> ProtocolView {
        ProtocolView { queues: Seq::empty(), required: Seq::empty(), states: Seq::empty() }
    }

    /// The state of behavior `b`; a behavior that was never submitted is pending.
    pub open spec fn state(self, b: int) -> BehaviorState {
        if 0 <= b < self.states.len() {
            self.states[b]
        } else {
            BehaviorState::Pending
        }
    }

    /// Whether behavior `b` requires container `c`.
    pub open spec fn requires_cown(self, b: int, c: usize) -> bool {
        0 <= b < self.required.len() && self.required[b].contains(c)
    }

    /// Whether `b` is the oldest behavior in the queue of container `c`.
    pub open spec fn heads(self, b: usize, c: int) -> bool {
        0 <= c < self.queues.len() && self.queues[c].len() > 0 && self.queues[c][0] == b
    }

    /// Whether `b` heads the queue of every container in `required`.
    pub open spec fn heads_all(self, b: usize, required: Seq<usize>) -> bool {
        forall|k: int| 0 <= k < required.len() ==> self.heads(b, #[trigger] required[k] as int)
    }

    /// Whether a set of containers may be submitted: each is known, none is
    /// named twice.
    pub open spec fn admits(self, required: Seq<usize>) -> bool {
        &&& required.no_duplicates()
        &&& all_below(required, self.queues.len())
    }

    /// The state after a container was added.
    pub open spec fn add_cown(self) -> ProtocolView {
        ProtocolView { queues: self.queues.push(Seq::empty()), ..self }
    }

    /// The queues after behavior `b` joined the back of each queue in `required`.
    pub open spec fn enqueued(self, b: usize, required: Seq<usize>) -> Seq<Seq<usize>> {
        Seq::new(
            self.queues.len(),
            |c: int|
                if required.contains(c as usize) {
                    self.queues[c].push(b)
                } else {
                    self.queues[c]
                },
        )
    }

    /// The state after a behavior requiring `required` was submitted. The new
    /// behavior gets the next free number and is ready at once if every queue
    /// it joined was empty.
    pub open spec fn submit(self, required: Seq<usize>) -> ProtocolView {
        let b = self.states.len() as usize;
        let queued = ProtocolView { queues: self.enqueued(b, required), ..self };
        let state = if queued.heads_all(b, required) {
            BehaviorState::Ready
        } else {
            BehaviorState::Waiting
        };
        ProtocolView {
            queues: queued.queues,
            required: self.required.push(required),
            states: self.states.push(state),
        }
    }

    /// The state after a worker picked up behavior `b`.
    pub open spec fn start(self, b: int) -> ProtocolView {
        ProtocolView { states: self.states.update(b, BehaviorState::Running), ..self }
    }

    /// The queues after the head left each queue in `required`.
    pub open spec fn dequeued(self, required: Seq<usize>) -> Seq<Seq<usize>> {
        Seq::new(
            self.queues.len(),
            |c: int|
                if required.contains(c as usize) {
                    self.queues[c].drop_first()
                } else {
                    self.queues[c]
                },
        )
    }

    /// The state after behavior `b` completed: it leaves the head of each of
    /// its queues, and every waiting behavior that now heads all of its own
    /// queues becomes ready.
    pub open spec fn complete(self, b: int) -> ProtocolView {
        let left = ProtocolView { queues: self.dequeued(self.required[b]), ..self };
        ProtocolView {
            queues: left.queues,
            required: self.required,
            states: Seq::new(
                self.states.len(),
                |x: int|
                    if x == b {
                        BehaviorState::Completed
                    } else if self.states[x] == BehaviorState::Waiting && left.heads_all(
                        x as usize,
                        self.required[x],
                    ) {
                        BehaviorState::Ready
                    } else {
                        self.states[x]
                    },
            ),
        }
    }

    /// Every submitted behavior names known containers, none of them twice,
    /// and has left the pending state.
    pub open spec fn records_wf(self) -> bool {
        &&& self.required.len() == self.states.len()
        &&& self.states.len() <= usize::MAX
        &&& self.queues.len() <= usize::MAX
        &&& forall|b: int|
            0 <= b < self.states.len() ==> self.admits(#[trigger] self.required[b])
        &&& forall|b: int|
            0 <= b < self.states.len() ==> #[trigger] self.states[b] != BehaviorState::Pending
    }

    /// Every entry of a queue is a behavior that requires that container and
    /// has not completed.
    pub open spec fn queued_are_waiting(self) -> bool {
        forall|c: int, i: int|
            0 <= c < self.queues.len() && 0 <= i < self.queues[c].len() ==> {
                let b = #[trigger] self.queues[c][i];
                &&& b < self.states.len()
                &&& self.states[b as int] != BehaviorState::Completed
                &&& self.required[b as int].contains(c as usize)
            }
    }

    /// Every queue holds its behaviors in the order of their submission.
    pub open spec fn queues_in_order(self) -> bool {
        forall|c: int, i: int, j: int|
            0 <= c < self.queues.len() && 0 <= i < j < self.queues[c].len()
                ==> #[trigger] self.queues[c][i] < #[trigger] self.queues[c][j]
    }

    /// Every behavior that has not completed stands in the queue of each
    /// container it requires.
    pub open spec fn waiting_are_queued(self) -> bool {
        forall|b: int, k: int|
            0 <= b < self.states.len() && self.states[b] != BehaviorState::Completed && 0 <= k
                < self.required[b].len() ==> self.queues[#[trigger] self.required[b][k] as int].contains(
                b as usize,
            )
    }

    /// A behavior is ready or running only while it heads all of its queues,
    /// and waits only while it does not.
    pub open spec fn ready_iff_heads(self) -> bool {
        forall|b: int|
            0 <= b < self.states.len() ==> {
                let s = #[trigger] self.states[b];
                &&& (s == BehaviorState::Ready || s == BehaviorState::Running)
                    ==> self.heads_all(b as usize, self.required[b])
                &&& s == BehaviorState::Waiting ==> !self.heads_all(b as usize, self.required[b])
            }
    }

    /// A behavior completes only after every earlier behavior with which it
    /// shares a container.
    pub open spec fn completed_in_order(self) -> bool {
        forall|a: int, b: int, c: usize|
            0 <= a < b < self.states.len() && self.states[b] == BehaviorState::Completed
                && #[trigger] self.requires_cown(a, c) && #[trigger] self.requires_cown(b, c)
                ==> self.states[a] == BehaviorState::Completed
    }

    /// The invariant of the protocol.
    pub open spec fn wf(self) -> bool {
        &&& self.records_wf()
        &&& self.queued_are_waiting()
        &&& self.queues_in_order()
        &&& self.waiting_are_queued()
        &&& self.ready_iff_heads()
        &&& self.completed_in_order()
    }

    /// Whether the body of `b` may be executing or about to: `b` holds every
    /// container it requires.
    pub open spec fn holds_cowns(self, b: int) -> bool {
        self.state(b) == BehaviorState::Ready || self.state(b) == BehaviorState::Running
    }

    /// Whether `b` has been granted its containers at some point.
    pub open spec fn was_scheduled(self, b: int) -> bool {
        self.holds_cowns(b) || self.state(b) == BehaviorState::Completed
    }

    /// Whether some behavior submitted before `b` shares a container with it
    /// and has not completed.
    pub open spec fn blocked_by_earlier(self, b: int) -> bool {
        exists|a: int, c: usize|
            0 <= a < b && #[trigger] self.requires_cown(a, c) && #[trigger] self.requires_cown(b, c)
                && self.state(a) != BehaviorState::Completed
    }

    /// The states right after `b` left its queues, before any waiting
    /// behavior was looked at.
    pub open spec fn released(self, b: int) -> ProtocolView {
        ProtocolView {
            queues: self.dequeued(self.required[b]),
            required: self.required,
            states: self.states.update(b, BehaviorState::Completed),
        }
    }

    /// The number of behaviors whose body is executing.
    pub open spec fn running(self) -> nat {
        count_in(self.states, BehaviorState::Running)
    }

    /// The number of behaviors that have completed.
    pub open spec fn completed(self) -> nat {
        count_in(self.states, BehaviorState::Completed)
    }

    /// The number of behaviors submitted and not yet completed.
    pub open spec fn unfinished(self) -> nat {
        (self.states.len() - self.completed()) as nat
    }
}

} // verus!
