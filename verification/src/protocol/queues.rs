//! The protocol as it runs: the queues and the record of every behavior.

use crate::protocol::laws::{
    lemma_add_cown_wf, lemma_complete_wf, lemma_heads_all_same, lemma_prefix_contains,
    lemma_promoted_heads_a_left_queue, lemma_start_wf, lemma_submit_wf,
};
use crate::protocol::model::{all_below, BehaviorState, ProtocolView, SubmitError};
use vstd::prelude::*;

verus! {

/// What the protocol keeps of one submitted behavior.
struct Record {
    required: Vec<usize>,
    state: BehaviorState,
}

/// The wait queues of all containers and the state of every behavior.
pub struct Protocol {
    queues: Vec<Vec<usize>>,
    records: Vec<Record>,
}

impl View for Protocol {
    type V = ProtocolView;

    closed spec fn view(&self) -> ProtocolView {
        ProtocolView {
            queues: Seq::new(self.queues.len() as nat, |c: int| self.queues[c]@),
            required: Seq::new(self.records.len() as nat, |b: int| self.records[b].required@),
            states: Seq::new(self.records.len() as nat, |b: int| self.records[b].state),
        }
    }
}

/// Says whether every container named in `required` is below `cowns`.
pub fn check_all_below(required: &Vec<usize>, cowns: usize) -> (ok: bool)
    ensures
        ok == all_below(required@, cowns as nat),
{
    let mut k: usize = 0;
    while k < required.len()
        invariant
            k <= required.len(),
            all_below(required@.subrange(0, k as int), cowns as nat),
        decreases required.len() - k,
    {
        if required[k] >= cowns {
            return false;
        }
        proof {
            let next = required@.subrange(0, k + 1);
            assert forall|i: int| 0 <= i < next.len() implies (#[trigger] next[i]) < cowns by {
                if i < k {
                    assert(required@.subrange(0, k as int)[i] < cowns);
                }
            }
        }
        k = k + 1;
    }
    assert(required@.subrange(0, k as int) =~= required@);
    true
}

/// Says whether no container is named twice in `required`.
pub fn check_distinct(required: &Vec<usize>) -> (ok: bool)
    ensures
        ok == required@.no_duplicates(),
{
    let mut i: usize = 0;
    while i < required.len()
        invariant
            i <= required.len(),
            forall|a: int, b: int| 0 <= a < b < i ==> required[a] != required[b],
        decreases required.len() - i,
    {
        let mut j: usize = 0;
        while j < i
            invariant
                j <= i < required.len(),
                forall|a: int| 0 <= a < j ==> required[a] != required[i as int],
            decreases i - j,
        {
            if required[j] == required[i] {
                return false;
            }
            j = j + 1;
        }
        i = i + 1;
    }
    true
}

impl Protocol {
    /// The invariant of the protocol, on the executable state.
    pub open spec fn wf(&self) -> bool {
        self@.wf()
    }

    /// A protocol with no container and no behavior.
    pub fn new() -> (p: Protocol)
        ensures
            p@ == ProtocolView::empty(),
            p.wf(),
    {
        let p = Protocol { queues: Vec::new(), records: Vec::new() };
        assert(p@.queues =~= Seq::empty());
        assert(p@.required =~= Seq::empty());
        assert(p@.states =~= Seq::empty());
        p
    }

    /// The number of containers.
    pub fn cown_count(&self) -> (n: usize)
        ensures
            n == self@.queues.len(),
    {
        self.queues.len()
    }

    /// The number of behaviors submitted so far.
    pub fn behavior_count(&self) -> (n: usize)
        ensures
            n == self@.states.len(),
    {
        self.records.len()
    }

    /// The state of behavior `b`.
    pub fn state(&self, b: usize) -> (s: BehaviorState)
        ensures
            s == self@.state(b as int),
    {
        if b < self.records.len() {
            self.records[b].state
        } else {
            BehaviorState::Pending
        }
    }

    /// The containers that behavior `b` requires, in the order of its submission.
    pub fn required(&self, b: usize) -> (r: &Vec<usize>)
        requires
            b < self@.states.len(),
        ensures
            r@ == self@.required[b as int],
    {
        &self.records[b].required
    }

    /// The number of behaviors that wait for or hold container `c`.
    pub fn queue_len(&self, c: usize) -> (n: usize)
        requires
            c < self@.queues.len(),
        ensures
            n == self@.queues[c as int].len(),
    {
        self.queues[c].len()
    }

    /// Says whether `b` is the oldest behavior in the queue of every container
    /// in `required`.
    pub fn heads_all(&self, b: usize, required: &Vec<usize>) -> (yes: bool)
        requires
            all_below(required@, self@.queues.len()),
        ensures
            yes == self@.heads_all(b, required@),
    {
        let mut k: usize = 0;
        while k < required.len()
            invariant
                k <= required.len(),
                all_below(required@, self@.queues.len()),
                forall|i: int| 0 <= i < k ==> self@.heads(b, #[trigger] required@[i] as int),
            decreases required.len() - k,
        {
            let c = required[k];
            assert(c == required@[k as int]);
            if self.queues[c].len() == 0 || self.queues[c][0] != b {
                assert(!self@.heads(b, required@[k as int] as int));
                return false;
            }
            k = k + 1;
        }
        true
    }

    /// Adds a container with an empty queue and returns its number.
    pub fn add_cown(&mut self) -> (c: usize)
        requires
            old(self).wf(),
        ensures
            final(self).wf(),
            final(self)@ == old(self)@.add_cown(),
            c == old(self)@.queues.len(),
    {
        let c = self.queues.len();
        self.queues.push(Vec::new());
        let n = self.queues.len();
        proof {
            assert(self@.queues =~= old(self)@.queues.push(Seq::empty()));
            assert(self@.required =~= old(self)@.required);
            assert(self@.states =~= old(self)@.states);
            lemma_add_cown_wf(old(self)@);
        }
        c
    }

    /// Hands behavior `b`, which is ready, to a worker.
    pub fn start(&mut self, b: usize)
        requires
            old(self).wf(),
            old(self)@.state(b as int) == BehaviorState::Ready,
        ensures
            final(self).wf(),
            final(self)@ == old(self)@.start(b as int),
    {
        self.records[b].state = BehaviorState::Running;
        proof {
            assert(self@.queues =~= old(self)@.queues);
            assert(self@.required =~= old(self)@.required);
            assert(self@.states =~= old(self)@.states.update(b as int, BehaviorState::Running));
            lemma_start_wf(old(self)@, b as int);
        }
    }

    /// The oldest ready behavior, if any behavior is ready.
    pub fn next_ready(&self) -> (next: Option<usize>)
        ensures
            match next {
                Some(b) => self@.state(b as int) == BehaviorState::Ready && forall|x: int|
                    0 <= x < b ==> self@.state(x) != BehaviorState::Ready,
                None => forall|x: int| self@.state(x) != BehaviorState::Ready,
            },
    {
        let mut b: usize = 0;
        while b < self.records.len()
            invariant
                b <= self.records.len(),
                forall|x: int| 0 <= x < b ==> self@.state(x) != BehaviorState::Ready,
            decreases self.records.len() - b,
        {
            if self.records[b].state == BehaviorState::Ready {
                return Some(b);
            }
            b = b + 1;
        }
        None
    }

    /// Puts `b` at the back of the queue of every container in `required`.
    fn enqueue_all(&mut self, b: usize, required: &Vec<usize>)
        requires
            old(self)@.admits(required@),
        ensures
            final(self)@.queues == old(self)@.enqueued(b, required@),
            final(self)@.required == old(self)@.required,
            final(self)@.states == old(self)@.states,
    {
        let ghost before = self@;
        let mut k: usize = 0;
        while k < required.len()
            invariant
                k <= required.len(),
                before.admits(required@),
                self@.required == before.required,
                self@.states == before.states,
                self@.queues.len() == before.queues.len(),
                forall|c: int|
                    0 <= c < before.queues.len() ==> #[trigger] self@.queues[c] == if required@.subrange(
                        0,
                        k as int,
                    ).contains(c as usize) {
                        before.queues[c].push(b)
                    } else {
                        before.queues[c]
                    },
            decreases required.len() - k,
        {
            let ghost prev = self@;
            let c = required[k];
            assert(c == required@[k as int]);
            self.queues[c].push(b);
            proof {
                assert(self@.required =~= prev.required);
                assert(self@.states =~= prev.states);
                assert forall|x: int| 0 <= x < before.queues.len() implies #[trigger] self@.queues[x]
                    == if required@.subrange(0, k + 1).contains(x as usize) {
                    before.queues[x].push(b)
                } else {
                    before.queues[x]
                } by {
                    lemma_prefix_contains(required@, k as int, x as usize);
                    assert(prev.queues[x] == if required@.subrange(0, k as int).contains(x as usize) {
                        before.queues[x].push(b)
                    } else {
                        before.queues[x]
                    });
                }
            }
            k = k + 1;
        }
        proof {
            assert(required@.subrange(0, k as int) =~= required@);
            assert(self@.queues =~= before.enqueued(b, required@));
        }
    }

    /// Submits a behavior that requires the containers in `required`. It
    /// joins the back of the queue of each of them and is ready at once if
    /// it heads them all. Nothing changes when the submission is turned down.
    pub fn submit(&mut self, required: Vec<usize>) -> (r: Result<usize, SubmitError>)
        requires
            old(self).wf(),
        ensures
            final(self).wf(),
            match r {
                Ok(b) => {
                    &&& old(self)@.admits(required@)
                    &&& b == old(self)@.states.len()
                    &&& final(self)@ == old(self)@.submit(required@)
                },
                Err(SubmitError::UnknownContainer) => !all_below(
                    required@,
                    old(self)@.queues.len(),
                ) && final(self)@ == old(self)@,
                Err(SubmitError::DuplicateContainer) => all_below(
                    required@,
                    old(self)@.queues.len(),
                ) && !required@.no_duplicates() && final(self)@ == old(self)@,
            },
    {
        if !check_all_below(&required, self.queues.len()) {
            return Err(SubmitError::UnknownContainer);
        }
        if !check_distinct(&required) {
            return Err(SubmitError::DuplicateContainer);
        }
        let b = self.records.len();
        self.enqueue_all(b, &required);
        let ghost queued = self@;
        let ready = self.heads_all(b, &required);
        let state = if ready {
            BehaviorState::Ready
        } else {
            BehaviorState::Waiting
        };
        let ghost names = required@;
        self.records.push(Record { required, state });
        let n = self.records.len();
        proof {
            let want = old(self)@.submit(names);
            assert(queued == ProtocolView { queues: old(self)@.enqueued(b, names), ..old(self)@ });
            assert(self@.queues =~= want.queues);
            assert(self@.required =~= want.required);
            assert(self@.states =~= want.states);
            lemma_submit_wf(old(self)@, names);
        }
        Ok(b)
    }

    /// Takes the head off the queue of every container that `b` requires.
    fn dequeue_all(&mut self, b: usize)
        requires
            old(self).wf(),
            old(self)@.state(b as int) == BehaviorState::Running,
        ensures
            final(self)@.queues == old(self)@.dequeued(old(self)@.required[b as int]),
            final(self)@.required == old(self)@.required,
            final(self)@.states == old(self)@.states,
    {
        let ghost before = self@;
        let ghost mine = before.required[b as int];
        let n = self.records[b].required.len();
        proof {
            let sb = before.states[b as int];
            assert(before.admits(mine));
            assert(before.heads_all(b, mine));
        }
        let mut k: usize = 0;
        while k < n
            invariant
                k <= n == mine.len(),
                b < before.states.len(),
                mine == before.required[b as int],
                before.admits(mine),
                before.heads_all(b, mine),
                self@.required == before.required,
                self@.states == before.states,
                self@.queues.len() == before.queues.len(),
                forall|c: int|
                    0 <= c < before.queues.len() ==> #[trigger] self@.queues[c] == if mine.subrange(
                        0,
                        k as int,
                    ).contains(c as usize) {
                        before.queues[c].drop_first()
                    } else {
                        before.queues[c]
                    },
            decreases n - k,
        {
            let ghost prev = self@;
            let c = self.records[b].required[k];
            proof {
                assert(c == mine[k as int]);
                assert(before.heads(b, mine[k as int] as int));
                lemma_prefix_contains(mine, k as int, c);
                assert(prev.queues[c as int] == before.queues[c as int]);
            }
            let head = self.queues[c].remove(0);
            proof {
                assert(self@.required =~= prev.required);
                assert(self@.states =~= prev.states);
                assert(before.queues[c as int].remove(0) =~= before.queues[c as int].drop_first());
                assert forall|x: int| 0 <= x < before.queues.len() implies #[trigger] self@.queues[x]
                    == if mine.subrange(0, k + 1).contains(x as usize) {
                    before.queues[x].drop_first()
                } else {
                    before.queues[x]
                } by {
                    lemma_prefix_contains(mine, k as int, x as usize);
                    assert(prev.queues[x] == if mine.subrange(0, k as int).contains(x as usize) {
                        before.queues[x].drop_first()
                    } else {
                        before.queues[x]
                    });
                }
            }
            k = k + 1;
        }
        proof {
            assert(mine.subrange(0, k as int) =~= mine);
            assert(self@.queues =~= before.dequeued(mine));
        }
    }

    /// Releases the containers of behavior `b`, whose body has returned. The
    /// behavior leaves the head of each of its queues, and each behavior
    /// that thereby comes to head all of its own queues becomes ready.
    pub fn complete(&mut self, b: usize)
        requires
            old(self).wf(),
            old(self)@.state(b as int) == BehaviorState::Running,
        ensures
            final(self).wf(),
            final(self)@ == old(self)@.complete(b as int),
    {
        let ghost before = self@;
        let ghost mine = before.required[b as int];
        let ghost mid = before.released(b as int);
        let ghost target = before.complete(b as int);
        let ghost left = ProtocolView { queues: before.dequeued(mine), ..before };
        self.dequeue_all(b);
        self.records[b].state = BehaviorState::Completed;
        let n = self.records[b].required.len();
        proof {
            lemma_complete_wf(before, b as int);
            assert(self@.queues =~= mid.queues);
            assert(self@.required =~= mid.required);
            assert(self@.states =~= mid.states);
            assert(before.admits(mine));
        }
        let mut k: usize = 0;
        while k < n
            invariant
                k <= n == mine.len(),
                b < before.states.len(),
                before.wf(),
                target.wf(),
                mine == before.required[b as int],
                mid == before.released(b as int),
                target == before.complete(b as int),
                left == (ProtocolView { queues: before.dequeued(mine), ..before }),
                self@.queues == mid.queues,
                self@.required == mid.required,
                self@.states.len() == mid.states.len(),
                forall|x: int|
                    0 <= x < mid.states.len() ==> #[trigger] self@.states[x] == target.states[x]
                        || self@.states[x] == mid.states[x],
                forall|j: int|
                    0 <= j < k && mid.queues[#[trigger] mine[j] as int].len() > 0 ==> {
                        let h = mid.queues[mine[j] as int][0] as int;
                        self@.states[h] == target.states[h]
                    },
            decreases n - k,
        {
            let ghost prev = self@;
            let c = self.records[b].required[k];
            proof {
                assert(c == mine[k as int]);
                assert(before.admits(mine));
                assert(c < before.queues.len());
            }
            if self.queues[c].len() > 0 {
                let h = self.queues[c][0];
                proof {
                    assert(target.queues[c as int][0] == h);
                    assert(h < target.states.len());
                    assert(before.admits(before.required[h as int]));
                    assert(prev.states[h as int] == self.records[h as int].state);
                }
                if self.records[h].state == BehaviorState::Waiting {
                    let yes = self.heads_all(h, &self.records[h].required);
                    proof {
                        lemma_heads_all_same(self@, left, h, before.required[h as int]);
                    }
                    if yes {
                        self.records[h].state = BehaviorState::Ready;
                    }
                }
                proof {
                    assert(self@.queues =~= prev.queues);
                    assert(self@.required =~= prev.required);
                    assert(self@.states[h as int] == target.states[h as int]);
                    assert forall|x: int| 0 <= x < mid.states.len() implies #[trigger] self@.states[x]
                        == target.states[x] || self@.states[x] == mid.states[x] by {
                        if x != h {
                            assert(self@.states[x] == prev.states[x]);
                        }
                    }
                    assert forall|j: int|
                        0 <= j < k + 1 && mid.queues[#[trigger] mine[j] as int].len() > 0 implies {
                        let g = mid.queues[mine[j] as int][0] as int;
                        self@.states[g] == target.states[g]
                    } by {
                        let g = mid.queues[mine[j] as int][0] as int;
                        if g != h {
                            assert(target.queues[mine[j] as int][0] == g);
                            assert(self@.states[g] == prev.states[g]);
                        }
                    }
                }
            }
            k = k + 1;
        }
        proof {
            assert forall|x: int| 0 <= x < mid.states.len() implies #[trigger] self@.states[x]
                == target.states[x] by {
                if self@.states[x] != target.states[x] {
                    assert(self@.states[x] == mid.states[x]);
                    lemma_heads_all_same(mid, left, x as usize, before.required[x]);
                    let j = lemma_promoted_heads_a_left_queue(before, b as int, x);
                    assert(mid.queues[mine[j] as int][0] == x);
                }
            }
            assert(self@.states =~= target.states);
        }
    }
}

} // verus!
