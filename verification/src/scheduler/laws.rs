//! What holds of the scheduler in every state it can reach: each transition
//! keeps the invariant, sessions share no container, a drain completes
//! every behavior, and a leak is a container to which a handle was left.

use crate::protocol::laws::{
    lemma_add_cown_wf, lemma_complete_counts, lemma_complete_wf, lemma_count_in_bounds,
    lemma_joint_exclusion, lemma_start_counts, lemma_start_wf, lemma_submit_counts,
    lemma_submit_wf,
};
use crate::protocol::model::BehaviorState;
use crate::scheduler::model::SchedulerView;
use crate::store::lemma_count_live_bound;
use crate::when::{AcquiredCown, Body};
use vstd::prelude::*;

verus! {

/// Opening a session keeps the invariant.
pub proof fn lemma_init_wf<T, B1, B2>(v: SchedulerView<T, B1, B2>, workers: usize) where
    B1: FnOnce(&mut AcquiredCown<T>),
    B2: FnOnce(&mut AcquiredCown<T>, &mut AcquiredCown<T>),

    requires
        v.wf(),
        v.session is Uninitialized,
        workers >= 1,
    ensures
        v.init(workers).wf(),
        v.init(workers).live_allocations() == 0,
{
    let w = v.init(workers);
    lemma_count_in_bounds(v.protocol.states, BehaviorState::Completed);
    lemma_count_in_bounds(v.protocol.states, BehaviorState::Running);
    assert(w.slots.subrange(w.base as int, w.slots.len() as int) =~= Seq::empty());
}

/// Creating a container keeps the invariant, and a handle to it can exist.
pub proof fn lemma_create_wf<T, B1, B2>(v: SchedulerView<T, B1, B2>, value: T) where
    B1: FnOnce(&mut AcquiredCown<T>),
    B2: FnOnce(&mut AcquiredCown<T>, &mut AcquiredCown<T>),

    requires
        v.wf(),
        v.slots.len() < usize::MAX,
    ensures
        v.create(value).wf(),
        v.create(value).owns(v.slots.len() as int),
        v.create(value).handles(v.slots.len() as int) == 1,
{
    let w = v.create(value);
    lemma_add_cown_wf(v.protocol);
    assert forall|c: int| 0 <= c < w.slots.len() implies (#[trigger] w.slots[c]).wf() by {
        if c < v.slots.len() {
            assert(v.slots[c].wf());
        }
    }
    assert forall|c: int| 0 <= c < w.slots.len() implies (#[trigger] w.slots[c]).strong
        >= w.protocol.queues[c].len() by {
        if c < v.slots.len() {
            assert(v.slots[c].strong >= v.protocol.queues[c].len());
        }
    }
    assert forall|c: int| 0 <= c < w.slots.len() implies (#[trigger] w.slots[c]).lent() == (
    w.protocol.queues[c].len() > 0 && w.protocol.state(w.protocol.queues[c][0] as int)
        == BehaviorState::Running) by {
        if c < v.slots.len() {
            assert(v.slots[c].lent() == (v.protocol.queues[c].len() > 0 && v.protocol.state(
                v.protocol.queues[c][0] as int,
            ) == BehaviorState::Running));
        }
    }
}

/// Cloning a handle keeps the invariant.
pub proof fn lemma_retain_wf<T, B1, B2>(v: SchedulerView<T, B1, B2>, c: int) where
    B1: FnOnce(&mut AcquiredCown<T>),
    B2: FnOnce(&mut AcquiredCown<T>, &mut AcquiredCown<T>),

    requires
        v.wf(),
        0 <= c < v.slots.len(),
        v.slots[c].live(),
    ensures
        v.retain(c).wf(),
        v.retain(c).handles(c) == v.handles(c) + 1,
{
    let w = v.retain(c);
    assert forall|x: int| 0 <= x < w.slots.len() implies (#[trigger] w.slots[x]).wf() by {
        assert(v.slots[x].wf());
    }
    assert forall|x: int| 0 <= x < w.slots.len() implies (#[trigger] w.slots[x]).strong
        >= w.protocol.queues[x].len() by {
        assert(v.slots[x].strong >= v.protocol.queues[x].len());
    }
    assert forall|x: int| 0 <= x < w.slots.len() implies (#[trigger] w.slots[x]).lent() == (
    w.protocol.queues[x].len() > 0 && w.protocol.state(w.protocol.queues[x][0] as int)
        == BehaviorState::Running) by {
        assert(v.slots[x].lent() == (v.protocol.queues[x].len() > 0 && v.protocol.state(
            v.protocol.queues[x][0] as int,
        ) == BehaviorState::Running));
    }
}

/// Dropping a handle keeps the invariant. The payload is destroyed with the
/// last reference, which is never given up while the payload is lent.
pub proof fn lemma_release_wf<T, B1, B2>(v: SchedulerView<T, B1, B2>, c: int) where
    B1: FnOnce(&mut AcquiredCown<T>),
    B2: FnOnce(&mut AcquiredCown<T>, &mut AcquiredCown<T>),

    requires
        v.wf(),
        0 <= c < v.slots.len(),
        v.handles(c) > 0,
    ensures
        v.slots[c].may_release(),
        v.release(c).wf(),
        v.release(c).handles(c) == v.handles(c) - 1,
        v.slots[c].lent() ==> v.release(c).slots[c].teardowns == 0,
{
    let w = v.release(c);
    assert(v.slots[c].wf());
    assert(v.slots[c].strong >= v.protocol.queues[c].len());
    assert(v.slots[c].lent() == (v.protocol.queues[c].len() > 0 && v.protocol.state(
        v.protocol.queues[c][0] as int,
    ) == BehaviorState::Running));
    assert forall|x: int| 0 <= x < w.slots.len() implies (#[trigger] w.slots[x]).wf() by {
        assert(v.slots[x].wf());
    }
    assert forall|x: int| 0 <= x < w.slots.len() implies (#[trigger] w.slots[x]).strong
        >= w.protocol.queues[x].len() by {
        assert(v.slots[x].strong >= v.protocol.queues[x].len());
    }
    assert forall|x: int| 0 <= x < w.slots.len() implies (#[trigger] w.slots[x]).lent() == (
    w.protocol.queues[x].len() > 0 && w.protocol.state(w.protocol.queues[x][0] as int)
        == BehaviorState::Running) by {
        assert(v.slots[x].lent() == (v.protocol.queues[x].len() > 0 && v.protocol.state(
            v.protocol.queues[x][0] as int,
        ) == BehaviorState::Running));
    }
}

/// Submitting a behavior keeps the invariant.
pub proof fn lemma_submit_keeps_wf<T, B1, B2>(
    v: SchedulerView<T, B1, B2>,
    required: Seq<usize>,
    body: Body<B1, B2>,
) where B1: FnOnce(&mut AcquiredCown<T>), B2: FnOnce(&mut AcquiredCown<T>, &mut AcquiredCown<T>)
    requires
        v.wf(),
        v.open(),
        v.protocol.admits(required),
        forall|k: int| 0 <= k < required.len() ==> v.slots[#[trigger] required[k] as int].live(),
        body.arity() == required.len(),
        body.callable::<T>(),
        v.protocol.states.len() < usize::MAX,
    ensures
        v.submit(required, body).wf(),
        forall|c: int| 0 <= c < v.slots.len() ==> v.submit(required, body).handles(c) == v.handles(c),
{
    let w = v.submit(required, body);
    let b = v.protocol.states.len() as usize;
    lemma_submit_wf(v.protocol, required);
    lemma_submit_counts(v.protocol, required);
    assert forall|c: int| 0 <= c < w.slots.len() implies (#[trigger] w.slots[c]).wf() by {
        assert(v.slots[c].wf());
        if required.contains(c as usize) {
            let k = choose|k: int| 0 <= k < required.len() && required[k] == c as usize;
            assert(v.slots[required[k] as int].live());
        }
    }
    assert forall|c: int| 0 <= c < w.slots.len() implies (#[trigger] w.slots[c]).strong
        >= w.protocol.queues[c].len() && w.handles(c) == v.handles(c) by {
        assert(v.slots[c].strong >= v.protocol.queues[c].len());
    }
    assert forall|c: int| 0 <= c < w.slots.len() implies (#[trigger] w.slots[c]).lent() == (
    w.protocol.queues[c].len() > 0 && w.protocol.state(w.protocol.queues[c][0] as int)
        == BehaviorState::Running) by {
        assert(v.slots[c].lent() == (v.protocol.queues[c].len() > 0 && v.protocol.state(
            v.protocol.queues[c][0] as int,
        ) == BehaviorState::Running));
        if required.contains(c as usize) {
            let k = choose|k: int| 0 <= k < required.len() && required[k] == c as usize;
            assert(v.slots[required[k] as int].live());
        }
        if v.protocol.queues[c].len() > 0 {
            let h = v.protocol.queues[c][0];
            assert(w.protocol.queues[c][0] == h);
            assert(h < v.protocol.states.len());
        }
    }
    assert forall|x: int| 0 <= x < w.bodies.len() implies match #[trigger] w.bodies[x] {
        Some(f) => {
            &&& w.protocol.states[x] == BehaviorState::Waiting || w.protocol.states[x]
                == BehaviorState::Ready
            &&& f.arity() == w.protocol.required[x].len()
            &&& f.callable::<T>()
        },
        None => w.protocol.states[x] == BehaviorState::Running || w.protocol.states[x]
            == BehaviorState::Completed,
    } by {
        if x < b {
            let old_body = v.bodies[x];
        }
    }
}

/// Handing a ready behavior to a free worker keeps the invariant; the
/// payload of each container that it requires is in the store to be lent.
pub proof fn lemma_dispatch_wf<T, B1, B2>(v: SchedulerView<T, B1, B2>, b: int) where
    B1: FnOnce(&mut AcquiredCown<T>),
    B2: FnOnce(&mut AcquiredCown<T>, &mut AcquiredCown<T>),

    requires
        v.wf(),
        v.session is Running,
        v.protocol.running() < v.session->Running_workers,
        v.protocol.state(b) == BehaviorState::Ready,
    ensures
        v.dispatch(b).wf(),
        v.bodies[b] is Some,
        forall|k: int|
            0 <= k < v.protocol.required[b].len() ==> v.slots[#[trigger] v.protocol.required[b][k] as int].payload is Some,
{
    let w = v.dispatch(b);
    let mine = v.protocol.required[b];
    let sb = v.protocol.states[b];
    let bb = v.bodies[b];
    lemma_start_wf(v.protocol, b);
    lemma_start_counts(v.protocol, b);
    assert(v.protocol.heads_all(b as usize, mine));
    assert(v.protocol.admits(mine));
    assert forall|k: int| 0 <= k < mine.len() implies v.slots[#[trigger] mine[k] as int].payload is Some by {
        let c = mine[k] as int;
        assert(v.protocol.heads(b as usize, mine[k] as int));
        assert(v.slots[c].strong >= v.protocol.queues[c].len());
        assert(v.slots[c].lent() == (v.protocol.queues[c].len() > 0 && v.protocol.state(
            v.protocol.queues[c][0] as int,
        ) == BehaviorState::Running));
    }
    assert forall|c: int| 0 <= c < w.slots.len() implies (#[trigger] w.slots[c]).wf() by {
        assert(v.slots[c].wf());
    }
    assert forall|c: int| 0 <= c < w.slots.len() implies (#[trigger] w.slots[c]).strong
        >= w.protocol.queues[c].len() by {
        assert(v.slots[c].strong >= v.protocol.queues[c].len());
    }
    assert forall|c: int| 0 <= c < w.slots.len() implies (#[trigger] w.slots[c]).lent() == (
    w.protocol.queues[c].len() > 0 && w.protocol.state(w.protocol.queues[c][0] as int)
        == BehaviorState::Running) by {
        assert(v.slots[c].strong >= v.protocol.queues[c].len());
        assert(v.slots[c].wf());
        assert(v.slots[c].lent() == (v.protocol.queues[c].len() > 0 && v.protocol.state(
            v.protocol.queues[c][0] as int,
        ) == BehaviorState::Running));
        if mine.contains(c as usize) {
            let k = choose|k: int| 0 <= k < mine.len() && mine[k] == c as usize;
            assert(v.protocol.heads(b as usize, mine[k] as int));
        } else if v.protocol.queues[c].len() > 0 {
            let h = v.protocol.queues[c][0];
            assert(v.protocol.required[h as int].contains(c as usize));
        }
    }
    assert forall|x: int| 0 <= x < w.bodies.len() implies match #[trigger] w.bodies[x] {
        Some(f) => {
            &&& w.protocol.states[x] == BehaviorState::Waiting || w.protocol.states[x]
                == BehaviorState::Ready
            &&& f.arity() == w.protocol.required[x].len()
            &&& f.callable::<T>()
        },
        None => w.protocol.states[x] == BehaviorState::Running || w.protocol.states[x]
            == BehaviorState::Completed,
    } by {
        let old_body = v.bodies[x];
    }
}

/// Completing a running behavior keeps the invariant. Its payloads go back
/// into the store before its references are given up, so a container is
/// destroyed only when no guard to it is left.
pub proof fn lemma_finish_wf<T, B1, B2>(v: SchedulerView<T, B1, B2>, b: int, values: Seq<T>) where
    B1: FnOnce(&mut AcquiredCown<T>),
    B2: FnOnce(&mut AcquiredCown<T>, &mut AcquiredCown<T>),

    requires
        v.wf(),
        v.protocol.state(b) == BehaviorState::Running,
        values.len() == v.protocol.required[b].len(),
    ensures
        v.finish(b, values).wf(),
        forall|k: int|
            0 <= k < v.protocol.required[b].len() ==> v.slots[#[trigger] v.protocol.required[b][k] as int].lent(),
        forall|c: int| 0 <= c < v.slots.len() ==> v.finish(b, values).handles(c) == v.handles(c),
{
    let w = v.finish(b, values);
    let mine = v.protocol.required[b];
    let sb = v.protocol.states[b];
    lemma_complete_wf(v.protocol, b);
    lemma_complete_counts(v.protocol, b);
    lemma_count_in_bounds(v.protocol.states, BehaviorState::Running);
    lemma_count_in_bounds(v.protocol.states, BehaviorState::Completed);
    assert(v.protocol.heads_all(b as usize, mine));
    assert(v.protocol.admits(mine));
    assert forall|c: int| 0 <= c < v.slots.len() && mine.contains(c as usize) implies (
    #[trigger] v.slots[c]).lent() && v.protocol.queues[c].len() > 0 && v.protocol.queues[c][0]
        == b by {
        let k = choose|k: int| 0 <= k < mine.len() && mine[k] == c as usize;
        assert(v.protocol.heads(b as usize, mine[k] as int));
        assert(v.slots[c].lent() == (v.protocol.queues[c].len() > 0 && v.protocol.state(
            v.protocol.queues[c][0] as int,
        ) == BehaviorState::Running));
    }
    assert forall|k: int| 0 <= k < mine.len() implies v.slots[#[trigger] mine[k] as int].lent() by {
        assert(mine.contains(mine[k]));
        assert(v.slots[mine[k] as int].lent());
    }
    assert forall|c: int| 0 <= c < w.slots.len() implies (#[trigger] w.slots[c]).wf() by {
        assert(v.slots[c].wf());
        assert(v.slots[c].lent() || !mine.contains(c as usize));
    }
    assert forall|c: int| 0 <= c < w.slots.len() implies (#[trigger] w.slots[c]).strong
        >= w.protocol.queues[c].len() && w.handles(c) == v.handles(c) by {
        assert(v.slots[c].strong >= v.protocol.queues[c].len());
        assert(v.slots[c].lent() || !mine.contains(c as usize));
    }
    assert forall|c: int| 0 <= c < w.slots.len() implies (#[trigger] w.slots[c]).lent() == (
    w.protocol.queues[c].len() > 0 && w.protocol.state(w.protocol.queues[c][0] as int)
        == BehaviorState::Running) by {
        assert(v.slots[c].strong >= v.protocol.queues[c].len());
        assert(v.slots[c].wf());
        assert(v.slots[c].lent() == (v.protocol.queues[c].len() > 0 && v.protocol.state(
            v.protocol.queues[c][0] as int,
        ) == BehaviorState::Running));
        assert(v.slots[c].lent() || !mine.contains(c as usize));
        if w.protocol.queues[c].len() > 0 {
            let h = w.protocol.queues[c][0];
            if mine.contains(c as usize) {
                assert(h == v.protocol.queues[c][1]);
                assert(v.protocol.queues[c][0] < v.protocol.queues[c][1]);
                assert(v.protocol.required[h as int].contains(c as usize));
                let sh = v.protocol.states[h as int];
                if sh == BehaviorState::Running {
                    let j = choose|j: int|
                        0 <= j < v.protocol.required[h as int].len()
                            && v.protocol.required[h as int][j] == c as usize;
                    assert(v.protocol.heads(h, v.protocol.required[h as int][j] as int));
                }
            } else {
                assert(h == v.protocol.queues[c][0]);
                assert(v.protocol.required[h as int].contains(c as usize));
                assert(h != b);
            }
        }
    }
    assert forall|x: int| 0 <= x < w.bodies.len() implies match #[trigger] w.bodies[x] {
        Some(f) => {
            &&& w.protocol.states[x] == BehaviorState::Waiting || w.protocol.states[x]
                == BehaviorState::Ready
            &&& f.arity() == w.protocol.required[x].len()
            &&& f.callable::<T>()
        },
        None => w.protocol.states[x] == BehaviorState::Running || w.protocol.states[x]
            == BehaviorState::Completed,
    } by {
        let old_body = v.bodies[x];
    }
}

/// Sessions share no container: once a session is opened, no handle to a
/// container of an earlier session can be used in it.
pub proof fn lemma_sessions_share_no_container<T, B1, B2>(
    v: SchedulerView<T, B1, B2>,
    workers: usize,
    c: int,
) where B1: FnOnce(&mut AcquiredCown<T>), B2: FnOnce(&mut AcquiredCown<T>, &mut AcquiredCown<T>)
    requires
        0 <= c < v.slots.len(),
    ensures
        !v.init(workers).owns(c),
{
}

/// A drain completes every behavior that was submitted: the number of
/// completed behaviors afterwards is the number submitted, over all sessions
/// so far.
pub proof fn lemma_drain_completes_all<T, B1, B2>(
    v: SchedulerView<T, B1, B2>,
    before: SchedulerView<T, B1, B2>,
) where B1: FnOnce(&mut AcquiredCown<T>), B2: FnOnce(&mut AcquiredCown<T>, &mut AcquiredCown<T>)
    requires
        v.drained_from(before),
    ensures
        v.protocol.completed() == before.protocol.states.len(),
        v.protocol.running() == 0,
{
    lemma_count_in_bounds(v.protocol.states, BehaviorState::Completed);
    lemma_count_in_bounds(v.protocol.states, BehaviorState::Running);
}

/// A drain leaves alive exactly the containers to which a handle was left:
/// those are the leaks of a session that ends there.
pub proof fn lemma_leak_iff_handle_left<T, B1, B2>(
    v: SchedulerView<T, B1, B2>,
    before: SchedulerView<T, B1, B2>,
) where B1: FnOnce(&mut AcquiredCown<T>), B2: FnOnce(&mut AcquiredCown<T>, &mut AcquiredCown<T>)
    requires
        before.wf(),
        v.drained_from(before),
    ensures
        v.leak_detected == (before.detect_leaks && exists|c: int| #[trigger] before.owns(c)),
{
    let tail = v.slots.subrange(v.base as int, v.slots.len() as int);
    lemma_count_live_bound(tail);
    if exists|c: int| #[trigger] before.owns(c) {
        let c = choose|c: int| #[trigger] before.owns(c);
        assert(v.slots[c].strong == before.handles(c));
        assert(tail[c - v.base].live());
    }
    if v.live_allocations() > 0 {
        let i = choose|i: int| 0 <= i < tail.len() && (#[trigger] tail[i]).live();
        assert(v.slots[v.base + i].strong == before.handles(v.base + i));
        assert(before.owns(v.base + i));
    }
}

/// While a behavior runs, each container it requires is alive, its payload
/// is with that behavior and no other, and its destructor has not run: no
/// container is destroyed while a guard to it is outstanding.
pub proof fn lemma_guarded_is_alive<T, B1, B2>(v: SchedulerView<T, B1, B2>, b: int, c: usize) where
    B1: FnOnce(&mut AcquiredCown<T>),
    B2: FnOnce(&mut AcquiredCown<T>, &mut AcquiredCown<T>),

    requires
        v.wf(),
        v.protocol.state(b) == BehaviorState::Running,
        v.protocol.requires_cown(b, c),
    ensures
        v.slots[c as int].lent(),
        v.slots[c as int].strong > 0,
        v.slots[c as int].teardowns == 0,
        forall|a: int|
            a != b && v.protocol.state(a) == BehaviorState::Running ==> !v.protocol.requires_cown(
                a,
                c,
            ),
{
    let mine = v.protocol.required[b];
    let sb = v.protocol.states[b];
    let k = choose|k: int| 0 <= k < mine.len() && mine[k] == c;
    assert(v.protocol.admits(mine));
    assert(v.protocol.heads(b as usize, mine[k] as int));
    assert(v.slots[c as int].wf());
    assert(v.slots[c as int].lent() == (v.protocol.queues[c as int].len() > 0
        && v.protocol.state(v.protocol.queues[c as int][0] as int) == BehaviorState::Running));
    assert forall|a: int|
        a != b && v.protocol.state(a) == BehaviorState::Running implies !v.protocol.requires_cown(
        a,
        c,
    ) by {
        lemma_joint_exclusion(v.protocol, a, b, c);
    }
}

} // verus!
