//! What holds of the protocol in every state it can reach: the invariant is
//! kept by each transition, and from it follow joint exclusion, first-in
//! first-out order on each container, and freedom from deadlock.

use crate::protocol::model::{count_in, BehaviorState, ProtocolView};
use vstd::prelude::*;

verus! {

/// Two states whose queues have the same heads on the containers of
/// `required` agree on whether `b` heads them all.
pub proof fn lemma_heads_all_same(v: ProtocolView, w: ProtocolView, b: usize, required: Seq<usize>)
    requires
        forall|k: int|
            0 <= k < required.len() ==> v.heads(b, #[trigger] required[k] as int) == w.heads(
                b,
                required[k] as int,
            ),
    ensures
        v.heads_all(b, required) == w.heads_all(b, required),
{
    if v.heads_all(b, required) {
        assert forall|k: int| 0 <= k < required.len() implies w.heads(
            b,
            #[trigger] required[k] as int,
        ) by {
            assert(v.heads(b, required[k] as int));
        }
    }
    if w.heads_all(b, required) {
        assert forall|k: int| 0 <= k < required.len() implies v.heads(
            b,
            #[trigger] required[k] as int,
        ) by {
            assert(w.heads(b, required[k] as int));
        }
    }
}

/// What the first `k + 1` entries of a sequence hold beyond the first `k`.
pub proof fn lemma_prefix_contains(s: Seq<usize>, k: int, c: usize)
    requires
        0 <= k < s.len(),
    ensures
        s.subrange(0, k + 1).contains(c) == (s.subrange(0, k).contains(c) || s[k] == c),
        s.no_duplicates() ==> !s.subrange(0, k).contains(s[k]),
{
    let short = s.subrange(0, k);
    let long = s.subrange(0, k + 1);
    if long.contains(c) {
        let i = choose|i: int| 0 <= i < long.len() && long[i] == c;
        if i < k {
            assert(short[i] == c);
        }
    }
    if short.contains(c) {
        let i = choose|i: int| 0 <= i < short.len() && short[i] == c;
        assert(long[i] == c);
    }
    if s[k] == c {
        assert(long[k] == c);
    }
    if s.no_duplicates() && short.contains(s[k]) {
        let i = choose|i: int| 0 <= i < short.len() && short[i] == s[k];
        assert(s[i] == s[k]);
    }
}

/// Adding a container keeps the invariant.
pub proof fn lemma_add_cown_wf(v: ProtocolView)
    requires
        v.wf(),
        v.queues.len() < usize::MAX,
    ensures
        v.add_cown().wf(),
{
    let w = v.add_cown();
    assert forall|b: int| 0 <= b < w.states.len() implies w.admits(#[trigger] w.required[b]) by {
        assert(v.admits(v.required[b]));
    }
    assert forall|b: int| 0 <= b < w.states.len() implies {
        let s = #[trigger] w.states[b];
        &&& (s == BehaviorState::Ready || s == BehaviorState::Running) ==> w.heads_all(
            b as usize,
            w.required[b],
        )
        &&& s == BehaviorState::Waiting ==> !w.heads_all(b as usize, w.required[b])
    } by {
        lemma_heads_all_same(v, w, b as usize, v.required[b]);
    }
    assert(w.completed_in_order()) by {
        assert forall|a: int, b: int, c: usize|
            0 <= a < b < w.states.len() && w.states[b] == BehaviorState::Completed
                && #[trigger] w.requires_cown(a, c) && #[trigger] w.requires_cown(
                b,
                c,
            ) implies w.states[a] == BehaviorState::Completed by {
            assert(v.requires_cown(a, c) && v.requires_cown(b, c));
        }
    }
}

/// Picking up a ready behavior keeps the invariant.
pub proof fn lemma_start_wf(v: ProtocolView, b: int)
    requires
        v.wf(),
        v.state(b) == BehaviorState::Ready,
    ensures
        v.start(b).wf(),
{
    let w = v.start(b);
    assert forall|x: int| 0 <= x < w.states.len() implies w.admits(#[trigger] w.required[x]) by {
        assert(v.admits(v.required[x]));
    }
    assert forall|x: int| 0 <= x < w.states.len() implies #[trigger] w.states[x]
        != BehaviorState::Pending by {
        assert(v.states[x] != BehaviorState::Pending);
    }
    assert(w.queued_are_waiting()) by {
        assert forall|c: int, i: int|
            0 <= c < w.queues.len() && 0 <= i < w.queues[c].len() implies {
            let x = #[trigger] w.queues[c][i];
            &&& x < w.states.len()
            &&& w.states[x as int] != BehaviorState::Completed
            &&& w.required[x as int].contains(c as usize)
        } by {
            let x = v.queues[c][i];
            assert(v.states[x as int] != BehaviorState::Completed);
        }
    }
    assert(w.waiting_are_queued()) by {
        assert forall|x: int, k: int|
            0 <= x < w.states.len() && w.states[x] != BehaviorState::Completed && 0 <= k
                < w.required[x].len() implies w.queues[#[trigger] w.required[x][k] as int].contains(
            x as usize,
        ) by {
            assert(v.states[x] != BehaviorState::Completed);
            assert(v.queues[v.required[x][k] as int].contains(x as usize));
        }
    }
    assert forall|x: int| 0 <= x < w.states.len() implies {
        let s = #[trigger] w.states[x];
        &&& (s == BehaviorState::Ready || s == BehaviorState::Running) ==> w.heads_all(
            x as usize,
            w.required[x],
        )
        &&& s == BehaviorState::Waiting ==> !w.heads_all(x as usize, w.required[x])
    } by {
        let s = v.states[x];
        lemma_heads_all_same(v, w, x as usize, v.required[x]);
    }
    assert(w.completed_in_order()) by {
        assert forall|a: int, x: int, c: usize|
            0 <= a < x < w.states.len() && w.states[x] == BehaviorState::Completed
                && #[trigger] w.requires_cown(a, c) && #[trigger] w.requires_cown(
                x,
                c,
            ) implies w.states[a] == BehaviorState::Completed by {
            assert(v.requires_cown(a, c) && v.requires_cown(x, c));
            assert(v.states[x] == BehaviorState::Completed);
        }
    }
}

/// Submitting a behavior keeps the invariant.
pub proof fn lemma_submit_wf(v: ProtocolView, required: Seq<usize>)
    requires
        v.wf(),
        v.admits(required),
        v.states.len() < usize::MAX,
    ensures
        v.submit(required).wf(),
{
    let w = v.submit(required);
    let b = v.states.len() as usize;
    assert forall|x: int| 0 <= x < w.states.len() implies w.admits(#[trigger] w.required[x]) by {
        if x < b {
            assert(v.admits(v.required[x]));
        }
    }
    assert forall|x: int| 0 <= x < w.states.len() implies #[trigger] w.states[x]
        != BehaviorState::Pending by {
        if x < b {
            assert(v.states[x] != BehaviorState::Pending);
        }
    }
    assert(w.queued_are_waiting()) by {
        assert forall|c: int, i: int|
            0 <= c < w.queues.len() && 0 <= i < w.queues[c].len() implies {
            let x = #[trigger] w.queues[c][i];
            &&& x < w.states.len()
            &&& w.states[x as int] != BehaviorState::Completed
            &&& w.required[x as int].contains(c as usize)
        } by {
            if i < v.queues[c].len() {
                let x = v.queues[c][i];
                assert(v.states[x as int] != BehaviorState::Completed);
            }
        }
    }
    assert(w.queues_in_order()) by {
        assert forall|c: int, i: int, j: int|
            0 <= c < w.queues.len() && 0 <= i < j < w.queues[c].len() implies #[trigger] w.queues[c][i]
            < #[trigger] w.queues[c][j] by {
            let x = v.queues[c][i];
            if j < v.queues[c].len() {
                let y = v.queues[c][j];
            }
        }
    }
    assert(w.waiting_are_queued()) by {
        assert forall|x: int, k: int|
            0 <= x < w.states.len() && w.states[x] != BehaviorState::Completed && 0 <= k
                < w.required[x].len() implies w.queues[#[trigger] w.required[x][k] as int].contains(
            x as usize,
        ) by {
            let c = w.required[x][k] as int;
            if x < b {
                assert(v.admits(v.required[x]));
                assert(v.states[x] != BehaviorState::Completed);
                assert(v.queues[v.required[x][k] as int].contains(x as usize));
                let i = choose|i: int| 0 <= i < v.queues[c].len() && v.queues[c][i] == x as usize;
                assert(w.queues[c][i] == x as usize);
            } else {
                assert(required.contains(c as usize));
                assert(w.queues[c][v.queues[c].len() as int] == b);
            }
        }
    }
    assert forall|x: int| 0 <= x < w.states.len() implies {
        let s = #[trigger] w.states[x];
        &&& (s == BehaviorState::Ready || s == BehaviorState::Running) ==> w.heads_all(
            x as usize,
            w.required[x],
        )
        &&& s == BehaviorState::Waiting ==> !w.heads_all(x as usize, w.required[x])
    } by {
        if x < b {
            let s = v.states[x];
            assert(v.admits(v.required[x]));
            assert forall|k: int| 0 <= k < v.required[x].len() implies v.heads(
                x as usize,
                #[trigger] v.required[x][k] as int,
            ) == w.heads(x as usize, v.required[x][k] as int) by {
                let c = v.required[x][k] as int;
                if v.queues[c].len() > 0 {
                    assert(w.queues[c][0] == v.queues[c][0]);
                }
            }
            lemma_heads_all_same(v, w, x as usize, v.required[x]);
        } else {
            let queued = ProtocolView { queues: v.enqueued(b, required), ..v };
            lemma_heads_all_same(queued, w, b, required);
        }
    }
    assert(w.completed_in_order()) by {
        assert forall|a: int, x: int, c: usize|
            0 <= a < x < w.states.len() && w.states[x] == BehaviorState::Completed
                && #[trigger] w.requires_cown(a, c) && #[trigger] w.requires_cown(
                x,
                c,
            ) implies w.states[a] == BehaviorState::Completed by {
            assert(x < b);
            assert(v.requires_cown(a, c) && v.requires_cown(x, c));
            assert(v.states[x] == BehaviorState::Completed);
        }
    }
}

/// A running behavior stands first in each of its queues, so none of the
/// entries behind it, and no entry of any other queue, is that behavior.
proof fn lemma_running_is_first_only(v: ProtocolView, b: int, c: int, i: int)
    requires
        v.wf(),
        v.state(b) == BehaviorState::Running,
        0 <= c < v.queues.len(),
        0 <= i < v.queues[c].len(),
        v.queues[c][i] == b,
    ensures
        i == 0,
        v.required[b].contains(c as usize),
{
    let x = v.queues[c][i];
    assert(v.required[b].contains(c as usize));
    let k = choose|k: int| 0 <= k < v.required[b].len() && v.required[b][k] == c as usize;
    let s = v.states[b];
    assert(v.heads_all(b as usize, v.required[b]));
    assert(v.heads(b as usize, v.required[b][k] as int));
    if i > 0 {
        assert(v.queues[c][0] < v.queues[c][i]);
    }
}

/// Completing a running behavior keeps the invariant.
pub proof fn lemma_complete_wf(v: ProtocolView, b: int)
    requires
        v.wf(),
        v.state(b) == BehaviorState::Running,
    ensures
        v.complete(b).wf(),
{
    let w = v.complete(b);
    let mine = v.required[b];
    let sb = v.states[b];
    assert(v.heads_all(b as usize, mine));
    assert(v.admits(mine));
    assert forall|x: int| 0 <= x < w.states.len() implies w.admits(#[trigger] w.required[x]) by {
        assert(v.admits(v.required[x]));
    }
    assert forall|x: int| 0 <= x < w.states.len() implies #[trigger] w.states[x]
        != BehaviorState::Pending by {
        assert(v.states[x] != BehaviorState::Pending);
    }
    // What stands at place `i` of a queue now stood at place `i` or `i + 1` before.
    assert forall|c: int, i: int| 0 <= c < w.queues.len() && 0 <= i < w.queues[c].len() implies {
        let off: int = if mine.contains(c as usize) { 1 } else { 0 };
        &&& i + off < v.queues[c].len()
        &&& #[trigger] w.queues[c][i] == v.queues[c][i + off]
        &&& w.queues[c][i] != b
    } by {
        let off: int = if mine.contains(c as usize) { 1 } else { 0 };
        if mine.contains(c as usize) {
            let k = choose|k: int| 0 <= k < mine.len() && mine[k] == c as usize;
            assert(v.heads(b as usize, mine[k] as int));
        }
        if v.queues[c][i + off] == b {
            lemma_running_is_first_only(v, b, c, i + off);
        }
    }
    assert(w.queued_are_waiting()) by {
        assert forall|c: int, i: int|
            0 <= c < w.queues.len() && 0 <= i < w.queues[c].len() implies {
            let x = #[trigger] w.queues[c][i];
            &&& x < w.states.len()
            &&& w.states[x as int] != BehaviorState::Completed
            &&& w.required[x as int].contains(c as usize)
        } by {
            let off: int = if mine.contains(c as usize) { 1 } else { 0 };
            let x = v.queues[c][i + off];
            assert(v.states[x as int] != BehaviorState::Completed);
        }
    }
    assert(w.queues_in_order()) by {
        assert forall|c: int, i: int, j: int|
            0 <= c < w.queues.len() && 0 <= i < j < w.queues[c].len() implies #[trigger] w.queues[c][i]
            < #[trigger] w.queues[c][j] by {
            let off: int = if mine.contains(c as usize) { 1 } else { 0 };
            assert(v.queues[c][i + off] < v.queues[c][j + off]);
        }
    }
    assert(w.waiting_are_queued()) by {
        assert forall|x: int, k: int|
            0 <= x < w.states.len() && w.states[x] != BehaviorState::Completed && 0 <= k
                < w.required[x].len() implies w.queues[#[trigger] w.required[x][k] as int].contains(
            x as usize,
        ) by {
            let c = v.required[x][k] as int;
            assert(v.admits(v.required[x]));
            assert(v.states[x] != BehaviorState::Completed);
            assert(v.queues[v.required[x][k] as int].contains(x as usize));
            let i = choose|i: int| 0 <= i < v.queues[c].len() && v.queues[c][i] == x as usize;
            if mine.contains(c as usize) {
                let m = choose|m: int| 0 <= m < mine.len() && mine[m] == c as usize;
                assert(v.heads(b as usize, mine[m] as int));
                assert(i > 0);
                assert(w.queues[c][i - 1] == x as usize);
            } else {
                assert(w.queues[c][i] == x as usize);
            }
        }
    }
    let left = ProtocolView { queues: v.dequeued(mine), ..v };
    assert forall|x: int| 0 <= x < w.states.len() implies {
        let s = #[trigger] w.states[x];
        &&& (s == BehaviorState::Ready || s == BehaviorState::Running) ==> w.heads_all(
            x as usize,
            w.required[x],
        )
        &&& s == BehaviorState::Waiting ==> !w.heads_all(x as usize, w.required[x])
    } by {
        let s = v.states[x];
        lemma_heads_all_same(left, w, x as usize, v.required[x]);
        if x != b && (s == BehaviorState::Ready || s == BehaviorState::Running) {
            assert(v.heads_all(x as usize, v.required[x]));
            assert(v.admits(v.required[x]));
            assert forall|k: int| 0 <= k < v.required[x].len() implies w.heads(
                x as usize,
                #[trigger] v.required[x][k] as int,
            ) by {
                let c = v.required[x][k] as int;
                assert(v.heads(x as usize, v.required[x][k] as int));
                if mine.contains(c as usize) {
                    let m = choose|m: int| 0 <= m < mine.len() && mine[m] == c as usize;
                    assert(v.heads(b as usize, mine[m] as int));
                }
            }
        }
    }
    assert(w.completed_in_order()) by {
        assert forall|a: int, x: int, c: usize|
            0 <= a < x < w.states.len() && w.states[x] == BehaviorState::Completed
                && #[trigger] w.requires_cown(a, c) && #[trigger] w.requires_cown(
                x,
                c,
            ) implies w.states[a] == BehaviorState::Completed by {
            assert(v.requires_cown(a, c) && v.requires_cown(x, c));
            if x == b {
                if v.states[a] != BehaviorState::Completed {
                    let k = choose|k: int|
                        0 <= k < v.required[a].len() && v.required[a][k] == c;
                    assert(v.admits(v.required[a]));
                    assert(v.queues[v.required[a][k] as int].contains(a as usize));
                    let i = choose|i: int|
                        0 <= i < v.queues[c as int].len() && v.queues[c as int][i] == a as usize;
                    let m = choose|m: int| 0 <= m < mine.len() && mine[m] == c;
                    assert(v.heads(b as usize, mine[m] as int));
                    if i > 0 {
                        assert(v.queues[c as int][0] < v.queues[c as int][i]);
                    }
                }
            } else {
                assert(v.states[x] == BehaviorState::Completed);
            }
        }
    }
}

/// After `b` left its queues, a waiting behavior heads all of its queues only
/// if it is the new head of one of the queues that `b` left.
pub proof fn lemma_promoted_heads_a_left_queue(v: ProtocolView, b: int, x: int) -> (j: int)
    requires
        v.wf(),
        v.state(b) == BehaviorState::Running,
        0 <= x < v.states.len(),
        v.states[x] == BehaviorState::Waiting,
        v.released(b).heads_all(x as usize, v.required[x]),
    ensures
        0 <= j < v.required[b].len(),
        v.released(b).heads(x as usize, v.required[b][j] as int),
{
    let mine = v.required[b];
    let mid = v.released(b);
    let sx = v.states[x];
    assert(!v.heads_all(x as usize, v.required[x]));
    let k = choose|k: int|
        0 <= k < v.required[x].len() && !v.heads(x as usize, #[trigger] v.required[x][k] as int);
    let c = v.required[x][k];
    assert(v.admits(v.required[x]));
    assert(mid.heads(x as usize, v.required[x][k] as int));
    assert(mine.contains(c));
    let j = choose|j: int| 0 <= j < mine.len() && mine[j] == c;
    j
}

/// Joint exclusion: two different behaviors that both hold their containers
/// have no container in common, so the bodies of behaviors whose required
/// sets intersect never run at the same time.
pub proof fn lemma_joint_exclusion(v: ProtocolView, a: int, b: int, c: usize)
    requires
        v.wf(),
        a != b,
        v.holds_cowns(a),
        v.holds_cowns(b),
    ensures
        !(v.requires_cown(a, c) && v.requires_cown(b, c)),
{
    if v.requires_cown(a, c) && v.requires_cown(b, c) {
        let sa = v.states[a];
        let sb = v.states[b];
        let i = choose|i: int| 0 <= i < v.required[a].len() && v.required[a][i] == c;
        let j = choose|j: int| 0 <= j < v.required[b].len() && v.required[b][j] == c;
        assert(v.heads(a as usize, v.required[a][i] as int));
        assert(v.heads(b as usize, v.required[b][j] as int));
    }
}

/// First in, first out on every container: of two behaviors that require the
/// same container, the one submitted later is granted it only after the
/// earlier one has completed.
pub proof fn lemma_per_cown_fifo(v: ProtocolView, a: int, b: int, c: usize)
    requires
        v.wf(),
        0 <= a < b,
        v.requires_cown(a, c),
        v.requires_cown(b, c),
        v.was_scheduled(b),
    ensures
        v.state(a) == BehaviorState::Completed,
{
    if v.state(a) != BehaviorState::Completed {
        let sb = v.states[b];
        assert(v.holds_cowns(b));
        let i = choose|i: int| 0 <= i < v.required[a].len() && v.required[a][i] == c;
        let j = choose|j: int| 0 <= j < v.required[b].len() && v.required[b][j] == c;
        assert(v.admits(v.required[a]));
        assert(v.heads(b as usize, v.required[b][j] as int));
        assert(v.queues[v.required[a][i] as int].contains(a as usize));
        let n = choose|n: int| 0 <= n < v.queues[c as int].len() && v.queues[c as int][n] == a as usize;
        if n > 0 {
            assert(v.queues[c as int][0] < v.queues[c as int][n]);
        }
    }
}

/// No circular wait: a behavior waits only for behaviors submitted before it.
/// Once every earlier behavior that shares a container with it has completed,
/// it has been scheduled.
pub proof fn lemma_waits_only_for_earlier(v: ProtocolView, b: int)
    requires
        v.wf(),
        v.state(b) == BehaviorState::Waiting,
    ensures
        v.blocked_by_earlier(b),
{
    let sb = v.states[b];
    let mine = v.required[b];
    assert(!v.heads_all(b as usize, mine));
    let k = choose|k: int| 0 <= k < mine.len() && !v.heads(b as usize, #[trigger] mine[k] as int);
    let c = mine[k];
    assert(v.admits(mine));
    assert(v.queues[v.required[b][k] as int].contains(b as usize));
    let n = choose|n: int| 0 <= n < v.queues[c as int].len() && v.queues[c as int][n] == b as usize;
    let a = v.queues[c as int][0];
    assert(n > 0);
    assert(v.queues[c as int][0] < v.queues[c as int][n]);
    assert(v.requires_cown(a as int, c) && v.requires_cown(b, c));
}

/// No deadlock: while a behavior is unfinished, some behavior holds all of
/// its containers and can run. Whatever the order of submission and however
/// the required sets overlap, one of the behaviors submitted up to `b` is it.
pub proof fn lemma_no_deadlock(v: ProtocolView, b: int)
    requires
        v.wf(),
        0 <= b < v.states.len(),
        v.state(b) != BehaviorState::Completed,
    ensures
        exists|x: int| 0 <= x <= b && #[trigger] v.holds_cowns(x),
    decreases b,
{
    let sb = v.states[b];
    if v.state(b) == BehaviorState::Waiting {
        lemma_waits_only_for_earlier(v, b);
        let (a, c) = choose|a: int, c: usize|
            0 <= a < b && #[trigger] v.requires_cown(a, c) && #[trigger] v.requires_cown(b, c)
                && v.state(a) != BehaviorState::Completed;
        lemma_no_deadlock(v, a);
        let x = choose|x: int| 0 <= x <= a && #[trigger] v.holds_cowns(x);
        assert(v.holds_cowns(x));
    } else {
        assert(v.holds_cowns(b));
    }
}

/// The count lies between nothing and everything, and says when none or all
/// of the states are `target`.
pub proof fn lemma_count_in_bounds(states: Seq<BehaviorState>, target: BehaviorState)
    ensures
        count_in(states, target) <= states.len(),
        count_in(states, target) == 0 <==> forall|x: int|
            0 <= x < states.len() ==> #[trigger] states[x] != target,
        count_in(states, target) == states.len() <==> forall|x: int|
            0 <= x < states.len() ==> #[trigger] states[x] == target,
    decreases states.len(),
{
    if states.len() > 0 {
        let front = states.drop_last();
        lemma_count_in_bounds(front, target);
        if count_in(states, target) == 0 {
            assert forall|x: int| 0 <= x < states.len() implies #[trigger] states[x] != target by {
                if x < front.len() {
                    assert(front[x] != target);
                }
            }
        } else if states.last() != target {
            let x = choose|x: int| 0 <= x < front.len() && #[trigger] front[x] == target;
            assert(states[x] == target);
        }
        if count_in(states, target) == states.len() {
            assert forall|x: int| 0 <= x < states.len() implies #[trigger] states[x] == target by {
                if x < front.len() {
                    assert(front[x] == target);
                }
            }
        } else if states.last() == target {
            let x = choose|x: int| 0 <= x < front.len() && #[trigger] front[x] != target;
            assert(states[x] != target);
        }
    }
}

/// Two sequences of states that differ in being `target` at most at place
/// `b` differ in their counts by what happened at `b`.
pub proof fn lemma_count_in_changed_at(
    s: Seq<BehaviorState>,
    t: Seq<BehaviorState>,
    target: BehaviorState,
    b: int,
)
    requires
        s.len() == t.len(),
        forall|x: int| 0 <= x < s.len() && x != b ==> (s[x] == target) == (t[x] == target),
    ensures
        0 <= b < s.len() ==> count_in(t, target) + (if s[b] == target { 1nat } else { 0nat })
            == count_in(s, target) + (if t[b] == target { 1nat } else { 0nat }),
        !(0 <= b < s.len()) ==> count_in(t, target) == count_in(s, target),
    decreases s.len(),
{
    if s.len() > 0 {
        let last = s.len() - 1;
        if b == last {
            lemma_count_in_changed_at(s.drop_last(), t.drop_last(), target, -1);
        } else {
            lemma_count_in_changed_at(s.drop_last(), t.drop_last(), target, b);
        }
    }
}

/// A submission leaves the numbers of running and of completed behaviors as
/// they were.
pub proof fn lemma_submit_counts(v: ProtocolView, required: Seq<usize>)
    ensures
        v.submit(required).running() == v.running(),
        v.submit(required).completed() == v.completed(),
{
    assert(v.submit(required).states.drop_last() =~= v.states);
}

/// Picking up a ready behavior makes one more behavior run.
pub proof fn lemma_start_counts(v: ProtocolView, b: int)
    requires
        v.state(b) == BehaviorState::Ready,
    ensures
        v.start(b).running() == v.running() + 1,
        v.start(b).completed() == v.completed(),
{
    lemma_count_in_changed_at(v.states, v.start(b).states, BehaviorState::Running, b);
    lemma_count_in_changed_at(v.states, v.start(b).states, BehaviorState::Completed, b);
}

/// Completing a running behavior makes one behavior fewer run and one more
/// be completed.
pub proof fn lemma_complete_counts(v: ProtocolView, b: int)
    requires
        v.state(b) == BehaviorState::Running,
    ensures
        v.complete(b).running() + 1 == v.running(),
        v.complete(b).completed() == v.completed() + 1,
        v.complete(b).unfinished() + 1 == v.unfinished(),
{
    lemma_count_in_changed_at(v.states, v.complete(b).states, BehaviorState::Running, b);
    lemma_count_in_changed_at(v.states, v.complete(b).states, BehaviorState::Completed, b);
    lemma_count_in_bounds(v.states, BehaviorState::Completed);
}

/// While a drain has behaviors left and none is running, one is ready.
pub proof fn lemma_idle_means_done(v: ProtocolView)
    requires
        v.wf(),
        v.running() == 0,
        forall|x: int| v.state(x) != BehaviorState::Ready,
    ensures
        v.unfinished() == 0,
        forall|b: int| 0 <= b < v.states.len() ==> #[trigger] v.states[b] == BehaviorState::Completed,
{
    lemma_count_in_bounds(v.states, BehaviorState::Running);
    lemma_count_in_bounds(v.states, BehaviorState::Completed);
    assert forall|b: int| 0 <= b < v.states.len() implies #[trigger] v.states[b]
        == BehaviorState::Completed by {
        if v.states[b] != BehaviorState::Completed {
            lemma_no_deadlock(v, b);
            let x = choose|x: int| 0 <= x <= b && #[trigger] v.holds_cowns(x);
            assert(v.state(x) != BehaviorState::Ready);
            assert(v.states[x] != BehaviorState::Running);
        }
    }
}

/// A drain with nothing running and nothing ready has nothing left to do,
/// and one with nothing left to do has nothing running and nothing ready.
pub proof fn lemma_done_iff_idle(v: ProtocolView)
    requires
        v.wf(),
    ensures
        v.unfinished() == 0 <==> (v.running() == 0 && forall|x: int|
            v.state(x) != BehaviorState::Ready),
{
    lemma_count_in_bounds(v.states, BehaviorState::Running);
    lemma_count_in_bounds(v.states, BehaviorState::Completed);
    if v.running() == 0 && forall|x: int| v.state(x) != BehaviorState::Ready {
        lemma_idle_means_done(v);
    }
    if v.unfinished() == 0 {
        assert forall|x: int| v.state(x) != BehaviorState::Ready by {
            if 0 <= x < v.states.len() {
                assert(v.states[x] == BehaviorState::Completed);
            }
        }
        assert forall|x: int| 0 <= x < v.states.len() implies #[trigger] v.states[x]
            != BehaviorState::Running by {
            assert(v.states[x] == BehaviorState::Completed);
        }
    }
}

/// A container with an empty queue is required by no unfinished behavior.
pub proof fn lemma_idle_queue_is_not_required(v: ProtocolView, b: int)
    requires
        v.wf(),
        0 <= b < v.states.len(),
        v.states[b] != BehaviorState::Completed,
    ensures
        forall|c: int|
            0 <= c < v.queues.len() && v.queues[c].len() == 0 ==> !v.required[b].contains(
                c as usize,
            ),
{
    assert forall|c: int| 0 <= c < v.queues.len() && v.queues[c].len() == 0 implies !v.required[b].contains(
        c as usize,
    ) by {
        if v.required[b].contains(c as usize) {
            let k = choose|k: int| 0 <= k < v.required[b].len() && v.required[b][k] == c as usize;
            assert(v.queues[v.required[b][k] as int].contains(b as usize));
        }
    }
}

} // verus!
