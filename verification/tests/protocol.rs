use verona_rt::protocol::{check_all_below, check_distinct, BehaviorState, Protocol, SubmitError};

fn two_cowns() -> Protocol {
    let mut p = Protocol::new();
    assert_eq!(p.add_cown(), 0);
    assert_eq!(p.add_cown(), 1);
    p
}

#[test]
fn a_behavior_on_free_containers_is_ready_at_once() {
    let mut p = two_cowns();
    assert_eq!(p.submit(vec![0, 1]), Ok(0));
    assert_eq!(p.state(0), BehaviorState::Ready);
    assert_eq!(p.queue_len(0), 1);
    assert_eq!(p.queue_len(1), 1);
    assert_eq!(p.required(0), &vec![0, 1]);
    assert_eq!(p.behavior_count(), 1);
    assert_eq!(p.cown_count(), 2);
}

#[test]
fn a_behavior_that_was_never_submitted_is_pending() {
    let p = two_cowns();
    assert_eq!(p.state(0), BehaviorState::Pending);
    assert_eq!(p.state(17), BehaviorState::Pending);
    assert_eq!(p.next_ready(), None);
}

#[test]
fn a_behavior_without_containers_is_ready() {
    let mut p = Protocol::new();
    assert_eq!(p.submit(vec![]), Ok(0));
    assert_eq!(p.state(0), BehaviorState::Ready);
    p.start(0);
    p.complete(0);
    assert_eq!(p.state(0), BehaviorState::Completed);
}

#[test]
fn the_same_container_twice_is_refused_and_nothing_changes() {
    let mut p = two_cowns();
    assert_eq!(p.submit(vec![1, 0, 1]), Err(SubmitError::DuplicateContainer));
    assert_eq!(p.behavior_count(), 0);
    assert_eq!(p.queue_len(0), 0);
    assert_eq!(p.queue_len(1), 0);
}

#[test]
fn an_unknown_container_is_refused_and_nothing_changes() {
    let mut p = two_cowns();
    assert_eq!(p.submit(vec![0, 2]), Err(SubmitError::UnknownContainer));
    assert_eq!(p.submit(vec![2, 2]), Err(SubmitError::UnknownContainer));
    assert_eq!(p.behavior_count(), 0);
    assert_eq!(p.queue_len(0), 0);
}

#[test]
fn the_checks_behind_a_submission() {
    assert!(check_all_below(&vec![0, 1, 2], 3));
    assert!(!check_all_below(&vec![0, 3], 3));
    assert!(check_all_below(&vec![], 0));
    assert!(check_distinct(&vec![4, 2, 9]));
    assert!(!check_distinct(&vec![4, 2, 4]));
    assert!(check_distinct(&vec![]));
}

#[test]
fn later_behaviors_wait_behind_earlier_ones_on_each_container() {
    let mut p = two_cowns();
    assert_eq!(p.submit(vec![0]), Ok(0));
    assert_eq!(p.submit(vec![0]), Ok(1));
    assert_eq!(p.submit(vec![1]), Ok(2));
    assert_eq!(p.submit(vec![0, 1]), Ok(3));
    assert_eq!(p.state(0), BehaviorState::Ready);
    assert_eq!(p.state(1), BehaviorState::Waiting);
    assert_eq!(p.state(2), BehaviorState::Ready);
    assert_eq!(p.state(3), BehaviorState::Waiting);
    assert_eq!(p.next_ready(), Some(0));
    assert!(p.heads_all(0, &vec![0]));
    assert!(!p.heads_all(1, &vec![0]));
    assert!(!p.heads_all(3, &vec![0, 1]));

    p.start(0);
    assert_eq!(p.state(0), BehaviorState::Running);
    assert_eq!(p.next_ready(), Some(2));
    p.complete(0);
    assert_eq!(p.state(0), BehaviorState::Completed);
    assert_eq!(p.state(1), BehaviorState::Ready);
    assert_eq!(p.state(3), BehaviorState::Waiting);
    assert_eq!(p.queue_len(0), 2);

    p.start(2);
    p.complete(2);
    // 3 heads the second queue now, but still stands behind 1 on the first.
    assert_eq!(p.state(3), BehaviorState::Waiting);

    p.start(1);
    p.complete(1);
    assert_eq!(p.state(3), BehaviorState::Ready);
    p.start(3);
    p.complete(3);
    assert_eq!(p.queue_len(0), 0);
    assert_eq!(p.queue_len(1), 0);
    assert_eq!(p.next_ready(), None);
}

#[test]
fn one_completion_can_make_several_behaviors_ready() {
    let mut p = two_cowns();
    assert_eq!(p.submit(vec![1, 0]), Ok(0));
    assert_eq!(p.submit(vec![0]), Ok(1));
    assert_eq!(p.submit(vec![1]), Ok(2));
    assert_eq!(p.state(1), BehaviorState::Waiting);
    assert_eq!(p.state(2), BehaviorState::Waiting);
    p.start(0);
    p.complete(0);
    assert_eq!(p.state(1), BehaviorState::Ready);
    assert_eq!(p.state(2), BehaviorState::Ready);
}

#[test]
fn overlapping_sets_in_opposite_order_do_not_deadlock() {
    let mut p = two_cowns();
    assert_eq!(p.submit(vec![0, 1]), Ok(0));
    assert_eq!(p.submit(vec![1, 0]), Ok(1));
    assert_eq!(p.state(0), BehaviorState::Ready);
    assert_eq!(p.state(1), BehaviorState::Waiting);
    p.start(0);
    p.complete(0);
    assert_eq!(p.state(1), BehaviorState::Ready);
    p.start(1);
    p.complete(1);
    assert_eq!(p.state(1), BehaviorState::Completed);
}
