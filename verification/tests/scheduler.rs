use std::cell::{Cell, RefCell};
use std::rc::Rc;
use verona_rt::cown::CownPtr;
use verona_rt::protocol::BehaviorState;
use verona_rt::scheduler::{with, with_inner, with_leak_detector, Scheduler, Session};
use verona_rt::when::{when2, AcquiredCown};

type One<T> = Box<dyn FnOnce(&mut AcquiredCown<T>)>;
type Two<T> = Box<dyn FnOnce(&mut AcquiredCown<T>, &mut AcquiredCown<T>)>;
type Sched<T> = Scheduler<T, One<T>, Two<T>>;

#[test]
fn basic_run() {
    let mut sched: Sched<i32> = Scheduler::new();
    with(&mut sched, |_s: &mut Sched<i32>| {});
    assert_eq!(sched.session(), Session::Uninitialized);
    assert!(!sched.leak_detected());
}

#[test]
fn sessions_follow_one_another_on_one_scheduler() {
    let mut sched: Sched<i32> = Scheduler::new();
    let mut total = 0;
    for round in 0..100 {
        let r = with(&mut sched, |s: &mut Sched<i32>| {
            assert_eq!(s.session(), Session::Initialized { workers: 1 });
            let c = CownPtr::new(s, round);
            verona_rt::when::when(s, &c, Box::new(|g: &mut AcquiredCown<i32>| *g.get_mut() += 1));
            c.drop(s);
            1
        });
        total += r;
        assert_eq!(sched.session(), Session::Uninitialized);
    }
    assert_eq!(total, 100);
    assert_eq!(sched.behavior_count(), 100);
    for b in 0..100 {
        assert_eq!(sched.state(b), BehaviorState::Completed);
    }
}

#[test]
fn with_returns_what_the_body_returns() {
    let mut sched: Sched<i32> = Scheduler::new();
    assert_eq!(with(&mut sched, |_s: &mut Sched<i32>| "done"), "done");
    assert_eq!(with_leak_detector(&mut sched, |_s: &mut Sched<i32>| 7), 7);
    assert_eq!(with_inner(&mut sched, |_s: &mut Sched<i32>| 8, false), 8);
}

#[test]
fn a_forgotten_handle_is_reported_as_a_leak() {
    let mut sched: Sched<i32> = Scheduler::new();
    with_leak_detector(&mut sched, |s: &mut Sched<i32>| {
        let v = CownPtr::new(s, 666);
        std::mem::forget(v);
    });
    assert!(sched.leak_detected());
}

#[test]
fn a_leak_does_not_taint_the_next_session() {
    let mut sched: Sched<i32> = Scheduler::new();
    with_leak_detector(&mut sched, |s: &mut Sched<i32>| {
        let _kept = CownPtr::new(s, 666);
    });
    assert!(sched.leak_detected());
    with_leak_detector(&mut sched, |s: &mut Sched<i32>| {
        let v = CownPtr::new(s, 1);
        v.drop(s);
    });
    assert!(!sched.leak_detected());
}

#[test]
fn without_detection_no_leak_is_reported() {
    let mut sched: Sched<i32> = Scheduler::new();
    with_inner(
        &mut sched,
        |s: &mut Sched<i32>| {
            let _kept = CownPtr::new(s, 666);
            assert!(!s.has_leaks());
        },
        false,
    );
    assert!(!sched.leak_detected());
    assert_eq!(sched.live_allocations(), 1);
}

#[test]
fn has_leaks_follows_the_live_containers() {
    let mut sched: Sched<i32> = Scheduler::new();
    sched.init(1);
    sched.set_detect_leaks(true);
    assert!(!sched.has_leaks());
    let v = CownPtr::new(&mut sched, 1);
    assert!(sched.has_leaks());
    assert!(v.drop(&mut sched));
    assert!(!sched.has_leaks());
    sched.run();
    assert!(!sched.leak_detected());
}

#[test]
fn no_more_behaviors_run_at_once_than_there_are_workers() {
    let mut sched: Sched<i32> = Scheduler::new();
    sched.init(2);
    let a = CownPtr::new(&mut sched, 1);
    let b = CownPtr::new(&mut sched, 2);
    let c = CownPtr::new(&mut sched, 3);
    verona_rt::when::when(&mut sched, &a, Box::new(|g: &mut AcquiredCown<i32>| g.set(10)));
    verona_rt::when::when(&mut sched, &b, Box::new(|g: &mut AcquiredCown<i32>| g.set(20)));
    verona_rt::when::when(&mut sched, &c, Box::new(|g: &mut AcquiredCown<i32>| g.set(30)));
    sched.start_run();
    assert_eq!(sched.session(), Session::Running { workers: 2 });
    let mut first = sched.dispatch().unwrap();
    let mut second = sched.dispatch().unwrap();
    assert_eq!((first.id(), second.id()), (0, 1));
    assert_eq!(sched.busy_workers(), 2);
    assert!(sched.dispatch().is_none());
    assert_eq!(sched.state(2), BehaviorState::Ready);
    assert!(!sched.try_end_run());

    second.invoke();
    sched.finish(second);
    assert_eq!(sched.busy_workers(), 1);
    let mut third = sched.dispatch().unwrap();
    assert_eq!(third.id(), 2);
    first.invoke();
    third.invoke();
    sched.finish(first);
    sched.finish(third);
    assert!(sched.try_end_run());
    assert_eq!(sched.session(), Session::Uninitialized);
    assert_eq!(sched.live_allocations(), 3);
}

#[test]
fn behaviors_that_share_a_container_never_run_together() {
    let order = Rc::new(RefCell::new(Vec::new()));
    let (o1, o2, o3) = (order.clone(), order.clone(), order.clone());
    let mut sched: Sched<i32> = Scheduler::new();
    sched.init(4);
    let a = CownPtr::new(&mut sched, 1);
    let b = CownPtr::new(&mut sched, 2);
    when2(
        &mut sched,
        &a,
        &b,
        Box::new(move |g: &mut AcquiredCown<i32>, h: &mut AcquiredCown<i32>| {
            o1.borrow_mut().push(0);
            let sum = *g.get() + *h.get();
            g.set(sum);
            h.set(sum);
        }),
    );
    verona_rt::when::when(
        &mut sched,
        &b,
        Box::new(move |h: &mut AcquiredCown<i32>| {
            o2.borrow_mut().push(1);
            assert_eq!(*h.get(), 3);
        }),
    );
    verona_rt::when::when(
        &mut sched,
        &a,
        Box::new(move |g: &mut AcquiredCown<i32>| {
            o3.borrow_mut().push(2);
            assert_eq!(*g.get(), 3);
        }),
    );
    a.drop(&mut sched);
    b.drop(&mut sched);
    sched.start_run();

    let mut joint = sched.dispatch().unwrap();
    assert_eq!(joint.id(), 0);
    // Workers are free, but both other behaviors wait for the joint one.
    assert!(sched.dispatch().is_none());
    assert_eq!(sched.state(1), BehaviorState::Waiting);
    assert_eq!(sched.state(2), BehaviorState::Waiting);
    joint.invoke();
    sched.finish(joint);

    // Now the two share nothing and run side by side.
    let mut x = sched.dispatch().unwrap();
    let mut y = sched.dispatch().unwrap();
    assert_eq!((x.id(), y.id()), (1, 2));
    y.invoke();
    x.invoke();
    sched.finish(y);
    sched.finish(x);
    assert!(sched.try_end_run());
    assert_eq!(*order.borrow(), vec![0, 2, 1]);
    assert_eq!(sched.live_allocations(), 0);
}

#[test]
fn the_drain_runs_behaviors_in_the_order_of_submission_per_container() {
    let seen = Rc::new(RefCell::new(Vec::new()));
    let mut sched: Sched<i32> = Scheduler::new();
    let log = seen.clone();
    with(&mut sched, move |s: &mut Sched<i32>| {
        let x = CownPtr::new(s, 0);
        for n in 0..20 {
            let log = log.clone();
            verona_rt::when::when(
                s,
                &x,
                Box::new(move |g: &mut AcquiredCown<i32>| {
                    assert_eq!(*g.get(), n);
                    log.borrow_mut().push(n);
                    g.set(n + 1);
                }),
            );
        }
        x.drop(s);
    });
    assert_eq!(*seen.borrow(), (0..20).collect::<Vec<i32>>());
}

#[test]
fn a_body_that_swaps_its_guards_swaps_the_payloads() {
    let ran = Rc::new(Cell::new(0));
    let (r1, r2) = (ran.clone(), ran.clone());
    let mut sched: Sched<i32> = Scheduler::new();
    with(&mut sched, move |s: &mut Sched<i32>| {
        let a = CownPtr::new(s, 1);
        let b = CownPtr::new(s, 2);
        when2(
            s,
            &a,
            &b,
            Box::new(|g: &mut AcquiredCown<i32>, h: &mut AcquiredCown<i32>| {
                std::mem::swap(g, h);
            }),
        );
        verona_rt::when::when(
            s,
            &a,
            Box::new(move |g: &mut AcquiredCown<i32>| {
                assert_eq!(*g.get(), 2);
                r1.set(r1.get() + 1);
            }),
        );
        verona_rt::when::when(
            s,
            &b,
            Box::new(move |h: &mut AcquiredCown<i32>| {
                assert_eq!(*h.get(), 1);
                r2.set(r2.get() + 1);
            }),
        );
        a.drop(s);
        b.drop(s);
    });
    assert_eq!(ran.get(), 2);
}

#[test]
fn a_session_can_be_opened_with_several_workers() {
    let ran = Rc::new(Cell::new(0));
    let seen = ran.clone();
    let mut sched: Sched<i32> = Scheduler::new();
    let workers = verona_rt::scheduler::open_session(&mut sched, 3, true, move |s: &mut Sched<i32>| {
        let c = CownPtr::new(s, 0);
        for _ in 0..4 {
            let seen = seen.clone();
            verona_rt::when::when(
                s,
                &c,
                Box::new(move |g: &mut AcquiredCown<i32>| {
                    *g.get_mut() += 1;
                    seen.set(*g.get());
                }),
            );
        }
        c.drop(s);
        s.session()
    });
    assert_eq!(workers, Session::Initialized { workers: 3 });
    assert_eq!(ran.get(), 4);
    assert!(!sched.leak_detected());
}
