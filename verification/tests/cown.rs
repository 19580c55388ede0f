use std::cell::Cell;
use std::rc::Rc;
use verona_rt::cown::CownPtr;
use verona_rt::layout::{
    size_info, ALIGNOF_CONTROL_BLOCK, OBJECT_ALIGNMENT, SIZEOF_CONTROL_BLOCK,
    SIZEOF_OBJECT_HEADER,
};
use verona_rt::scheduler::{with, with_leak_detector, Scheduler};
use verona_rt::when::AcquiredCown;

type One<T> = Box<dyn FnOnce(&mut AcquiredCown<T>)>;
type Two<T> = Box<dyn FnOnce(&mut AcquiredCown<T>, &mut AcquiredCown<T>)>;
type Sched<T> = Scheduler<T, One<T>, Two<T>>;

#[test]
fn new() {
    let mut sched: Sched<i32> = Scheduler::new();
    with_leak_detector(&mut sched, |s: &mut Sched<i32>| {
        let v = CownPtr::new(s, 10);
        let v2 = v.clone(s);
        assert_eq!(v.addr(), v2.addr());
        assert_eq!(s.strong_count(v.as_raw()), 2);
        assert!(!v.drop(s));
        assert_eq!(s.strong_count(v2.as_raw()), 1);
        assert!(v2.drop(s));
    });
    assert!(!sched.leak_detected());
}

#[test]
fn new_minimal() {
    let mut sched: Sched<i32> = Scheduler::new();
    with(&mut sched, |s: &mut Sched<i32>| {
        CownPtr::new(s, 10).drop(s);
    });
    assert!(!sched.leak_detected());
}

#[test]
fn clone_minimal() {
    let mut sched: Sched<i32> = Scheduler::new();
    with(&mut sched, |s: &mut Sched<i32>| {
        let v1 = CownPtr::new(s, 42);
        v1.clone(s).drop(s);
        v1.drop(s);
    });
    assert!(!sched.leak_detected());
}

#[test]
fn clone_notnull() {
    let mut sched: Sched<i32> = Scheduler::new();
    with(&mut sched, |s: &mut Sched<i32>| {
        let v1 = CownPtr::new(s, 10);
        let v2 = v1.clone(s);
        assert_ne!(v2.addr(), 0);
        v1.drop(s);
        v2.drop(s);
    });
}

#[test]
fn leak_detector_new() {
    let mut sched: Sched<i32> = Scheduler::new();
    with_leak_detector(&mut sched, |s: &mut Sched<i32>| {
        let x = CownPtr::new(s, 1010);
        let y = x.clone(s);
        x.drop(s);
        y.drop(s);
    });
    assert!(!sched.leak_detected());
}

#[test]
fn actualcown_constats_right() {
    let (sizeof_actualcown, alignof_actualcown, sizeof_object_header, object_alignment) =
        size_info();

    assert_eq!(std::mem::size_of::<[u64; 4]>(), sizeof_actualcown);
    assert_eq!(std::mem::align_of::<[u64; 4]>(), alignof_actualcown);
    assert_eq!(sizeof_actualcown, SIZEOF_CONTROL_BLOCK);
    assert_eq!(alignof_actualcown, ALIGNOF_CONTROL_BLOCK);

    assert_eq!(sizeof_object_header, SIZEOF_OBJECT_HEADER);
    assert_eq!(object_alignment, OBJECT_ALIGNMENT)
}

#[test]
fn read_modify_write() {
    let ran = Rc::new(Cell::new(0u8));
    let (r1, r2, r3) = (ran.clone(), ran.clone(), ran.clone());
    let mut sched: Sched<[usize; 100]> = Scheduler::new();
    with_leak_detector(&mut sched, move |s: &mut Sched<[usize; 100]>| {
        let c = CownPtr::new(s, [0; 100]);
        assert_ne!(c.addr(), 0);
        verona_rt::when::when(
            s,
            &c,
            Box::new(move |c: &mut AcquiredCown<[usize; 100]>| {
                for (n, el) in c.get_mut().iter_mut().enumerate() {
                    assert_eq!(*el, 0);
                    *el = n;
                }
                r1.set(r1.get() + 1);
            }),
        );

        let c1 = c.clone(s);
        assert_ne!(c1.addr(), 0);
        verona_rt::when::when(
            s,
            &c1,
            Box::new(move |c1: &mut AcquiredCown<[usize; 100]>| {
                for (n, el) in c1.get_mut().iter_mut().enumerate() {
                    assert_eq!(*el, n);
                    *el *= 2;
                }
                r2.set(r2.get() + 1);
            }),
        );

        let c2 = c.clone(s);
        assert_ne!(c2.addr(), 0);
        verona_rt::when::when(
            s,
            &c2,
            Box::new(move |c2: &mut AcquiredCown<[usize; 100]>| {
                for (n, el) in c2.get().iter().enumerate() {
                    assert_eq!(*el, n * 2);
                }
                r3.set(r3.get() + 1);
            }),
        );
        c.drop(s);
        c1.drop(s);
        c2.drop(s);
    });
    assert_eq!(ran.get(), 3);
    assert!(!sched.leak_detected());
}

fn stress_once(s: &mut Sched<Vec<u8>>, n: usize, ran: &Rc<Cell<usize>>) {
    let x = CownPtr::new(s, vec![0u8; n]);
    let r = ran.clone();
    verona_rt::when::when(
        s,
        &x,
        Box::new(move |x: &mut AcquiredCown<Vec<u8>>| {
            for i in x.get_mut() {
                assert_eq!(*i, 0);
                *i = 0xCC;
            }
            r.set(r.get() + 1);
        }),
    );

    let x2 = x.clone(s);
    let r = ran.clone();
    verona_rt::when::when(
        s,
        &x2,
        Box::new(move |x2: &mut AcquiredCown<Vec<u8>>| {
            for i in x2.get_mut() {
                assert_eq!(*i, 0xCC);
                *i = 0x33;
            }
            r.set(r.get() + 1);
        }),
    );
    x2.drop(s);

    let r = ran.clone();
    verona_rt::when::when(
        s,
        &x,
        Box::new(move |x: &mut AcquiredCown<Vec<u8>>| {
            assert_eq!(x.get().len(), n);
            for i in x.get() {
                assert_eq!(*i, 0x33);
            }
            r.set(r.get() + 1);
        }),
    );

    x.drop(s);
}

fn repeat_alloc(s: &mut Sched<Vec<u8>>, n: usize, ran: &Rc<Cell<usize>>) {
    for _ in 0..100 {
        stress_once(s, n, ran);
    }
}

#[test]
fn write_stress() {
    let ran = Rc::new(Cell::new(0usize));
    let seen = ran.clone();
    let mut sched: Sched<Vec<u8>> = Scheduler::new();
    with_leak_detector(&mut sched, move |s: &mut Sched<Vec<u8>>| {
        repeat_alloc(s, 3932, &seen);
        repeat_alloc(s, 3719, &seen);
        repeat_alloc(s, 1477, &seen);
        repeat_alloc(s, 414, &seen);
        repeat_alloc(s, 163, &seen);
        repeat_alloc(s, 4, &seen);
        repeat_alloc(s, 3, &seen);
        repeat_alloc(s, 2, &seen);
        repeat_alloc(s, 1, &seen);
        repeat_alloc(s, 0, &seen);
    });
    assert_eq!(ran.get(), 3000);
    assert!(!sched.leak_detected());
}

struct WriteOnDrop(Rc<Cell<bool>>);

impl Drop for WriteOnDrop {
    fn drop(&mut self) {
        assert_eq!(self.0.get(), false);
        self.0.set(true);
    }
}

#[test]
fn dtor() {
    let mut sched: Sched<WriteOnDrop> = Scheduler::new();
    with(&mut sched, |s: &mut Sched<WriteOnDrop>| {
        let flag = Rc::new(Cell::new(false));
        let cown = CownPtr::new(s, WriteOnDrop(flag.clone()));

        assert_eq!(flag.get(), false);
        cown.drop(s);
        assert_eq!(flag.get(), true);
    })
}

#[test]
fn dtor_clone() {
    let mut sched: Sched<WriteOnDrop> = Scheduler::new();
    with(&mut sched, |s: &mut Sched<WriteOnDrop>| {
        let flag = Rc::new(Cell::new(false));
        let cown = CownPtr::new(s, WriteOnDrop(flag.clone()));

        assert_eq!(flag.get(), false);
        let cown2 = cown.clone(s);
        assert_eq!(flag.get(), false);
        cown.drop(s);
        assert_eq!(flag.get(), false);
        cown2.drop(s);
        assert_eq!(flag.get(), true);
    })
}

#[test]
fn cown_minimal_main() {
    let mut sched: Sched<i32> = Scheduler::new();
    with_leak_detector(&mut sched, |s: &mut Sched<i32>| {
        let v1 = CownPtr::new(s, 101);
        v1.drop(s);
    });
    assert!(!sched.leak_detected());
}

#[test]
fn dtor_waits_for_the_behavior_that_holds_the_cown() {
    let flag = Rc::new(Cell::new(false));
    let seen = flag.clone();
    let inside = flag.clone();
    let mut sched: Sched<WriteOnDrop> = Scheduler::new();
    with(&mut sched, move |s: &mut Sched<WriteOnDrop>| {
        let cown = CownPtr::new(s, WriteOnDrop(seen.clone()));
        verona_rt::when::when(
            s,
            &cown,
            Box::new(move |_g: &mut AcquiredCown<WriteOnDrop>| {
                assert_eq!(inside.get(), false);
            }),
        );
        assert!(!cown.drop(s));
        assert_eq!(seen.get(), false);
    });
    assert_eq!(flag.get(), true);
    assert!(!sched.leak_detected());
}

#[test]
fn handles_are_counted_apart_from_behaviors() {
    let mut sched: Sched<i32> = Scheduler::new();
    sched.init(1);
    let c = CownPtr::new(&mut sched, 7);
    assert!(sched.check_live(c.as_raw()));
    assert_eq!(sched.strong_count(c.as_raw()), 1);
    verona_rt::when::when(&mut sched, &c, Box::new(|_g: &mut AcquiredCown<i32>| {}));
    assert_eq!(sched.strong_count(c.as_raw()), 2);
    let twin = c.clone(&mut sched);
    assert_eq!(sched.strong_count(c.as_raw()), 3);
    assert!(!twin.drop(&mut sched));
    assert_eq!(sched.live_allocations(), 1);
    sched.run();
    assert_eq!(sched.live_allocations(), 1);
    assert!(sched.check_live(c.as_raw()));
    assert!(c.drop(&mut sched));
    assert_eq!(sched.live_allocations(), 0);
}

#[test]
fn a_handle_of_an_earlier_session_is_not_live() {
    let mut sched: Sched<i32> = Scheduler::new();
    sched.init(1);
    let old = CownPtr::new(&mut sched, 1);
    sched.run();
    assert!(sched.check_live(old.as_raw()));
    sched.init(1);
    assert!(!sched.check_live(old.as_raw()));
    let fresh = CownPtr::new(&mut sched, 2);
    assert_ne!(fresh.addr(), old.addr());
    assert!(fresh.drop(&mut sched));
    sched.run();
    assert!(!sched.leak_detected());
}

#[test]
fn cown_new_stress_main() {
    let mut sched: Sched<i32> = Scheduler::new();
    with(&mut sched, |s: &mut Sched<i32>| {
        for _ in 0..10 {
            let mut v = Vec::new();

            for i in 0..100 {
                v.push(CownPtr::new(s, i));
            }

            let mut vs = Vec::new();

            for _ in 0..100 {
                let twins: Vec<CownPtr<i32>> = v.iter().map(|c| c.clone(s)).collect();
                vs.push(twins);
            }
            assert_eq!(s.strong_count(v[0].as_raw()), 101);

            for twins in vs {
                for c in twins {
                    assert!(!c.drop(s));
                }
            }
            for c in v {
                assert!(c.drop(s));
            }
        }
        assert_eq!(s.live_allocations(), 0);
    });
    assert!(!sched.leak_detected());
}
