use std::cell::Cell;
use std::rc::Rc;
use verona_rt::cown::CownPtr;
use verona_rt::scheduler::{with, Scheduler};
use verona_rt::when::{when2, AcquiredCown};

type One<T> = Box<dyn FnOnce(&mut AcquiredCown<T>)>;
type Two<T> = Box<dyn FnOnce(&mut AcquiredCown<T>, &mut AcquiredCown<T>)>;
type Sched<T> = Scheduler<T, One<T>, Two<T>>;

#[test]
fn basic() {
    let run_counter = Rc::new(Cell::new(0u8));
    let (a, b) = (run_counter.clone(), run_counter.clone());

    assert_eq!(run_counter.get(), 0);

    let mut sched: Sched<i32> = Scheduler::new();
    with(&mut sched, move |s: &mut Sched<i32>| {
        let v = CownPtr::new(s, 101);
        verona_rt::when::when(
            s,
            &v,
            Box::new(move |v: &mut AcquiredCown<i32>| {
                assert_eq!(*v.get(), 101);
                *v.get_mut() += 1;
                a.set(a.get() + 1);
            }),
        );
        verona_rt::when::when(
            s,
            &v,
            Box::new(move |v: &mut AcquiredCown<i32>| {
                assert_eq!(*v.get(), 102);
                b.set(b.get() + 1);
            }),
        );
        v.drop(s);
    });

    assert_eq!(run_counter.get(), 2);
    assert!(!sched.leak_detected());
}

#[test]
fn on_vec() {
    let run_counter = Rc::new(Cell::new(0u8));
    let (a, b, c) = (run_counter.clone(), run_counter.clone(), run_counter.clone());

    assert_eq!(run_counter.get(), 0);

    let mut sched: Sched<Vec<i32>> = Scheduler::new();
    with(&mut sched, move |s: &mut Sched<Vec<i32>>| {
        let vec_cown = CownPtr::new(s, vec![1, 2, 3]);

        verona_rt::when::when(
            s,
            &vec_cown,
            Box::new(move |v: &mut AcquiredCown<Vec<i32>>| {
                assert_eq!(*v.get(), &[1, 2, 3]);
                v.get_mut().push(4);
                a.set(a.get() + 1);
            }),
        );

        verona_rt::when::when(
            s,
            &vec_cown,
            Box::new(move |v: &mut AcquiredCown<Vec<i32>>| {
                assert_eq!(*v.get(), &[1, 2, 3, 4]);
                assert_eq!(b.get(), 1);
                assert_eq!(v.get_mut().pop(), Some(4));
                b.set(b.get() + 1);
            }),
        );

        verona_rt::when::when(
            s,
            &vec_cown,
            Box::new(move |v: &mut AcquiredCown<Vec<i32>>| {
                assert_eq!(*v.get(), &[1, 2, 3]);
                assert_eq!(c.get(), 2);
                c.set(c.get() + 1);
            }),
        );
        vec_cown.drop(s);
    });

    assert_eq!(run_counter.get(), 3);
}

#[derive(Debug, PartialEq)]
enum Value {
    Text(String),
    List(Vec<i32>),
}

fn text(v: &mut AcquiredCown<Value>) -> &mut String {
    match v.get_mut() {
        Value::Text(s) => s,
        Value::List(_) => panic!("a list where a string was put"),
    }
}

fn list(v: &mut AcquiredCown<Value>) -> &mut Vec<i32> {
    match v.get_mut() {
        Value::List(l) => l,
        Value::Text(_) => panic!("a string where a list was put"),
    }
}

#[test]
fn when_two() {
    let ran = Rc::new(Cell::new(0u8));
    let r: Vec<Rc<Cell<u8>>> = (0..5).map(|_| ran.clone()).collect();
    let mut sched: Sched<Value> = Scheduler::new();
    with(&mut sched, move |sch: &mut Sched<Value>| {
        let string = CownPtr::new(sch, Value::Text(String::new()));
        let vec = CownPtr::new(sch, Value::List(Vec::new()));

        let r0 = r[0].clone();
        verona_rt::when::when(
            sch,
            &string,
            Box::new(move |s: &mut AcquiredCown<Value>| {
                assert_eq!(&*text(s), "");
                text(s).push_str("foo");
                r0.set(r0.get() + 1);
            }),
        );
        let r1 = r[1].clone();
        verona_rt::when::when(
            sch,
            &vec,
            Box::new(move |v: &mut AcquiredCown<Value>| {
                assert_eq!(&*list(v), &[]);
                list(v).push(101);
                r1.set(r1.get() + 1);
            }),
        );
        let r2 = r[2].clone();
        when2(
            sch,
            &string,
            &vec,
            Box::new(move |s: &mut AcquiredCown<Value>, v: &mut AcquiredCown<Value>| {
                assert_eq!(&*text(s), "foo");
                assert_eq!(&*list(v), &[101]);
                text(s).push_str("bar");
                list(v).push(666);
                r2.set(r2.get() + 1);
            }),
        );
        let r3 = r[3].clone();
        verona_rt::when::when(
            sch,
            &string,
            Box::new(move |s: &mut AcquiredCown<Value>| {
                assert_eq!(&*text(s), "foobar");
                r3.set(r3.get() + 1);
            }),
        );
        let r4 = r[4].clone();
        verona_rt::when::when(
            sch,
            &vec,
            Box::new(move |v: &mut AcquiredCown<Value>| {
                assert_eq!(&*list(v), &[101, 666]);
                r4.set(r4.get() + 1);
            }),
        );
        string.drop(sch);
        vec.drop(sch);
    });
    assert_eq!(ran.get(), 5);
    assert!(!sched.leak_detected());
}

#[test]
fn fmt_acquired() {
    let ran = Rc::new(Cell::new(false));
    let seen = ran.clone();
    let mut sched: Sched<&'static str> = Scheduler::new();
    with(&mut sched, move |s: &mut Sched<&'static str>| {
        let x = CownPtr::new(s, "101");
        verona_rt::when::when(
            s,
            &x,
            Box::new(move |x: &mut AcquiredCown<&'static str>| {
                assert_eq!(*x.get(), "101");
                assert_eq!(format!("{}", x.get()), "101");
                assert_eq!(format!("{:?}", x.get()), r#""101""#);
                seen.set(true);
            }),
        );
        x.drop(s);
    });
    assert!(ran.get());
}

#[test]
fn guard_names_the_container_it_guards() {
    let seen = Rc::new(Cell::new((0usize, 0usize)));
    let inside = seen.clone();
    let mut sched: Sched<i32> = Scheduler::new();
    let (a, b) = with(&mut sched, move |s: &mut Sched<i32>| {
        let c1 = CownPtr::new(s, 1);
        let c2 = CownPtr::new(s, 2);
        when2(
            s,
            &c2,
            &c1,
            Box::new(move |g: &mut AcquiredCown<i32>, h: &mut AcquiredCown<i32>| {
                assert_eq!((*g.get(), *h.get()), (2, 1));
                inside.set((g.lead_address(), h.lead_address()));
                g.set(20);
            }),
        );
        let addrs = (c1.addr(), c2.addr());
        c1.drop(s);
        c2.drop(s);
        addrs
    });
    assert_eq!(seen.get(), (b, a));
    assert_ne!(a, b);
}

#[test]
fn the_same_container_twice_is_told_apart_before_submitting() {
    let mut sched: Sched<i32> = Scheduler::new();
    sched.init(1);
    let c1 = CownPtr::new(&mut sched, 10);
    let c2 = c1.clone(&mut sched);
    assert_eq!(c1.addr(), c2.addr());
    c1.drop(&mut sched);
    c2.drop(&mut sched);
    sched.run();
}
