use std::cell::Cell;
use std::rc::Rc;
use verona_rt::store::Store;
use verona_rt::sys;

struct CountDrops(Rc<Cell<u32>>);

impl Drop for CountDrops {
    fn drop(&mut self) {
        self.0.set(self.0.get() + 1);
    }
}

#[test]
fn a_new_container_has_one_reference() {
    let mut store: Store<&str> = Store::new();
    assert_eq!(store.len(), 0);
    assert_eq!(store.create("a"), 0);
    assert_eq!(store.create("b"), 1);
    assert_eq!(store.len(), 2);
    assert_eq!(store.strong_count(0), 1);
    assert_eq!(store.strong_count(1), 1);
    assert_eq!(store.strong_count(2), 0);
}

#[test]
fn the_destructor_runs_once_with_the_last_reference() {
    let drops = Rc::new(Cell::new(0));
    let mut store: Store<CountDrops> = Store::new();
    let c = store.create(CountDrops(drops.clone()));
    store.retain(c);
    store.retain(c);
    assert_eq!(store.strong_count(c), 3);
    assert!(!store.release(c));
    assert!(!store.release(c));
    assert_eq!(drops.get(), 0);
    assert!(store.release(c));
    assert_eq!(drops.get(), 1);
    assert_eq!(store.strong_count(c), 0);
    assert_eq!(store.len(), 1);
}

#[test]
fn a_lent_payload_comes_back_as_it_was_left() {
    let mut store: Store<Vec<u8>> = Store::new();
    let c = store.create(vec![1, 2]);
    let mut out = store.lend(c);
    assert_eq!(out, vec![1, 2]);
    out.push(3);
    store.restore(c, out);
    assert_eq!(store.lend(c), vec![1, 2, 3]);
    assert_eq!(store.strong_count(c), 1);
}

#[test]
fn live_containers_are_counted_from_a_slot_on() {
    let mut store: Store<u8> = Store::new();
    for n in 0..5 {
        store.create(n);
    }
    assert_eq!(store.live_from(0), 5);
    assert!(store.release(1));
    assert!(store.release(4));
    assert_eq!(store.live_from(0), 3);
    assert_eq!(store.live_from(2), 2);
    assert_eq!(store.live_from(4), 0);
    assert_eq!(store.live_from(5), 0);
}

#[test]
fn the_null_reference_has_address_zero() {
    assert_eq!(sys::CownPtr::null().lead_address(), 0);
}
