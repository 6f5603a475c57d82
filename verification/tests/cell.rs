use atomic_immut::cell::to_arc_ptr;
use atomic_immut::AtomicImmut;
use std::cell::Cell;
use std::rc::Rc;
use std::sync::Arc;

#[test]
fn it_works() {
    let mut v = AtomicImmut::new(vec![0, 1, 2]);
    assert_eq!(&*v.load(), &vec![0, 1, 2]);
    assert_eq!(Arc::strong_count(&v.load()), 2);

    let old = v.swap(vec![0]);
    assert_eq!(&*v.load(), &vec![0]);
    assert_eq!(Arc::strong_count(&v.load()), 2);

    assert_eq!(&*old, &vec![0, 1, 2]);
    assert_eq!(Arc::strong_count(&old), 1);
}

#[test]
fn update_works() {
    let mut v = AtomicImmut::new(vec![0, 1, 2]);
    assert_eq!(&*v.load(), &vec![0, 1, 2]);
    assert_eq!(Arc::strong_count(&v.load()), 2);

    v.update(|_| vec![0]);
    assert_eq!(&*v.load(), &vec![0]);
    assert_eq!(Arc::strong_count(&v.load()), 2);
}

#[test]
fn new_then_load_gives_the_value() {
    let mut v = AtomicImmut::new(5);
    assert_eq!(*v.load(), 5);
    let mut s = AtomicImmut::new(String::from("abc"));
    assert_eq!(&*s.load(), "abc");
}

#[test]
fn store_replaces_the_value() {
    let mut v = AtomicImmut::new(5);
    assert_eq!(*v.load(), 5);
    v.store(1);
    assert_eq!(*v.load(), 1);
}

#[test]
fn snapshot_survives_store() {
    let mut v = AtomicImmut::new(vec![1, 2, 3]);
    let before = v.load();
    v.store(vec![4]);
    let after = v.load();
    assert_eq!(&*before, &vec![1, 2, 3]);
    assert_eq!(&*after, &vec![4]);
    v.store(vec![]);
    assert_eq!(&*before, &vec![1, 2, 3]);
    assert_eq!(&*after, &vec![4]);
    assert!(v.load().is_empty());
}

#[test]
fn swap_returns_previous() {
    let mut v = AtomicImmut::new(5);
    let old = v.swap(1);
    assert_eq!(*v.load(), 1);
    assert_eq!(*old, 5);
}

#[test]
fn swap_scenario_on_arrays() {
    let mut cell = AtomicImmut::new(vec![0, 1, 2]);
    let old = cell.swap(vec![0]);
    assert_eq!(&*cell.load(), &vec![0]);
    assert_eq!(&*old, &vec![0, 1, 2]);
}

#[test]
fn update_applies_the_function() {
    let mut v = AtomicImmut::new(5);
    v.update(|x| *x * 2);
    assert_eq!(*v.load(), 10);
    v.update(|x| *x + 1);
    assert_eq!(*v.load(), 11);
}

#[test]
fn update_many_times_counts_each() {
    let mut v = AtomicImmut::new(0u64);
    for _ in 0..1000 {
        v.update(|x| *x + 1);
    }
    assert_eq!(*v.load(), 1000);
}

#[test]
fn load_shares_the_allocation() {
    let mut v = AtomicImmut::new(vec![7u8; 16]);
    let a = v.load();
    let b = v.load();
    assert!(Arc::ptr_eq(&a, &b));
    assert_eq!(Arc::strong_count(&a), 3);
    drop(b);
    assert_eq!(Arc::strong_count(&a), 2);
    drop(v);
    assert_eq!(Arc::strong_count(&a), 1);
}

#[test]
fn reference_counts_after_swap() {
    let mut v = AtomicImmut::new(vec![0, 1, 2]);
    let first = v.load();
    assert_eq!(Arc::strong_count(&first), 2);
    let old = v.swap(vec![0]);
    assert!(Arc::ptr_eq(&first, &old));
    assert_eq!(Arc::strong_count(&old), 2);
    drop(first);
    assert_eq!(Arc::strong_count(&old), 1);
    assert_eq!(Arc::strong_count(&v.load()), 2);
}

#[test]
fn default_holds_the_default_value() {
    let mut v: AtomicImmut<Vec<u32>> = AtomicImmut::default();
    assert!(v.load().is_empty());
    let mut n: AtomicImmut<i64> = Default::default();
    assert_eq!(*n.load(), 0);
}

#[test]
fn to_arc_ptr_holds_the_value_alone() {
    let handle = to_arc_ptr(vec![1, 2]);
    assert_eq!(&*handle, &vec![1, 2]);
    assert_eq!(Arc::strong_count(&handle), 1);
}

struct Counted {
    dropped: Rc<Cell<usize>>,
    tag: usize,
}

impl Drop for Counted {
    fn drop(&mut self) {
        self.dropped.set(self.dropped.get() + 1);
    }
}

fn counted(dropped: &Rc<Cell<usize>>, made: &mut usize, tag: usize) -> Counted {
    *made += 1;
    Counted { dropped: dropped.clone(), tag }
}

#[test]
fn every_value_is_dropped_once() {
    let dropped = Rc::new(Cell::new(0));
    let mut made = 0;
    {
        let mut v = AtomicImmut::new(counted(&dropped, &mut made, 0));
        let held = v.load();
        v.store(counted(&dropped, &mut made, 1));
        assert_eq!(dropped.get(), 0);
        drop(held);
        assert_eq!(dropped.get(), 1);
        let old = v.swap(counted(&dropped, &mut made, 2));
        assert_eq!(old.tag, 1);
        assert_eq!(dropped.get(), 1);
        drop(old);
        assert_eq!(dropped.get(), 2);
        let next = counted(&dropped, &mut made, 3);
        v.update(move |_| Counted { dropped: next.dropped.clone(), tag: 4 });
        made += 1;
        assert_eq!(v.load().tag, 4);
        v.store(counted(&dropped, &mut made, 5));
        let last = v.load();
        drop(v);
        assert_eq!(last.tag, 5);
        assert_eq!(dropped.get(), made - 1);
    }
    assert_eq!(dropped.get(), made);
    assert_eq!(made, 6);
}
