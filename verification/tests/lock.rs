use atomic_immut::lock::{read_admitted, reader_bits, write_admitted, writer_unit, SpinRwLock};

#[test]
fn reader_bits_is_half_the_word() {
    assert_eq!(reader_bits(), std::mem::size_of::<usize>() * 8 / 2);
    assert_eq!(reader_bits() * 2, usize::BITS as usize);
}

#[test]
fn writer_unit_is_the_lowest_bit_of_the_high_half() {
    assert_eq!(writer_unit(), 1 << reader_bits());
    assert_eq!(writer_unit().count_ones(), 1);
    assert_eq!(writer_unit().trailing_zeros() as usize, reader_bits());
    if usize::BITS == 64 {
        assert_eq!(writer_unit() as u64, 4294967296);
    }
}

#[test]
fn readers_are_admitted_while_no_writer_is_registered() {
    assert!(read_admitted(0));
    assert!(read_admitted(1));
    assert!(read_admitted(31));
    assert!(read_admitted(writer_unit() - 1));
    assert!(!read_admitted(writer_unit()));
    assert!(!read_admitted(writer_unit() + 3));
    assert!(!read_admitted(2 * writer_unit()));
    assert!(!read_admitted(usize::MAX));
}

#[test]
fn writers_are_admitted_only_at_rest() {
    assert!(write_admitted(0));
    assert!(!write_admitted(1));
    assert!(!write_admitted(writer_unit()));
    assert!(!write_admitted(writer_unit() + 1));
    assert!(!write_admitted(usize::MAX));
}

#[test]
fn new_lock_is_idle() {
    let lock = SpinRwLock::new();
    assert_eq!(lock.load(), 0);
}

#[test]
fn readers_accrue_in_the_low_half() {
    let mut lock = SpinRwLock::new();
    lock.rlock();
    assert_eq!(lock.load(), 1);
    lock.rlock();
    lock.rlock();
    assert_eq!(lock.load(), 3);
    lock.runlock();
    assert_eq!(lock.load(), 2);
    lock.runlock();
    lock.runlock();
    assert_eq!(lock.load(), 0);
}

#[test]
fn writer_takes_the_high_half() {
    let mut lock = SpinRwLock::new();
    lock.wlock();
    assert_eq!(lock.load(), writer_unit());
    lock.wunlock();
    assert_eq!(lock.load(), 0);
}

#[test]
fn writer_is_refused_while_a_reader_holds() {
    let mut lock = SpinRwLock::new();
    lock.rlock();
    assert!(!lock.register_writer());
    assert_eq!(lock.load(), writer_unit() + 1);
    lock.wunlock();
    assert_eq!(lock.load(), 1);
    lock.runlock();
    assert!(lock.register_writer());
    assert_eq!(lock.load(), writer_unit());
}

#[test]
fn second_writer_is_refused() {
    let mut lock = SpinRwLock::new();
    assert!(lock.register_writer());
    assert!(!lock.register_writer());
    assert_eq!(lock.load(), 2 * writer_unit());
    lock.wunlock();
    assert_eq!(lock.load(), writer_unit());
    lock.wunlock();
    assert_eq!(lock.load(), 0);
}

#[test]
fn reader_waits_while_a_writer_is_registered() {
    let mut lock = SpinRwLock::new();
    lock.wlock();
    assert!(!lock.register_reader());
    assert_eq!(lock.load(), writer_unit() + 1);
    assert!(!read_admitted(lock.load()));
    lock.wunlock();
    assert!(read_admitted(lock.load()));
    assert_eq!(lock.load(), 1);
    assert!(lock.register_reader());
    assert_eq!(lock.load(), 2);
}

#[test]
fn reader_registers_during_a_refused_bid() {
    let mut lock = SpinRwLock::new();
    lock.rlock();
    assert!(!lock.register_writer());
    assert!(!lock.register_reader());
    lock.wunlock();
    assert!(read_admitted(lock.load()));
    assert_eq!(lock.load(), 2);
}

#[test]
fn release_without_a_hold_wraps() {
    let mut lock = SpinRwLock::new();
    lock.runlock();
    assert_eq!(lock.load(), usize::MAX);
}
