use brainfuck_vm::numbers::{Counter, Number, Operation};
use brainfuck_vm::operators::{Add, Sub};

#[test]
fn main_adds() {
    let mut n = Counter::zero();
    Add::exec(&mut n);
    Add::exec(&mut n);
    Add::exec(&mut n);
    assert_eq!(n.eval(), 3);
}

#[test]
fn main_add_sub() {
    let mut n = Counter::zero();
    Add::exec(&mut n);
    Add::exec(&mut n);
    Sub::exec(&mut n);
    assert_eq!(n.eval(), 1);
}

#[test]
fn old2_adds() {
    let mut n = Counter::zero();
    Add::exec(&mut n);
    Add::exec(&mut n);
    Add::exec(&mut n);
    assert_eq!(n.eval(), 3);
}

#[test]
fn old2_add_sub() {
    let mut n = Counter::zero();
    Add::exec(&mut n);
    Add::exec(&mut n);
    Sub::exec(&mut n);
    assert_eq!(n.eval(), 1);
}

#[test]
fn add_test() {
    let a = Counter::zero();
    let mut b = a.clone();
    b.increment();
    b.increment();
    b.increment();
    assert_eq!(b.eval(), 3);
    assert_eq!(a.eval(), 0);
}

#[test]
fn zero_is_zero() {
    let zero = Counter::zero();
    assert!(zero.is_zero());
    assert_eq!(zero.eval(), 0);
    assert_eq!(zero.to_usize(), Some(0));
}

#[test]
fn decrement_of_zero_is_zero() {
    let mut n = Counter::zero();
    n.decrement();
    assert!(n.is_zero());
    Sub::exec(&mut n);
    assert_eq!(n.eval(), 0);
}

#[test]
fn decrement_undoes_increment() {
    for start in [0usize, 1, 2, 254, 255, 256, 65_535, 1_000_000] {
        let mut n = Counter::from_usize(start);
        n.increment();
        assert_eq!(n.eval(), start + 1);
        n.decrement();
        assert_eq!(n.eval(), start);
    }
}

#[test]
fn k_increments_of_zero_give_k() {
    let mut n = Counter::zero();
    for k in 0..1000usize {
        assert_eq!(n.eval(), k);
        assert_eq!(n.is_zero(), k == 0);
        n.increment();
    }
    assert_eq!(n.eval(), 1000);
}

#[test]
fn from_usize_round_trips() {
    for value in [0usize, 1, 7, 255, 256, usize::MAX - 1, usize::MAX] {
        assert_eq!(Counter::from_usize(value).to_usize(), Some(value));
    }
}

#[test]
fn increment_has_no_upper_bound() {
    let mut n = Counter::from_usize(usize::MAX);
    n.increment();
    assert_eq!(n.to_usize(), None);
    assert!(!n.is_zero());
    n.increment();
    assert_eq!(n.to_usize(), None);
    n.decrement();
    assert_eq!(n.to_usize(), None);
    n.decrement();
    assert_eq!(n.to_usize(), Some(usize::MAX));
    assert_eq!(n.eval(), usize::MAX);
}

#[test]
fn decrement_borrows_across_limbs() {
    let mut n = Counter::from_usize(usize::MAX);
    n.increment();
    let mut copy = n.clone();
    copy.decrement();
    assert_eq!(copy.eval(), usize::MAX);
    copy.decrement();
    assert_eq!(copy.eval(), usize::MAX - 1);
    assert_eq!(n.to_usize(), None);
}

#[test]
fn clone_is_independent() {
    let mut n = Counter::from_usize(41);
    let copy = n.clone();
    n.increment();
    assert_eq!(n.eval(), 42);
    assert_eq!(copy.eval(), 41);
}
