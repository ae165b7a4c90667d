use std::ops::{Deref, DerefMut};
use std::sync::atomic::{AtomicBool, Ordering};
use tinypointers::{Memory, MemoryError, TinyBox};

#[derive(Debug)]
struct DropIndicator<T>(&'static AtomicBool, T);

impl<T: PartialEq> PartialEq<T> for DropIndicator<T> {
    fn eq(&self, other: &T) -> bool {
        self.1 == *other
    }
}

impl<T> Drop for DropIndicator<T> {
    fn drop(&mut self) {
        self.0.store(true, Ordering::Relaxed);
    }
}

impl<T> Deref for DropIndicator<T> {
    type Target = T;
    fn deref(&self) -> &T {
        &self.1
    }
}

impl<T> DerefMut for DropIndicator<T> {
    fn deref_mut(&mut self) -> &mut T {
        &mut self.1
    }
}

fn new_flag() -> &'static AtomicBool {
    Box::leak(Box::new(AtomicBool::new(false)))
}

fn dropped(flag: &AtomicBool) -> bool {
    flag.load(Ordering::Relaxed)
}

#[test]
fn single_box_test() {
    let flag = new_flag();
    let mut mem = Memory::new();
    let mut b = TinyBox::new(&mut mem, DropIndicator(flag, 42i32)).unwrap();
    **b.get_mut(&mut mem).unwrap() += 5;
    assert_eq!(*b.get(&mem).unwrap(), 47);

    b.free(&mut mem).unwrap();
    assert!(dropped(flag), "Value was not dropped");
}

#[test]
fn multiple_box_test() {
    let mut mem = Memory::new();
    for i in 0..100 {
        let flag = new_flag();
        let mut b = TinyBox::new(&mut mem, DropIndicator(flag, i)).unwrap();
        **b.get_mut(&mut mem).unwrap() += i;
        assert_eq!(*b.get(&mem).unwrap(), i * 2);

        b.free(&mut mem).unwrap();
        assert!(dropped(flag), "Value was not dropped");
    }
}

#[test]
fn box_value_is_dropped_only_on_free() {
    let flag = new_flag();
    let mut mem = Memory::new();
    let b = TinyBox::new(&mut mem, DropIndicator(flag, 42)).unwrap();
    assert_eq!(*b.get(&mem).unwrap(), 42);
    assert!(!dropped(flag));
    b.free(&mut mem).unwrap();
    assert!(dropped(flag));
    assert_eq!(mem.remaining_slots(), 65535);
}

#[test]
fn box_clone_is_independent() {
    let mut mem = Memory::new();
    let mut a = TinyBox::new(&mut mem, vec![1, 2]).unwrap();
    let mut b = a.clone(&mut mem).unwrap();
    a.get_mut(&mut mem).unwrap().push(3);
    assert_eq!(*a.get(&mem).unwrap(), vec![1, 2, 3]);
    assert_eq!(*b.get(&mem).unwrap(), vec![1, 2]);
    b.get_mut(&mut mem).unwrap().clear();
    assert_eq!(*a.get(&mem).unwrap(), vec![1, 2, 3]);
    a.free(&mut mem).unwrap();
    assert_eq!(*b.get(&mem).unwrap(), Vec::<i32>::new());
    b.free(&mut mem).unwrap();
    assert_eq!(mem.remaining_slots(), 65535);
}

#[test]
fn box_clones_free_once_each() {
    let mut mem = Memory::new();
    let a = TinyBox::new(&mut mem, 5u64).unwrap();
    let b = a.clone(&mut mem).unwrap();
    let stale = TinyBox::new(&mut mem, 0u64).unwrap();
    stale.free(&mut mem).unwrap();
    a.free(&mut mem).unwrap();
    assert_eq!(*b.get(&mem).unwrap(), 5);
    b.free(&mut mem).unwrap();
    assert_eq!(mem.remaining_slots(), 65535);
}

#[test]
fn box_of_freed_slot_fails() {
    let mut mem = Memory::new();
    let a = TinyBox::new(&mut mem, 1u8).unwrap();
    let copy = a.clone(&mut mem).unwrap();
    copy.free(&mut mem).unwrap();
    a.free(&mut mem).unwrap();
    let mut other = Memory::new();
    let b = TinyBox::new(&mut other, 2u8).unwrap();
    assert_eq!(b.get(&mem), Err(MemoryError::AlreadyFreed));
}
