use tinypointers::{Memory, MemoryError, TinyPtr, ONE_BYTE_MAX_SLOTS};

#[test]
fn access_raw_test() {
    let mut mem = Memory::new();
    let ptr = TinyPtr::new(&mut mem, 42).unwrap();
    assert_eq!(*ptr.get(&mem).unwrap(), 42);
}

#[test]
fn access_raw_string_test() {
    let mut mem = Memory::new();
    let ptr = TinyPtr::new(&mut mem, String::from("Hello, World!")).unwrap();
    assert_eq!(ptr.get(&mem).unwrap(), "Hello, World!");
}

#[test]
fn access_after_multiple_test() {
    let mut mem = Memory::new();
    let ptrs = (0..100usize).map(|i| TinyPtr::new(&mut mem, i).unwrap()).collect::<Vec<_>>();
    assert!(ptrs.iter().enumerate().all(|(i, ptr)| *ptr.get(&mem).unwrap() == i));
}

#[test]
fn drop_single_test() {
    let mut mem = Memory::new();
    let ptr = TinyPtr::new(&mut mem, 42).unwrap();
    assert_eq!(*ptr.get(&mem).unwrap(), 42);
    assert_eq!(ptr.take(&mut mem).unwrap(), 42);
}

#[test]
fn drop_multiple_test() {
    let mut mem = Memory::new();
    let ptrs = (0..100usize).map(|i| TinyPtr::new(&mut mem, i).unwrap()).collect::<Vec<_>>();
    assert!(ptrs.iter().enumerate().all(|(i, ptr)| *ptr.get(&mem).unwrap() == i));
    assert!(ptrs.into_iter().enumerate().all(|(i, ptr)| ptr.take(&mut mem).unwrap() == i));
}

#[test]
fn ids_start_at_one_and_grow() {
    let mut mem = Memory::new();
    let a = TinyPtr::new(&mut mem, 'a').unwrap();
    let b = TinyPtr::new(&mut mem, 'b').unwrap();
    assert_eq!(a.id(), 1);
    assert_eq!(b.id(), 2);
}

#[test]
fn round_trip_reads_inserted_value() {
    let mut mem = Memory::new();
    let ptr = mem.insert_value(vec![1u8, 2, 3]).unwrap();
    assert_eq!(mem.access(&ptr).unwrap(), &vec![1u8, 2, 3]);
}

#[test]
fn second_take_fails() {
    let mut mem = Memory::new();
    let ptr = TinyPtr::new(&mut mem, 7u32).unwrap();
    assert_eq!(ptr.take(&mut mem), Ok(7));
    assert_eq!(ptr.take(&mut mem), Err(MemoryError::AlreadyFreed));
    assert_eq!(ptr.get(&mem), Err(MemoryError::AlreadyFreed));
}

#[test]
fn handle_past_the_table_is_out_of_bounds() {
    let mut small = Memory::new();
    let mut large = Memory::new();
    TinyPtr::new(&mut large, 1u8).unwrap();
    let far = TinyPtr::new(&mut large, 2u8).unwrap();
    TinyPtr::new(&mut small, 3u8).unwrap();
    assert_eq!(far.get(&small), Err(MemoryError::IndexOutOfBounds));
    assert_eq!(far.take(&mut small), Err(MemoryError::IndexOutOfBounds));
    assert_eq!(*TinyPtr::new(&mut small, 4u8).unwrap().get(&small).unwrap(), 4);
}

#[test]
fn freed_id_is_reused() {
    let mut mem = Memory::new();
    let a = TinyPtr::new(&mut mem, 10).unwrap();
    let _b = TinyPtr::new(&mut mem, 20).unwrap();
    a.take(&mut mem).unwrap();
    let c = TinyPtr::new(&mut mem, 30).unwrap();
    assert_eq!(c.id(), 1);
    assert_eq!(*c.get(&mem).unwrap(), 30);
}

#[test]
fn get_mut_changes_only_its_slot() {
    let mut mem = Memory::new();
    let a = TinyPtr::new(&mut mem, 1).unwrap();
    let b = TinyPtr::new(&mut mem, 2).unwrap();
    *a.get_mut(&mut mem).unwrap() += 40;
    assert_eq!(*a.get(&mem).unwrap(), 41);
    assert_eq!(*b.get(&mem).unwrap(), 2);
}

#[test]
fn remaining_slots_counts_live_values() {
    let mut mem = Memory::with_max_slots(ONE_BYTE_MAX_SLOTS);
    assert_eq!(mem.remaining_slots(), 255);
    let a = TinyPtr::new(&mut mem, 0u8).unwrap();
    TinyPtr::new(&mut mem, 1u8).unwrap();
    assert_eq!(mem.remaining_slots(), 253);
    a.take(&mut mem).unwrap();
    assert_eq!(mem.remaining_slots(), 254);
    assert_eq!(Memory::<u8>::new().remaining_slots(), 65535);
}

#[test]
fn one_byte_arena_refuses_the_256th_value() {
    let mut mem = Memory::with_max_slots(ONE_BYTE_MAX_SLOTS);
    let ptrs = (0..255u32).map(|i| TinyPtr::new(&mut mem, i).unwrap()).collect::<Vec<_>>();
    assert_eq!(TinyPtr::new(&mut mem, 255u32).err(), Some(MemoryError::CapacityExhausted));
    assert_eq!(mem.remaining_slots(), 0);
    for (i, ptr) in ptrs.iter().enumerate() {
        assert_eq!(*ptr.get(&mem).unwrap(), i as u32);
    }
    ptrs[9].take(&mut mem).unwrap();
    let again = TinyPtr::new(&mut mem, 1000u32).unwrap();
    assert_eq!(again.id(), 10);
}
