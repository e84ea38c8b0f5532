use evm_riscv::allocator::{RegisterAllocator, SpillError};
use evm_riscv::register::{RegKind, Register};

#[test]
fn test_new_allocator() {
    let alloc = RegisterAllocator::new();
    assert_eq!(alloc.available_temp.len(), 7);
    assert_eq!(alloc.available_saved.len(), 10);
    assert!(alloc.allocated.is_empty());
    assert!(alloc.callee_saved.is_empty());
}

#[test]
fn test_allocation() {
    let mut alloc = RegisterAllocator::new();
    let reg1 = alloc.allocate(1).unwrap();
    let reg2 = alloc.allocate(2).unwrap();

    assert!(alloc.has_allocation(1));
    assert!(alloc.has_allocation(2));
    assert_eq!(alloc.get_register(1).unwrap(), reg1);
    assert_eq!(alloc.get_register(2).unwrap(), reg2);
}

#[test]
fn test_free() {
    let mut alloc = RegisterAllocator::new();
    let initial_count = alloc.available_count();

    alloc.allocate(1).unwrap();
    assert_eq!(alloc.available_count(), initial_count - 1);

    alloc.free(1);
    assert_eq!(alloc.available_count(), initial_count);
    assert!(!alloc.has_allocation(1));
}

#[test]
fn test_clear_allocations() {
    let mut alloc = RegisterAllocator::new();
    let initial_count = alloc.available_count();

    alloc.allocate(1).unwrap();
    alloc.allocate(2).unwrap();
    alloc.allocate(3).unwrap();

    alloc.clear_allocations();
    assert_eq!(alloc.available_count(), initial_count);
    assert!(alloc.allocated.is_empty());
    assert!(alloc.callee_saved.is_empty());
}

#[test]
fn test_reserve_register() {
    let mut alloc = RegisterAllocator::new();
    let temp_reg = Register::from_raw(5);
    let saved_reg = Register::from_raw(18);

    alloc.reserve_register(temp_reg);
    alloc.reserve_register(saved_reg);

    assert!(!alloc.available_temp.contains(&temp_reg));
    assert!(!alloc.available_saved.contains(&saved_reg));
    assert!(alloc.callee_saved.contains(&saved_reg));
}

#[test]
fn test_saved_register_tracking() {
    let mut alloc = RegisterAllocator::new();
    let initial_saved_count = alloc.available_saved.len();

    while !alloc.available_temp.is_empty() {
        alloc.allocate(alloc.allocated.len()).unwrap();
    }

    let pos = alloc.allocated.len();
    alloc.allocate(pos).unwrap();

    assert_eq!(alloc.available_saved.len(), initial_saved_count - 1);
    assert_eq!(alloc.callee_saved.len(), 1);
}

#[test]
fn initial_pools_hold_the_seventeen_registers_in_order() {
    let alloc = RegisterAllocator::new();
    let temp: Vec<u8> = alloc.available_temp.iter().map(|r| r.raw()).collect();
    let saved: Vec<u8> = alloc.available_saved.iter().map(|r| r.raw()).collect();
    assert_eq!(temp, vec![5, 6, 7, 28, 29, 30, 31]);
    assert_eq!(saved, vec![18, 19, 20, 21, 22, 23, 24, 25, 26, 27]);
    assert_eq!(alloc.available_count(), 17);
    assert!(alloc.get_callee_saved().is_empty());
}

#[test]
fn allocation_prefers_temporaries_last_in_first_out() {
    let mut alloc = RegisterAllocator::new();
    let order: Vec<u8> = (0..17).map(|slot| alloc.allocate(slot).unwrap().raw()).collect();
    assert_eq!(
        order,
        vec![31, 30, 29, 28, 7, 6, 5, 27, 26, 25, 24, 23, 22, 21, 20, 19, 18]
    );
    let callee: Vec<u8> = alloc.get_callee_saved().iter().map(|r| r.raw()).collect();
    assert_eq!(callee, vec![27, 26, 25, 24, 23, 22, 21, 20, 19, 18]);
    assert_eq!(alloc.available_count(), 0);
}

#[test]
fn eighteenth_allocation_signals_a_spill() {
    let mut alloc = RegisterAllocator::new();
    for slot in 0..17 {
        assert!(alloc.allocate(slot).is_ok());
    }
    assert_eq!(alloc.allocate(17), Err(SpillError { stack_pos: 17 }));
    assert_eq!(alloc.get_register(99), Err(SpillError { stack_pos: 99 }));
    assert_eq!(alloc.available_count(), 0);
    assert!(!alloc.has_allocation(17));
    assert_eq!(alloc.get_register(3).unwrap().raw(), 28);
}

#[test]
fn freed_register_is_the_next_handed_out() {
    let mut alloc = RegisterAllocator::new();
    let a = alloc.allocate(10).unwrap();
    let b = alloc.allocate(11).unwrap();
    assert_eq!(a.raw(), 31);
    assert_eq!(b.raw(), 30);
    alloc.free(10);
    assert_eq!(alloc.allocate(12).unwrap(), a);
    alloc.free(10);
    assert_eq!(alloc.available_count(), 15);
}

#[test]
fn freeing_a_saved_register_clears_its_record() {
    let mut alloc = RegisterAllocator::new();
    for slot in 0..9 {
        alloc.allocate(slot).unwrap();
    }
    let callee: Vec<u8> = alloc.get_callee_saved().iter().map(|r| r.raw()).collect();
    assert_eq!(callee, vec![27, 26]);
    alloc.free(7);
    let callee: Vec<u8> = alloc.get_callee_saved().iter().map(|r| r.raw()).collect();
    assert_eq!(callee, vec![26]);
    assert_eq!(alloc.available_saved.last().unwrap().raw(), 27);
}

#[test]
fn allocate_then_free_in_any_order_restores_the_count() {
    let mut alloc = RegisterAllocator::new();
    let slots = [4usize, 9, 2, 100, 7, 33, 1, 0, 12, 5];
    for s in slots {
        alloc.allocate(s).unwrap();
    }
    assert_eq!(alloc.available_count(), 7);
    for s in [0usize, 100, 5, 7, 1, 33, 12, 2, 9, 4] {
        alloc.free(s);
    }
    assert_eq!(alloc.available_count(), 17);
    assert!(alloc.allocated.is_empty());
    assert!(alloc.get_callee_saved().is_empty());
    let mut all: Vec<u8> = alloc
        .available_temp
        .iter()
        .chain(alloc.available_saved.iter())
        .map(|r| r.raw())
        .collect();
    all.sort();
    all.dedup();
    assert_eq!(all.len(), 17);
}

#[test]
fn clear_returns_every_register_to_its_own_pool() {
    let mut alloc = RegisterAllocator::new();
    for slot in 0..17 {
        alloc.allocate(slot).unwrap();
    }
    alloc.clear_allocations();
    assert_eq!(alloc.available_count(), 17);
    assert_eq!(alloc.available_temp.len(), 7);
    assert_eq!(alloc.available_saved.len(), 10);
    assert!(alloc.available_temp.iter().all(|r| r.kind() == RegKind::Temporary));
    assert!(alloc.available_saved.iter().all(|r| r.kind() == RegKind::Saved));
    assert!(alloc.allocated.is_empty());
    assert!(alloc.get_callee_saved().is_empty());
    for slot in 0..17 {
        assert!(!alloc.has_allocation(slot));
    }
}

#[test]
fn reserved_register_is_not_handed_out() {
    let mut alloc = RegisterAllocator::new();
    alloc.reserve_register(Register::from_raw(31));
    alloc.reserve_register(Register::from_raw(10));
    assert_eq!(alloc.available_count(), 16);
    assert_eq!(alloc.allocate(0).unwrap().raw(), 30);
    assert!(alloc.get_callee_saved().is_empty());
}
