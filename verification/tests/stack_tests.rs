use evm_riscv::stack::{Stack, STACK_SIZE};
use evm_riscv::word::MyU256;

#[test]
fn new_stack_is_empty() {
    let mut stack = Stack::new();
    assert!(stack.is_empty());
    assert_eq!(stack.len(), 0);
    assert_eq!(stack.peek(), Err("Stack underflow"));
    assert_eq!(stack.pop(), Err("Stack underflow"));
    assert_eq!(stack.len(), 0);
}

#[test]
fn push_then_pop_returns_the_word() {
    let mut stack = Stack::new();
    let v = MyU256::from_u64(42);
    assert_eq!(stack.push(v), Ok(()));
    assert_eq!(stack.len(), 1);
    assert!(!stack.is_empty());
    assert_eq!(stack.peek(), Ok(v));
    assert_eq!(stack.len(), 1);
    assert_eq!(stack.pop(), Ok(v));
    assert_eq!(stack.len(), 0);
    assert!(stack.is_empty());
}

#[test]
fn stack_is_last_in_first_out() {
    let mut stack = Stack::new();
    for n in 0..10 {
        stack.push(MyU256::from_u64(n)).unwrap();
        assert_eq!(stack.len(), n as usize + 1);
    }
    for n in (0..10).rev() {
        assert_eq!(stack.peek(), Ok(MyU256::from_u64(n)));
        assert_eq!(stack.pop(), Ok(MyU256::from_u64(n)));
        assert_eq!(stack.len(), n as usize);
    }
}

#[test]
fn the_sentinel_value_can_be_stored() {
    let mut stack = Stack::new();
    let max = MyU256::from_be_bytes([0xff; 32]);
    stack.push(max).unwrap();
    assert_eq!(stack.len(), 1);
    assert_eq!(stack.pop(), Ok(max));
}

#[test]
fn a_full_stack_refuses_a_push() {
    let mut stack = Stack::new();
    for n in 0..STACK_SIZE {
        assert_eq!(stack.push(MyU256::from_u64(n as u64)), Ok(()));
    }
    assert_eq!(stack.len(), 1024);
    assert_eq!(stack.push(MyU256::from_u64(7)), Err("Stack overflow"));
    assert_eq!(stack.len(), 1024);
    assert_eq!(stack.peek(), Ok(MyU256::from_u64(1023)));
    assert_eq!(stack.pop(), Ok(MyU256::from_u64(1023)));
    assert_eq!(stack.push(MyU256::from_u64(7)), Ok(()));
    assert_eq!(stack.peek(), Ok(MyU256::from_u64(7)));
}
