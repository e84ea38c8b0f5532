use evm_riscv::opcode::Opcode;
use evm_riscv::signed::I256;
use evm_riscv::word::MyU256;
use std::cmp::Ordering;

fn word(n: u64) -> MyU256 {
    MyU256::from_u64(n)
}

fn max() -> MyU256 {
    MyU256::from_be_bytes([0xff; 32])
}

fn signed(n: i64) -> I256 {
    if n < 0 {
        I256 { bits: word(0) - word(n.unsigned_abs()) }
    } else {
        I256 { bits: word(n as u64) }
    }
}

#[test]
fn operators_wrap_like_the_methods() {
    assert_eq!(word(1) + word(2), word(3));
    assert_eq!(max() + word(1), word(0));
    assert_eq!(word(5) - word(3), word(2));
    assert_eq!(word(0) - word(1), max());
    assert_eq!(word(6) * word(7), word(42));
    assert_eq!(max() * word(0), word(0));
    assert_eq!(max() * max(), word(1));
}

#[test]
fn operators_divide_by_zero_to_zero() {
    assert_eq!(word(20) / word(6), word(3));
    assert_eq!(word(20) % word(6), word(2));
    assert_eq!(word(20) / word(0), word(0));
    assert_eq!(word(20) % word(0), word(0));
    assert_eq!(max() / word(0), word(0));
    assert_eq!(max() % word(0), word(0));
}

#[test]
fn operators_are_associative_on_sums() {
    let a = max() - word(3);
    let b = word(77);
    let c = MyU256::from_be_bytes([0x55; 32]);
    assert_eq!((a + b) + c, a + (b + c));
}

#[test]
fn signed_remainder_operator() {
    assert_eq!(signed(-7) % signed(3), signed(-1));
    assert_eq!(signed(7) % signed(-3), signed(1));
    assert_eq!(signed(-7) % signed(0), signed(0));
    assert_eq!(signed(9) % signed(3), signed(0));
}

#[test]
fn signed_words_are_ordered_by_the_integers_they_denote() {
    assert!(signed(-1) < signed(0));
    assert!(signed(0) < signed(1));
    assert!(signed(-1) < signed(1));
    assert!(signed(-5) < signed(-4));
    assert!(signed(1) > signed(-1));
    assert!(signed(3) >= signed(3));
    assert_eq!(signed(-1).partial_cmp(&signed(0)), Some(Ordering::Less));
    assert_eq!(signed(0).partial_cmp(&signed(-1)), Some(Ordering::Greater));
    assert_eq!(signed(-2).partial_cmp(&signed(-2)), Some(Ordering::Equal));
    assert!(signed(4) == signed(4));
    assert!(signed(4) != signed(-4));
}

#[test]
fn a_word_converts_from_any_32_bytes() {
    let mut bytes = [0u8; 32];
    bytes[0] = 0xfe;
    bytes[31] = 0x01;
    let w = MyU256::try_from(bytes).unwrap();
    assert_eq!(w.to_be_bytes(), bytes);
    assert_eq!(MyU256::try_from([0xffu8; 32]).unwrap(), max());
    assert_eq!(MyU256::try_from([0u8; 32]).unwrap(), word(0));
}

#[test]
fn an_opcode_converts_from_its_byte() {
    assert_eq!(Opcode::try_from(0x01u8), Ok(Opcode::ADD));
    assert_eq!(Opcode::try_from(0x52u8), Ok(Opcode::MSTORE));
    assert_eq!(Opcode::try_from(0x60u8), Ok(Opcode::PUSH1));
    assert_eq!(Opcode::try_from(0xFFu8), Ok(Opcode::SELFDESTRUCT));
    assert_eq!(Opcode::try_from(0x0Cu8), Err("Invalid opcode"));
    assert_eq!(Opcode::try_from(0x21u8), Err("Invalid opcode"));
}
