use evm_riscv::signed::I256;
use evm_riscv::word::MyU256;

fn word(n: u64) -> MyU256 {
    MyU256::from_u64(n)
}

fn max() -> MyU256 {
    MyU256::from_be_bytes([0xff; 32])
}

fn minus(n: u64) -> I256 {
    I256 { bits: MyU256::zero().sub(word(n)) }
}

fn plus(n: u64) -> I256 {
    I256 { bits: word(n) }
}

#[test]
fn from_u64_is_big_endian() {
    let mut expected = [0u8; 32];
    expected[30] = 0x01;
    expected[31] = 0x02;
    assert_eq!(word(0x0102).to_be_bytes(), expected);
    let mut expected = [0u8; 32];
    expected[24..].copy_from_slice(&[0x11, 0x22, 0x33, 0x44, 0x55, 0x66, 0x77, 0x88]);
    assert_eq!(word(0x1122334455667788).to_be_bytes(), expected);
    assert_eq!(word(0).to_be_bytes(), [0u8; 32]);
    assert_eq!(MyU256::zero().to_be_bytes(), [0u8; 32]);
}

#[test]
fn bytes_round_trip() {
    let mut x = [0u8; 32];
    for (i, b) in x.iter_mut().enumerate() {
        *b = (i * 7 + 3) as u8;
    }
    assert_eq!(MyU256::from_be_bytes(x).to_be_bytes(), x);
    assert_eq!(MyU256::from_be_bytes([0xff; 32]).to_be_bytes(), [0xff; 32]);
    assert_eq!(I256::from_be_bytes(x).to_be_bytes(), x);
}

#[test]
fn addition_wraps() {
    assert_eq!(word(1).add(word(2)), word(3));
    assert_eq!(max().add(word(1)), word(0));
    assert_eq!(max().add(max()), max().sub(word(1)));
    assert_eq!(word(u64::MAX).add(word(1)).to_be_bytes()[23], 1);
}

#[test]
fn addition_is_associative_and_commutative() {
    let a = max().sub(word(5));
    let b = word(1000);
    let c = MyU256::from_be_bytes([0x80; 32]);
    assert_eq!(a.add(b).add(c), a.add(b.add(c)));
    assert_eq!(a.add(b), b.add(a));
    assert_eq!(b.add(c), c.add(b));
}

#[test]
fn subtraction_wraps() {
    assert_eq!(word(5).sub(word(3)), word(2));
    assert_eq!(word(0).sub(word(1)), max());
    assert_eq!(word(3).sub(word(5)), max().sub(word(1)));
    assert_eq!(max().sub(max()), word(0));
}

#[test]
fn multiplication_wraps() {
    assert_eq!(word(3).mul(word(4)), word(12));
    assert_eq!(max().mul(word(0)), word(0));
    assert_eq!(word(0).mul(max()), word(0));
    assert_eq!(max().mul(word(2)), max().sub(word(1)));
    assert_eq!(max().mul(max()), word(1));
}

#[test]
fn division_and_remainder_by_zero_give_zero() {
    assert_eq!(word(10).div(word(3)), word(3));
    assert_eq!(word(10).rem(word(3)), word(1));
    assert_eq!(word(10).div(word(0)), word(0));
    assert_eq!(word(10).rem(word(0)), word(0));
    assert_eq!(max().div(word(0)), word(0));
    assert_eq!(max().rem(word(0)), word(0));
    assert_eq!(word(0).div(word(0)), word(0));
    assert_eq!(max().div(max()), word(1));
    assert_eq!(max().rem(word(10)), word(5));
}

#[test]
fn power_wraps() {
    assert_eq!(word(2).pow(word(10)), word(1024));
    assert_eq!(word(2).pow(word(255)).to_be_bytes()[0], 0x80);
    assert_eq!(word(2).pow(word(256)), word(0));
    assert_eq!(word(0).pow(word(0)), word(1));
    assert_eq!(word(7).pow(word(0)), word(1));
    assert_eq!(word(0).pow(word(5)), word(0));
    assert_eq!(word(3).pow(word(4)), word(81));
    assert_eq!(max().pow(word(2)), word(1));
}

#[test]
fn modular_sum_and_product_do_not_wrap() {
    assert_eq!(word(5).add_mod(word(9), word(10)), word(4));
    assert_eq!(max().add_mod(word(2), word(10)), word(7));
    assert_eq!(max().add_mod(max(), max()), word(0));
    assert_eq!(word(5).add_mod(word(9), word(0)), word(0));
    assert_eq!(word(5).mul_mod(word(9), word(10)), word(5));
    assert_eq!(max().mul_mod(word(2), word(10)), word(0));
    assert_eq!(max().mul_mod(max(), word(7)), word(max_mod_7_squared()));
    assert_eq!(word(5).mul_mod(word(9), word(0)), word(0));
}

fn max_mod_7_squared() -> u64 {
    // 2^256 - 1 is 1 modulo 7: 2^3 is 1 modulo 7 and 256 = 3 * 85 + 1.
    1
}

#[test]
fn comparison_is_by_number() {
    assert!(word(1).lt(&word(2)));
    assert!(!word(2).lt(&word(2)));
    assert!(!word(3).lt(&word(2)));
    assert!(word(3).gt(&word(2)));
    assert!(!word(2).gt(&word(2)));
    assert!(word(0xff).lt(&word(0x100)));
    assert!(word(u64::MAX).lt(&max()));
    assert!(max().gt(&word(0)));
    assert!(word(5) == word(5));
    assert!(word(5) != word(6));
}

#[test]
fn zero_test_and_complement() {
    assert!(word(0).is_zero());
    assert!(!word(1).is_zero());
    assert!(!MyU256::from_be_bytes([0x80; 32]).is_zero());
    assert_eq!(word(0).not(), max());
    assert_eq!(max().not(), word(0));
    assert_eq!(word(0xf0).not().to_be_bytes()[31], 0x0f);
    assert_eq!(word(0xf0).not().to_be_bytes()[0], 0xff);
}

#[test]
fn as_usize_keeps_the_low_64_bits() {
    assert_eq!(word(0x40).as_usize(), 0x40);
    assert_eq!(word(0x0102).as_usize(), 0x0102);
    assert_eq!(word(0x1122334455667788).low_u64(), 0x1122334455667788);
    let big = word(u64::MAX).add(word(6));
    assert_eq!(big.low_u64(), 5);
    assert_eq!(big.as_usize(), 5);
    assert!(!big.fits_u64());
    assert!(word(u64::MAX).fits_u64());
    assert_eq!(max().low_u64(), u64::MAX);
    assert_eq!(max().as_usize(), usize::MAX);
}

#[test]
fn byte_counts_from_the_most_significant_end() {
    let mut x = [0u8; 32];
    for (i, b) in x.iter_mut().enumerate() {
        *b = i as u8 + 1;
    }
    let w = MyU256::from_be_bytes(x);
    assert_eq!(w.byte(&word(0)), word(1));
    assert_eq!(w.byte(&word(31)), word(32));
    assert_eq!(w.byte(&word(15)), word(16));
    assert_eq!(w.byte(&word(32)), word(0));
    assert_eq!(w.byte(&max()), word(0));
    assert_eq!(w.byte(&word(u64::MAX).add(word(1))), word(0));
}

#[test]
fn from_bool_is_zero_or_one() {
    assert_eq!(MyU256::from_bool(true), word(1));
    assert_eq!(MyU256::from_bool(false), word(0));
}

#[test]
fn bit_255_is_the_sign() {
    assert!(!plus(0).is_negative());
    assert!(!plus(1).is_negative());
    assert!(minus(1).is_negative());
    assert!(I256::from_be_bytes([0x80; 32]).is_negative());
    let mut least = [0u8; 32];
    least[0] = 0x80;
    assert!(I256::from_be_bytes(least).is_negative());
    let mut greatest = [0xffu8; 32];
    greatest[0] = 0x7f;
    assert!(!I256::from_be_bytes(greatest).is_negative());
}

#[test]
fn signed_order_puts_negatives_first() {
    assert!(minus(1).lt(&plus(0)));
    assert!(plus(0).lt(&plus(1)));
    assert!(minus(1).lt(&plus(1)));
    assert!(minus(2).lt(&minus(1)));
    assert!(!minus(1).lt(&minus(2)));
    assert!(!plus(0).lt(&minus(1)));
    assert!(!plus(1).lt(&plus(1)));
    assert!(plus(1).gt(&minus(1)));
    assert!(minus(1).gt(&minus(2)));
    assert!(!minus(1).gt(&plus(0)));
}

#[test]
fn abs_negates_what_is_negative() {
    assert_eq!(minus(5).abs().bits, word(5));
    assert_eq!(plus(5).abs().bits, word(5));
    assert_eq!(plus(0).abs().bits, word(0));
    assert_eq!(minus(1).abs().bits, word(1));
    let mut least = [0u8; 32];
    least[0] = 0x80;
    assert_eq!(I256::from_be_bytes(least).abs().to_be_bytes(), least);
    assert_eq!(minus(7).wrapping_neg().bits, word(7));
    assert_eq!(plus(7).wrapping_neg().bits, minus(7).bits);
    assert_eq!(plus(0).wrapping_neg().bits, word(0));
}

#[test]
fn signed_remainder_takes_the_sign_of_the_dividend() {
    assert_eq!(plus(7).rem(plus(3)).bits, plus(1).bits);
    assert_eq!(minus(7).rem(plus(3)).bits, minus(1).bits);
    assert_eq!(plus(7).rem(minus(3)).bits, plus(1).bits);
    assert_eq!(minus(7).rem(minus(3)).bits, minus(1).bits);
    assert_eq!(minus(6).rem(plus(3)).bits, plus(0).bits);
    assert_eq!(plus(7).rem(plus(0)).bits, plus(0).bits);
    assert_eq!(minus(7).rem(plus(0)).bits, plus(0).bits);
}

#[test]
fn shifts_multiply_and_divide_by_powers_of_two() {
    assert_eq!(word(1).shl(4), word(16));
    assert_eq!(word(3).shl(0), word(3));
    assert_eq!(word(1).shl(255).to_be_bytes()[0], 0x80);
    assert_eq!(word(1).shl(256), word(0));
    assert_eq!(max().shl(1), max().sub(word(1)));
    assert_eq!(max().shl(1000), word(0));
    assert_eq!(word(16).shr(4), word(1));
    assert_eq!(word(17).shr(4), word(1));
    assert_eq!(word(3).shr(0), word(3));
    assert_eq!(max().shr(255), word(1));
    assert_eq!(max().shr(256), word(0));
    assert_eq!(max().shr(192), word(u64::MAX));
}

#[test]
fn bitwise_operations_work_bit_by_bit() {
    let a = word(0b1100);
    let b = word(0b1010);
    assert_eq!(a.bitand(b), word(0b1000));
    assert_eq!(a.bitor(b), word(0b1110));
    assert_eq!(a.bitxor(b), word(0b0110));
    assert_eq!(max().bitand(a), a);
    assert_eq!(max().bitor(a), max());
    assert_eq!(max().bitxor(max()), word(0));
    assert_eq!(max().bitxor(word(0)), max());
    assert_eq!(a.bitxor(max()), a.not());
}

#[test]
fn the_greatest_word_has_every_bit_set() {
    assert_eq!(MyU256::max().to_be_bytes(), [0xff; 32]);
    assert_eq!(MyU256::max().add(word(1)), word(0));
}
