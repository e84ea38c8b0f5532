//! Unsigned 256-bit machine words and their arithmetic.

use alloy_primitives::U256;
use vstd::arithmetic::power::pow;
use vstd::arithmetic::power2::pow2;
use vstd::prelude::*;
use vstd::std_specs::cmp::PartialEqSpecImpl;

verus! {

/// The number denoted by a big-endian byte string.
pub open spec fn be_value(s: Seq<u8>) -> nat
    decreases s.len(),
{
    if s.len() == 0 {
        0
    } else {
        be_value(s.drop_last()) * 256 + s.last() as nat
    }
}

/// 2^256, the modulus of word arithmetic.
pub open spec fn modulus() -> nat {
    0x1_0000_0000_0000_0000_0000_0000_0000_0000_0000_0000_0000_0000_0000_0000_0000_0000nat
}

/// 2^255, the least number whose two's-complement reading is negative.
pub open spec fn sign_bit() -> nat {
    0x8000_0000_0000_0000_0000_0000_0000_0000_0000_0000_0000_0000_0000_0000_0000_0000nat
}

/// 256 raised to the `n`: the number of byte strings of length `n`.
pub open spec fn radix_pow(n: nat) -> nat
    decreases n,
{
    if n == 0 {
        1
    } else {
        256 * radix_pow((n - 1) as nat)
    }
}

/// The powers of 256 that word arithmetic meets.
pub proof fn lemma_radix_pow_values()
    ensures
        radix_pow(0) == 1,
        radix_pow(1) == 0x100,
        radix_pow(7) == 0x100_0000_0000_0000,
        radix_pow(8) == 0x1_0000_0000_0000_0000,
        radix_pow(31) == 0x100000000000000000000000000000000000000000000000000000000000000nat,
        128 * radix_pow(31) == sign_bit(),
        radix_pow(32) == modulus(),
{
    reveal_with_fuel(radix_pow, 2);
    assert(radix_pow(1) == 256 * radix_pow(0) == 0x100nat);
    assert(radix_pow(2) == 256 * radix_pow(1) == 0x10000nat);
    assert(radix_pow(3) == 256 * radix_pow(2) == 0x1000000nat);
    assert(radix_pow(4) == 256 * radix_pow(3) == 0x100000000nat);
    assert(radix_pow(5) == 256 * radix_pow(4) == 0x10000000000nat);
    assert(radix_pow(6) == 256 * radix_pow(5) == 0x1000000000000nat);
    assert(radix_pow(7) == 256 * radix_pow(6) == 0x100000000000000nat);
    assert(radix_pow(8) == 256 * radix_pow(7) == 0x10000000000000000nat);
    assert(radix_pow(9) == 256 * radix_pow(8) == 0x1000000000000000000nat);
    assert(radix_pow(10) == 256 * radix_pow(9) == 0x100000000000000000000nat);
    assert(radix_pow(11) == 256 * radix_pow(10) == 0x10000000000000000000000nat);
    assert(radix_pow(12) == 256 * radix_pow(11) == 0x1000000000000000000000000nat);
    assert(radix_pow(13) == 256 * radix_pow(12) == 0x100000000000000000000000000nat);
    assert(radix_pow(14) == 256 * radix_pow(13) == 0x10000000000000000000000000000nat);
    assert(radix_pow(15) == 256 * radix_pow(14) == 0x1000000000000000000000000000000nat);
    assert(radix_pow(16) == 256 * radix_pow(15) == 0x100000000000000000000000000000000nat);
    assert(radix_pow(17) == 256 * radix_pow(16) == 0x10000000000000000000000000000000000nat);
    assert(radix_pow(18) == 256 * radix_pow(17) == 0x1000000000000000000000000000000000000nat);
    assert(radix_pow(19) == 256 * radix_pow(18) == 0x100000000000000000000000000000000000000nat);
    assert(radix_pow(20) == 256 * radix_pow(19) == 0x10000000000000000000000000000000000000000nat);
    assert(radix_pow(21) == 256 * radix_pow(20) == 0x1000000000000000000000000000000000000000000nat);
    assert(radix_pow(22) == 256 * radix_pow(21) == 0x100000000000000000000000000000000000000000000nat);
    assert(radix_pow(23) == 256 * radix_pow(22) == 0x10000000000000000000000000000000000000000000000nat);
    assert(radix_pow(24) == 256 * radix_pow(23) == 0x1000000000000000000000000000000000000000000000000nat);
    assert(radix_pow(25) == 256 * radix_pow(24) == 0x100000000000000000000000000000000000000000000000000nat);
    assert(radix_pow(26) == 256 * radix_pow(25) == 0x10000000000000000000000000000000000000000000000000000nat);
    assert(radix_pow(27) == 256 * radix_pow(26) == 0x1000000000000000000000000000000000000000000000000000000nat);
    assert(radix_pow(28) == 256 * radix_pow(27) == 0x100000000000000000000000000000000000000000000000000000000nat);
    assert(radix_pow(29) == 256 * radix_pow(28) == 0x10000000000000000000000000000000000000000000000000000000000nat);
    assert(radix_pow(30) == 256 * radix_pow(29) == 0x1000000000000000000000000000000000000000000000000000000000000nat);
    assert(radix_pow(31) == 256 * radix_pow(30) == 0x100000000000000000000000000000000000000000000000000000000000000nat);
    assert(radix_pow(32) == 256 * radix_pow(31) == 0x10000000000000000000000000000000000000000000000000000000000000000nat);
}

/// Every power of 256 is at least one.
pub proof fn lemma_radix_pow_positive(n: nat)
    ensures
        radix_pow(n) >= 1,
    decreases n,
{
    if n > 0 {
        lemma_radix_pow_positive((n - 1) as nat);
    }
}

/// Powers of 256 multiply by adding their exponents.
pub proof fn lemma_radix_pow_add(m: nat, n: nat)
    ensures
        radix_pow(m + n) == radix_pow(m) * radix_pow(n),
    decreases n,
{
    if n == 0 {
        assert(radix_pow(m) * 1 == radix_pow(m)) by (nonlinear_arith);
    } else {
        lemma_radix_pow_add(m, (n - 1) as nat);
        let a = radix_pow(m);
        let b = radix_pow((n - 1) as nat);
        assert(256 * (a * b) == a * (256 * b)) by (nonlinear_arith);
    }
}

/// A byte string of length `n` denotes a number below 256^n.
pub proof fn lemma_be_bound(s: Seq<u8>)
    ensures
        be_value(s) < radix_pow(s.len()),
    decreases s.len(),
{
    if s.len() > 0 {
        lemma_be_bound(s.drop_last());
    }
}

/// The number of a byte string is that of its front part, shifted left by
/// the length of the rest, plus that of the rest.
pub proof fn lemma_be_split(s: Seq<u8>, k: int)
    requires
        0 <= k <= s.len(),
    ensures
        be_value(s) == be_value(s.subrange(0, k)) * radix_pow((s.len() - k) as nat) + be_value(
            s.subrange(k, s.len() as int),
        ),
    decreases s.len(),
{
    let n = s.len() as int;
    if k == n {
        assert(s.subrange(0, k) =~= s);
        assert(s.subrange(k, n).len() == 0);
        assert(be_value(s) * 1 == be_value(s)) by (nonlinear_arith);
    } else {
        let t = s.drop_last();
        lemma_be_split(t, k);
        assert(t.subrange(0, k) =~= s.subrange(0, k));
        assert(t.subrange(k, n - 1) =~= s.subrange(k, n).drop_last());
        assert(s.subrange(k, n).last() == s.last());
        let hi = be_value(s.subrange(0, k));
        let r = radix_pow((n - 1 - k) as nat);
        let lo = be_value(t.subrange(k, n - 1));
        assert(radix_pow((n - k) as nat) == 256 * r);
        assert((hi * r + lo) * 256 == hi * (256 * r) + lo * 256) by (nonlinear_arith);
    }
}

/// Leading zero bytes do not change the number denoted.
pub proof fn lemma_be_leading_zeros(s: Seq<u8>, k: int)
    requires
        0 <= k <= s.len(),
        forall|i: int| 0 <= i < k ==> s[i] == 0,
    ensures
        be_value(s) == be_value(s.subrange(k, s.len() as int)),
{
    lemma_be_split(s, k);
    lemma_zeros_value(s.subrange(0, k));
    assert(0 * radix_pow((s.len() - k) as nat) == 0) by (nonlinear_arith);
}

/// The number of a byte string in terms of its first byte and the rest.
pub proof fn lemma_be_front(s: Seq<u8>)
    requires
        s.len() > 0,
    ensures
        be_value(s) == s[0] * radix_pow((s.len() - 1) as nat) + be_value(
            s.subrange(1, s.len() as int),
        ),
{
    lemma_be_split(s, 1);
    let f = s.subrange(0, 1);
    assert(f.drop_last().len() == 0);
    assert(be_value(f.drop_last()) == 0);
    assert(f.last() == s[0]);
    assert(be_value(f) == s[0]);
}

/// Of two byte strings of one length that agree up to a position where the
/// first holds the smaller byte, the first denotes the smaller number.
pub proof fn lemma_be_lex(a: Seq<u8>, b: Seq<u8>, i: int)
    requires
        a.len() == b.len(),
        0 <= i < a.len(),
        a.subrange(0, i) == b.subrange(0, i),
        a[i] < b[i],
    ensures
        be_value(a) < be_value(b),
{
    let n = a.len() as int;
    lemma_be_split(a, i + 1);
    lemma_be_split(b, i + 1);
    let fa = a.subrange(0, i + 1);
    let fb = b.subrange(0, i + 1);
    assert(fa.drop_last() =~= a.subrange(0, i));
    assert(fb.drop_last() =~= b.subrange(0, i));
    assert(fa.last() == a[i]);
    assert(fb.last() == b[i]);
    let ha = be_value(fa);
    let hb = be_value(fb);
    assert(ha + 1 <= hb);
    let r = radix_pow((n - i - 1) as nat);
    lemma_be_bound(a.subrange(i + 1, n));
    let ta = be_value(a.subrange(i + 1, n));
    assert(ta < r);
    assert(ha * r + ta < hb * r) by (nonlinear_arith)
        requires
            ha + 1 <= hb,
            ta < r,
    ;
}

/// Byte strings of one length that denote one number are equal.
pub proof fn lemma_be_injective(a: Seq<u8>, b: Seq<u8>)
    requires
        a.len() == b.len(),
        be_value(a) == be_value(b),
    ensures
        a == b,
    decreases a.len(),
{
    if a.len() > 0 {
        let x = be_value(a.drop_last());
        let y = be_value(b.drop_last());
        assert(x * 256 + a.last() == y * 256 + b.last());
        assert(x == y && a.last() == b.last());
        lemma_be_injective(a.drop_last(), b.drop_last());
        assert(a =~= a.drop_last().push(a.last()));
        assert(b =~= b.drop_last().push(b.last()));
    } else {
        assert(a =~= b);
    }
}

/// Complementing every byte of a string of length `n` gives the number that
/// adds up with the given one to 256^n - 1.
pub proof fn lemma_be_complement(a: Seq<u8>, c: Seq<u8>)
    requires
        a.len() == c.len(),
        forall|i: int| 0 <= i < a.len() ==> c[i] == 255 - a[i],
    ensures
        be_value(a) + be_value(c) + 1 == radix_pow(a.len()),
    decreases a.len(),
{
    if a.len() > 0 {
        lemma_be_complement(a.drop_last(), c.drop_last());
    }
}

/// The word that denotes `n`, for `n` below 2^256.
pub open spec fn word_of(n: nat) -> MyU256 {
    choose|w: MyU256| w.value() == n
}

/// Words that denote one number are equal; so each word is the word of its
/// number.
pub proof fn lemma_word_of(w: MyU256)
    ensures
        word_of(w.value()) == w,
        w.value() < modulus(),
{
    let c = word_of(w.value());
    assert(c.value() == w.value());
    lemma_be_injective(c.bytes@, w.bytes@);
    assert(c.bytes =~= w.bytes);
    lemma_be_bound(w.bytes@);
    lemma_radix_pow_values();
}

/// Addition modulo 2^256.
pub open spec fn wrap_add(x: nat, y: nat) -> nat {
    (x + y) % modulus()
}

/// Subtraction modulo 2^256.
pub open spec fn wrap_sub(x: nat, y: nat) -> nat {
    ((x + modulus() - y) % (modulus() as int)) as nat
}

/// Multiplication modulo 2^256.
pub open spec fn wrap_mul(x: nat, y: nat) -> nat {
    (x * y) % modulus()
}

/// Exponentiation modulo 2^256.
pub open spec fn wrap_pow(x: nat, y: nat) -> nat {
    (pow(x as int, y) % (modulus() as int)) as nat
}

/// Serialising a word built from 32 bytes gives those bytes back.
pub proof fn law_bytes_round_trip(bytes: [u8; 32])
    ensures
        MyU256::spec_from_be_bytes(bytes).spec_to_be_bytes() == bytes,
{
}

/// Building a word from a word's serialisation gives that word back.
pub proof fn law_word_round_trip(w: MyU256)
    ensures
        MyU256::spec_from_be_bytes(w.spec_to_be_bytes()) == w,
{
}

/// Addition modulo 2^256 is associative.
pub proof fn law_add_associative(a: nat, b: nat, c: nat)
    ensures
        wrap_add(wrap_add(a, b), c) == wrap_add(a, wrap_add(b, c)),
{
    let m = modulus() as int;
    let x = a as int;
    let y = b as int;
    let z = c as int;
    vstd::arithmetic::div_mod::lemma_add_mod_noop(x + y, z, m);
    vstd::arithmetic::div_mod::lemma_add_mod_noop(x, y + z, m);
    vstd::arithmetic::div_mod::lemma_mod_twice(x + y, m);
    vstd::arithmetic::div_mod::lemma_mod_twice(y + z, m);
    vstd::arithmetic::div_mod::lemma_add_mod_noop((x + y) % m, z, m);
    vstd::arithmetic::div_mod::lemma_add_mod_noop(x, (y + z) % m, m);
}

/// Addition modulo 2^256 is commutative.
pub proof fn law_add_commutative(a: nat, b: nat)
    ensures
        wrap_add(a, b) == wrap_add(b, a),
{
}

/// Multiplication by zero gives zero, on either side.
pub proof fn law_mul_zero(a: nat)
    ensures
        wrap_mul(a, 0) == 0,
        wrap_mul(0, a) == 0,
{
    assert(a * 0 == 0 && 0 * a == 0) by (nonlinear_arith);
}

/// Division and reduction by zero give zero.
pub proof fn law_div_rem_by_zero(a: nat)
    ensures
        spec_div(a, 0) == 0,
        spec_rem(a, 0) == 0,
{
}

/// Quotient with the convention that division by zero gives zero.
pub open spec fn spec_div(a: nat, b: nat) -> nat {
    if b == 0 {
        0
    } else {
        a / b
    }
}

/// Remainder with the convention that reduction by zero gives zero.
pub open spec fn spec_rem(a: nat, b: nat) -> nat {
    if b == 0 {
        0
    } else {
        a % b
    }
}

/// A byte string of zeros denotes zero.
pub proof fn lemma_zeros_value(s: Seq<u8>)
    requires
        forall|i: int| 0 <= i < s.len() ==> s[i] == 0,
    ensures
        be_value(s) == 0,
    decreases s.len(),
{
    if s.len() > 0 {
        lemma_zeros_value(s.drop_last());
    }
}

/// Calls `Uint::overflowing_add` of ruint and keeps the wrapped sum, which is
/// the sum of the two operands reduced modulo 2^256.
#[verifier::external_body]
fn wide_add(a: &[u8; 32], b: &[u8; 32]) -> (r: [u8; 32])
    ensures
        be_value(r@) == (be_value(a@) + be_value(b@)) % modulus(),
{
    U256::from_be_bytes(*a).overflowing_add(U256::from_be_bytes(*b)).0.to_be_bytes::<32>()
}

/// Calls `Uint::overflowing_sub` of ruint and keeps the wrapped difference,
/// which is the difference of the two operands reduced modulo 2^256.
#[verifier::external_body]
fn wide_sub(a: &[u8; 32], b: &[u8; 32]) -> (r: [u8; 32])
    ensures
        be_value(r@) == (be_value(a@) + modulus() - be_value(b@)) % (modulus() as int),
{
    U256::from_be_bytes(*a).overflowing_sub(U256::from_be_bytes(*b)).0.to_be_bytes::<32>()
}

/// Calls `Uint::overflowing_mul` of ruint and keeps the wrapped product,
/// which is the product of the two operands reduced modulo 2^256.
#[verifier::external_body]
fn wide_mul(a: &[u8; 32], b: &[u8; 32]) -> (r: [u8; 32])
    ensures
        be_value(r@) == (be_value(a@) * be_value(b@)) % modulus(),
{
    U256::from_be_bytes(*a).overflowing_mul(U256::from_be_bytes(*b)).0.to_be_bytes::<32>()
}

/// Calls `Uint::checked_div` of ruint: nothing for a zero divisor, else the
/// quotient rounded down.
#[verifier::external_body]
fn wide_div(a: &[u8; 32], b: &[u8; 32]) -> (r: Option<[u8; 32]>)
    ensures
        r is None <==> be_value(b@) == 0,
        r matches Some(q) ==> be_value(q@) == be_value(a@) / be_value(b@),
{
    match U256::from_be_bytes(*a).checked_div(U256::from_be_bytes(*b)) {
        Some(q) => Some(q.to_be_bytes::<32>()),
        None => None,
    }
}

/// Calls `Uint::checked_rem` of ruint: nothing for a zero divisor, else the
/// remainder of the division rounded down.
#[verifier::external_body]
fn wide_rem(a: &[u8; 32], b: &[u8; 32]) -> (r: Option<[u8; 32]>)
    ensures
        r is None <==> be_value(b@) == 0,
        r matches Some(m) ==> be_value(m@) == be_value(a@) % be_value(b@),
{
    match U256::from_be_bytes(*a).checked_rem(U256::from_be_bytes(*b)) {
        Some(m) => Some(m.to_be_bytes::<32>()),
        None => None,
    }
}

/// Calls `Uint::overflowing_pow` of ruint and keeps the wrapped power, which
/// is the base raised to the exponent, reduced modulo 2^256.
#[verifier::external_body]
fn wide_pow(base: &[u8; 32], exp: &[u8; 32]) -> (r: [u8; 32])
    ensures
        be_value(r@) == pow(be_value(base@) as int, be_value(exp@)) % (modulus() as int),
{
    U256::from_be_bytes(*base).overflowing_pow(U256::from_be_bytes(*exp)).0.to_be_bytes::<32>()
}

/// Calls `Uint::add_mod` of ruint: the sum of the two operands, taken without
/// wrapping, reduced by the third; zero where the third is zero.
#[verifier::external_body]
fn wide_add_mod(a: &[u8; 32], b: &[u8; 32], n: &[u8; 32]) -> (r: [u8; 32])
    ensures
        be_value(n@) == 0 ==> be_value(r@) == 0,
        be_value(n@) != 0 ==> be_value(r@) == (be_value(a@) + be_value(b@)) % be_value(n@),
{
    U256::from_be_bytes(*a).add_mod(U256::from_be_bytes(*b), U256::from_be_bytes(*n)).to_be_bytes::<32>()
}

/// Calls `Uint::mul_mod` of ruint: the product of the two operands, taken
/// without wrapping, reduced by the third; zero where the third is zero.
#[verifier::external_body]
fn wide_mul_mod(a: &[u8; 32], b: &[u8; 32], n: &[u8; 32]) -> (r: [u8; 32])
    ensures
        be_value(n@) == 0 ==> be_value(r@) == 0,
        be_value(n@) != 0 ==> be_value(r@) == (be_value(a@) * be_value(b@)) % be_value(n@),
{
    U256::from_be_bytes(*a).mul_mod(U256::from_be_bytes(*b), U256::from_be_bytes(*n)).to_be_bytes::<32>()
}

/// Calls `Uint::wrapping_shl` of ruint: the operand times two to the `n`,
/// reduced modulo 2^256; no shift amount is reduced first.
#[verifier::external_body]
fn wide_shl(a: &[u8; 32], n: usize) -> (r: [u8; 32])
    ensures
        be_value(r@) == (be_value(a@) * pow2(n as nat)) % modulus(),
{
    U256::from_be_bytes(*a).wrapping_shl(n).to_be_bytes::<32>()
}

/// Calls `Uint::wrapping_shr` of ruint: the operand divided by two to the
/// `n`, rounded down; no shift amount is reduced first.
#[verifier::external_body]
fn wide_shr(a: &[u8; 32], n: usize) -> (r: [u8; 32])
    ensures
        be_value(r@) == be_value(a@) / pow2(n as nat),
{
    U256::from_be_bytes(*a).wrapping_shr(n).to_be_bytes::<32>()
}

/// Calls `Uint::from` of ruint on a `u64`, which always fits: the word that
/// denotes the same number.
#[verifier::external_body]
fn wide_from_u64(n: u64) -> (r: [u8; 32])
    ensures
        be_value(r@) == n,
{
    U256::from(n).to_be_bytes::<32>()
}

/// An unsigned 256-bit integer, held as 32 big-endian bytes.
#[derive(Clone, Copy, Debug)]
pub struct MyU256 {
    pub bytes: [u8; 32],
}

impl MyU256 {
    /// The number this word denotes.
    pub open spec fn value(self) -> nat {
        be_value(self.bytes@)
    }

    /// The word whose canonical serialisation is `bytes`.
    pub open spec fn spec_from_be_bytes(bytes: [u8; 32]) -> MyU256 {
        MyU256 { bytes }
    }

    /// The canonical serialisation of the word.
    pub open spec fn spec_to_be_bytes(self) -> [u8; 32] {
        self.bytes
    }

    /// The number truncated to its low 64 bits, then to the width of `usize`.
    pub open spec fn truncated(self) -> int {
        (self.value() % 0x1_0000_0000_0000_0000) as int % (usize::MAX + 1)
    }

    /// The word whose canonical serialisation is `bytes`.
    pub fn from_be_bytes(bytes: [u8; 32]) -> (r: Self)
        ensures
            r == Self::spec_from_be_bytes(bytes),
            r.bytes == bytes,
            r.value() == be_value(bytes@),
    {
        MyU256 { bytes }
    }

    /// The word that denotes zero.
    pub fn zero() -> (r: Self)
        ensures
            r.value() == 0,
            forall|i: int| 0 <= i < 32 ==> r.bytes[i] == 0,
    {
        let r = MyU256 { bytes: [0u8; 32] };
        proof {
            lemma_zeros_value(r.bytes@);
        }
        r
    }

    /// The greatest word, 2^256 - 1: every bit set.
    pub fn max() -> (r: Self)
        ensures
            r.value() == modulus() - 1,
            forall|i: int| 0 <= i < 32 ==> r.bytes[i] == 0xff,
    {
        let r = MyU256 { bytes: [0xffu8; 32] };
        proof {
            let zeros = Seq::new(32, |i: int| 0u8);
            lemma_zeros_value(zeros);
            lemma_be_complement(zeros, r.bytes@);
            lemma_radix_pow_values();
        }
        r
    }

    /// The word that denotes `n`.
    pub fn from_u64(n: u64) -> (r: Self)
        ensures
            r.value() == n,
    {
        MyU256 { bytes: wide_from_u64(n) }
    }

    /// Addition modulo 2^256.
    pub fn add(self, other: Self) -> (r: Self)
        ensures
            r.value() == wrap_add(self.value(), other.value()),
    {
        MyU256 { bytes: wide_add(&self.bytes, &other.bytes) }
    }

    /// Subtraction modulo 2^256.
    pub fn sub(self, other: Self) -> (r: Self)
        ensures
            r.value() == wrap_sub(self.value(), other.value()),
    {
        MyU256 { bytes: wide_sub(&self.bytes, &other.bytes) }
    }

    /// Multiplication modulo 2^256.
    pub fn mul(self, other: Self) -> (r: Self)
        ensures
            r.value() == wrap_mul(self.value(), other.value()),
    {
        MyU256 { bytes: wide_mul(&self.bytes, &other.bytes) }
    }

    /// Division rounded down; zero where the divisor is zero.
    pub fn div(self, other: Self) -> (r: Self)
        ensures
            r.value() == spec_div(self.value(), other.value()),
    {
        match wide_div(&self.bytes, &other.bytes) {
            Some(q) => MyU256 { bytes: q },
            None => MyU256::zero(),
        }
    }

    /// Remainder of the division rounded down; zero where the divisor is zero.
    pub fn rem(self, other: Self) -> (r: Self)
        ensures
            r.value() == spec_rem(self.value(), other.value()),
    {
        match wide_rem(&self.bytes, &other.bytes) {
            Some(m) => MyU256 { bytes: m },
            None => MyU256::zero(),
        }
    }

    /// The power modulo 2^256; anything raised to zero is one.
    pub fn pow(self, exp: Self) -> (r: Self)
        ensures
            r.value() == wrap_pow(self.value(), exp.value()),
    {
        MyU256 { bytes: wide_pow(&self.bytes, &exp.bytes) }
    }

    /// The sum with `other`, taken without wrapping, reduced by `n`; zero
    /// where `n` is zero.
    pub fn add_mod(self, other: Self, n: Self) -> (r: Self)
        ensures
            r.value() == spec_rem(self.value() + other.value(), n.value()),
    {
        MyU256 { bytes: wide_add_mod(&self.bytes, &other.bytes, &n.bytes) }
    }

    /// The product with `other`, taken without wrapping, reduced by `n`;
    /// zero where `n` is zero.
    pub fn mul_mod(self, other: Self, n: Self) -> (r: Self)
        ensures
            r.value() == spec_rem(self.value() * other.value(), n.value()),
    {
        MyU256 { bytes: wide_mul_mod(&self.bytes, &other.bytes, &n.bytes) }
    }

    /// Whether the word denotes zero.
    pub fn is_zero(&self) -> (r: bool)
        ensures
            r == (self.value() == 0),
    {
        let mut i: usize = 0;
        while i < 32
            invariant
                i <= 32,
                forall|j: int| 0 <= j < i ==> self.bytes[j] == 0,
            decreases 32 - i,
        {
            if self.bytes[i] != 0 {
                proof {
                    let zero = Seq::new(32, |j: int| 0u8);
                    lemma_zeros_value(zero);
                    if self.value() == 0 {
                        lemma_be_injective(self.bytes@, zero);
                    }
                }
                return false;
            }
            i += 1;
        }
        proof {
            lemma_zeros_value(self.bytes@);
        }
        true
    }

    /// Whether this word denotes a smaller number than `other`.
    pub fn lt(&self, other: &Self) -> (r: bool)
        ensures
            r == (self.value() < other.value()),
    {
        let mut i: usize = 0;
        while i < 32
            invariant
                i <= 32,
                self.bytes@.subrange(0, i as int) == other.bytes@.subrange(0, i as int),
            decreases 32 - i,
        {
            let a = self.bytes[i];
            let b = other.bytes[i];
            if a < b {
                proof {
                    lemma_be_lex(self.bytes@, other.bytes@, i as int);
                }
                return true;
            }
            if a > b {
                proof {
                    lemma_be_lex(other.bytes@, self.bytes@, i as int);
                }
                return false;
            }
            assert(self.bytes@.subrange(0, i + 1) =~= self.bytes@.subrange(0, i as int).push(a));
            assert(other.bytes@.subrange(0, i + 1) =~= other.bytes@.subrange(0, i as int).push(b));
            i += 1;
        }
        assert(self.bytes@ =~= self.bytes@.subrange(0, 32));
        assert(other.bytes@ =~= other.bytes@.subrange(0, 32));
        false
    }

    /// Whether this word denotes a greater number than `other`.
    pub fn gt(&self, other: &Self) -> (r: bool)
        ensures
            r == (self.value() > other.value()),
    {
        other.lt(self)
    }

    /// The bitwise complement.
    pub fn not(self) -> (r: Self)
        ensures
            r.value() == modulus() - 1 - self.value(),
            forall|j: int| 0 <= j < 32 ==> r.bytes[j] == 255 - self.bytes[j],
    {
        let mut out = [0u8; 32];
        let mut i: usize = 0;
        while i < 32
            invariant
                i <= 32,
                forall|j: int| 0 <= j < i ==> out[j] == 255 - self.bytes[j],
            decreases 32 - i,
        {
            let b = self.bytes[i];
            assert(!b == 255 - b) by (bit_vector);
            out[i] = !b;
            i += 1;
        }
        proof {
            lemma_be_complement(self.bytes@, out@);
            lemma_radix_pow_values();
        }
        MyU256 { bytes: out }
    }

    /// The shift to the left by `n` bits: the number times 2^n, modulo 2^256.
    pub fn shl(self, n: usize) -> (r: Self)
        ensures
            r.value() == (self.value() * pow2(n as nat)) % modulus(),
    {
        MyU256 { bytes: wide_shl(&self.bytes, n) }
    }

    /// The shift to the right by `n` bits: the number divided by 2^n,
    /// rounded down.
    pub fn shr(self, n: usize) -> (r: Self)
        ensures
            r.value() == self.value() / pow2(n as nat),
    {
        MyU256 { bytes: wide_shr(&self.bytes, n) }
    }

    /// The bitwise conjunction.
    pub fn bitand(self, other: Self) -> (r: Self)
        ensures
            forall|j: int| 0 <= j < 32 ==> r.bytes[j] == self.bytes[j] & other.bytes[j],
    {
        let mut out = [0u8; 32];
        let mut i: usize = 0;
        while i < 32
            invariant
                i <= 32,
                forall|j: int| 0 <= j < i ==> out[j] == self.bytes[j] & other.bytes[j],
            decreases 32 - i,
        {
            out[i] = self.bytes[i] & other.bytes[i];
            i += 1;
        }
        MyU256 { bytes: out }
    }

    /// The bitwise disjunction.
    pub fn bitor(self, other: Self) -> (r: Self)
        ensures
            forall|j: int| 0 <= j < 32 ==> r.bytes[j] == self.bytes[j] | other.bytes[j],
    {
        let mut out = [0u8; 32];
        let mut i: usize = 0;
        while i < 32
            invariant
                i <= 32,
                forall|j: int| 0 <= j < i ==> out[j] == self.bytes[j] | other.bytes[j],
            decreases 32 - i,
        {
            out[i] = self.bytes[i] | other.bytes[i];
            i += 1;
        }
        MyU256 { bytes: out }
    }

    /// The bitwise exclusive disjunction.
    pub fn bitxor(self, other: Self) -> (r: Self)
        ensures
            forall|j: int| 0 <= j < 32 ==> r.bytes[j] == self.bytes[j] ^ other.bytes[j],
    {
        let mut out = [0u8; 32];
        let mut i: usize = 0;
        while i < 32
            invariant
                i <= 32,
                forall|j: int| 0 <= j < i ==> out[j] == self.bytes[j] ^ other.bytes[j],
            decreases 32 - i,
        {
            out[i] = self.bytes[i] ^ other.bytes[i];
            i += 1;
        }
        MyU256 { bytes: out }
    }

    /// Whether the number fits in 64 bits.
    pub fn fits_u64(&self) -> (r: bool)
        ensures
            r == (self.value() < 0x1_0000_0000_0000_0000),
    {
        let mut i: usize = 0;
        while i < 24
            invariant
                i <= 24,
                forall|j: int| 0 <= j < i ==> self.bytes[j] == 0,
            decreases 24 - i,
        {
            if self.bytes[i] != 0 {
                proof {
                    let s = self.bytes@;
                    lemma_radix_pow_values();
                    lemma_be_split(s, i + 1);
                    let front = s.subrange(0, i + 1);
                    assert(be_value(front) >= front.last());
                    assert(front.last() == s[i as int]);
                    lemma_radix_pow_add(8, (24 - i - 1) as nat);
                    lemma_radix_pow_positive((24 - i - 1) as nat);
                    let f = be_value(front);
                    let p = radix_pow((24 - i - 1) as nat);
                    assert(f * (radix_pow(8) * p) >= radix_pow(8)) by (nonlinear_arith)
                        requires
                            f >= 1,
                            p >= 1,
                            radix_pow(8) >= 1,
                    ;
                }
                return false;
            }
            i += 1;
        }
        proof {
            lemma_radix_pow_values();
            lemma_be_leading_zeros(self.bytes@, 24);
            lemma_be_bound(self.bytes@.subrange(24, 32));
        }
        true
    }

    /// The low 64 bits of the number.
    pub fn low_u64(&self) -> (r: u64)
        ensures
            r == self.value() % 0x1_0000_0000_0000_0000,
    {
        let mut acc: u64 = 0;
        let mut i: usize = 24;
        proof {
            lemma_radix_pow_values();
        }
        while i < 32
            invariant
                24 <= i <= 32,
                acc == be_value(self.bytes@.subrange(24, i as int)),
                acc < radix_pow((i - 24) as nat),
                radix_pow(8) == 0x1_0000_0000_0000_0000,
            decreases 32 - i,
        {
            let b = self.bytes[i];
            proof {
                let next = self.bytes@.subrange(24, i + 1);
                assert(next.drop_last() =~= self.bytes@.subrange(24, i as int));
                assert(next.last() == b);
                lemma_be_bound(next);
                lemma_radix_pow_add((i + 1 - 24) as nat, (32 - i - 1) as nat);
                lemma_radix_pow_positive((32 - i - 1) as nat);
                let q = radix_pow((i + 1 - 24) as nat);
                let p = radix_pow((32 - i - 1) as nat);
                assert(q <= q * p) by (nonlinear_arith)
                    requires
                        p >= 1,
                ;
            }
            acc = acc * 256 + b as u64;
            i += 1;
        }
        proof {
            let s = self.bytes@;
            lemma_be_split(s, 24);
            let hi = be_value(s.subrange(0, 24));
            let m = radix_pow(8);
            assert((hi * m + acc) % (m as int) == acc) by (nonlinear_arith)
                requires
                    acc < m,
                    m > 0,
            ;
        }
        acc
    }

    /// The number, truncated to the machine's word: its low 64 bits, then cut
    /// to the width of `usize`.
    pub fn as_usize(&self) -> (r: usize)
        ensures
            r == self.truncated(),
    {
        let low = self.low_u64();
        if low <= usize::MAX as u64 {
            assert(low as int % (usize::MAX + 1) == low) by (nonlinear_arith)
                requires
                    0 <= low <= usize::MAX,
            ;
            low as usize
        } else {
            (low % (usize::MAX as u64 + 1)) as usize
        }
    }

    /// The byte at position `i` counted from the most significant end, as a
    /// word; zero where `i` is 32 or more.
    pub fn byte(&self, i: &Self) -> (r: Self)
        ensures
            r.value() == (if i.value() < 32 {
                self.bytes[i.value() as int] as nat
            } else {
                0
            }),
    {
        if i.fits_u64() {
            let k = i.low_u64();
            if k < 32 {
                return MyU256::from_u64(self.bytes[k as usize] as u64);
            }
        }
        MyU256::zero()
    }

    /// One where `b` holds, zero where it does not.
    pub fn from_bool(b: bool) -> (r: Self)
        ensures
            r.value() == (if b {
                1nat
            } else {
                0nat
            }),
    {
        if b {
            MyU256::from_u64(1)
        } else {
            MyU256::zero()
        }
    }

    /// The canonical serialisation: 32 bytes, most significant first.
    pub fn to_be_bytes(&self) -> (r: [u8; 32])
        ensures
            r == self.spec_to_be_bytes(),
            r == self.bytes,
            be_value(r@) == self.value(),
    {
        self.bytes
    }
}

impl PartialEq for MyU256 {
    fn eq(&self, other: &Self) -> (r: bool) {
        let mut i: usize = 0;
        while i < 32
            invariant
                i <= 32,
                forall|j: int| 0 <= j < i ==> self.bytes[j] == other.bytes[j],
            decreases 32 - i,
        {
            if self.bytes[i] != other.bytes[i] {
                return false;
            }
            i += 1;
        }
        assert(self.bytes =~= other.bytes);
        true
    }
}

impl PartialEqSpecImpl for MyU256 {
    open spec fn obeys_eq_spec() -> bool {
        true
    }

    open spec fn eq_spec(&self, other: &Self) -> bool {
        *self == *other
    }
}

impl Eq for MyU256 {

}

} // verus!
