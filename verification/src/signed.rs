//! The 256-bit word read as a two's-complement signed integer.

use crate::word::{
    lemma_be_bound, lemma_be_front, lemma_radix_pow_values, modulus, sign_bit, MyU256,
};
use vstd::prelude::*;

verus! {

/// The integer that an unsigned 256-bit number denotes in two's complement.
pub open spec fn signed_of(v: nat) -> int {
    if v >= sign_bit() {
        v - modulus()
    } else {
        v as int
    }
}

/// The number whose two's-complement reading is `x`, for `x` from -2^255 up
/// to 2^255.
pub open spec fn unsigned_of(x: int) -> nat {
    if x < 0 {
        (x + modulus()) as nat
    } else {
        x as nat
    }
}

/// The distance of an integer from zero.
pub open spec fn magnitude_of(x: int) -> nat {
    if x < 0 {
        (-x) as nat
    } else {
        x as nat
    }
}

/// Remainder that takes the sign of the dividend; zero where the divisor is
/// zero.
pub open spec fn signed_rem(a: int, b: int) -> int {
    if b == 0 {
        0
    } else if a < 0 {
        -((magnitude_of(a) % magnitude_of(b)) as int)
    } else {
        (magnitude_of(a) % magnitude_of(b)) as int
    }
}

/// A signed 256-bit integer: the bits of a word, read in two's complement.
#[derive(Clone, Copy, Debug)]
pub struct I256 {
    pub bits: MyU256,
}

impl I256 {
    /// The integer this word denotes.
    pub open spec fn signed_value(self) -> int {
        signed_of(self.bits.value())
    }

    /// The signed reading of the word whose serialisation is `bytes`.
    pub fn from_be_bytes(bytes: [u8; 32]) -> (r: Self)
        ensures
            r.bits.bytes == bytes,
    {
        I256 { bits: MyU256::from_be_bytes(bytes) }
    }

    /// The serialisation of the underlying word.
    pub fn to_be_bytes(&self) -> (r: [u8; 32])
        ensures
            r == self.bits.bytes,
    {
        self.bits.to_be_bytes()
    }

    /// Whether the integer is below zero: whether bit 255 is set.
    pub fn is_negative(&self) -> (r: bool)
        ensures
            r == (self.signed_value() < 0),
            r == (self.bits.value() >= sign_bit()),
            r == (self.bits.bytes[0] >= 128),
    {
        proof {
            let s = self.bits.bytes@;
            lemma_radix_pow_values();
            lemma_be_front(s);
            lemma_be_bound(s.subrange(1, 32));
            lemma_be_bound(s);
        }
        self.bits.bytes[0] >= 128
    }

    /// The negation in two's complement: the complement plus one, wrapping.
    pub fn wrapping_neg(&self) -> (r: Self)
        ensures
            r.bits.value() == (modulus() - self.bits.value()) % (modulus() as int),
    {
        let c = self.bits.not();
        let one = MyU256::from_u64(1);
        proof {
            lemma_be_bound(self.bits.bytes@);
            lemma_radix_pow_values();
        }
        I256 { bits: c.add(one) }
    }

    /// The word whose unsigned reading is the distance from zero. The least
    /// integer, -2^255, is its own result.
    pub fn abs(&self) -> (r: Self)
        ensures
            r.bits.value() == magnitude_of(self.signed_value()),
    {
        if self.is_negative() {
            proof {
                lemma_be_bound(self.bits.bytes@);
                lemma_radix_pow_values();
            }
            self.wrapping_neg()
        } else {
            *self
        }
    }

    /// Remainder with the sign of the dividend; zero where the divisor is zero.
    pub fn rem(self, rhs: Self) -> (r: Self)
        ensures
            r.signed_value() == signed_rem(self.signed_value(), rhs.signed_value()),
    {
        let a = self.abs();
        let b = rhs.abs();
        let m = a.bits.rem(b.bits);
        proof {
            lemma_be_bound(self.bits.bytes@);
            lemma_be_bound(rhs.bits.bytes@);
            lemma_radix_pow_values();
            let x = a.bits.value();
            let y = b.bits.value();
            if y != 0 {
                assert(x % y <= x && x % y < y) by (nonlinear_arith)
                    requires
                        y > 0,
                ;
            }
        }
        if self.is_negative() {
            I256 { bits: m }.wrapping_neg()
        } else {
            I256 { bits: m }
        }
    }

    /// Whether this integer is the smaller one: a negative one precedes any
    /// that is not, and two of one sign compare as their bits do.
    pub fn lt(&self, other: &Self) -> (r: bool)
        ensures
            r == (self.signed_value() < other.signed_value()),
    {
        let sn = self.is_negative();
        let on = other.is_negative();
        proof {
            lemma_be_bound(self.bits.bytes@);
            lemma_be_bound(other.bits.bytes@);
            lemma_radix_pow_values();
        }
        if sn && !on {
            true
        } else if !sn && on {
            false
        } else {
            self.bits.lt(&other.bits)
        }
    }

    /// Whether this integer is the greater one.
    pub fn gt(&self, other: &Self) -> (r: bool)
        ensures
            r == (self.signed_value() > other.signed_value()),
    {
        other.lt(self)
    }
}

} // verus!
