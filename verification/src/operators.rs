//! The arithmetic operators on words: `+`, `-` and `*` wrap modulo 2^256,
//! `/` and `%` give zero for a zero divisor.

use crate::word::{
    lemma_word_of, spec_div, spec_rem, word_of, wrap_add, wrap_mul, wrap_sub, MyU256,
};
use crate::signed::{signed_rem, unsigned_of, I256};
use vstd::prelude::*;
use vstd::std_specs::ops::{AddSpecImpl, DivSpecImpl, MulSpecImpl, RemSpecImpl, SubSpecImpl};

verus! {

impl core::ops::Add for MyU256 {
    type Output = MyU256;

    fn add(self, other: MyU256) -> (r: MyU256) {
        let r = self.add(other);
        proof {
            lemma_word_of(r);
        }
        r
    }
}

impl AddSpecImpl for MyU256 {
    open spec fn obeys_add_spec() -> bool {
        true
    }

    open spec fn add_req(self, other: MyU256) -> bool {
        true
    }

    open spec fn add_spec(self, other: MyU256) -> MyU256 {
        word_of(wrap_add(self.value(), other.value()))
    }
}

impl core::ops::Sub for MyU256 {
    type Output = MyU256;

    fn sub(self, other: MyU256) -> (r: MyU256) {
        let r = self.sub(other);
        proof {
            lemma_word_of(r);
        }
        r
    }
}

impl SubSpecImpl for MyU256 {
    open spec fn obeys_sub_spec() -> bool {
        true
    }

    open spec fn sub_req(self, other: MyU256) -> bool {
        true
    }

    open spec fn sub_spec(self, other: MyU256) -> MyU256 {
        word_of(wrap_sub(self.value(), other.value()))
    }
}

impl core::ops::Mul for MyU256 {
    type Output = MyU256;

    fn mul(self, other: MyU256) -> (r: MyU256) {
        let r = self.mul(other);
        proof {
            lemma_word_of(r);
        }
        r
    }
}

impl MulSpecImpl for MyU256 {
    open spec fn obeys_mul_spec() -> bool {
        true
    }

    open spec fn mul_req(self, other: MyU256) -> bool {
        true
    }

    open spec fn mul_spec(self, other: MyU256) -> MyU256 {
        word_of(wrap_mul(self.value(), other.value()))
    }
}

impl core::ops::Div for MyU256 {
    type Output = MyU256;

    fn div(self, other: MyU256) -> (r: MyU256) {
        let r = self.div(other);
        proof {
            lemma_word_of(r);
        }
        r
    }
}

impl DivSpecImpl for MyU256 {
    open spec fn obeys_div_spec() -> bool {
        true
    }

    open spec fn div_req(self, other: MyU256) -> bool {
        true
    }

    open spec fn div_spec(self, other: MyU256) -> MyU256 {
        word_of(spec_div(self.value(), other.value()))
    }
}

impl core::ops::Rem for MyU256 {
    type Output = MyU256;

    fn rem(self, other: MyU256) -> (r: MyU256) {
        let r = self.rem(other);
        proof {
            lemma_word_of(r);
        }
        r
    }
}

impl RemSpecImpl for MyU256 {
    open spec fn obeys_rem_spec() -> bool {
        true
    }

    open spec fn rem_req(self, other: MyU256) -> bool {
        true
    }

    open spec fn rem_spec(self, other: MyU256) -> MyU256 {
        word_of(spec_rem(self.value(), other.value()))
    }
}

impl core::ops::Rem for I256 {
    type Output = I256;

    fn rem(self, other: I256) -> (r: I256) {
        let r = self.rem(other);
        proof {
            lemma_word_of(r.bits);
            lemma_bits_of(self.signed_value(), other.signed_value(), r);
        }
        r
    }
}

impl RemSpecImpl for I256 {
    open spec fn obeys_rem_spec() -> bool {
        true
    }

    open spec fn rem_req(self, other: I256) -> bool {
        true
    }

    open spec fn rem_spec(self, other: I256) -> I256 {
        I256 {
            bits: word_of(unsigned_of(signed_rem(self.signed_value(), other.signed_value()))),
        }
    }
}

/// The word of a signed remainder is the two's-complement word of the
/// integer it denotes.
proof fn lemma_bits_of(a: int, b: int, r: I256)
    requires
        r.signed_value() == signed_rem(a, b),
    ensures
        r.bits.value() == unsigned_of(signed_rem(a, b)),
{
    lemma_word_of(r.bits);
}

} // verus!
