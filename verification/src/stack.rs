//! The compile-time model of the EVM operand stack.

use crate::word::MyU256;
use vstd::prelude::*;

verus! {

/// The number of slots of the stack.
pub const STACK_SIZE: usize = 1024;

/// A fixed-capacity stack of 256-bit words. Slots at and above the top hold
/// a sentinel, the largest word.
pub struct Stack {
    data: [MyU256; STACK_SIZE],
    top: usize,
}

/// The word with every bit set, which fills the unused slots.
fn sentinel() -> (r: MyU256)
    ensures
        is_sentinel(r),
{
    MyU256::max()
}

/// Whether every bit of the word is set.
pub open spec fn is_sentinel(w: MyU256) -> bool {
    forall|i: int| 0 <= i < 32 ==> w.bytes[i] == 0xff
}

impl View for Stack {
    type V = Seq<MyU256>;

    /// The words on the stack, the bottom one first.
    closed spec fn view(&self) -> Seq<MyU256> {
        self.data@.subrange(0, self.top as int)
    }
}

impl Stack {
    /// The top is within the capacity, and every slot from the top on holds
    /// the sentinel.
    pub closed spec fn wf(&self) -> bool {
        &&& self.top <= STACK_SIZE
        &&& forall|i: int| self.top <= i < STACK_SIZE ==> is_sentinel(#[trigger] self.data[i])
    }

    /// A well-formed stack holds at most `STACK_SIZE` words.
    pub proof fn lemma_len_bounded(&self)
        requires
            self.wf(),
        ensures
            self@.len() <= STACK_SIZE,
    {
    }

    /// The empty stack.
    pub fn new() -> (r: Self)
        ensures
            r.wf(),
            r@ == Seq::<MyU256>::empty(),
    {
        let s = sentinel();
        Stack { data: [s; STACK_SIZE], top: 0 }
    }

    /// Puts `value` on top; refused on a full stack, which stays as it was.
    pub fn push(&mut self, value: MyU256) -> (r: Result<(), &'static str>)
        requires
            old(self).wf(),
        ensures
            final(self).wf(),
            old(self)@.len() < STACK_SIZE ==> r is Ok && final(self)@ == old(self)@.push(value),
            old(self)@.len() >= STACK_SIZE ==> r == Err::<(), &'static str>("Stack overflow")
                && final(self)@ == old(self)@,
    {
        if self.top < STACK_SIZE {
            self.data[self.top] = value;
            self.top += 1;
            assert(self@ =~= old(self)@.push(value));
            Ok(())
        } else {
            Err("Stack overflow")
        }
    }

    /// Takes the top word off; refused on an empty stack.
    pub fn pop(&mut self) -> (r: Result<MyU256, &'static str>)
        requires
            old(self).wf(),
        ensures
            final(self).wf(),
            old(self)@.len() > 0 ==> r == Ok::<MyU256, &'static str>(old(self)@.last())
                && final(self)@ == old(self)@.drop_last(),
            old(self)@.len() == 0 ==> r == Err::<MyU256, &'static str>("Stack underflow")
                && final(self)@ == old(self)@,
    {
        if self.top > 0 {
            self.top -= 1;
            let value = self.data[self.top];
            self.data[self.top] = sentinel();
            assert(self@ =~= old(self)@.drop_last());
            Ok(value)
        } else {
            Err("Stack underflow")
        }
    }

    /// The top word, left in place: the word that the next pop returns.
    /// Refused on an empty stack, as a pop is.
    pub fn peek(&self) -> (r: Result<MyU256, &'static str>)
        requires
            self.wf(),
        ensures
            self@.len() > 0 ==> r == Ok::<MyU256, &'static str>(self@.last()),
            self@.len() == 0 ==> r == Err::<MyU256, &'static str>("Stack underflow"),
    {
        if self.top > 0 {
            Ok(self.data[self.top - 1])
        } else {
            Err("Stack underflow")
        }
    }

    /// Whether the stack holds no word.
    pub fn is_empty(&self) -> (r: bool)
        requires
            self.wf(),
        ensures
            r == (self@.len() == 0),
    {
        self.top == 0
    }

    /// The number of words on the stack.
    pub fn len(&self) -> (r: usize)
        requires
            self.wf(),
        ensures
            r == self@.len(),
            r <= STACK_SIZE,
    {
        self.top
    }
}

/// A word that was pushed is the word that the next pop returns, and the
/// stack is then as it was before the push.
pub proof fn law_push_then_pop(before: Seq<MyU256>, value: MyU256)
    ensures
        before.push(value).last() == value,
        before.push(value).drop_last() == before,
        before.push(value).len() == before.len() + 1,
{
    assert(before.push(value).drop_last() =~= before);
}

} // verus!
