//! A plain run-time store: a megabyte of flat memory and a stack of words.

use vstd::prelude::*;

verus! {

/// The size of the flat memory in bytes.
pub const RUNTIME_MEMORY_SIZE: usize = 1024 * 1024;

/// Flat memory of fixed size and an unbounded stack of 32-byte words.
pub struct EVMRuntime {
    memory: Vec<u8>,
    stack: Vec<[u8; 32]>,
}

/// What a runtime holds: the bytes of its memory, and its stack with the
/// bottom word first.
pub struct RuntimeView {
    pub memory: Seq<u8>,
    pub stack: Seq<Seq<u8>>,
}

impl View for EVMRuntime {
    type V = RuntimeView;

    closed spec fn view(&self) -> RuntimeView {
        RuntimeView { memory: self.memory@, stack: self.stack@.map_values(|w: [u8; 32]| w@) }
    }
}

impl EVMRuntime {
    /// The memory has its fixed size.
    pub closed spec fn wf(&self) -> bool {
        self.memory@.len() == RUNTIME_MEMORY_SIZE
    }

    /// What well-formedness says of the view.
    pub proof fn lemma_wf_view(&self)
        requires
            self.wf(),
        ensures
            self@.memory.len() == RUNTIME_MEMORY_SIZE,
            forall|i: int| 0 <= i < self@.stack.len() ==> (#[trigger] self@.stack[i]).len() == 32,
    {
    }

    /// A runtime with zeroed memory and an empty stack.
    pub fn new() -> (r: Self)
        ensures
            r.wf(),
            r@.memory == Seq::new(RUNTIME_MEMORY_SIZE as nat, |i: int| 0u8),
            r@.stack == Seq::<Seq<u8>>::empty(),
    {
        let mut memory: Vec<u8> = Vec::new();
        let mut i: usize = 0;
        while i < RUNTIME_MEMORY_SIZE
            invariant
                i <= RUNTIME_MEMORY_SIZE,
                memory@ == Seq::new(i as nat, |k: int| 0u8),
            decreases RUNTIME_MEMORY_SIZE - i,
        {
            memory.push(0);
            assert(memory@ =~= Seq::new((i + 1) as nat, |k: int| 0u8));
            i += 1;
        }
        let r = EVMRuntime { memory, stack: Vec::new() };
        assert(r@.stack =~= Seq::<Seq<u8>>::empty());
        r
    }

    /// Puts a word on the stack.
    pub fn push(&mut self, value: [u8; 32])
        requires
            old(self).wf(),
        ensures
            final(self).wf(),
            final(self)@.memory == old(self)@.memory,
            final(self)@.stack == old(self)@.stack.push(value@),
    {
        self.stack.push(value);
        assert(self@.stack =~= old(self)@.stack.push(value@));
    }

    /// Takes the top word off the stack; nothing where the stack is empty.
    pub fn pop(&mut self) -> (r: Option<[u8; 32]>)
        requires
            old(self).wf(),
        ensures
            final(self).wf(),
            final(self)@.memory == old(self)@.memory,
            old(self)@.stack.len() == 0 ==> r is None && final(self)@.stack == old(self)@.stack,
            old(self)@.stack.len() > 0 ==> r is Some && r->Some_0@ == old(self)@.stack.last()
                && final(self)@.stack == old(self)@.stack.drop_last(),
    {
        let r = self.stack.pop();
        proof {
            if old(self)@.stack.len() > 0 {
                assert(self@.stack =~= old(self)@.stack.drop_last());
            } else {
                assert(self@.stack =~= old(self)@.stack);
            }
        }
        r
    }

    /// Stores a word at `offset`, where the whole word lies inside the
    /// memory; elsewhere nothing happens.
    pub fn mstore(&mut self, offset: usize, value: &[u8; 32])
        requires
            old(self).wf(),
        ensures
            final(self).wf(),
            final(self)@.stack == old(self)@.stack,
            offset + 32 <= RUNTIME_MEMORY_SIZE ==> final(self)@.memory == old(self)@.memory.subrange(0, offset as int) + value@ + old(self)@.memory.subrange(
                offset + 32,
                RUNTIME_MEMORY_SIZE as int,
            ),
            offset + 32 > RUNTIME_MEMORY_SIZE ==> final(self)@.memory == old(self)@.memory,
    {
        if offset <= self.memory.len() - 32 {
            let mut i: usize = 0;
            while i < 32
                invariant
                    i <= 32,
                    offset + 32 <= RUNTIME_MEMORY_SIZE,
                    self.memory@.len() == RUNTIME_MEMORY_SIZE,
                    self.stack == old(self).stack,
                    forall|j: int|
                        0 <= j < RUNTIME_MEMORY_SIZE ==> self.memory@[j] == (if offset <= j
                            < offset + i {
                            value[j - offset]
                        } else {
                            old(self).memory@[j]
                        }),
                decreases 32 - i,
            {
                self.memory[offset + i] = value[i];
                i += 1;
            }
            assert(self@.memory =~= old(self)@.memory.subrange(0, offset as int) + value@ + old(self)@.memory.subrange(offset + 32, RUNTIME_MEMORY_SIZE as int));
        }
    }

    /// The word at `offset`, where the whole word lies inside the memory;
    /// zeros elsewhere.
    pub fn mload(&self, offset: usize) -> (r: [u8; 32])
        requires
            self.wf(),
        ensures
            offset + 32 <= RUNTIME_MEMORY_SIZE ==> r@ == self@.memory.subrange(
                offset as int,
                offset + 32,
            ),
            offset + 32 > RUNTIME_MEMORY_SIZE ==> r@ == Seq::new(32, |i: int| 0u8),
    {
        let mut value = [0u8; 32];
        if offset <= self.memory.len() - 32 {
            let mut i: usize = 0;
            while i < 32
                invariant
                    i <= 32,
                    offset + 32 <= RUNTIME_MEMORY_SIZE,
                    self.memory@.len() == RUNTIME_MEMORY_SIZE,
                    forall|j: int| 0 <= j < i ==> value[j] == self.memory@[offset + j],
                decreases 32 - i,
            {
                value[i] = self.memory[offset + i];
                i += 1;
            }
            assert(value@ =~= self@.memory.subrange(offset as int, offset + 32));
        } else {
            assert(value@ =~= Seq::new(32, |i: int| 0u8));
        }
        value
    }
}

} // verus!
