//! The bytecode decoder: raw bytes to instructions with their immediates.

use crate::opcode::{
    immediate_len, is_assigned, is_push_byte, law_decoding_inverts_encoding, opcode_of, Opcode,
};
use crate::word::{be_value, lemma_be_leading_zeros};
use vstd::prelude::*;

verus! {

/// An instruction with its immediate operand: the n bytes that follow a
/// PUSHn, nothing for any other instruction.
#[derive(Debug, Clone)]
pub struct Instruction {
    pub opcode: Opcode,
    pub operand: Option<Vec<u8>>,
}

/// What an instruction holds.
pub struct InstructionView {
    pub opcode: Opcode,
    pub operand: Option<Seq<u8>>,
}

impl InstructionView {
    /// The operand is there exactly for a push, with the length the push
    /// names.
    pub open spec fn wf(self) -> bool {
        if is_push_byte(self.opcode.byte()) {
            self.operand is Some && self.operand->Some_0.len() == immediate_len(
                self.opcode.byte(),
            )
        } else {
            self.operand is None
        }
    }

    /// The bytes that encode the instruction.
    pub open spec fn encoding(self) -> Seq<u8> {
        match self.operand {
            Some(bytes) => seq![self.opcode.byte()] + bytes,
            None => seq![self.opcode.byte()],
        }
    }
}

impl View for Instruction {
    type V = InstructionView;

    open spec fn view(&self) -> InstructionView {
        InstructionView {
            opcode: self.opcode,
            operand: match self.operand {
                Some(v) => Some(v@),
                None => None,
            },
        }
    }
}

impl Default for Instruction {
    fn default() -> (r: Self)
        ensures
            r.opcode == Opcode::STOP,
            r.operand is None,
    {
        Instruction { opcode: Opcode::STOP, operand: None }
    }
}

/// What a sequence of instructions holds.
pub open spec fn views(instructions: Seq<Instruction>) -> Seq<InstructionView> {
    instructions.map_values(|inst: Instruction| inst@)
}

/// The bytes that encode a sequence of instructions, one after the other.
pub open spec fn encode(instructions: Seq<InstructionView>) -> Seq<u8>
    decreases instructions.len(),
{
    if instructions.len() == 0 {
        Seq::empty()
    } else {
        instructions[0].encoding() + encode(instructions.drop_first())
    }
}

/// The instruction that begins at position `i`, where an assigned byte and
/// its whole immediate lie there.
pub open spec fn instruction_at(bytes: Seq<u8>, i: int) -> InstructionView {
    InstructionView {
        opcode: opcode_of(bytes[i]),
        operand: if is_push_byte(bytes[i]) {
            Some(bytes.subrange(i + 1, i + 1 + immediate_len(bytes[i])))
        } else {
            None
        },
    }
}

/// The decoding of the bytes from position `i` on: instruction after
/// instruction in stream order. The first byte that encodes no instruction,
/// or the first immediate that runs past the end, makes it fail.
pub open spec fn decode_from(bytes: Seq<u8>, i: int) -> Result<Seq<InstructionView>, &'static str>
    decreases bytes.len() - i,
{
    if i < 0 || i >= bytes.len() {
        Ok(Seq::empty())
    } else if !is_assigned(bytes[i]) {
        Err("Invalid opcode")
    } else if i + 1 + immediate_len(bytes[i]) > bytes.len() {
        Err("Unexpected end of bytecode")
    } else {
        match decode_from(bytes, i + 1 + immediate_len(bytes[i])) {
            Ok(rest) => Ok(seq![instruction_at(bytes, i)] + rest),
            Err(e) => Err(e),
        }
    }
}

/// Whatever decodes without error decodes to well-formed instructions whose
/// encodings, in order, are the bytes decoded: one instruction per opcode
/// byte, each push with exactly its immediate.
pub proof fn law_decode_faithful(bytes: Seq<u8>, i: int)
    requires
        0 <= i <= bytes.len(),
        decode_from(bytes, i) is Ok,
    ensures
        encode(decode_from(bytes, i)->Ok_0) == bytes.subrange(i, bytes.len() as int),
        forall|k: int|
            0 <= k < decode_from(bytes, i)->Ok_0.len() ==> (#[trigger] decode_from(
                bytes,
                i,
            )->Ok_0[k]).wf(),
    decreases bytes.len() - i,
{
    let n = bytes.len() as int;
    if i >= n {
        assert(bytes.subrange(i, n) =~= Seq::<u8>::empty());
    } else {
        let next = i + 1 + immediate_len(bytes[i]);
        law_decode_faithful(bytes, next);
        law_decoding_inverts_encoding(bytes[i]);
        let rest = decode_from(bytes, next)->Ok_0;
        let all = decode_from(bytes, i)->Ok_0;
        let first = instruction_at(bytes, i);
        assert(all == seq![first] + rest);
        assert(all[0] == first);
        assert(all.drop_first() =~= rest);
        assert(first.encoding() =~= bytes.subrange(i, next));
        assert(bytes.subrange(i, next) + bytes.subrange(next, n) =~= bytes.subrange(i, n));
        assert forall|k: int| 0 <= k < all.len() implies (#[trigger] all[k]).wf() by {
            if k > 0 {
                assert(all[k] == rest[k - 1]);
            }
        }
    }
}

/// Reads the `size` immediate bytes at `*index` and moves the index past
/// them; refused, with the index unmoved, where the bytes run out first.
pub fn parse_push_operand(bytecode: &[u8], index: &mut usize, size: usize) -> (r: Result<
    Option<Vec<u8>>,
    &'static str,
>)
    requires
        *old(index) <= bytecode@.len(),
    ensures
        *old(index) + size <= bytecode@.len() ==> *final(index) == *old(index) + size && r is Ok
            && r->Ok_0 is Some && r->Ok_0->Some_0@ == bytecode@.subrange(
            *old(index) as int,
            *old(index) + size,
        ),
        *old(index) + size > bytecode@.len() ==> *final(index) == *old(index) && r == Err::<
            Option<Vec<u8>>,
            &'static str,
        >("Unexpected end of bytecode"),
{
    let start = *index;
    if size > bytecode.len() - start {
        return Err("Unexpected end of bytecode");
    }
    let mut operand: Vec<u8> = Vec::new();
    let mut k: usize = 0;
    while k < size
        invariant
            k <= size,
            start + size <= bytecode@.len() <= usize::MAX,
            operand@ == bytecode@.subrange(start as int, start + k),
        decreases size - k,
    {
        operand.push(bytecode[start + k]);
        assert(operand@ =~= bytecode@.subrange(start as int, start + k + 1));
        k += 1;
    }
    *index = start + size;
    Ok(Some(operand))
}

/// Decodes a whole bytecode stream, preserving its order.
pub fn parse_bytecode(bytecode: &[u8]) -> (r: Result<Vec<Instruction>, &'static str>)
    ensures
        match r {
            Ok(instructions) => decode_from(bytecode@, 0) == Ok::<
                Seq<InstructionView>,
                &'static str,
            >(views(instructions@)),
            Err(e) => decode_from(bytecode@, 0) == Err::<Seq<InstructionView>, &'static str>(e),
        },
{
    let mut instructions: Vec<Instruction> = Vec::new();
    let mut i: usize = 0;
    while i < bytecode.len()
        invariant
            i <= bytecode@.len(),
            decode_from(bytecode@, 0) == (match decode_from(bytecode@, i as int) {
                Ok(rest) => Ok::<Seq<InstructionView>, &'static str>(views(instructions@) + rest),
                Err(e) => Err(e),
            }),
        decreases bytecode@.len() - i,
    {
        let byte = bytecode[i];
        let opcode = match Opcode::try_from(byte) {
            Ok(op) => op,
            Err(e) => {
                return Err(e);
            },
        };
        let ghost at = i as int;
        i += 1;
        let operand = if 0x60 <= byte && byte <= 0x7F {
            let size = (byte - 0x60 + 1) as usize;
            match parse_push_operand(bytecode, &mut i, size) {
                Ok(operand) => operand,
                Err(e) => {
                    return Err(e);
                },
            }
        } else {
            None
        };
        let ghost before = views(instructions@);
        let inst = Instruction { opcode, operand };
        assert(inst@ == instruction_at(bytecode@, at));
        instructions.push(inst);
        proof {
            let rest = decode_from(bytecode@, i as int);
            assert(views(instructions@) =~= before + seq![instruction_at(bytecode@, at)]);
            if rest is Ok {
                assert(before + (seq![instruction_at(bytecode@, at)] + rest->Ok_0) =~= views(
                    instructions@,
                ) + rest->Ok_0);
            }
        }
    }
    assert(views(instructions@) + Seq::<InstructionView>::empty() =~= views(instructions@));
    Ok(instructions)
}

/// Pads an immediate on the left with zeros to a whole word, which leaves
/// the number it denotes unchanged.
pub fn pad_left(bytes: &[u8]) -> (r: [u8; 32])
    requires
        bytes@.len() <= 32,
    ensures
        r@ == Seq::new((32 - bytes@.len()) as nat, |i: int| 0u8) + bytes@,
        be_value(r@) == be_value(bytes@),
{
    let n = bytes.len();
    let mut padded = [0u8; 32];
    let mut k: usize = 0;
    while k < n
        invariant
            k <= n,
            n == bytes@.len(),
            n <= 32,
            forall|j: int| 0 <= j < 32 - n + k ==> padded[j] == (if j < 32 - n {
                0u8
            } else {
                bytes@[j - (32 - n)]
            }),
            forall|j: int| 32 - n + k <= j < 32 ==> padded[j] == 0,
        decreases n - k,
    {
        padded[32 - n + k] = bytes[k];
        k += 1;
    }
    proof {
        assert(padded@ =~= Seq::new((32 - n) as nat, |i: int| 0u8) + bytes@);
        lemma_be_leading_zeros(padded@, 32 - n);
        assert(padded@.subrange(32 - n, 32) =~= bytes@);
    }
    padded
}

} // verus!
