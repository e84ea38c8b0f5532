//! The symbolic executor: it carries instructions out on the models of the
//! stack and the memory and emits the intermediate representation.

use crate::decoder::{pad_left, views, Instruction};
use crate::ir::{
    binary_result, is_binary, is_ternary, op_name, run, slot, step_memory, step_result,
    step_stack, Executed, IRInstruction,
};
use crate::memory::Memory;
use crate::opcode::{is_push_byte, Opcode};
use crate::signed::I256;
use crate::stack::{Stack, STACK_SIZE};
use crate::word::{lemma_word_of, MyU256};
use vstd::prelude::*;

verus! {

/// Takes the top word off a stack that holds one.
fn take(stack: &mut Stack) -> (w: MyU256)
    requires
        old(stack).wf(),
        old(stack)@.len() > 0,
    ensures
        final(stack).wf(),
        w == old(stack)@.last(),
        final(stack)@ == old(stack)@.drop_last(),
{
    match stack.pop() {
        Ok(w) => w,
        Err(_) => MyU256::zero(),
    }
}

/// Puts a word on a stack that has room.
fn put(stack: &mut Stack, w: MyU256)
    requires
        old(stack).wf(),
        old(stack)@.len() < STACK_SIZE,
    ensures
        final(stack).wf(),
        final(stack)@ == old(stack)@.push(w),
{
    let _ = stack.push(w);
}

/// The word that names stack slot `k`.
fn slot_word(k: usize) -> (r: MyU256)
    ensures
        r == slot(k as int),
{
    let r = MyU256::from_u64(k as u64);
    proof {
        lemma_word_of(r);
    }
    r
}

/// The name under which an instruction appears in what it emits.
fn name_of(op: Opcode) -> (r: &'static str)
    ensures
        r == op_name(op),
{
    match op {
        Opcode::ADD => "add",
        Opcode::SUB => "sub",
        Opcode::MUL => "mul",
        Opcode::DIV => "div",
        Opcode::MOD => "mod",
        Opcode::SMOD => "smod",
        Opcode::ADDMOD => "addmod",
        Opcode::MULMOD => "mulmod",
        Opcode::EXP => "exp",
        Opcode::LT => "lt",
        Opcode::GT => "gt",
        Opcode::SLT => "slt",
        Opcode::SGT => "sgt",
        Opcode::EQ => "eq",
        Opcode::BYTE => "byte",
        Opcode::NOT => "not",
        Opcode::POP => "pop",
        _ => "",
    }
}

/// The word a binary instruction leaves.
fn binary_value(op: Opcode, a: MyU256, b: MyU256) -> (r: MyU256)
    requires
        is_binary(op),
    ensures
        r == crate::word::word_of(binary_result(op, a, b)),
{
    proof {
        lemma_word_of(a);
        lemma_word_of(b);
    }
    let r = match op {
        Opcode::ADD => a.add(b),
        Opcode::SUB => a.sub(b),
        Opcode::MUL => a.mul(b),
        Opcode::DIV => a.div(b),
        Opcode::MOD => a.rem(b),
        Opcode::SMOD => {
            let m = I256 { bits: a }.rem(I256 { bits: b });
            proof {
                lemma_word_of(m.bits);
            }
            m.bits
        },
        Opcode::EXP => a.pow(b),
        Opcode::LT => MyU256::from_bool(a.lt(&b)),
        Opcode::GT => MyU256::from_bool(a.gt(&b)),
        Opcode::SLT => MyU256::from_bool(I256 { bits: a }.lt(&I256 { bits: b })),
        Opcode::SGT => MyU256::from_bool(I256 { bits: a }.gt(&I256 { bits: b })),
        Opcode::EQ => MyU256::from_bool(a == b),
        Opcode::BYTE => a.byte(&b),
        _ => MyU256::zero(),
    };
    proof {
        lemma_word_of(r);
    }
    r
}

/// Carries out an instruction that takes two words and leaves one.
fn execute_binary(op: Opcode, stack: &mut Stack) -> (r: Executed)
    requires
        old(stack).wf(),
        is_binary(op),
    ensures
        final(stack).wf(),
        forall|inst: crate::decoder::InstructionView, memory: crate::memory::MemoryView|
            inst.opcode == op ==> {
                &&& r == #[trigger] step_result(inst, old(stack)@)
                &&& final(stack)@ == #[trigger] step_stack(inst, old(stack)@, memory)
            },
{
    let n = stack.len();
    if n < 2 {
        return Executed::Fail("Stack underflow");
    }
    let b = take(stack);
    let a = take(stack);
    let v = binary_value(op, a, b);
    put(stack, v);
    assert(stack@ =~= old(stack)@.take(n - 2).push(v));
    Executed::Continue(
        Some(
            IRInstruction::BinaryOp {
                op: name_of(op),
                dest: slot_word(n - 2),
                src1: slot_word(n - 2),
                src2: slot_word(n - 1),
            },
        ),
    )
}

/// Carries out an instruction that takes three words and leaves one.
fn execute_ternary(op: Opcode, stack: &mut Stack) -> (r: Executed)
    requires
        old(stack).wf(),
        is_ternary(op),
    ensures
        final(stack).wf(),
        forall|inst: crate::decoder::InstructionView, memory: crate::memory::MemoryView|
            inst.opcode == op ==> {
                &&& r == #[trigger] step_result(inst, old(stack)@)
                &&& final(stack)@ == #[trigger] step_stack(inst, old(stack)@, memory)
            },
{
    let n = stack.len();
    if n < 3 {
        return Executed::Fail("Stack underflow");
    }
    let m = take(stack);
    let b = take(stack);
    let a = take(stack);
    let v = match op {
        Opcode::ADDMOD => a.add_mod(b, m),
        _ => a.mul_mod(b, m),
    };
    proof {
        lemma_word_of(v);
    }
    put(stack, v);
    assert(stack@ =~= old(stack)@.take(n - 3).push(v));
    Executed::Continue(
        Some(
            IRInstruction::TernaryOp {
                op: name_of(op),
                dest: slot_word(n - 3),
                src1: slot_word(n - 3),
                src2: slot_word(n - 2),
                src3: slot_word(n - 1),
            },
        ),
    )
}

/// Carries out NOT or POP.
fn execute_unary(op: Opcode, stack: &mut Stack) -> (r: Executed)
    requires
        old(stack).wf(),
        op == Opcode::NOT || op == Opcode::POP,
    ensures
        final(stack).wf(),
        forall|inst: crate::decoder::InstructionView, memory: crate::memory::MemoryView|
            inst.opcode == op ==> {
                &&& r == #[trigger] step_result(inst, old(stack)@)
                &&& final(stack)@ == #[trigger] step_stack(inst, old(stack)@, memory)
            },
{
    let n = stack.len();
    if n < 1 {
        return Executed::Fail("Stack underflow");
    }
    let a = take(stack);
    match op {
        Opcode::NOT => {
            let v = a.not();
            proof {
                lemma_word_of(v);
            }
            put(stack, v);
            assert(stack@ =~= old(stack)@.take(n - 1).push(v));
        },
        _ => {
            assert(stack@ =~= old(stack)@.take(n - 1));
        },
    }
    Executed::Continue(
        Some(
            IRInstruction::UnaryOp {
                op: name_of(op),
                dest: slot_word(n - 1),
                src: slot_word(n - 1),
            },
        ),
    )
}

/// Carries out a push of the immediate that the instruction carries.
fn execute_push(inst: &Instruction, stack: &mut Stack) -> (r: Executed)
    requires
        old(stack).wf(),
        inst@.wf(),
        is_push_byte(inst.opcode.byte()),
    ensures
        final(stack).wf(),
        r == step_result(inst@, old(stack)@),
        forall|memory: crate::memory::MemoryView|
            final(stack)@ == #[trigger] step_stack(inst@, old(stack)@, memory),
{
    let n = stack.len();
    if n >= STACK_SIZE {
        return Executed::Fail("Stack overflow");
    }
    match &inst.operand {
        Some(operand) => {
            let value = MyU256::from_be_bytes(pad_left(operand.as_slice()));
            proof {
                lemma_word_of(value);
            }
            put(stack, value);
            Executed::Continue(Some(IRInstruction::LoadConst { dest: slot_word(n), value }))
        },
        None => Executed::Continue(None),
    }
}

/// Carries out an instruction that only takes words: SHA3, JUMP or JUMPI.
fn execute_taking(op: Opcode, stack: &mut Stack) -> (r: Executed)
    requires
        old(stack).wf(),
        op == Opcode::SHA3 || op == Opcode::JUMP || op == Opcode::JUMPI,
    ensures
        final(stack).wf(),
        forall|inst: crate::decoder::InstructionView, memory: crate::memory::MemoryView|
            inst.opcode == op ==> {
                &&& r == #[trigger] step_result(inst, old(stack)@)
                &&& final(stack)@ == #[trigger] step_stack(inst, old(stack)@, memory)
            },
{
    let n = stack.len();
    match op {
        Opcode::JUMP => {
            if n < 1 {
                return Executed::Fail("Stack underflow");
            }
            let target = take(stack);
            assert(stack@ =~= old(stack)@.take(n - 1));
            Executed::Continue(Some(IRInstruction::Jump { target }))
        },
        _ => {
            if n < 2 {
                return Executed::Fail("Stack underflow");
            }
            let first = take(stack);
            let second = take(stack);
            assert(stack@ =~= old(stack)@.take(n - 2));
            match op {
                Opcode::JUMPI => Executed::Continue(
                    Some(IRInstruction::ConditionalJump { condition: second, target: first }),
                ),
                _ => Executed::Continue(None),
            }
        },
    }
}

/// Carries out MLOAD: the word at the offset that the top word gives takes
/// the top word's place.
fn execute_load(inst: &Instruction, stack: &mut Stack, memory: &Memory) -> (r: Executed)
    requires
        old(stack).wf(),
        memory.wf(),
        inst.opcode == Opcode::MLOAD,
    ensures
        final(stack).wf(),
        r == step_result(inst@, old(stack)@),
        final(stack)@ == step_stack(inst@, old(stack)@, memory@),
{
    let n = stack.len();
    if n < 1 {
        return Executed::Fail("Stack underflow");
    }
    let index = take(stack);
    let value = MyU256::from_be_bytes(memory.read_word(index.as_usize()));
    proof {
        lemma_word_of(value);
    }
    put(stack, value);
    assert(stack@ =~= old(stack)@.take(n - 1).push(value));
    Executed::Continue(
        Some(IRInstruction::MemoryLoad { offset: slot_word(n - 1), dest: slot_word(0) }),
    )
}

/// Carries out MSTORE: the second word from the top is written at the offset
/// that the top word gives.
fn execute_store(inst: &Instruction, stack: &mut Stack, memory: &mut Memory) -> (r: Executed)
    requires
        old(stack).wf(),
        old(memory).wf(),
        inst.opcode == Opcode::MSTORE,
    ensures
        final(stack).wf(),
        final(memory).wf(),
        r == step_result(inst@, old(stack)@),
        final(stack)@ == step_stack(inst@, old(stack)@, old(memory)@),
        final(memory)@ == step_memory(inst@, old(stack)@, old(memory)@),
{
    let n = stack.len();
    if n < 2 {
        return Executed::Fail("Stack underflow");
    }
    let at = match stack.peek() {
        Ok(w) => w.as_usize(),
        Err(_) => 0,
    };
    if at - at % 32 > usize::MAX - 32 {
        return Executed::Fail("U256 conversion");
    }
    let offset = take(stack);
    let value = take(stack);
    memory.write_word(offset.as_usize(), value.to_be_bytes());
    assert(stack@ =~= old(stack)@.take(n - 2));
    Executed::Continue(
        Some(IRInstruction::MemoryStore { offset: slot_word(n - 2), value: slot_word(0) }),
    )
}

/// Carries out one instruction on the models of the stack and the memory.
/// An instruction that is refused changes nothing.
pub fn execute(inst: &Instruction, stack: &mut Stack, memory: &mut Memory) -> (r: Executed)
    requires
        old(stack).wf(),
        old(memory).wf(),
        inst@.wf(),
    ensures
        final(stack).wf(),
        final(memory).wf(),
        r == step_result(inst@, old(stack)@),
        final(stack)@ == step_stack(inst@, old(stack)@, old(memory)@),
        final(memory)@ == step_memory(inst@, old(stack)@, old(memory)@),
{
    let op = inst.opcode;
    // The terms that the contracts of the helpers below are stated over.
    let ghost result = step_result(inst@, old(stack)@);
    let ghost stack_after = step_stack(inst@, old(stack)@, old(memory)@);
    match op {
        Opcode::STOP => Executed::Halt(IRInstruction::Stop),
        Opcode::ADD
        | Opcode::SUB
        | Opcode::MUL
        | Opcode::DIV
        | Opcode::MOD
        | Opcode::SMOD
        | Opcode::EXP
        | Opcode::LT
        | Opcode::GT
        | Opcode::SLT
        | Opcode::SGT
        | Opcode::EQ
        | Opcode::BYTE => execute_binary(op, stack),
        Opcode::ADDMOD | Opcode::MULMOD => execute_ternary(op, stack),
        Opcode::NOT | Opcode::POP => execute_unary(op, stack),
        Opcode::SHA3 | Opcode::JUMP | Opcode::JUMPI => execute_taking(op, stack),
        Opcode::MLOAD => execute_load(inst, stack, memory),
        Opcode::MSTORE => execute_store(inst, stack, memory),
        _ => {
            if op.is_push() {
                execute_push(inst, stack)
            } else {
                proof {
                    stack.lemma_len_bounded();
                    assert(stack@.take(stack@.len() as int) =~= stack@);
                }
                Executed::Continue(None)
            }
        },
    }
}

/// Symbolically executes a stream of instructions in order: each changes
/// the stack and the memory and may emit an operation. The run ends after
/// the last instruction or the first STOP. The first instruction that is
/// refused ends it with the reason, leaving the stack and the memory as
/// they were before that instruction.
pub fn generate_ir(instructions: &[Instruction], stack: &mut Stack, memory: &mut Memory) -> (r:
    Result<Vec<IRInstruction>, &'static str>)
    requires
        old(stack).wf(),
        old(memory).wf(),
        forall|k: int| 0 <= k < instructions@.len() ==> (#[trigger] instructions@[k])@.wf(),
    ensures
        final(stack).wf(),
        final(memory).wf(),
        ({
            let out = run(
                views(instructions@),
                0,
                old(stack)@,
                old(memory)@,
                Seq::<IRInstruction>::empty(),
            );
            &&& final(stack)@ == out.stack
            &&& final(memory)@ == out.memory
            &&& match r {
                Ok(ir) => out.error is None && ir@ == out.ir,
                Err(e) => out.error == Some(e),
            }
        }),
{
    let mut ir: Vec<IRInstruction> = Vec::new();
    let mut i: usize = 0;
    while i < instructions.len()
        invariant
            i <= instructions@.len(),
            stack.wf(),
            memory.wf(),
            forall|k: int| 0 <= k < instructions@.len() ==> (#[trigger] instructions@[k])@.wf(),
            run(
                views(instructions@),
                0,
                old(stack)@,
                old(memory)@,
                Seq::<IRInstruction>::empty(),
            ) == run(views(instructions@), i as int, stack@, memory@, ir@),
        decreases instructions@.len() - i,
    {
        let inst = &instructions[i];
        assert(views(instructions@)[i as int] == inst@);
        match execute(inst, stack, memory) {
            Executed::Continue(emitted) => {
                if let Some(e) = emitted {
                    ir.push(e);
                }
            },
            Executed::Halt(e) => {
                ir.push(e);
                return Ok(ir);
            },
            Executed::Fail(error) => {
                return Err(error);
            },
        }
        i += 1;
    }
    Ok(ir)
}

} // verus!
