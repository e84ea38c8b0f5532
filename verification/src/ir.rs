//! The intermediate representation and what each instruction means: how it
//! changes the stack and the memory, and what it emits.

use crate::decoder::InstructionView;
use crate::memory::MemoryView;
use crate::opcode::{is_push_byte, Opcode};
use crate::signed::{signed_of, signed_rem, unsigned_of};
use crate::stack::STACK_SIZE;
use crate::word::{
    be_value, modulus, spec_div, spec_rem, word_of, wrap_add, wrap_mul, wrap_pow, wrap_sub, MyU256,
};
use vstd::prelude::*;

verus! {

/// An operation of the intermediate representation. `dest` and the sources
/// are words that name stack slots, counted from the bottom.
#[derive(Debug, Clone, Copy)]
pub enum IRInstruction {
    BinaryOp { op: &'static str, dest: MyU256, src1: MyU256, src2: MyU256 },
    UnaryOp { op: &'static str, dest: MyU256, src: MyU256 },
    TernaryOp { op: &'static str, dest: MyU256, src1: MyU256, src2: MyU256, src3: MyU256 },
    LoadConst { dest: MyU256, value: MyU256 },
    MemoryLoad { offset: MyU256, dest: MyU256 },
    MemoryStore { offset: MyU256, value: MyU256 },
    Jump { target: MyU256 },
    ConditionalJump { condition: MyU256, target: MyU256 },
    Call { target: MyU256 },
    Stop,
    Return,
}

/// How the execution of one instruction ended.
#[derive(Debug, Clone, Copy)]
pub enum Executed {
    /// The instruction was carried out; it may have emitted an operation.
    Continue(Option<IRInstruction>),
    /// The instruction ends the stream, after emitting an operation.
    Halt(IRInstruction),
    /// The instruction was refused and changed nothing.
    Fail(&'static str),
}

/// One for a condition that holds, zero for one that does not.
pub open spec fn truth(b: bool) -> nat {
    if b {
        1
    } else {
        0
    }
}

/// Whether the instruction takes two words and leaves one.
pub open spec fn is_binary(op: Opcode) -> bool {
    matches!(
        op,
        Opcode::ADD | Opcode::SUB | Opcode::MUL | Opcode::DIV | Opcode::MOD | Opcode::SMOD
            | Opcode::EXP | Opcode::LT | Opcode::GT | Opcode::SLT | Opcode::SGT | Opcode::EQ
            | Opcode::BYTE
    )
}

/// Whether the instruction takes three words and leaves one.
pub open spec fn is_ternary(op: Opcode) -> bool {
    matches!(op, Opcode::ADDMOD | Opcode::MULMOD)
}

/// The name under which an instruction appears in the operation it emits.
pub open spec fn op_name(op: Opcode) -> &'static str {
    match op {
        Opcode::ADD => "add",
        Opcode::SUB => "sub",
        Opcode::MUL => "mul",
        Opcode::DIV => "div",
        Opcode::MOD => "mod",
        Opcode::SMOD => "smod",
        Opcode::ADDMOD => "addmod",
        Opcode::MULMOD => "mulmod",
        Opcode::EXP => "exp",
        Opcode::LT => "lt",
        Opcode::GT => "gt",
        Opcode::SLT => "slt",
        Opcode::SGT => "sgt",
        Opcode::EQ => "eq",
        Opcode::BYTE => "byte",
        Opcode::NOT => "not",
        Opcode::POP => "pop",
        _ => "",
    }
}

/// The number a binary instruction leaves, for `a` the lower and `b` the
/// upper of the two words it takes.
pub open spec fn binary_result(op: Opcode, a: MyU256, b: MyU256) -> nat {
    let x = a.value();
    let y = b.value();
    match op {
        Opcode::ADD => wrap_add(x, y),
        Opcode::SUB => wrap_sub(x, y),
        Opcode::MUL => wrap_mul(x, y),
        Opcode::DIV => spec_div(x, y),
        Opcode::MOD => spec_rem(x, y),
        Opcode::SMOD => unsigned_of(signed_rem(signed_of(x), signed_of(y))),
        Opcode::EXP => wrap_pow(x, y),
        Opcode::LT => truth(x < y),
        Opcode::GT => truth(x > y),
        Opcode::SLT => truth(signed_of(x) < signed_of(y)),
        Opcode::SGT => truth(signed_of(x) > signed_of(y)),
        Opcode::EQ => truth(x == y),
        Opcode::BYTE => if y < 32 {
            a.bytes[y as int] as nat
        } else {
            0
        },
        _ => 0,
    }
}

/// The number a ternary instruction leaves, for `a` the lowest and `n` the
/// uppermost of the three words it takes: the sum or product of `a` and `b`,
/// taken without wrapping, reduced by `n`; zero where `n` is zero.
pub open spec fn ternary_result(op: Opcode, a: MyU256, b: MyU256, n: MyU256) -> nat {
    if n.value() == 0 {
        0
    } else if op == Opcode::ADDMOD {
        (a.value() + b.value()) % n.value()
    } else {
        (a.value() * b.value()) % n.value()
    }
}

/// The number of words an instruction takes off the stack.
pub open spec fn pops(op: Opcode) -> nat {
    if is_ternary(op) {
        3
    } else if is_binary(op) || op == Opcode::SHA3 || op == Opcode::JUMPI || op == Opcode::MSTORE {
        2
    } else if op == Opcode::NOT || op == Opcode::POP || op == Opcode::JUMP || op == Opcode::MLOAD {
        1
    } else {
        0
    }
}

/// The word that names stack slot `k`.
pub open spec fn slot(k: int) -> MyU256 {
    word_of(k as nat)
}

/// Why an instruction is refused in a given state, if it is: too few words
/// on the stack, no room for the word a push brings, or a store to an offset
/// whose word would end beyond the addressable range.
pub open spec fn refusal(inst: InstructionView, stack: Seq<MyU256>) -> Option<&'static str> {
    let op = inst.opcode;
    if stack.len() < pops(op) {
        Some("Stack underflow")
    } else if is_push_byte(op.byte()) && stack.len() >= STACK_SIZE {
        Some("Stack overflow")
    } else if op == Opcode::MSTORE && stack.last().truncated() - stack.last().truncated() % 32
        + 32 > usize::MAX {
        Some("U256 conversion")
    } else {
        None
    }
}

/// The stack after an instruction. One that is refused leaves it as it was.
/// An operation takes its operands off and puts its result in their place:
/// of two operands the lower is the first, so SUB leaves lower - upper. A
/// load replaces the offset on top by the word read at it. SHA3 takes two
/// words and leaves nothing.
pub open spec fn step_stack(inst: InstructionView, stack: Seq<MyU256>, memory: MemoryView) -> Seq<
    MyU256,
> {
    let op = inst.opcode;
    let n = stack.len() as int;
    if refusal(inst, stack) is Some || op == Opcode::STOP {
        stack
    } else if is_binary(op) {
        stack.take(n - 2).push(word_of(binary_result(op, stack[n - 2], stack[n - 1])))
    } else if is_ternary(op) {
        stack.take(n - 3).push(
            word_of(ternary_result(op, stack[n - 3], stack[n - 2], stack[n - 1])),
        )
    } else if op == Opcode::NOT {
        stack.take(n - 1).push(word_of((modulus() - 1 - stack[n - 1].value()) as nat))
    } else if op == Opcode::MLOAD {
        stack.take(n - 1).push(word_of(be_value(memory.read(stack[n - 1].truncated()))))
    } else if is_push_byte(op.byte()) {
        stack.push(word_of(be_value(inst.operand->Some_0)))
    } else {
        stack.take(n - pops(op))
    }
}

/// The memory after an instruction that is not refused: changed by a store
/// alone, which writes the second word from the top at the offset that the
/// top word gives.
pub open spec fn step_memory(
    inst: InstructionView,
    stack: Seq<MyU256>,
    memory: MemoryView,
) -> MemoryView {
    let n = stack.len() as int;
    if refusal(inst, stack) is None && inst.opcode == Opcode::MSTORE {
        memory.write(stack[n - 1].truncated(), stack[n - 2].bytes@)
    } else {
        memory
    }
}

/// How an instruction ends and what it emits. Slots are named by the height
/// of the stack before the instruction: an operation that takes n words
/// writes slot height - n and reads the slots it takes, lowest first. A push
/// loads its immediate into the slot above the top. A jump carries the words
/// it takes: the top word is the target, and for a conditional jump the word
/// below it is the condition. A load and a store name the slot that remains
/// on top after them as their offset, and slot zero as their other operand.
/// Every other instruction emits nothing.
pub open spec fn step_result(inst: InstructionView, stack: Seq<MyU256>) -> Executed {
    let op = inst.opcode;
    let n = stack.len() as int;
    if refusal(inst, stack) is Some {
        Executed::Fail(refusal(inst, stack)->Some_0)
    } else if op == Opcode::STOP {
        Executed::Halt(IRInstruction::Stop)
    } else if is_binary(op) {
        Executed::Continue(
            Some(
                IRInstruction::BinaryOp {
                    op: op_name(op),
                    dest: slot(n - 2),
                    src1: slot(n - 2),
                    src2: slot(n - 1),
                },
            ),
        )
    } else if is_ternary(op) {
        Executed::Continue(
            Some(
                IRInstruction::TernaryOp {
                    op: op_name(op),
                    dest: slot(n - 3),
                    src1: slot(n - 3),
                    src2: slot(n - 2),
                    src3: slot(n - 1),
                },
            ),
        )
    } else if op == Opcode::NOT || op == Opcode::POP {
        Executed::Continue(
            Some(IRInstruction::UnaryOp { op: op_name(op), dest: slot(n - 1), src: slot(n - 1) }),
        )
    } else if is_push_byte(op.byte()) {
        Executed::Continue(
            Some(
                IRInstruction::LoadConst {
                    dest: slot(n),
                    value: word_of(be_value(inst.operand->Some_0)),
                },
            ),
        )
    } else if op == Opcode::JUMP {
        Executed::Continue(Some(IRInstruction::Jump { target: stack[n - 1] }))
    } else if op == Opcode::JUMPI {
        Executed::Continue(
            Some(IRInstruction::ConditionalJump { condition: stack[n - 2], target: stack[n - 1] }),
        )
    } else if op == Opcode::MLOAD {
        Executed::Continue(Some(IRInstruction::MemoryLoad { offset: slot(n - 1), dest: slot(0) }))
    } else if op == Opcode::MSTORE {
        Executed::Continue(Some(IRInstruction::MemoryStore { offset: slot(n - 2), value: slot(0) }))
    } else {
        Executed::Continue(None)
    }
}

/// What a run over a stream of instructions leaves behind.
pub struct Outcome {
    pub stack: Seq<MyU256>,
    pub memory: MemoryView,
    pub ir: Seq<IRInstruction>,
    pub error: Option<&'static str>,
}

/// The run from instruction `i` on, in stream order: it ends after the last
/// instruction, after the first STOP, or before the first instruction that is
/// refused, whose reason it then holds.
pub open spec fn run(
    instructions: Seq<InstructionView>,
    i: int,
    stack: Seq<MyU256>,
    memory: MemoryView,
    ir: Seq<IRInstruction>,
) -> Outcome
    decreases instructions.len() - i,
{
    if i < 0 || i >= instructions.len() {
        Outcome { stack, memory, ir, error: None }
    } else {
        match step_result(instructions[i], stack) {
            Executed::Continue(emitted) => run(
                instructions,
                i + 1,
                step_stack(instructions[i], stack, memory),
                step_memory(instructions[i], stack, memory),
                match emitted {
                    Some(e) => ir.push(e),
                    None => ir,
                },
            ),
            Executed::Halt(e) => Outcome { stack, memory, ir: ir.push(e), error: None },
            Executed::Fail(error) => Outcome { stack, memory, ir, error: Some(error) },
        }
    }
}

} // verus!
