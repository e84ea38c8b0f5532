//! The RV64I emitter: a label pass over the intermediate representation,
//! then an emit pass that consults the register allocator.

use crate::allocator::{initial_view, AllocatorView, RegisterAllocator, SpillError};
use crate::ir::IRInstruction;
use crate::register::Register;
use crate::word::{be_value, lemma_be_split, lemma_radix_pow_values, MyU256};
use vstd::prelude::*;

verus! {

/// An instruction of the target, over register indices and immediates.
#[derive(Debug, Clone, Copy, PartialEq, Eq, Structural)]
pub enum RiscVInstruction {
    ADD { rd: usize, rs1: usize, rs2: usize },
    SUB { rd: usize, rs1: usize, rs2: usize },
    AND { rd: usize, rs1: usize, rs2: usize },
    OR { rd: usize, rs1: usize, rs2: usize },
    XOR { rd: usize, rs1: usize, rs2: usize },
    SLL { rd: usize, rs1: usize, rs2: usize },
    SRL { rd: usize, rs1: usize, rs2: usize },
    SRA { rd: usize, rs1: usize, rs2: usize },
    LW { rd: usize, rs1: usize, imm: i32 },
    SW { rs1: usize, rs2: usize, imm: i32 },
    LI { rd: usize, imm: i64 },
    J { offset: i32 },
    BEQ { rs1: usize, rs2: usize, offset: i32 },
    JAL { rd: usize, offset: i32 },
    JALR { rd: usize, rs1: usize, offset: i32 },
}

/// The most instructions that one translation takes: a jump's offset, four
/// bytes per instruction, has to fit in 32 bits.
pub const MAX_IR_LEN: usize = 0x1fff_ffff;

/// The label table of the first `n` operations: each jump's target with the
/// jump's position, in stream order.
pub open spec fn labels_of(ir: Seq<IRInstruction>, n: int) -> Seq<(MyU256, usize)>
    decreases n,
{
    if n <= 0 {
        Seq::empty()
    } else {
        match ir[n - 1] {
            IRInstruction::Jump { target } => labels_of(ir, n - 1).push((target, (n - 1) as usize)),
            _ => labels_of(ir, n - 1),
        }
    }
}

/// The position that the table gives for `target`: that of the last entry
/// for it.
pub open spec fn lookup(table: Seq<(MyU256, usize)>, target: MyU256) -> Option<usize>
    decreases table.len(),
{
    if table.len() == 0 {
        None
    } else if table.last().0 == target {
        Some(table.last().1)
    } else {
        lookup(table.drop_last(), target)
    }
}

/// The table holds every jump among the first `n` operations: the label of a
/// jump's target is the position of the last jump to that target, which is
/// the jump's own position or a later one.
pub proof fn lemma_label_of_jump(ir: Seq<IRInstruction>, n: int, i: int)
    requires
        0 <= i < n <= ir.len(),
        n <= usize::MAX,
        ir[i] is Jump,
    ensures
        lookup(labels_of(ir, n), ir[i]->Jump_target) is Some,
        i <= lookup(labels_of(ir, n), ir[i]->Jump_target)->Some_0 < n,
    decreases n,
{
    let t = ir[i]->Jump_target;
    match ir[n - 1] {
        IRInstruction::Jump { target } => {
            let table = labels_of(ir, n);
            assert(table.last() == (target, (n - 1) as usize));
            assert(table.drop_last() =~= labels_of(ir, n - 1));
            if target != t {
                lemma_label_of_jump(ir, n - 1, i);
            }
        },
        _ => {
            lemma_label_of_jump(ir, n - 1, i);
        },
    }
}

/// The register of a slot, with the allocator after the request; the spill
/// signal for the slot where no register is left.
pub open spec fn acquire(alloc: AllocatorView, slot: usize) -> Result<
    (AllocatorView, Register),
    SpillError,
> {
    match alloc.register_for(slot) {
        Some(reg) => Ok((alloc.get_register(slot), reg)),
        None => Err(SpillError { stack_pos: slot }),
    }
}

/// The slot that a word of the intermediate representation names.
pub open spec fn slot_of(w: MyU256) -> usize {
    w.truncated() as usize
}

/// What the emit pass makes of operation `i`, given the allocator as it then
/// is: the allocator afterwards and the instruction emitted, if any, or the
/// spill signal that ends the pass. An addition takes the registers of its
/// destination and its two sources, requested in that order. A constant load
/// takes the register of its destination and the low 16 bits of the value. A
/// jump needs no register: its offset is the distance to its label in bytes.
/// Every other operation emits nothing.
pub open spec fn emit_one(ir: Seq<IRInstruction>, i: int, alloc: AllocatorView) -> Result<
    (AllocatorView, Option<RiscVInstruction>),
    SpillError,
> {
    match ir[i] {
        IRInstruction::BinaryOp { op, dest, src1, src2 } => if op@ == "add"@ {
            match acquire(alloc, slot_of(dest)) {
                Err(e) => Err(e),
                Ok((a1, rd)) => match acquire(a1, slot_of(src1)) {
                    Err(e) => Err(e),
                    Ok((a2, rs1)) => match acquire(a2, slot_of(src2)) {
                        Err(e) => Err(e),
                        Ok((a3, rs2)) => Ok(
                            (
                                a3,
                                Some(
                                    RiscVInstruction::ADD {
                                        rd: rd.index() as usize,
                                        rs1: rs1.index() as usize,
                                        rs2: rs2.index() as usize,
                                    },
                                ),
                            ),
                        ),
                    },
                },
            }
        } else {
            Ok((alloc, None))
        },
        IRInstruction::LoadConst { dest, value } => match acquire(alloc, slot_of(dest)) {
            Err(e) => Err(e),
            Ok((a1, rd)) => Ok(
                (
                    a1,
                    Some(
                        RiscVInstruction::LI {
                            rd: rd.index() as usize,
                            imm: (value.value() % 0x10000) as i64,
                        },
                    ),
                ),
            ),
        },
        IRInstruction::Jump { target } => match lookup(labels_of(ir, ir.len() as int), target) {
            Some(label) => Ok(
                (alloc, Some(RiscVInstruction::J { offset: ((label - i) * 4) as i32 })),
            ),
            None => Ok((alloc, None)),
        },
        _ => Ok((alloc, None)),
    }
}

/// The emit pass from operation `i` on.
pub open spec fn emit_from(
    ir: Seq<IRInstruction>,
    i: int,
    alloc: AllocatorView,
    out: Seq<RiscVInstruction>,
) -> Result<Seq<RiscVInstruction>, SpillError>
    decreases ir.len() - i,
{
    if i < 0 || i >= ir.len() {
        Ok(out)
    } else {
        match emit_one(ir, i, alloc) {
            Err(e) => Err(e),
            Ok((next, emitted)) => emit_from(
                ir,
                i + 1,
                next,
                match emitted {
                    Some(inst) => out.push(inst),
                    None => out,
                },
            ),
        }
    }
}

/// The label pass: every jump's target with the jump's position.
fn collect_labels(ir: &[IRInstruction]) -> (table: Vec<(MyU256, usize)>)
    ensures
        table@ == labels_of(ir@, ir@.len() as int),
{
    let mut table: Vec<(MyU256, usize)> = Vec::new();
    let mut i: usize = 0;
    while i < ir.len()
        invariant
            i <= ir@.len(),
            table@ == labels_of(ir@, i as int),
        decreases ir@.len() - i,
    {
        if let IRInstruction::Jump { target } = ir[i] {
            table.push((target, i));
        }
        i += 1;
    }
    table
}

/// The position that the table gives for `target`.
fn find_label(table: &Vec<(MyU256, usize)>, target: &MyU256) -> (r: Option<usize>)
    ensures
        r == lookup(table@, *target),
{
    let mut n: usize = table.len();
    assert(table@.take(n as int) =~= table@);
    while n > 0
        invariant
            n <= table@.len(),
            lookup(table@, *target) == lookup(table@.take(n as int), *target),
        decreases n,
    {
        let entry = table[n - 1];
        assert(table@.take(n as int).last() == entry);
        assert(table@.take(n as int).drop_last() =~= table@.take(n - 1));
        if entry.0 == *target {
            return Some(entry.1);
        }
        n -= 1;
    }
    None
}

/// The register index of a slot, requested from the allocator.
fn register_of(alloc: &mut RegisterAllocator, slot: &MyU256) -> (r: Result<usize, SpillError>)
    requires
        old(alloc)@.wf(),
    ensures
        final(alloc)@.wf(),
        match acquire(old(alloc)@, slot_of(*slot)) {
            Ok((next, reg)) => final(alloc)@ == next && r == Ok::<usize, SpillError>(
                reg.index() as usize,
            ),
            Err(e) => r == Err::<usize, SpillError>(e),
        },
{
    match alloc.get_register(slot.as_usize()) {
        Ok(reg) => Ok(reg.raw() as usize),
        Err(e) => Err(e),
    }
}

/// The low 16 bits of a word.
fn low_16(value: &MyU256) -> (r: i64)
    ensures
        r == value.value() % 0x10000,
{
    proof {
        let s = value.bytes@;
        lemma_radix_pow_values();
        lemma_be_split(s, 30);
        let low = s.subrange(30, 32);
        assert(low.drop_last().drop_last().len() == 0);
        assert(be_value(low.drop_last()) == be_value(low.drop_last().drop_last()) * 256
            + low.drop_last().last());
        assert(be_value(low) == s[30] * 256 + s[31]);
        let hi = be_value(s.subrange(0, 30));
        let l = be_value(low);
        assert(crate::word::radix_pow(2) == 0x10000) by {
            reveal_with_fuel(crate::word::radix_pow, 3);
        }
        assert((hi * 0x10000 + l) % 0x10000 == l) by (nonlinear_arith)
            requires
                0 <= l < 0x10000,
        ;
    }
    value.bytes[30] as i64 * 256 + value.bytes[31] as i64
}

/// Lowers the intermediate representation to RV64I. A first pass collects
/// the label of every jump target; a second emits, operation by operation,
/// with registers from a fresh allocator. The first slot that finds no
/// register free ends the translation with the spill signal.
pub fn generate_riscv(ir: &[IRInstruction]) -> (r: Result<Vec<RiscVInstruction>, SpillError>)
    requires
        ir@.len() <= MAX_IR_LEN,
    ensures
        match emit_from(ir@, 0, initial_view(), Seq::<RiscVInstruction>::empty()) {
            Ok(out) => r is Ok && r->Ok_0@ == out,
            Err(e) => r == Err::<Vec<RiscVInstruction>, SpillError>(e),
        },
{
    let labels = collect_labels(ir);
    let mut alloc = RegisterAllocator::new();
    let mut riscv: Vec<RiscVInstruction> = Vec::new();
    let mut i: usize = 0;
    while i < ir.len()
        invariant
            i <= ir@.len() <= MAX_IR_LEN,
            alloc@.wf(),
            labels@ == labels_of(ir@, ir@.len() as int),
            emit_from(ir@, 0, initial_view(), Seq::<RiscVInstruction>::empty()) == emit_from(
                ir@,
                i as int,
                alloc@,
                riscv@,
            ),
        decreases ir@.len() - i,
    {
        match ir[i] {
            IRInstruction::BinaryOp { op, dest, src1, src2 } => {
                if same_text(op, "add") {
                    let rd = match register_of(&mut alloc, &dest) {
                        Ok(x) => x,
                        Err(e) => {
                            return Err(e);
                        },
                    };
                    let rs1 = match register_of(&mut alloc, &src1) {
                        Ok(x) => x,
                        Err(e) => {
                            return Err(e);
                        },
                    };
                    let rs2 = match register_of(&mut alloc, &src2) {
                        Ok(x) => x,
                        Err(e) => {
                            return Err(e);
                        },
                    };
                    riscv.push(RiscVInstruction::ADD { rd, rs1, rs2 });
                }
            },
            IRInstruction::LoadConst { dest, value } => {
                let rd = match register_of(&mut alloc, &dest) {
                    Ok(x) => x,
                    Err(e) => {
                        return Err(e);
                    },
                };
                riscv.push(RiscVInstruction::LI { rd, imm: low_16(&value) });
            },
            IRInstruction::Jump { target } => {
                proof {
                    lemma_label_of_jump(ir@, ir@.len() as int, i as int);
                }
                if let Some(label) = find_label(&labels, &target) {
                    let offset = ((label - i) * 4) as i32;
                    riscv.push(RiscVInstruction::J { offset });
                }
            },
            _ => {},
        }
        i += 1;
    }
    Ok(riscv)
}

/// Calls `==` of std on two string slices, which holds exactly where the
/// two hold the same characters.
#[verifier::external_body]
fn same_text(a: &str, b: &str) -> (r: bool)
    ensures
        r == (a@ == b@),
{
    a == b
}

} // verus!
