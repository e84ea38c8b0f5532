use evm_riscv::allocator::SpillError;
use evm_riscv::decoder::{parse_bytecode, Instruction};
use evm_riscv::emitter::{generate_riscv, RiscVInstruction};
use evm_riscv::generator::{execute, generate_ir};
use evm_riscv::ir::{Executed, IRInstruction};
use evm_riscv::memory::Memory;
use evm_riscv::opcode::Opcode;
use evm_riscv::optimizer::optimize_ir;
use evm_riscv::stack::Stack;
use evm_riscv::word::MyU256;

fn word(n: u64) -> MyU256 {
    MyU256::from_u64(n)
}

fn max() -> MyU256 {
    MyU256::from_be_bytes([0xff; 32])
}

fn plain(opcode: Opcode) -> Instruction {
    Instruction { opcode, operand: None }
}

fn push1(b: u8) -> Instruction {
    Instruction { opcode: Opcode::PUSH1, operand: Some(vec![b]) }
}

fn push32(w: MyU256) -> Instruction {
    Instruction { opcode: Opcode::PUSH32, operand: Some(w.to_be_bytes().to_vec()) }
}

fn drain(stack: &mut Stack) -> Vec<MyU256> {
    let mut out = Vec::new();
    while let Ok(w) = stack.pop() {
        out.push(w);
    }
    out.reverse();
    out
}

fn run(instructions: &[Instruction]) -> (Vec<IRInstruction>, Vec<MyU256>) {
    let mut stack = Stack::new();
    let mut memory = Memory::new();
    let ir = generate_ir(instructions, &mut stack, &mut memory).unwrap();
    (ir, drain(&mut stack))
}

fn binary(op: Opcode, lower: MyU256, upper: MyU256) -> MyU256 {
    let (ir, stack) = run(&[push32(lower), push32(upper), plain(op)]);
    assert_eq!(ir.len(), 3);
    assert_eq!(stack.len(), 1);
    stack[0]
}

fn same(a: &IRInstruction, b: &IRInstruction) -> bool {
    format!("{:?}", a) == format!("{:?}", b)
}

#[test]
fn solidity_prologue() {
    let instructions = parse_bytecode(&[0x60, 0x80, 0x60, 0x40, 0x52]).unwrap();
    let mut stack = Stack::new();
    let mut memory = Memory::new();
    let ir = generate_ir(&instructions, &mut stack, &mut memory).unwrap();
    assert_eq!(ir.len(), 3);
    assert!(same(&ir[0], &IRInstruction::LoadConst { dest: word(0), value: word(0x80) }));
    assert!(same(&ir[1], &IRInstruction::LoadConst { dest: word(1), value: word(0x40) }));
    assert!(same(&ir[2], &IRInstruction::MemoryStore { offset: word(0), value: word(0) }));
    let mut expected = [0u8; 32];
    expected[31] = 0x80;
    assert_eq!(memory.read_word(0x40), expected);
    assert_eq!(memory.size(), 0x60);
    assert!(stack.is_empty());
}

#[test]
fn addition_scenario() {
    let instructions = parse_bytecode(&[0x60, 0x01, 0x60, 0x02, 0x01]).unwrap();
    let (ir, stack) = run(&instructions);
    assert_eq!(ir.len(), 3);
    assert!(same(
        &ir[2],
        &IRInstruction::BinaryOp { op: "add", dest: word(0), src1: word(0), src2: word(1) }
    ));
    assert_eq!(stack, vec![word(3)]);
}

#[test]
fn divide_by_zero_scenario() {
    let instructions = parse_bytecode(&[0x60, 0x00, 0x60, 0x0A, 0x04]).unwrap();
    let (ir, stack) = run(&instructions);
    assert_eq!(ir.len(), 3);
    assert_eq!(stack, vec![word(0)]);
    assert_eq!(binary(Opcode::DIV, word(10), word(0)), word(0));
    assert_eq!(binary(Opcode::MOD, word(10), word(0)), word(0));
    assert_eq!(binary(Opcode::SMOD, word(10), word(0)), word(0));
}

#[test]
fn binary_instructions_take_the_lower_word_first() {
    assert_eq!(binary(Opcode::ADD, max(), word(2)), word(1));
    assert_eq!(binary(Opcode::SUB, word(5), word(3)), word(2));
    assert_eq!(binary(Opcode::SUB, word(3), word(5)), max().sub(word(1)));
    assert_eq!(binary(Opcode::MUL, word(6), word(7)), word(42));
    assert_eq!(binary(Opcode::DIV, word(20), word(6)), word(3));
    assert_eq!(binary(Opcode::MOD, word(20), word(6)), word(2));
    assert_eq!(binary(Opcode::EXP, word(2), word(8)), word(256));
    assert_eq!(binary(Opcode::EXP, word(2), word(256)), word(0));
    assert_eq!(binary(Opcode::LT, word(1), word(2)), word(1));
    assert_eq!(binary(Opcode::LT, word(2), word(1)), word(0));
    assert_eq!(binary(Opcode::GT, word(2), word(1)), word(1));
    assert_eq!(binary(Opcode::GT, word(1), word(2)), word(0));
    assert_eq!(binary(Opcode::EQ, word(9), word(9)), word(1));
    assert_eq!(binary(Opcode::EQ, word(9), word(8)), word(0));
    assert_eq!(binary(Opcode::SLT, max(), word(0)), word(1));
    assert_eq!(binary(Opcode::SLT, word(0), max()), word(0));
    assert_eq!(binary(Opcode::SGT, word(0), max()), word(1));
    assert_eq!(binary(Opcode::SGT, max(), word(0)), word(0));
    assert_eq!(binary(Opcode::LT, max(), word(0)), word(0));
    let minus_seven = word(0).sub(word(7));
    assert_eq!(binary(Opcode::SMOD, minus_seven, word(3)), max());
    assert_eq!(binary(Opcode::SMOD, word(7), word(0).sub(word(3))), word(1));
    assert_eq!(binary(Opcode::BYTE, word(0xAB), word(31)), word(0xAB));
    assert_eq!(binary(Opcode::BYTE, word(0xAB), word(30)), word(0));
    assert_eq!(binary(Opcode::BYTE, max(), word(32)), word(0));
}

#[test]
fn binary_instructions_are_named_in_lower_case() {
    let cases = [
        (Opcode::ADD, "add"),
        (Opcode::SUB, "sub"),
        (Opcode::MUL, "mul"),
        (Opcode::DIV, "div"),
        (Opcode::MOD, "mod"),
        (Opcode::SMOD, "smod"),
        (Opcode::EXP, "exp"),
        (Opcode::LT, "lt"),
        (Opcode::GT, "gt"),
        (Opcode::SLT, "slt"),
        (Opcode::SGT, "sgt"),
        (Opcode::EQ, "eq"),
        (Opcode::BYTE, "byte"),
    ];
    for (opcode, name) in cases {
        let (ir, _) = run(&[push1(9), push1(1), push1(2), plain(opcode)]);
        assert!(same(
            &ir[3],
            &IRInstruction::BinaryOp { op: name, dest: word(1), src1: word(1), src2: word(2) }
        ));
    }
}

#[test]
fn ternary_instructions_reduce_without_wrapping() {
    let (ir, stack) = run(&[push32(max()), push1(2), push1(10), plain(Opcode::ADDMOD)]);
    assert_eq!(stack, vec![word(7)]);
    assert!(same(
        &ir[3],
        &IRInstruction::TernaryOp {
            op: "addmod",
            dest: word(0),
            src1: word(0),
            src2: word(1),
            src3: word(2),
        }
    ));
    let (ir, stack) = run(&[push1(1), push32(max()), push1(2), push1(10), plain(Opcode::MULMOD)]);
    assert_eq!(stack, vec![word(1), word(0)]);
    assert!(same(
        &ir[4],
        &IRInstruction::TernaryOp {
            op: "mulmod",
            dest: word(1),
            src1: word(1),
            src2: word(2),
            src3: word(3),
        }
    ));
    let (_, stack) = run(&[push1(5), push1(9), push1(0), plain(Opcode::ADDMOD)]);
    assert_eq!(stack, vec![word(0)]);
    let (_, stack) = run(&[push1(5), push1(9), push1(0), plain(Opcode::MULMOD)]);
    assert_eq!(stack, vec![word(0)]);
}

#[test]
fn not_and_pop_name_the_top_slot() {
    let (ir, stack) = run(&[push1(1), push1(0xf0), plain(Opcode::NOT)]);
    assert_eq!(stack, vec![word(1), word(0xf0).not()]);
    assert!(same(&ir[2], &IRInstruction::UnaryOp { op: "not", dest: word(1), src: word(1) }));
    let (ir, stack) = run(&[push1(1), push1(2), plain(Opcode::POP)]);
    assert_eq!(stack, vec![word(1)]);
    assert!(same(&ir[2], &IRInstruction::UnaryOp { op: "pop", dest: word(1), src: word(1) }));
}

#[test]
fn jumps_carry_the_words_they_take() {
    let (ir, stack) = run(&[push1(1), push1(0x2A), plain(Opcode::JUMP)]);
    assert_eq!(stack, vec![word(1)]);
    assert!(same(&ir[2], &IRInstruction::Jump { target: word(0x2A) }));
    let (ir, stack) = run(&[push1(1), push1(0x2A), plain(Opcode::JUMPI)]);
    assert!(stack.is_empty());
    assert!(same(
        &ir[2],
        &IRInstruction::ConditionalJump { condition: word(1), target: word(0x2A) }
    ));
}

#[test]
fn store_then_load_brings_the_word_back() {
    let instructions = [
        push32(max().sub(word(9))),
        push1(0x45),
        plain(Opcode::MSTORE),
        push1(0x5F),
        plain(Opcode::MLOAD),
    ];
    let (ir, stack) = run(&instructions);
    assert_eq!(stack, vec![max().sub(word(9))]);
    assert_eq!(ir.len(), 5);
    assert!(same(&ir[2], &IRInstruction::MemoryStore { offset: word(0), value: word(0) }));
    assert!(same(&ir[4], &IRInstruction::MemoryLoad { offset: word(0), dest: word(0) }));
    let (_, stack) = run(&[push1(0x60), plain(Opcode::MLOAD)]);
    assert_eq!(stack, vec![word(0)]);
}

#[test]
fn stop_ends_the_stream() {
    let (ir, stack) = run(&[push1(1), plain(Opcode::STOP), push1(2), plain(Opcode::ADD)]);
    assert_eq!(ir.len(), 2);
    assert!(same(&ir[1], &IRInstruction::Stop));
    assert_eq!(stack, vec![word(1)]);
    let (ir, _) = run(&[]);
    assert!(ir.is_empty());
}

#[test]
fn other_instructions_emit_nothing() {
    let others = [
        Opcode::SIGNEXTEND,
        Opcode::JUMPDEST,
        Opcode::DUP1,
        Opcode::SWAP1,
        Opcode::RETURN,
        Opcode::REVERT,
        Opcode::SLOAD,
        Opcode::CALL,
        Opcode::ISZERO,
        Opcode::AND,
    ];
    for opcode in others {
        let (ir, stack) = run(&[push1(1), push1(2), plain(opcode)]);
        assert_eq!(ir.len(), 2);
        assert_eq!(stack, vec![word(1), word(2)]);
    }
    let (ir, stack) = run(&[push1(1), push1(2), push1(3), plain(Opcode::SHA3)]);
    assert_eq!(ir.len(), 3);
    assert_eq!(stack, vec![word(1)]);
}

#[test]
fn too_few_words_is_an_underflow_and_changes_nothing() {
    let cases = [
        (Opcode::ADD, 1),
        (Opcode::BYTE, 1),
        (Opcode::ADDMOD, 2),
        (Opcode::NOT, 0),
        (Opcode::POP, 0),
        (Opcode::JUMP, 0),
        (Opcode::JUMPI, 1),
        (Opcode::MLOAD, 0),
        (Opcode::MSTORE, 1),
        (Opcode::SHA3, 1),
    ];
    for (opcode, have) in cases {
        let mut stack = Stack::new();
        let mut memory = Memory::new();
        for n in 0..have {
            stack.push(word(n)).unwrap();
        }
        let result = generate_ir(&[plain(opcode)], &mut stack, &mut memory);
        assert_eq!(result.unwrap_err(), "Stack underflow");
        assert_eq!(stack.len(), have as usize);
        assert_eq!(memory.size(), 0);
    }
}

#[test]
fn a_push_on_a_full_stack_is_an_overflow() {
    let mut stack = Stack::new();
    let mut memory = Memory::new();
    for n in 0..1024 {
        stack.push(word(n)).unwrap();
    }
    let result = generate_ir(&[push1(1)], &mut stack, &mut memory);
    assert_eq!(result.unwrap_err(), "Stack overflow");
    assert_eq!(stack.len(), 1024);
    let ir = generate_ir(&[plain(Opcode::ADD), push1(1)], &mut stack, &mut memory).unwrap();
    assert_eq!(ir.len(), 2);
    assert_eq!(stack.len(), 1024);
    assert!(same(&ir[1], &IRInstruction::LoadConst { dest: word(1023), value: word(1) }));
}

#[test]
fn a_store_past_the_addressable_range_is_refused() {
    let mut stack = Stack::new();
    let mut memory = Memory::new();
    let result = generate_ir(
        &[push1(1), push32(max()), plain(Opcode::MSTORE)],
        &mut stack,
        &mut memory,
    );
    assert_eq!(result.unwrap_err(), "U256 conversion");
    assert_eq!(stack.len(), 2);
    assert_eq!(memory.size(), 0);
}

#[test]
fn a_store_takes_its_offset_from_the_low_bits() {
    let mut stack = Stack::new();
    let mut memory = Memory::new();
    let offset = word(u64::MAX).add(word(0x41));
    generate_ir(&[push1(7), push32(offset), plain(Opcode::MSTORE)], &mut stack, &mut memory)
        .unwrap();
    assert_eq!(memory.read_word(0x40), word(7).to_be_bytes());
}

#[test]
fn execute_reports_how_an_instruction_ended() {
    let mut stack = Stack::new();
    let mut memory = Memory::new();
    assert!(matches!(
        execute(&push1(5), &mut stack, &mut memory),
        Executed::Continue(Some(IRInstruction::LoadConst { .. }))
    ));
    assert!(matches!(
        execute(&plain(Opcode::JUMPDEST), &mut stack, &mut memory),
        Executed::Continue(None)
    ));
    assert!(matches!(
        execute(&plain(Opcode::STOP), &mut stack, &mut memory),
        Executed::Halt(IRInstruction::Stop)
    ));
    assert!(matches!(
        execute(&plain(Opcode::ADD), &mut stack, &mut memory),
        Executed::Fail("Stack underflow")
    ));
    assert_eq!(stack.len(), 1);
}

#[test]
fn redundant_load_optimization() {
    let ir = [
        IRInstruction::LoadConst { dest: word(0), value: word(0x80) },
        IRInstruction::LoadConst { dest: word(1), value: word(0x80) },
        IRInstruction::BinaryOp { op: "add", dest: word(2), src1: word(0), src2: word(1) },
    ];
    let optimized = optimize_ir(&ir);
    assert_eq!(optimized.len(), 3);
    assert!(same(&optimized[0], &ir[0]));
    assert!(same(&optimized[1], &IRInstruction::UnaryOp { op: "mov", dest: word(1), src: word(0) }));
    assert!(same(&optimized[2], &ir[2]));
}

#[test]
fn a_run_of_equal_loads_moves_from_its_first() {
    let ir = [
        IRInstruction::LoadConst { dest: word(3), value: word(5) },
        IRInstruction::LoadConst { dest: word(4), value: word(5) },
        IRInstruction::LoadConst { dest: word(5), value: word(5) },
        IRInstruction::LoadConst { dest: word(6), value: word(6) },
        IRInstruction::LoadConst { dest: word(7), value: word(6) },
    ];
    let optimized = optimize_ir(&ir);
    assert_eq!(optimized.len(), 5);
    assert!(same(&optimized[0], &ir[0]));
    assert!(same(&optimized[1], &IRInstruction::UnaryOp { op: "mov", dest: word(4), src: word(3) }));
    assert!(same(&optimized[2], &IRInstruction::UnaryOp { op: "mov", dest: word(5), src: word(3) }));
    assert!(same(&optimized[3], &ir[3]));
    assert!(same(&optimized[4], &IRInstruction::UnaryOp { op: "mov", dest: word(7), src: word(6) }));
}

#[test]
fn any_other_operation_clears_the_remembered_load() {
    let ir = [
        IRInstruction::LoadConst { dest: word(0), value: word(5) },
        IRInstruction::Stop,
        IRInstruction::LoadConst { dest: word(1), value: word(5) },
        IRInstruction::LoadConst { dest: word(2), value: word(6) },
        IRInstruction::LoadConst { dest: word(3), value: word(5) },
    ];
    let optimized = optimize_ir(&ir);
    assert_eq!(optimized.len(), 5);
    for i in 0..5 {
        assert!(same(&optimized[i], &ir[i]));
    }
    assert!(optimize_ir(&[]).is_empty());
}

#[test]
fn emitter_lowers_loads_additions_and_jumps() {
    let ir = [
        IRInstruction::LoadConst { dest: word(0), value: word(0x80) },
        IRInstruction::LoadConst { dest: word(1), value: word(0x12345) },
        IRInstruction::BinaryOp { op: "add", dest: word(0), src1: word(0), src2: word(1) },
        IRInstruction::BinaryOp { op: "sub", dest: word(0), src1: word(0), src2: word(1) },
        IRInstruction::BinaryOp { op: "add", dest: word(2), src1: word(1), src2: word(3) },
        IRInstruction::Stop,
    ];
    let out = generate_riscv(&ir).unwrap();
    assert_eq!(
        out,
        vec![
            RiscVInstruction::LI { rd: 31, imm: 0x80 },
            RiscVInstruction::LI { rd: 30, imm: 0x2345 },
            RiscVInstruction::ADD { rd: 31, rs1: 31, rs2: 30 },
            RiscVInstruction::ADD { rd: 29, rs1: 30, rs2: 28 },
        ]
    );
}

#[test]
fn a_jump_offset_is_the_distance_to_its_label() {
    let ir = [
        IRInstruction::Jump { target: word(7) },
        IRInstruction::Stop,
        IRInstruction::Jump { target: word(9) },
        IRInstruction::Jump { target: word(7) },
    ];
    let out = generate_riscv(&ir).unwrap();
    assert_eq!(
        out,
        vec![
            RiscVInstruction::J { offset: 12 },
            RiscVInstruction::J { offset: 0 },
            RiscVInstruction::J { offset: 0 },
        ]
    );
    assert!(generate_riscv(&[]).unwrap().is_empty());
}

#[test]
fn the_emitter_signals_a_spill_for_the_eighteenth_slot() {
    let mut ir = Vec::new();
    for slot in 0..17 {
        ir.push(IRInstruction::LoadConst { dest: word(slot), value: word(1) });
    }
    assert_eq!(generate_riscv(&ir).unwrap().len(), 17);
    ir.push(IRInstruction::LoadConst { dest: word(3), value: word(2) });
    assert_eq!(generate_riscv(&ir).unwrap().len(), 18);
    ir.push(IRInstruction::LoadConst { dest: word(40), value: word(2) });
    assert_eq!(generate_riscv(&ir), Err(SpillError { stack_pos: 40 }));
}

#[test]
fn whole_pipeline_on_an_addition() {
    let instructions = parse_bytecode(&[0x60, 0x01, 0x60, 0x01, 0x01, 0x00]).unwrap();
    let mut stack = Stack::new();
    let mut memory = Memory::new();
    let ir = generate_ir(&instructions, &mut stack, &mut memory).unwrap();
    let optimized = optimize_ir(&ir);
    assert!(same(&optimized[1], &IRInstruction::UnaryOp { op: "mov", dest: word(1), src: word(0) }));
    let out = generate_riscv(&optimized).unwrap();
    assert_eq!(
        out,
        vec![
            RiscVInstruction::LI { rd: 31, imm: 1 },
            RiscVInstruction::ADD { rd: 31, rs1: 31, rs2: 30 },
        ]
    );
    assert_eq!(stack.pop(), Ok(word(2)));
}
