use evm_riscv::decoder::{pad_left, parse_bytecode, parse_push_operand, Instruction};
use evm_riscv::generator::generate_ir;
use evm_riscv::ir::IRInstruction;
use evm_riscv::memory::Memory;
use evm_riscv::opcode::Opcode;
use evm_riscv::stack::Stack;
use evm_riscv::word::MyU256;

#[test]
fn test_parse_bytecode() {
    let bytecode = vec![0x60, 0x80, 0x60, 0x40, 0x52];
    let instructions = parse_bytecode(&bytecode).unwrap();

    assert_eq!(instructions.len(), 3);
    assert_eq!(instructions[0].opcode, Opcode::PUSH1);
    assert_eq!(instructions[0].operand, Some(vec![0x80]));
    assert_eq!(instructions[1].opcode, Opcode::PUSH1);
    assert_eq!(instructions[1].operand, Some(vec![0x40]));
    assert_eq!(instructions[2].opcode, Opcode::MSTORE);
    assert_eq!(instructions[2].operand, None);
}

#[test]
fn test_generate_ir() {
    let instructions = vec![
        Instruction { opcode: Opcode::PUSH1, operand: Some(vec![0x80]) },
        Instruction { opcode: Opcode::PUSH1, operand: Some(vec![0x40]) },
        Instruction { opcode: Opcode::ADD, operand: None },
    ];

    let ir = generate_ir(&instructions, &mut Stack::new(), &mut Memory::new()).unwrap();

    assert_eq!(ir.len(), 3);
    match &ir[0] {
        IRInstruction::LoadConst { dest, value } => {
            assert_eq!(*dest, MyU256::from_u64(0));
            assert_eq!(*value, MyU256::from_u64(0x80));
        }
        _ => panic!("Expected LoadConst"),
    }
    match &ir[1] {
        IRInstruction::LoadConst { dest, value } => {
            assert_eq!(*dest, MyU256::from_u64(1));
            assert_eq!(*value, MyU256::from_u64(0x40));
        }
        _ => panic!("Expected LoadConst"),
    }
    match &ir[2] {
        IRInstruction::BinaryOp { op, dest, src1, src2 } => {
            assert_eq!(*op, "add");
            assert_eq!(*dest, MyU256::from_u64(0));
            assert_eq!(*src1, MyU256::from_u64(0));
            assert_eq!(*src2, MyU256::from_u64(1));
        }
        _ => panic!("Expected BinaryOp"),
    }
}

#[test]
fn decodes_every_push_with_its_immediate() {
    for n in 1..=32u8 {
        let mut bytecode = vec![0x5F + n];
        for k in 0..n {
            bytecode.push(k + 1);
        }
        bytecode.push(0x00);
        let instructions = parse_bytecode(&bytecode).unwrap();
        assert_eq!(instructions.len(), 2);
        assert_eq!(instructions[0].opcode.to_byte(), 0x5F + n);
        assert_eq!(instructions[0].operand.as_ref().unwrap().len(), n as usize);
        assert_eq!(instructions[0].operand.as_ref().unwrap()[0], 1);
        assert_eq!(instructions[1].opcode, Opcode::STOP);
        assert_eq!(instructions[1].operand, None);
    }
}

#[test]
fn decoding_then_encoding_gives_the_bytes_back() {
    let bytecode = vec![0x60, 0x01, 0x61, 0xAB, 0xCD, 0x01, 0x80, 0x90, 0x5B, 0xFD, 0x00];
    let instructions = parse_bytecode(&bytecode).unwrap();
    assert_eq!(instructions.len(), 8);
    let mut encoded = Vec::new();
    for inst in &instructions {
        encoded.push(inst.opcode.to_byte());
        if let Some(operand) = &inst.operand {
            assert!(inst.opcode.is_push());
            assert_eq!(operand.len(), inst.opcode.push_size());
            encoded.extend_from_slice(operand);
        } else {
            assert!(!inst.opcode.is_push());
        }
    }
    assert_eq!(encoded, bytecode);
}

#[test]
fn empty_bytecode_decodes_to_nothing() {
    assert_eq!(parse_bytecode(&[]).unwrap().len(), 0);
}

#[test]
fn unassigned_byte_is_an_invalid_opcode() {
    assert_eq!(parse_bytecode(&[0x01, 0x0C]).unwrap_err(), "Invalid opcode");
    assert_eq!(parse_bytecode(&[0x5F]).unwrap_err(), "Invalid opcode");
    assert_eq!(parse_bytecode(&[0xEF]).unwrap_err(), "Invalid opcode");
}

#[test]
fn truncated_push_is_refused() {
    assert_eq!(parse_bytecode(&[0x60]).unwrap_err(), "Unexpected end of bytecode");
    assert_eq!(parse_bytecode(&[0x61, 0x01]).unwrap_err(), "Unexpected end of bytecode");
    let mut long = vec![0x7F];
    long.extend_from_slice(&[0u8; 31]);
    assert_eq!(parse_bytecode(&long).unwrap_err(), "Unexpected end of bytecode");
    long.push(0);
    assert_eq!(parse_bytecode(&long).unwrap().len(), 1);
}

#[test]
fn the_first_failure_in_stream_order_is_reported() {
    assert_eq!(parse_bytecode(&[0x0C, 0x60]).unwrap_err(), "Invalid opcode");
    assert_eq!(parse_bytecode(&[0x61, 0x0C]).unwrap_err(), "Unexpected end of bytecode");
}

#[test]
fn push_operand_moves_the_index() {
    let bytecode = [0x61, 0xAB, 0xCD, 0x00];
    let mut index = 1usize;
    let operand = parse_push_operand(&bytecode, &mut index, 2).unwrap();
    assert_eq!(operand, Some(vec![0xAB, 0xCD]));
    assert_eq!(index, 3);
    let refused = parse_push_operand(&bytecode, &mut index, 2);
    assert_eq!(refused.unwrap_err(), "Unexpected end of bytecode");
    assert_eq!(index, 3);
}

#[test]
fn pad_left_puts_the_bytes_at_the_end() {
    let padded = pad_left(&[0xAB, 0xCD]);
    let mut expected = [0u8; 32];
    expected[30] = 0xAB;
    expected[31] = 0xCD;
    assert_eq!(padded, expected);
    assert_eq!(pad_left(&[]), [0u8; 32]);
    assert_eq!(pad_left(&[7u8; 32]), [7u8; 32]);
}

#[test]
fn default_instruction_is_stop() {
    let inst = Instruction::default();
    assert_eq!(inst.opcode, Opcode::STOP);
    assert_eq!(inst.operand, None);
}

#[test]
fn opcode_table_is_a_bijection_on_assigned_bytes() {
    let mut assigned = 0;
    for b in 0..=255u8 {
        match Opcode::try_from(b) {
            Ok(op) => {
                assigned += 1;
                assert_eq!(op.to_byte(), b);
                assert_eq!(op.is_push(), (0x60..=0x7F).contains(&b));
            }
            Err(e) => assert_eq!(e, "Invalid opcode"),
        }
    }
    assert_eq!(assigned, 143);
    assert_eq!(Opcode::try_from(0x00).unwrap(), Opcode::STOP);
    assert_eq!(Opcode::try_from(0x0A).unwrap(), Opcode::EXP);
    assert_eq!(Opcode::try_from(0x51).unwrap(), Opcode::MLOAD);
    assert_eq!(Opcode::try_from(0x5B).unwrap(), Opcode::JUMPDEST);
    assert_eq!(Opcode::try_from(0x7F).unwrap(), Opcode::PUSH32);
    assert_eq!(Opcode::try_from(0x8F).unwrap(), Opcode::DUP16);
    assert_eq!(Opcode::try_from(0x9F).unwrap(), Opcode::SWAP16);
    assert_eq!(Opcode::try_from(0xFD).unwrap(), Opcode::REVERT);
    assert_eq!(Opcode::PUSH1.push_size(), 1);
    assert_eq!(Opcode::PUSH32.push_size(), 32);
    assert_eq!(Opcode::ADD.push_size(), 0);
}
