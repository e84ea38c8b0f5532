//! The opcode table: the Cancun instruction set and its encoding.

use vstd::prelude::*;
use vstd::std_specs::convert::TryFromSpecImpl;

verus! {

/// An EVM instruction. Each has one byte that encodes it.
#[allow(non_camel_case_types)]
#[derive(Clone, Copy, Debug, PartialEq, Eq, Structural)]
pub enum Opcode {
    STOP,
    ADD,
    MUL,
    SUB,
    DIV,
    SDIV,
    MOD,
    SMOD,
    ADDMOD,
    MULMOD,
    EXP,
    SIGNEXTEND,
    LT,
    GT,
    SLT,
    SGT,
    EQ,
    ISZERO,
    AND,
    OR,
    XOR,
    NOT,
    BYTE,
    SHL,
    SHR,
    SAR,
    SHA3,
    ADDRESS,
    BALANCE,
    BASEFEE,
    ORIGIN,
    CALLER,
    CALLVALUE,
    CALLDATALOAD,
    CALLDATASIZE,
    CALLDATACOPY,
    CODESIZE,
    CODECOPY,
    GASPRICE,
    EXTCODESIZE,
    EXTCODECOPY,
    RETURNDATASIZE,
    RETURNDATACOPY,
    EXTCODEHASH,
    BLOCKHASH,
    COINBASE,
    TIMESTAMP,
    NUMBER,
    GASLIMIT,
    CHAINID,
    SELFBALANCE,
    POP,
    MLOAD,
    MSTORE,
    MSTORE8,
    SLOAD,
    SSTORE,
    JUMP,
    JUMPI,
    PC,
    MSIZE,
    GAS,
    JUMPDEST,
    PUSH1,
    PUSH2,
    PUSH3,
    PUSH4,
    PUSH5,
    PUSH6,
    PUSH7,
    PUSH8,
    PUSH9,
    PUSH10,
    PUSH11,
    PUSH12,
    PUSH13,
    PUSH14,
    PUSH15,
    PUSH16,
    PUSH17,
    PUSH18,
    PUSH19,
    PUSH20,
    PUSH21,
    PUSH22,
    PUSH23,
    PUSH24,
    PUSH25,
    PUSH26,
    PUSH27,
    PUSH28,
    PUSH29,
    PUSH30,
    PUSH31,
    PUSH32,
    DUP1,
    DUP2,
    DUP3,
    DUP4,
    DUP5,
    DUP6,
    DUP7,
    DUP8,
    DUP9,
    DUP10,
    DUP11,
    DUP12,
    DUP13,
    DUP14,
    DUP15,
    DUP16,
    SWAP1,
    SWAP2,
    SWAP3,
    SWAP4,
    SWAP5,
    SWAP6,
    SWAP7,
    SWAP8,
    SWAP9,
    SWAP10,
    SWAP11,
    SWAP12,
    SWAP13,
    SWAP14,
    SWAP15,
    SWAP16,
    LOG0,
    LOG1,
    LOG2,
    LOG3,
    LOG4,
    PREVRANDAO,
    CREATE,
    CALL,
    CALLCODE,
    RETURN,
    DELEGATECALL,
    CREATE2,
    STATICCALL,
    REVERT,
    INVALID,
    SELFDESTRUCT,
}

/// Whether a byte encodes an instruction.
pub open spec fn is_assigned(b: u8) -> bool {
    ||| b <= 0x0B
    ||| 0x10 <= b <= 0x1D
    ||| b == 0x20
    ||| 0x30 <= b <= 0x48
    ||| 0x50 <= b <= 0x5B
    ||| 0x60 <= b <= 0xA4
    ||| 0xF0 <= b <= 0xF5
    ||| b == 0xFA
    ||| 0xFD <= b
}

/// Whether a byte encodes one of PUSH1 to PUSH32.
pub open spec fn is_push_byte(b: u8) -> bool {
    0x60 <= b <= 0x7F
}

/// The number of immediate bytes that follow the instruction encoded by `b`:
/// n for PUSHn, none for any other.
pub open spec fn immediate_len(b: u8) -> nat {
    if is_push_byte(b) {
        (b - 0x5F) as nat
    } else {
        0
    }
}

impl Opcode {
    /// The byte that encodes the instruction.
    pub open spec fn byte(self) -> u8 {
        match self {
            Opcode::STOP => 0x00,
            Opcode::ADD => 0x01,
            Opcode::MUL => 0x02,
            Opcode::SUB => 0x03,
            Opcode::DIV => 0x04,
            Opcode::SDIV => 0x05,
            Opcode::MOD => 0x06,
            Opcode::SMOD => 0x07,
            Opcode::ADDMOD => 0x08,
            Opcode::MULMOD => 0x09,
            Opcode::EXP => 0x0A,
            Opcode::SIGNEXTEND => 0x0B,
            Opcode::LT => 0x10,
            Opcode::GT => 0x11,
            Opcode::SLT => 0x12,
            Opcode::SGT => 0x13,
            Opcode::EQ => 0x14,
            Opcode::ISZERO => 0x15,
            Opcode::AND => 0x16,
            Opcode::OR => 0x17,
            Opcode::XOR => 0x18,
            Opcode::NOT => 0x19,
            Opcode::BYTE => 0x1A,
            Opcode::SHL => 0x1B,
            Opcode::SHR => 0x1C,
            Opcode::SAR => 0x1D,
            Opcode::SHA3 => 0x20,
            Opcode::ADDRESS => 0x30,
            Opcode::BALANCE => 0x31,
            Opcode::BASEFEE => 0x48,
            Opcode::ORIGIN => 0x32,
            Opcode::CALLER => 0x33,
            Opcode::CALLVALUE => 0x34,
            Opcode::CALLDATALOAD => 0x35,
            Opcode::CALLDATASIZE => 0x36,
            Opcode::CALLDATACOPY => 0x37,
            Opcode::CODESIZE => 0x38,
            Opcode::CODECOPY => 0x39,
            Opcode::GASPRICE => 0x3A,
            Opcode::EXTCODESIZE => 0x3B,
            Opcode::EXTCODECOPY => 0x3C,
            Opcode::RETURNDATASIZE => 0x3D,
            Opcode::RETURNDATACOPY => 0x3E,
            Opcode::EXTCODEHASH => 0x3F,
            Opcode::BLOCKHASH => 0x40,
            Opcode::COINBASE => 0x41,
            Opcode::TIMESTAMP => 0x42,
            Opcode::NUMBER => 0x43,
            Opcode::GASLIMIT => 0x45,
            Opcode::CHAINID => 0x46,
            Opcode::SELFBALANCE => 0x47,
            Opcode::POP => 0x50,
            Opcode::MLOAD => 0x51,
            Opcode::MSTORE => 0x52,
            Opcode::MSTORE8 => 0x53,
            Opcode::SLOAD => 0x54,
            Opcode::SSTORE => 0x55,
            Opcode::JUMP => 0x56,
            Opcode::JUMPI => 0x57,
            Opcode::PC => 0x58,
            Opcode::MSIZE => 0x59,
            Opcode::GAS => 0x5A,
            Opcode::JUMPDEST => 0x5B,
            Opcode::PUSH1 => 0x60,
            Opcode::PUSH2 => 0x61,
            Opcode::PUSH3 => 0x62,
            Opcode::PUSH4 => 0x63,
            Opcode::PUSH5 => 0x64,
            Opcode::PUSH6 => 0x65,
            Opcode::PUSH7 => 0x66,
            Opcode::PUSH8 => 0x67,
            Opcode::PUSH9 => 0x68,
            Opcode::PUSH10 => 0x69,
            Opcode::PUSH11 => 0x6A,
            Opcode::PUSH12 => 0x6B,
            Opcode::PUSH13 => 0x6C,
            Opcode::PUSH14 => 0x6D,
            Opcode::PUSH15 => 0x6E,
            Opcode::PUSH16 => 0x6F,
            Opcode::PUSH17 => 0x70,
            Opcode::PUSH18 => 0x71,
            Opcode::PUSH19 => 0x72,
            Opcode::PUSH20 => 0x73,
            Opcode::PUSH21 => 0x74,
            Opcode::PUSH22 => 0x75,
            Opcode::PUSH23 => 0x76,
            Opcode::PUSH24 => 0x77,
            Opcode::PUSH25 => 0x78,
            Opcode::PUSH26 => 0x79,
            Opcode::PUSH27 => 0x7A,
            Opcode::PUSH28 => 0x7B,
            Opcode::PUSH29 => 0x7C,
            Opcode::PUSH30 => 0x7D,
            Opcode::PUSH31 => 0x7E,
            Opcode::PUSH32 => 0x7F,
            Opcode::DUP1 => 0x80,
            Opcode::DUP2 => 0x81,
            Opcode::DUP3 => 0x82,
            Opcode::DUP4 => 0x83,
            Opcode::DUP5 => 0x84,
            Opcode::DUP6 => 0x85,
            Opcode::DUP7 => 0x86,
            Opcode::DUP8 => 0x87,
            Opcode::DUP9 => 0x88,
            Opcode::DUP10 => 0x89,
            Opcode::DUP11 => 0x8A,
            Opcode::DUP12 => 0x8B,
            Opcode::DUP13 => 0x8C,
            Opcode::DUP14 => 0x8D,
            Opcode::DUP15 => 0x8E,
            Opcode::DUP16 => 0x8F,
            Opcode::SWAP1 => 0x90,
            Opcode::SWAP2 => 0x91,
            Opcode::SWAP3 => 0x92,
            Opcode::SWAP4 => 0x93,
            Opcode::SWAP5 => 0x94,
            Opcode::SWAP6 => 0x95,
            Opcode::SWAP7 => 0x96,
            Opcode::SWAP8 => 0x97,
            Opcode::SWAP9 => 0x98,
            Opcode::SWAP10 => 0x99,
            Opcode::SWAP11 => 0x9A,
            Opcode::SWAP12 => 0x9B,
            Opcode::SWAP13 => 0x9C,
            Opcode::SWAP14 => 0x9D,
            Opcode::SWAP15 => 0x9E,
            Opcode::SWAP16 => 0x9F,
            Opcode::LOG0 => 0xA0,
            Opcode::LOG1 => 0xA1,
            Opcode::LOG2 => 0xA2,
            Opcode::LOG3 => 0xA3,
            Opcode::LOG4 => 0xA4,
            Opcode::PREVRANDAO => 0x44,
            Opcode::CREATE => 0xF0,
            Opcode::CALL => 0xF1,
            Opcode::CALLCODE => 0xF2,
            Opcode::RETURN => 0xF3,
            Opcode::DELEGATECALL => 0xF4,
            Opcode::CREATE2 => 0xF5,
            Opcode::STATICCALL => 0xFA,
            Opcode::REVERT => 0xFD,
            Opcode::INVALID => 0xFE,
            Opcode::SELFDESTRUCT => 0xFF,
        }
    }

    /// The byte that encodes the instruction.
    pub fn to_byte(&self) -> (b: u8)
        ensures
            b == self.byte(),
            is_assigned(b),
    {
        match self {
            Opcode::STOP => 0x00,
            Opcode::ADD => 0x01,
            Opcode::MUL => 0x02,
            Opcode::SUB => 0x03,
            Opcode::DIV => 0x04,
            Opcode::SDIV => 0x05,
            Opcode::MOD => 0x06,
            Opcode::SMOD => 0x07,
            Opcode::ADDMOD => 0x08,
            Opcode::MULMOD => 0x09,
            Opcode::EXP => 0x0A,
            Opcode::SIGNEXTEND => 0x0B,
            Opcode::LT => 0x10,
            Opcode::GT => 0x11,
            Opcode::SLT => 0x12,
            Opcode::SGT => 0x13,
            Opcode::EQ => 0x14,
            Opcode::ISZERO => 0x15,
            Opcode::AND => 0x16,
            Opcode::OR => 0x17,
            Opcode::XOR => 0x18,
            Opcode::NOT => 0x19,
            Opcode::BYTE => 0x1A,
            Opcode::SHL => 0x1B,
            Opcode::SHR => 0x1C,
            Opcode::SAR => 0x1D,
            Opcode::SHA3 => 0x20,
            Opcode::ADDRESS => 0x30,
            Opcode::BALANCE => 0x31,
            Opcode::BASEFEE => 0x48,
            Opcode::ORIGIN => 0x32,
            Opcode::CALLER => 0x33,
            Opcode::CALLVALUE => 0x34,
            Opcode::CALLDATALOAD => 0x35,
            Opcode::CALLDATASIZE => 0x36,
            Opcode::CALLDATACOPY => 0x37,
            Opcode::CODESIZE => 0x38,
            Opcode::CODECOPY => 0x39,
            Opcode::GASPRICE => 0x3A,
            Opcode::EXTCODESIZE => 0x3B,
            Opcode::EXTCODECOPY => 0x3C,
            Opcode::RETURNDATASIZE => 0x3D,
            Opcode::RETURNDATACOPY => 0x3E,
            Opcode::EXTCODEHASH => 0x3F,
            Opcode::BLOCKHASH => 0x40,
            Opcode::COINBASE => 0x41,
            Opcode::TIMESTAMP => 0x42,
            Opcode::NUMBER => 0x43,
            Opcode::GASLIMIT => 0x45,
            Opcode::CHAINID => 0x46,
            Opcode::SELFBALANCE => 0x47,
            Opcode::POP => 0x50,
            Opcode::MLOAD => 0x51,
            Opcode::MSTORE => 0x52,
            Opcode::MSTORE8 => 0x53,
            Opcode::SLOAD => 0x54,
            Opcode::SSTORE => 0x55,
            Opcode::JUMP => 0x56,
            Opcode::JUMPI => 0x57,
            Opcode::PC => 0x58,
            Opcode::MSIZE => 0x59,
            Opcode::GAS => 0x5A,
            Opcode::JUMPDEST => 0x5B,
            Opcode::PUSH1 => 0x60,
            Opcode::PUSH2 => 0x61,
            Opcode::PUSH3 => 0x62,
            Opcode::PUSH4 => 0x63,
            Opcode::PUSH5 => 0x64,
            Opcode::PUSH6 => 0x65,
            Opcode::PUSH7 => 0x66,
            Opcode::PUSH8 => 0x67,
            Opcode::PUSH9 => 0x68,
            Opcode::PUSH10 => 0x69,
            Opcode::PUSH11 => 0x6A,
            Opcode::PUSH12 => 0x6B,
            Opcode::PUSH13 => 0x6C,
            Opcode::PUSH14 => 0x6D,
            Opcode::PUSH15 => 0x6E,
            Opcode::PUSH16 => 0x6F,
            Opcode::PUSH17 => 0x70,
            Opcode::PUSH18 => 0x71,
            Opcode::PUSH19 => 0x72,
            Opcode::PUSH20 => 0x73,
            Opcode::PUSH21 => 0x74,
            Opcode::PUSH22 => 0x75,
            Opcode::PUSH23 => 0x76,
            Opcode::PUSH24 => 0x77,
            Opcode::PUSH25 => 0x78,
            Opcode::PUSH26 => 0x79,
            Opcode::PUSH27 => 0x7A,
            Opcode::PUSH28 => 0x7B,
            Opcode::PUSH29 => 0x7C,
            Opcode::PUSH30 => 0x7D,
            Opcode::PUSH31 => 0x7E,
            Opcode::PUSH32 => 0x7F,
            Opcode::DUP1 => 0x80,
            Opcode::DUP2 => 0x81,
            Opcode::DUP3 => 0x82,
            Opcode::DUP4 => 0x83,
            Opcode::DUP5 => 0x84,
            Opcode::DUP6 => 0x85,
            Opcode::DUP7 => 0x86,
            Opcode::DUP8 => 0x87,
            Opcode::DUP9 => 0x88,
            Opcode::DUP10 => 0x89,
            Opcode::DUP11 => 0x8A,
            Opcode::DUP12 => 0x8B,
            Opcode::DUP13 => 0x8C,
            Opcode::DUP14 => 0x8D,
            Opcode::DUP15 => 0x8E,
            Opcode::DUP16 => 0x8F,
            Opcode::SWAP1 => 0x90,
            Opcode::SWAP2 => 0x91,
            Opcode::SWAP3 => 0x92,
            Opcode::SWAP4 => 0x93,
            Opcode::SWAP5 => 0x94,
            Opcode::SWAP6 => 0x95,
            Opcode::SWAP7 => 0x96,
            Opcode::SWAP8 => 0x97,
            Opcode::SWAP9 => 0x98,
            Opcode::SWAP10 => 0x99,
            Opcode::SWAP11 => 0x9A,
            Opcode::SWAP12 => 0x9B,
            Opcode::SWAP13 => 0x9C,
            Opcode::SWAP14 => 0x9D,
            Opcode::SWAP15 => 0x9E,
            Opcode::SWAP16 => 0x9F,
            Opcode::LOG0 => 0xA0,
            Opcode::LOG1 => 0xA1,
            Opcode::LOG2 => 0xA2,
            Opcode::LOG3 => 0xA3,
            Opcode::LOG4 => 0xA4,
            Opcode::PREVRANDAO => 0x44,
            Opcode::CREATE => 0xF0,
            Opcode::CALL => 0xF1,
            Opcode::CALLCODE => 0xF2,
            Opcode::RETURN => 0xF3,
            Opcode::DELEGATECALL => 0xF4,
            Opcode::CREATE2 => 0xF5,
            Opcode::STATICCALL => 0xFA,
            Opcode::REVERT => 0xFD,
            Opcode::INVALID => 0xFE,
            Opcode::SELFDESTRUCT => 0xFF,
        }
    }

    /// Whether the instruction is one of PUSH1 to PUSH32.
    pub fn is_push(&self) -> (r: bool)
        ensures
            r == is_push_byte(self.byte()),
    {
        let b = self.to_byte();
        0x60 <= b && b <= 0x7F
    }

    /// The number of immediate bytes the instruction carries.
    pub fn push_size(&self) -> (r: usize)
        ensures
            r == immediate_len(self.byte()),
            r <= 32,
    {
        let b = self.to_byte();
        if 0x60 <= b && b <= 0x7F {
            (b - 0x5F) as usize
        } else {
            0
        }
    }
}

impl core::convert::TryFrom<u8> for Opcode {
    type Error = &'static str;

    /// The instruction that `value` encodes; a byte that encodes none is
    /// refused.
    fn try_from(value: u8) -> (r: Result<Opcode, &'static str>) {
        proof {
            if is_assigned(value) {
                law_decoding_inverts_encoding(value);
            }
        }
        match value {
            0x00 => Ok(Opcode::STOP),
            0x01 => Ok(Opcode::ADD),
            0x02 => Ok(Opcode::MUL),
            0x03 => Ok(Opcode::SUB),
            0x04 => Ok(Opcode::DIV),
            0x05 => Ok(Opcode::SDIV),
            0x06 => Ok(Opcode::MOD),
            0x07 => Ok(Opcode::SMOD),
            0x08 => Ok(Opcode::ADDMOD),
            0x09 => Ok(Opcode::MULMOD),
            0x0A => Ok(Opcode::EXP),
            0x0B => Ok(Opcode::SIGNEXTEND),
            0x10 => Ok(Opcode::LT),
            0x11 => Ok(Opcode::GT),
            0x12 => Ok(Opcode::SLT),
            0x13 => Ok(Opcode::SGT),
            0x14 => Ok(Opcode::EQ),
            0x15 => Ok(Opcode::ISZERO),
            0x16 => Ok(Opcode::AND),
            0x17 => Ok(Opcode::OR),
            0x18 => Ok(Opcode::XOR),
            0x19 => Ok(Opcode::NOT),
            0x1A => Ok(Opcode::BYTE),
            0x1B => Ok(Opcode::SHL),
            0x1C => Ok(Opcode::SHR),
            0x1D => Ok(Opcode::SAR),
            0x20 => Ok(Opcode::SHA3),
            0x30 => Ok(Opcode::ADDRESS),
            0x31 => Ok(Opcode::BALANCE),
            0x32 => Ok(Opcode::ORIGIN),
            0x33 => Ok(Opcode::CALLER),
            0x34 => Ok(Opcode::CALLVALUE),
            0x35 => Ok(Opcode::CALLDATALOAD),
            0x36 => Ok(Opcode::CALLDATASIZE),
            0x37 => Ok(Opcode::CALLDATACOPY),
            0x38 => Ok(Opcode::CODESIZE),
            0x39 => Ok(Opcode::CODECOPY),
            0x3A => Ok(Opcode::GASPRICE),
            0x3B => Ok(Opcode::EXTCODESIZE),
            0x3C => Ok(Opcode::EXTCODECOPY),
            0x3D => Ok(Opcode::RETURNDATASIZE),
            0x3E => Ok(Opcode::RETURNDATACOPY),
            0x3F => Ok(Opcode::EXTCODEHASH),
            0x40 => Ok(Opcode::BLOCKHASH),
            0x41 => Ok(Opcode::COINBASE),
            0x42 => Ok(Opcode::TIMESTAMP),
            0x43 => Ok(Opcode::NUMBER),
            0x44 => Ok(Opcode::PREVRANDAO),
            0x45 => Ok(Opcode::GASLIMIT),
            0x46 => Ok(Opcode::CHAINID),
            0x47 => Ok(Opcode::SELFBALANCE),
            0x48 => Ok(Opcode::BASEFEE),
            0x50 => Ok(Opcode::POP),
            0x51 => Ok(Opcode::MLOAD),
            0x52 => Ok(Opcode::MSTORE),
            0x53 => Ok(Opcode::MSTORE8),
            0x54 => Ok(Opcode::SLOAD),
            0x55 => Ok(Opcode::SSTORE),
            0x56 => Ok(Opcode::JUMP),
            0x57 => Ok(Opcode::JUMPI),
            0x58 => Ok(Opcode::PC),
            0x59 => Ok(Opcode::MSIZE),
            0x5A => Ok(Opcode::GAS),
            0x5B => Ok(Opcode::JUMPDEST),
            0x60 => Ok(Opcode::PUSH1),
            0x61 => Ok(Opcode::PUSH2),
            0x62 => Ok(Opcode::PUSH3),
            0x63 => Ok(Opcode::PUSH4),
            0x64 => Ok(Opcode::PUSH5),
            0x65 => Ok(Opcode::PUSH6),
            0x66 => Ok(Opcode::PUSH7),
            0x67 => Ok(Opcode::PUSH8),
            0x68 => Ok(Opcode::PUSH9),
            0x69 => Ok(Opcode::PUSH10),
            0x6A => Ok(Opcode::PUSH11),
            0x6B => Ok(Opcode::PUSH12),
            0x6C => Ok(Opcode::PUSH13),
            0x6D => Ok(Opcode::PUSH14),
            0x6E => Ok(Opcode::PUSH15),
            0x6F => Ok(Opcode::PUSH16),
            0x70 => Ok(Opcode::PUSH17),
            0x71 => Ok(Opcode::PUSH18),
            0x72 => Ok(Opcode::PUSH19),
            0x73 => Ok(Opcode::PUSH20),
            0x74 => Ok(Opcode::PUSH21),
            0x75 => Ok(Opcode::PUSH22),
            0x76 => Ok(Opcode::PUSH23),
            0x77 => Ok(Opcode::PUSH24),
            0x78 => Ok(Opcode::PUSH25),
            0x79 => Ok(Opcode::PUSH26),
            0x7A => Ok(Opcode::PUSH27),
            0x7B => Ok(Opcode::PUSH28),
            0x7C => Ok(Opcode::PUSH29),
            0x7D => Ok(Opcode::PUSH30),
            0x7E => Ok(Opcode::PUSH31),
            0x7F => Ok(Opcode::PUSH32),
            0x80 => Ok(Opcode::DUP1),
            0x81 => Ok(Opcode::DUP2),
            0x82 => Ok(Opcode::DUP3),
            0x83 => Ok(Opcode::DUP4),
            0x84 => Ok(Opcode::DUP5),
            0x85 => Ok(Opcode::DUP6),
            0x86 => Ok(Opcode::DUP7),
            0x87 => Ok(Opcode::DUP8),
            0x88 => Ok(Opcode::DUP9),
            0x89 => Ok(Opcode::DUP10),
            0x8A => Ok(Opcode::DUP11),
            0x8B => Ok(Opcode::DUP12),
            0x8C => Ok(Opcode::DUP13),
            0x8D => Ok(Opcode::DUP14),
            0x8E => Ok(Opcode::DUP15),
            0x8F => Ok(Opcode::DUP16),
            0x90 => Ok(Opcode::SWAP1),
            0x91 => Ok(Opcode::SWAP2),
            0x92 => Ok(Opcode::SWAP3),
            0x93 => Ok(Opcode::SWAP4),
            0x94 => Ok(Opcode::SWAP5),
            0x95 => Ok(Opcode::SWAP6),
            0x96 => Ok(Opcode::SWAP7),
            0x97 => Ok(Opcode::SWAP8),
            0x98 => Ok(Opcode::SWAP9),
            0x99 => Ok(Opcode::SWAP10),
            0x9A => Ok(Opcode::SWAP11),
            0x9B => Ok(Opcode::SWAP12),
            0x9C => Ok(Opcode::SWAP13),
            0x9D => Ok(Opcode::SWAP14),
            0x9E => Ok(Opcode::SWAP15),
            0x9F => Ok(Opcode::SWAP16),
            0xA0 => Ok(Opcode::LOG0),
            0xA1 => Ok(Opcode::LOG1),
            0xA2 => Ok(Opcode::LOG2),
            0xA3 => Ok(Opcode::LOG3),
            0xA4 => Ok(Opcode::LOG4),
            0xF0 => Ok(Opcode::CREATE),
            0xF1 => Ok(Opcode::CALL),
            0xF2 => Ok(Opcode::CALLCODE),
            0xF3 => Ok(Opcode::RETURN),
            0xF4 => Ok(Opcode::DELEGATECALL),
            0xF5 => Ok(Opcode::CREATE2),
            0xFA => Ok(Opcode::STATICCALL),
            0xFD => Ok(Opcode::REVERT),
            0xFE => Ok(Opcode::INVALID),
            0xFF => Ok(Opcode::SELFDESTRUCT),
            _ => Err("Invalid opcode"),
        }
    }
}

impl TryFromSpecImpl<u8> for Opcode {
    open spec fn obeys_try_from_spec() -> bool {
        true
    }

    open spec fn try_from_spec(value: u8) -> Result<Opcode, &'static str> {
        if is_assigned(value) {
            Ok(opcode_of(value))
        } else {
            Err("Invalid opcode")
        }
    }
}

/// The instruction that a byte encodes, where it encodes one.
pub open spec fn opcode_of(b: u8) -> Opcode {
    choose|op: Opcode| op.byte() == b
}

/// Every assigned byte encodes an instruction, and only one.
pub proof fn law_decoding_inverts_encoding(b: u8)
    requires
        is_assigned(b),
    ensures
        opcode_of(b).byte() == b,
        forall|op: Opcode| op.byte() == b ==> op == opcode_of(b),
{
    if b == 0x00 {
        assert(Opcode::STOP.byte() == b);
    }
    if b == 0x01 {
        assert(Opcode::ADD.byte() == b);
    }
    if b == 0x02 {
        assert(Opcode::MUL.byte() == b);
    }
    if b == 0x03 {
        assert(Opcode::SUB.byte() == b);
    }
    if b == 0x04 {
        assert(Opcode::DIV.byte() == b);
    }
    if b == 0x05 {
        assert(Opcode::SDIV.byte() == b);
    }
    if b == 0x06 {
        assert(Opcode::MOD.byte() == b);
    }
    if b == 0x07 {
        assert(Opcode::SMOD.byte() == b);
    }
    if b == 0x08 {
        assert(Opcode::ADDMOD.byte() == b);
    }
    if b == 0x09 {
        assert(Opcode::MULMOD.byte() == b);
    }
    if b == 0x0A {
        assert(Opcode::EXP.byte() == b);
    }
    if b == 0x0B {
        assert(Opcode::SIGNEXTEND.byte() == b);
    }
    if b == 0x10 {
        assert(Opcode::LT.byte() == b);
    }
    if b == 0x11 {
        assert(Opcode::GT.byte() == b);
    }
    if b == 0x12 {
        assert(Opcode::SLT.byte() == b);
    }
    if b == 0x13 {
        assert(Opcode::SGT.byte() == b);
    }
    if b == 0x14 {
        assert(Opcode::EQ.byte() == b);
    }
    if b == 0x15 {
        assert(Opcode::ISZERO.byte() == b);
    }
    if b == 0x16 {
        assert(Opcode::AND.byte() == b);
    }
    if b == 0x17 {
        assert(Opcode::OR.byte() == b);
    }
    if b == 0x18 {
        assert(Opcode::XOR.byte() == b);
    }
    if b == 0x19 {
        assert(Opcode::NOT.byte() == b);
    }
    if b == 0x1A {
        assert(Opcode::BYTE.byte() == b);
    }
    if b == 0x1B {
        assert(Opcode::SHL.byte() == b);
    }
    if b == 0x1C {
        assert(Opcode::SHR.byte() == b);
    }
    if b == 0x1D {
        assert(Opcode::SAR.byte() == b);
    }
    if b == 0x20 {
        assert(Opcode::SHA3.byte() == b);
    }
    if b == 0x30 {
        assert(Opcode::ADDRESS.byte() == b);
    }
    if b == 0x31 {
        assert(Opcode::BALANCE.byte() == b);
    }
    if b == 0x48 {
        assert(Opcode::BASEFEE.byte() == b);
    }
    if b == 0x32 {
        assert(Opcode::ORIGIN.byte() == b);
    }
    if b == 0x33 {
        assert(Opcode::CALLER.byte() == b);
    }
    if b == 0x34 {
        assert(Opcode::CALLVALUE.byte() == b);
    }
    if b == 0x35 {
        assert(Opcode::CALLDATALOAD.byte() == b);
    }
    if b == 0x36 {
        assert(Opcode::CALLDATASIZE.byte() == b);
    }
    if b == 0x37 {
        assert(Opcode::CALLDATACOPY.byte() == b);
    }
    if b == 0x38 {
        assert(Opcode::CODESIZE.byte() == b);
    }
    if b == 0x39 {
        assert(Opcode::CODECOPY.byte() == b);
    }
    if b == 0x3A {
        assert(Opcode::GASPRICE.byte() == b);
    }
    if b == 0x3B {
        assert(Opcode::EXTCODESIZE.byte() == b);
    }
    if b == 0x3C {
        assert(Opcode::EXTCODECOPY.byte() == b);
    }
    if b == 0x3D {
        assert(Opcode::RETURNDATASIZE.byte() == b);
    }
    if b == 0x3E {
        assert(Opcode::RETURNDATACOPY.byte() == b);
    }
    if b == 0x3F {
        assert(Opcode::EXTCODEHASH.byte() == b);
    }
    if b == 0x40 {
        assert(Opcode::BLOCKHASH.byte() == b);
    }
    if b == 0x41 {
        assert(Opcode::COINBASE.byte() == b);
    }
    if b == 0x42 {
        assert(Opcode::TIMESTAMP.byte() == b);
    }
    if b == 0x43 {
        assert(Opcode::NUMBER.byte() == b);
    }
    if b == 0x45 {
        assert(Opcode::GASLIMIT.byte() == b);
    }
    if b == 0x46 {
        assert(Opcode::CHAINID.byte() == b);
    }
    if b == 0x47 {
        assert(Opcode::SELFBALANCE.byte() == b);
    }
    if b == 0x50 {
        assert(Opcode::POP.byte() == b);
    }
    if b == 0x51 {
        assert(Opcode::MLOAD.byte() == b);
    }
    if b == 0x52 {
        assert(Opcode::MSTORE.byte() == b);
    }
    if b == 0x53 {
        assert(Opcode::MSTORE8.byte() == b);
    }
    if b == 0x54 {
        assert(Opcode::SLOAD.byte() == b);
    }
    if b == 0x55 {
        assert(Opcode::SSTORE.byte() == b);
    }
    if b == 0x56 {
        assert(Opcode::JUMP.byte() == b);
    }
    if b == 0x57 {
        assert(Opcode::JUMPI.byte() == b);
    }
    if b == 0x58 {
        assert(Opcode::PC.byte() == b);
    }
    if b == 0x59 {
        assert(Opcode::MSIZE.byte() == b);
    }
    if b == 0x5A {
        assert(Opcode::GAS.byte() == b);
    }
    if b == 0x5B {
        assert(Opcode::JUMPDEST.byte() == b);
    }
    if b == 0x60 {
        assert(Opcode::PUSH1.byte() == b);
    }
    if b == 0x61 {
        assert(Opcode::PUSH2.byte() == b);
    }
    if b == 0x62 {
        assert(Opcode::PUSH3.byte() == b);
    }
    if b == 0x63 {
        assert(Opcode::PUSH4.byte() == b);
    }
    if b == 0x64 {
        assert(Opcode::PUSH5.byte() == b);
    }
    if b == 0x65 {
        assert(Opcode::PUSH6.byte() == b);
    }
    if b == 0x66 {
        assert(Opcode::PUSH7.byte() == b);
    }
    if b == 0x67 {
        assert(Opcode::PUSH8.byte() == b);
    }
    if b == 0x68 {
        assert(Opcode::PUSH9.byte() == b);
    }
    if b == 0x69 {
        assert(Opcode::PUSH10.byte() == b);
    }
    if b == 0x6A {
        assert(Opcode::PUSH11.byte() == b);
    }
    if b == 0x6B {
        assert(Opcode::PUSH12.byte() == b);
    }
    if b == 0x6C {
        assert(Opcode::PUSH13.byte() == b);
    }
    if b == 0x6D {
        assert(Opcode::PUSH14.byte() == b);
    }
    if b == 0x6E {
        assert(Opcode::PUSH15.byte() == b);
    }
    if b == 0x6F {
        assert(Opcode::PUSH16.byte() == b);
    }
    if b == 0x70 {
        assert(Opcode::PUSH17.byte() == b);
    }
    if b == 0x71 {
        assert(Opcode::PUSH18.byte() == b);
    }
    if b == 0x72 {
        assert(Opcode::PUSH19.byte() == b);
    }
    if b == 0x73 {
        assert(Opcode::PUSH20.byte() == b);
    }
    if b == 0x74 {
        assert(Opcode::PUSH21.byte() == b);
    }
    if b == 0x75 {
        assert(Opcode::PUSH22.byte() == b);
    }
    if b == 0x76 {
        assert(Opcode::PUSH23.byte() == b);
    }
    if b == 0x77 {
        assert(Opcode::PUSH24.byte() == b);
    }
    if b == 0x78 {
        assert(Opcode::PUSH25.byte() == b);
    }
    if b == 0x79 {
        assert(Opcode::PUSH26.byte() == b);
    }
    if b == 0x7A {
        assert(Opcode::PUSH27.byte() == b);
    }
    if b == 0x7B {
        assert(Opcode::PUSH28.byte() == b);
    }
    if b == 0x7C {
        assert(Opcode::PUSH29.byte() == b);
    }
    if b == 0x7D {
        assert(Opcode::PUSH30.byte() == b);
    }
    if b == 0x7E {
        assert(Opcode::PUSH31.byte() == b);
    }
    if b == 0x7F {
        assert(Opcode::PUSH32.byte() == b);
    }
    if b == 0x80 {
        assert(Opcode::DUP1.byte() == b);
    }
    if b == 0x81 {
        assert(Opcode::DUP2.byte() == b);
    }
    if b == 0x82 {
        assert(Opcode::DUP3.byte() == b);
    }
    if b == 0x83 {
        assert(Opcode::DUP4.byte() == b);
    }
    if b == 0x84 {
        assert(Opcode::DUP5.byte() == b);
    }
    if b == 0x85 {
        assert(Opcode::DUP6.byte() == b);
    }
    if b == 0x86 {
        assert(Opcode::DUP7.byte() == b);
    }
    if b == 0x87 {
        assert(Opcode::DUP8.byte() == b);
    }
    if b == 0x88 {
        assert(Opcode::DUP9.byte() == b);
    }
    if b == 0x89 {
        assert(Opcode::DUP10.byte() == b);
    }
    if b == 0x8A {
        assert(Opcode::DUP11.byte() == b);
    }
    if b == 0x8B {
        assert(Opcode::DUP12.byte() == b);
    }
    if b == 0x8C {
        assert(Opcode::DUP13.byte() == b);
    }
    if b == 0x8D {
        assert(Opcode::DUP14.byte() == b);
    }
    if b == 0x8E {
        assert(Opcode::DUP15.byte() == b);
    }
    if b == 0x8F {
        assert(Opcode::DUP16.byte() == b);
    }
    if b == 0x90 {
        assert(Opcode::SWAP1.byte() == b);
    }
    if b == 0x91 {
        assert(Opcode::SWAP2.byte() == b);
    }
    if b == 0x92 {
        assert(Opcode::SWAP3.byte() == b);
    }
    if b == 0x93 {
        assert(Opcode::SWAP4.byte() == b);
    }
    if b == 0x94 {
        assert(Opcode::SWAP5.byte() == b);
    }
    if b == 0x95 {
        assert(Opcode::SWAP6.byte() == b);
    }
    if b == 0x96 {
        assert(Opcode::SWAP7.byte() == b);
    }
    if b == 0x97 {
        assert(Opcode::SWAP8.byte() == b);
    }
    if b == 0x98 {
        assert(Opcode::SWAP9.byte() == b);
    }
    if b == 0x99 {
        assert(Opcode::SWAP10.byte() == b);
    }
    if b == 0x9A {
        assert(Opcode::SWAP11.byte() == b);
    }
    if b == 0x9B {
        assert(Opcode::SWAP12.byte() == b);
    }
    if b == 0x9C {
        assert(Opcode::SWAP13.byte() == b);
    }
    if b == 0x9D {
        assert(Opcode::SWAP14.byte() == b);
    }
    if b == 0x9E {
        assert(Opcode::SWAP15.byte() == b);
    }
    if b == 0x9F {
        assert(Opcode::SWAP16.byte() == b);
    }
    if b == 0xA0 {
        assert(Opcode::LOG0.byte() == b);
    }
    if b == 0xA1 {
        assert(Opcode::LOG1.byte() == b);
    }
    if b == 0xA2 {
        assert(Opcode::LOG2.byte() == b);
    }
    if b == 0xA3 {
        assert(Opcode::LOG3.byte() == b);
    }
    if b == 0xA4 {
        assert(Opcode::LOG4.byte() == b);
    }
    if b == 0x44 {
        assert(Opcode::PREVRANDAO.byte() == b);
    }
    if b == 0xF0 {
        assert(Opcode::CREATE.byte() == b);
    }
    if b == 0xF1 {
        assert(Opcode::CALL.byte() == b);
    }
    if b == 0xF2 {
        assert(Opcode::CALLCODE.byte() == b);
    }
    if b == 0xF3 {
        assert(Opcode::RETURN.byte() == b);
    }
    if b == 0xF4 {
        assert(Opcode::DELEGATECALL.byte() == b);
    }
    if b == 0xF5 {
        assert(Opcode::CREATE2.byte() == b);
    }
    if b == 0xFA {
        assert(Opcode::STATICCALL.byte() == b);
    }
    if b == 0xFD {
        assert(Opcode::REVERT.byte() == b);
    }
    if b == 0xFE {
        assert(Opcode::INVALID.byte() == b);
    }
    if b == 0xFF {
        assert(Opcode::SELFDESTRUCT.byte() == b);
    }
}

/// The encoding is one to one: two instructions with one byte are the same.
pub proof fn law_encoding_injective(a: Opcode, b: Opcode)
    requires
        a.byte() == b.byte(),
    ensures
        a == b,
{
}

/// Every instruction's byte is assigned, so decoding an encoded instruction
/// never fails.
pub proof fn law_encoding_assigned(a: Opcode)
    ensures
        is_assigned(a.byte()),
{
}

} // verus!
