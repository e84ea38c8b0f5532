//! Ahead-of-time translation of EVM bytecode to RV64I machine code:
//! decode, symbolic execution into an intermediate representation,
//! local optimisation, register allocation and emission.

pub mod allocator;
pub mod conversions;
pub mod decoder;
pub mod emitter;
pub mod gas;
pub mod generator;
pub mod ir;
pub mod memory;
pub mod opcode;
pub mod operators;
pub mod optimizer;
pub mod register;
pub mod runtime;
pub mod signed;
pub mod signed_order;
pub mod stack;
pub mod word;
