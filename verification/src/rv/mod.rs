//! Symbolic execution of a deliberately small, well-behaved RV32/RV64 program
//! subset.
//!
//! Registers are Boolean wires beside an optional concrete value. The concrete
//! values let the interpreter resolve control flow and addresses that must be
//! known while the symbolic values are emitted through the context.
//!
//! This is not a general RISC-V emulator. Programs must branch only on
//! concrete values; use the supported stack-address form for symbolic memory;
//! provide sufficiently large stacks; and follow the supported call/return
//! convention. Unsupported instructions, dynamic control flow or addresses,
//! and invalid environment calls are reported as unexpected.
//!
//! The supported instructions are `LUI`, `AUIPC`; `ADDI`, `ADD`, `SUB`, `AND`,
//! `OR`, `XOR`, their immediate forms, and immediate shifts; the loads and
//! stores of one register; `JAL`, `JALR` and the six integer branches; plus
//! the environment call.
pub mod abi;
pub mod body;
pub mod control;
pub mod emulator;
pub mod entry;
pub mod exec;
pub mod handler;
pub mod inst;
pub mod instructions;
pub mod laws;
pub mod looped;
pub mod machine;
pub mod program;
pub mod reach;
pub mod rv32;
