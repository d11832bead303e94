//! The supported Thumb operations, after decoding.
use crate::word::{BitOp, Shift};
use vstd::prelude::*;

verus! {

/// The number of core registers.
pub const REG_COUNT: usize = 16;

/// The stack pointer.
pub const SP: u8 = 13;

/// The link register.
pub const LR: u8 = 14;

/// The program counter.
pub const PC: u8 = 15;

/// A Thumb image decoding failure.
#[derive(Clone, Copy, Debug, Eq, PartialEq, Structural)]
pub enum DecodeError {
    /// The instruction bytes are not an encoding in the supported Thumb subset.
    Unsupported(u32),
    /// A 32-bit Thumb instruction was truncated by the mapped memory.
    Truncated,
    /// An architectural field is reserved or malformed for the selected form.
    Malformed(u32),
}

/// What a load reads and how it extends it.
#[derive(Clone, Copy, Debug, Eq, PartialEq, Structural)]
pub enum LoadKind {
    ByteSigned,
    HalfSigned,
    ByteUnsigned,
    HalfUnsigned,
    Word,
}

/// The additive operations.
#[derive(Clone, Copy, Debug, Eq, PartialEq, Structural)]
pub enum Arithmetic {
    Add,
    AddCarry,
    Sub,
    SubCarry,
    ReverseSub,
}

/// A data operand.
#[derive(Clone, Copy, Debug, Eq, PartialEq, Structural)]
pub enum Operand {
    Register(u8),
    Immediate(u32),
    Shifted { register: u8, shift: Shift, amount: ShiftAmount },
}

/// By how much a shift shifts.
#[derive(Clone, Copy, Debug, Eq, PartialEq, Structural)]
pub enum ShiftAmount {
    Immediate(u32),
    Register(u8),
}

/// A decoded operation.
#[derive(Clone, Copy, Debug, Eq, PartialEq, Structural)]
#[allow(inconsistent_fields)]
pub enum Op {
    Nop,
    It { condition: u8, mask: u8 },
    Move { dest: u8, source: Operand, set_flags: bool },
    MoveTop { dest: u8, immediate: u16 },
    MoveNot { dest: u8, source: Operand, set_flags: bool },
    Arithmetic { kind: Arithmetic, dest: u8, left: Operand, right: Operand, set_flags: bool },
    Bitwise { kind: BitOp, dest: u8, left: Operand, right: Operand, set_flags: bool },
    BitClear { dest: u8, left: Operand, right: Operand, set_flags: bool },
    Compare { left: Operand, right: Operand, add: bool },
    Test { left: Operand, right: Operand },
    Shift { dest: u8, source: u8, direction: Shift, amount: ShiftAmount, set_flags: bool },
    Multiply {
        dest: u8,
        left: u8,
        right: u8,
        add: Option<u8>,
        subtract: bool,
        set_flags: bool,
    },
    LongMultiply { dest_low: u8, dest_high: u8, left: u8, right: u8, signed: bool },
    Load { dest: u8, base: u8, offset: i32, kind: LoadKind },
    Store { source: u8, base: u8, offset: i32, width: usize },
    StoreDouble { first: u8, second: u8, base: u8, offset: i32 },
    LoadIndexed { dest: u8, base: u8, index: u8, shift: u8, kind: LoadKind },
    StoreIndexed { source: u8, base: u8, index: u8, shift: u8, width: usize },
    Push { list: u16 },
    Pop { list: u16 },
    LoadMultiple { base: u8, list: u16, write_back: bool },
    StoreMultiple { base: u8, list: u16, write_back: bool },
    Branch { target: u32, condition: Option<u8> },
    CompareBranch { register: u8, nonzero: bool, target: u32 },
    ReadApsr { dest: u8 },
    WriteApsr { source: u8 },
    Call { target: u32 },
    CallRegister { register: u8 },
    BranchRegister { register: u8 },
    /// `SG`: the Secure Gateway instruction.
    SecureGateway,
    /// `BXNS`/`BLXNS`: branch (and, if `link`, link) exchange Non-secure.
    BranchExchangeNonSecure { register: u8, link: bool },
    Svc(u8),
}

/// An operation and the byte length of its encoding.
#[derive(Clone, Copy, Debug, Eq, PartialEq, Structural)]
pub struct Decoded {
    pub operation: Op,
    pub len: u32,
}

/// Every register an operand names exists, and an immediate shift stays
/// within the word.
pub open spec fn operand_ok(operand: Operand) -> bool {
    match operand {
        Operand::Register(r) => r < 16,
        Operand::Immediate(_) => true,
        Operand::Shifted { register, shift: _, amount } => register < 16 && amount_ok(amount),
    }
}

pub open spec fn amount_ok(amount: ShiftAmount) -> bool {
    match amount {
        ShiftAmount::Immediate(n) => n <= 32,
        ShiftAmount::Register(r) => r < 16,
    }
}

/// Every field of an operation is one that an encoding can hold.
pub open spec fn op_ok(op: Op) -> bool {
    match op {
        Op::Nop => true,
        Op::It { condition, mask } => condition < 16 && mask < 16,
        Op::Move { dest, source, set_flags: _ } => dest < 16 && operand_ok(source),
        Op::MoveTop { dest, immediate: _ } => dest < 16,
        Op::MoveNot { dest, source, set_flags: _ } => dest < 16 && operand_ok(source),
        Op::Arithmetic { kind: _, dest, left, right, set_flags: _ } => dest < 16 && operand_ok(left)
            && operand_ok(right),
        Op::Bitwise { kind: _, dest, left, right, set_flags: _ } => dest < 16 && operand_ok(left)
            && operand_ok(right),
        Op::BitClear { dest, left, right, set_flags: _ } => dest < 16 && operand_ok(left)
            && operand_ok(right),
        Op::Compare { left, right, add: _ } => operand_ok(left) && operand_ok(right),
        Op::Test { left, right } => operand_ok(left) && operand_ok(right),
        Op::Shift { dest, source, direction: _, amount, set_flags: _ } => dest < 16 && source < 16
            && amount_ok(amount),
        Op::Multiply { dest, left, right, add, subtract: _, set_flags: _ } => dest < 16 && left < 16
            && right < 16 && (add matches Some(a) ==> a < 16),
        Op::LongMultiply { dest_low, dest_high, left, right, signed: _ } => dest_low < 16
            && dest_high < 16 && left < 16 && right < 16,
        Op::Load { dest, base, offset: _, kind: _ } => dest < 16 && base < 16,
        Op::Store { source, base, offset: _, width } => source < 16 && base < 16 && width <= 32,
        Op::StoreDouble { first, second, base, offset: _ } => first < 16 && second < 16 && base
            < 16,
        Op::LoadIndexed { dest, base, index, shift, kind: _ } => dest < 16 && base < 16 && index
            < 16 && shift < 32,
        Op::StoreIndexed { source, base, index, shift, width } => source < 16 && base < 16 && index
            < 16 && shift < 32 && width <= 32,
        Op::Push { list: _ } => true,
        Op::Pop { list: _ } => true,
        Op::LoadMultiple { base, list: _, write_back: _ } => base < 16,
        Op::StoreMultiple { base, list: _, write_back: _ } => base < 16,
        Op::Branch { target: _, condition } => condition matches Some(c) ==> c < 16,
        Op::CompareBranch { register, nonzero: _, target: _ } => register < 16,
        Op::ReadApsr { dest } => dest < 16,
        Op::WriteApsr { source } => source < 16,
        Op::Call { target: _ } => true,
        Op::CallRegister { register } => register < 16,
        Op::BranchRegister { register } => register < 16,
        Op::SecureGateway => true,
        Op::BranchExchangeNonSecure { register, link: _ } => register < 16,
        Op::Svc(_) => true,
    }
}

impl Op {
    /// The target of a direct branch, and its condition where it has one.
    pub fn branch_info(&self) -> (r: Option<(u32, Option<u8>)>)
        ensures
            r == match *self {
                Op::Branch { target, condition } => Some((target, condition)),
                _ => None,
            },
    {
        match *self {
            Op::Branch { target, condition } => Some((target, condition)),
            _ => None,
        }
    }

    /// The register, sense and target of a compare-and-branch.
    pub fn compare_branch_info(&self) -> (r: Option<(u8, bool, u32)>)
        ensures
            r == match *self {
                Op::CompareBranch { register, nonzero, target } => Some(
                    (register, nonzero, target),
                ),
                _ => None,
            },
    {
        match *self {
            Op::CompareBranch { register, nonzero, target } => Some((register, nonzero, target)),
            _ => None,
        }
    }
}

} // verus!
