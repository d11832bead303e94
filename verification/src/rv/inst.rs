//! Instructions: what `rv_asm` decodes, and the subset that is executed.
use crate::compare::ComparePredicate;
use crate::memory::{half_from_bytes, word_from_bytes, RawMemory};
use crate::word::{BitOp, Shift};
use vstd::prelude::*;

verus! {

/// `rv_asm::Reg`: the number of an integer register.
#[verifier::external_type_specification]
pub struct ExReg(rv_asm::Reg);

/// `rv_asm::Imm`: an immediate, whose value only its accessors give.
#[verifier::external_type_specification]
#[verifier::external_body]
pub struct ExImm(rv_asm::Imm);

/// `rv_asm::FenceSet`, a field of a fence.
#[verifier::external_type_specification]
pub struct ExFenceSet(rv_asm::FenceSet);

/// `rv_asm::Fence`, the operand of a fence.
#[verifier::external_type_specification]
pub struct ExFence(rv_asm::Fence);

/// `rv_asm::AmoOrdering`, an operand of an atomic operation.
#[verifier::external_type_specification]
pub struct ExAmoOrdering(rv_asm::AmoOrdering);

/// `rv_asm::AmoOp`, an operand of an atomic operation.
#[verifier::external_type_specification]
pub struct ExAmoOp(rv_asm::AmoOp);

/// `rv_asm::Inst`: a decoded instruction.
#[verifier::external_type_specification]
pub struct ExInst(rv_asm::Inst);

/// `rv_asm::Xlen`: the width of a register.
#[verifier::external_type_specification]
pub struct ExXlen(rv_asm::Xlen);

/// The low 32 bits of an immediate, as a signed number.
pub uninterp spec fn immediate_value(imm: rv_asm::Imm) -> i32;

/// `rv_asm::Imm::as_i32` depends on the immediate alone; the contract gives
/// its answer a name.
pub assume_specification[ rv_asm::Imm::as_i32 ](imm: rv_asm::Imm) -> (r: i32)
    ensures
        r == immediate_value(imm),
;

/// The instruction that `rv_asm` decodes from a word, or the field that it
/// names as unexpected.
pub uninterp spec fn decoded_word(code: u32, rv64: bool) -> Result<rv_asm::Inst, &'static str>;

/// The instruction that `rv_asm` decodes from a halfword, or the field that it
/// names as unexpected.
pub uninterp spec fn decoded_half(code: u16, rv64: bool) -> Result<rv_asm::Inst, &'static str>;

/// Decode a word with `rv_asm::Inst::decode`, for registers of 64 or of 32
/// bits. The contract gives the decoder's answer a name.
#[verifier::external_body]
fn decode_word(code: u32, xlen: rv_asm::Xlen) -> (r: Result<rv_asm::Inst, &'static str>)
    ensures
        r == decoded_word(code, xlen is Rv64),
{
    rv_asm::Inst::decode(code, xlen).map(|pair| pair.0).map_err(|error| error.unexpected_field)
}

/// Decode a halfword with `rv_asm::Inst::decode_compressed`, for registers of
/// 64 or of 32 bits. The contract gives the decoder's answer a name.
#[verifier::external_body]
fn decode_half(code: u16, xlen: rv_asm::Xlen) -> (r: Result<rv_asm::Inst, &'static str>)
    ensures
        r == decoded_half(code, xlen is Rv64),
{
    rv_asm::Inst::decode_compressed(code, xlen).map_err(|error| error.unexpected_field)
}

/// An instruction of the supported subset. Registers are numbers, immediates
/// are sign-extended.
#[derive(Clone, Copy, Debug, Eq, PartialEq, Structural)]
pub enum RvOp {
    /// `LUI`, or `AUIPC`.
    Upper { dest: u8, value: i64, pc_relative: bool },
    AddImmediate { dest: u8, src: u8, imm: i64 },
    Add { dest: u8, left: u8, right: u8 },
    Sub { dest: u8, left: u8, right: u8 },
    Bitwise { operation: BitOp, dest: u8, left: u8, right: u8 },
    BitwiseImmediate { operation: BitOp, dest: u8, src: u8, imm: i64 },
    /// A shift by an immediate amount, of which the low bits count.
    ShiftImmediate { direction: Shift, dest: u8, src: u8, amount: i64 },
    /// A load of `width` bits, extended with its sign or with zeros.
    Load { dest: u8, base: u8, offset: i64, width: usize, signed: bool },
    Store { src: u8, base: u8, offset: i64, width: usize },
    /// `JAL`.
    Jump { dest: u8, offset: i64 },
    /// `JALR`.
    JumpRegister { dest: u8, base: u8, offset: i64 },
    Branch { predicate: ComparePredicate, left: u8, right: u8, offset: i64 },
    Ecall,
    /// Anything else.
    Unsupported,
}

/// Every register exists, and every width is one of a memory access.
pub open spec fn op_ok(op: RvOp) -> bool {
    match op {
        RvOp::Upper { dest, .. } => dest < 32,
        RvOp::AddImmediate { dest, src, .. } => dest < 32 && src < 32,
        RvOp::Add { dest, left, right } => dest < 32 && left < 32 && right < 32,
        RvOp::Sub { dest, left, right } => dest < 32 && left < 32 && right < 32,
        RvOp::Bitwise { dest, left, right, .. } => dest < 32 && left < 32 && right < 32,
        RvOp::BitwiseImmediate { dest, src, .. } => dest < 32 && src < 32,
        RvOp::ShiftImmediate { direction, dest, src, .. } => dest < 32 && src < 32 && direction
            != Shift::RotateRight,
        RvOp::Load { dest, base, width, .. } => dest < 32 && base < 32 && (width == 8 || width == 16
            || width == 32 || width == 64),
        RvOp::Store { src, base, width, .. } => src < 32 && base < 32 && (width == 8 || width == 16
            || width == 32 || width == 64),
        RvOp::Jump { dest, .. } => dest < 32,
        RvOp::JumpRegister { dest, base, .. } => dest < 32 && base < 32,
        RvOp::Branch { left, right, .. } => left < 32 && right < 32,
        RvOp::Ecall => true,
        RvOp::Unsupported => true,
    }
}

/// An immediate as a number.
pub open spec fn immediate(imm: rv_asm::Imm) -> i64 {
    immediate_value(imm) as i64
}

/// An instruction as an operation, before its registers are checked.
pub open spec fn operation(inst: rv_asm::Inst) -> RvOp {
    match inst {
        rv_asm::Inst::Lui { uimm, dest } => RvOp::Upper {
            dest: dest.0,
            value: immediate(uimm),
            pc_relative: false,
        },
        rv_asm::Inst::Auipc { uimm, dest } => RvOp::Upper {
            dest: dest.0,
            value: immediate(uimm),
            pc_relative: true,
        },
        rv_asm::Inst::Addi { imm, dest, src1 } => RvOp::AddImmediate {
            dest: dest.0,
            src: src1.0,
            imm: immediate(imm),
        },
        rv_asm::Inst::Add { dest, src1, src2 } => RvOp::Add {
            dest: dest.0,
            left: src1.0,
            right: src2.0,
        },
        rv_asm::Inst::Sub { dest, src1, src2 } => RvOp::Sub {
            dest: dest.0,
            left: src1.0,
            right: src2.0,
        },
        rv_asm::Inst::And { dest, src1, src2 } => bitwise_op(BitOp::And, dest, src1, src2),
        rv_asm::Inst::Or { dest, src1, src2 } => bitwise_op(BitOp::Or, dest, src1, src2),
        rv_asm::Inst::Xor { dest, src1, src2 } => bitwise_op(BitOp::Xor, dest, src1, src2),
        rv_asm::Inst::Andi { imm, dest, src1 } => bitwise_imm(BitOp::And, imm, dest, src1),
        rv_asm::Inst::Ori { imm, dest, src1 } => bitwise_imm(BitOp::Or, imm, dest, src1),
        rv_asm::Inst::Xori { imm, dest, src1 } => bitwise_imm(BitOp::Xor, imm, dest, src1),
        rv_asm::Inst::Slli { imm, dest, src1 } => shift_imm(Shift::Left, imm, dest, src1),
        rv_asm::Inst::Srli { imm, dest, src1 } => shift_imm(Shift::LogicalRight, imm, dest, src1),
        rv_asm::Inst::Srai { imm, dest, src1 } => shift_imm(Shift::ArithmeticRight, imm, dest, src1),
        rv_asm::Inst::Lb { offset, dest, base } => load_op(offset, dest, base, 8, true),
        rv_asm::Inst::Lbu { offset, dest, base } => load_op(offset, dest, base, 8, false),
        rv_asm::Inst::Lh { offset, dest, base } => load_op(offset, dest, base, 16, true),
        rv_asm::Inst::Lhu { offset, dest, base } => load_op(offset, dest, base, 16, false),
        rv_asm::Inst::Lw { offset, dest, base } => load_op(offset, dest, base, 32, true),
        rv_asm::Inst::Lwu { offset, dest, base } => load_op(offset, dest, base, 32, false),
        rv_asm::Inst::Ld { offset, dest, base } => load_op(offset, dest, base, 64, true),
        rv_asm::Inst::Sb { offset, src, base } => store_op(offset, src, base, 8),
        rv_asm::Inst::Sh { offset, src, base } => store_op(offset, src, base, 16),
        rv_asm::Inst::Sw { offset, src, base } => store_op(offset, src, base, 32),
        rv_asm::Inst::Sd { offset, src, base } => store_op(offset, src, base, 64),
        rv_asm::Inst::Jal { offset, dest } => RvOp::Jump {
            dest: dest.0,
            offset: immediate(offset),
        },
        rv_asm::Inst::Jalr { offset, base, dest } => RvOp::JumpRegister {
            dest: dest.0,
            base: base.0,
            offset: immediate(offset),
        },
        rv_asm::Inst::Beq { offset, src1, src2 } => branch_op(
            ComparePredicate::Eq,
            offset,
            src1,
            src2,
        ),
        rv_asm::Inst::Bne { offset, src1, src2 } => branch_op(
            ComparePredicate::Ne,
            offset,
            src1,
            src2,
        ),
        rv_asm::Inst::Bgeu { offset, src1, src2 } => branch_op(
            ComparePredicate::GeU,
            offset,
            src1,
            src2,
        ),
        rv_asm::Inst::Bltu { offset, src1, src2 } => branch_op(
            ComparePredicate::LtU,
            offset,
            src1,
            src2,
        ),
        rv_asm::Inst::Bge { offset, src1, src2 } => branch_op(
            ComparePredicate::GeS,
            offset,
            src1,
            src2,
        ),
        rv_asm::Inst::Blt { offset, src1, src2 } => branch_op(
            ComparePredicate::LtS,
            offset,
            src1,
            src2,
        ),
        rv_asm::Inst::Ecall => RvOp::Ecall,
        _ => RvOp::Unsupported,
    }
}

pub open spec fn bitwise_op(
    operation: BitOp,
    dest: rv_asm::Reg,
    left: rv_asm::Reg,
    right: rv_asm::Reg,
) -> RvOp {
    RvOp::Bitwise { operation, dest: dest.0, left: left.0, right: right.0 }
}

pub open spec fn bitwise_imm(
    operation: BitOp,
    imm: rv_asm::Imm,
    dest: rv_asm::Reg,
    src: rv_asm::Reg,
) -> RvOp {
    RvOp::BitwiseImmediate { operation, dest: dest.0, src: src.0, imm: immediate(imm) }
}

pub open spec fn shift_imm(
    direction: Shift,
    imm: rv_asm::Imm,
    dest: rv_asm::Reg,
    src: rv_asm::Reg,
) -> RvOp {
    RvOp::ShiftImmediate { direction, dest: dest.0, src: src.0, amount: immediate(imm) }
}

pub open spec fn load_op(
    offset: rv_asm::Imm,
    dest: rv_asm::Reg,
    base: rv_asm::Reg,
    width: usize,
    signed: bool,
) -> RvOp {
    RvOp::Load { dest: dest.0, base: base.0, offset: immediate(offset), width, signed }
}

pub open spec fn store_op(
    offset: rv_asm::Imm,
    src: rv_asm::Reg,
    base: rv_asm::Reg,
    width: usize,
) -> RvOp {
    RvOp::Store { src: src.0, base: base.0, offset: immediate(offset), width }
}

pub open spec fn branch_op(
    predicate: ComparePredicate,
    offset: rv_asm::Imm,
    left: rv_asm::Reg,
    right: rv_asm::Reg,
) -> RvOp {
    RvOp::Branch { predicate, left: left.0, right: right.0, offset: immediate(offset) }
}

/// An instruction as an operation. One that names a register that does not
/// exist is none of the subset.
pub open spec fn lowered(inst: rv_asm::Inst) -> RvOp {
    if op_ok(operation(inst)) {
        operation(inst)
    } else {
        RvOp::Unsupported
    }
}

fn known_immediate(imm: rv_asm::Imm) -> (r: i64)
    ensures
        r == immediate(imm),
{
    imm.as_i32() as i64
}

/// Whether every register exists.
fn op_valid(op: &RvOp) -> (r: bool)
    requires
        match *op {
            RvOp::Load { width, .. } => width == 8 || width == 16 || width == 32 || width == 64,
            RvOp::Store { width, .. } => width == 8 || width == 16 || width == 32 || width == 64,
            RvOp::ShiftImmediate { direction, .. } => direction != Shift::RotateRight,
            _ => true,
        },
    ensures
        r == op_ok(*op),
{
    match *op {
        RvOp::Upper { dest, .. } => dest < 32,
        RvOp::AddImmediate { dest, src, .. } => dest < 32 && src < 32,
        RvOp::Add { dest, left, right } => dest < 32 && left < 32 && right < 32,
        RvOp::Sub { dest, left, right } => dest < 32 && left < 32 && right < 32,
        RvOp::Bitwise { dest, left, right, .. } => dest < 32 && left < 32 && right < 32,
        RvOp::BitwiseImmediate { dest, src, .. } => dest < 32 && src < 32,
        RvOp::ShiftImmediate { dest, src, .. } => dest < 32 && src < 32,
        RvOp::Load { dest, base, .. } => dest < 32 && base < 32,
        RvOp::Store { src, base, .. } => src < 32 && base < 32,
        RvOp::Jump { dest, .. } => dest < 32,
        RvOp::JumpRegister { dest, base, .. } => dest < 32 && base < 32,
        RvOp::Branch { left, right, .. } => left < 32 && right < 32,
        RvOp::Ecall => true,
        RvOp::Unsupported => true,
    }
}

/// Turn an instruction into an operation of the subset.
pub fn lower(inst: rv_asm::Inst) -> (r: RvOp)
    ensures
        r == lowered(inst),
        op_ok(r),
{
    let op = match inst {
        rv_asm::Inst::Lui { uimm, dest } => RvOp::Upper {
            dest: dest.0,
            value: known_immediate(uimm),
            pc_relative: false,
        },
        rv_asm::Inst::Auipc { uimm, dest } => RvOp::Upper {
            dest: dest.0,
            value: known_immediate(uimm),
            pc_relative: true,
        },
        rv_asm::Inst::Addi { imm, dest, src1 } => RvOp::AddImmediate {
            dest: dest.0,
            src: src1.0,
            imm: known_immediate(imm),
        },
        rv_asm::Inst::Add { dest, src1, src2 } => RvOp::Add {
            dest: dest.0,
            left: src1.0,
            right: src2.0,
        },
        rv_asm::Inst::Sub { dest, src1, src2 } => RvOp::Sub {
            dest: dest.0,
            left: src1.0,
            right: src2.0,
        },
        rv_asm::Inst::And { dest, src1, src2 } => RvOp::Bitwise {
            operation: BitOp::And,
            dest: dest.0,
            left: src1.0,
            right: src2.0,
        },
        rv_asm::Inst::Or { dest, src1, src2 } => RvOp::Bitwise {
            operation: BitOp::Or,
            dest: dest.0,
            left: src1.0,
            right: src2.0,
        },
        rv_asm::Inst::Xor { dest, src1, src2 } => RvOp::Bitwise {
            operation: BitOp::Xor,
            dest: dest.0,
            left: src1.0,
            right: src2.0,
        },
        rv_asm::Inst::Andi { imm, dest, src1 } => RvOp::BitwiseImmediate {
            operation: BitOp::And,
            dest: dest.0,
            src: src1.0,
            imm: known_immediate(imm),
        },
        rv_asm::Inst::Ori { imm, dest, src1 } => RvOp::BitwiseImmediate {
            operation: BitOp::Or,
            dest: dest.0,
            src: src1.0,
            imm: known_immediate(imm),
        },
        rv_asm::Inst::Xori { imm, dest, src1 } => RvOp::BitwiseImmediate {
            operation: BitOp::Xor,
            dest: dest.0,
            src: src1.0,
            imm: known_immediate(imm),
        },
        rv_asm::Inst::Slli { imm, dest, src1 } => RvOp::ShiftImmediate {
            direction: Shift::Left,
            dest: dest.0,
            src: src1.0,
            amount: known_immediate(imm),
        },
        rv_asm::Inst::Srli { imm, dest, src1 } => RvOp::ShiftImmediate {
            direction: Shift::LogicalRight,
            dest: dest.0,
            src: src1.0,
            amount: known_immediate(imm),
        },
        rv_asm::Inst::Srai { imm, dest, src1 } => RvOp::ShiftImmediate {
            direction: Shift::ArithmeticRight,
            dest: dest.0,
            src: src1.0,
            amount: known_immediate(imm),
        },
        rv_asm::Inst::Lb { offset, dest, base } => make_load(offset, dest, base, 8, true),
        rv_asm::Inst::Lbu { offset, dest, base } => make_load(offset, dest, base, 8, false),
        rv_asm::Inst::Lh { offset, dest, base } => make_load(offset, dest, base, 16, true),
        rv_asm::Inst::Lhu { offset, dest, base } => make_load(offset, dest, base, 16, false),
        rv_asm::Inst::Lw { offset, dest, base } => make_load(offset, dest, base, 32, true),
        rv_asm::Inst::Lwu { offset, dest, base } => make_load(offset, dest, base, 32, false),
        rv_asm::Inst::Ld { offset, dest, base } => make_load(offset, dest, base, 64, true),
        rv_asm::Inst::Sb { offset, src, base } => make_store(offset, src, base, 8),
        rv_asm::Inst::Sh { offset, src, base } => make_store(offset, src, base, 16),
        rv_asm::Inst::Sw { offset, src, base } => make_store(offset, src, base, 32),
        rv_asm::Inst::Sd { offset, src, base } => make_store(offset, src, base, 64),
        rv_asm::Inst::Jal { offset, dest } => RvOp::Jump {
            dest: dest.0,
            offset: known_immediate(offset),
        },
        rv_asm::Inst::Jalr { offset, base, dest } => RvOp::JumpRegister {
            dest: dest.0,
            base: base.0,
            offset: known_immediate(offset),
        },
        rv_asm::Inst::Beq { offset, src1, src2 } => make_branch(
            ComparePredicate::Eq,
            offset,
            src1,
            src2,
        ),
        rv_asm::Inst::Bne { offset, src1, src2 } => make_branch(
            ComparePredicate::Ne,
            offset,
            src1,
            src2,
        ),
        rv_asm::Inst::Bgeu { offset, src1, src2 } => make_branch(
            ComparePredicate::GeU,
            offset,
            src1,
            src2,
        ),
        rv_asm::Inst::Bltu { offset, src1, src2 } => make_branch(
            ComparePredicate::LtU,
            offset,
            src1,
            src2,
        ),
        rv_asm::Inst::Bge { offset, src1, src2 } => make_branch(
            ComparePredicate::GeS,
            offset,
            src1,
            src2,
        ),
        rv_asm::Inst::Blt { offset, src1, src2 } => make_branch(
            ComparePredicate::LtS,
            offset,
            src1,
            src2,
        ),
        rv_asm::Inst::Ecall => RvOp::Ecall,
        _ => RvOp::Unsupported,
    };
    if op_valid(&op) {
        op
    } else {
        RvOp::Unsupported
    }
}

fn make_load(
    offset: rv_asm::Imm,
    dest: rv_asm::Reg,
    base: rv_asm::Reg,
    width: usize,
    signed: bool,
) -> (r: RvOp)
    ensures
        r == load_op(offset, dest, base, width, signed),
{
    RvOp::Load { dest: dest.0, base: base.0, offset: known_immediate(offset), width, signed }
}

fn make_store(offset: rv_asm::Imm, src: rv_asm::Reg, base: rv_asm::Reg, width: usize) -> (r: RvOp)
    ensures
        r == store_op(offset, src, base, width),
{
    RvOp::Store { src: src.0, base: base.0, offset: known_immediate(offset), width }
}

fn make_branch(
    predicate: ComparePredicate,
    offset: rv_asm::Imm,
    left: rv_asm::Reg,
    right: rv_asm::Reg,
) -> (r: RvOp)
    ensures
        r == branch_op(predicate, offset, left, right),
{
    RvOp::Branch { predicate, left: left.0, right: right.0, offset: known_immediate(offset) }
}

/// Why no operation was fetched.
#[derive(Clone, Copy, Debug, Eq, PartialEq)]
pub enum FetchError {
    /// Nothing is mapped at the address.
    Unmapped,
    /// The bytes there are no instruction.
    Decode(DecodeError),
}

/// Bytes that are no instruction.
#[derive(Clone, Copy, Debug, Eq, PartialEq)]
pub struct DecodeError {
    /// The bytes, as a number.
    pub instruction: u32,
    /// Which field of the instruction contained unexpected bits.
    pub unexpected_field: &'static str,
}

/// A halfword starts a compressed instruction unless its low two bits are set.
pub open spec fn compressed(half: u16) -> bool {
    half % 4 != 3
}

/// The operation at an address and the length of its encoding.
pub open spec fn op_at(mem: RawMemory<'_>, pc: u64, rv64: bool) -> Result<(RvOp, u64), FetchError> {
    match mem.reads64(pc, 2) {
        None => Err(FetchError::Unmapped),
        Some(bytes) => {
            let half = crate::memory::le_num(bytes) as u16;
            if compressed(half) {
                match decoded_half(half, rv64) {
                    Ok(inst) => Ok((lowered(inst), 2)),
                    Err(field) => Err(
                        FetchError::Decode(
                            DecodeError { instruction: half as u32, unexpected_field: field },
                        ),
                    ),
                }
            } else {
                match mem.reads64(pc, 4) {
                    None => Err(FetchError::Unmapped),
                    Some(bytes) => {
                        let word = crate::memory::le_num(bytes) as u32;
                        match decoded_word(word, rv64) {
                            Ok(inst) => Ok((lowered(inst), 4)),
                            Err(field) => Err(
                                FetchError::Decode(
                                    DecodeError { instruction: word, unexpected_field: field },
                                ),
                            ),
                        }
                    },
                }
            }
        },
    }
}

/// An operation of a program of aligned instructions of four bytes: one that
/// is shorter, or that jumps through a register other than to return, is not
/// supported.
pub open spec fn plain_op(op: RvOp, len: u64) -> RvOp {
    match op {
        RvOp::JumpRegister { dest, base, offset } => if len == 4 && dest == 0 && base == 1 && offset
            == 0 {
            op
        } else {
            RvOp::Unsupported
        },
        _ => if len == 4 {
            op
        } else {
            RvOp::Unsupported
        },
    }
}

/// Where the instruction at a program counter starts.
pub open spec fn start_of(pc: u64, plain: bool) -> u64 {
    if plain {
        (pc - pc % 4) as u64
    } else {
        pc
    }
}

/// The operation at the start of an instruction and the length of its
/// encoding. In a plain program four bytes must be mapped there.
pub open spec fn fetched(mem: RawMemory<'_>, pc: u64, rv64: bool, plain: bool) -> Result<
    (RvOp, u64),
    FetchError,
> {
    if plain {
        if mem.reads64(pc, 4) is None {
            Err(FetchError::Unmapped)
        } else {
            match op_at(mem, pc, rv64) {
                Ok((op, len)) => Ok((plain_op(op, len), len)),
                Err(e) => Err(e),
            }
        }
    } else {
        op_at(mem, pc, rv64)
    }
}

/// Fetch and decode the operation at the start of an instruction.
pub fn fetch_for(mem: &RawMemory<'_>, pc: u64, rv64: bool, plain: bool) -> (r: Result<
    (RvOp, u64),
    FetchError,
>)
    ensures
        r == fetched(*mem, pc, rv64, plain),
        r matches Ok(found) ==> op_ok(found.0) && (found.1 == 2 || found.1 == 4) && pc
            + found.1 <= u64::MAX,
{
    if !plain {
        return fetch_op(mem, pc, rv64);
    }
    if mem.read64::<4>(pc).is_none() {
        return Err(FetchError::Unmapped);
    }
    let (op, len) = match fetch_op(mem, pc, rv64) {
        Ok(found) => found,
        Err(error) => return Err(error),
    };
    let supported = match op {
        RvOp::JumpRegister { dest, base, offset } => len == 4 && dest == 0 && base == 1 && offset
            == 0,
        _ => len == 4,
    };
    if supported {
        Ok((op, len))
    } else {
        Ok((RvOp::Unsupported, len))
    }
}

/// Fetch and decode the operation at an address. Nothing is mapped at the
/// very end of the address space.
pub fn fetch_op(mem: &RawMemory<'_>, pc: u64, rv64: bool) -> (r: Result<(RvOp, u64), FetchError>)
    ensures
        r == op_at(*mem, pc, rv64),
        r matches Ok(found) ==> op_ok(found.0) && (found.1 == 2 || found.1 == 4) && pc
            + found.1 <= u64::MAX,
{
    let total: usize = mem.bytes.len();
    let xlen = if rv64 {
        rv_asm::Xlen::Rv64
    } else {
        rv_asm::Xlen::Rv32
    };
    let half: u16 = match mem.read64::<2>(pc) {
        Some(bytes) => half_from_bytes(bytes),
        None => return Err(FetchError::Unmapped),
    };
    if half % 4 != 3 {
        return match decode_half(half, xlen) {
            Ok(inst) => Ok((lower(inst), 2)),
            Err(unexpected_field) => Err(
                FetchError::Decode(DecodeError { instruction: half as u32, unexpected_field }),
            ),
        };
    }
    let word: u32 = match mem.read64::<4>(pc) {
        Some(bytes) => word_from_bytes(bytes),
        None => return Err(FetchError::Unmapped),
    };
    match decode_word(word, xlen) {
        Ok(inst) => Ok((lower(inst), 4)),
        Err(unexpected_field) => Err(
            FetchError::Decode(DecodeError { instruction: word, unexpected_field }),
        ),
    }
}

} // verus!
