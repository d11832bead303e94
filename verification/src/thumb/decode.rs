//! Decoding of the supported Thumb and Thumb-2 encodings.
//!
//! The executable decoders test masks in the order of the encoding tables;
//! what they are to decode goes, for the 16-bit encodings, by the five-bit
//! major opcode instead.
use crate::thumb::op::{
    Arithmetic, DecodeError, Decoded, LoadKind, Op, Operand, ShiftAmount, PC, SP,
};
use crate::word::{BitOp, Shift};
use vstd::prelude::*;

verus! {

/// Sign-extend the low `bits` bits of `value`.
pub open spec fn extend_sign(value: u32, bits: u32) -> u32 {
    (((value << ((32 - bits) as u32)) as i32) >> ((32 - bits) as u32)) as u32
}

/// Sign-extend the low `bits` bits of `value`.
pub fn sign_extend(value: u32, bits: u32) -> (r: u32)
    requires
        0 < bits <= 32,
    ensures
        r == extend_sign(value, bits),
{
    ((value << (32 - bits)) as i32 >> (32 - bits)) as u32
}

/// [`extend_sign`] is two's-complement sign extension: it keeps the low bits,
/// and copies the top one of them upwards.
pub proof fn extend_sign_is_signed(value: u32, bits: u32)
    requires
        0 < bits < 32,
    ensures
        extend_sign(value, bits) & sub_one(1u32 << bits) == value & sub_one(1u32 << bits),
        (value >> ((bits - 1) as u32)) & 1 == 0 ==> extend_sign(value, bits) <= sub_one(1u32 << bits),
        (value >> ((bits - 1) as u32)) & 1 == 1 ==> extend_sign(value, bits) | sub_one(1u32 << bits)
            == 0xffff_ffff,
{
    let up = (32 - bits) as u32;
    let top = (bits - 1) as u32;
    let mask = sub_one(1u32 << bits);
    let e = extend_sign(value, bits);
    let one = 1u32 << bits;
    assert(one >= 1) by (bit_vector)
        requires
            one == 1u32 << bits,
            0 < bits < 32,
    ;
    assert(((((value << up) as i32) >> up) as u32) & mask == value & mask && ((value >> top) & 1 == 0
        ==> ((((value << up) as i32) >> up) as u32) <= mask) && ((value >> top) & 1 == 1 ==> (
    (((value << up) as i32) >> up) as u32) | mask == 0xffff_ffff)) by (bit_vector)
        requires
            0 < bits < 32,
            up == 32 - bits,
            top == bits - 1,
            mask == (1u32 << bits) - 1,
    ;
}

/// One less, for a number that is not zero.
pub open spec fn sub_one(v: u32) -> u32 {
    (v - 1) as u32
}

/// A shift field in which zero means thirty-two.
pub open spec fn shift_or_32(value: u16) -> u32 {
    if value == 0 {
        32
    } else {
        value as u32
    }
}

fn nonzero_shift(value: u16) -> (r: u32)
    ensures
        r == shift_or_32(value),
{
    if value == 0 {
        32
    } else {
        value as u32
    }
}

/// The four shift directions of a two-bit type field.
pub open spec fn shift_type(field: u16) -> Shift {
    if field == 0 {
        Shift::Left
    } else if field == 1 {
        Shift::LogicalRight
    } else if field == 2 {
        Shift::ArithmeticRight
    } else {
        Shift::RotateRight
    }
}

fn decode_shift(field: u16) -> (r: Shift)
    ensures
        r == shift_type(field),
{
    match field {
        0 => Shift::Left,
        1 => Shift::LogicalRight,
        2 => Shift::ArithmeticRight,
        _ => Shift::RotateRight,
    }
}

/// An operation from a two-byte encoding.
pub open spec fn narrow(operation: Op) -> Result<Decoded, DecodeError> {
    Ok(Decoded { operation, len: 2 })
}

/// An operation from a four-byte encoding.
pub open spec fn wide(operation: Op) -> Result<Decoded, DecodeError> {
    Ok(Decoded { operation, len: 4 })
}

/// Two-operand data processing on low registers.
pub open spec fn data_op(x: u16) -> Op {
    let dest = (x & 7) as u8;
    let source = ((x >> 3) & 7) as u8;
    let code = (x >> 6) & 15;
    let left = Operand::Register(dest);
    let right = Operand::Register(source);
    let by = ShiftAmount::Register(source);
    if code == 0 {
        Op::Bitwise { kind: BitOp::And, dest, left, right, set_flags: true }
    } else if code == 1 {
        Op::Bitwise { kind: BitOp::Xor, dest, left, right, set_flags: true }
    } else if code == 2 {
        Op::Shift { dest, source: dest, direction: Shift::Left, amount: by, set_flags: true }
    } else if code == 3 {
        Op::Shift { dest, source: dest, direction: Shift::LogicalRight, amount: by, set_flags: true }
    } else if code == 4 {
        Op::Shift {
            dest,
            source: dest,
            direction: Shift::ArithmeticRight,
            amount: by,
            set_flags: true,
        }
    } else if code == 5 {
        Op::Arithmetic { kind: Arithmetic::AddCarry, dest, left, right, set_flags: true }
    } else if code == 6 {
        Op::Arithmetic { kind: Arithmetic::SubCarry, dest, left, right, set_flags: true }
    } else if code == 7 {
        Op::Shift { dest, source: dest, direction: Shift::RotateRight, amount: by, set_flags: true }
    } else if code == 8 {
        Op::Test { left, right }
    } else if code == 9 {
        Op::Arithmetic {
            kind: Arithmetic::ReverseSub,
            dest,
            left: right,
            right: Operand::Immediate(0),
            set_flags: true,
        }
    } else if code == 10 {
        Op::Compare { left, right, add: false }
    } else if code == 11 {
        Op::Compare { left, right, add: true }
    } else if code == 12 {
        Op::Bitwise { kind: BitOp::Or, dest, left, right, set_flags: true }
    } else if code == 13 {
        Op::Multiply { dest, left: dest, right: source, add: None, subtract: false, set_flags: true }
    } else if code == 14 {
        Op::BitClear { dest, left, right, set_flags: true }
    } else {
        Op::MoveNot { dest, source: right, set_flags: true }
    }
}

fn decode16_data(instruction: u16) -> (r: Result<Decoded, DecodeError>)
    ensures
        r == narrow(data_op(instruction)),
{
    let dest: u8 = (instruction & 7) as u8;
    let source: u8 = ((instruction >> 3) & 7) as u8;
    let code: u16 = (instruction >> 6) & 15;
    let left = Operand::Register(dest);
    let right = Operand::Register(source);
    let by = ShiftAmount::Register(source);
    let operation = match code {
        0 => Op::Bitwise { kind: BitOp::And, dest, left, right, set_flags: true },
        1 => Op::Bitwise { kind: BitOp::Xor, dest, left, right, set_flags: true },
        2 => Op::Shift {
            dest,
            source: dest,
            direction: Shift::Left,
            amount: by,
            set_flags: true,
        },
        3 => Op::Shift {
            dest,
            source: dest,
            direction: Shift::LogicalRight,
            amount: by,
            set_flags: true,
        },
        4 => Op::Shift {
            dest,
            source: dest,
            direction: Shift::ArithmeticRight,
            amount: by,
            set_flags: true,
        },
        5 => Op::Arithmetic { kind: Arithmetic::AddCarry, dest, left, right, set_flags: true },
        6 => Op::Arithmetic { kind: Arithmetic::SubCarry, dest, left, right, set_flags: true },
        7 => Op::Shift {
            dest,
            source: dest,
            direction: Shift::RotateRight,
            amount: by,
            set_flags: true,
        },
        8 => Op::Test { left, right },
        9 => Op::Arithmetic {
            kind: Arithmetic::ReverseSub,
            dest,
            left: right,
            right: Operand::Immediate(0),
            set_flags: true,
        },
        10 => Op::Compare { left, right, add: false },
        11 => Op::Compare { left, right, add: true },
        12 => Op::Bitwise { kind: BitOp::Or, dest, left, right, set_flags: true },
        13 => Op::Multiply {
            dest,
            left: dest,
            right: source,
            add: None,
            subtract: false,
            set_flags: true,
        },
        14 => Op::BitClear { dest, left, right, set_flags: true },
        _ => Op::MoveNot { dest, source: right, set_flags: true },
    };
    Ok(Decoded { operation, len: 2 })
}

/// High-register moves, adds, compares and register branches.
pub open spec fn special_op(x: u16) -> Op {
    let code = (x >> 8) & 3;
    let dest = ((x & 7) | ((x >> 4) & 8)) as u8;
    let source = ((x >> 3) & 15) as u8;
    if code == 0 {
        Op::Arithmetic {
            kind: Arithmetic::Add,
            dest,
            left: Operand::Register(dest),
            right: Operand::Register(source),
            set_flags: false,
        }
    } else if code == 1 {
        Op::Compare { left: Operand::Register(dest), right: Operand::Register(source), add: false }
    } else if code == 2 {
        Op::Move { dest, source: Operand::Register(source), set_flags: false }
    } else if x & 0x0004 != 0 {
        Op::BranchExchangeNonSecure { register: source, link: x & 0x0080 != 0 }
    } else if x & 0x0080 == 0 {
        Op::BranchRegister { register: source }
    } else {
        Op::CallRegister { register: source }
    }
}

fn decode16_special(instruction: u16) -> (r: Result<Decoded, DecodeError>)
    ensures
        r == narrow(special_op(instruction)),
{
    let code: u16 = (instruction >> 8) & 3;
    let dest: u8 = ((instruction & 7) | ((instruction >> 4) & 8)) as u8;
    let source: u8 = ((instruction >> 3) & 15) as u8;
    let operation = match code {
        0 => Op::Arithmetic {
            kind: Arithmetic::Add,
            dest,
            left: Operand::Register(dest),
            right: Operand::Register(source),
            set_flags: false,
        },
        1 => Op::Compare {
            left: Operand::Register(dest),
            right: Operand::Register(source),
            add: false,
        },
        2 => Op::Move { dest, source: Operand::Register(source), set_flags: false },
        _ => {
            let non_secure = instruction & 0x0004 != 0;
            match (instruction & 0x0080 == 0, non_secure) {
                (true, false) => Op::BranchRegister { register: source },
                (true, true) => Op::BranchExchangeNonSecure { register: source, link: false },
                (false, false) => Op::CallRegister { register: source },
                (false, true) => Op::BranchExchangeNonSecure { register: source, link: true },
            }
        },
    };
    Ok(Decoded { operation, len: 2 })
}

/// Loads and stores with a register index.
pub open spec fn indexed_op(x: u16) -> Op {
    let code = (x >> 9) & 7;
    let index = ((x >> 6) & 7) as u8;
    let base = ((x >> 3) & 7) as u8;
    let register = (x & 7) as u8;
    if code == 0 {
        Op::StoreIndexed { source: register, base, index, shift: 0, width: 32 }
    } else if code == 1 {
        Op::StoreIndexed { source: register, base, index, shift: 0, width: 16 }
    } else if code == 2 {
        Op::StoreIndexed { source: register, base, index, shift: 0, width: 8 }
    } else if code == 3 {
        Op::LoadIndexed { dest: register, base, index, shift: 0, kind: LoadKind::ByteSigned }
    } else if code == 4 {
        Op::LoadIndexed { dest: register, base, index, shift: 0, kind: LoadKind::Word }
    } else if code == 5 {
        Op::LoadIndexed { dest: register, base, index, shift: 0, kind: LoadKind::HalfUnsigned }
    } else if code == 6 {
        Op::LoadIndexed { dest: register, base, index, shift: 0, kind: LoadKind::ByteUnsigned }
    } else {
        Op::LoadIndexed { dest: register, base, index, shift: 0, kind: LoadKind::HalfSigned }
    }
}

fn decode16_register_load_store(instruction: u16) -> (r: Result<Decoded, DecodeError>)
    ensures
        r == narrow(indexed_op(instruction)),
{
    let code: u16 = (instruction >> 9) & 7;
    let index: u8 = ((instruction >> 6) & 7) as u8;
    let base: u8 = ((instruction >> 3) & 7) as u8;
    let register: u8 = (instruction & 7) as u8;
    let operation = match code {
        0 => Op::StoreIndexed { source: register, base, index, shift: 0, width: 32 },
        1 => Op::StoreIndexed { source: register, base, index, shift: 0, width: 16 },
        2 => Op::StoreIndexed { source: register, base, index, shift: 0, width: 8 },
        3 => Op::LoadIndexed {
            dest: register,
            base,
            index,
            shift: 0,
            kind: LoadKind::ByteSigned,
        },
        4 => Op::LoadIndexed { dest: register, base, index, shift: 0, kind: LoadKind::Word },
        5 => Op::LoadIndexed {
            dest: register,
            base,
            index,
            shift: 0,
            kind: LoadKind::HalfUnsigned,
        },
        6 => Op::LoadIndexed {
            dest: register,
            base,
            index,
            shift: 0,
            kind: LoadKind::ByteUnsigned,
        },
        _ => Op::LoadIndexed {
            dest: register,
            base,
            index,
            shift: 0,
            kind: LoadKind::HalfSigned,
        },
    };
    Ok(Decoded { operation, len: 2 })
}

/// Word and byte loads and stores with a five-bit immediate.
pub open spec fn immediate_op(x: u16) -> Op {
    let byte = (x >> 12) == 7;
    let register = (x & 7) as u8;
    let base = ((x >> 3) & 7) as u8;
    let field = (x >> 6) & 31;
    let offset = if byte {
        field as i32
    } else {
        (field * 4) as i32
    };
    if x & 0x0800 != 0 {
        Op::Load {
            dest: register,
            base,
            offset,
            kind: if byte {
                LoadKind::ByteUnsigned
            } else {
                LoadKind::Word
            },
        }
    } else {
        Op::Store {
            source: register,
            base,
            offset,
            width: if byte {
                8
            } else {
                32
            },
        }
    }
}

fn decode16_immediate_load_store(instruction: u16) -> (r: Result<Decoded, DecodeError>)
    ensures
        r == narrow(immediate_op(instruction)),
{
    proof {
        majors(instruction);
    }
    let byte = instruction & 0xf000 == 0x7000;
    let load = instruction & 0x0800 != 0;
    let scale: u16 = if byte {
        1
    } else {
        4
    };
    let field: u16 = (instruction >> 6) & 31;
    let offset: i32 = (field * scale) as i32;
    let operation = if load {
        Op::Load {
            dest: (instruction & 7) as u8,
            base: ((instruction >> 3) & 7) as u8,
            offset,
            kind: if byte {
                LoadKind::ByteUnsigned
            } else {
                LoadKind::Word
            },
        }
    } else {
        Op::Store {
            source: (instruction & 7) as u8,
            base: ((instruction >> 3) & 7) as u8,
            offset,
            width: if byte {
                8
            } else {
                32
            },
        }
    };
    Ok(Decoded { operation, len: 2 })
}

/// The masks that the decoders test, read as opcode fields, and the ranges of
/// the fields they extract.
pub proof fn majors(x: u16)
    ensures
        (x & 0xff00 == 0xbf00) == (x >> 8 == 0xbf),
        (x & 0xf800 == 0x0000) == (x >> 11 == 0),
        (x & 0xf800 == 0x0800) == (x >> 11 == 1),
        (x & 0xf800 == 0x1000) == (x >> 11 == 2),
        (x & 0xf800 == 0x1800) == (x >> 11 == 3),
        (x & 0xf800 == 0x2000) == (x >> 11 == 4),
        (x & 0xf800 == 0x2800) == (x >> 11 == 5),
        (x & 0xf800 == 0x3000) == (x >> 11 == 6),
        (x & 0xf800 == 0x3800) == (x >> 11 == 7),
        (x & 0xfc00 == 0x4000) == (x >> 10 == 16),
        (x & 0xfc00 == 0x4400) == (x >> 10 == 17),
        (x & 0xf800 == 0x4800) == (x >> 11 == 9),
        (x & 0xf000 == 0x5000) == (x >> 12 == 5),
        (x & 0xe000 == 0x6000) == (x >> 13 == 3),
        (x & 0xf000 == 0x7000) == (x >> 12 == 7),
        (x & 0xf000 == 0x8000) == (x >> 12 == 8),
        (x & 0xf000 == 0x9000) == (x >> 12 == 9),
        (x & 0xf800 == 0xa000) == (x >> 11 == 20),
        (x & 0xf800 == 0xa800) == (x >> 11 == 21),
        (x & 0xff00 == 0xb000) == (x >> 8 == 0xb0),
        (x & 0xf500 == 0xb100) == (x >> 12 == 11 && (x >> 8) & 5 == 1),
        (x & 0xfe00 == 0xb400) == (x >> 9 == 0x5a),
        (x & 0xfe00 == 0xbc00) == (x >> 9 == 0x5e),
        (x & 0xf000 == 0xc000) == (x >> 12 == 12),
        (x & 0xf000 == 0xd000) == (x >> 12 == 13),
        (x & 0xf800 == 0xe000) == (x >> 11 == 28),
        (x >> 11 == 8) == (x >> 10 == 16 || x >> 10 == 17),
        (x >> 12) == (x >> 11) >> 1,
        x >> 11 < 32,
        (x >> 13 == 3) == (x >> 12 == 6 || x >> 12 == 7),
        x >> 8 == 0xbf || x >> 8 == 0xb0 || x >> 9 == 0x5a || x >> 9 == 0x5e ==> x >> 12 == 11,
        x >> 8 == 0xb0 ==> !(x >> 9 == 0x5a || x >> 9 == 0x5e),
        x == 0xbf00 ==> x >> 8 == 0xbf,
        x >> 11 == 20 || x >> 11 == 21 ==> x >> 12 == 10,
        x >> 11 == 28 ==> x >> 12 == 14,
        x & 7 < 8,
        (x >> 3) & 7 < 8,
        (x >> 6) & 7 < 8,
        (x >> 8) & 7 < 8,
        (x >> 3) & 15 < 16,
        (x >> 8) & 15 < 16,
        (x >> 12) & 15 < 16,
        (x >> 4) & 15 < 16,
        (x >> 4) & 3 < 4,
        (x & 7) | ((x >> 4) & 8) < 16,
        x & 15 < 16,
        (x >> 6) & 31 < 32,
        (x >> 6) & 3 < 4,
        (x >> 12) & 7 < 8,
        ((x >> 12) & 7) << 2 | ((x >> 6) & 3) < 32,
        x & 255 < 256,
{
    assert((x & 0xff00 == 0xbf00) == (x >> 8 == 0xbf) && (x & 0xf800 == 0x0000) == (x >> 11 == 0) && (x
        & 0xf800 == 0x0800) == (x >> 11 == 1) && (x & 0xf800 == 0x1000) == (x >> 11 == 2) && (x
        & 0xf800 == 0x1800) == (x >> 11 == 3) && (x & 0xf800 == 0x2000) == (x >> 11 == 4) && (x
        & 0xf800 == 0x2800) == (x >> 11 == 5) && (x & 0xf800 == 0x3000) == (x >> 11 == 6) && (x
        & 0xf800 == 0x3800) == (x >> 11 == 7) && (x & 0xfc00 == 0x4000) == (x >> 10 == 16) && (x
        & 0xfc00 == 0x4400) == (x >> 10 == 17) && (x & 0xf800 == 0x4800) == (x >> 11 == 9) && (x
        & 0xf000 == 0x5000) == (x >> 12 == 5) && (x & 0xe000 == 0x6000) == (x
        >> 13 == 3) && (x & 0xf000 == 0x7000) == (x >> 12 == 7) && (x & 0xf000 == 0x8000) == (x >> 12
        == 8) && (x & 0xf000 == 0x9000) == (x >> 12 == 9) && (x & 0xf800 == 0xa000) == (x >> 11
        == 20) && (x & 0xf800 == 0xa800) == (x >> 11 == 21) && (x & 0xff00 == 0xb000) == (x >> 8
        == 0xb0) && (x & 0xf500 == 0xb100) == (x >> 12 == 11 && (x >> 8) & 5 == 1) && (x & 0xfe00
        == 0xb400) == (x >> 9 == 0x5a) && (x & 0xfe00 == 0xbc00) == (x >> 9 == 0x5e) && (x & 0xf000
        == 0xc000) == (x >> 12 == 12) && (x & 0xf000 == 0xd000) == (x >> 12 == 13) && (x & 0xf800
        == 0xe000) == (x >> 11 == 28)) by (bit_vector);
    assert((x >> 11 == 8) == (x >> 10 == 16 || x >> 10 == 17) && (x >> 12) == (x >> 11) >> 1 && x >> 11
        < 32 && (x >> 13 == 3) == (x >> 12 == 6 || x >> 12 == 7) && (x >> 8 == 0xbf || x >> 8 == 0xb0
        || x >> 9 == 0x5a || x >> 9 == 0x5e ==> x >> 12 == 11) && (x >> 8 == 0xb0 ==> !(x >> 9 == 0x5a
        || x >> 9 == 0x5e)) && (x == 0xbf00 ==> x >> 8 == 0xbf) && (x >> 11 == 20 || x >> 11 == 21 ==> x >> 12 == 10) && (x >> 11 == 28
        ==> x >> 12 == 14)) by (bit_vector);
    assert(x & 7 < 8 && (x >> 3) & 7 < 8 && (x >> 6) & 7 < 8 && (x >> 8) & 7 < 8 && (x >> 3) & 15 < 16
        && (x >> 8) & 15 < 16 && (x >> 12) & 15 < 16 && (x >> 4) & 15 < 16 && (x >> 4) & 3 < 4 && (x
        & 7) | ((x >> 4) & 8) < 16 && x & 15 < 16 && (x >> 6) & 31 < 32 && (x >> 6) & 3 < 4 && (x
        >> 12) & 7 < 8 && ((x >> 12) & 7) << 2 | ((x >> 6) & 3) < 32 && x & 255 < 256) by (bit_vector);
}

/// Where a PC-relative form counts from.
pub open spec fn pc_base(pc: u32) -> u32 {
    pc.wrapping_add(4)
}

/// The word-aligned base of a PC-relative load or address.
pub open spec fn pc_aligned(pc: u32) -> u32 {
    pc_base(pc) & !3u32
}

/// The miscellaneous encodings with a leading `1011`.
pub open spec fn misc_op(pc: u32, x: u16) -> Result<Decoded, DecodeError> {
    if x == 0xbf00 {
        narrow(Op::Nop)
    } else if x >> 8 == 0xbf {
        narrow(Op::It { condition: ((x >> 4) & 15) as u8, mask: (x & 15) as u8 })
    } else if x >> 8 == 0xb0 {
        narrow(
            Op::Arithmetic {
                kind: if x & 0x0080 == 0 {
                    Arithmetic::Add
                } else {
                    Arithmetic::Sub
                },
                dest: SP,
                left: Operand::Register(SP),
                right: Operand::Immediate(((x & 0x7f) << 2) as u32),
                set_flags: false,
            },
        )
    } else if (x >> 8) & 5 == 1 {
        narrow(
            Op::CompareBranch {
                register: (x & 7) as u8,
                nonzero: x & 0x0800 != 0,
                target: pc_base(pc).wrapping_add(
                    ((((x >> 9) & 1) << 6) | (((x >> 3) & 31) << 1)) as u32,
                ),
            },
        )
    } else if x >> 9 == 0x5a {
        narrow(
            Op::Push {
                list: (x & 255) | if x & 0x0100 != 0 {
                    0x4000u16
                } else {
                    0u16
                },
            },
        )
    } else if x >> 9 == 0x5e {
        narrow(
            Op::Pop {
                list: (x & 255) | if x & 0x0100 != 0 {
                    0x8000u16
                } else {
                    0u16
                },
            },
        )
    } else {
        Err(DecodeError::Unsupported(x as u32))
    }
}

/// The operation of a 16-bit encoding at `pc`, by its major opcode.
pub open spec fn narrow_op(pc: u32, x: u16) -> Result<Decoded, DecodeError> {
    let major = x >> 11;
    let low = (x & 7) as u8;
    let mid = ((x >> 3) & 7) as u8;
    let high = ((x >> 8) & 7) as u8;
    let byte = (x & 255) as u32;
    if major == 0 {
        narrow(
            Op::Shift {
                dest: low,
                source: mid,
                direction: Shift::Left,
                amount: ShiftAmount::Immediate(((x >> 6) & 31) as u32),
                set_flags: true,
            },
        )
    } else if major == 1 {
        narrow(
            Op::Shift {
                dest: low,
                source: mid,
                direction: Shift::LogicalRight,
                amount: ShiftAmount::Immediate(shift_or_32((x >> 6) & 31)),
                set_flags: true,
            },
        )
    } else if major == 2 {
        narrow(
            Op::Shift {
                dest: low,
                source: mid,
                direction: Shift::ArithmeticRight,
                amount: ShiftAmount::Immediate(shift_or_32((x >> 6) & 31)),
                set_flags: true,
            },
        )
    } else if major == 3 {
        narrow(
            Op::Arithmetic {
                kind: if x & 0x0200 != 0 {
                    Arithmetic::Sub
                } else {
                    Arithmetic::Add
                },
                dest: low,
                left: Operand::Register(mid),
                right: if x & 0x0400 != 0 {
                    Operand::Immediate(((x >> 6) & 7) as u32)
                } else {
                    Operand::Register(((x >> 6) & 7) as u8)
                },
                set_flags: true,
            },
        )
    } else if major == 4 {
        narrow(Op::Move { dest: high, source: Operand::Immediate(byte), set_flags: true })
    } else if major == 5 {
        narrow(
            Op::Compare {
                left: Operand::Register(high),
                right: Operand::Immediate(byte),
                add: false,
            },
        )
    } else if major == 6 {
        narrow(
            Op::Arithmetic {
                kind: Arithmetic::Add,
                dest: high,
                left: Operand::Register(high),
                right: Operand::Immediate(byte),
                set_flags: true,
            },
        )
    } else if major == 7 {
        narrow(
            Op::Arithmetic {
                kind: Arithmetic::Sub,
                dest: high,
                left: Operand::Register(high),
                right: Operand::Immediate(byte),
                set_flags: true,
            },
        )
    } else if major == 8 {
        if x >> 10 == 16 {
            narrow(data_op(x))
        } else {
            narrow(special_op(x))
        }
    } else if major == 9 {
        narrow(
            Op::Load {
                dest: high,
                base: PC,
                offset: ((x & 255) << 2) as i32,
                kind: LoadKind::Word,
            },
        )
    } else if major >> 1 == 5 {
        narrow(indexed_op(x))
    } else if major >> 1 == 6 || major >> 1 == 7 {
        narrow(immediate_op(x))
    } else if major >> 1 == 8 {
        if x & 0x0800 != 0 {
            narrow(
                Op::Load {
                    dest: low,
                    base: mid,
                    offset: (((x >> 6) & 31) * 2) as i32,
                    kind: LoadKind::HalfUnsigned,
                },
            )
        } else {
            narrow(
                Op::Store {
                    source: low,
                    base: mid,
                    offset: (((x >> 6) & 31) * 2) as i32,
                    width: 16,
                },
            )
        }
    } else if major >> 1 == 9 {
        if x & 0x0800 != 0 {
            narrow(
                Op::Load { dest: high, base: SP, offset: ((x & 255) * 4) as i32, kind: LoadKind::Word },
            )
        } else {
            narrow(Op::Store { source: high, base: SP, offset: ((x & 255) * 4) as i32, width: 32 })
        }
    } else if major == 20 {
        narrow(
            Op::Move {
                dest: high,
                source: Operand::Immediate(pc_aligned(pc).wrapping_add(((x & 255) << 2) as u32)),
                set_flags: false,
            },
        )
    } else if major == 21 {
        narrow(
            Op::Arithmetic {
                kind: Arithmetic::Add,
                dest: high,
                left: Operand::Register(SP),
                right: Operand::Immediate(((x & 255) << 2) as u32),
                set_flags: false,
            },
        )
    } else if major >> 1 == 11 {
        misc_op(pc, x)
    } else if major >> 1 == 12 {
        if x & 0x0800 != 0 {
            narrow(Op::LoadMultiple { base: high, list: x & 255, write_back: true })
        } else {
            narrow(Op::StoreMultiple { base: high, list: x & 255, write_back: true })
        }
    } else if major >> 1 == 13 {
        let condition = ((x >> 8) & 15) as u8;
        if condition == 15 {
            narrow(Op::Svc((x & 255) as u8))
        } else if condition == 14 {
            Err(DecodeError::Unsupported(x as u32))
        } else {
            narrow(
                Op::Branch {
                    target: pc_base(pc).wrapping_add(extend_sign(byte << 1, 9)),
                    condition: Some(condition),
                },
            )
        }
    } else if major == 28 {
        narrow(
            Op::Branch {
                target: pc_base(pc).wrapping_add(extend_sign(((x & 0x7ff) as u32) << 1, 12)),
                condition: None,
            },
        )
    } else {
        Err(DecodeError::Unsupported(x as u32))
    }
}

/// Decode a 16-bit encoding at `pc`.
pub fn decode16(pc: u32, instruction: u16) -> (r: Result<Decoded, DecodeError>)
    ensures
        r == narrow_op(pc, instruction),
        r matches Ok(d) ==> crate::thumb::op::op_ok(d.operation) && d.len == 2,
{
    proof {
        majors(instruction);
        let m = instruction >> 11;
        assert(m < 32 ==> (m >> 1 == 5) == (m == 10 || m == 11) && (m >> 1 == 6) == (m == 12 || m == 13)
            && (m >> 1 == 7) == (m == 14 || m == 15) && (m >> 1 == 8) == (m == 16 || m == 17) && (m >> 1
            == 9) == (m == 18 || m == 19) && (m >> 1 == 10) == (m == 20 || m == 21) && (m >> 1 == 11)
            == (m == 22 || m == 23) && (m >> 1 == 12) == (m == 24 || m == 25) && (m >> 1 == 13) == (m
            == 26 || m == 27)) by (bit_vector);
    }
    let low: u8 = (instruction & 7) as u8;
    let mid: u8 = ((instruction >> 3) & 7) as u8;
    let high: u8 = ((instruction >> 8) & 7) as u8;
    let byte: u32 = (instruction & 255) as u32;
    let base: u32 = pc.wrapping_add(4);
    let operation = if instruction == 0xbf00 {
        Op::Nop
    } else if instruction & 0xff00 == 0xbf00 {
        Op::It { condition: ((instruction >> 4) & 15) as u8, mask: (instruction & 15) as u8 }
    } else if instruction & 0xf800 == 0x0000 {
        Op::Shift {
            dest: low,
            source: mid,
            direction: Shift::Left,
            amount: ShiftAmount::Immediate(((instruction >> 6) & 31) as u32),
            set_flags: true,
        }
    } else if instruction & 0xf800 == 0x0800 {
        Op::Shift {
            dest: low,
            source: mid,
            direction: Shift::LogicalRight,
            amount: ShiftAmount::Immediate(nonzero_shift((instruction >> 6) & 31)),
            set_flags: true,
        }
    } else if instruction & 0xf800 == 0x1000 {
        Op::Shift {
            dest: low,
            source: mid,
            direction: Shift::ArithmeticRight,
            amount: ShiftAmount::Immediate(nonzero_shift((instruction >> 6) & 31)),
            set_flags: true,
        }
    } else if instruction & 0xf800 == 0x1800 {
        let subtract = instruction & 0x0200 != 0;
        let immediate = instruction & 0x0400 != 0;
        let right = if immediate {
            Operand::Immediate(((instruction >> 6) & 7) as u32)
        } else {
            Operand::Register(((instruction >> 6) & 7) as u8)
        };
        Op::Arithmetic {
            kind: if subtract {
                Arithmetic::Sub
            } else {
                Arithmetic::Add
            },
            dest: low,
            left: Operand::Register(mid),
            right,
            set_flags: true,
        }
    } else if instruction & 0xf800 == 0x2000 {
        Op::Move { dest: high, source: Operand::Immediate(byte), set_flags: true }
    } else if instruction & 0xf800 == 0x2800 {
        Op::Compare { left: Operand::Register(high), right: Operand::Immediate(byte), add: false }
    } else if instruction & 0xf800 == 0x3000 {
        Op::Arithmetic {
            kind: Arithmetic::Add,
            dest: high,
            left: Operand::Register(high),
            right: Operand::Immediate(byte),
            set_flags: true,
        }
    } else if instruction & 0xf800 == 0x3800 {
        Op::Arithmetic {
            kind: Arithmetic::Sub,
            dest: high,
            left: Operand::Register(high),
            right: Operand::Immediate(byte),
            set_flags: true,
        }
    } else if instruction & 0xfc00 == 0x4000 {
        return decode16_data(instruction);
    } else if instruction & 0xfc00 == 0x4400 {
        return decode16_special(instruction);
    } else if instruction & 0xf800 == 0x4800 {
        Op::Load {
            dest: high,
            base: PC,
            offset: ((instruction & 255) << 2) as i32,
            kind: LoadKind::Word,
        }
    } else if instruction & 0xf000 == 0x5000 {
        return decode16_register_load_store(instruction);
    } else if instruction & 0xe000 == 0x6000 {
        return decode16_immediate_load_store(instruction);
    } else if instruction & 0xf000 == 0x8000 {
        let field: u16 = (instruction >> 6) & 31;
        if instruction & 0x0800 != 0 {
            Op::Load {
                dest: low,
                base: mid,
                offset: (field * 2) as i32,
                kind: LoadKind::HalfUnsigned,
            }
        } else {
            Op::Store { source: low, base: mid, offset: (field * 2) as i32, width: 16 }
        }
    } else if instruction & 0xf000 == 0x9000 {
        let field: u16 = instruction & 255;
        if instruction & 0x0800 != 0 {
            Op::Load { dest: high, base: SP, offset: (field * 4) as i32, kind: LoadKind::Word }
        } else {
            Op::Store { source: high, base: SP, offset: (field * 4) as i32, width: 32 }
        }
    } else if instruction & 0xf800 == 0xa000 {
        Op::Move {
            dest: high,
            source: Operand::Immediate(
                (base & !3u32).wrapping_add(((instruction & 255) << 2) as u32),
            ),
            set_flags: false,
        }
    } else if instruction & 0xf800 == 0xa800 {
        Op::Arithmetic {
            kind: Arithmetic::Add,
            dest: high,
            left: Operand::Register(SP),
            right: Operand::Immediate(((instruction & 255) << 2) as u32),
            set_flags: false,
        }
    } else if instruction & 0xff00 == 0xb000 {
        Op::Arithmetic {
            kind: if instruction & 0x0080 == 0 {
                Arithmetic::Add
            } else {
                Arithmetic::Sub
            },
            dest: SP,
            left: Operand::Register(SP),
            right: Operand::Immediate(((instruction & 0x7f) << 2) as u32),
            set_flags: false,
        }
    } else if instruction & 0xf500 == 0xb100 {
        let immediate: u16 = (((instruction >> 9) & 1) << 6) | (((instruction >> 3) & 31) << 1);
        Op::CompareBranch {
            register: low,
            nonzero: instruction & 0x0800 != 0,
            target: base.wrapping_add(immediate as u32),
        }
    } else if instruction & 0xfe00 == 0xb400 {
        let link: u16 = if instruction & 0x0100 != 0 {
            0x4000
        } else {
            0
        };
        Op::Push { list: (instruction & 255) | link }
    } else if instruction & 0xfe00 == 0xbc00 {
        let target: u16 = if instruction & 0x0100 != 0 {
            0x8000
        } else {
            0
        };
        Op::Pop { list: (instruction & 255) | target }
    } else if instruction & 0xf000 == 0xc000 {
        if instruction & 0x0800 != 0 {
            Op::LoadMultiple { base: high, list: instruction & 255, write_back: true }
        } else {
            Op::StoreMultiple { base: high, list: instruction & 255, write_back: true }
        }
    } else if instruction & 0xf000 == 0xd000 {
        let condition: u8 = ((instruction >> 8) & 15) as u8;
        if condition == 15 {
            Op::Svc((instruction & 255) as u8)
        } else if condition == 14 {
            return Err(DecodeError::Unsupported(instruction as u32));
        } else {
            Op::Branch {
                target: base.wrapping_add(sign_extend(byte << 1, 9)),
                condition: Some(condition),
            }
        }
    } else if instruction & 0xf800 == 0xe000 {
        Op::Branch {
            target: base.wrapping_add(sign_extend(((instruction & 0x7ff) as u32) << 1, 12)),
            condition: None,
        }
    } else {
        return Err(DecodeError::Unsupported(instruction as u32));
    };
    Ok(Decoded { operation, len: 2 })
}

/// `v` rotated right by `k` bits.
pub open spec fn rotate(v: u32, k: u32) -> u32 {
    if k == 0 {
        v
    } else {
        (v >> k) | (v << ((32 - k) as u32))
    }
}

/// Rotate `v` right by `k` bits.
pub fn rotate_right(v: u32, k: u32) -> (r: u32)
    requires
        k < 32,
    ensures
        r == rotate(v, k),
{
    if k == 0 {
        v
    } else {
        (v >> k) | (v << (32 - k))
    }
}

/// The split twelve-bit field of a modified immediate.
pub open spec fn imm12(first: u16, second: u16) -> u32 {
    ((((first as u32) >> 10) & 1) << 11) | ((((second as u32) >> 12) & 7) << 8) | ((second as u32)
        & 255)
}

/// The value of a modified immediate: a byte replicated in one of four ways,
/// or a byte with its top bit set rotated into place.
pub open spec fn expand_imm(first: u16, second: u16) -> u32 {
    let field = imm12(first, second);
    let byte = field & 255;
    if field >> 10 == 0 {
        if (field >> 8) & 3 == 0 {
            byte
        } else if (field >> 8) & 3 == 1 {
            (byte * 0x0001_0001) as u32
        } else if (field >> 8) & 3 == 2 {
            (byte * 0x0100_0100) as u32
        } else {
            (byte * 0x0101_0101) as u32
        }
    } else {
        rotate(0x80 | (field & 0x7f), (field >> 7) & 31)
    }
}

fn thumb_expand_imm(first: u16, second: u16) -> (r: u32)
    ensures
        r == expand_imm(first, second),
{
    let field: u32 = ((((first as u32) >> 10) & 1) << 11) | ((((second as u32) >> 12) & 7) << 8) | ((
    second as u32) & 255);
    let byte: u32 = field & 255;
    let turn: u32 = (field >> 7) & 31;
    proof {
        assert(field & 255 < 256 && (field >> 7) & 31 < 32) by (bit_vector);
    }
    if field >> 10 == 0 {
        match (field >> 8) & 3 {
            0 => byte,
            1 => byte * 0x0001_0001,
            2 => byte * 0x0100_0100,
            _ => byte * 0x0101_0101,
        }
    } else {
        rotate_right(0x80 | (field & 0x7f), turn)
    }
}

/// The sixteen-bit immediate of `MOVW` and `MOVT`.
pub open spec fn imm16(first: u16, second: u16) -> u32 {
    ((((first as u32) >> 10) & 1) << 11) | (((first as u32) & 15) << 12) | ((((second as u32) >> 12)
        & 7) << 8) | ((second as u32) & 255)
}

/// The shift of a shifted-register operand.
pub open spec fn imm_shift(second: u16) -> u32 {
    (((second >> 12) & 7) << 2 | ((second >> 6) & 3)) as u32
}

/// By how much a shifted-register operand is shifted: a right shift by zero
/// stands for one by thirty-two, and a rotation by zero for the one through the
/// carry, which is not supported.
pub open spec fn shift_amount(second: u16) -> Option<u32> {
    let kind = (second >> 4) & 3;
    if imm_shift(second) != 0 || kind == 0 {
        Some(imm_shift(second))
    } else if kind == 3 {
        None
    } else {
        Some(32)
    }
}

fn decode_amount(second: u16) -> (r: Option<u32>)
    ensures
        r == shift_amount(second),
        r matches Some(n) ==> n <= 32,
{
    proof {
        majors(second);
    }
    let count: u32 = (((second >> 12) & 7) << 2 | ((second >> 6) & 3)) as u32;
    let kind: u16 = (second >> 4) & 3;
    if count != 0 || kind == 0 {
        Some(count)
    } else if kind == 3 {
        None
    } else {
        Some(32)
    }
}

/// The branch offset of `BL`: a sign, two inverted exclusive-ors with it, and
/// two fields.
pub open spec fn branch_offset(first: u16, second: u16) -> u32 {
    let s = ((first >> 10) & 1) as u32;
    let j1 = ((second >> 13) & 1) as u32;
    let j2 = ((second >> 11) & 1) as u32;
    extend_sign(
        (s << 24) | ((!(j1 ^ s) & 1) << 23) | ((!(j2 ^ s) & 1) << 22) | (((first as u32) & 0x03ff)
            << 12) | (((second as u32) & 0x07ff) << 1),
        25,
    )
}

/// The logical operations, whose flag-setting forms take the carry out of a
/// rotated immediate.
pub open spec fn is_logical(code: u16) -> bool {
    code == 0xf000 || code == 0xf020 || code == 0xf040 || code == 0xf080
}

/// A modified-immediate data operation, where it is a supported one. A
/// flag-setting logical operation with a rotated immediate, whose carry out is
/// not modelled, is none, and neither is `TEQ`.
pub open spec fn modified_op(first: u16, second: u16) -> Option<Op> {
    let dest = ((second >> 8) & 15) as u8;
    let left = Operand::Register((first & 15) as u8);
    let right = Operand::Immediate(expand_imm(first, second));
    let code = first & 0xfbe0;
    let set_flags = first & 0x0010 != 0;
    if is_logical(code) && set_flags && imm12(first, second) >> 10 != 0 {
        None
    } else if code == 0xf000 && set_flags && dest == PC {
        Some(Op::Test { left, right })
    } else if code == 0xf000 {
        Some(Op::Bitwise { kind: BitOp::And, dest, left, right, set_flags })
    } else if code == 0xf020 {
        Some(Op::BitClear { dest, left, right, set_flags })
    } else if code == 0xf040 && first & 15 == 15 {
        Some(Op::Move { dest, source: right, set_flags })
    } else if code == 0xf040 {
        Some(Op::Bitwise { kind: BitOp::Or, dest, left, right, set_flags })
    } else if code == 0xf080 && set_flags && dest == PC {
        None
    } else if code == 0xf080 {
        Some(Op::Bitwise { kind: BitOp::Xor, dest, left, right, set_flags })
    } else if code == 0xf100 || code == 0xf1a0 {
        additive_op(code == 0xf100, dest, left, right, set_flags)
    } else {
        None
    }
}

/// An addition or a subtraction of 32 bits. One that sets the flags and names
/// the program counter as its destination is a comparison.
pub open spec fn additive_op(
    add: bool,
    dest: u8,
    left: Operand,
    right: Operand,
    set_flags: bool,
) -> Option<Op> {
    if dest == PC && set_flags {
        Some(Op::Compare { left, right, add })
    } else if dest == PC {
        None
    } else {
        Some(
            Op::Arithmetic {
                kind: if add {
                    Arithmetic::Add
                } else {
                    Arithmetic::Sub
                },
                dest,
                left,
                right,
                set_flags,
            },
        )
    }
}

fn decode_additive(add: bool, dest: u8, left: Operand, right: Operand, set_flags: bool) -> (r: Option<
    Op,
>)
    ensures
        r == additive_op(add, dest, left, right, set_flags),
{
    if dest == PC && set_flags {
        Some(Op::Compare { left, right, add })
    } else if dest == PC {
        None
    } else {
        let kind = if add {
            Arithmetic::Add
        } else {
            Arithmetic::Sub
        };
        Some(Op::Arithmetic { kind, dest, left, right, set_flags })
    }
}

/// A shifted-register data operation, where it is a supported one.
pub open spec fn shifted_op(first: u16, second: u16) -> Option<Op> {
    let dest = ((second >> 8) & 15) as u8;
    let source = (second & 15) as u8;
    let shift = shift_type((second >> 4) & 3);
    let left = Operand::Register((first & 15) as u8);
    let code = first & 0xfff0;
    match shift_amount(second) {
        None => None,
        Some(count) => {
            let amount = ShiftAmount::Immediate(count);
            let right = Operand::Shifted { register: source, shift, amount };
            if code == 0xea00 {
                Some(Op::Bitwise { kind: BitOp::And, dest, left, right, set_flags: false })
            } else if code == 0xea20 {
                Some(Op::BitClear { dest, left, right, set_flags: false })
            } else if code == 0xea40 && first & 15 == 15 {
                Some(Op::Shift { dest, source, direction: shift, amount, set_flags: false })
            } else if code == 0xea40 {
                Some(Op::Bitwise { kind: BitOp::Or, dest, left, right, set_flags: false })
            } else if code == 0xea80 {
                Some(Op::Bitwise { kind: BitOp::Xor, dest, left, right, set_flags: false })
            } else if code == 0xeb00 || code == 0xeb10 || code == 0xeba0 || code == 0xebb0 {
                additive_op(
                    code == 0xeb00 || code == 0xeb10,
                    dest,
                    left,
                    right,
                    code == 0xeb10 || code == 0xebb0,
                )
            } else {
                None
            }
        },
    }
}

/// Both halfwords of a 32-bit encoding.
pub open spec fn full_word(first: u16, second: u16) -> u32 {
    ((first as u32) << 16) | (second as u32)
}

/// The encoding is a modified-immediate data operation.
pub open spec fn is_modified(first: u16, second: u16) -> bool {
    first & 0xf800 == 0xf000 && first & 0xfbf0 != 0xf240 && first & 0xfbf0 != 0xf2c0 && first & 0xfbf0
        != 0xf200 && second & 0x8000 == 0
}

/// An operation of a 32-bit encoding, or the error that rejects it.
pub open spec fn wide_or(operation: Option<Op>, full: u32) -> Result<Decoded, DecodeError> {
    match operation {
        Some(operation) => wide(operation),
        None => Err(DecodeError::Unsupported(full)),
    }
}

/// The operation of a 32-bit encoding at `pc`.
pub open spec fn wide_op(pc: u32, first: u16, second: u16) -> Result<Decoded, DecodeError> {
    let full = full_word(first, second);
    let dest = ((second >> 8) & 15) as u8;
    let data = ((second >> 12) & 15) as u8;
    let source = (second & 15) as u8;
    let base = (first & 15) as u8;
    let code = first & 0xfff0;
    if first == 0xe97f && second == 0xe97f {
        wide(Op::SecureGateway)
    } else if first == 0xf3ef && second & 0xf0ff == 0x8000 {
        if dest < SP {
            wide(Op::ReadApsr { dest })
        } else {
            Err(DecodeError::Malformed(full))
        }
    } else if code == 0xf380 && second == 0x8800 {
        if base < SP {
            wide(Op::WriteApsr { source: base })
        } else {
            Err(DecodeError::Malformed(full))
        }
    } else if first == 0xe92d {
        wide(Op::Push { list: second })
    } else if first == 0xe8bd {
        wide(Op::Pop { list: second })
    } else if code == 0xe880 {
        wide(Op::StoreMultiple { base, list: second, write_back: false })
    } else if code == 0xe890 {
        wide(Op::LoadMultiple { base, list: second, write_back: false })
    } else if code == 0xe9c0 {
        wide(
            Op::StoreDouble {
                first: data,
                second: dest,
                base,
                offset: (((second & 255) as int) * 4) as i32,
            },
        )
    } else if first & 0xffe0 == 0xea00 || first & 0xffe0 == 0xea20 || first & 0xffe0 == 0xea40
        || first & 0xffe0 == 0xea80 || first & 0xffe0 == 0xeb00 || first & 0xffe0 == 0xeba0 {
        wide_or(shifted_op(first, second), full)
    } else if code == 0xf8d0 {
        wide(Op::Load { dest: data, base, offset: (second & 0x0fff) as i32, kind: LoadKind::Word })
    } else if code == 0xf8c0 {
        wide(Op::Store { source: data, base, offset: (second & 0x0fff) as i32, width: 32 })
    } else if code == 0xf850 && second & 0x0fc0 == 0 && base != PC {
        wide(
            Op::LoadIndexed {
                dest: data,
                base,
                index: source,
                shift: ((second >> 4) & 3) as u8,
                kind: LoadKind::Word,
            },
        )
    } else if code == 0xf840 && second & 0x0fc0 == 0 && base != PC {
        wide(
            Op::StoreIndexed {
                source: data,
                base,
                index: source,
                shift: ((second >> 4) & 3) as u8,
                width: 32,
            },
        )
    } else if code == 0xfb00 && second & 0x00e0 == 0 {
        wide(
            Op::Multiply {
                dest,
                left: base,
                right: source,
                add: if data != PC {
                    Some(data)
                } else {
                    None
                },
                subtract: second & 0x10 != 0,
                set_flags: false,
            },
        )
    } else if (code == 0xfba0 || code == 0xfb80) && second & 0x00f0 == 0 {
        wide(
            Op::LongMultiply {
                dest_low: data,
                dest_high: dest,
                left: base,
                right: source,
                signed: code == 0xfb80,
            },
        )
    } else if is_modified(first, second) {
        wide_or(modified_op(first, second), full)
    } else if first & 0xfbf0 == 0xf240 && second & 0x8000 == 0 {
        wide(
            Op::Move { dest, source: Operand::Immediate(imm16(first, second)), set_flags: false },
        )
    } else if first & 0xfbf0 == 0xf2c0 && second & 0x8000 == 0 {
        wide(Op::MoveTop { dest, immediate: imm16(first, second) as u16 })
    } else if first & 0xfbf0 == 0xf200 && second & 0x8000 == 0 {
        wide(
            Op::Arithmetic {
                kind: Arithmetic::Add,
                dest,
                left: Operand::Register(base),
                right: Operand::Immediate(imm12(first, second)),
                set_flags: false,
            },
        )
    } else if first & 0xf800 == 0xf000 && second & 0xd000 == 0xd000 {
        wide(Op::Call { target: pc_base(pc).wrapping_add(branch_offset(first, second)) })
    } else if first & 0xf800 == 0xf000 && second & 0xd000 == 0x9000 {
        wide(
            Op::Branch {
                target: pc_base(pc).wrapping_add(branch_offset(first, second)),
                condition: None,
            },
        )
    } else {
        Err(DecodeError::Unsupported(full))
    }
}

fn decode32_shifted(first: u16, second: u16) -> (r: Option<Op>)
    ensures
        r == shifted_op(first, second),
        r matches Some(operation) ==> crate::thumb::op::op_ok(operation),
{
    proof {
        majors(first);
        majors(second);
    }
    let dest: u8 = ((second >> 8) & 15) as u8;
    let source: u8 = (second & 15) as u8;
    let count: u32 = match decode_amount(second) {
        Some(count) => count,
        None => return None,
    };
    let shift = decode_shift((second >> 4) & 3);
    let left = Operand::Register((first & 15) as u8);
    let amount = ShiftAmount::Immediate(count);
    let right = Operand::Shifted { register: source, shift, amount };
    match first & 0xfff0 {
        0xea00 => Some(Op::Bitwise { kind: BitOp::And, dest, left, right, set_flags: false }),
        0xea20 => Some(Op::BitClear { dest, left, right, set_flags: false }),
        0xea40 => if first & 15 == 15 {
            Some(Op::Shift { dest, source, direction: shift, amount, set_flags: false })
        } else {
            Some(Op::Bitwise { kind: BitOp::Or, dest, left, right, set_flags: false })
        },
        0xea80 => Some(Op::Bitwise { kind: BitOp::Xor, dest, left, right, set_flags: false }),
        0xeb00 => decode_additive(true, dest, left, right, false),
        0xeb10 => decode_additive(true, dest, left, right, true),
        0xeba0 => decode_additive(false, dest, left, right, false),
        0xebb0 => decode_additive(false, dest, left, right, true),
        _ => None,
    }
}

fn decode32_modified(first: u16, second: u16) -> (r: Option<Op>)
    ensures
        r == modified_op(first, second),
        r matches Some(operation) ==> crate::thumb::op::op_ok(operation),
{
    proof {
        majors(first);
        majors(second);
    }
    let dest: u8 = ((second >> 8) & 15) as u8;
    let left = Operand::Register((first & 15) as u8);
    let right = Operand::Immediate(thumb_expand_imm(first, second));
    let set_flags = first & 0x0010 != 0;
    let field: u32 = ((((first as u32) >> 10) & 1) << 11) | ((((second as u32) >> 12) & 7) << 8) | ((
    second as u32) & 255);
    let rotated = field >> 10 != 0;
    match first & 0xfbe0 {
        0xf000 => if set_flags && rotated {
            None
        } else if set_flags && dest == PC {
            Some(Op::Test { left, right })
        } else {
            Some(Op::Bitwise { kind: BitOp::And, dest, left, right, set_flags })
        },
        0xf020 => if set_flags && rotated {
            None
        } else {
            Some(Op::BitClear { dest, left, right, set_flags })
        },
        0xf040 => if set_flags && rotated {
            None
        } else if first & 15 == 15 {
            Some(Op::Move { dest, source: right, set_flags })
        } else {
            Some(Op::Bitwise { kind: BitOp::Or, dest, left, right, set_flags })
        },
        0xf080 => if set_flags && (rotated || dest == PC) {
            None
        } else {
            Some(Op::Bitwise { kind: BitOp::Xor, dest, left, right, set_flags })
        },
        0xf100 => decode_additive(true, dest, left, right, set_flags),
        0xf1a0 => decode_additive(false, dest, left, right, set_flags),
        _ => None,
    }
}

/// Decode a 32-bit encoding at `pc`.
pub fn decode32(pc: u32, first: u16, second: u16) -> (r: Result<Decoded, DecodeError>)
    ensures
        r == wide_op(pc, first, second),
        r matches Ok(d) ==> crate::thumb::op::op_ok(d.operation) && d.len == 4,
{
    proof {
        majors(first);
        majors(second);
        assert((first & 0xfff0 == 0xe880 || first & 0xfff0 == 0xe890 ==> first & 0x20 == 0) && second
            & 0x0fff < 0x1000 && (second & 0xd000 == 0xd000 ==> second & 0x1000 != 0) && (second
            & 0x9000 == 0x9000 ==> second & 0x8000 != 0 && (second & 0x4000 != 0) == (second & 0xd000
            == 0xd000) && (second & 0x4000 == 0) == (second & 0xd000 == 0x9000)) && (second & 0x9000
            != 0x9000 ==> second & 0xd000 != 0xd000 && second & 0xd000 != 0x9000)) by (bit_vector);
    }
    let full: u32 = ((first as u32) << 16) | (second as u32);
    let dest: u8 = ((second >> 8) & 15) as u8;
    let data_register: u8 = ((second >> 12) & 15) as u8;
    let source: u8 = (second & 15) as u8;
    let base: u8 = (first & 15) as u8;

    // SG: the Secure Gateway instruction, a fixed 32-bit encoding with both
    // halfwords identical.
    let operation = if first == 0xe97f && second == 0xe97f {
        Op::SecureGateway
    } else if first == 0xf3ef && second & 0xf0ff == 0x8000 {
        // MRS/MSR APSR_nzcvq. Only the application status view is exposed;
        // exception and execution views stay out of scope.
        if dest >= SP {
            return Err(DecodeError::Malformed(full));
        }
        Op::ReadApsr { dest }
    } else if first & 0xfff0 == 0xf380 && second == 0x8800 {
        if base >= SP {
            return Err(DecodeError::Malformed(full));
        }
        Op::WriteApsr { source: base }
    } else if first == 0xe92d {
        // Load/store multiple and the wide PUSH/POP forms used by compiler
        // prologues.
        Op::Push { list: second }
    } else if first == 0xe8bd {
        Op::Pop { list: second }
    } else if first & 0xfff0 == 0xe880 {
        Op::StoreMultiple { base, list: second, write_back: first & 0x20 != 0 }
    } else if first & 0xfff0 == 0xe890 {
        Op::LoadMultiple { base, list: second, write_back: first & 0x20 != 0 }
    } else if first & 0xfff0 == 0xe9c0 {
        Op::StoreDouble {
            first: data_register,
            second: dest,
            base,
            offset: ((second & 255) as i32) * 4,
        }
    } else if first & 0xffe0 == 0xea00 || first & 0xffe0 == 0xea20 || first & 0xffe0 == 0xea40
        || first & 0xffe0 == 0xea80 || first & 0xffe0 == 0xeb00 || first & 0xffe0 == 0xeba0 {
        // Data processing (shifted register).
        match decode32_shifted(first, second) {
            Some(operation) => operation,
            None => return Err(DecodeError::Unsupported(full)),
        }
    } else if first & 0xfff0 == 0xf8d0 {
        // Single word loads/stores: positive immediate-offset and
        // register-indexed forms. Indexed stack references require a concrete
        // index.
        Op::Load {
            dest: data_register,
            base,
            offset: (second & 0x0fff) as i32,
            kind: LoadKind::Word,
        }
    } else if first & 0xfff0 == 0xf8c0 {
        Op::Store { source: data_register, base, offset: (second & 0x0fff) as i32, width: 32 }
    } else if first & 0xfff0 == 0xf850 && second & 0x0fc0 == 0 && base != PC {
        Op::LoadIndexed {
            dest: data_register,
            base,
            index: source,
            shift: ((second >> 4) & 3) as u8,
            kind: LoadKind::Word,
        }
    } else if first & 0xfff0 == 0xf840 && second & 0x0fc0 == 0 && base != PC {
        Op::StoreIndexed {
            source: data_register,
            base,
            index: source,
            shift: ((second >> 4) & 3) as u8,
            width: 32,
        }
    } else if first & 0xfff0 == 0xfb00 && second & 0x00e0 == 0 {
        Op::Multiply {
            dest,
            left: base,
            right: source,
            add: if data_register != PC {
                Some(data_register)
            } else {
                None
            },
            subtract: second & 0x10 != 0,
            set_flags: false,
        }
    } else if (first & 0xfff0 == 0xfba0 || first & 0xfff0 == 0xfb80) && second & 0x00f0 == 0 {
        Op::LongMultiply {
            dest_low: data_register,
            dest_high: dest,
            left: base,
            right: source,
            signed: first & 0xfff0 == 0xfb80,
        }
    } else if first & 0xf800 == 0xf000 && first & 0xfbf0 != 0xf240 && first & 0xfbf0 != 0xf2c0
        && first & 0xfbf0 != 0xf200 && second & 0x8000 == 0 {
        // Modified-immediate logical/arithmetic instructions.
        match decode32_modified(first, second) {
            Some(operation) => operation,
            None => return Err(DecodeError::Unsupported(full)),
        }
    } else if (first & 0xfbf0 == 0xf240 || first & 0xfbf0 == 0xf2c0 || first & 0xfbf0 == 0xf200)
        && second & 0x8000 == 0 {
        let immediate: u32 = ((((first as u32) >> 10) & 1) << 11) | (((first as u32) & 15) << 12) | (((
        (second as u32) >> 12) & 7) << 8) | ((second as u32) & 255);
        if first & 0xfbf0 == 0xf240 {
            Op::Move { dest, source: Operand::Immediate(immediate), set_flags: false }
        } else if first & 0xfbf0 == 0xf2c0 {
            Op::MoveTop { dest, immediate: immediate as u16 }
        } else {
            // ADDW uses a plain 12-bit immediate.
            let plain: u32 = ((((first as u32) >> 10) & 1) << 11) | ((((second as u32) >> 12) & 7)
                << 8) | ((second as u32) & 255);
            Op::Arithmetic {
                kind: Arithmetic::Add,
                dest,
                left: Operand::Register(base),
                right: Operand::Immediate(plain),
                set_flags: false,
            }
        }
    } else if first & 0xf800 == 0xf000 && second & 0x9000 == 0x9000 {
        // BL and B.W share the split immediate; BL has bit 14 of the second
        // halfword set, B.W has it clear.
        let s: u32 = ((first >> 10) & 1) as u32;
        let j1: u32 = ((second >> 13) & 1) as u32;
        let j2: u32 = ((second >> 11) & 1) as u32;
        let i1: u32 = !(j1 ^ s) & 1;
        let i2: u32 = !(j2 ^ s) & 1;
        let offset: u32 = sign_extend(
            (s << 24) | (i1 << 23) | (i2 << 22) | (((first as u32) & 0x03ff) << 12) | (((
            second as u32) & 0x07ff) << 1),
            25,
        );
        let target: u32 = pc.wrapping_add(4).wrapping_add(offset);
        if second & 0x4000 != 0 {
            Op::Call { target }
        } else {
            Op::Branch { target, condition: None }
        }
    } else {
        return Err(DecodeError::Unsupported(full));
    };
    Ok(Decoded { operation, len: 4 })
}

/// Whether a first halfword opens a 32-bit encoding.
pub open spec fn is_wide(first: u16) -> bool {
    first & 0xe000 == 0xe000 && first & 0x1800 != 0
}

} // verus!
