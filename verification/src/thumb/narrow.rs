//! The sixteen-bit encodings: what a step at each halfword does to registers,
//! flags and memory, in numbers.
use crate::thumb::accesses::{loads, reads_image, stores};
use crate::thumb::control::Answers;
use crate::thumb::effects::{
    after, flag_is, flag_stays, flags_stay, free, goes_on, keeps_distance, only, stands, tells,
    tells_difference, tells_sum, value,
};
use crate::thumb::exec::Frame;
use crate::thumb::machine::{shaped, Cpu, Step};
use crate::thumb::op::{Arithmetic, Decoded, LoadKind, Op, Operand, ShiftAmount};
use crate::word::Shift;
use vstd::arithmetic::power2::*;
use vstd::prelude::*;

verus! {

/// The opcodes of the data instructions, and their fields.
pub proof fn data_fields(x: u16)
    ensures
        x >> 9 == 12 ==> x >> 11 == 3 && x & 0x0200 == 0 && x & 0x0400 == 0,
        x >> 9 == 13 ==> x >> 11 == 3 && x & 0x0200 != 0 && x & 0x0400 == 0,
        x >> 9 == 14 ==> x >> 11 == 3 && x & 0x0200 == 0 && x & 0x0400 != 0,
        x >> 9 == 15 ==> x >> 11 == 3 && x & 0x0200 != 0 && x & 0x0400 != 0,
        256 <= x >> 6 && x >> 6 < 272 ==> x >> 11 == 8 && x >> 10 == 16 && 256 + ((x >> 6) & 15) == x >> 6,
        0x44 <= x >> 8 && x >> 8 < 0x48 ==> x >> 11 == 8 && x >> 10 == 17 && 0x44 + ((x >> 8) & 3) == x >> 8,
        x >> 7 == 0x8e ==> x >> 8 == 0x47 && x & 0x0080 == 0,
        x >> 7 == 0x8f ==> x >> 8 == 0x47 && x & 0x0080 != 0,
        (x & 0x0004 != 0) == ((x >> 2) & 1 == 1),
        (x & 7) | ((x >> 4) & 8) == (x & 7) + 8 * ((x >> 7) & 1),
        x & 7 < 8 && (x >> 3) & 7 < 8 && (x >> 6) & 7 < 8 && (x >> 8) & 7 < 8 && (x >> 3) & 15 < 16 && (x >> 7) & 1 < 2 && (x >> 6) & 31 < 32 && x & 255 < 256 && x & 127 < 128 && (x >> 3) & 31 < 32 && (x >> 9) & 1 < 2,
        x >> 11 < 29 ==> !(x & 0xe000 == 0xe000 && x & 0x1800 != 0),
{
    assert((x >> 9 == 12 ==> x >> 11 == 3 && x & 0x0200 == 0 && x & 0x0400 == 0) && (x >> 9 == 13 ==> x >> 11 == 3 && x & 0x0200 != 0 && x & 0x0400 == 0) && (x >> 9 == 14 ==> x >> 11 == 3 && x & 0x0200 == 0 && x & 0x0400 != 0) && (x >> 9 == 15 ==> x >> 11 == 3 && x & 0x0200 != 0 && x & 0x0400 != 0) && (256 <= x >> 6 && x >> 6 < 272 ==> x >> 11 == 8 && x >> 10 == 16 && 256 + ((x >> 6) & 15) == x >> 6) && (0x44 <= x >> 8 && x >> 8 < 0x48 ==> x >> 11 == 8 && x >> 10 == 17 && 0x44 + ((x >> 8) & 3) == x >> 8) && (x >> 7 == 0x8e ==> x >> 8 == 0x47 && x & 0x0080 == 0) && (x >> 7 == 0x8f ==> x >> 8 == 0x47 && x & 0x0080 != 0) && ((x & 0x0004 != 0) == ((x >> 2) & 1 == 1)) && ((x & 7) | ((x >> 4) & 8) == (x & 7) + 8 * ((x >> 7) & 1)) && (x & 7 < 8 && (x >> 3) & 7 < 8 && (x >> 6) & 7 < 8 && (x >> 8) & 7 < 8 && (x >> 3) & 15 < 16 && (x >> 7) & 1 < 2 && (x >> 6) & 31 < 32 && x & 255 < 256 && x & 127 < 128 && (x >> 3) & 31 < 32 && (x >> 9) & 1 < 2) && (x >> 11 < 29 ==> !(x & 0xe000 == 0xe000 && x & 0x1800 != 0))) by (bit_vector);
}

/// The opcodes of the loads, stores and address computations.
pub proof fn memory_fields(x: u16)
    ensures
        40 <= x >> 9 && x >> 9 < 48 ==> (x >> 11) >> 1 == 5 && x >> 11 < 12 && x >> 11 >= 10 && 40 + ((x >> 9) & 7) == x >> 9,
        x >> 11 == 12 ==> (x >> 11) >> 1 == 6 && x >> 12 == 6 && x & 0x0800 == 0,
        x >> 11 == 13 ==> (x >> 11) >> 1 == 6 && x >> 12 == 6 && x & 0x0800 != 0,
        x >> 11 == 14 ==> (x >> 11) >> 1 == 7 && x >> 12 == 7 && x & 0x0800 == 0,
        x >> 11 == 15 ==> (x >> 11) >> 1 == 7 && x >> 12 == 7 && x & 0x0800 != 0,
        x >> 11 == 16 ==> (x >> 11) >> 1 == 8 && x >> 12 == 8 && x & 0x0800 == 0,
        x >> 11 == 17 ==> (x >> 11) >> 1 == 8 && x >> 12 == 8 && x & 0x0800 != 0,
        x >> 11 == 18 ==> (x >> 11) >> 1 == 9 && x >> 12 == 9 && x & 0x0800 == 0,
        x >> 11 == 19 ==> (x >> 11) >> 1 == 9 && x >> 12 == 9 && x & 0x0800 != 0,
        x >> 11 == 10 || x >> 11 == 11 ==> (x >> 11) >> 1 == 5,
        x >> 11 == 20 ==> (x >> 11) >> 1 == 10,
        x >> 11 == 21 ==> (x >> 11) >> 1 == 10,
        x >> 11 == 24 ==> (x >> 11) >> 1 == 12 && x & 0x0800 == 0,
        x >> 11 == 25 ==> (x >> 11) >> 1 == 12 && x & 0x0800 != 0,
        x >> 11 == 28 ==> (x >> 11) >> 1 == 14,
        (x & 255) << 2 == 4 * (x & 255),
        (x & 0x7f) << 2 == 4 * (x & 0x7f),
{
    assert((40 <= x >> 9 && x >> 9 < 48 ==> (x >> 11) >> 1 == 5 && x >> 11 < 12 && x >> 11 >= 10 && 40 + ((x >> 9) & 7) == x >> 9) && (x >> 11 == 12 ==> (x >> 11) >> 1 == 6 && x >> 12 == 6 && x & 0x0800 == 0) && (x >> 11 == 13 ==> (x >> 11) >> 1 == 6 && x >> 12 == 6 && x & 0x0800 != 0) && (x >> 11 == 14 ==> (x >> 11) >> 1 == 7 && x >> 12 == 7 && x & 0x0800 == 0) && (x >> 11 == 15 ==> (x >> 11) >> 1 == 7 && x >> 12 == 7 && x & 0x0800 != 0) && (x >> 11 == 16 ==> (x >> 11) >> 1 == 8 && x >> 12 == 8 && x & 0x0800 == 0) && (x >> 11 == 17 ==> (x >> 11) >> 1 == 8 && x >> 12 == 8 && x & 0x0800 != 0) && (x >> 11 == 18 ==> (x >> 11) >> 1 == 9 && x >> 12 == 9 && x & 0x0800 == 0) && (x >> 11 == 19 ==> (x >> 11) >> 1 == 9 && x >> 12 == 9 && x & 0x0800 != 0) && (x >> 11 == 10 || x >> 11 == 11 ==> (x >> 11) >> 1 == 5) && (x >> 11 == 20 ==> (x >> 11) >> 1 == 10) && (x >> 11 == 21 ==> (x >> 11) >> 1 == 10) && (x >> 11 == 24 ==> (x >> 11) >> 1 == 12 && x & 0x0800 == 0) && (x >> 11 == 25 ==> (x >> 11) >> 1 == 12 && x & 0x0800 != 0) && (x >> 11 == 28 ==> (x >> 11) >> 1 == 14) && ((x & 255) << 2 == 4 * (x & 255)) && ((x & 0x7f) << 2 == 4 * (x & 0x7f))) by (bit_vector);
}

/// The opcodes of the stack, condition and branch instructions.
pub proof fn control_fields(x: u16)
    ensures
        x >> 12 == 11 ==> (x >> 11 == 22 || x >> 11 == 23) && (x >> 11) >> 1 == 11,
        x >> 7 == 0x160 ==> x >> 8 == 0xb0 && x >> 12 == 11 && x & 0x0080 == 0,
        x >> 7 == 0x161 ==> x >> 8 == 0xb0 && x >> 12 == 11 && x & 0x0080 != 0,
        x >> 8 == 0xb1 ==> (x >> 8) & 5 == 1 && x >> 12 == 11 && x & 0x0800 == 0,
        x >> 8 == 0xb3 ==> (x >> 8) & 5 == 1 && x >> 12 == 11 && x & 0x0800 == 0,
        x >> 8 == 0xb9 ==> (x >> 8) & 5 == 1 && x >> 12 == 11 && x & 0x0800 != 0,
        x >> 8 == 0xbb ==> (x >> 8) & 5 == 1 && x >> 12 == 11 && x & 0x0800 != 0,
        x >> 9 == 0x5a ==> x >> 12 == 11 && (x >> 8) & 5 != 1 && x >> 8 != 0xb0 && x >> 8 != 0xbf,
        x >> 9 == 0x5e ==> x >> 12 == 11 && (x >> 8) & 5 != 1 && x >> 8 != 0xb0 && x >> 8 != 0xbf,
        x >> 8 == 0xbf ==> x >> 12 == 11,
        x == 0xbf00 ==> x >> 8 == 0xbf,
        ((((x >> 9) & 1) << 6) | (((x >> 3) & 31) << 1)) == 64 * ((x >> 9) & 1) + 2 * ((x >> 3) & 31),
        x >> 12 == 13 ==> (x >> 11 == 26 || x >> 11 == 27) && (x >> 11) >> 1 == 13 && 0xd0 + ((x >> 8) & 15) == x >> 8,
        0xd0 <= x >> 8 && x >> 8 < 0xe0 ==> x >> 12 == 13,
        x >> 12 == 11 && (x >> 8) & 5 == 1 ==> x >> 8 == 0xb1 || x >> 8 == 0xb3 || x >> 8 == 0xb9 || x >> 8 == 0xbb,
        x & 15 < 16 && (x >> 4) & 15 < 16 && (x >> 8) & 15 < 16 && x & 7 < 8 && (x >> 9) & 1 < 2 && (x >> 3) & 31 < 32 && x & 255 < 256 && x & 0x7f < 128 && x & 0x7ff < 2048,
        x & 0x0100 != 0 <==> (x >> 8) & 1 == 1,
        (x >> 9 == 0x5a) == (x >> 8 == 0xb4 || x >> 8 == 0xb5),
        (x >> 9 == 0x5e) == (x >> 8 == 0xbc || x >> 8 == 0xbd),
        ((((x >> 4) & 15) as u8) << 4) | ((x & 15) as u8) == (x & 255) as u8,
        ((((x >> 4) & 15) as u8) as u32) << 4 | (((x & 15) as u8) as u32) == (x & 255) as u32,
{
    assert(((x >> 9 == 0x5a) == (x >> 8 == 0xb4 || x >> 8 == 0xb5)) && ((x >> 9 == 0x5e) == (x >> 8 == 0xbc || x >> 8 == 0xbd)) && (((((x >> 4) & 15) as u8) << 4) | ((x & 15) as u8) == (x & 255) as u8) && (((((x >> 4) & 15) as u8) as u32) << 4 | (((x & 15) as u8) as u32) == (x & 255) as u32) && (x >> 12 == 11 ==> (x >> 11 == 22 || x >> 11 == 23) && (x >> 11) >> 1 == 11) && (x >> 7 == 0x160 ==> x >> 8 == 0xb0 && x >> 12 == 11 && x & 0x0080 == 0) && (x >> 7 == 0x161 ==> x >> 8 == 0xb0 && x >> 12 == 11 && x & 0x0080 != 0) && (x >> 8 == 0xb1 ==> (x >> 8) & 5 == 1 && x >> 12 == 11 && x & 0x0800 == 0) && (x >> 8 == 0xb3 ==> (x >> 8) & 5 == 1 && x >> 12 == 11 && x & 0x0800 == 0) && (x >> 8 == 0xb9 ==> (x >> 8) & 5 == 1 && x >> 12 == 11 && x & 0x0800 != 0) && (x >> 8 == 0xbb ==> (x >> 8) & 5 == 1 && x >> 12 == 11 && x & 0x0800 != 0) && (x >> 9 == 0x5a ==> x >> 12 == 11 && (x >> 8) & 5 != 1 && x >> 8 != 0xb0 && x >> 8 != 0xbf) && (x >> 9 == 0x5e ==> x >> 12 == 11 && (x >> 8) & 5 != 1 && x >> 8 != 0xb0 && x >> 8 != 0xbf) && (x >> 8 == 0xbf ==> x >> 12 == 11) && (x == 0xbf00 ==> x >> 8 == 0xbf) && (((((x >> 9) & 1) << 6) | (((x >> 3) & 31) << 1)) == 64 * ((x >> 9) & 1) + 2 * ((x >> 3) & 31)) && (x >> 12 == 13 ==> (x >> 11 == 26 || x >> 11 == 27) && (x >> 11) >> 1 == 13 && 0xd0 + ((x >> 8) & 15) == x >> 8) && (0xd0 <= x >> 8 && x >> 8 < 0xe0 ==> x >> 12 == 13) && (x >> 12 == 11 && (x >> 8) & 5 == 1 ==> x >> 8 == 0xb1 || x >> 8 == 0xb3 || x >> 8 == 0xb9 || x >> 8 == 0xbb) && (x & 15 < 16 && (x >> 4) & 15 < 16 && (x >> 8) & 15 < 16 && x & 7 < 8 && (x >> 9) & 1 < 2 && (x >> 3) & 31 < 32 && x & 255 < 256 && x & 0x7f < 128 && x & 0x7ff < 2048) && (x & 0x0100 != 0 <==> (x >> 8) & 1 == 1)) by (bit_vector);
}

/// The instruction at a halfword.
pub proof fn fetched(c: Cpu, frame: Frame<'_>, x: u16)
    requires
        stands(frame, c.pc, x),
        x >> 11 < 29,
    ensures
        crate::thumb::early_exit::instruction_at(frame.mem, c.pc) == match crate::thumb::decode::narrow_op(
            c.pc,
            x,
        ) {
            Ok(d) => Ok::<Decoded, crate::thumb::early_exit::FetchError>(d),
            Err(e) => Err(crate::thumb::early_exit::FetchError::Decode(e)),
        },
{
    data_fields(x);
    crate::memory::le_num_2(frame.mem.reads(c.pc, 2)->0);
}

proof fn shifts_decode(pc: u32, x: u16)
    requires
        x >> 11 < 3,
    ensures
        x & 7 < 8,
        (x >> 3) & 7 < 8,
        (x >> 6) & 31 < 32,
        crate::thumb::decode::narrow_op(pc, x) == Ok::<Decoded, crate::thumb::op::DecodeError>(
            Decoded {
                operation: Op::Shift {
                    dest: (x & 7) as u8,
                    source: ((x >> 3) & 7) as u8,
                    direction: if x >> 11 == 0 {
                        Shift::Left
                    } else if x >> 11 == 1 {
                        Shift::LogicalRight
                    } else {
                        Shift::ArithmeticRight
                    },
                    amount: ShiftAmount::Immediate(
                        if x >> 11 > 0 && (x >> 6) & 31 == 0 {
                            32
                        } else {
                            ((x >> 6) & 31) as u32
                        },
                    ),
                    set_flags: true,
                },
                len: 2,
            },
        ),
{
    data_fields(x);
}

/// What is left of a 32-bit number after a division by 2^32.
proof fn lost_by_all(v: int)
    requires
        0 <= v < 0x1_0000_0000,
    ensures
        v / (pow2(32) as int) == 0,
        crate::thumb::effects::two(v) / (pow2(32) as int) == if v >= 0x8000_0000 {
            -1int
        } else {
            0
        },
{
    lemma2_to64();
}

/// `LSLS`, `LSRS` and `ASRS` by an immediate: a product with, or a quotient by,
/// a power of two. A right shift by zero stands for one by thirty-two.
#[verifier::rlimit(40)]
pub proof fn shifts_by_constants(c: Cpu, cells: Seq<bool>, frame: Frame<'_>, answers: Answers, x: u16)
    requires
        free(c, answers),
        stands(frame, c.pc, x),
        x >> 11 < 3,
    ensures
        ({
            let s = c.step(cells, frame, answers);
            let n = after(s);
            let d = (x & 7) as int;
            let m = ((x >> 3) & 7) as int;
            let f = ((x >> 6) & 31) as int;
            let k: int = if f == 0 { 32 } else { f };
            &&& goes_on(s, c, cells, 2)
            &&& only(c, n, d)
            &&& n.known[d] == c.known[m]
            &&& n.offsets[d] is None
            &&& tells(n, value(n, d), c.known[m])
            &&& flag_stays(c, n, 3)
            &&& flag_stays(c, n, 4)
            &&& x >> 11 == 0 ==> value(n, d) == (value(c, m) * pow2(f as nat)) % 0x1_0000_0000
                && if f == 0 {
                flag_stays(c, n, 2)
            } else {
                flag_is(n, 2, c.regs[m][32 - f], c.known[m])
            }
            &&& x >> 11 == 1 ==> value(n, d) == value(c, m) / (pow2(k as nat) as int) && flag_is(
                n,
                2,
                c.regs[m][k - 1],
                c.known[m],
            )
            &&& x >> 11 == 2 ==> crate::bits::signed(n.regs[d]) == crate::bits::signed(c.regs[m]) / (
            pow2(k as nat) as int) && flag_is(n, 2, c.regs[m][k - 1], c.known[m])
        }),
{
    shifts_decode(c.pc, x);
    fetched(c, frame, x);
    let d = crate::thumb::decode::narrow_op(c.pc, x)->Ok_0;
    let m = ((x >> 3) & 7) as int;
    crate::thumb::effects::computes(c, cells, frame, answers, d);
    let direction = d.operation->Shift_direction;
    let amount = d.operation->Shift_amount;
    let r = c.shift((x & 7) as int, m, direction, amount, true);
    assert(c.compute(d.operation) == Some(r));
    crate::thumb::effects::shift_in_numbers(c, (x & 7) as int, m, direction, amount, true);
    lemma2_to64();
    lemma2_to64_rest();
    crate::thumb::effects::word_facts(c.regs[m]);
    crate::thumb::effects::word_facts(r.regs[(x & 7) as int]);
    lost_by_all(crate::bits::num(c.regs[m]) as int);
}

/// `ADDS` and `SUBS` of a register and a register or a three-bit constant:
/// the sum or difference modulo 2^32, with the flags it sets.
pub proof fn sums_of_low_registers(c: Cpu, cells: Seq<bool>, frame: Frame<'_>, answers: Answers, x: u16)
    requires
        free(c, answers),
        stands(frame, c.pc, x),
        12 <= x >> 9 && x >> 9 < 16,
    ensures
        ({
            let s = c.step(cells, frame, answers);
            let n = after(s);
            let d = (x & 7) as int;
            let m = ((x >> 3) & 7) as int;
            let f = ((x >> 6) & 7) as int;
            let constant = x >> 9 >= 14;
            let b = if constant { f } else { value(c, f) };
            let known = c.known[m] && (constant || c.known[f]);
            &&& goes_on(s, c, cells, 2)
            &&& only(c, n, d)
            &&& n.known[d] == known
            &&& x >> 9 == 12 || x >> 9 == 14 ==> value(n, d) == (value(c, m) + b) % 0x1_0000_0000
                && tells_sum(c, n, value(c, m), b, 0, known)
            &&& x >> 9 == 13 || x >> 9 == 15 ==> value(n, d) == (value(c, m) - b) % 0x1_0000_0000
                && tells_difference(c, n, value(c, m), b, 0, known)
            &&& x >> 9 == 14 ==> keeps_distance(c, n, d, m, f)
            &&& x >> 9 == 15 ==> keeps_distance(c, n, d, m, -f)
            &&& !constant ==> n.offsets[d] is None
        }),
{
    data_fields(x);
    fetched(c, frame, x);
    let d = crate::thumb::decode::narrow_op(c.pc, x)->Ok_0;
    crate::thumb::effects::computes(c, cells, frame, answers, d);
    let kind = d.operation->Arithmetic_kind;
    let left = d.operation->Arithmetic_left;
    let right = d.operation->Arithmetic_right;
    crate::concrete::word_num(((x >> 6) & 7) as u32);
    crate::thumb::effects::arithmetic_in_numbers(c, kind, (x & 7) as int, left, right, true);
    crate::thumb::effects::arithmetic_keeps_distance(c, kind, (x & 7) as int, left, right, true);
}

/// `MOVS`, `CMP`, `ADDS` and `SUBS` with a byte: the byte itself, the flags of a
/// difference, or the sum or difference of the register and the byte.
pub proof fn operations_with_bytes(c: Cpu, cells: Seq<bool>, frame: Frame<'_>, answers: Answers, x: u16)
    requires
        free(c, answers),
        stands(frame, c.pc, x),
        4 <= x >> 11 && x >> 11 < 8,
    ensures
        ({
            let s = c.step(cells, frame, answers);
            let n = after(s);
            let d = ((x >> 8) & 7) as int;
            let b = (x & 255) as int;
            &&& goes_on(s, c, cells, 2)
            &&& x >> 11 == 4 ==> {
                &&& only(c, n, d)
                &&& value(n, d) == b
                &&& n.known[d]
                &&& n.offsets[d] is None
                &&& tells(n, b, true)
                &&& flag_stays(c, n, 2)
                &&& flag_stays(c, n, 3)
                &&& flag_stays(c, n, 4)
            }
            &&& x >> 11 == 5 ==> only(c, n, 16) && tells_difference(
                c,
                n,
                value(c, d),
                b,
                0,
                c.known[d],
            )
            &&& x >> 11 == 6 ==> {
                &&& only(c, n, d)
                &&& value(n, d) == (value(c, d) + b) % 0x1_0000_0000
                &&& n.known[d] == c.known[d]
                &&& n.offsets[d] is None
                &&& tells_sum(c, n, value(c, d), b, 0, c.known[d])
            }
            &&& x >> 11 == 7 ==> {
                &&& only(c, n, d)
                &&& value(n, d) == (value(c, d) - b) % 0x1_0000_0000
                &&& n.known[d] == c.known[d]
                &&& n.offsets[d] is None
                &&& tells_difference(c, n, value(c, d), b, 0, c.known[d])
            }
        }),
{
    data_fields(x);
    fetched(c, frame, x);
    let d = crate::thumb::decode::narrow_op(c.pc, x)->Ok_0;
    crate::thumb::effects::computes(c, cells, frame, answers, d);
    let v = (x & 255) as u32;
    let left = Operand::Register(((x >> 8) & 7) as u8);
    let right = Operand::Immediate(v);
    crate::concrete::word_num(v);
    crate::thumb::effects::word_facts(crate::concrete::word(v));
    if x >> 11 == 5 {
        crate::thumb::effects::compare_in_numbers(c, left, right, false);
    } else if x >> 11 > 5 {
        let kind = d.operation->Arithmetic_kind;
        crate::thumb::effects::arithmetic_in_numbers(c, kind, ((x >> 8) & 7) as int, left, right, true);
        crate::thumb::effects::arithmetic_keeps_distance(
            c,
            kind,
            ((x >> 8) & 7) as int,
            left,
            right,
            true,
        );
    }
}

/// `LSLS`, `LSRS`, `ASRS` and `RORS` by the low byte of a register.
pub proof fn shifts_by_registers(c: Cpu, cells: Seq<bool>, frame: Frame<'_>, answers: Answers, x: u16)
    requires
        free(c, answers),
        stands(frame, c.pc, x),
        x >> 6 == 258 || x >> 6 == 259 || x >> 6 == 260 || x >> 6 == 263,
    ensures
        ({
            let s = c.step(cells, frame, answers);
            let n = after(s);
            let d = (x & 7) as int;
            let m = ((x >> 3) & 7) as int;
            let j = value(c, m) % 256;
            let known = c.known[d] && c.known[m];
            &&& goes_on(s, c, cells, 2)
            &&& only(c, n, d)
            &&& n.known[d] == known
            &&& n.offsets[d] is None
            &&& tells(n, value(n, d), known)
            &&& flag_stays(c, n, 3)
            &&& flag_stays(c, n, 4)
            &&& c.known[m] && j == 0 ==> flag_stays(c, n, 2)
            &&& !c.known[m] && j == 0 ==> flag_is(n, 2, c.flags[2], false)
            &&& x >> 6 == 258 ==> value(n, d) == if j < 32 {
                (value(c, d) * pow2(j as nat)) % 0x1_0000_0000
            } else {
                0
            } && (j > 0 ==> flag_is(n, 2, j <= 32 && c.regs[d][32 - j], known))
            &&& x >> 6 == 259 ==> value(n, d) == if j < 32 {
                value(c, d) / (pow2(j as nat) as int)
            } else {
                0
            } && (j > 0 ==> flag_is(n, 2, j <= 32 && c.regs[d][j - 1], known))
            &&& x >> 6 == 260 ==> crate::bits::signed(n.regs[d]) == (if j < 32 {
                crate::bits::signed(c.regs[d]) / (pow2(j as nat) as int)
            } else if c.regs[d][31] {
                -1
            } else {
                0
            }) && (j > 0 ==> flag_is(n, 2, c.regs[d][if j <= 32 { j - 1 } else { 31 }], known))
            &&& x >> 6 == 263 ==> (forall|i: int|
                0 <= i < 32 ==> #[trigger] n.regs[d][i] == c.regs[d][(i + j) % 32]) && (j > 0
                ==> flag_is(n, 2, c.regs[d][(j - 1) % 32], known))
        }),
{
    data_fields(x);
    fetched(c, frame, x);
    let d = crate::thumb::decode::narrow_op(c.pc, x)->Ok_0;
    crate::thumb::effects::computes(c, cells, frame, answers, d);
    crate::thumb::effects::shift_in_numbers(
        c,
        (x & 7) as int,
        (x & 7) as int,
        d.operation->Shift_direction,
        d.operation->Shift_amount,
        true,
    );
    crate::thumb::effects::word_facts(c.regs[(x & 7) as int]);
    crate::thumb::effects::word_facts(after(c.step(cells, frame, answers)).regs[(x & 7) as int]);
}

/// `ANDS`, `EORS`, `TST`, `ORRS`, `BICS` and `MVNS`: every bit of the result by
/// the two bits at its place. A constant that alone decides the result makes it
/// known.
pub proof fn bitwise_on_low_registers(c: Cpu, cells: Seq<bool>, frame: Frame<'_>, answers: Answers, x: u16)
    requires
        free(c, answers),
        stands(frame, c.pc, x),
        x >> 6 == 256 || x >> 6 == 257 || x >> 6 == 264 || x >> 6 == 268 || x >> 6 == 270 || x >> 6 == 271,
    ensures
        ({
            let s = c.step(cells, frame, answers);
            let n = after(s);
            let d = (x & 7) as int;
            let m = ((x >> 3) & 7) as int;
            let a = c.regs[d];
            let b = c.regs[m];
            let both = c.known[d] && c.known[m];
            &&& goes_on(s, c, cells, 2)
            &&& flag_stays(c, n, 2)
            &&& flag_stays(c, n, 3)
            &&& flag_stays(c, n, 4)
            &&& x >> 6 != 264 ==> only(c, n, d) && n.offsets[d] is None && tells(
                n,
                value(n, d),
                n.known[d],
            )
            &&& x >> 6 == 256 ==> (forall|i: int|
                0 <= i < 32 ==> #[trigger] n.regs[d][i] == (a[i] && b[i])) && n.known[d] == (both || (
            c.known[d] && value(c, d) == 0) || (c.known[m] && value(c, m) == 0))
            &&& x >> 6 == 257 ==> (forall|i: int|
                0 <= i < 32 ==> #[trigger] n.regs[d][i] == (a[i] != b[i])) && n.known[d] == both
            &&& x >> 6 == 264 ==> {
                &&& only(c, n, 16)
                &&& flag_is(n, 0, a[31] && b[31], both)
                &&& flag_is(n, 1, forall|i: int| 0 <= i < 32 ==> !(#[trigger] a[i] && b[i]), both)
            }
            &&& x >> 6 == 268 ==> (forall|i: int|
                0 <= i < 32 ==> #[trigger] n.regs[d][i] == (a[i] || b[i])) && n.known[d] == (both || (
            c.known[d] && value(c, d) == 0xffff_ffff) || (c.known[m] && value(c, m) == 0xffff_ffff))
            &&& x >> 6 == 270 ==> (forall|i: int|
                0 <= i < 32 ==> #[trigger] n.regs[d][i] == (a[i] && !b[i])) && n.known[d] == (both || (
            c.known[d] && value(c, d) == 0) || (c.known[m] && value(c, m) == 0xffff_ffff))
            &&& x >> 6 == 271 ==> (forall|i: int| 0 <= i < 32 ==> #[trigger] n.regs[d][i] == !b[i])
                && n.known[d] == c.known[m]
        }),
{
    data_fields(x);
    fetched(c, frame, x);
    let d = crate::thumb::decode::narrow_op(c.pc, x)->Ok_0;
    crate::thumb::effects::computes(c, cells, frame, answers, d);
    let a = c.regs[(x & 7) as int];
    let b = c.regs[((x >> 3) & 7) as int];
    crate::thumb::effects::spelled_word(a, 0);
    crate::thumb::effects::spelled_word(b, 0);
    crate::thumb::effects::spelled_word(a, 0xffff_ffff);
    crate::thumb::effects::spelled_word(b, 0xffff_ffff);
    let n = after(c.step(cells, frame, answers));
    if x >> 6 == 264 {
        let w = crate::bits::and_bits(a, b);
        crate::bits::num_zero(w);
        assert((forall|i: int| 0 <= i < w.len() ==> !#[trigger] w[i]) == (forall|i: int|
            0 <= i < 32 ==> !(#[trigger] a[i] && b[i]))) by {
            if forall|i: int| 0 <= i < w.len() ==> !#[trigger] w[i] {
                assert forall|i: int| 0 <= i < 32 implies !(#[trigger] a[i] && b[i]) by {
                    assert(!w[i]);
                }
            }
        }
    } else {
        crate::thumb::effects::word_facts(n.regs[(x & 7) as int]);
    }
}

/// `ADCS`, `SBCS`, `RSBS`, `CMP` and `CMN`.
pub proof fn sums_with_carry_and_comparisons(c: Cpu, cells: Seq<bool>, frame: Frame<'_>, answers: Answers, x: u16)
    requires
        free(c, answers),
        stands(frame, c.pc, x),
        x >> 6 == 261 || x >> 6 == 262 || x >> 6 == 265 || x >> 6 == 266 || x >> 6 == 267,
    ensures
        ({
            let s = c.step(cells, frame, answers);
            let n = after(s);
            let d = (x & 7) as int;
            let m = ((x >> 3) & 7) as int;
            let a = value(c, d);
            let b = value(c, m);
            let both = c.known[d] && c.known[m];
            let k: int = if c.flags[2] { 1 } else { 0 };
            let all = both && c.flags_known[2];
            &&& goes_on(s, c, cells, 2)
            &&& x >> 6 <= 265 ==> only(c, n, d) && n.offsets[d] is None
            &&& x >> 6 > 265 ==> only(c, n, 16)
            &&& x >> 6 == 261 ==> value(n, d) == (a + b + k) % 0x1_0000_0000 && n.known[d] == all
                && tells_sum(c, n, a, b, k, all)
            &&& x >> 6 == 262 ==> value(n, d) == (a - b - (1 - k)) % 0x1_0000_0000 && n.known[d] == all
                && tells_difference(c, n, a, b, 1 - k, all)
            &&& x >> 6 == 265 ==> value(n, d) == (0 - b) % 0x1_0000_0000 && n.known[d] == c.known[m]
                && tells_difference(c, n, 0, b, 0, c.known[m])
            &&& x >> 6 == 266 ==> tells_difference(c, n, a, b, 0, both)
            &&& x >> 6 == 267 ==> tells_sum(c, n, a, b, 0, both)
        }),
{
    data_fields(x);
    fetched(c, frame, x);
    let d = crate::thumb::decode::narrow_op(c.pc, x)->Ok_0;
    crate::thumb::effects::computes(c, cells, frame, answers, d);
    crate::concrete::word_num(0);
    if x >> 6 > 265 {
        crate::thumb::effects::compare_in_numbers(
            c,
            Operand::Register((x & 7) as u8),
            Operand::Register(((x >> 3) & 7) as u8),
            x >> 6 == 267,
        );
    } else {
        let kind = d.operation->Arithmetic_kind;
        let left = d.operation->Arithmetic_left;
        let right = d.operation->Arithmetic_right;
        crate::thumb::effects::arithmetic_in_numbers(c, kind, (x & 7) as int, left, right, true);
        crate::thumb::effects::arithmetic_keeps_distance(c, kind, (x & 7) as int, left, right, true);
    }
}

/// `MULS`: the low word of the product.
pub proof fn products_of_low_registers(c: Cpu, cells: Seq<bool>, frame: Frame<'_>, answers: Answers, x: u16)
    requires
        free(c, answers),
        stands(frame, c.pc, x),
        x >> 6 == 269,
    ensures
        ({
            let s = c.step(cells, frame, answers);
            let n = after(s);
            let d = (x & 7) as int;
            let m = ((x >> 3) & 7) as int;
            let known = c.known[d] && c.known[m];
            &&& goes_on(s, c, cells, 2)
            &&& only(c, n, d)
            &&& value(n, d) == (value(c, d) * value(c, m)) % 0x1_0000_0000
            &&& n.known[d] == known
            &&& n.offsets[d] is None
            &&& tells(n, value(n, d), known)
            &&& flag_stays(c, n, 2)
            &&& flag_stays(c, n, 3)
            &&& flag_stays(c, n, 4)
        }),
{
    data_fields(x);
    fetched(c, frame, x);
    let d = crate::thumb::decode::narrow_op(c.pc, x)->Ok_0;
    crate::thumb::effects::computes(c, cells, frame, answers, d);
    let a = c.regs[(x & 7) as int];
    let b = c.regs[((x >> 3) & 7) as int];
    lemma2_to64();
    crate::bits::num_bits_of(crate::bits::num(a) * crate::bits::num(b), 32);
    crate::thumb::effects::word_facts(after(c.step(cells, frame, answers)).regs[(x & 7) as int]);
}

/// `ADD`, `CMP` and `MOV` on all sixteen registers. A sum into the stack pointer
/// is refused.
pub proof fn high_registers(c: Cpu, cells: Seq<bool>, frame: Frame<'_>, answers: Answers, x: u16)
    requires
        free(c, answers),
        stands(frame, c.pc, x),
        0x44 <= x >> 8 && x >> 8 < 0x47,
    ensures
        ({
            let s = c.step(cells, frame, answers);
            let n = after(s);
            let d = (x & 7) + 8 * ((x >> 7) & 1);
            let m = ((x >> 3) & 15) as int;
            let both = c.known[d] && c.known[m];
            &&& x >> 8 == 0x44 && d == 13 ==> s == Step::Unexpected
            &&& x >> 8 == 0x44 && d != 13 ==> {
                &&& goes_on(s, c, cells, 2)
                &&& only(c, n, d)
                &&& value(n, d) == (value(c, d) + value(c, m)) % 0x1_0000_0000
                &&& n.known[d] == both
                &&& n.offsets[d] is None
                &&& flags_stay(c, n)
            }
            &&& x >> 8 == 0x45 ==> goes_on(s, c, cells, 2) && only(c, n, 16) && tells_difference(
                c,
                n,
                value(c, d),
                value(c, m),
                0,
                both,
            )
            &&& x >> 8 == 0x46 ==> {
                &&& goes_on(s, c, cells, 2)
                &&& only(c, n, d)
                &&& n.regs[d] == c.regs[m]
                &&& n.known[d] == c.known[m]
                &&& n.offsets[d] == if d == m { None } else { c.offsets[m] }
                &&& flags_stay(c, n)
            }
        }),
{
    data_fields(x);
    fetched(c, frame, x);
    let d = crate::thumb::decode::narrow_op(c.pc, x)->Ok_0;
    crate::thumb::effects::computes(c, cells, frame, answers, d);
    let dest = (x & 7) + 8 * ((x >> 7) & 1);
    let left = Operand::Register(dest as u8);
    let right = Operand::Register(((x >> 3) & 15) as u8);
    if x >> 8 == 0x45 {
        crate::thumb::effects::compare_in_numbers(c, left, right, false);
    } else if x >> 8 == 0x44 && dest != 13 {
        crate::thumb::effects::arithmetic_in_numbers(c, Arithmetic::Add, dest, left, right, false);
        crate::thumb::effects::arithmetic_keeps_distance(c, Arithmetic::Add, dest, left, right, false);
    }
}

/// The stack pointer moves by `change`, every known distance from it the other
/// way, and nothing else but the program counter moves.
pub open spec fn stack_moves(c: Cpu, n: Cpu, change: int) -> bool {
    &&& shaped(n)
    &&& n.sp as int == (c.sp + change) % 0x1_0000_0000
    &&& value(n, 13) == n.sp
    &&& !n.known[13]
    &&& n.offsets[13] == Some(0i32)
    &&& forall|i: int|
        0 <= i < 16 && i != 13 ==> #[trigger] n.regs[i] == c.regs[i] && n.known[i] == c.known[i] && (
        n.offsets[i] is Some) == (c.offsets[i] is Some) && (c.offsets[i] is Some ==> (n.offsets[i]->0
            - c.offsets[i]->0 + change) % 0x1_0000_0000 == 0)
    &&& n.itstate == c.itstate
    &&& n.rstack == c.rstack
    &&& n.rsp == c.rsp
    &&& n.security == c.security
    &&& n.sites == c.sites
}

/// The stack pointer set is the stack pointer moved.
pub proof fn moved_in_numbers(c: Cpu, sp: u32, change: int, pc: u32)
    requires
        shaped(c),
        (sp - c.sp - change) % 0x1_0000_0000 == 0,
    ensures
        stack_moves(c, (Cpu { pc, ..c.adjust_sp(sp) }), change),
        flags_stay(c, (Cpu { pc, ..c.adjust_sp(sp) })),
{
    crate::concrete::word_num(sp);
    let delta = sp.wrapping_sub(c.sp);
    crate::thumb::accesses::word_forms(delta);
    let n = c.adjust_sp(sp);
    assert forall|i: int| 0 <= i < 16 && i != 13 && c.offsets[i] is Some implies n.offsets[i] is Some && (
    n.offsets[i]->0 - c.offsets[i]->0 + change) % 0x1_0000_0000 == 0 by {
        assert(n.offsets[i] == Some((c.offsets[i]->0).wrapping_sub(delta as i32)));
        wrapped_difference(c.offsets[i]->0, delta as i32, change);
    }
}

proof fn wrapped_difference(from: i32, delta: i32, change: int)
    requires
        (delta - change) % 0x1_0000_0000 == 0,
    ensures
        (from.wrapping_sub(delta) - from + change) % 0x1_0000_0000 == 0,
{
}

/// `LDR` of a literal: the word at a distance from the word-aligned program
/// counter.
pub proof fn literal_loads(c: Cpu, cells: Seq<bool>, frame: Frame<'_>, answers: Answers, x: u16)
    requires
        free(c, answers),
        stands(frame, c.pc, x),
        x >> 11 == 9,
    ensures
        ({
            let s = c.step(cells, frame, answers);
            let from = (c.pc + 4) % 0x1_0000_0000;
            reads_image(
                s,
                c,
                cells,
                frame,
                2,
                ((x >> 8) & 7) as int,
                (from - from % 4 + 4 * (x & 255)) % 0x1_0000_0000,
                4,
                false,
            )
        }),
{
    data_fields(x);
    memory_fields(x);
    fetched(c, frame, x);
    let d = crate::thumb::decode::narrow_op(c.pc, x)->Ok_0;
    crate::thumb::accesses::literal_in_numbers(
        c,
        cells,
        frame,
        answers,
        d,
        ((x >> 8) & 7) as u8,
        ((x & 255) << 2) as i32,
    );
}

proof fn indices_decode(pc: u32, x: u16)
    requires
        40 <= x >> 9 && x >> 9 < 48,
    ensures
        x >> 11 < 29,
        x & 7 < 8,
        (x >> 3) & 7 < 8,
        (x >> 6) & 7 < 8,
        ({
            let t = (x & 7) as u8;
            let base = ((x >> 3) & 7) as u8;
            let index = ((x >> 6) & 7) as u8;
            let code = (x >> 9) - 40;
            crate::thumb::decode::narrow_op(pc, x) == Ok::<Decoded, crate::thumb::op::DecodeError>(
                Decoded {
                    operation: if code < 3 {
                        Op::StoreIndexed {
                            source: t,
                            base,
                            index,
                            shift: 0,
                            width: if code == 0 {
                                32
                            } else if code == 1 {
                                16
                            } else {
                                8
                            },
                        }
                    } else {
                        Op::LoadIndexed {
                            dest: t,
                            base,
                            index,
                            shift: 0,
                            kind: if code == 3 {
                                LoadKind::ByteSigned
                            } else if code == 4 {
                                LoadKind::Word
                            } else if code == 5 {
                                LoadKind::HalfUnsigned
                            } else if code == 6 {
                                LoadKind::ByteUnsigned
                            } else {
                                LoadKind::HalfSigned
                            },
                        }
                    },
                    len: 2,
                },
            )
        }),
{
    data_fields(x);
    memory_fields(x);
}

/// Loads and stores with an index register: `STR`, `STRH`, `STRB`, `LDRSB`, `LDR`,
/// `LDRH`, `LDRB` and `LDRSH`. The host must know the index.
#[verifier::rlimit(60)]
pub proof fn indexed_accesses(c: Cpu, cells: Seq<bool>, frame: Frame<'_>, answers: Answers, x: u16)
    requires
        free(c, answers),
        stands(frame, c.pc, x),
        40 <= x >> 9 && x >> 9 < 48,
    ensures
        ({
            let s = c.step(cells, frame, answers);
            let t = (x & 7) as int;
            let base = ((x >> 3) & 7) as int;
            let m = ((x >> 6) & 7) as int;
            let code = (x >> 9) - 40;
            &&& !c.known[m] ==> s == Step::Unexpected
            &&& c.known[m] && code == 0 ==> stores(s, c, cells, frame, 2, t, base, value(c, m), 4)
            &&& c.known[m] && code == 1 ==> stores(s, c, cells, frame, 2, t, base, value(c, m), 2)
            &&& c.known[m] && code == 2 ==> stores(s, c, cells, frame, 2, t, base, value(c, m), 1)
            &&& c.known[m] && code == 3 ==> loads(s, c, cells, frame, 2, t, base, value(c, m), 1, true)
            &&& c.known[m] && code == 4 ==> loads(s, c, cells, frame, 2, t, base, value(c, m), 4, false)
            &&& c.known[m] && code == 5 ==> loads(s, c, cells, frame, 2, t, base, value(c, m), 2, false)
            &&& c.known[m] && code == 6 ==> loads(s, c, cells, frame, 2, t, base, value(c, m), 1, false)
            &&& c.known[m] && code == 7 ==> loads(s, c, cells, frame, 2, t, base, value(c, m), 2, true)
        }),
{
    indices_decode(c.pc, x);
    fetched(c, frame, x);
    let d = crate::thumb::decode::narrow_op(c.pc, x)->Ok_0;
    let t = (x & 7) as u8;
    let base = ((x >> 3) & 7) as u8;
    let m = ((x >> 6) & 7) as u8;
    lemma2_to64();
    if x >> 9 < 43 {
        let width = d.operation->StoreIndexed_width;
        crate::thumb::accesses::indexed_store_in_numbers(
            c,
            cells,
            frame,
            answers,
            d,
            t,
            base,
            m,
            0,
            width,
        );
    } else {
        let kind = d.operation->LoadIndexed_kind;
        crate::thumb::accesses::indexed_load_in_numbers(
            c,
            cells,
            frame,
            answers,
            d,
            t,
            base,
            m,
            0,
            kind,
        );
    }
}

proof fn immediate_decodes(pc: u32, x: u16)
    ensures
        x & 7 < 8,
        (x >> 3) & 7 < 8,
        (x >> 8) & 7 < 8,
        (x >> 6) & 31 < 32,
        x & 255 < 256,
        ({
            let t = (x & 7) as u8;
            let base = ((x >> 3) & 7) as u8;
            let high = ((x >> 8) & 7) as u8;
            let f = (x >> 6) & 31;
            &&& x >> 11 == 12 ==> crate::thumb::decode::narrow_op(pc, x) == Ok::<Decoded, crate::thumb::op::DecodeError>(Decoded { operation: Op::Store { source: t, base: base, offset: (4 * f) as i32, width: 32 }, len: 2 })
            &&& x >> 11 == 13 ==> crate::thumb::decode::narrow_op(pc, x) == Ok::<Decoded, crate::thumb::op::DecodeError>(Decoded { operation: Op::Load { dest: t, base: base, offset: (4 * f) as i32, kind: LoadKind::Word }, len: 2 })
            &&& x >> 11 == 14 ==> crate::thumb::decode::narrow_op(pc, x) == Ok::<Decoded, crate::thumb::op::DecodeError>(Decoded { operation: Op::Store { source: t, base: base, offset: f as i32, width: 8 }, len: 2 })
            &&& x >> 11 == 15 ==> crate::thumb::decode::narrow_op(pc, x) == Ok::<Decoded, crate::thumb::op::DecodeError>(Decoded { operation: Op::Load { dest: t, base: base, offset: f as i32, kind: LoadKind::ByteUnsigned }, len: 2 })
            &&& x >> 11 == 16 ==> crate::thumb::decode::narrow_op(pc, x) == Ok::<Decoded, crate::thumb::op::DecodeError>(Decoded { operation: Op::Store { source: t, base: base, offset: (2 * f) as i32, width: 16 }, len: 2 })
            &&& x >> 11 == 17 ==> crate::thumb::decode::narrow_op(pc, x) == Ok::<Decoded, crate::thumb::op::DecodeError>(Decoded { operation: Op::Load { dest: t, base: base, offset: (2 * f) as i32, kind: LoadKind::HalfUnsigned }, len: 2 })
            &&& x >> 11 == 18 ==> crate::thumb::decode::narrow_op(pc, x) == Ok::<Decoded, crate::thumb::op::DecodeError>(Decoded { operation: Op::Store { source: high, base: 13, offset: (4 * (x & 255)) as i32, width: 32 }, len: 2 })
            &&& x >> 11 == 19 ==> crate::thumb::decode::narrow_op(pc, x) == Ok::<Decoded, crate::thumb::op::DecodeError>(Decoded { operation: Op::Load { dest: high, base: 13, offset: (4 * (x & 255)) as i32, kind: LoadKind::Word }, len: 2 })
        }),
{
    data_fields(x);
    memory_fields(x);
}

/// `STR`, `LDR`, `STRB` and `LDRB` with an immediate offset, which counts in units
/// of what is moved.
pub proof fn word_and_byte_accesses(c: Cpu, cells: Seq<bool>, frame: Frame<'_>, answers: Answers, x: u16)
    requires
        free(c, answers),
        stands(frame, c.pc, x),
        12 <= x >> 11 && x >> 11 < 16,
    ensures
        ({
            let s = c.step(cells, frame, answers);
            let t = (x & 7) as int;
            let base = ((x >> 3) & 7) as int;
            let high = ((x >> 8) & 7) as int;
            let f = (x >> 6) & 31;
            &&& x >> 11 == 12 ==> stores(s, c, cells, frame, 2, t, base, 4 * f, 4)
            &&& x >> 11 == 13 ==> loads(s, c, cells, frame, 2, t, base, 4 * f, 4, false)
            &&& x >> 11 == 14 ==> stores(s, c, cells, frame, 2, t, base, f as int, 1)
            &&& x >> 11 == 15 ==> loads(s, c, cells, frame, 2, t, base, f as int, 1, false)
        }),
{
    immediate_decodes(c.pc, x);
    fetched(c, frame, x);
    let d = crate::thumb::decode::narrow_op(c.pc, x)->Ok_0;
    let f = (x >> 6) & 31;
    if x >> 11 == 12 {
        crate::thumb::accesses::store_in_numbers(c, cells, frame, answers, d, (x & 7) as u8, ((x >> 3) & 7) as u8, (4 * f) as i32, 32);
    } else if x >> 11 == 13 {
        crate::thumb::accesses::load_in_numbers(c, cells, frame, answers, d, (x & 7) as u8, ((x >> 3) & 7) as u8, (4 * f) as i32, LoadKind::Word);
    } else if x >> 11 == 14 {
        crate::thumb::accesses::store_in_numbers(c, cells, frame, answers, d, (x & 7) as u8, ((x >> 3) & 7) as u8, f as i32, 8);
    } else if x >> 11 == 15 {
        crate::thumb::accesses::load_in_numbers(c, cells, frame, answers, d, (x & 7) as u8, ((x >> 3) & 7) as u8, f as i32, LoadKind::ByteUnsigned);
    }
}

/// `STRH` and `LDRH` with an immediate offset.
pub proof fn halfword_accesses(c: Cpu, cells: Seq<bool>, frame: Frame<'_>, answers: Answers, x: u16)
    requires
        free(c, answers),
        stands(frame, c.pc, x),
        x >> 11 == 16 || x >> 11 == 17,
    ensures
        ({
            let s = c.step(cells, frame, answers);
            let t = (x & 7) as int;
            let base = ((x >> 3) & 7) as int;
            let high = ((x >> 8) & 7) as int;
            let f = (x >> 6) & 31;
            &&& x >> 11 == 16 ==> stores(s, c, cells, frame, 2, t, base, 2 * f, 2)
            &&& x >> 11 == 17 ==> loads(s, c, cells, frame, 2, t, base, 2 * f, 2, false)
        }),
{
    immediate_decodes(c.pc, x);
    fetched(c, frame, x);
    let d = crate::thumb::decode::narrow_op(c.pc, x)->Ok_0;
    let f = (x >> 6) & 31;
    if x >> 11 == 16 {
        crate::thumb::accesses::store_in_numbers(c, cells, frame, answers, d, (x & 7) as u8, ((x >> 3) & 7) as u8, (2 * f) as i32, 16);
    } else if x >> 11 == 17 {
        crate::thumb::accesses::load_in_numbers(c, cells, frame, answers, d, (x & 7) as u8, ((x >> 3) & 7) as u8, (2 * f) as i32, LoadKind::HalfUnsigned);
    }
}

/// `STR` and `LDR` at a distance from the stack pointer.
pub proof fn stack_accesses(c: Cpu, cells: Seq<bool>, frame: Frame<'_>, answers: Answers, x: u16)
    requires
        free(c, answers),
        stands(frame, c.pc, x),
        x >> 11 == 18 || x >> 11 == 19,
    ensures
        ({
            let s = c.step(cells, frame, answers);
            let t = (x & 7) as int;
            let base = ((x >> 3) & 7) as int;
            let high = ((x >> 8) & 7) as int;
            let f = (x >> 6) & 31;
            &&& x >> 11 == 18 ==> stores(s, c, cells, frame, 2, high, 13, 4 * (x & 255), 4)
            &&& x >> 11 == 19 ==> loads(s, c, cells, frame, 2, high, 13, 4 * (x & 255), 4, false)
        }),
{
    immediate_decodes(c.pc, x);
    fetched(c, frame, x);
    let d = crate::thumb::decode::narrow_op(c.pc, x)->Ok_0;
    let f = (x >> 6) & 31;
    if x >> 11 == 18 {
        crate::thumb::accesses::store_in_numbers(c, cells, frame, answers, d, ((x >> 8) & 7) as u8, 13, (4 * (x & 255)) as i32, 32);
    } else if x >> 11 == 19 {
        crate::thumb::accesses::load_in_numbers(c, cells, frame, answers, d, ((x >> 8) & 7) as u8, 13, (4 * (x & 255)) as i32, LoadKind::Word);
    }
}

/// `ADR`, and `ADD` of the stack pointer and a constant into a low register.
pub proof fn address_computations(c: Cpu, cells: Seq<bool>, frame: Frame<'_>, answers: Answers, x: u16)
    requires
        free(c, answers),
        stands(frame, c.pc, x),
        x >> 11 == 20 || x >> 11 == 21,
    ensures
        ({
            let s = c.step(cells, frame, answers);
            let n = after(s);
            let d = ((x >> 8) & 7) as int;
            let from = (c.pc + 4) % 0x1_0000_0000;
            let byte = (x & 255) as int;
            &&& goes_on(s, c, cells, 2)
            &&& only(c, n, d)
            &&& flags_stay(c, n)
            &&& x >> 11 == 20 ==> value(n, d) == (from - from % 4 + 4 * byte) % 0x1_0000_0000
                && n.known[d] && n.offsets[d] is None
            &&& x >> 11 == 21 ==> value(n, d) == (value(c, 13) + 4 * byte) % 0x1_0000_0000
                && n.known[d] == c.known[13] && keeps_distance(c, n, d, 13, 4 * byte)
        }),
{
    data_fields(x);
    memory_fields(x);
    fetched(c, frame, x);
    let d = crate::thumb::decode::narrow_op(c.pc, x)->Ok_0;
    crate::thumb::effects::computes(c, cells, frame, answers, d);
    let dest = ((x >> 8) & 7) as int;
    if x >> 11 == 20 {
        crate::thumb::accesses::aligned(c.pc);
        let v = crate::thumb::decode::pc_aligned(c.pc).wrapping_add(((x & 255) << 2) as u32);
        crate::concrete::word_num(v);
    } else {
        let left = Operand::Register(13);
        let right = Operand::Immediate(((x & 255) << 2) as u32);
        crate::concrete::word_num(((x & 255) << 2) as u32);
        crate::thumb::effects::arithmetic_in_numbers(c, Arithmetic::Add, dest, left, right, false);
        crate::thumb::effects::arithmetic_keeps_distance(c, Arithmetic::Add, dest, left, right, false);
    }
}

proof fn stack_moves_decode(pc: u32, x: u16)
    requires
        x >> 7 == 0x160 || x >> 7 == 0x161,
    ensures
        x >> 11 < 29,
        x & 0x7f < 128,
        crate::thumb::decode::narrow_op(pc, x) == Ok::<Decoded, crate::thumb::op::DecodeError>(
            Decoded {
                operation: Op::Arithmetic {
                    kind: if x >> 7 == 0x160 {
                        Arithmetic::Add
                    } else {
                        Arithmetic::Sub
                    },
                    dest: 13,
                    left: Operand::Register(13),
                    right: Operand::Immediate((4 * (x & 0x7f)) as u32),
                    set_flags: false,
                },
                len: 2,
            },
        ),
{
    control_fields(x);
    memory_fields(x);
}

/// `ADD` and `SUB` of a constant to the stack pointer: it moves, and every known
/// distance from it moves the other way.
pub proof fn stack_pointer_moves(c: Cpu, cells: Seq<bool>, frame: Frame<'_>, answers: Answers, x: u16)
    requires
        free(c, answers),
        stands(frame, c.pc, x),
        x >> 7 == 0x160 || x >> 7 == 0x161,
    ensures
        ({
            let s = c.step(cells, frame, answers);
            let n = after(s);
            &&& goes_on(s, c, cells, 2)
            &&& flags_stay(c, n)
            &&& x >> 7 == 0x160 ==> stack_moves(c, n, 4 * (x & 0x7f))
            &&& x >> 7 == 0x161 ==> stack_moves(c, n, -4 * (x & 0x7f))
        }),
{
    stack_moves_decode(c.pc, x);
    fetched(c, frame, x);
    let d = crate::thumb::decode::narrow_op(c.pc, x)->Ok_0;
    let size = (4 * (x & 0x7f)) as u32;
    let sp = if x >> 7 == 0x160 {
        c.sp.wrapping_add(size)
    } else {
        c.sp.wrapping_sub(size)
    };
    let kind = if x >> 7 == 0x160 {
        Arithmetic::Add
    } else {
        Arithmetic::Sub
    };
    assert(c.arithmetic(kind, 13, Operand::Register(13), Operand::Immediate(size), false) == Some(
        c.adjust_sp(sp),
    ));
    assert(c.compute(d.operation) == Some(c.adjust_sp(sp)));
    crate::thumb::effects::computes(c, cells, frame, answers, d);
    let change: int = if x >> 7 == 0x160 {
        4 * (x & 0x7f)
    } else {
        -4 * (x & 0x7f)
    };
    moved_in_numbers(c, sp, change, c.pc.wrapping_add(2));
}

} // verus!
