//! The thirty-two-bit encodings: what a step at each pair of halfwords does to
//! registers, flags and memory, in numbers.
use crate::thumb::control::Answers;
use crate::thumb::effects::{
    after, flag_stays, flags_stay, free, goes_on, keeps_distance, only, shifted, stands, tells,
    tells_difference, tells_sum, value,
};
use crate::thumb::exec::Frame;
use crate::thumb::machine::{shaped, Cpu, Step};
use crate::thumb::op::{Arithmetic, DecodeError, Decoded, Op, Operand, ShiftAmount};
use crate::word::{BitOp, Shift};
use vstd::arithmetic::power2::*;
use vstd::prelude::*;

verus! {

/// The opcodes in the first halfword.
pub proof fn first_fields(f: u16)
    ensures
        (f & 0xfff0 == 0xf380) == (f >> 4 == 0xf38),
        (f & 0xfff0 == 0xe880) == (f >> 4 == 0xe88),
        (f & 0xfff0 == 0xe890) == (f >> 4 == 0xe89),
        (f & 0xfff0 == 0xe9c0) == (f >> 4 == 0xe9c),
        (f & 0xfff0 == 0xf8d0) == (f >> 4 == 0xf8d),
        (f & 0xfff0 == 0xf8c0) == (f >> 4 == 0xf8c),
        (f & 0xfff0 == 0xf850) == (f >> 4 == 0xf85),
        (f & 0xfff0 == 0xf840) == (f >> 4 == 0xf84),
        (f & 0xfff0 == 0xfb00) == (f >> 4 == 0xfb0),
        (f & 0xfff0 == 0xfba0) == (f >> 4 == 0xfba),
        (f & 0xfff0 == 0xfb80) == (f >> 4 == 0xfb8),
        (f & 0xfff0 == 0xea00) == (f >> 4 == 0xea0),
        (f & 0xfff0 == 0xea20) == (f >> 4 == 0xea2),
        (f & 0xfff0 == 0xea40) == (f >> 4 == 0xea4),
        (f & 0xfff0 == 0xea80) == (f >> 4 == 0xea8),
        (f & 0xfff0 == 0xeb00) == (f >> 4 == 0xeb0),
        (f & 0xfff0 == 0xeb10) == (f >> 4 == 0xeb1),
        (f & 0xfff0 == 0xeba0) == (f >> 4 == 0xeba),
        (f & 0xfff0 == 0xebb0) == (f >> 4 == 0xebb),
        (f & 0xffe0 == 0xea00) == (f >> 4 == 0xea0 || f >> 4 == 0xea1),
        (f & 0xffe0 == 0xea20) == (f >> 4 == 0xea2 || f >> 4 == 0xea3),
        (f & 0xffe0 == 0xea40) == (f >> 4 == 0xea4 || f >> 4 == 0xea5),
        (f & 0xffe0 == 0xea80) == (f >> 4 == 0xea8 || f >> 4 == 0xea9),
        (f & 0xffe0 == 0xeb00) == (f >> 4 == 0xeb0 || f >> 4 == 0xeb1),
        (f & 0xffe0 == 0xeba0) == (f >> 4 == 0xeba || f >> 4 == 0xebb),
        (f == 0xe97f) == (f >> 4 == 0xe97 && f & 15 == 15),
        (f == 0xf3ef) == (f >> 4 == 0xf3e && f & 15 == 15),
        (f == 0xe92d) == (f >> 4 == 0xe92 && f & 15 == 13),
        (f == 0xe8bd) == (f >> 4 == 0xe8b && f & 15 == 13),
        (f & 0xf800 == 0xf000) == (0xf00 <= f >> 4 && f >> 4 < 0xf80),
        (f & 0xfbf0 == 0xf240) == (f >> 4 == 0xf24 || f >> 4 == 0xf64),
        (f & 0xfbf0 == 0xf2c0) == (f >> 4 == 0xf2c || f >> 4 == 0xf6c),
        (f & 0xfbf0 == 0xf200) == (f >> 4 == 0xf20 || f >> 4 == 0xf60),
        (f & 0xfbe0 == 0xf000) == (f >> 4 == 0xf00 || f >> 4 == 0xf01 || f >> 4 == 0xf40 || f >> 4 == 0xf41),
        (f & 0xfbe0 == 0xf020) == (f >> 4 == 0xf02 || f >> 4 == 0xf03 || f >> 4 == 0xf42 || f >> 4 == 0xf43),
        (f & 0xfbe0 == 0xf040) == (f >> 4 == 0xf04 || f >> 4 == 0xf05 || f >> 4 == 0xf44 || f >> 4 == 0xf45),
        (f & 0xfbe0 == 0xf080) == (f >> 4 == 0xf08 || f >> 4 == 0xf09 || f >> 4 == 0xf48 || f >> 4 == 0xf49),
        (f & 0xfbe0 == 0xf100) == (f >> 4 == 0xf10 || f >> 4 == 0xf11 || f >> 4 == 0xf50 || f >> 4 == 0xf51),
        (f & 0xfbe0 == 0xf1a0) == (f >> 4 == 0xf1a || f >> 4 == 0xf1b || f >> 4 == 0xf5a || f >> 4 == 0xf5b),
        (f & 0x0010 != 0) == ((f >> 4) % 2 == 1),
        (f & 0xe000 == 0xe000 && f & 0x1800 != 0) == (f >> 4 >= 0xe80),
        f & 15 < 16,
        f >> 4 < 4096,
        (f >> 10) & 1 == ((f >> 4) / 64) % 2,
{
    assert(((f & 0xfff0 == 0xf380) == (f >> 4 == 0xf38)) && ((f & 0xfff0 == 0xe880) == (f >> 4 == 0xe88)) && ((f & 0xfff0 == 0xe890) == (f >> 4 == 0xe89)) && ((f & 0xfff0 == 0xe9c0) == (f >> 4 == 0xe9c)) && ((f & 0xfff0 == 0xf8d0) == (f >> 4 == 0xf8d)) && ((f & 0xfff0 == 0xf8c0) == (f >> 4 == 0xf8c)) && ((f & 0xfff0 == 0xf850) == (f >> 4 == 0xf85)) && ((f & 0xfff0 == 0xf840) == (f >> 4 == 0xf84)) && ((f & 0xfff0 == 0xfb00) == (f >> 4 == 0xfb0)) && ((f & 0xfff0 == 0xfba0) == (f >> 4 == 0xfba)) && ((f & 0xfff0 == 0xfb80) == (f >> 4 == 0xfb8)) && ((f & 0xfff0 == 0xea00) == (f >> 4 == 0xea0)) && ((f & 0xfff0 == 0xea20) == (f >> 4 == 0xea2)) && ((f & 0xfff0 == 0xea40) == (f >> 4 == 0xea4)) && ((f & 0xfff0 == 0xea80) == (f >> 4 == 0xea8)) && ((f & 0xfff0 == 0xeb00) == (f >> 4 == 0xeb0)) && ((f & 0xfff0 == 0xeb10) == (f >> 4 == 0xeb1)) && ((f & 0xfff0 == 0xeba0) == (f >> 4 == 0xeba)) && ((f & 0xfff0 == 0xebb0) == (f >> 4 == 0xebb)) && ((f & 0xffe0 == 0xea00) == (f >> 4 == 0xea0 || f >> 4 == 0xea1)) && ((f & 0xffe0 == 0xea20) == (f >> 4 == 0xea2 || f >> 4 == 0xea3)) && ((f & 0xffe0 == 0xea40) == (f >> 4 == 0xea4 || f >> 4 == 0xea5)) && ((f & 0xffe0 == 0xea80) == (f >> 4 == 0xea8 || f >> 4 == 0xea9)) && ((f & 0xffe0 == 0xeb00) == (f >> 4 == 0xeb0 || f >> 4 == 0xeb1)) && ((f & 0xffe0 == 0xeba0) == (f >> 4 == 0xeba || f >> 4 == 0xebb)) && ((f == 0xe97f) == (f >> 4 == 0xe97 && f & 15 == 15)) && ((f == 0xf3ef) == (f >> 4 == 0xf3e && f & 15 == 15)) && ((f == 0xe92d) == (f >> 4 == 0xe92 && f & 15 == 13)) && ((f == 0xe8bd) == (f >> 4 == 0xe8b && f & 15 == 13)) && ((f & 0xf800 == 0xf000) == (0xf00 <= f >> 4 && f >> 4 < 0xf80)) && ((f & 0xfbf0 == 0xf240) == (f >> 4 == 0xf24 || f >> 4 == 0xf64)) && ((f & 0xfbf0 == 0xf2c0) == (f >> 4 == 0xf2c || f >> 4 == 0xf6c)) && ((f & 0xfbf0 == 0xf200) == (f >> 4 == 0xf20 || f >> 4 == 0xf60)) && ((f & 0xfbe0 == 0xf000) == (f >> 4 == 0xf00 || f >> 4 == 0xf01 || f >> 4 == 0xf40 || f >> 4 == 0xf41)) && ((f & 0xfbe0 == 0xf020) == (f >> 4 == 0xf02 || f >> 4 == 0xf03 || f >> 4 == 0xf42 || f >> 4 == 0xf43)) && ((f & 0xfbe0 == 0xf040) == (f >> 4 == 0xf04 || f >> 4 == 0xf05 || f >> 4 == 0xf44 || f >> 4 == 0xf45)) && ((f & 0xfbe0 == 0xf080) == (f >> 4 == 0xf08 || f >> 4 == 0xf09 || f >> 4 == 0xf48 || f >> 4 == 0xf49)) && ((f & 0xfbe0 == 0xf100) == (f >> 4 == 0xf10 || f >> 4 == 0xf11 || f >> 4 == 0xf50 || f >> 4 == 0xf51)) && ((f & 0xfbe0 == 0xf1a0) == (f >> 4 == 0xf1a || f >> 4 == 0xf1b || f >> 4 == 0xf5a || f >> 4 == 0xf5b)) && ((f & 0x0010 != 0) == ((f >> 4) % 2 == 1)) && ((f & 0xe000 == 0xe000 && f & 0x1800 != 0) == (f >> 4 >= 0xe80)) && (f & 15 < 16) && (f >> 4 < 4096) && ((f >> 10) & 1 == ((f >> 4) / 64) % 2)) by (bit_vector);
}

/// The fields of the second halfword.
pub proof fn second_fields(g: u16)
    ensures
        (g >> 8) & 15 < 16,
        (g >> 12) & 15 < 16,
        g & 15 < 16,
        (g >> 12) & 7 < 8,
        (g >> 6) & 3 < 4,
        (g >> 4) & 3 < 4,
        g & 255 < 256,
        g & 0x0fff < 4096,
        (g & 0x8000 == 0) == (g < 0x8000),
        (g & 0x0fc0 == 0) == ((g >> 6) & 63 == 0),
        (g & 0x00e0 == 0) == ((g >> 5) & 7 == 0),
        (g & 0x10 != 0) == ((g >> 4) & 1 == 1),
        (g & 0x00f0 == 0) == ((g >> 4) & 15 == 0),
        (g & 0xd000 == 0xd000) == (g >> 14 == 3 && (g >> 12) & 1 == 1),
        (g & 0xd000 == 0x9000) == (g >> 14 == 2 && (g >> 12) & 1 == 1),
        ((g >> 12) & 7) << 2 | ((g >> 6) & 3) == 4 * ((g >> 12) & 7) + ((g >> 6) & 3),
        (g & 0xf0ff == 0x8000) == (g >> 12 == 8 && g & 255 == 0),
        g >> 14 == g / 0x4000,
        g >> 12 == g / 0x1000,
        (g >> 12) & 1 == (g / 0x1000) % 2,
{
    assert(((g >> 8) & 15 < 16) && ((g >> 12) & 15 < 16) && (g & 15 < 16) && ((g >> 12) & 7 < 8) && ((g >> 6) & 3 < 4) && ((g >> 4) & 3 < 4) && (g & 255 < 256) && (g & 0x0fff < 4096) && ((g & 0x8000 == 0) == (g < 0x8000)) && ((g & 0x0fc0 == 0) == ((g >> 6) & 63 == 0)) && ((g & 0x00e0 == 0) == ((g >> 5) & 7 == 0)) && ((g & 0x10 != 0) == ((g >> 4) & 1 == 1)) && ((g & 0x00f0 == 0) == ((g >> 4) & 15 == 0)) && ((g & 0xd000 == 0xd000) == (g >> 14 == 3 && (g >> 12) & 1 == 1)) && ((g & 0xd000 == 0x9000) == (g >> 14 == 2 && (g >> 12) & 1 == 1)) && (((g >> 12) & 7) << 2 | ((g >> 6) & 3) == 4 * ((g >> 12) & 7) + ((g >> 6) & 3)) && ((g & 0xf0ff == 0x8000) == (g >> 12 == 8 && g & 255 == 0)) && (g >> 14 == g / 0x4000 && g >> 12 == g / 0x1000 && (g >> 12) & 1 == (g / 0x1000) % 2)) by (bit_vector);
}

/// The immediates that both halfwords spell.
pub proof fn immediate_fields(f: u16, g: u16)
    ensures
        ((((f as u32) >> 10) & 1) << 11) | ((((g as u32) >> 12) & 7) << 8) | ((g as u32) & 255) == 2048 * ((f >> 10) & 1) as u32 + 256 * ((g >> 12) & 7) as u32 + (g & 255) as u32,
        ((((f as u32) >> 10) & 1) << 11) | (((f as u32) & 15) << 12) | ((((g as u32) >> 12) & 7) << 8) | ((g as u32) & 255) == 4096 * (f & 15) as u32 + 2048 * ((f >> 10) & 1) as u32 + 256 * ((g >> 12) & 7) as u32 + (g & 255) as u32,
        ((f as u32) << 16) | (g as u32) == 65536 * (f as u32) + (g as u32),
{
    assert((((((f as u32) >> 10) & 1) << 11) | ((((g as u32) >> 12) & 7) << 8) | ((g as u32) & 255) == 2048 * ((f >> 10) & 1) as u32 + 256 * ((g >> 12) & 7) as u32 + (g & 255) as u32) && (((((f as u32) >> 10) & 1) << 11) | (((f as u32) & 15) << 12) | ((((g as u32) >> 12) & 7) << 8) | ((g as u32) & 255) == 4096 * (f & 15) as u32 + 2048 * ((f >> 10) & 1) as u32 + 256 * ((g >> 12) & 7) as u32 + (g & 255) as u32) && (((f as u32) << 16) | (g as u32) == 65536 * (f as u32) + (g as u32))) by (bit_vector);
}

/// The halfwords `f` and `g` stand one behind the other at `pc`.
pub open spec fn pair(frame: Frame<'_>, pc: u32, f: u16, g: u16) -> bool {
    &&& stands(frame, pc, f)
    &&& stands(frame, pc.wrapping_add(2), g)
}

/// The instruction at two halfwords.
pub proof fn fetched(c: Cpu, frame: Frame<'_>, f: u16, g: u16)
    requires
        pair(frame, c.pc, f, g),
        f >> 4 >= 0xe80,
    ensures
        crate::thumb::early_exit::instruction_at(frame.mem, c.pc) == match crate::thumb::decode::wide_op(
            c.pc,
            f,
            g,
        ) {
            Ok(d) => Ok::<Decoded, crate::thumb::early_exit::FetchError>(d),
            Err(e) => Err(crate::thumb::early_exit::FetchError::Decode(e)),
        },
{
    first_fields(f);
    crate::memory::le_num_2(frame.mem.reads(c.pc, 2)->0);
    crate::memory::le_num_2(frame.mem.reads(c.pc.wrapping_add(2), 2)->0);
}

/// The sixteen bits spread over `MOVW` and `MOVT`.
pub open spec fn spread(f: u16, g: u16) -> int {
    4096 * (f & 15) + 2048 * ((f >> 10) & 1) + 256 * ((g >> 12) & 7) + (g & 255)
}

proof fn plain_decode(pc: u32, f: u16, g: u16)
    requires
        g < 0x8000,
        f >> 4 == 0xf24 || f >> 4 == 0xf64 || f >> 4 == 0xf2c || f >> 4 == 0xf6c || f >> 4 == 0xf20 || f
            >> 4 == 0xf60,
    ensures
        (g >> 8) & 15 < 16,
        f & 15 < 16,
        0 <= spread(f, g) < 0x1_0000,
        0 <= spread(f, g) - 4096 * (f & 15) < 4096,
        crate::thumb::decode::wide_op(pc, f, g) == Ok::<Decoded, DecodeError>(
            Decoded {
                operation: if f >> 4 == 0xf24 || f >> 4 == 0xf64 {
                    Op::Move {
                        dest: ((g >> 8) & 15) as u8,
                        source: Operand::Immediate(spread(f, g) as u32),
                        set_flags: false,
                    }
                } else if f >> 4 == 0xf2c || f >> 4 == 0xf6c {
                    Op::MoveTop { dest: ((g >> 8) & 15) as u8, immediate: spread(f, g) as u16 }
                } else {
                    Op::Arithmetic {
                        kind: Arithmetic::Add,
                        dest: ((g >> 8) & 15) as u8,
                        left: Operand::Register((f & 15) as u8),
                        right: Operand::Immediate((spread(f, g) - 4096 * (f & 15)) as u32),
                        set_flags: false,
                    }
                },
                len: 4,
            },
        ),
{
    first_fields(f);
    second_fields(g);
    immediate_fields(f, g);
}

/// `MOVW` writes its sixteen bits, `MOVT` puts them above the low half, and
/// `ADDW` adds the twelve that its base register leaves of them.
pub proof fn plain_immediates(
    c: Cpu,
    cells: Seq<bool>,
    frame: Frame<'_>,
    answers: Answers,
    f: u16,
    g: u16,
)
    requires
        free(c, answers),
        pair(frame, c.pc, f, g),
        g < 0x8000,
        (g >> 8) & 15 != 13,
        f >> 4 == 0xf24 || f >> 4 == 0xf64 || f >> 4 == 0xf2c || f >> 4 == 0xf6c || f >> 4 == 0xf20 || f
            >> 4 == 0xf60,
    ensures
        ({
            let s = c.step(cells, frame, answers);
            let n = after(s);
            let d = ((g >> 8) & 15) as int;
            let base = (f & 15) as int;
            &&& goes_on(s, c, cells, 4)
            &&& only(c, n, d)
            &&& flags_stay(c, n)
            &&& f >> 4 == 0xf24 || f >> 4 == 0xf64 ==> value(n, d) == spread(f, g) && n.known[d]
                && n.offsets[d] is None
            &&& f >> 4 == 0xf2c || f >> 4 == 0xf6c ==> value(n, d) == 0x1_0000 * spread(f, g) + value(c, d)
                % 0x1_0000 && n.known[d] == c.known[d] && n.offsets[d] is None
            &&& f >> 4 == 0xf20 || f >> 4 == 0xf60 ==> {
                let v = spread(f, g) - 4096 * base;
                &&& value(n, d) == (value(c, base) + v) % 0x1_0000_0000
                &&& n.known[d] == c.known[base]
                &&& keeps_distance(c, n, d, base, v)
            }
        }),
{
    plain_decode(c.pc, f, g);
    fetched(c, frame, f, g);
    let d = crate::thumb::decode::wide_op(c.pc, f, g)->Ok_0;
    let dest = ((g >> 8) & 15) as int;
    crate::thumb::effects::computes(c, cells, frame, answers, d);
    if f >> 4 == 0xf24 || f >> 4 == 0xf64 {
        crate::concrete::word_num(spread(f, g) as u32);
    } else if f >> 4 == 0xf2c || f >> 4 == 0xf6c {
        topped(c.regs[dest], spread(f, g) as u16);
    } else {
        let left = Operand::Register((f & 15) as u8);
        let v = (spread(f, g) - 4096 * (f & 15)) as u32;
        let right = Operand::Immediate(v);
        crate::concrete::word_num(v);
        crate::thumb::effects::arithmetic_in_numbers(c, Arithmetic::Add, dest, left, right, false);
        crate::thumb::effects::arithmetic_keeps_distance(c, Arithmetic::Add, dest, left, right, false);
    }
}

/// A word with a new upper half.
proof fn topped(w: Seq<bool>, top: u16)
    requires
        w.len() == 32,
    ensures
        crate::thumb::logic::with_top(w, top).len() == 32,
        crate::bits::num(crate::thumb::logic::with_top(w, top)) == 0x1_0000 * top + crate::bits::num(w)
            % 0x1_0000,
{
    let high = crate::bits::bits_of(top as nat, 16);
    assert(crate::thumb::logic::with_top(w, top) =~= w.take(16) + high);
    crate::number::joined(w.take(16), high);
    crate::number::split(w, 16);
    crate::bits::num_bits_of(top as nat, 16);
    lemma2_to64();
}

/// What the data operations with a flexible right operand `w` do: `AND`, `BIC`,
/// `ORR`, `EOR`, `ADD` and `SUB`, and `TST`, `MOV`, `CMN` and `CMP`, which are
/// those without a destination or without a left register.
pub open spec fn combines(
    s: Step,
    c: Cpu,
    cells: Seq<bool>,
    code: int,
    set: bool,
    d: int,
    base: int,
    w: Seq<bool>,
    w_known: bool,
) -> bool {
    let n = after(s);
    let a = c.regs[base];
    let both = c.known[base] && w_known;
    let x = value(c, base);
    let y = crate::bits::num(w) as int;
    &&& goes_on(s, c, cells, 4)
    &&& if code == 0 && set && d == 15 {
        &&& only(c, n, 16)
        &&& n.flags[0] == (a[31] && w[31])
        &&& n.flags[1] == (forall|i: int| 0 <= i < 32 ==> !(#[trigger] a[i] && w[i]))
        &&& n.flags_known[0] == both
        &&& n.flags_known[1] == both
        &&& flag_stays(c, n, 2)
        &&& flag_stays(c, n, 3)
        &&& flag_stays(c, n, 4)
    } else if code < 8 {
        &&& only(c, n, d)
        &&& n.offsets[d] is None
        &&& code == 0 ==> (forall|i: int| 0 <= i < 32 ==> #[trigger] n.regs[d][i] == (a[i] && w[i]))
            && n.known[d] == (both || (c.known[base] && x == 0) || (w_known && y == 0))
        &&& code == 1 ==> (forall|i: int| 0 <= i < 32 ==> #[trigger] n.regs[d][i] == (a[i] && !w[i]))
            && n.known[d] == (both || (c.known[base] && x == 0) || (w_known && y == 0xffff_ffff))
        &&& code == 2 && base == 15 ==> n.regs[d] == w && n.known[d] == w_known
        &&& code == 2 && base != 15 ==> (forall|i: int|
            0 <= i < 32 ==> #[trigger] n.regs[d][i] == (a[i] || w[i])) && n.known[d] == (both || (
        c.known[base] && x == 0xffff_ffff) || (w_known && y == 0xffff_ffff))
        &&& code == 4 ==> (forall|i: int| 0 <= i < 32 ==> #[trigger] n.regs[d][i] == (a[i] != w[i]))
            && n.known[d] == both
        &&& !set ==> flags_stay(c, n)
        &&& set ==> tells(n, value(n, d), n.known[d]) && flag_stays(c, n, 2) && flag_stays(c, n, 3)
            && flag_stays(c, n, 4)
    } else if set && d == 15 {
        &&& only(c, n, 16)
        &&& code == 8 ==> tells_sum(c, n, x, y, 0, both)
        &&& code == 13 ==> tells_difference(c, n, x, y, 0, both)
    } else {
        &&& only(c, n, d)
        &&& n.known[d] == both
        &&& code == 8 ==> value(n, d) == (x + y) % 0x1_0000_0000
        &&& code == 13 ==> value(n, d) == (x - y) % 0x1_0000_0000
        &&& !set ==> flags_stay(c, n)
        &&& set && code == 8 ==> tells_sum(c, n, x, y, 0, both)
        &&& set && code == 13 ==> tells_difference(c, n, x, y, 0, both)
    }
}

/// The operation of such an encoding.
spec fn combined_op(code: int, set: bool, dest: u8, base: u8, right: Operand) -> Op {
    let left = Operand::Register(base);
    if code == 0 && set && dest == 15 {
        Op::Test { left, right }
    } else if code == 0 {
        Op::Bitwise { kind: BitOp::And, dest, left, right, set_flags: set }
    } else if code == 1 {
        Op::BitClear { dest, left, right, set_flags: set }
    } else if code == 2 && base == 15 {
        match right {
            Operand::Shifted { register, shift, amount } => Op::Shift {
                dest,
                source: register,
                direction: shift,
                amount,
                set_flags: set,
            },
            _ => Op::Move { dest, source: right, set_flags: set },
        }
    } else if code == 2 {
        Op::Bitwise { kind: BitOp::Or, dest, left, right, set_flags: set }
    } else if code == 4 {
        Op::Bitwise { kind: BitOp::Xor, dest, left, right, set_flags: set }
    } else if set && dest == 15 {
        Op::Compare { left, right, add: code == 8 }
    } else {
        Op::Arithmetic {
            kind: if code == 8 {
                Arithmetic::Add
            } else {
                Arithmetic::Sub
            },
            dest,
            left,
            right,
            set_flags: set,
        }
    }
}

/// The operations that have such an operand.
pub open spec fn combining(code: int) -> bool {
    code == 0 || code == 1 || code == 2 || code == 4 || code == 8 || code == 13
}

proof fn combined(c: Cpu, code: int, set: bool, dest: u8, base: u8, right: Operand, pc: u32, cells: Seq<bool>)
    requires
        shaped(c),
        combining(code),
        dest < 16,
        base < 16,
        code >= 8 ==> dest != 13,
        c.operand(right).word.len() == 32,
        right is Register ==> false,
        right is Shifted ==> !set || code >= 8,
    ensures
        ({
            let t = c.compute(combined_op(code, set, dest, base, right));
            &&& t is Some
            &&& t->0.itstate == c.itstate
            &&& pc as int == (c.pc + 4) % 0x1_0000_0000 ==> combines(
                (Step::Next { cpu: Cpu { pc, ..t->0 }, cells, pc }),
                c,
                cells,
                code,
                set,
                dest as int,
                base as int,
                c.operand(right).word,
                c.operand(right).known,
            )
        }),
{
    let left = Operand::Register(base);
    let a = c.regs[base as int];
    let w = c.operand(right).word;
    if code >= 8 {
        if set && dest == 15 {
            crate::thumb::effects::compare_in_numbers(c, left, right, code == 8);
        } else {
            let kind = if code == 8 {
                Arithmetic::Add
            } else {
                Arithmetic::Sub
            };
            crate::thumb::effects::arithmetic_in_numbers(c, kind, dest as int, left, right, set);
        }
    } else {
        crate::thumb::effects::spelled_word(a, 0);
        crate::thumb::effects::spelled_word(w, 0);
        crate::thumb::effects::spelled_word(a, 0xffff_ffff);
        crate::thumb::effects::spelled_word(w, 0xffff_ffff);
        let n = c.compute(combined_op(code, set, dest, base, right))->0;
        if code == 0 && set && dest == 15 {
            let both = crate::bits::and_bits(a, w);
            crate::bits::num_zero(both);
            assert((forall|i: int| 0 <= i < both.len() ==> !#[trigger] both[i]) == (forall|i: int|
                0 <= i < 32 ==> !(#[trigger] a[i] && w[i]))) by {
                if forall|i: int| 0 <= i < both.len() ==> !#[trigger] both[i] {
                    assert forall|i: int| 0 <= i < 32 implies !(#[trigger] a[i] && w[i]) by {
                        assert(!both[i]);
                    }
                }
            }
        } else {
            assert(n.regs[dest as int].len() == 32);
            crate::thumb::effects::word_facts(n.regs[dest as int]);
        }
    }
}

/// The number of a modified immediate: a byte, the byte in two or four places, or
/// seven bits below a set one, moved up.
pub open spec fn expanded(f: u16, g: u16) -> int {
    let t = 8 * ((f >> 10) & 1) + ((g >> 12) & 7);
    let b = (g & 255) as int;
    if t == 0 {
        b
    } else if t == 1 {
        0x0001_0001 * b
    } else if t == 2 {
        0x0100_0100 * b
    } else if t == 3 {
        0x0101_0101 * b
    } else {
        (128 + b % 128) * (pow2((32 - (2 * t + b / 128)) as nat) as int)
    }
}

proof fn expands(f: u16, g: u16)
    ensures
        crate::thumb::decode::expand_imm(f, g) == expanded(f, g),
        crate::thumb::decode::imm12(f, g) == 2048 * ((f >> 10) & 1) + 256 * ((g >> 12) & 7) + (g & 255),
        (crate::thumb::decode::imm12(f, g) >> 10 != 0) == (8 * ((f >> 10) & 1) + ((g >> 12) & 7) >= 4),
{
    first_fields(f);
    second_fields(g);
    immediate_fields(f, g);
    let field = crate::thumb::decode::imm12(f, g);
    let v = 0x80u32 | (field & 0x7f);
    let k = (field >> 7) & 31;
    let up = (32 - k) as u32;
    assert(field < 4096);
    assert((field < 4096 ==> field & 255 == field % 256 && field >> 10 == field / 1024 && (field >> 8) & 3
        == (field / 256) % 4 && (field >> 7) & 31 == field / 128 && (0x80u32 | (field & 0x7f)) == 128
        + field % 128 && ((field >> 7) & 31 >= 8 ==> (0x80u32 | (field & 0x7f)) >> ((field >> 7) & 31)
        == 0)) && (0u32 | (v << up)) == v << up) by (bit_vector);
    if field >= 1024 {
        powers_grow(up as nat, 24);
        lemma2_to64();
        assert(v * pow2(up as nat) <= 255 * pow2(24)) by (nonlinear_arith)
            requires
                v <= 255,
                pow2(up as nat) <= pow2(24),
        ;
        vstd::bits::lemma_u32_shl_is_mul(v, up);
    }
}

proof fn powers_grow(a: nat, b: nat)
    requires
        a <= b,
    ensures
        pow2(a) <= pow2(b),
{
    if a < b {
        lemma_pow2_strictly_increases(a, b);
    }
}

/// The number of the operation in a modified-immediate encoding.
pub open spec fn modified_code(f: u16) -> int {
    (((f >> 4) % 64) as int) / 2
}

/// The first halfword is one of a modified-immediate operation.
pub open spec fn modifies(f: u16) -> bool {
    let q = f >> 4;
    &&& 0xf00 <= q < 0xf20 || 0xf40 <= q < 0xf60
    &&& combining(modified_code(f))
}

proof fn modified_decode(pc: u32, f: u16, g: u16)
    requires
        g < 0x8000,
        modifies(f),
        (f >> 4) % 2 == 1 && modified_code(f) < 8 ==> 8 * ((f >> 10) & 1) + ((g >> 12) & 7) < 4,
        (g >> 8) & 15 == 15 ==> modified_code(f) < 4 || (modified_code(f) >= 8 && (f >> 4) % 2 == 1),
    ensures
        f >> 4 >= 0xe80,
        (g >> 8) & 15 < 16,
        f & 15 < 16,
        0 <= expanded(f, g) < 0x1_0000_0000,
        crate::thumb::decode::wide_op(pc, f, g) == Ok::<Decoded, DecodeError>(
            Decoded {
                operation: combined_op(
                    modified_code(f),
                    (f >> 4) % 2 == 1,
                    ((g >> 8) & 15) as u8,
                    (f & 15) as u8,
                    Operand::Immediate(expanded(f, g) as u32),
                ),
                len: 4,
            },
        ),
{
    expands(f, g);
    first_fields(f);
    second_fields(g);
    assert(crate::thumb::decode::is_modified(f, g));
    assert(crate::thumb::decode::wide_op(pc, f, g) == crate::thumb::decode::wide_or(
        crate::thumb::decode::modified_op(f, g),
        crate::thumb::decode::full_word(f, g),
    ));
}

/// The data operations with a modified immediate: `w` is the word of its number.
/// Those that would take the flags of a moved immediate, and sums into the
/// program counter, are left to [`refused_immediates`].
pub proof fn modified_immediates(
    c: Cpu,
    cells: Seq<bool>,
    frame: Frame<'_>,
    answers: Answers,
    f: u16,
    g: u16,
    w: Seq<bool>,
)
    requires
        free(c, answers),
        pair(frame, c.pc, f, g),
        g < 0x8000,
        modifies(f),
        (f >> 4) % 2 == 1 && modified_code(f) < 8 ==> 8 * ((f >> 10) & 1) + ((g >> 12) & 7) < 4,
        (g >> 8) & 15 == 15 ==> modified_code(f) < 4 || (modified_code(f) >= 8 && (f >> 4) % 2 == 1),
        (g >> 8) & 15 == 13 ==> modified_code(f) < 8,
        w.len() == 32,
        crate::bits::num(w) == expanded(f, g),
    ensures
        combines(
            c.step(cells, frame, answers),
            c,
            cells,
            modified_code(f),
            (f >> 4) % 2 == 1,
            ((g >> 8) & 15) as int,
            (f & 15) as int,
            w,
            true,
        ),
{
    modified_decode(c.pc, f, g);
    fetched(c, frame, f, g);
    let d = crate::thumb::decode::wide_op(c.pc, f, g)->Ok_0;
    let v = expanded(f, g) as u32;
    crate::thumb::effects::spelled_word(w, v);
    crate::concrete::word_num(v);
    combined(
        c,
        modified_code(f),
        (f >> 4) % 2 == 1,
        ((g >> 8) & 15) as u8,
        (f & 15) as u8,
        Operand::Immediate(v),
        c.pc.wrapping_add(4),
        cells,
    );
    crate::thumb::effects::computes(c, cells, frame, answers, d);
    let t = c.compute(d.operation)->0;
    let pc = c.pc.wrapping_add(4);
    assert(c.step(cells, frame, answers) == (Step::Next { cpu: Cpu { pc, ..t }, cells, pc }));
}

/// The modified-immediate encodings that are refused: flags of a moved immediate,
/// `TEQ`, and a sum without flags into the program counter.
pub proof fn refused_immediates(
    c: Cpu,
    cells: Seq<bool>,
    frame: Frame<'_>,
    answers: Answers,
    f: u16,
    g: u16,
)
    requires
        pair(frame, c.pc, f, g),
        g < 0x8000,
        modifies(f),
        ((f >> 4) % 2 == 1 && modified_code(f) < 8 && 8 * ((f >> 10) & 1) + ((g >> 12) & 7) >= 4) || ((g
            >> 8) & 15 == 15 && ((modified_code(f) == 4 && (f >> 4) % 2 == 1) || (modified_code(f) >= 8
            && (f >> 4) % 2 == 0))),
    ensures
        c.step(cells, frame, answers) == Step::Decode(
            DecodeError::Unsupported((0x1_0000 * f + g) as u32),
        ),
{
    expands(f, g);
    first_fields(f);
    second_fields(g);
    immediate_fields(f, g);
    assert(crate::thumb::decode::is_modified(f, g));
    assert(crate::thumb::decode::wide_op(c.pc, f, g) == crate::thumb::decode::wide_or(
        crate::thumb::decode::modified_op(f, g),
        crate::thumb::decode::full_word(f, g),
    ));
    fetched(c, frame, f, g);
}

/// The number of the operation in a shifted-register encoding.
pub open spec fn shifting_code(f: u16) -> int {
    (((f >> 4) % 32) as int) / 2
}

/// The first halfword is one of a shifted-register operation: the logical ones
/// without flags, the sums with or without.
pub open spec fn shifts(f: u16) -> bool {
    let q = f >> 4;
    q == 0xea0 || q == 0xea2 || q == 0xea4 || q == 0xea8 || q == 0xeb0 || q == 0xeb1 || q == 0xeba || q
        == 0xebb
}

/// The direction that a two-bit field names.
pub open spec fn turned(g: u16) -> Shift {
    if (g >> 4) & 3 == 0 {
        Shift::Left
    } else if (g >> 4) & 3 == 1 {
        Shift::LogicalRight
    } else if (g >> 4) & 3 == 2 {
        Shift::ArithmeticRight
    } else {
        Shift::RotateRight
    }
}

/// How far a shifted register is shifted: a right shift by nothing stands for one
/// by thirty-two.
pub open spec fn distance(g: u16) -> int {
    let j = 4 * ((g >> 12) & 7) + ((g >> 6) & 3);
    if j == 0 && (turned(g) == Shift::LogicalRight || turned(g) == Shift::ArithmeticRight) {
        32
    } else {
        j
    }
}

proof fn shifting_decode(pc: u32, f: u16, g: u16)
    requires
        shifts(f),
        turned(g) == Shift::RotateRight ==> distance(g) != 0,
        (g >> 8) & 15 == 15 ==> shifting_code(f) < 8 || (f >> 4) % 2 == 1,
    ensures
        f >> 4 >= 0xe80,
        combining(shifting_code(f)),
        (g >> 8) & 15 < 16,
        f & 15 < 16,
        g & 15 < 16,
        0 <= distance(g) <= 32,
        turned(g) == Shift::RotateRight ==> distance(g) < 32,
        shifting_code(f) < 8 ==> (f >> 4) % 2 == 0,
        crate::thumb::decode::wide_op(pc, f, g) == Ok::<Decoded, DecodeError>(
            Decoded {
                operation: combined_op(
                    shifting_code(f),
                    (f >> 4) % 2 == 1,
                    ((g >> 8) & 15) as u8,
                    (f & 15) as u8,
                    Operand::Shifted {
                        register: (g & 15) as u8,
                        shift: turned(g),
                        amount: ShiftAmount::Immediate(distance(g) as u32),
                    },
                ),
                len: 4,
            },
        ),
{
    first_fields(f);
    second_fields(g);
    assert(crate::thumb::decode::shift_type((g >> 4) & 3) == turned(g));
    assert(crate::thumb::decode::shift_amount(g) == Some(distance(g) as u32));
    assert(crate::thumb::decode::wide_op(pc, f, g) == crate::thumb::decode::wide_or(
        crate::thumb::decode::shifted_op(f, g),
        crate::thumb::decode::full_word(f, g),
    ));
}

/// A shift leaves one word only.
proof fn shifts_alike(direction: Shift, w: Seq<bool>, a: Seq<bool>, b: Seq<bool>, j: int)
    requires
        shifted(direction, w, a, j),
        shifted(direction, w, b, j),
    ensures
        a == b,
{
    crate::thumb::effects::word_facts(a);
    crate::thumb::effects::word_facts(b);
    if direction == Shift::RotateRight {
        assert(a =~= b) by {
            assert forall|i: int| 0 <= i < 32 implies a[i] == b[i] by {
                assert(a[i] == w[(i + j) % 32]);
                assert(b[i] == w[(i + j) % 32]);
            }
        }
    } else {
        crate::bits::num_injective(a, b);
    }
}

/// The data operations with a shifted register: `w` is that register shifted.
pub proof fn shifted_registers(
    c: Cpu,
    cells: Seq<bool>,
    frame: Frame<'_>,
    answers: Answers,
    f: u16,
    g: u16,
    w: Seq<bool>,
)
    requires
        free(c, answers),
        pair(frame, c.pc, f, g),
        shifts(f),
        turned(g) == Shift::RotateRight ==> distance(g) != 0,
        (g >> 8) & 15 == 15 ==> shifting_code(f) < 8 || (f >> 4) % 2 == 1,
        (g >> 8) & 15 == 13 ==> shifting_code(f) < 8,
        shifted(turned(g), c.regs[(g & 15) as int], w, distance(g)),
    ensures
        combines(
            c.step(cells, frame, answers),
            c,
            cells,
            shifting_code(f),
            (f >> 4) % 2 == 1,
            ((g >> 8) & 15) as int,
            (f & 15) as int,
            w,
            c.known[(g & 15) as int],
        ),
{
    shifting_decode(c.pc, f, g);
    fetched(c, frame, f, g);
    let d = crate::thumb::decode::wide_op(c.pc, f, g)->Ok_0;
    let m = (g & 15) as int;
    let amount = ShiftAmount::Immediate(distance(g) as u32);
    crate::thumb::effects::shifted_in_numbers(c, m, turned(g), amount);
    shifts_alike(turned(g), c.regs[m], w, c.shifted(m, turned(g), amount).word, distance(g));
    combined(
        c,
        shifting_code(f),
        (f >> 4) % 2 == 1,
        ((g >> 8) & 15) as u8,
        (f & 15) as u8,
        Operand::Shifted { register: (g & 15) as u8, shift: turned(g), amount },
        c.pc.wrapping_add(4),
        cells,
    );
    crate::thumb::effects::computes(c, cells, frame, answers, d);
    let t = c.compute(d.operation)->0;
    let pc = c.pc.wrapping_add(4);
    assert(c.step(cells, frame, answers) == (Step::Next { cpu: Cpu { pc, ..t }, cells, pc }));
}

} // verus!
