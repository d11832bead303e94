//! What each audited word is and does, from the numbers that its encoding is
//! made of to the numbers in the registers.
use crate::a64::body::{Body, Crossing};
use crate::a64::decode::{DecodeError, Instruction};
use crate::a64::state::{Core, Effect};
use vstd::arithmetic::power2::*;
use vstd::prelude::*;

verus! {

/// A register file of thirty-one words of sixty-four bits.
pub open spec fn shaped(c: Core) -> bool {
    &&& c.regs.len() == 31
    &&& c.known.len() == 31
    &&& forall|r: int| 0 <= r < 31 ==> (#[trigger] c.regs[r]).len() == 64
}

/// The number in a register.
pub open spec fn x(c: Core, r: int) -> int {
    crate::bits::num(c.regs[r]) as int
}

/// The number that a branch reads from a register, of which the last is zero.
pub open spec fn zx(c: Core, r: int) -> int {
    if r == 31 {
        0
    } else {
        x(c, r)
    }
}

/// One more than the largest number of a register, or of its lower half.
pub open spec fn modulus(sf: int) -> int {
    if sf == 1 {
        0x1_0000_0000_0000_0000
    } else {
        0x1_0000_0000
    }
}

/// The address behind an instruction.
pub open spec fn behind(pc: u64) -> int {
    (pc + 4) % 0x1_0000_0000_0000_0000
}

/// The address some words away.
pub open spec fn away(pc: u64, words: int) -> int {
    (pc + 4 * words) % 0x1_0000_0000_0000_0000
}

/// A step that leaves everything but one register alone.
pub open spec fn wrote(c: Core, effect: Effect, next: int, dest: int, after: Core) -> bool {
    match effect {
        Effect::Next { core, next: n } => {
            &&& core == after
            &&& n == next
            &&& after.regs.len() == 31
            &&& after.known.len() == 31
            &&& after.sp == c.sp
            &&& after.sp_word == c.sp_word
            &&& after.nzcv == c.nzcv
            &&& after.nzcv_known == c.nzcv_known
            &&& after.done == c.done
            &&& forall|r: int|
                0 <= r < 31 && r != dest ==> (#[trigger] after.regs[r]) == c.regs[r]
                    && after.known[r] == c.known[r]
        },
        _ => false,
    }
}

/// The state that a step leaves.
pub open spec fn left(effect: Effect) -> Core {
    match effect {
        Effect::Next { core, next: _ } => core,
        Effect::Exit { core } => core,
        Effect::Error(_) => arbitrary(),
    }
}

/// A step that goes to an address and changes nothing.
pub open spec fn went(c: Core, effect: Effect, next: int) -> bool {
    match effect {
        Effect::Next { core, next: n } => core == c && n == next,
        _ => false,
    }
}

/// The masks of the forms, as numbers.
pub proof fn forms(raw: u32)
    ensures
        (raw & 0x7f80_0000 == 0x5280_0000) == ((raw / 0x80_0000) % 0x100 == 0xa5),
        (raw & 0x7f80_0000 == 0x7280_0000) == ((raw / 0x80_0000) % 0x100 == 0xe5),
        (raw & 0x1f00_0000 == 0x1100_0000) == ((raw / 0x100_0000) % 0x20 == 0x11),
        (raw & 0x7c00_0000 == 0x1400_0000) == ((raw / 0x400_0000) % 0x20 == 0x05),
        (raw & 0xff00_0010 == 0x5400_0000) == (raw / 0x100_0000 == 0x54 && (raw / 0x10) % 2 == 0),
        (raw & 0xfe00_0010 == 0x5400_0000) == (raw / 0x200_0000 == 0x2a && (raw / 0x10) % 2 == 0),
        (raw & 0x7e00_0000 == 0x3400_0000) == ((raw / 0x200_0000) % 0x40 == 0x1a),
        (raw & 0x7e00_0000 == 0x3600_0000) == ((raw / 0x200_0000) % 0x40 == 0x1b),
        (raw & 0xffff_fc1f == 0xd61f_0000) == (raw / 0x400 == 0x35_87c0 && raw % 0x20 == 0),
        (raw & 0xffff_fc1f == 0xd63f_0000) == (raw / 0x400 == 0x35_8fc0 && raw % 0x20 == 0),
        (raw & 0xffff_fc1f == 0xd65f_0000) == (raw / 0x400 == 0x35_97c0 && raw % 0x20 == 0),
        (raw & 0xffe0_001f == 0xd400_0001) == (raw / 0x20_0000 == 0x6a0 && raw % 0x20 == 1),
{
    assert((raw & 0x7f80_0000 == 0x5280_0000) == ((raw / 0x80_0000) % 0x100 == 0xa5) && (raw
        & 0x7f80_0000 == 0x7280_0000) == ((raw / 0x80_0000) % 0x100 == 0xe5) && (raw & 0x1f00_0000
        == 0x1100_0000) == ((raw / 0x100_0000) % 0x20 == 0x11) && (raw & 0x7c00_0000 == 0x1400_0000)
        == ((raw / 0x400_0000) % 0x20 == 0x05) && (raw & 0xff00_0010 == 0x5400_0000) == (raw
        / 0x100_0000 == 0x54 && (raw / 0x10) % 2 == 0) && (raw & 0xfe00_0010 == 0x5400_0000) == (raw
        / 0x200_0000 == 0x2a && (raw / 0x10) % 2 == 0) && (raw & 0x7e00_0000 == 0x3400_0000) == ((
    raw / 0x200_0000) % 0x40 == 0x1a) && (raw & 0x7e00_0000 == 0x3600_0000) == ((raw / 0x200_0000)
        % 0x40 == 0x1b) && (raw & 0xffff_fc1f == 0xd61f_0000) == (raw / 0x400 == 0x35_87c0 && raw
        % 0x20 == 0) && (raw & 0xffff_fc1f == 0xd63f_0000) == (raw / 0x400 == 0x35_8fc0 && raw
        % 0x20 == 0) && (raw & 0xffff_fc1f == 0xd65f_0000) == (raw / 0x400 == 0x35_97c0 && raw
        % 0x20 == 0) && (raw & 0xffe0_001f == 0xd400_0001) == (raw / 0x20_0000 == 0x6a0 && raw
        % 0x20 == 1)) by (bit_vector);
}

/// The fields that the forms use, as numbers.
pub proof fn fields(raw: u32)
    ensures
        crate::a64::decode::field(raw, 0, 5) == raw % 32,
        crate::a64::decode::field(raw, 5, 5) == (raw / 32) % 32,
        crate::a64::decode::field(raw, 5, 16) == (raw / 32) % 0x1_0000,
        crate::a64::decode::field(raw, 21, 2) == (raw / 0x20_0000) % 4,
        crate::a64::decode::field(raw, 31, 1) == raw / 0x8000_0000,
        crate::a64::decode::field(raw, 10, 12) == (raw / 0x400) % 0x1000,
        crate::a64::decode::field(raw, 22, 1) == (raw / 0x40_0000) % 2,
        crate::a64::decode::field(raw, 29, 1) == (raw / 0x2000_0000) % 2,
        crate::a64::decode::field(raw, 30, 1) == (raw / 0x4000_0000) % 2,
        crate::a64::decode::field(raw, 24, 1) == (raw / 0x100_0000) % 2,
        crate::a64::decode::field(raw, 19, 5) == (raw / 0x8_0000) % 32,
        crate::a64::decode::field(raw, 0, 4) == raw % 16,
        crate::a64::decode::field(raw, 0, 26) == raw % 0x400_0000,
        crate::a64::decode::field(raw, 5, 19) == (raw / 32) % 0x8_0000,
        crate::a64::decode::field(raw, 5, 14) == (raw / 32) % 0x4000,
        pow2(25) == 0x200_0000,
        pow2(26) == 0x400_0000,
        pow2(18) == 0x4_0000,
        pow2(19) == 0x8_0000,
        pow2(13) == 0x2000,
        pow2(14) == 0x4000,
{
    lemma2_to64();
}

/// `ADD` and `SUB` with an immediate, as a word.
proof fn add_word(pc: u64, raw: u32, sf: int, op: int, s: int, sh: int, imm: int, n: int, d: int)
    requires
        pc % 4 == 0,
        0 <= sf < 2,
        0 <= op < 2,
        0 <= s < 2,
        0 <= sh < 2,
        0 <= imm < 0x1000,
        0 <= n < 32,
        0 <= d < 32,
        raw == sf * 0x8000_0000 + op * 0x4000_0000 + s * 0x2000_0000 + 0x1100_0000 + sh * 0x40_0000
            + imm * 0x400 + n * 0x20 + d,
    ensures
        raw != 0xd503_201f,
        crate::a64::decode::decoded(pc, raw, true) == if s == 1 || n == 31 || d == 31 {
            Err::<Instruction, DecodeError>(DecodeError::Unsupported(raw))
        } else {
            Ok(
                Instruction::AddImmediate {
                    dest: d as u8,
                    source: n as u8,
                    immediate: (if sh == 1 {
                        imm * 4096
                    } else {
                        imm
                    }) as u64,
                    subtract: op == 1,
                    width64: sf == 1,
                },
            )
        },
{
    let r = raw as int;
    let low = n * 0x20 + d;
    let mid = imm * 0x400 + low;
    let high = sh * 0x40_0000 + mid;
    let top = sf * 4 + op * 2 + s;
    crate::number::digit(r, 1, 32, (r - d) / 32, d, 0);
    crate::number::digit(r, 32, 32, top * 0x8_0000 + 0x4_4000 + sh * 0x1000 + imm, n, d);
    crate::number::digit(r, 0x400, 0x1000, top * 0x80 + 0x44 + sh, imm, low);
    crate::number::digit(r, 0x40_0000, 2, top * 0x40 + 0x22, sh, mid);
    crate::number::digit(r, 0x80_0000, 0x100, sf, op * 128 + s * 64 + 0x22, high);
    crate::number::digit(r, 0x100_0000, 0x20, top, 0x11, high);
    crate::number::digit(r, 0x2000_0000, 2, sf * 2 + op, s, 0x1100_0000 + high);
    crate::number::digit(r, 0x4000_0000, 2, sf, op, s * 0x2000_0000 + 0x1100_0000 + high);
    crate::number::digit(
        r,
        0x8000_0000,
        2,
        0,
        sf,
        op * 0x4000_0000 + s * 0x2000_0000 + 0x1100_0000 + high,
    );
    forms(raw);
    fields(raw);
}

/// `ADD` and `SUB` with an immediate: the sum or the difference of the register
/// and the immediate, shifted by twelve places or not, modulo the width. Register
/// 31 and the flag-setting forms are refused.
pub proof fn add_and_subtract_immediate(
    c: Core,
    pc: u64,
    raw: u32,
    sf: int,
    op: int,
    s: int,
    sh: int,
    imm: int,
    n: int,
    d: int,
)
    requires
        shaped(c),
        pc % 4 == 0,
        0 <= sf < 2,
        0 <= op < 2,
        0 <= s < 2,
        0 <= sh < 2,
        0 <= imm < 0x1000,
        0 <= n < 32,
        0 <= d < 32,
        raw == sf * 0x8000_0000 + op * 0x4000_0000 + s * 0x2000_0000 + 0x1100_0000 + sh * 0x40_0000
            + imm * 0x400 + n * 0x20 + d,
    ensures
        ({
            let effect = c.step(pc, raw, true);
            let after = left(effect);
            let value = if sh == 1 {
                imm * 4096
            } else {
                imm
            };
            if s == 1 || n == 31 || d == 31 {
                effect == Effect::Error(DecodeError::Unsupported(raw))
            } else {
                &&& wrote(c, effect, behind(pc), d, after)
                &&& x(after, d) == (if op == 1 {
                    x(c, n) - value
                } else {
                    x(c, n) + value
                }) % modulus(sf)
                &&& after.regs[d].len() == 64
                &&& after.known[d] == c.known[n]
            }
        }),
{
    add_word(pc, raw, sf, op, s, sh, imm, n, d);
    if s == 0 && n < 31 && d < 31 {
        let value = (if sh == 1 {
            imm * 4096
        } else {
            imm
        }) as u64;
        let word = c.regs[n];
        let right = crate::a64::state::dword(value);
        lemma2_to64();
        crate::wide::spelled(value as nat, 64);
        if op == 1 {
            crate::bits::sub_is_difference(word, right);
            halved(crate::bits::sub_of(word, right), x(c, n) - value);
        } else {
            crate::number::sum(word, right, false);
            halved(crate::bits::add_of(word, right, false), x(c, n) + value);
        }
    }
}

/// The lower half of a word, as a number.
proof fn halved(word: Seq<bool>, v: int)
    requires
        word.len() == 64,
        crate::bits::num(word) == v % 0x1_0000_0000_0000_0000,
    ensures
        crate::bits::num(crate::a64::state::narrowed(word, false)) == v % 0x1_0000_0000,
        crate::a64::state::narrowed(word, false).len() == 64,
{
    lemma2_to64();
    let low = word.take(32);
    crate::number::split(word, 32);
    crate::number::extended_plain(low, 64);
    assert(crate::a64::state::narrowed(word, false) =~= crate::wide::extended(low, 64, false));
    vstd::arithmetic::div_mod::lemma_mod_mod(v, 0x1_0000_0000, 0x1_0000_0000);
}

/// `MOVZ` and `MOVK`, as a word.
proof fn move_word(pc: u64, raw: u32, sf: int, keep: bool, hw: int, imm: int, d: int)
    requires
        pc % 4 == 0,
        0 <= sf < 2,
        0 <= hw < 4,
        0 <= imm < 0x1_0000,
        0 <= d < 32,
        raw == sf * 0x8000_0000 + (if keep {
            0x7280_0000int
        } else {
            0x5280_0000int
        }) + hw * 0x20_0000 + imm * 0x20 + d,
    ensures
        raw != 0xd503_201f,
        crate::a64::decode::decoded(pc, raw, true) == if d == 31 || (sf == 0 && hw >= 2) {
            Err::<Instruction, DecodeError>(DecodeError::Unsupported(raw))
        } else {
            Ok(
                Instruction::MoveWide {
                    dest: d as u8,
                    immediate: imm as u64,
                    shift: (16 * hw) as u32,
                    keep,
                    width64: sf == 1,
                },
            )
        },
{
    let r = raw as int;
    let base: int = if keep {
        0xe5
    } else {
        0xa5
    };
    let low = imm * 0x20 + d;
    crate::number::digit(r, 1, 32, (r - d) / 32, d, 0);
    crate::number::digit(r, 0x20, 0x1_0000, sf * 0x400 + base * 4 + hw, imm, d);
    crate::number::digit(r, 0x20_0000, 4, sf * 0x100 + base, hw, low);
    crate::number::digit(r, 0x80_0000, 0x100, sf, base, hw * 0x20_0000 + low);
    crate::number::digit(r, 0x8000_0000, 2, 0, sf, base * 0x80_0000 + hw * 0x20_0000 + low);
    forms(raw);
    fields(raw);
}

/// `MOVZ` puts its immediate at one of four places of a register and clears the
/// rest; `MOVK` keeps the rest. A form of 32 bits clears the upper half and has
/// two places.
pub proof fn wide_moves(
    c: Core,
    pc: u64,
    raw: u32,
    sf: int,
    keep: bool,
    hw: int,
    imm: int,
    d: int,
    i: int,
)
    requires
        shaped(c),
        pc % 4 == 0,
        0 <= sf < 2,
        0 <= hw < 4,
        0 <= imm < 0x1_0000,
        0 <= d < 32,
        0 <= i < 64,
        raw == sf * 0x8000_0000 + (if keep {
            0x7280_0000int
        } else {
            0x5280_0000int
        }) + hw * 0x20_0000 + imm * 0x20 + d,
    ensures
        ({
            let effect = c.step(pc, raw, true);
            let after = left(effect);
            if d == 31 || (sf == 0 && hw >= 2) {
                effect == Effect::Error(DecodeError::Unsupported(raw))
            } else {
                &&& wrote(c, effect, behind(pc), d, after)
                &&& after.regs[d].len() == 64
                &&& after.regs[d][i] == if 16 * hw <= i < 16 * hw + 16 {
                    (imm / pow2((i - 16 * hw) as nat) as int) % 2 == 1
                } else {
                    keep && c.regs[d][i] && (sf == 1 || i < 32)
                }
                &&& after.known[d] == (!keep || c.known[d])
            }
        }),
{
    move_word(pc, raw, sf, keep, hw, imm, d);
}

/// A branch offset in a field of some bits.
pub open spec fn offset_field(words: int, size: int) -> int {
    words % size
}

/// `B` and `BL` go a signed number of words away. `BL` leaves the address behind
/// it in register 30, which the host then knows.
pub proof fn jumps(c: Core, pc: u64, raw: u32, link: int, words: int)
    requires
        shaped(c),
        pc % 4 == 0,
        0 <= link < 2,
        -0x200_0000 <= words < 0x200_0000,
        raw == link * 0x8000_0000 + 0x1400_0000 + offset_field(words, 0x400_0000),
    ensures
        ({
            let effect = c.step(pc, raw, true);
            let after = left(effect);
            if link == 0 {
                went(c, effect, away(pc, words))
            } else {
                &&& wrote(c, effect, away(pc, words), 30, after)
                &&& x(after, 30) == behind(pc)
                &&& after.regs[30].len() == 64
                &&& after.known[30]
            }
        }),
        crate::a64::program::site(pc, raw) == crate::a64::program::Site::Jump(
            away(pc, words) as u64,
        ),
{
    forms(raw);
    fields(raw);
    lemma2_to64();
    crate::wide::spelled(pc.wrapping_add(4) as nat, 64);
}

/// `CBZ` and `CBNZ`, as a word.
proof fn compare_word(pc: u64, raw: u32, sf: int, op: int, words: int, t: int)
    requires
        pc % 4 == 0,
        0 <= sf < 2,
        0 <= op < 2,
        -0x4_0000 <= words < 0x4_0000,
        0 <= t < 32,
        raw == sf * 0x8000_0000 + 0x3400_0000 + op * 0x100_0000 + offset_field(words, 0x8_0000)
            * 0x20 + t,
    ensures
        raw != 0xd503_201f,
        crate::a64::state::compares(raw),
        crate::a64::decode::decoded(pc, raw, true) == Ok::<Instruction, DecodeError>(
            Instruction::CompareBranch {
                register: t as u8,
                nonzero: op == 1,
                width64: sf == 1,
                target: away(pc, words) as u64,
            },
        ),
        crate::a64::program::site(pc, raw) == (crate::a64::program::Site::Fork {
            taken: away(pc, words) as u64,
            fallthrough: behind(pc) as u64,
        }),
{
    let r = raw as int;
    let f = offset_field(words, 0x8_0000);
    let low = f * 0x20 + t;
    crate::number::digit(r, 1, 32, (r - t) / 32, t, 0);
    crate::number::digit(r, 0x20, 0x8_0000, sf * 0x80 + 0x34 + op, f, t);
    crate::number::digit(r, 0x100_0000, 2, sf * 0x40 + 0x1a, op, low);
    crate::number::digit(r, 0x100_0000, 0x20, sf * 4 + 1, 0x14 + op, low);
    crate::number::digit(r, 0x200_0000, 0x40, sf, 0x1a, op * 0x100_0000 + low);
    crate::number::digit(r, 0x200_0000, 0x80, 0, sf * 0x40 + 0x1a, op * 0x100_0000 + low);
    crate::number::digit(
        r,
        0x400_0000,
        0x20,
        sf,
        0x0d,
        op * 0x100_0000 + low,
    );
    let q = f / 0x4_0000;
    crate::number::digit(
        r,
        0x80_0000,
        0x100,
        sf,
        0x68 + op * 2 + q,
        low - q * 0x80_0000,
    );
    crate::number::digit(r, 0x8000_0000, 2, 0, sf, 0x3400_0000 + op * 0x100_0000 + low);
    forms(raw);
    fields(raw);
}

/// `CBZ` goes away where its register, or the lower half of it, is zero, and
/// `CBNZ` where it is not.
pub proof fn compare_branches(c: Core, pc: u64, raw: u32, sf: int, op: int, words: int, t: int)
    requires
        shaped(c),
        pc % 4 == 0,
        0 <= sf < 2,
        0 <= op < 2,
        -0x4_0000 <= words < 0x4_0000,
        0 <= t < 32,
        raw == sf * 0x8000_0000 + 0x3400_0000 + op * 0x100_0000 + offset_field(words, 0x8_0000)
            * 0x20 + t,
    ensures
        went(
            c,
            c.step(pc, raw, true),
            if (zx(c, t) % modulus(sf) == 0) == (op == 0) {
                away(pc, words)
            } else {
                behind(pc)
            },
        ),
        crate::a64::program::site(pc, raw) == (crate::a64::program::Site::Fork {
            taken: away(pc, words) as u64,
            fallthrough: behind(pc) as u64,
        }),
        crate::a64::state::conditional(raw),
        crosses(c, pc, raw),
{
    compare_word(pc, raw, sf, op, words, t);
    lemma2_to64();
    let word = c.read(t as u8);
    crate::bits::num_bits_of(0, 64);
    crate::bits::num_bound(word);
    assert(crate::bits::num(word) == zx(c, t));
    halved(word, zx(c, t));
    crossing_steps(c, pc, raw);
}

/// `TBZ` and `TBNZ`, as a word.
proof fn test_word(pc: u64, raw: u32, b: int, op: int, words: int, t: int)
    requires
        pc % 4 == 0,
        0 <= b < 64,
        0 <= op < 2,
        -0x2000 <= words < 0x2000,
        0 <= t < 32,
        raw == (b / 32) * 0x8000_0000 + 0x3600_0000 + op * 0x100_0000 + (b % 32) * 0x8_0000
            + offset_field(words, 0x4000) * 0x20 + t,
    ensures
        raw != 0xd503_201f,
        crate::a64::state::tests(raw),
        crate::a64::decode::decoded(pc, raw, true) == Ok::<Instruction, DecodeError>(
            Instruction::TestBranch {
                register: t as u8,
                bit: b as u8,
                nonzero: op == 1,
                target: away(pc, words) as u64,
            },
        ),
        crate::a64::program::site(pc, raw) == (crate::a64::program::Site::Fork {
            taken: away(pc, words) as u64,
            fallthrough: behind(pc) as u64,
        }),
{
    let r = raw as int;
    let f = offset_field(words, 0x4000);
    let hi = b / 32;
    let lo = b % 32;
    let low = f * 0x20 + t;
    let mid = lo * 0x8_0000 + low;
    crate::number::digit(r, 1, 32, (r - t) / 32, t, 0);
    crate::number::digit(r, 0x20, 0x4000, hi * 0x1000 + 0x6c0 + op * 0x20 + lo, f, t);
    crate::number::digit(r, 0x8_0000, 32, hi * 0x80 + 0x36 + op, lo, low);
    crate::number::digit(r, 0x100_0000, 2, hi * 0x40 + 0x1b, op, mid);
    crate::number::digit(r, 0x100_0000, 0x20, hi * 4 + 1, 0x16 + op, mid);
    crate::number::digit(r, 0x200_0000, 0x40, hi, 0x1b, op * 0x100_0000 + mid);
    crate::number::digit(r, 0x200_0000, 0x80, 0, hi * 0x40 + 0x1b, op * 0x100_0000 + mid);
    crate::number::digit(r, 0x400_0000, 0x20, hi, 0x0d, 0x200_0000 + op * 0x100_0000 + mid);
    let q = lo / 16;
    crate::number::digit(r, 0x80_0000, 0x100, hi, 0x6c + op * 2 + q, mid - q * 0x80_0000);
    crate::number::digit(r, 0x8000_0000, 2, 0, hi, 0x3600_0000 + op * 0x100_0000 + mid);
    forms(raw);
    fields(raw);
}

/// `TBZ` goes away where a bit of its register is clear, and `TBNZ` where it is
/// set.
pub proof fn test_branches(c: Core, pc: u64, raw: u32, b: int, op: int, words: int, t: int)
    requires
        shaped(c),
        pc % 4 == 0,
        0 <= b < 64,
        0 <= op < 2,
        -0x2000 <= words < 0x2000,
        0 <= t < 32,
        raw == (b / 32) * 0x8000_0000 + 0x3600_0000 + op * 0x100_0000 + (b % 32) * 0x8_0000
            + offset_field(words, 0x4000) * 0x20 + t,
    ensures
        went(
            c,
            c.step(pc, raw, true),
            if (t < 31 && c.regs[t][b]) == (op == 1) {
                away(pc, words)
            } else {
                behind(pc)
            },
        ),
        crate::a64::program::site(pc, raw) == (crate::a64::program::Site::Fork {
            taken: away(pc, words) as u64,
            fallthrough: behind(pc) as u64,
        }),
        crate::a64::state::conditional(raw),
        crosses(c, pc, raw),
{
    test_word(pc, raw, b, op, words, t);
    crate::wide::zero_bits(64);
    crossing_steps(c, pc, raw);
}

/// A branch on wires leads where the step of its instruction does, to one of the
/// two successors that it names.
pub open spec fn crosses(c: Core, pc: u64, raw: u32) -> bool {
    match crate::a64::body::crossing(c, pc, raw, true) {
        Crossing::At { next, taken, fallthrough } => {
            &&& went(c, c.step(pc, raw, true), next as int)
            &&& fallthrough == behind(pc)
            &&& next == taken || next == fallthrough
            &&& crate::a64::program::site(pc, raw) == (crate::a64::program::Site::Fork {
                taken,
                fallthrough,
            })
        },
        Crossing::Error(_) => false,
    }
}

proof fn crossing_steps(c: Core, pc: u64, raw: u32)
    requires
        shaped(c),
        pc % 4 == 0,
        crate::a64::state::conditional(raw),
    ensures
        crosses(c, pc, raw),
{
    forms(raw);
    crate::a64::state::conditional_forms(pc, raw, true);
    crate::a64::state::decoded_is_ok(pc, raw, true);
    assert(crate::a64::decode::field(raw, 0, 5) < 32 && crate::a64::decode::field(raw, 19, 5) < 32
        && crate::a64::decode::field(raw, 31, 1) < 2) by {
        lemma2_to64();
    }
}

/// A conditional branch on the flags is decoded, with its condition and its
/// target, but no step takes it; it is a boundary of the control flow unless it
/// always holds.
pub proof fn flag_branches(c: Core, pc: u64, raw: u32, condition: int, words: int)
    requires
        pc % 4 == 0,
        0 <= condition < 16,
        -0x4_0000 <= words < 0x4_0000,
        raw == 0x5400_0000 + offset_field(words, 0x8_0000) * 0x20 + condition,
    ensures
        condition < 14 ==> {
            &&& crate::a64::decode::decoded(pc, raw, true) == Ok::<Instruction, DecodeError>(
                Instruction::ConditionalBranch {
                    condition: condition as u8,
                    target: away(pc, words) as u64,
                },
            )
            &&& c.step(pc, raw, true) == Effect::Error(DecodeError::Unsupported(raw))
        },
        condition >= 14 ==> {
            &&& crate::a64::decode::decoded(pc, raw, true) == Err::<Instruction, DecodeError>(
                DecodeError::Malformed(raw),
            )
            &&& c.step(pc, raw, true) == Effect::Error(DecodeError::Malformed(raw))
        },
        condition != 14 ==> crate::a64::program::site(pc, raw) == (
        crate::a64::program::Site::Fork {
            taken: away(pc, words) as u64,
            fallthrough: behind(pc) as u64,
        }),
        condition == 14 ==> crate::a64::program::site(pc, raw) is Always,
{
    let r = raw as int;
    let f = offset_field(words, 0x8_0000);
    let low = f * 0x20 + condition;
    crate::number::digit(r, 1, 16, (r - condition) / 16, condition, 0);
    crate::number::digit(r, 0x10, 2, 0x2a0_0000 + f, 0, condition);
    crate::number::digit(r, 0x20, 0x8_0000, 0x54, f, condition);
    crate::number::digit(r, 0x100_0000, 0x100, 0, 0x54, low);
    crate::number::digit(r, 0x100_0000, 0x20, 2, 0x14, low);
    crate::number::digit(r, 0x200_0000, 0x80, 0, 0x2a, low);
    crate::number::digit(r, 0x200_0000, 0x40, 0, 0x2a, low);
    crate::number::digit(r, 0x400_0000, 0x20, 0, 0x15, low);
    let q = f / 0x4_0000;
    crate::number::digit(r, 0x80_0000, 0x100, 0, 0xa8 + q, low - q * 0x80_0000);
    forms(raw);
    fields(raw);
}

/// `BR`, `BLR` and `RET` are decoded, with their register, but no step takes
/// them. Register 31 is none, and a return goes by register 30 alone.
pub proof fn register_branches(c: Core, pc: u64, raw: u32, form: int, n: int)
    requires
        pc % 4 == 0,
        0 <= form < 3,
        0 <= n < 32,
        raw == 0xd61f_0000 + form * 0x20_0000 + n * 0x20,
    ensures
        ({
            let decoded = crate::a64::decode::decoded(pc, raw, true);
            &&& decoded == if form == 2 {
                if n == 30 {
                    Ok::<Instruction, DecodeError>(Instruction::Return)
                } else {
                    Err(DecodeError::Unsupported(raw))
                }
            } else if n == 31 {
                Err(DecodeError::Malformed(raw))
            } else if form == 0 {
                Ok(Instruction::BranchRegister { register: n as u8 })
            } else {
                Ok(Instruction::BranchLinkRegister { register: n as u8 })
            }
            &&& c.step(pc, raw, true) == Effect::Error(
                if n == 31 && form < 2 {
                    DecodeError::Malformed(raw)
                } else {
                    DecodeError::Unsupported(raw)
                },
            )
            &&& form == 0 ==> crate::a64::program::site(pc, raw) == (
            crate::a64::program::Site::Indirect { call: false })
            &&& form == 1 ==> crate::a64::program::site(pc, raw) == (
            crate::a64::program::Site::Indirect { call: true })
            &&& form == 2 && n == 30 ==> crate::a64::program::site(pc, raw) is Return
        }),
{
    let r = raw as int;
    let low = 0x1f_0000 + form * 0x20_0000 + n * 0x20;
    crate::number::digit(r, 1, 32, (r / 32), 0, 0);
    crate::number::digit(r, 0x20, 0x20, 0x35_87c0 + form * 0x800, n, 0);
    crate::number::digit(r, 0x400, 0x40_0000, 0, 0x35_87c0 + form * 0x800, n * 0x20);
    crate::number::digit(r, 0x80_0000, 0x100, 1, 0xac, low);
    crate::number::digit(r, 0x100_0000, 0x100, 0, 0xd6, low);
    crate::number::digit(r, 0x100_0000, 0x20, 6, 0x16, low);
    crate::number::digit(r, 0x200_0000, 0x80, 0, 0x6b, low);
    crate::number::digit(r, 0x200_0000, 0x40, 1, 0x2b, low);
    crate::number::digit(r, 0x400_0000, 0x20, 1, 0x15, 0x200_0000 + low);
    forms(raw);
    assert(crate::a64::decode::field(raw, 5, 5) == n) by {
        fields(raw);
    }
}

/// `SVC #0` exits and `NOP` does nothing.
pub proof fn calls_and_nothing(c: Core, pc: u64)
    requires
        pc % 4 == 0,
    ensures
        c.step(pc, 0xd400_0001, true) == (Effect::Exit { core: c }),
        crate::a64::decode::decoded(pc, 0xd400_0001, true) == Ok::<Instruction, DecodeError>(
            Instruction::SupervisorCall,
        ),
        crate::a64::program::site(pc, 0xd400_0001) is Exit,
        went(c, c.step(pc, 0xd503_201f, true), behind(pc)),
        crate::a64::program::site(pc, 0xd503_201f) is Straight,
{
    forms(0xd400_0001);
    fields(0xd400_0001);
    forms(0xd503_201f);
    fields(0xd503_201f);
}

/// An address that is no multiple of four, or a word that the decoder does not
/// know, is refused as such.
pub proof fn misplaced_words(c: Core, pc: u64, raw: u32, recognized: bool)
    ensures
        pc % 4 != 0 ==> c.step(pc, raw, recognized) == Effect::Error(DecodeError::Malformed(raw)),
        pc % 4 == 0 && !recognized ==> c.step(pc, raw, recognized) == Effect::Error(
            DecodeError::Invalid(raw),
        ),
{
}

/// A word of none of the forms is refused.
pub proof fn other_words(c: Core, pc: u64, raw: u32)
    requires
        pc % 4 == 0,
        raw != 0xd503_201f,
        raw != 0xd400_0001,
        // No wide move.
        (raw / 0x80_0000) % 0x100 != 0xa5,
        (raw / 0x80_0000) % 0x100 != 0xe5,
        // No addition of an immediate.
        (raw / 0x100_0000) % 0x20 != 0x11,
        // No branch.
        (raw / 0x400_0000) % 0x20 != 0x05,
        !(raw / 0x100_0000 == 0x54 && (raw / 0x10) % 2 == 0),
        (raw / 0x200_0000) % 0x40 != 0x1a,
        (raw / 0x200_0000) % 0x40 != 0x1b,
        !(raw / 0x400 == 0x35_87c0 && raw % 0x20 == 0),
        !(raw / 0x400 == 0x35_8fc0 && raw % 0x20 == 0),
        raw != 0xd65f_03c0,
    ensures
        c.step(pc, raw, true) == Effect::Error(DecodeError::Unsupported(raw)),
{
    forms(raw);
    fields(raw);
}

/// A straight-line body is the steps of its instructions, one after the other:
/// where a word is neither a branch nor a jump and its step goes on, the body is
/// the body that follows; a jump ends it with the state and the address of its
/// step, an exit with the state of its own, and a branch on wires before it is
/// taken.
pub proof fn bodies_step(c: Core, pc: u64, mem: crate::memory::RawMemory<'_>)
    ensures
        ({
            let body = crate::a64::body::body(c, pc, mem);
            match mem.reads64(pc, 4) {
                None => body == Body::Memory(pc),
                Some(bytes) => {
                    let raw = crate::memory::le_num(bytes) as u32;
                    let known = crate::a64::decode::recognized(raw);
                    let top = (raw / 0x200_0000) % 0x40;
                    if top == 0x1a || top == 0x1b {
                        body == (Body::Branch { core: c, pc, raw })
                    } else {
                        match c.step(pc, raw, known) {
                            Effect::Error(e) => body == Body::Decode(e),
                            Effect::Exit { core } => body == (Body::Exit { core }),
                            Effect::Next { core, next } => if (raw / 0x400_0000) % 0x20 == 0x05 {
                                body == (Body::Jump { core, next })
                            } else if pc < 0xffff_ffff_ffff_fffc {
                                body == crate::a64::body::body(core, (pc + 4) as u64, mem)
                            } else {
                                true
                            },
                        }
                    }
                },
            }
        }),
{
    reveal(crate::a64::body::body);
    if let Some(bytes) = mem.reads64(pc, 4) {
        let raw = crate::memory::le_num(bytes) as u32;
        forms(raw);
        fields(raw);
    }
}

} // verus!
