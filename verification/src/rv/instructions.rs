//! What each instruction does, in terms of the bits and the numbers of the
//! registers: the laws of a step, by the instruction that stands at the program
//! counter.
use crate::handler::EcallOutcome;
use crate::rv::body::{BodyEnd, Course};
use crate::rv::control::Answers;
use crate::rv::handler::CallAction;
use crate::rv::inst::{FetchError, RvOp};
use crate::rv::machine::{Frame, Hart, Step};
use vstd::arithmetic::power2::*;
use vstd::prelude::*;

verus! {

/// A register file of thirty-two words of one width.
pub open spec fn shaped(h: Hart, bits: nat) -> bool {
    &&& bits == 32 || bits == 64
    &&& h.regs.len() == 32
    &&& h.known.len() == 32
    &&& h.offs.len() == 32
    &&& forall|r: int| 0 <= r < 32 ==> (#[trigger] h.regs[r]).len() == bits
}

/// Where the instruction of a state starts. A plain program is read four bytes
/// at a time.
pub open spec fn begin(h: Hart, frame: Frame<'_>) -> int {
    if frame.plain {
        4 * (h.pc as int / 4)
    } else {
        h.pc as int
    }
}

/// The bytes at an address are those of an instruction of this length.
pub open spec fn stands(frame: Frame<'_>, pc: int, inst: rv_asm::Inst, len: int) -> bool {
    let rv64 = frame.bits == 64;
    match frame.mem.reads64(pc as u64, 2) {
        None => false,
        Some(first) => {
            let half = crate::memory::le_num(first) as u16;
            if half % 4 != 3 {
                len == 2 && !frame.plain && crate::rv::inst::decoded_half(half, rv64) == Ok::<
                    rv_asm::Inst,
                    &'static str,
                >(inst)
            } else {
                len == 4 && match frame.mem.reads64(pc as u64, 4) {
                    None => false,
                    Some(bytes) => crate::rv::inst::decoded_word(
                        crate::memory::le_num(bytes) as u32,
                        rv64,
                    ) == Ok::<rv_asm::Inst, &'static str>(inst),
                }
            }
        },
    }
}

/// What an instruction reads from a register: zero from the first, and the
/// stack pointer from the third.
pub open spec fn reads(h: Hart, r: u8, bits: nat) -> Seq<bool> {
    if r == 0 {
        crate::bits::bits_of(0, bits)
    } else if r == 2 {
        crate::bits::bits_of(h.sp as nat, bits)
    } else {
        h.regs[r as int]
    }
}

/// Whether the host knows what an instruction reads from a register.
pub open spec fn knows(h: Hart, r: u8) -> bool {
    r == 0 || (r != 2 && h.known[r as int])
}

/// How far from the stack pointer the address in a register is, where it is a
/// stack address.
pub open spec fn distance(h: Hart, r: u8) -> Option<i64> {
    if r == 0 {
        None
    } else if r == 2 {
        Some(0)
    } else {
        h.offs[r as int]
    }
}

/// Nothing but one register and the two fixed ones is changed.
pub open spec fn kept(h: Hart, after: Hart, dest: u8) -> bool {
    &&& after.regs.len() == 32
    &&& after.known.len() == 32
    &&& after.offs.len() == 32
    &&& after.sp == h.sp
    &&& after.rstack == h.rstack
    &&& after.rsp == h.rsp
    &&& forall|r: int|
        0 <= r < 32 && r != 0 && r != 2 && r != dest ==> (#[trigger] after.regs[r]) == h.regs[r]
            && after.known[r] == h.known[r] && after.offs[r] == h.offs[r]
}

/// A step goes on behind its instruction, changes no cell of the stack and no
/// register but one, and leaves this state.
pub open spec fn wrote(
    h: Hart,
    cells: Seq<bool>,
    frame: Frame<'_>,
    len: int,
    step: Step,
    dest: u8,
    after: Hart,
) -> bool {
    match step {
        Step::Next { hart, cells: c, pc } => {
            &&& hart == after
            &&& c == cells
            &&& after.pc == pc
            &&& pc == (begin(h, frame) + len) % (pow2(frame.bits) as int)
            &&& kept(h, after, dest)
        },
        _ => false,
    }
}

/// The state that a step leaves.
pub open spec fn left(step: Step) -> Hart {
    match step {
        Step::Next { hart, cells: _, pc: _ } => hart,
        Step::Exit { hart, cells: _ } => hart,
        _ => arbitrary(),
    }
}

/// The instruction that stands at the program counter is fetched.
proof fn fetches(h: Hart, frame: Frame<'_>, inst: rv_asm::Inst, len: int)
    requires
        stands(frame, begin(h, frame), inst, len),
    ensures
        len == 2 || len == 4,
        h.at_start(frame).pc == begin(h, frame),
        h.at_start(frame).fetched(frame) == Ok::<(RvOp, u64), FetchError>(
            (
                if frame.plain {
                    crate::rv::inst::plain_op(crate::rv::inst::lowered(inst), len as u64)
                } else {
                    crate::rv::inst::lowered(inst)
                },
                len as u64,
            ),
        ),
{
}

/// Where the next instruction is.
proof fn behind(pc: u64, len: u64, bits: nat)
    requires
        bits == 32 || bits == 64,
        len <= 4,
    ensures
        crate::wide::low(pc.wrapping_add(len), bits) == (pc + len) % (pow2(bits) as int),
{
    moved(pc, len as i64, bits);
}

/// An address at a distance, in an address space of some bits.
pub proof fn moved(base: u64, offset: i64, bits: nat)
    requires
        bits == 32 || bits == 64,
    ensures
        crate::wide::low(crate::rv::machine::at(base, offset), bits) == (base + offset) % (pow2(
            bits,
        ) as int),
        pow2(bits) == if bits == 32 {
            0x1_0000_0000nat
        } else {
            0x1_0000_0000_0000_0000nat
        },
{
    lemma2_to64();
    let a = crate::rv::machine::at(base, offset);
    assert(a == (base + offset) % 0x1_0000_0000_0000_0000);
    if bits == 32 {
        vstd::arithmetic::div_mod::lemma_mod_mod(base + offset, 0x1_0000_0000, 0x1_0000_0000);
    }
}

/// The bits of a signed number.
proof fn pattern_bits(v: i64, bits: nat)
    requires
        bits == 32 || bits == 64,
    ensures
        crate::rv::machine::spelled(crate::wide::pattern(v), bits) == crate::bits::bits_of(
            (v as int % pow2(bits) as int) as nat,
            bits,
        ),
        crate::bits::num(crate::rv::machine::spelled(crate::wide::pattern(v), bits)) == v as int
            % pow2(bits) as int,
{
    moved(0, v, bits);
    crate::wide::low_spells(crate::wide::pattern(v), bits);
}

/// `ADD`, `SUB` and `ADDI` compute modulo the width of a register. The host
/// knows the result where it knows the operands, or where it is the distance of
/// two stack addresses.
pub proof fn sums(
    h: Hart,
    cells: Seq<bool>,
    frame: Frame<'_>,
    answers: Answers,
    inst: rv_asm::Inst,
    len: int,
)
    requires
        shaped(h, frame.bits),
        stands(frame, begin(h, frame), inst, len),
    ensures
        ({
            let step = h.step(cells, frame, answers);
            let after = left(step);
            let p = pow2(frame.bits) as int;
            match inst {
                rv_asm::Inst::Add { dest, src1, src2 } => dest.0 < 32 && src1.0 < 32 && src2.0 < 32
                    ==> {
                    let a = reads(h, src1.0, frame.bits);
                    let b = reads(h, src2.0, frame.bits);
                    &&& wrote(h, cells, frame, len, step, dest.0, after)
                    &&& crate::bits::num(after.regs[dest.0 as int]) == (crate::bits::num(a)
                        + crate::bits::num(b)) as int % p
                    &&& after.regs[dest.0 as int].len() == frame.bits
                    &&& after.known[dest.0 as int] == (knows(h, src1.0) && knows(h, src2.0))
                },
                rv_asm::Inst::Sub { dest, src1, src2 } => dest.0 < 32 && src1.0 < 32 && src2.0 < 32
                    ==> {
                    let a = reads(h, src1.0, frame.bits);
                    let b = reads(h, src2.0, frame.bits);
                    &&& wrote(h, cells, frame, len, step, dest.0, after)
                    &&& crate::bits::num(after.regs[dest.0 as int]) == (crate::bits::num(a)
                        - crate::bits::num(b)) % p
                    &&& after.regs[dest.0 as int].len() == frame.bits
                    &&& after.known[dest.0 as int] == ((knows(h, src1.0) && knows(h, src2.0)) || (
                    distance(h, src1.0) is Some && distance(h, src2.0) is Some))
                },
                rv_asm::Inst::Addi { imm, dest, src1 } => dest.0 < 32 && src1.0 < 32 && dest.0 != 2
                    ==> {
                    let a = reads(h, src1.0, frame.bits);
                    &&& wrote(h, cells, frame, len, step, dest.0, after)
                    &&& crate::bits::num(after.regs[dest.0 as int]) == (crate::bits::num(a)
                        + crate::rv::inst::immediate_value(imm)) % p
                    &&& after.regs[dest.0 as int].len() == frame.bits
                    &&& after.known[dest.0 as int] == knows(h, src1.0)
                    &&& (after.offs[dest.0 as int] is Some) == (distance(h, src1.0) is Some)
                },
                _ => true,
            }
        }),
{
    fetches(h, frame, inst, len);
    let here = h.at_start(frame);
    behind(here.pc, len as u64, frame.bits);
    let set = here.reset(frame.bits);
    let bits = frame.bits;
    crate::bits::num_bits_of(0, bits);
    match inst {
        rv_asm::Inst::Add { dest, src1, src2 } => {
            if dest.0 < 32 && src1.0 < 32 && src2.0 < 32 {
                crate::number::sum(set.regs[src1.0 as int], set.regs[src2.0 as int], false);
            }
        },
        rv_asm::Inst::Sub { dest, src1, src2 } => {
            if dest.0 < 32 && src1.0 < 32 && src2.0 < 32 {
                crate::bits::sub_is_difference(set.regs[src1.0 as int], set.regs[src2.0 as int]);
            }
        },
        rv_asm::Inst::Addi { imm, dest, src1 } => {
            if dest.0 < 32 && src1.0 < 32 && dest.0 != 2 {
                let v = crate::rv::inst::immediate(imm);
                pattern_bits(v, bits);
                let a = set.regs[src1.0 as int];
                crate::number::sum(
                    a,
                    crate::rv::machine::spelled(crate::wide::pattern(v), bits),
                    false,
                );
                lemma_pow2_pos(bits);
                vstd::arithmetic::div_mod::lemma_add_mod_noop_right(
                    crate::bits::num(a) as int,
                    v as int,
                    pow2(bits) as int,
                );
            }
        },
        _ => {},
    }
}

/// `ADDI` to the stack pointer's register moves the stack pointer by the
/// immediate and changes nothing else that an instruction reads.
pub proof fn stack_moves(
    h: Hart,
    cells: Seq<bool>,
    frame: Frame<'_>,
    answers: Answers,
    imm: rv_asm::Imm,
    src1: rv_asm::Reg,
    dest: rv_asm::Reg,
    len: int,
)
    requires
        shaped(h, frame.bits),
        dest.0 == 2,
        src1.0 < 32,
        stands(frame, begin(h, frame), (rv_asm::Inst::Addi { imm, dest, src1 }), len),
    ensures
        match h.step(cells, frame, answers) {
            Step::Next { hart, cells: c, pc } => {
                &&& c == cells
                &&& hart.pc == pc
                &&& pc == (begin(h, frame) + len) % (pow2(frame.bits) as int)
                &&& hart.sp == (h.sp + crate::rv::inst::immediate_value(imm)) % (pow2(
                    frame.bits,
                ) as int)
                &&& hart.rstack == h.rstack
                &&& hart.rsp == h.rsp
                &&& forall|r: int|
                    0 < r < 32 && r != 2 ==> (#[trigger] hart.regs[r]) == h.regs[r]
                        && hart.known[r] == h.known[r] && (hart.offs[r] is Some) == (
                    h.offs[r] is Some)
            },
            _ => false,
        },
{
    fetches(h, frame, rv_asm::Inst::Addi { imm, dest, src1 }, len);
    let here = h.at_start(frame);
    behind(here.pc, len as u64, frame.bits);
    moved(h.sp, crate::rv::inst::immediate(imm), frame.bits);
}

/// The bitwise operations work bit by bit: on two registers, or on a register
/// and an immediate in two's complement.
pub proof fn bitwise_operations(
    h: Hart,
    cells: Seq<bool>,
    frame: Frame<'_>,
    answers: Answers,
    inst: rv_asm::Inst,
    len: int,
    i: int,
)
    requires
        shaped(h, frame.bits),
        stands(frame, begin(h, frame), inst, len),
        0 <= i < frame.bits,
    ensures
        ({
            let step = h.step(cells, frame, answers);
            let after = left(step);
            let imm_bit = |imm: rv_asm::Imm|
                (crate::rv::inst::immediate_value(imm) as int / pow2(i as nat) as int) % 2 == 1;
            match inst {
                rv_asm::Inst::And { dest, src1, src2 } => dest.0 < 32 && src1.0 < 32 && src2.0 < 32
                    ==> {
                    &&& wrote(h, cells, frame, len, step, dest.0, after)
                    &&& after.regs[dest.0 as int][i] == (reads(h, src1.0, frame.bits)[i] && reads(
                        h,
                        src2.0,
                        frame.bits,
                    )[i])
                    &&& after.known[dest.0 as int] == (knows(h, src1.0) && knows(h, src2.0))
                },
                rv_asm::Inst::Or { dest, src1, src2 } => dest.0 < 32 && src1.0 < 32 && src2.0 < 32
                    ==> {
                    &&& wrote(h, cells, frame, len, step, dest.0, after)
                    &&& after.regs[dest.0 as int][i] == (reads(h, src1.0, frame.bits)[i] || reads(
                        h,
                        src2.0,
                        frame.bits,
                    )[i])
                    &&& after.known[dest.0 as int] == (knows(h, src1.0) && knows(h, src2.0))
                },
                rv_asm::Inst::Xor { dest, src1, src2 } => dest.0 < 32 && src1.0 < 32 && src2.0 < 32
                    ==> {
                    &&& wrote(h, cells, frame, len, step, dest.0, after)
                    &&& after.regs[dest.0 as int][i] == (reads(h, src1.0, frame.bits)[i] != reads(
                        h,
                        src2.0,
                        frame.bits,
                    )[i])
                    &&& after.known[dest.0 as int] == (knows(h, src1.0) && knows(h, src2.0))
                },
                rv_asm::Inst::Andi { imm, dest, src1 } => dest.0 < 32 && src1.0 < 32 ==> {
                    &&& wrote(h, cells, frame, len, step, dest.0, after)
                    &&& after.regs[dest.0 as int][i] == (reads(h, src1.0, frame.bits)[i] && imm_bit(
                        imm,
                    ))
                    &&& after.known[dest.0 as int] == knows(h, src1.0)
                },
                rv_asm::Inst::Ori { imm, dest, src1 } => dest.0 < 32 && src1.0 < 32 ==> {
                    &&& wrote(h, cells, frame, len, step, dest.0, after)
                    &&& after.regs[dest.0 as int][i] == (reads(h, src1.0, frame.bits)[i] || imm_bit(
                        imm,
                    ))
                    &&& after.known[dest.0 as int] == knows(h, src1.0)
                },
                rv_asm::Inst::Xori { imm, dest, src1 } => dest.0 < 32 && src1.0 < 32 ==> {
                    &&& wrote(h, cells, frame, len, step, dest.0, after)
                    &&& after.regs[dest.0 as int][i] == (reads(h, src1.0, frame.bits)[i] != imm_bit(
                        imm,
                    ))
                    &&& after.known[dest.0 as int] == knows(h, src1.0)
                },
                _ => true,
            }
        }),
{
    fetches(h, frame, inst, len);
    let here = h.at_start(frame);
    behind(here.pc, len as u64, frame.bits);
    match inst {
        rv_asm::Inst::Andi { imm, .. } | rv_asm::Inst::Ori { imm, .. } | rv_asm::Inst::Xori {
            imm,
            ..
        } => {
            let v = crate::rv::inst::immediate(imm);
            pattern_bits(v, frame.bits);
            signed_bit(v as int, i as nat, frame.bits);
        },
        _ => {},
    }
}

/// A bit of a signed number within a width is that of the number.
proof fn signed_bit(v: int, i: nat, bits: nat)
    requires
        i < bits,
    ensures
        ((v % pow2(bits) as int) / pow2(i) as int) % 2 == (v / pow2(i) as int) % 2,
{
    lemma_pow2_pos(i);
    lemma_pow2_pos((bits - i) as nat);
    lemma_pow2_pos((bits - i - 1) as nat);
    lemma_pow2_adds(i, (bits - i) as nat);
    lemma_pow2_pos(bits);
    lemma_pow2_unfold((bits - i) as nat);
    let p = pow2(i) as int;
    let q = pow2((bits - i) as nat) as int;
    let w = pow2((bits - i - 1) as nat) as int;
    // (v % (p * q)) / p == (v / p) % q
    vstd::arithmetic::div_mod::lemma_fundamental_div_mod(v, p * q);
    let k = v / (p * q);
    let m = v % (p * q);
    assert(v == m + (q * k) * p) by (nonlinear_arith)
        requires
            v == p * q * k + m,
    ;
    vstd::arithmetic::div_mod::lemma_hoist_over_denominator(m, q * k, p as nat);
    // v / p == m / p + q * k
    assert(q * k == 2 * (w * k)) by (nonlinear_arith)
        requires
            q == 2 * w,
    ;
    vstd::arithmetic::div_mod::lemma_mod_multiples_vanish(w * k, m / p, 2);
}

/// The shifts by an immediate multiply and divide: by a power of two, modulo
/// the width to the left, and rounding down to the right.
pub proof fn shifts(
    h: Hart,
    cells: Seq<bool>,
    frame: Frame<'_>,
    answers: Answers,
    inst: rv_asm::Inst,
    len: int,
)
    requires
        shaped(h, frame.bits),
        stands(frame, begin(h, frame), inst, len),
    ensures
        ({
            let step = h.step(cells, frame, answers);
            let after = left(step);
            let power = |imm: rv_asm::Imm|
                pow2((crate::rv::inst::immediate_value(imm) as int % frame.bits as int) as nat);
            match inst {
                rv_asm::Inst::Slli { imm, dest, src1 } => dest.0 < 32 && src1.0 < 32 ==> {
                    &&& wrote(h, cells, frame, len, step, dest.0, after)
                    &&& crate::bits::num(after.regs[dest.0 as int]) == (crate::bits::num(
                        reads(h, src1.0, frame.bits),
                    ) * power(imm)) % pow2(frame.bits)
                    &&& after.regs[dest.0 as int].len() == frame.bits
                    &&& after.known[dest.0 as int] == knows(h, src1.0)
                },
                rv_asm::Inst::Srli { imm, dest, src1 } => dest.0 < 32 && src1.0 < 32 ==> {
                    &&& wrote(h, cells, frame, len, step, dest.0, after)
                    &&& crate::bits::num(after.regs[dest.0 as int]) == crate::bits::num(
                        reads(h, src1.0, frame.bits),
                    ) / power(imm)
                    &&& after.regs[dest.0 as int].len() == frame.bits
                    &&& after.known[dest.0 as int] == knows(h, src1.0)
                },
                rv_asm::Inst::Srai { imm, dest, src1 } => dest.0 < 32 && src1.0 < 32 ==> {
                    &&& wrote(h, cells, frame, len, step, dest.0, after)
                    &&& crate::bits::signed(after.regs[dest.0 as int]) == crate::bits::signed(
                        reads(h, src1.0, frame.bits),
                    ) / (power(imm) as int)
                    &&& after.regs[dest.0 as int].len() == frame.bits
                    &&& after.known[dest.0 as int] == knows(h, src1.0)
                },
                _ => true,
            }
        }),
{
    fetches(h, frame, inst, len);
    let here = h.at_start(frame);
    behind(here.pc, len as u64, frame.bits);
    let set = here.reset(frame.bits);
    match inst {
        rv_asm::Inst::Slli { imm, dest, src1 } => {
            if dest.0 < 32 && src1.0 < 32 {
                let k = (crate::rv::inst::immediate_value(imm) as int % frame.bits as int) as nat;
                crate::number::shifted_left(set.regs[src1.0 as int], k);
            }
        },
        rv_asm::Inst::Srli { imm, dest, src1 } => {
            if dest.0 < 32 && src1.0 < 32 {
                let k = (crate::rv::inst::immediate_value(imm) as int % frame.bits as int) as nat;
                crate::number::shifted_right(set.regs[src1.0 as int], k);
            }
        },
        rv_asm::Inst::Srai { imm, dest, src1 } => {
            if dest.0 < 32 && src1.0 < 32 {
                let k = (crate::rv::inst::immediate_value(imm) as int % frame.bits as int) as nat;
                crate::number::shifted_signed(set.regs[src1.0 as int], k);
            }
        },
        _ => {},
    }
}

/// `LUI` loads its immediate, and `AUIPC` adds it to the program counter. The
/// host knows both.
pub proof fn upper_immediates(
    h: Hart,
    cells: Seq<bool>,
    frame: Frame<'_>,
    answers: Answers,
    inst: rv_asm::Inst,
    len: int,
)
    requires
        shaped(h, frame.bits),
        stands(frame, begin(h, frame), inst, len),
    ensures
        ({
            let step = h.step(cells, frame, answers);
            let after = left(step);
            let p = pow2(frame.bits) as int;
            match inst {
                rv_asm::Inst::Lui { uimm, dest } => dest.0 < 32 ==> {
                    &&& wrote(h, cells, frame, len, step, dest.0, after)
                    &&& crate::bits::num(after.regs[dest.0 as int])
                        == crate::rv::inst::immediate_value(uimm) as int % p
                    &&& after.regs[dest.0 as int].len() == frame.bits
                    &&& after.known[dest.0 as int]
                },
                rv_asm::Inst::Auipc { uimm, dest } => dest.0 < 32 ==> {
                    &&& wrote(h, cells, frame, len, step, dest.0, after)
                    &&& crate::bits::num(after.regs[dest.0 as int]) == (begin(h, frame)
                        + crate::rv::inst::immediate_value(uimm)) % p
                    &&& after.regs[dest.0 as int].len() == frame.bits
                    &&& after.known[dest.0 as int]
                },
                _ => true,
            }
        }),
{
    fetches(h, frame, inst, len);
    let here = h.at_start(frame);
    behind(here.pc, len as u64, frame.bits);
    match inst {
        rv_asm::Inst::Lui { uimm, dest } => {
            pattern_bits(crate::rv::inst::immediate(uimm), frame.bits);
        },
        rv_asm::Inst::Auipc { uimm, dest } => {
            let v = crate::rv::inst::immediate(uimm);
            moved(here.pc, v, frame.bits);
            crate::wide::low_spells(crate::rv::machine::at(here.pc, v), frame.bits);
        },
        _ => {},
    }
}

/// Every register at a distance from the stack pointer holds the address at
/// that distance.
pub open spec fn placed(h: Hart, bits: nat) -> bool {
    forall|r: int|
        0 <= r < 32 ==> ((#[trigger] h.offs[r]) matches Some(o) ==> crate::bits::num(h.regs[r]) == (
        h.sp + o) % (pow2(bits) as int))
}

/// The address that a register and an offset make.
pub open spec fn address(h: Hart, base: u8, offset: rv_asm::Imm, bits: nat) -> nat {
    ((crate::bits::num(reads(h, base, bits)) + crate::rv::inst::immediate_value(offset)) % (pow2(
        bits,
    ) as int)) as nat
}

/// What a load of `width` bits does: from the stack it reads cells, which the
/// host does not know, and from the image it reads bytes, which the host knows.
/// What is loaded is extended, with its sign or with zeros.
pub open spec fn loads(
    h: Hart,
    cells: Seq<bool>,
    frame: Frame<'_>,
    len: int,
    step: Step,
    dest: u8,
    base: u8,
    offset: rv_asm::Imm,
    width: nat,
    signed: bool,
) -> bool {
    let from = address(h, base, offset, frame.bits);
    let after = left(step);
    let word = after.regs[dest as int];
    if width > frame.bits {
        step is Unexpected
    } else if distance(h, base) is Some {
        if 8 * from + width > frame.storage_bits {
            step is Unexpected
        } else {
            let stored = cells.subrange(8 * from as int, (8 * from + width) as int);
            &&& wrote(h, cells, frame, len, step, dest, after)
            &&& word.len() == frame.bits
            &&& !signed ==> crate::bits::num(word) == crate::bits::num(stored)
            &&& signed ==> crate::bits::signed(word) == crate::bits::signed(stored)
            &&& !after.known[dest as int]
        }
    } else if knows(h, base) {
        match frame.mem.reads64(from as u64, width / 8) {
            None => step is Unexpected,
            Some(bytes) => {
                let v = crate::memory::le_num(bytes) as int;
                &&& wrote(h, cells, frame, len, step, dest, after)
                &&& word.len() == frame.bits
                &&& !signed ==> crate::bits::num(word) == v
                &&& signed ==> crate::bits::signed(word) == if v < pow2((width - 1) as nat) {
                    v
                } else {
                    v - pow2(width)
                }
                &&& after.known[dest as int]
            },
        }
    } else {
        step is Unexpected
    }
}

/// What a store of `width` bits does: the low bits of the register go to the
/// cells at the address, and no other cell changes.
pub open spec fn stores(
    h: Hart,
    cells: Seq<bool>,
    frame: Frame<'_>,
    len: int,
    step: Step,
    src: u8,
    base: u8,
    offset: rv_asm::Imm,
    width: nat,
) -> bool {
    let to = address(h, base, offset, frame.bits);
    if width > frame.bits || distance(h, base) is None || 8 * to + width > frame.storage_bits {
        step is Unexpected
    } else {
        match step {
            Step::Next { hart, cells: c, pc } => {
                &&& hart.pc == pc
                &&& pc == (begin(h, frame) + len) % (pow2(frame.bits) as int)
                &&& kept(h, hart, 0)
                &&& c.len() == cells.len()
                &&& forall|i: int|
                    0 <= i < cells.len() ==> (#[trigger] c[i]) == if frame.active && 8 * to <= i < 8
                        * to + width {
                        reads(h, src, frame.bits)[i - 8 * to]
                    } else {
                        cells[i]
                    }
            },
            _ => false,
        }
    }
}

/// The place of an access is the address that its register and offset make.
proof fn reaches(h: Hart, base: u8, offset: rv_asm::Imm, bits: nat)
    requires
        shaped(h, bits),
        placed(h, bits),
        base < 32,
        crate::wide::fits(h.sp, bits),
    ensures
        ({
            let v = crate::rv::inst::immediate(offset);
            let place = h.reset(bits).place(base as int, v, bits);
            let to = address(h, base, offset, bits);
            if distance(h, base) is Some {
                place == crate::rv::exec::Place::Stack(to as u64) && to <= u64::MAX
            } else if knows(h, base) {
                place == crate::rv::exec::Place::Image(to as u64) && to <= u64::MAX
            } else {
                place is Unknown
            }
        }),
{
    let set = h.reset(bits);
    let v = crate::rv::inst::immediate(offset);
    let word = reads(h, base, bits);
    assert(word == set.regs[base as int]);
    crate::bits::num_bound(word);
    moved(0, 0, bits);
    if set.offs[base as int] is Some {
        let o = set.offs[base as int]->0;
        let there = crate::rv::machine::at(h.sp, o);
        moved(h.sp, o, bits);
        crate::wide::low_spells(there, bits);
        if base == 2 {
            crate::wide::low_spells(h.sp, bits);
            assert(there == h.sp);
        } else {
            crate::bits::num_injective(word, crate::rv::machine::spelled(there, bits));
        }
        crate::rv::exec::stack_place_is_effective(set, base as int, v, bits);
    } else if knows(h, base) {
        moved(crate::bits::num(word) as u64, v, bits);
    }
}

/// The loads, by their widths and extensions.
pub proof fn load_instructions(
    h: Hart,
    cells: Seq<bool>,
    frame: Frame<'_>,
    answers: Answers,
    inst: rv_asm::Inst,
    len: int,
)
    requires
        shaped(h, frame.bits),
        placed(h, frame.bits),
        crate::wide::fits(h.sp, frame.bits),
        frame.storage_bits <= cells.len(),
        stands(frame, begin(h, frame), inst, len),
    ensures
        ({
            let step = h.step(cells, frame, answers);
            match inst {
                rv_asm::Inst::Lb { offset, dest, base } => dest.0 < 32 && base.0 < 32 ==> loads(
                    h, cells, frame, len, step, dest.0, base.0, offset, 8, true),
                rv_asm::Inst::Lbu { offset, dest, base } => dest.0 < 32 && base.0 < 32 ==> loads(
                    h, cells, frame, len, step, dest.0, base.0, offset, 8, false),
                rv_asm::Inst::Lh { offset, dest, base } => dest.0 < 32 && base.0 < 32 ==> loads(
                    h, cells, frame, len, step, dest.0, base.0, offset, 16, true),
                rv_asm::Inst::Lhu { offset, dest, base } => dest.0 < 32 && base.0 < 32 ==> loads(
                    h, cells, frame, len, step, dest.0, base.0, offset, 16, false),
                rv_asm::Inst::Lw { offset, dest, base } => dest.0 < 32 && base.0 < 32 ==> loads(
                    h, cells, frame, len, step, dest.0, base.0, offset, 32, true),
                rv_asm::Inst::Lwu { offset, dest, base } => dest.0 < 32 && base.0 < 32 ==> loads(
                    h, cells, frame, len, step, dest.0, base.0, offset, 32, false),
                rv_asm::Inst::Ld { offset, dest, base } => dest.0 < 32 && base.0 < 32 ==> loads(
                    h, cells, frame, len, step, dest.0, base.0, offset, 64, true),
                _ => true,
            }
        }),
{
    fetches(h, frame, inst, len);
    let here = h.at_start(frame);
    behind(here.pc, len as u64, frame.bits);
    match inst {
        rv_asm::Inst::Lb { offset, dest, base } => {
            if dest.0 < 32 && base.0 < 32 {
                loaded(h, cells, frame, len, answers, dest.0, base.0, offset, 8, true);
            }
        },
        rv_asm::Inst::Lbu { offset, dest, base } => {
            if dest.0 < 32 && base.0 < 32 {
                loaded(h, cells, frame, len, answers, dest.0, base.0, offset, 8, false);
            }
        },
        rv_asm::Inst::Lh { offset, dest, base } => {
            if dest.0 < 32 && base.0 < 32 {
                loaded(h, cells, frame, len, answers, dest.0, base.0, offset, 16, true);
            }
        },
        rv_asm::Inst::Lhu { offset, dest, base } => {
            if dest.0 < 32 && base.0 < 32 {
                loaded(h, cells, frame, len, answers, dest.0, base.0, offset, 16, false);
            }
        },
        rv_asm::Inst::Lw { offset, dest, base } => {
            if dest.0 < 32 && base.0 < 32 {
                loaded(h, cells, frame, len, answers, dest.0, base.0, offset, 32, true);
            }
        },
        rv_asm::Inst::Lwu { offset, dest, base } => {
            if dest.0 < 32 && base.0 < 32 {
                loaded(h, cells, frame, len, answers, dest.0, base.0, offset, 32, false);
            }
        },
        rv_asm::Inst::Ld { offset, dest, base } => {
            if dest.0 < 32 && base.0 < 32 {
                loaded(h, cells, frame, len, answers, dest.0, base.0, offset, 64, true);
            }
        },
        _ => {},
    }
}

/// What the step of a load does.
proof fn loaded(
    h: Hart,
    cells: Seq<bool>,
    frame: Frame<'_>,
    len: int,
    answers: Answers,
    dest: u8,
    base: u8,
    offset: rv_asm::Imm,
    width: usize,
    signed: bool,
)
    requires
        shaped(h, frame.bits),
        placed(h, frame.bits),
        crate::wide::fits(h.sp, frame.bits),
        frame.storage_bits <= cells.len(),
        dest < 32,
        base < 32,
        len == 2 || len == 4,
        width == 8 || width == 16 || width == 32 || width == 64,
        h.at_start(frame).pc == begin(h, frame),
        h.at_start(frame).fetched(frame) == Ok::<(RvOp, u64), FetchError>(
            (
                (RvOp::Load {
                    dest,
                    base,
                    offset: crate::rv::inst::immediate(offset),
                    width,
                    signed,
                }),
                len as u64,
            ),
        ),
    ensures
        loads(
            h,
            cells,
            frame,
            len,
            h.step(cells, frame, answers),
            dest,
            base,
            offset,
            width as nat,
            signed,
        ),
{
    let here = h.at_start(frame);
    let bits = frame.bits;
    let n = width as nat;
    behind(here.pc, len as u64, bits);
    reaches(here, base, offset, bits);
    let from = address(h, base, offset, bits);
    assert(from == address(here, base, offset, bits));
    if width <= bits {
        if distance(h, base) is Some {
            if 8 * from + width <= frame.storage_bits {
                let stored = cells.subrange(8 * from as int, (8 * from + width) as int);
                if signed {
                    crate::number::extended_signed(stored, bits);
                } else {
                    crate::number::extended_plain(stored, bits);
                }
            }
        } else if knows(h, base) {
            if let Some(bytes) = frame.mem.reads64(from as u64, n / 8) {
                let v = crate::memory::le_num(bytes);
                bytes_bound(bytes);
                lemma2_to64();
                lemma2_to64_rest();
                crate::wide::spelled(v, n);
                let word = crate::bits::bits_of(v, n);
                crate::number::split(word, (n - 1) as nat);
                crate::number::top_bit(word);
                if signed {
                    crate::number::extended_signed(word, bits);
                } else {
                    crate::number::extended_plain(word, bits);
                }
            }
        }
    }
}

/// A few bytes spell a number of eight times as many bits.
proof fn bytes_bound(bytes: Seq<u8>)
    ensures
        crate::memory::le_num(bytes) < pow2(8 * bytes.len()),
    decreases bytes.len(),
{
    lemma2_to64();
    if bytes.len() > 0 {
        let rest = bytes.subrange(1, bytes.len() as int);
        bytes_bound(rest);
        lemma_pow2_adds(8, 8 * rest.len());
        assert(8 + 8 * rest.len() == 8 * bytes.len());
    }
}

/// The stores, by their widths.
pub proof fn store_instructions(
    h: Hart,
    cells: Seq<bool>,
    frame: Frame<'_>,
    answers: Answers,
    inst: rv_asm::Inst,
    len: int,
)
    requires
        shaped(h, frame.bits),
        placed(h, frame.bits),
        crate::wide::fits(h.sp, frame.bits),
        frame.storage_bits <= cells.len(),
        stands(frame, begin(h, frame), inst, len),
    ensures
        ({
            let step = h.step(cells, frame, answers);
            match inst {
                rv_asm::Inst::Sb { offset, src, base } => src.0 < 32 && base.0 < 32 ==> stores(
                    h, cells, frame, len, step, src.0, base.0, offset, 8),
                rv_asm::Inst::Sh { offset, src, base } => src.0 < 32 && base.0 < 32 ==> stores(
                    h, cells, frame, len, step, src.0, base.0, offset, 16),
                rv_asm::Inst::Sw { offset, src, base } => src.0 < 32 && base.0 < 32 ==> stores(
                    h, cells, frame, len, step, src.0, base.0, offset, 32),
                rv_asm::Inst::Sd { offset, src, base } => src.0 < 32 && base.0 < 32 ==> stores(
                    h, cells, frame, len, step, src.0, base.0, offset, 64),
                _ => true,
            }
        }),
{
    fetches(h, frame, inst, len);
    let here = h.at_start(frame);
    behind(here.pc, len as u64, frame.bits);
    match inst {
        rv_asm::Inst::Sb { offset, src, base } | rv_asm::Inst::Sh { offset, src, base }
        | rv_asm::Inst::Sw { offset, src, base } | rv_asm::Inst::Sd { offset, src, base } => {
            if src.0 < 32 && base.0 < 32 {
                reaches(here, base.0, offset, frame.bits);
                assert(address(h, base.0, offset, frame.bits) == address(
                    here,
                    base.0,
                    offset,
                    frame.bits,
                ));
            }
        },
        _ => {},
    }
}

/// A call that goes to a target: the return address is pushed, and where the
/// register that links is not one of the two fixed ones it holds it too.
pub open spec fn enters(h: Hart, step: Step, cells: Seq<bool>, dest: u8, to: int, back: int, bits: nat) -> bool {
    if dest == 0 {
        match step {
            Step::Next { hart, cells: c, pc } => c == cells && pc == to && hart.pc == pc && kept(
                h,
                hart,
                0,
            ),
            _ => false,
        }
    } else if h.rsp >= h.rstack.len() {
        step is Unexpected
    } else {
        match step {
            Step::Next { hart, cells: c, pc } => {
                &&& c == cells
                &&& pc == to
                &&& hart.pc == pc
                &&& hart.sp == h.sp
                &&& hart.rsp == h.rsp + 1
                &&& hart.rstack == h.rstack.update(h.rsp, back as u64)
                &&& crate::bits::num(hart.regs[dest as int]) == back
                &&& hart.regs[dest as int].len() == bits
                &&& hart.known[dest as int]
                &&& forall|r: int|
                    0 < r < 32 && r != 2 && r != dest ==> (#[trigger] hart.regs[r]) == h.regs[r]
                        && hart.known[r] == h.known[r]
            },
            _ => false,
        }
    }
}

/// The state as a hook left it.
pub open spec fn hooked(h: Hart, answers: Answers) -> Hart {
    Hart { regs: answers.hook.regs, known: answers.hook.known, offs: answers.hook.offs, ..h }
}

/// `JAL` goes to the program counter plus its offset. One that links pushes the
/// address behind it, unless the hook resumes there at once or sends the call
/// elsewhere.
pub proof fn direct_jumps(
    h: Hart,
    cells: Seq<bool>,
    frame: Frame<'_>,
    answers: Answers,
    offset: rv_asm::Imm,
    dest: rv_asm::Reg,
    len: int,
)
    requires
        shaped(h, frame.bits),
        shaped(hooked(h, answers), frame.bits),
        h.rsp >= 0,
        dest.0 < 32,
        stands(frame, begin(h, frame), (rv_asm::Inst::Jal { offset, dest }), len),
    ensures
        ({
            let step = h.step(cells, frame, answers);
            let p = pow2(frame.bits) as int;
            let to = (begin(h, frame) + crate::rv::inst::immediate_value(offset)) % p;
            let back = (begin(h, frame) + len) % p;
            if dest.0 == 0 {
                enters(h, step, cells, 0, to, back, frame.bits)
            } else {
                match answers.action {
                    CallAction::Continue => enters(
                        hooked(h, answers),
                        step,
                        cells,
                        dest.0,
                        to,
                        back,
                        frame.bits,
                    ),
                    CallAction::ReturnNow => enters(
                        hooked(h, answers),
                        step,
                        cells,
                        0,
                        back,
                        back,
                        frame.bits,
                    ),
                    CallAction::Divert(other) => enters(
                        hooked(h, answers),
                        step,
                        cells,
                        dest.0,
                        other as int,
                        back,
                        frame.bits,
                    ),
                }
            }
        }),
{
    fetches(h, frame, rv_asm::Inst::Jal { offset, dest }, len);
    let here = h.at_start(frame);
    behind(here.pc, len as u64, frame.bits);
    moved(here.pc, crate::rv::inst::immediate(offset), frame.bits);
    links(here.pc, len as u64, frame.bits);
}

/// The return address is what its bits spell.
proof fn links(pc: u64, len: u64, bits: nat)
    requires
        bits == 32 || bits == 64,
        len <= 4,
    ensures
        ({
            let back = crate::wide::low(pc.wrapping_add(len), bits);
            crate::bits::num(crate::rv::machine::spelled(back, bits)) == back
        }),
{
    crate::wide::low_spells(pc.wrapping_add(len), bits);
    crate::wide::low_spells(crate::wide::low(pc.wrapping_add(len), bits), bits);
}

/// `JALR` in its return form goes back to the address pushed last. In any other
/// form it is a call to the even address that the register and the offset make;
/// where the host does not know the register, only the hook can say where it
/// goes. A plain program has the return form alone.
pub proof fn register_jumps(
    h: Hart,
    cells: Seq<bool>,
    frame: Frame<'_>,
    answers: Answers,
    offset: rv_asm::Imm,
    base: rv_asm::Reg,
    dest: rv_asm::Reg,
    len: int,
)
    requires
        shaped(h, frame.bits),
        shaped(hooked(h, answers), frame.bits),
        0 <= h.rsp <= h.rstack.len(),
        dest.0 < 32,
        base.0 < 32,
        stands(frame, begin(h, frame), (rv_asm::Inst::Jalr { offset, base, dest }), len),
    ensures
        ({
            let step = h.step(cells, frame, answers);
            let p = pow2(frame.bits) as int;
            let back = (begin(h, frame) + len) % p;
            let to = address(h, base.0, offset, frame.bits) as int;
            if dest.0 == 0 && base.0 == 1 && crate::rv::inst::immediate_value(offset) == 0 {
                if h.rsp == 0 {
                    step is Unexpected
                } else {
                    match step {
                        Step::Next { hart, cells: c, pc } => {
                            &&& c == cells
                            &&& pc == h.rstack[h.rsp - 1]
                            &&& hart.pc == pc
                            &&& hart.rsp == h.rsp - 1
                            &&& kept(h, (Hart { rsp: h.rsp, ..hart }), 0)
                        },
                        _ => false,
                    }
                }
            } else if frame.plain {
                step is Unexpected
            } else {
                match answers.action {
                    CallAction::Continue => if knows(h, base.0) {
                        enters(
                            hooked(h, answers),
                            step,
                            cells,
                            dest.0,
                            2 * (to / 2),
                            back,
                            frame.bits,
                        )
                    } else {
                        step is Unexpected
                    },
                    CallAction::ReturnNow => enters(
                        hooked(h, answers),
                        step,
                        cells,
                        0,
                        back,
                        back,
                        frame.bits,
                    ),
                    CallAction::Divert(other) => enters(
                        hooked(h, answers),
                        step,
                        cells,
                        dest.0,
                        other as int,
                        back,
                        frame.bits,
                    ),
                }
            }
        }),
{
    fetches(h, frame, rv_asm::Inst::Jalr { offset, base, dest }, len);
    let here = h.at_start(frame);
    behind(here.pc, len as u64, frame.bits);
    links(here.pc, len as u64, frame.bits);
    let word = reads(h, base.0, frame.bits);
    crate::bits::num_bound(word);
    moved(0, 0, frame.bits);
    moved(crate::bits::num(word) as u64, crate::rv::inst::immediate(offset), frame.bits);
    assert(here.reset(frame.bits).regs[base.0 as int] == word);
}

/// What a branch compares.
pub open spec fn condition(inst: rv_asm::Inst, a: Seq<bool>, b: Seq<bool>) -> bool {
    match inst {
        rv_asm::Inst::Beq { .. } => forall|i: int| 0 <= i < a.len() ==> a[i] == b[i],
        rv_asm::Inst::Bne { .. } => exists|i: int| 0 <= i < a.len() && a[i] != b[i],
        rv_asm::Inst::Blt { .. } => crate::bits::signed(a) < crate::bits::signed(b),
        rv_asm::Inst::Bge { .. } => crate::bits::signed(a) >= crate::bits::signed(b),
        rv_asm::Inst::Bltu { .. } => crate::bits::num(a) < crate::bits::num(b),
        rv_asm::Inst::Bgeu { .. } => crate::bits::num(a) >= crate::bits::num(b),
        _ => false,
    }
}

/// The operands of a branch.
pub open spec fn branch_parts(inst: rv_asm::Inst) -> Option<(rv_asm::Imm, u8, u8)> {
    match inst {
        rv_asm::Inst::Beq { offset, src1, src2 } => Some((offset, src1.0, src2.0)),
        rv_asm::Inst::Bne { offset, src1, src2 } => Some((offset, src1.0, src2.0)),
        rv_asm::Inst::Blt { offset, src1, src2 } => Some((offset, src1.0, src2.0)),
        rv_asm::Inst::Bge { offset, src1, src2 } => Some((offset, src1.0, src2.0)),
        rv_asm::Inst::Bltu { offset, src1, src2 } => Some((offset, src1.0, src2.0)),
        rv_asm::Inst::Bgeu { offset, src1, src2 } => Some((offset, src1.0, src2.0)),
        _ => None,
    }
}

/// The branches go to their target where their condition holds and on where it
/// does not. The host must know both operands.
pub proof fn branches(
    h: Hart,
    cells: Seq<bool>,
    frame: Frame<'_>,
    answers: Answers,
    inst: rv_asm::Inst,
    len: int,
)
    requires
        shaped(h, frame.bits),
        stands(frame, begin(h, frame), inst, len),
    ensures
        branch_parts(inst) matches Some((offset, a, b)) ==> a < 32 && b < 32 ==> ({
            let step = h.step(cells, frame, answers);
            let p = pow2(frame.bits) as int;
            if knows(h, a) && knows(h, b) {
                let to = if condition(inst, reads(h, a, frame.bits), reads(h, b, frame.bits)) {
                    (begin(h, frame) + crate::rv::inst::immediate_value(offset)) % p
                } else {
                    (begin(h, frame) + len) % p
                };
                enters(h, step, cells, 0, to, to, frame.bits)
            } else {
                step is Unexpected
            }
        }),
{
    fetches(h, frame, inst, len);
    let here = h.at_start(frame);
    behind(here.pc, len as u64, frame.bits);
    if let Some((offset, a, b)) = branch_parts(inst) {
        moved(here.pc, crate::rv::inst::immediate(offset), frame.bits);
        if a < 32 && b < 32 {
            same_bits(reads(h, a, frame.bits), reads(h, b, frame.bits));
        }
    }
}

/// Words are the same where all their bits are.
proof fn same_bits(a: Seq<bool>, b: Seq<bool>)
    requires
        a.len() == b.len(),
    ensures
        (a == b) == (forall|i: int| 0 <= i < a.len() ==> a[i] == b[i]),
        (a != b) == (exists|i: int| 0 <= i < a.len() && a[i] != b[i]),
{
    if forall|i: int| 0 <= i < a.len() ==> a[i] == b[i] {
        assert(a =~= b);
    }
}

/// `ECALL` goes by the handler's outcome: on behind it, out where the stack
/// pointer is back at the stack's top, or nowhere.
pub proof fn environment_calls(
    h: Hart,
    cells: Seq<bool>,
    frame: Frame<'_>,
    answers: Answers,
    len: int,
)
    requires
        shaped(h, frame.bits),
        stands(frame, begin(h, frame), rv_asm::Inst::Ecall, len),
    ensures
        ({
            let step = h.step(cells, frame, answers);
            let reply = answers.ecall;
            match answers.outcome {
                EcallOutcome::Continue => match step {
                    Step::Next { hart, cells: c, pc } => {
                        &&& c == cells
                        &&& pc == (begin(h, frame) + len) % (pow2(frame.bits) as int)
                        &&& hart == (Hart {
                            pc,
                            regs: reply.regs,
                            known: reply.known,
                            offs: reply.offs,
                            ..h
                        })
                    },
                    _ => false,
                },
                EcallOutcome::Exit => if h.sp == frame.stack_top {
                    match step {
                        Step::Exit { hart, cells: c } => {
                            &&& c == cells
                            &&& hart.regs == reply.regs
                            &&& hart.known == reply.known
                            &&& hart.sp == h.sp
                            &&& hart.rstack == h.rstack
                            &&& hart.rsp == h.rsp
                        },
                        _ => false,
                    }
                } else {
                    step is Unexpected
                },
                EcallOutcome::Unexpected => step is Unexpected,
            }
        }),
{
    fetches(h, frame, rv_asm::Inst::Ecall, len);
    behind(h.at_start(frame).pc, len as u64, frame.bits);
}

/// The instructions that are executed.
pub open spec fn supported(inst: rv_asm::Inst) -> bool {
    ||| inst is Lui || inst is Auipc || inst is Addi || inst is Add || inst is Sub
    ||| inst is And || inst is Or || inst is Xor || inst is Andi || inst is Ori || inst is Xori
    ||| inst is Slli || inst is Srli || inst is Srai
    ||| inst is Lb || inst is Lbu || inst is Lh || inst is Lhu || inst is Lw || inst is Lwu
        || inst is Ld
    ||| inst is Sb || inst is Sh || inst is Sw || inst is Sd
    ||| inst is Jal || inst is Jalr || inst is Ecall
    ||| inst is Beq || inst is Bne || inst is Blt || inst is Bge || inst is Bltu || inst is Bgeu
}

/// The registers that an instruction names.
pub open spec fn registers(inst: rv_asm::Inst) -> Seq<u8> {
    match inst {
        rv_asm::Inst::Lui { dest, .. } => seq![dest.0],
        rv_asm::Inst::Auipc { dest, .. } => seq![dest.0],
        rv_asm::Inst::Jal { dest, .. } => seq![dest.0],
        rv_asm::Inst::Jalr { base, dest, .. } => seq![base.0, dest.0],
        rv_asm::Inst::Addi { dest, src1, .. } => seq![dest.0, src1.0],
        rv_asm::Inst::Andi { dest, src1, .. } => seq![dest.0, src1.0],
        rv_asm::Inst::Ori { dest, src1, .. } => seq![dest.0, src1.0],
        rv_asm::Inst::Xori { dest, src1, .. } => seq![dest.0, src1.0],
        rv_asm::Inst::Slli { dest, src1, .. } => seq![dest.0, src1.0],
        rv_asm::Inst::Srli { dest, src1, .. } => seq![dest.0, src1.0],
        rv_asm::Inst::Srai { dest, src1, .. } => seq![dest.0, src1.0],
        rv_asm::Inst::Add { dest, src1, src2 } => seq![dest.0, src1.0, src2.0],
        rv_asm::Inst::Sub { dest, src1, src2 } => seq![dest.0, src1.0, src2.0],
        rv_asm::Inst::And { dest, src1, src2 } => seq![dest.0, src1.0, src2.0],
        rv_asm::Inst::Or { dest, src1, src2 } => seq![dest.0, src1.0, src2.0],
        rv_asm::Inst::Xor { dest, src1, src2 } => seq![dest.0, src1.0, src2.0],
        rv_asm::Inst::Lb { dest, base, .. } => seq![dest.0, base.0],
        rv_asm::Inst::Lbu { dest, base, .. } => seq![dest.0, base.0],
        rv_asm::Inst::Lh { dest, base, .. } => seq![dest.0, base.0],
        rv_asm::Inst::Lhu { dest, base, .. } => seq![dest.0, base.0],
        rv_asm::Inst::Lw { dest, base, .. } => seq![dest.0, base.0],
        rv_asm::Inst::Lwu { dest, base, .. } => seq![dest.0, base.0],
        rv_asm::Inst::Ld { dest, base, .. } => seq![dest.0, base.0],
        rv_asm::Inst::Sb { src, base, .. } => seq![src.0, base.0],
        rv_asm::Inst::Sh { src, base, .. } => seq![src.0, base.0],
        rv_asm::Inst::Sw { src, base, .. } => seq![src.0, base.0],
        rv_asm::Inst::Sd { src, base, .. } => seq![src.0, base.0],
        rv_asm::Inst::Beq { src1, src2, .. } => seq![src1.0, src2.0],
        rv_asm::Inst::Bne { src1, src2, .. } => seq![src1.0, src2.0],
        rv_asm::Inst::Blt { src1, src2, .. } => seq![src1.0, src2.0],
        rv_asm::Inst::Bge { src1, src2, .. } => seq![src1.0, src2.0],
        rv_asm::Inst::Bltu { src1, src2, .. } => seq![src1.0, src2.0],
        rv_asm::Inst::Bgeu { src1, src2, .. } => seq![src1.0, src2.0],
        _ => Seq::empty(),
    }
}

/// An instruction of the subset whose registers exist.
pub open spec fn executable(inst: rv_asm::Inst) -> bool {
    supported(inst) && forall|i: int|
        0 <= i < registers(inst).len() ==> (#[trigger] registers(inst)[i]) < 32
}

/// An instruction has an operation where it is executable, and only there.
pub proof fn executable_is_lowered(inst: rv_asm::Inst)
    ensures
        executable(inst) == !(crate::rv::inst::lowered(inst) is Unsupported),
{
    let r = registers(inst);
    if executable(inst) {
        if r.len() > 0 {
            assert(r[0] < 32);
        }
        if r.len() > 1 {
            assert(r[1] < 32);
        }
        if r.len() > 2 {
            assert(r[2] < 32);
        }
    }
}

/// Any other instruction, and one of a register that does not exist, is refused.
pub proof fn other_instructions(
    h: Hart,
    cells: Seq<bool>,
    frame: Frame<'_>,
    answers: Answers,
    inst: rv_asm::Inst,
    len: int,
)
    requires
        stands(frame, begin(h, frame), inst, len),
        !executable(inst),
    ensures
        h.step(cells, frame, answers) is Unexpected,
{
    fetches(h, frame, inst, len);
    executable_is_lowered(inst);
}

/// In the looped emulator a branch that the host cannot decide closes its body:
/// the virtual instruction pointer goes to the target where the condition holds
/// and on where it does not, and both are the next candidates.
pub proof fn symbolic_branches(
    h: Hart,
    cells: Seq<bool>,
    frame: Frame<'_>,
    indirect: &[crate::rv::program::IndirectTargets<'_>],
    answers: Answers,
    inst: rv_asm::Inst,
    len: int,
)
    requires
        shaped(h, frame.bits),
        stands(frame, begin(h, frame), inst, len),
    ensures
        branch_parts(inst) matches Some((offset, a, b)) ==> a < 32 && b < 32 && !(knows(h, a)
            && knows(h, b)) ==> ({
            let p = pow2(frame.bits) as int;
            let to = (begin(h, frame) + crate::rv::inst::immediate_value(offset)) % p;
            let on = (begin(h, frame) + len) % p;
            match h.body_step(
                cells,
                frame,
                crate::rv::body::Plan { indirect, program: None },
                answers,
            ) {
                Course::End(BodyEnd::Close { hart, cells: c, next, successors }) => {
                    &&& c == cells
                    &&& kept(h, hart, 0)
                    &&& next == if condition(
                        inst,
                        reads(h, a, frame.bits),
                        reads(h, b, frame.bits),
                    ) {
                        to
                    } else {
                        on
                    }
                    &&& forall|s: u64| #[trigger] successors.contains(s) <==> s == to || s == on
                },
                _ => false,
            }
        }),
{
    fetches(h, frame, inst, len);
    let here = h.at_start(frame);
    behind(here.pc, len as u64, frame.bits);
    if let Some((offset, a, b)) = branch_parts(inst) {
        moved(here.pc, crate::rv::inst::immediate(offset), frame.bits);
        if a < 32 && b < 32 && !(knows(h, a) && knows(h, b)) {
            same_bits(reads(h, a, frame.bits), reads(h, b, frame.bits));
            let to = crate::wide::low(
                crate::rv::machine::at(here.pc, crate::rv::inst::immediate(offset)),
                frame.bits,
            );
            let on = crate::wide::low(here.pc.wrapping_add(len as u64), frame.bits);
            let list = crate::rv::body::branch_successors(to, on);
            assert(list[0] == to);
            if to != on {
                assert(list[1] == on);
            }
        }
    }
}

} // verus!
