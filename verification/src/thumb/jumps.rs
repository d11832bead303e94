//! Branches, calls and conditional blocks: where a step at each sixteen-bit
//! encoding goes, in numbers.
use crate::handler::EcallOutcome;
use crate::thumb::control::Answers;
use crate::thumb::effects::{
    after, calm, flags_stay, free, settled, stands, value,
};
use crate::thumb::exec::Frame;
use crate::thumb::handler::{ArmCallAction, SecurityState};
use crate::thumb::machine::{shaped, Cpu, Step};
use crate::thumb::op::{DecodeError, Decoded, Op};
use vstd::prelude::*;

verus! {

/// The step goes to `to` and changes nothing else.
pub open spec fn jumps(s: Step, c: Cpu, cells: Seq<bool>, to: int) -> bool {
    &&& 0 <= to < 0x1_0000_0000
    &&& s == (Step::Next { cpu: Cpu { pc: to as u32, ..c }, cells, pc: to as u32 })
}

/// What a condition code asks of N, Z, C and V: every odd code is the contrary
/// of the even one below it.
pub open spec fn asks(c: Cpu, code: int) -> bool {
    let even = if code / 2 == 0 {
        c.flags[1]
    } else if code / 2 == 1 {
        c.flags[2]
    } else if code / 2 == 2 {
        c.flags[0]
    } else if code / 2 == 3 {
        c.flags[3]
    } else if code / 2 == 4 {
        c.flags[2] && !c.flags[1]
    } else if code / 2 == 5 {
        c.flags[0] == c.flags[3]
    } else {
        !c.flags[1] && c.flags[0] == c.flags[3]
    };
    even == (code % 2 == 0)
}

/// The host knows every flag that a condition code asks about.
pub open spec fn answerable(c: Cpu, code: int) -> bool {
    &&& code / 2 == 2 || code / 2 == 5 || code / 2 == 6 ==> c.flags_known[0]
    &&& code / 2 == 0 || code / 2 == 4 || code / 2 == 6 ==> c.flags_known[1]
    &&& code / 2 == 1 || code / 2 == 4 ==> c.flags_known[2]
    &&& code / 2 == 3 || code / 2 == 5 || code / 2 == 6 ==> c.flags_known[3]
}

/// A condition is known exactly where the flags it asks about are, and then is
/// what they say.
pub proof fn conditions_ask_the_flags(c: Cpu, code: u8)
    requires
        code < 14,
    ensures
        crate::thumb::flags::condition_known(c, code) == Some(
            if answerable(c, code as int) {
                Some(asks(c, code as int))
            } else {
                None
            },
        ),
        crate::thumb::flags::condition_holds(c, code) == asks(c, code as int),
{
    assert(code == 0 || code == 1 || code == 2 || code == 3 || code == 4 || code == 5 || code == 6
        || code == 7 || code == 8 || code == 9 || code == 10 || code == 11 || code == 12 || code == 13);
}

/// The signed distances of the two direct branches.
proof fn distances(x: u16)
    ensures
        x & 255 < 256,
        x & 0x7ff < 2048,
        crate::thumb::decode::extend_sign(((x & 255) as u32) << 1, 9) == (if x & 255 < 128 {
            2 * (x & 255)
        } else {
            2 * (x & 255) + 0xffff_fe00
        }),
        crate::thumb::decode::extend_sign(((x & 0x7ff) as u32) << 1, 12) == (if x & 0x7ff < 1024 {
            2 * (x & 0x7ff)
        } else {
            2 * (x & 0x7ff) + 0xffff_f000
        }),
{
    let a = (x & 255) as u32;
    let b = (x & 0x7ff) as u32;
    crate::thumb::narrow::control_fields(x);
    assert((a < 128 ==> ((((a << 1) << 23u32) as i32) >> 23u32) as u32 == 2 * a) && (a >= 128 && a < 256
        ==> ((((a << 1) << 23u32) as i32) >> 23u32) as u32 == 2 * a + 0xffff_fe00) && (b < 1024 ==> ((((b
        << 1) << 20u32) as i32) >> 20u32) as u32 == 2 * b) && (b >= 1024 && b < 2048 ==> ((((b << 1)
        << 20u32) as i32) >> 20u32) as u32 == 2 * b + 0xffff_f000)) by (bit_vector);
}

proof fn conditions_decode(pc: u32, x: u16)
    requires
        0xd0 <= x >> 8 && x >> 8 < 0xde,
    ensures
        x & 255 < 256,
        x >> 11 < 29,
        crate::thumb::decode::narrow_op(pc, x) == Ok::<Decoded, DecodeError>(Decoded { operation: Op::Branch {
                target: ((pc + 4 + 2 * (if x & 255 < 128 {
                    (x & 255) as int
                } else {
                    (x & 255) - 256
                })) % 0x1_0000_0000) as u32,
                condition: Some(((x >> 8) - 0xd0) as u8),
            }, len: 2 }),
{
    crate::thumb::narrow::control_fields(x);
    crate::thumb::narrow::data_fields(x);
    crate::thumb::narrow::memory_fields(x);
    distances(x);
}

proof fn branches_decode(pc: u32, x: u16)
    requires
        x >> 11 == 28,
    ensures
        x & 0x7ff < 2048,
        x >> 11 < 29,
        crate::thumb::decode::narrow_op(pc, x) == Ok::<Decoded, DecodeError>(Decoded { operation: Op::Branch {
                target: ((pc + 4 + 2 * (if x & 0x7ff < 1024 {
                    (x & 0x7ff) as int
                } else {
                    (x & 0x7ff) - 2048
                })) % 0x1_0000_0000) as u32,
                condition: None,
            }, len: 2 }),
{
    crate::thumb::narrow::control_fields(x);
    crate::thumb::narrow::data_fields(x);
    crate::thumb::narrow::memory_fields(x);
    distances(x);
}

proof fn compares_decode(pc: u32, x: u16)
    requires
        x >> 8 == 0xb1 || x >> 8 == 0xb3 || x >> 8 == 0xb9 || x >> 8 == 0xbb,
    ensures
        x >> 11 < 29,
        x & 7 < 8,
        (x >> 9) & 1 < 2,
        (x >> 3) & 31 < 32,
        crate::thumb::decode::narrow_op(pc, x) == Ok::<Decoded, DecodeError>(Decoded { operation: Op::CompareBranch {
                register: (x & 7) as u8,
                nonzero: x >> 8 >= 0xb9,
                target: ((pc + 4 + (64 * ((x >> 9) & 1) + 2 * ((x >> 3) & 31))) % 0x1_0000_0000) as u32,
            }, len: 2 }),
{
    crate::thumb::narrow::control_fields(x);
    crate::thumb::narrow::data_fields(x);
    crate::thumb::narrow::memory_fields(x);
}

proof fn registers_decode(pc: u32, x: u16)
    requires
        x >> 7 == 0x8e || x >> 7 == 0x8f,
    ensures
        x >> 11 < 29,
        (x >> 3) & 15 < 16,
        crate::thumb::decode::narrow_op(pc, x) == Ok::<Decoded, DecodeError>(Decoded { operation: if (x >> 2) & 1 == 1 {
                Op::BranchExchangeNonSecure { register: ((x >> 3) & 15) as u8, link: x >> 7 == 0x8f }
            } else if x >> 7 == 0x8e {
                Op::BranchRegister { register: ((x >> 3) & 15) as u8 }
            } else {
                Op::CallRegister { register: ((x >> 3) & 15) as u8 }
            }, len: 2 }),
{
    crate::thumb::narrow::control_fields(x);
    crate::thumb::narrow::data_fields(x);
    crate::thumb::narrow::memory_fields(x);
}

proof fn blocks_decode(pc: u32, x: u16)
    requires
        x >> 8 == 0xbf,
    ensures
        x >> 11 < 29,
        x & 15 < 16,
        x & 255 < 256,
        (x >> 4) & 15 < 16,
        ((((x >> 4) & 15) as u8) << 4) | ((x & 15) as u8) == (x & 255) as u8,
        ((((x >> 4) & 15) as u8) as u32) << 4 | (((x & 15) as u8) as u32) == (x & 255) as u32,
        crate::thumb::decode::narrow_op(pc, x) == Ok::<Decoded, DecodeError>(Decoded { operation: if x == 0xbf00 {
                Op::Nop
            } else {
                Op::It { condition: ((x >> 4) & 15) as u8, mask: (x & 15) as u8 }
            }, len: 2 }),
{
    crate::thumb::narrow::control_fields(x);
    crate::thumb::narrow::data_fields(x);
    crate::thumb::narrow::memory_fields(x);
}

proof fn host_calls_decode(pc: u32, x: u16)
    requires
        x >> 8 == 0xdf,
    ensures
        x >> 11 < 29,
        x & 255 < 256,
        crate::thumb::decode::narrow_op(pc, x) == Ok::<Decoded, DecodeError>(Decoded { operation: Op::Svc((x & 255) as u8), len: 2 }),
{
    crate::thumb::narrow::control_fields(x);
    crate::thumb::narrow::data_fields(x);
    crate::thumb::narrow::memory_fields(x);
}

proof fn conditional_branches_outcome(c: Cpu, cells: Seq<bool>, frame: Frame<'_>, answers: Answers, x: u16)
    requires
        free(c, answers),
        0xd0 <= x >> 8 && x >> 8 < 0xde,
        x & 255 < 256,
    ensures
        ({
            let t = c.transfer(cells, frame, Op::Branch {
                target: ((c.pc + 4 + 2 * (if x & 255 < 128 {
                    (x & 255) as int
                } else {
                    (x & 255) - 256
                })) % 0x1_0000_0000) as u32,
                condition: Some(((x >> 8) - 0xd0) as u8),
            }, 2, answers);
            let s = settled(t);
            &&& calm(t)
            &&& {
            let code = (x >> 8) - 0xd0;
            let f = x & 255;
            let far: int = if f < 128 { f as int } else { f - 256 };
            &&& answerable(c, code) && asks(c, code) ==> jumps(
                s,
                c,
                cells,
                (c.pc + 4 + 2 * far) % 0x1_0000_0000,
            )
            &&& answerable(c, code) && !asks(c, code) ==> jumps(s, c, cells, (c.pc + 2) % 0x1_0000_0000)
            &&& !answerable(c, code) ==> s == Step::Unexpected
            }
        }),
{
    conditions_ask_the_flags(c, ((x >> 8) - 0xd0) as u8);
}

/// `B` under a condition: it goes to the target where the flags meet the condition
/// and on where they do not; flags that the host does not know refuse it.
pub proof fn conditional_branches(c: Cpu, cells: Seq<bool>, frame: Frame<'_>, answers: Answers, x: u16)
    requires
        free(c, answers),
        stands(frame, c.pc, x),
        0xd0 <= x >> 8 && x >> 8 < 0xde,
    ensures
        ({
            let s = c.step(cells, frame, answers);
            let code = (x >> 8) - 0xd0;
            let f = x & 255;
            let far: int = if f < 128 { f as int } else { f - 256 };
            &&& answerable(c, code) && asks(c, code) ==> jumps(
                s,
                c,
                cells,
                (c.pc + 4 + 2 * far) % 0x1_0000_0000,
            )
            &&& answerable(c, code) && !asks(c, code) ==> jumps(s, c, cells, (c.pc + 2) % 0x1_0000_0000)
            &&& !answerable(c, code) ==> s == Step::Unexpected
        }),
{
    conditions_decode(c.pc, x);
    crate::thumb::narrow::fetched(c, frame, x);
    let d = crate::thumb::decode::narrow_op(c.pc, x)->Ok_0;
    conditional_branches_outcome(c, cells, frame, answers, x);
    crate::thumb::effects::transfers(c, cells, frame, answers, d);
}

proof fn direct_branches_outcome(c: Cpu, cells: Seq<bool>, frame: Frame<'_>, answers: Answers, x: u16)
    requires
        free(c, answers),
        x >> 11 == 28,
        x & 0x7ff < 2048,
    ensures
        ({
            let t = c.transfer(cells, frame, Op::Branch {
                target: ((c.pc + 4 + 2 * (if x & 0x7ff < 1024 {
                    (x & 0x7ff) as int
                } else {
                    (x & 0x7ff) - 2048
                })) % 0x1_0000_0000) as u32,
                condition: None,
            }, 2, answers);
            let s = settled(t);
            &&& calm(t)
            &&& {
            let f = x & 0x7ff;
            let far: int = if f < 1024 { f as int } else { f - 2048 };
            jumps(s, c, cells, (c.pc + 4 + 2 * far) % 0x1_0000_0000)
            }
        }),
{

}

/// `B`: a jump by twice a signed eleven-bit number from four bytes on.
pub proof fn direct_branches(c: Cpu, cells: Seq<bool>, frame: Frame<'_>, answers: Answers, x: u16)
    requires
        free(c, answers),
        stands(frame, c.pc, x),
        x >> 11 == 28,
    ensures
        ({
            let s = c.step(cells, frame, answers);
            let f = x & 0x7ff;
            let far: int = if f < 1024 { f as int } else { f - 2048 };
            jumps(s, c, cells, (c.pc + 4 + 2 * far) % 0x1_0000_0000)
        }),
{
    branches_decode(c.pc, x);
    crate::thumb::narrow::fetched(c, frame, x);
    let d = crate::thumb::decode::narrow_op(c.pc, x)->Ok_0;
    direct_branches_outcome(c, cells, frame, answers, x);
    crate::thumb::effects::transfers(c, cells, frame, answers, d);
}

proof fn compare_branches_outcome(c: Cpu, cells: Seq<bool>, frame: Frame<'_>, answers: Answers, x: u16)
    requires
        free(c, answers),
        x >> 8 == 0xb1 || x >> 8 == 0xb3 || x >> 8 == 0xb9 || x >> 8 == 0xbb,
        x & 7 < 8,
        (x >> 9) & 1 < 2,
        (x >> 3) & 31 < 32,
        c.known[(x & 7) as int] || !answers.options.enabled,
    ensures
        ({
            let t = c.transfer(cells, frame, Op::CompareBranch {
                register: (x & 7) as u8,
                nonzero: x >> 8 >= 0xb9,
                target: ((c.pc + 4 + (64 * ((x >> 9) & 1) + 2 * ((x >> 3) & 31))) % 0x1_0000_0000) as u32,
            }, 2, answers);
            let s = settled(t);
            &&& calm(t)
            &&& {
            let r = (x & 7) as int;
            let far = 64 * ((x >> 9) & 1) + 2 * ((x >> 3) & 31);
            let sense = x >> 8 >= 0xb9;
            &&& c.known[r] && (value(c, r) != 0) == sense ==> jumps(
                s,
                c,
                cells,
                (c.pc + 4 + far) % 0x1_0000_0000,
            )
            &&& c.known[r] && (value(c, r) != 0) != sense ==> jumps(
                s,
                c,
                cells,
                (c.pc + 2) % 0x1_0000_0000,
            )
            &&& !c.known[r] ==> s == Step::Unexpected
            }
        }),
{
    crate::thumb::effects::word_facts(c.regs[(x & 7) as int]);
}

/// `CBZ` and `CBNZ` of a register that the host knows: a short jump forward where
/// it is zero, or where it is not. Without loop recognition any other is refused.
pub proof fn compare_branches(c: Cpu, cells: Seq<bool>, frame: Frame<'_>, answers: Answers, x: u16)
    requires
        free(c, answers),
        stands(frame, c.pc, x),
        x >> 8 == 0xb1 || x >> 8 == 0xb3 || x >> 8 == 0xb9 || x >> 8 == 0xbb,
        c.known[(x & 7) as int] || !answers.options.enabled,
    ensures
        ({
            let s = c.step(cells, frame, answers);
            let r = (x & 7) as int;
            let far = 64 * ((x >> 9) & 1) + 2 * ((x >> 3) & 31);
            let sense = x >> 8 >= 0xb9;
            &&& c.known[r] && (value(c, r) != 0) == sense ==> jumps(
                s,
                c,
                cells,
                (c.pc + 4 + far) % 0x1_0000_0000,
            )
            &&& c.known[r] && (value(c, r) != 0) != sense ==> jumps(
                s,
                c,
                cells,
                (c.pc + 2) % 0x1_0000_0000,
            )
            &&& !c.known[r] ==> s == Step::Unexpected
        }),
{
    compares_decode(c.pc, x);
    crate::thumb::narrow::fetched(c, frame, x);
    let d = crate::thumb::decode::narrow_op(c.pc, x)->Ok_0;
    compare_branches_outcome(c, cells, frame, answers, x);
    crate::thumb::effects::transfers(c, cells, frame, answers, d);
}

proof fn branches_through_registers_outcome(c: Cpu, cells: Seq<bool>, frame: Frame<'_>, answers: Answers, x: u16)
    requires
        free(c, answers),
        x >> 7 == 0x8e && (x >> 2) & 1 == 0,
        (x >> 3) & 15 < 16,
    ensures
        ({
            let t = c.transfer(cells, frame, if (x >> 2) & 1 == 1 {
                Op::BranchExchangeNonSecure { register: ((x >> 3) & 15) as u8, link: x >> 7 == 0x8f }
            } else if x >> 7 == 0x8e {
                Op::BranchRegister { register: ((x >> 3) & 15) as u8 }
            } else {
                Op::CallRegister { register: ((x >> 3) & 15) as u8 }
            }, 2, answers);
            let s = settled(t);
            &&& calm(t)
            &&& {
            let m = ((x >> 3) & 15) as int;
            &&& m == 14 && c.rsp > 0 ==> s == (Step::Next {
                cpu: Cpu { pc: c.rstack[c.rsp - 1], rsp: c.rsp - 1, ..c },
                cells,
                pc: c.rstack[c.rsp - 1],
            })
            &&& m == 14 && c.rsp <= 0 ==> s == Step::Unexpected
            &&& m != 14 && c.known[m] && value(c, m) % 2 == 1 ==> jumps(s, c, cells, value(c, m) - 1)
            &&& m != 14 && !(c.known[m] && value(c, m) % 2 == 1) ==> s == Step::Unexpected
            }
        }),
{
    crate::thumb::effects::word_facts(c.regs[((x >> 3) & 15) as int]);
}

/// `BX`: through the link register it returns to the address on top of the control
/// stack; any other register must hold an odd address that the host knows.
pub proof fn branches_through_registers(c: Cpu, cells: Seq<bool>, frame: Frame<'_>, answers: Answers, x: u16)
    requires
        free(c, answers),
        stands(frame, c.pc, x),
        x >> 7 == 0x8e && (x >> 2) & 1 == 0,
    ensures
        ({
            let s = c.step(cells, frame, answers);
            let m = ((x >> 3) & 15) as int;
            &&& m == 14 && c.rsp > 0 ==> s == (Step::Next {
                cpu: Cpu { pc: c.rstack[c.rsp - 1], rsp: c.rsp - 1, ..c },
                cells,
                pc: c.rstack[c.rsp - 1],
            })
            &&& m == 14 && c.rsp <= 0 ==> s == Step::Unexpected
            &&& m != 14 && c.known[m] && value(c, m) % 2 == 1 ==> jumps(s, c, cells, value(c, m) - 1)
            &&& m != 14 && !(c.known[m] && value(c, m) % 2 == 1) ==> s == Step::Unexpected
        }),
{
    registers_decode(c.pc, x);
    crate::thumb::narrow::fetched(c, frame, x);
    let d = crate::thumb::decode::narrow_op(c.pc, x)->Ok_0;
    branches_through_registers_outcome(c, cells, frame, answers, x);
    crate::thumb::effects::transfers(c, cells, frame, answers, d);
}

proof fn calls_through_registers_outcome(c: Cpu, cells: Seq<bool>, frame: Frame<'_>, answers: Answers, x: u16)
    requires
        free(c, answers),
        x >> 7 == 0x8f && (x >> 2) & 1 == 0,
        answers.action == ArmCallAction::Continue,
        answers.hook.regs.len() == 16,
        answers.hook.known.len() == 16,
        answers.hook.offsets.len() == 16,
        (x >> 3) & 15 < 16,
        0 <= c.rsp,
    ensures
        ({
            let t = c.transfer(cells, frame, if (x >> 2) & 1 == 1 {
                Op::BranchExchangeNonSecure { register: ((x >> 3) & 15) as u8, link: x >> 7 == 0x8f }
            } else if x >> 7 == 0x8e {
                Op::BranchRegister { register: ((x >> 3) & 15) as u8 }
            } else {
                Op::CallRegister { register: ((x >> 3) & 15) as u8 }
            }, 2, answers);
            let s = settled(t);
            &&& calm(t)
            &&& {
            let m = ((x >> 3) & 15) as int;
            if c.known[m] && value(c, m) % 2 == 1 && c.rsp < c.rstack.len() {
                enters(s, c.replied(answers.hook), cells, value(c, m) - 1, (c.pc + 2) % 0x1_0000_0000)
            } else {
                s == Step::Unexpected
            }
            }
        }),
{
    crate::thumb::effects::word_facts(c.regs[((x >> 3) & 15) as int]);
    linked(c.pc.wrapping_add(2));
}

/// `BLX`, where the hook lets it go on: it enters the odd address that the host
/// knows, with the address behind the call on the control stack and, made odd, in
/// the link register.
pub proof fn calls_through_registers(c: Cpu, cells: Seq<bool>, frame: Frame<'_>, answers: Answers, x: u16)
    requires
        free(c, answers),
        stands(frame, c.pc, x),
        x >> 7 == 0x8f && (x >> 2) & 1 == 0,
        answers.action == ArmCallAction::Continue,
        answers.hook.regs.len() == 16,
        answers.hook.known.len() == 16,
        answers.hook.offsets.len() == 16,
        0 <= c.rsp,
    ensures
        ({
            let s = c.step(cells, frame, answers);
            let m = ((x >> 3) & 15) as int;
            if c.known[m] && value(c, m) % 2 == 1 && c.rsp < c.rstack.len() {
                enters(s, c.replied(answers.hook), cells, value(c, m) - 1, (c.pc + 2) % 0x1_0000_0000)
            } else {
                s == Step::Unexpected
            }
        }),
{
    registers_decode(c.pc, x);
    crate::thumb::narrow::fetched(c, frame, x);
    let d = crate::thumb::decode::narrow_op(c.pc, x)->Ok_0;
    calls_through_registers_outcome(c, cells, frame, answers, x);
    crate::thumb::effects::transfers(c, cells, frame, answers, d);
}

proof fn branches_to_the_other_world_outcome(c: Cpu, cells: Seq<bool>, frame: Frame<'_>, answers: Answers, x: u16)
    requires
        free(c, answers),
        (x >> 7 == 0x8e || x >> 7 == 0x8f) && (x >> 2) & 1 == 1,
        (x >> 3) & 15 < 16,
        0 <= c.rsp,
    ensures
        ({
            let t = c.transfer(cells, frame, if (x >> 2) & 1 == 1 {
                Op::BranchExchangeNonSecure { register: ((x >> 3) & 15) as u8, link: x >> 7 == 0x8f }
            } else if x >> 7 == 0x8e {
                Op::BranchRegister { register: ((x >> 3) & 15) as u8 }
            } else {
                Op::CallRegister { register: ((x >> 3) & 15) as u8 }
            }, 2, answers);
            let s = settled(t);
            &&& calm(t)
            &&& {
            let m = ((x >> 3) & 15) as int;
            let to = value(c, m) - value(c, m) % 2;
            let crossed = Cpu {
                security: if value(c, m) % 2 == 0 {
                    SecurityState::NonSecure
                } else {
                    c.security
                },
                ..c
            };
            if c.security == SecurityState::NonSecure || !c.known[m] {
                s == Step::Unexpected
            } else if x >> 7 == 0x8e {
                jumps(s, crossed, cells, to)
            } else if c.rsp < c.rstack.len() {
                enters(s, crossed, cells, to, (c.pc + 2) % 0x1_0000_0000)
            } else {
                s == Step::Unexpected
            }
            }
        }),
{
    let m = ((x >> 3) & 15) as int;
    crate::thumb::effects::word_facts(c.regs[m]);
    let crossed = Cpu {
        security: if value(c, m) % 2 == 0 {
            SecurityState::NonSecure
        } else {
            c.security
        },
        ..c
    };
    linked(c.pc.wrapping_add(2));
}

/// `BXNS` and `BLXNS`: an even address leads out of the Secure state, which alone
/// may execute them; the host must know the address.
pub proof fn branches_to_the_other_world(c: Cpu, cells: Seq<bool>, frame: Frame<'_>, answers: Answers, x: u16)
    requires
        free(c, answers),
        stands(frame, c.pc, x),
        (x >> 7 == 0x8e || x >> 7 == 0x8f) && (x >> 2) & 1 == 1,
        0 <= c.rsp,
    ensures
        ({
            let s = c.step(cells, frame, answers);
            let m = ((x >> 3) & 15) as int;
            let to = value(c, m) - value(c, m) % 2;
            let crossed = Cpu {
                security: if value(c, m) % 2 == 0 {
                    SecurityState::NonSecure
                } else {
                    c.security
                },
                ..c
            };
            if c.security == SecurityState::NonSecure || !c.known[m] {
                s == Step::Unexpected
            } else if x >> 7 == 0x8e {
                jumps(s, crossed, cells, to)
            } else if c.rsp < c.rstack.len() {
                enters(s, crossed, cells, to, (c.pc + 2) % 0x1_0000_0000)
            } else {
                s == Step::Unexpected
            }
        }),
{
    registers_decode(c.pc, x);
    crate::thumb::narrow::fetched(c, frame, x);
    let d = crate::thumb::decode::narrow_op(c.pc, x)->Ok_0;
    branches_to_the_other_world_outcome(c, cells, frame, answers, x);
    crate::thumb::effects::transfers(c, cells, frame, answers, d);
}

/// `NOP`, and `IT`, which keeps its condition and mask as the state of the block.
/// A block without a mask, or under no true condition, is malformed.
pub proof fn blocks_begin(c: Cpu, cells: Seq<bool>, frame: Frame<'_>, answers: Answers, x: u16)
    requires
        free(c, answers),
        stands(frame, c.pc, x),
        x >> 8 == 0xbf,
    ensures
        ({
            let s = c.step(cells, frame, answers);
            &&& x == 0xbf00 ==> jumps(s, c, cells, (c.pc + 2) % 0x1_0000_0000)
            &&& x != 0xbf00 && x & 15 != 0 && (x >> 4) & 15 < 14 ==> s == (Step::Next {
                cpu: Cpu {
                    pc: ((c.pc + 2) % 0x1_0000_0000) as u32,
                    itstate: (x & 255) as u8,
                    ..c
                },
                cells,
                pc: ((c.pc + 2) % 0x1_0000_0000) as u32,
            })
            &&& x != 0xbf00 && (x & 15 == 0 || (x >> 4) & 15 >= 14) ==> s == Step::Decode(
                DecodeError::Malformed((x & 255) as u32),
            )
        }),
{
    blocks_decode(c.pc, x);
    crate::thumb::narrow::fetched(c, frame, x);
    let d = crate::thumb::decode::narrow_op(c.pc, x)->Ok_0;
    crate::thumb::effects::performs(c, cells, frame, answers, d);
    assert(d.operation != Op::Nop ==> c.perform(cells, frame, d.operation, d.len, answers) == c.transfer(
        cells,
        frame,
        d.operation,
        d.len,
        answers,
    ));
}

proof fn host_calls_outcome(c: Cpu, cells: Seq<bool>, frame: Frame<'_>, answers: Answers, x: u16)
    requires
        free(c, answers),
        x >> 8 == 0xdf,
        x & 255 < 256,
    ensures
        ({
            let t = c.transfer(cells, frame, Op::Svc((x & 255) as u8), 2, answers);
            let s = settled(t);
            &&& calm(t)
            &&& {
            let n = c.replied(answers.ecall);
            if x & 255 != 0 || !answers.permit {
                s == Step::Unexpected
            } else {
                match answers.outcome {
                    EcallOutcome::Continue => jumps(s, n, cells, (c.pc + 2) % 0x1_0000_0000),
                    EcallOutcome::Exit => if c.sp == frame.stack_top {
                        s == (Step::Exit { cpu: n, cells })
                    } else {
                        s == Step::Unexpected
                    },
                    EcallOutcome::Unexpected => s == Step::Unexpected,
                }
            }
            }
        }),
{

}

/// `SVC`: only number zero is a host call. What it does is the handler's answer;
/// without leave, or at an exit above the first frame, it is refused.
pub proof fn host_calls(c: Cpu, cells: Seq<bool>, frame: Frame<'_>, answers: Answers, x: u16)
    requires
        free(c, answers),
        stands(frame, c.pc, x),
        x >> 8 == 0xdf,
    ensures
        ({
            let s = c.step(cells, frame, answers);
            let n = c.replied(answers.ecall);
            if x & 255 != 0 || !answers.permit {
                s == Step::Unexpected
            } else {
                match answers.outcome {
                    EcallOutcome::Continue => jumps(s, n, cells, (c.pc + 2) % 0x1_0000_0000),
                    EcallOutcome::Exit => if c.sp == frame.stack_top {
                        s == (Step::Exit { cpu: n, cells })
                    } else {
                        s == Step::Unexpected
                    },
                    EcallOutcome::Unexpected => s == Step::Unexpected,
                }
            }
        }),
{
    host_calls_decode(c.pc, x);
    crate::thumb::narrow::fetched(c, frame, x);
    let d = crate::thumb::decode::narrow_op(c.pc, x)->Ok_0;
    host_calls_outcome(c, cells, frame, answers, x);
    crate::thumb::effects::transfers(c, cells, frame, answers, d);
}

/// The step enters a routine at `to`, to come back to `back`.
pub open spec fn enters(s: Step, c: Cpu, cells: Seq<bool>, to: int, back: int) -> bool {
    let n = after(s);
    &&& 0 <= to < 0x1_0000_0000
    &&& s == (Step::Next { cpu: n, cells, pc: to as u32 })
    &&& n.pc == to
    &&& n.rsp == c.rsp + 1
    &&& n.rstack.len() == c.rstack.len()
    &&& n.rstack[c.rsp] == back
    &&& forall|i: int|
        0 <= i < c.rstack.len() && i != c.rsp ==> #[trigger] n.rstack[i] == c.rstack[i]
    &&& value(n, 14) == back + 1 - back % 2
    &&& n.known[14]
    &&& n.offsets[14] is None
    &&& forall|i: int|
        0 <= i < 16 && i != 14 ==> #[trigger] n.regs[i] == c.regs[i] && n.known[i] == c.known[i]
            && n.offsets[i] == c.offsets[i]
    &&& flags_stay(c, n)
    &&& n.itstate == c.itstate
    &&& n.sp == c.sp
    &&& n.security == c.security
    &&& n.sites == c.sites
}

/// A return address, as the link register holds it.
pub proof fn linked(back: u32)
    ensures
        crate::bits::num(crate::concrete::word(back | 1)) == back + 1 - back % 2,
{
    crate::concrete::word_num(back | 1);
    crate::thumb::accesses::word_forms(back);
}

/// The encodings without an instruction: each is refused by its own number.
pub proof fn other_halfwords(c: Cpu, cells: Seq<bool>, frame: Frame<'_>, answers: Answers, x: u16)
    requires
        stands(frame, c.pc, x),
        x >> 8 == 0xde || (x >> 12 == 11 && !(x >> 8 == 0xb0 || x >> 8 == 0xb1 || x >> 8 == 0xb3 || x
            >> 8 == 0xb9 || x >> 8 == 0xbb || x >> 8 == 0xb4 || x >> 8 == 0xb5 || x >> 8 == 0xbc || x
            >> 8 == 0xbd || x >> 8 == 0xbf)),
    ensures
        c.step(cells, frame, answers) == Step::Decode(DecodeError::Unsupported(x as u32)),
{
    crate::thumb::narrow::control_fields(x);
    crate::thumb::narrow::fetched(c, frame, x);
}

proof fn straight_decode(pc: u32, x: u16)
    requires
        x >> 11 < 20,
    ensures
        x >> 11 < 29,
        crate::thumb::decode::narrow_op(pc, x) matches Ok(d) && d.len == 2 && !(d.operation is It),
{
    crate::thumb::narrow::memory_fields(x);
    crate::thumb::decode::majors(x);
    crate::thumb::narrow::data_fields(x);
    let m = x >> 11;
    assert(m >= 12 ==> m == 12 || m == 13 || m == 14 || m == 15 || m == 16 || m == 17 || m == 18 || m
        == 19);
}

/// The parts of a block's state: its condition, and its mask moved on.
proof fn block_state(i: u8)
    ensures
        (i >> 4) & 15 == i / 16,
        i & 7 == i % 8,
        (i & 0xe0) | ((i << 1) & 0x1f) == (i - i % 32) + (2 * i) % 32,
{
    assert((i >> 4) & 15 == i / 16 && i & 7 == i % 8 && (i & 0xe0) | ((i << 1) & 0x1f) == (i - i % 32) + (
    2 * i) % 32) by (bit_vector);
}

#[verifier::rlimit(60)]
proof fn passed_over(c: Cpu, cells: Seq<bool>, frame: Frame<'_>, answers: Answers, d: Decoded)
    requires
        c.itstate != 0,
        c.itstate / 16 < 14,
        d.len == 2,
        !(d.operation is It),
        answerable(c, c.itstate as int / 16),
        !asks(c, c.itstate as int / 16),
    ensures
        ({
            let s = settled(c.execute_decoded(cells, frame, d, answers));
            let i = c.itstate as int;
            jumps(
                s,
                (Cpu {
                    itstate: (if i % 8 == 0 {
                        0
                    } else {
                        i - i % 32 + (2 * i) % 32
                    }) as u8,
                    ..c
                }),
                cells,
                (c.pc + 2) % 0x1_0000_0000,
            )
        }),
{
    block_state(c.itstate);
    conditions_ask_the_flags(c, c.itstate / 16);
    crate::thumb::laws::skipped_instructions_change_nothing(c, cells, frame, d, answers);
    let i = c.itstate as int;
    let moved: int = if i % 8 == 0 {
        0
    } else {
        i - i % 32 + (2 * i) % 32
    };
    assert(c.advance_it() == (Cpu { itstate: moved as u8, ..c }));
    let next = c.pc.wrapping_add(2);
    assert(c.predicated(cells, frame, d, answers) == (Step::Next { cpu: c, cells, pc: next }));
    assert(c.execute_decoded(cells, frame, d, answers) == (Step::Next {
        cpu: c.advance_it(),
        cells,
        pc: next,
    }));
}

/// Inside a block, an instruction whose condition does not hold is passed over.
pub proof fn blocks_pass_over(c: Cpu, cells: Seq<bool>, frame: Frame<'_>, answers: Answers, x: u16)
    requires
        shaped(c),
        c.itstate != 0,
        c.itstate / 16 < 14,
        stands(frame, c.pc, x),
        x >> 11 < 20,
        answerable(c, c.itstate as int / 16),
        !asks(c, c.itstate as int / 16),
    ensures
        ({
            let s = c.step(cells, frame, answers);
            let i = c.itstate as int;
            jumps(
                s,
                (Cpu {
                    itstate: (if i % 8 == 0 {
                        0
                    } else {
                        i - i % 32 + (2 * i) % 32
                    }) as u8,
                    ..c
                }),
                cells,
                (c.pc + 2) % 0x1_0000_0000,
            )
        }),
{
    straight_decode(c.pc, x);
    crate::thumb::narrow::fetched(c, frame, x);
    let d = crate::thumb::decode::narrow_op(c.pc, x)->Ok_0;
    passed_over(c, cells, frame, answers, d);
}

/// What a move under a condition that the host does not know leaves: the value
/// where the condition holds, and what was there where it does not.
pub open spec fn selects(s: Step, c: Cpu, cells: Seq<bool>, d: int, v: int, holds: bool) -> bool {
    let n = after(s);
    &&& crate::thumb::effects::goes_on(s, c, cells, 2)
    &&& crate::thumb::effects::only((Cpu { itstate: 0, ..c }), n, d)
    &&& value(n, d) == if holds {
        v
    } else {
        value(c, d)
    }
    &&& !n.known[d]
    &&& n.offsets[d] is None
    &&& n.flags[0] == if holds {
        v >= 0x8000_0000
    } else {
        c.flags[0]
    }
    &&& n.flags[1] == if holds {
        v == 0
    } else {
        c.flags[1]
    }
    &&& !n.flags_known[0]
    &&& !n.flags_known[1]
    &&& crate::thumb::effects::flag_stays(c, n, 2)
    &&& crate::thumb::effects::flag_stays(c, n, 3)
    &&& crate::thumb::effects::flag_stays(c, n, 4)
}

proof fn selected(c: Cpu, cells: Seq<bool>, frame: Frame<'_>, answers: Answers, dest: u8, v: u32)
    requires
        shaped(c),
        c.itstate != 0,
        c.itstate / 16 < 14,
        dest < 8,
        !answerable(c, c.itstate as int / 16),
    ensures
        ({
            let d = Decoded {
                operation: Op::Move {
                    dest,
                    source: crate::thumb::op::Operand::Immediate(v),
                    set_flags: true,
                },
                len: 2,
            };
            let s = settled(c.execute_decoded(cells, frame, d, answers));
            if c.itstate % 8 != 0 {
                s == Step::Unexpected
            } else {
                selects(s, c, cells, dest as int, v as int, asks(c, c.itstate as int / 16))
            }
        }),
{
    block_state(c.itstate);
    conditions_ask_the_flags(c, c.itstate / 16);
    crate::concrete::word_num(v);
    crate::thumb::effects::word_facts(crate::concrete::word(v));
    let d = Decoded {
        operation: Op::Move {
            dest,
            source: crate::thumb::op::Operand::Immediate(v),
            set_flags: true,
        },
        len: 2,
    };
    assert(c.predicated(cells, frame, d, answers) == c.execute_symbolic_it(cells, d.operation, 2));
    if c.itstate % 8 == 0 {
        let holds = asks(c, c.itstate as int / 16);
        let fact = crate::thumb::data::Fact { word: crate::concrete::word(v), known: true };
        let m = c.select_move(holds, dest as int, fact, true);
        let next = c.pc.wrapping_add(2);
        assert(c.predicated(cells, frame, d, answers) == (Step::Next { cpu: m, cells, pc: next }));
        assert(m.itstate == c.itstate);
        assert(c.execute_decoded(cells, frame, d, answers) == (Step::Next {
            cpu: Cpu { itstate: 0, ..m },
            cells,
            pc: next,
        }));
    }
}

/// `MOV` of a byte under a condition that the host does not know: the register,
/// N and Z take the byte's values exactly where the flags meet the condition. It
/// must stand alone in its block.
pub proof fn blocks_select(c: Cpu, cells: Seq<bool>, frame: Frame<'_>, answers: Answers, x: u16)
    requires
        shaped(c),
        c.itstate != 0,
        c.itstate / 16 < 14,
        stands(frame, c.pc, x),
        x >> 11 == 4,
        !answerable(c, c.itstate as int / 16),
    ensures
        ({
            let s = c.step(cells, frame, answers);
            if c.itstate % 8 != 0 {
                s == Step::Unexpected
            } else {
                selects(
                    s,
                    c,
                    cells,
                    ((x >> 8) & 7) as int,
                    (x & 255) as int,
                    asks(c, c.itstate as int / 16),
                )
            }
        }),
{
    crate::thumb::narrow::data_fields(x);
    crate::thumb::narrow::fetched(c, frame, x);
    selected(c, cells, frame, answers, ((x >> 8) & 7) as u8, (x & 255) as u32);
}

} // verus!
