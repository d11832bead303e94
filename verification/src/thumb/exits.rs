//! Early exits of loops: what a recognized branch leaves on wires is what the
//! machine's own steps leave on the side that the branch takes.
use crate::thumb::control::Answers;
use crate::thumb::early_exit::{instruction_at, op_at, Site};
use crate::thumb::effects::{free, value};
use crate::thumb::exec::Frame;
use crate::thumb::machine::{shaped, Cpu, Step};
use crate::thumb::op::{Op, Operand};
use vstd::prelude::*;

verus! {

/// The machine after `k` steps that touch no memory.
pub open spec fn ran(
    c: Cpu,
    cells: Seq<bool>,
    frame: Frame<'_>,
    answers: Answers,
    k: nat,
) -> Option<Cpu>
    decreases k,
{
    if k == 0 {
        Some(c)
    } else {
        match c.step(cells, frame, answers) {
            Step::Next { cpu, cells: left, pc: _ } => if left == cells {
                ran(cpu, cells, frame, answers, (k - 1) as nat)
            } else {
                None
            },
            _ => None,
        }
    }
}

/// The registers after constants were written to them, one after the other.
spec fn written(regs: Seq<Seq<bool>>, writes: Seq<(u8, u32)>) -> Seq<Seq<bool>>
    decreases writes.len(),
{
    if writes.len() == 0 {
        regs
    } else {
        written(regs, writes.drop_last()).update(
            writes.last().0 as int,
            crate::concrete::word(writes.last().1),
        )
    }
}

/// A decoded move of a constant names a register.
proof fn moves_name_registers(mem: crate::memory::RawMemory<'_>, pc: u32)
    ensures
        op_at(mem, pc) matches Some((op, len)) ==> (op matches Op::Move { dest, source, .. } ==> (
        source is Immediate ==> dest < 16)) && (len == 2 || len == 4),
{
    match crate::thumb::early_exit::half_at(mem, pc) {
        None => {},
        Some(first) => {
            crate::thumb::decode::majors(first);
            match crate::thumb::early_exit::half_at(mem, pc.wrapping_add(2)) {
                None => {},
                Some(second) => {
                    crate::thumb::decode::majors(second);
                },
            }
        },
    }
}

/// A step over a constant write, or along a jump.
proof fn steps_on(c: Cpu, cells: Seq<bool>, frame: Frame<'_>, answers: Answers)
    requires
        free(c, answers),
    ensures
        match op_at(frame.mem, c.pc) {
            Some((Op::Branch { target, condition: None }, _)) => c.step(cells, frame, answers) == (
            Step::Next { cpu: Cpu { pc: target, ..c }, cells, pc: target }),
            Some((Op::Move { dest, source: Operand::Immediate(v), set_flags: false }, len)) => {
                let next = c.pc.wrapping_add(len);
                c.step(cells, frame, answers) == (Step::Next {
                    cpu: Cpu { pc: next, ..c.write_constant(dest as int, v) },
                    cells,
                    pc: next,
                })
            },
            _ => true,
        },
{
    match instruction_at(frame.mem, c.pc) {
        Ok(d) => {
            crate::thumb::effects::performs(c, cells, frame, answers, d);
        },
        Err(_) => {},
    }
}

/// The exit path runs to the place where it meets the loop's own exit, and
/// leaves the constants that the recognizer collected.
proof fn path_runs(
    c: Cpu,
    cells: Seq<bool>,
    frame: Frame<'_>,
    answers: Answers,
    merge: u32,
    budget: nat,
    regs: Seq<Seq<bool>>,
    done: Seq<(u8, u32)>,
) -> (k: nat)
    requires
        free(c, answers),
        c.regs == written(regs, done),
        crate::thumb::early_exit::exit_writes(frame.mem, c.pc, merge, budget, done) is Some,
    ensures
        ran(c, cells, frame, answers, k) matches Some(n) && n.pc == merge && n.regs == written(
            regs,
            crate::thumb::early_exit::exit_writes(frame.mem, c.pc, merge, budget, done)->0,
        ) && n.flags == c.flags && n.sp == c.sp,
    decreases budget,
{
    if c.pc == merge {
        0
    } else {
        steps_on(c, cells, frame, answers);
        moves_name_registers(frame.mem, c.pc);
        let less = (budget - 1) as nat;
        match op_at(frame.mem, c.pc) {
            Some((Op::Branch { target, condition: None }, _)) => {
                let next = Cpu { pc: target, ..c };
                let k = path_runs(next, cells, frame, answers, merge, less, regs, done);
                (k + 1) as nat
            },
            Some((Op::Move { dest, source: Operand::Immediate(v), set_flags: false }, len)) => {
                let next = Cpu { pc: c.pc.wrapping_add(len), ..c.write_constant(dest as int, v) };
                let more = done.push((dest, v));
                assert(more.drop_last() =~= done);
                crate::concrete::word_num(v);
                assert(shaped(next));
                let k = path_runs(next, cells, frame, answers, merge, less, regs, more);
                (k + 1) as nat
            },
            _ => 0,
        }
    }
}

/// Writes that an exit makes, or does not.
proof fn exit_registers(c: Cpu, writes: Seq<(u8, u32)>, exit: bool)
    requires
        c.regs.len() == 16,
        forall|i: int| 0 <= i < writes.len() ==> (#[trigger] writes[i]).0 < 16,
    ensures
        c.exit_writes(writes, exit).regs == if exit {
            written(c.regs, writes)
        } else {
            c.regs
        },
    decreases writes.len(),
{
    if writes.len() > 0 {
        exit_registers(c, writes.drop_last(), exit);
        let before = c.exit_writes(writes.drop_last(), exit);
        assert(writes.last().0 < 16);
        if !exit {
            let d = writes.last().0 as int;
            assert(c.regs.update(d, c.regs[d]) =~= c.regs);
        }
    }
}

proof fn writes_name_registers(
    mem: crate::memory::RawMemory<'_>,
    pc: u32,
    merge: u32,
    budget: nat,
    done: Seq<(u8, u32)>,
)
    requires
        forall|i: int| 0 <= i < done.len() ==> (#[trigger] done[i]).0 < 16,
    ensures
        crate::thumb::early_exit::exit_writes(mem, pc, merge, budget, done) matches Some(all) ==> (
        forall|i: int| 0 <= i < all.len() ==> (#[trigger] all[i]).0 < 16),
    decreases budget,
{
    if pc != merge && budget > 0 {
        moves_name_registers(mem, pc);
        let less = (budget - 1) as nat;
        match op_at(mem, pc) {
            Some((Op::Branch { target, condition: None }, _)) => {
                writes_name_registers(mem, target, merge, less, done);
            },
            Some((Op::Move { dest, source: Operand::Immediate(v), set_flags: false }, len)) => {
                writes_name_registers(mem, pc.wrapping_add(len), merge, less, done.push((dest, v)));
            },
            _ => {},
        }
    }
}

/// What the recognizer found: the loop goes on at one side, and the writes are on
/// the way from the other to where the loop's own exit leads.
proof fn site_parts(
    mem: crate::memory::RawMemory<'_>,
    pc: u32,
    register: u8,
    nonzero: bool,
    len: u32,
    taken: u32,
    budget: nat,
    site: Site,
) -> (merge: u32)
    requires
        crate::thumb::early_exit::recognized(mem, pc, register, nonzero, len, taken, budget) == Some(
            site,
        ),
    ensures
        site.register == register,
        site.nonzero == nonzero,
        ({
            let on = pc.wrapping_add(len);
            &&& site.continue_target == if site.exit_when_taken {
                on
            } else {
                taken
            }
            &&& crate::thumb::early_exit::exit_writes(
                mem,
                if site.exit_when_taken {
                    taken
                } else {
                    on
                },
                merge,
                budget,
                seq![],
            ) == Some(site.writes)
        }),
{
    let natural = crate::thumb::early_exit::natural_exit(mem, site.continue_target, pc, budget)->0;
    crate::thumb::early_exit::landing(mem, natural, budget)->0
}

proof fn exit_runs(
    c: Cpu,
    cells: Seq<bool>,
    frame: Frame<'_>,
    answers: Answers,
    merge: u32,
    budget: nat,
    writes: Seq<(u8, u32)>,
)
    requires
        free(c, answers),
        crate::thumb::early_exit::exit_writes(frame.mem, c.pc, merge, budget, seq![]) == Some(writes),
    ensures
        runs_to(c, cells, frame, answers, written(c.regs, writes)),
{
    let none: Seq<(u8, u32)> = seq![];
    assert(written(c.regs, none) == c.regs);
    let k = path_runs(c, cells, frame, answers, merge, budget, c.regs, none);
    assert(ran(c, cells, frame, answers, k) is Some);
}

/// The machine's own steps lead to these registers, with the flags and the stack
/// pointer as they were.
pub open spec fn runs_to(
    c: Cpu,
    cells: Seq<bool>,
    frame: Frame<'_>,
    answers: Answers,
    regs: Seq<Seq<bool>>,
) -> bool {
    exists|k: nat|
        (#[trigger] ran(c, cells, frame, answers, k)) matches Some(n) && n.regs == regs && n.flags
            == c.flags && n.sp == c.sp
}

proof fn replayed(c: Cpu, cells: Seq<bool>, frame: Frame<'_>, site: Site)
    requires
        shaped(c),
        forall|i: int| 0 <= i < site.writes.len() ==> (#[trigger] site.writes[i]).0 < 16,
    ensures
        ({
            let goes = (value(c, site.register as int) != 0) == site.nonzero;
            c.replay(cells, site) matches Step::Next { cpu, cells: left, pc } && left == cells && pc
                == site.continue_target && cpu.regs == if goes == site.exit_when_taken {
                written(c.regs, site.writes)
            } else {
                c.regs
            }
        }),
{
    let goes = (value(c, site.register as int) != 0) == site.nonzero;
    exit_registers(c, site.writes, goes == site.exit_when_taken);
}

/// A recognized branch does on wires what it would do on a register that the
/// host knows. Where the branch keeps looping, every register stays. Where it
/// leaves the loop, the registers are those that the machine's own steps leave
/// on the side it takes, once they meet the loop's own exit. Either way
/// execution goes on inside the loop.
#[verifier::rlimit(60)]
pub proof fn replays_are_runs(
    c: Cpu,
    cells: Seq<bool>,
    frame: Frame<'_>,
    answers: Answers,
    register: u8,
    nonzero: bool,
    len: u32,
    taken: u32,
    budget: nat,
    site: Site,
)
    requires
        free(c, answers),
        register < 16,
        crate::thumb::early_exit::recognized(
            frame.mem,
            c.pc,
            register,
            nonzero,
            len,
            taken,
            budget,
        ) == Some(site),
    ensures
        ({
            let on = c.pc.wrapping_add(len);
            let goes = (value(c, register as int) != 0) == nonzero;
            let side = if goes {
                taken
            } else {
                on
            };
            let loops = goes != site.exit_when_taken;
            &&& site.continue_target == if site.exit_when_taken {
                on
            } else {
                taken
            }
            &&& loops ==> side == site.continue_target
            &&& c.replay(cells, site) matches Step::Next { cpu, cells: left, pc } && left == cells && pc
                == site.continue_target && (loops ==> cpu.regs == c.regs) && (!loops ==> runs_to(
                (Cpu { pc: side, ..c }),
                cells,
                frame,
                answers,
                cpu.regs,
            ))
        }),
{
    let on = c.pc.wrapping_add(len);
    let merge = site_parts(frame.mem, c.pc, register, nonzero, len, taken, budget, site);
    let out = if site.exit_when_taken {
        taken
    } else {
        on
    };
    writes_name_registers(frame.mem, out, merge, budget, seq![]);
    replayed(c, cells, frame, site);
    exit_runs(Cpu { pc: out, ..c }, cells, frame, answers, merge, budget, site.writes);
    assert(runs_to(Cpu { pc: out, ..c }, cells, frame, answers, written(c.regs, site.writes)));
}

} // verus!
