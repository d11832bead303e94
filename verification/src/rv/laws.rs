//! What holds across the operations of the RISC-V machine and its loops.
use crate::callback::HashCallback;
use crate::context::{ContextWithStorage, ContextWithValue, HasError};
use crate::handler::{EcallOutcome, File};
use crate::rv::body::{BodyEnd, Course, Plan, Turn};
use crate::rv::control::{Answers, Reply};
use crate::rv::exec::Place;
use crate::rv::handler::{RvDefaultHandler, RvHandler};
use crate::rv::inst::{FetchError, RvOp};
use crate::rv::looped::{Advance, Common, Gather, Gathering, Loop};
use crate::rv::machine::{Frame, Hart, Step};
use crate::thumb::handler::DefaultHandler;
use crate::word::ContextWithErtOps;
use vstd::prelude::*;

verus! {

/// Only an addition of an immediate to the stack pointer's register moves the
/// stack pointer, by that immediate; whatever else is written to that register,
/// the next instruction finds the stack pointer in it.
pub proof fn only_immediates_move_the_stack_pointer(
    h: Hart,
    cells: Seq<bool>,
    frame: Frame<'_>,
    op: RvOp,
)
    requires
        crate::rv::inst::op_ok(op),
        h.regs.len() == 32,
        h.compute(cells, frame, op) is Some,
    ensures
        ({
            let (after, _) = h.compute(cells, frame, op)->0;
            &&& after.sp == match op {
                RvOp::AddImmediate { dest, imm, .. } if dest == 2 => crate::wide::low(
                    crate::rv::machine::at(h.sp, imm),
                    frame.bits,
                ),
                _ => h.sp,
            }
            &&& after.reset(frame.bits).sp == after.sp
            &&& after.reset(frame.bits).regs[2] == crate::rv::machine::spelled(after.sp, frame.bits)
        }),
{
}

/// A word stored on the virtual stack is loaded back, by any register that
/// reaches its place, extended to the width of a register; and cells outside
/// it keep what they held.
pub proof fn stored_word_is_loaded_back(
    h: Hart,
    cells: Seq<bool>,
    frame: Frame<'_>,
    src: int,
    base: int,
    offset: i64,
    width: nat,
    later: Hart,
    dest: int,
    other: int,
    other_offset: i64,
    signed: bool,
)
    requires
        frame.active,
        frame.storage_bits <= cells.len(),
        h.regs[src].len() == frame.bits,
        h.store(cells, frame, src, base, offset, width) is Some,
        later.place(other, other_offset, frame.bits) == h.place(base, offset, frame.bits),
    ensures
        ({
            let after = h.store(cells, frame, src, base, offset, width)->0;
            &&& later.load(after, frame, dest, other, other_offset, width, signed) == Some(later.write(
                dest,
                crate::wide::extended(h.regs[src].take(width as int), frame.bits, signed),
                false,
                None,
            ))
            &&& after.len() == cells.len()
            &&& h.place(base, offset, frame.bits) matches Place::Stack(address) && forall|i: int|
                0 <= i < cells.len() && !(8 * address <= i < 8 * address + width) ==> after[i]
                    == cells[i]
        }),
{
    let after = h.store(cells, frame, src, base, offset, width)->0;
    let address = match h.place(base, offset, frame.bits) {
        Place::Stack(address) => address,
        _ => 0,
    };
    let start = 8 * address as int;
    assert(after.subrange(start, start + width) =~= h.regs[src].take(width as int));
}

/// A store under a predicate that does not hold changes no cell.
pub proof fn inactive_store_changes_nothing(
    h: Hart,
    cells: Seq<bool>,
    frame: Frame<'_>,
    src: int,
    base: int,
    offset: i64,
    width: nat,
)
    requires
        !frame.active,
    ensures
        h.store(cells, frame, src, base, offset, width) matches Some(after) ==> after == cells,
{
}

/// No instruction of a body that is not active changes a cell.
pub proof fn inactive_step_changes_no_cell(
    h: Hart,
    cells: Seq<bool>,
    frame: Frame<'_>,
    plan: Plan<'_>,
    answers: Answers,
)
    requires
        !frame.active,
    ensures
        match h.body_step(cells, frame, plan, answers) {
            Course::On { hart: _, cells: c } => c == cells,
            Course::End(BodyEnd::Close { hart: _, cells: c, next: _, successors: _ }) => c == cells,
            Course::End(BodyEnd::Exit { hart: _, cells: c }) => c == cells,
            _ => true,
        },
{
    let here = h.at_start(frame);
    if let Ok((op, len)) = here.fetched(frame) {
        let set = here.reset(frame.bits);
        match set.execute(cells, frame, op, len, answers) {
            Step::Next { hart: _, cells: c, pc: _ } => {
                cells_kept(set, cells, frame, op, len, answers);
            },
            _ => {},
        }
    }
}

proof fn cells_kept(
    h: Hart,
    cells: Seq<bool>,
    frame: Frame<'_>,
    op: RvOp,
    len: u64,
    answers: Answers,
)
    requires
        !frame.active,
    ensures
        match h.execute(cells, frame, op, len, answers) {
            Step::Next { hart: _, cells: c, pc: _ } => c == cells,
            Step::Exit { hart: _, cells: c } => c == cells,
            _ => true,
        },
{
}

/// A body that is not active leaves the virtual stack as it was.
pub proof fn inactive_body_changes_no_cell(
    h: Hart,
    cells: Seq<bool>,
    frame: Frame<'_>,
    plan: Plan<'_>,
    answers: Seq<Answers>,
)
    requires
        !frame.active,
    ensures
        match crate::rv::body::body_runs(h, cells, frame, plan, answers) {
            Course::On { hart: _, cells: c } => c == cells,
            Course::End(BodyEnd::Close { hart: _, cells: c, next: _, successors: _ }) => c == cells,
            Course::End(BodyEnd::Exit { hart: _, cells: c }) => c == cells,
            _ => true,
        },
    decreases answers.len(),
{
    if answers.len() > 0 {
        inactive_body_changes_no_cell(h, cells, frame, plan, answers.drop_last());
        match crate::rv::body::body_runs(h, cells, frame, plan, answers.drop_last()) {
            Course::On { hart, cells: c } => {
                inactive_step_changes_no_cell(hart, c, frame, plan, answers.last());
            },
            _ => {},
        }
    }
}

/// A body that meets no symbolic control-flow point does what the single-pass
/// interpreter does.
pub proof fn concrete_body_is_single_pass(
    h: Hart,
    cells: Seq<bool>,
    frame: Frame<'_>,
    plan: Plan<'_>,
    answers: Seq<Answers>,
)
    ensures
        match crate::rv::body::body_runs(h, cells, frame, plan, answers) {
            Course::On { hart, cells: c } => crate::rv::control::runs(h, cells, frame, answers)
                == (Step::Next { hart, cells: c, pc: hart.pc }),
            Course::End(BodyEnd::Exit { hart, cells: c }) => crate::rv::control::runs(
                h,
                cells,
                frame,
                answers,
            ) == (Step::Exit { hart, cells: c }),
            Course::End(BodyEnd::Decode(e)) => crate::rv::control::runs(h, cells, frame, answers)
                == Step::Decode(e),
            _ => true,
        },
    decreases answers.len(),
{
    if answers.len() > 0 {
        let front = answers.drop_last();
        concrete_body_is_single_pass(h, cells, frame, plan, front);
    }
}

/// The wires of a step of several candidates are those of the body at the
/// virtual instruction pointer: its registers, where it goes next, whether it
/// exited.
pub proof fn active_body_decides(
    start: Gather,
    common: Common<'_>,
    candidates: Seq<u64>,
    visits: Seq<Seq<Answers>>,
    k: int,
)
    requires
        common.frame.bits == 32 || common.frame.bits == 64,
        0 <= k < visits.len() <= candidates.len(),
        candidates.no_duplicates(),
        forall|i: int|
            0 <= i < candidates.len() ==> crate::wide::fits(
                #[trigger] candidates[i],
                common.frame.bits,
            ),
        common.ip == crate::rv::machine::spelled(candidates[k], common.frame.bits),
        crate::rv::looped::gathered(start, common, candidates, visits) is Going,
    ensures
        ({
            let g = crate::rv::looped::gathered(start, common, candidates, visits)->Going_0;
            let before = crate::rv::looped::gathered(
                start,
                common,
                candidates,
                visits.take(k),
            )->Going_0;
            match crate::rv::body::body_runs(
                Hart { pc: candidates[k], ..common.base },
                before.cells,
                Frame { active: true, ..common.frame },
                common.plan,
                visits[k],
            ) {
                Course::End(BodyEnd::Close { hart, cells, next, successors: _ }) => {
                    &&& g.regs == hart.regs
                    &&& g.ip == crate::rv::machine::spelled(next, common.frame.bits)
                    &&& g.done == start.done
                    &&& g.cells == cells
                },
                Course::End(BodyEnd::Exit { hart, cells }) => {
                    &&& g.regs == hart.regs
                    &&& g.done
                    &&& g.cells == cells
                },
                _ => false,
            }
        }),
    decreases visits.len(),
{
    let bits = common.frame.bits;
    let front = visits.drop_last();
    let last = visits.len() - 1;
    assert(crate::rv::looped::gathered(start, common, candidates, front) is Going);
    if k == last {
        assert(front =~= visits.take(k));
        assert forall|i: int| 0 <= i < front.len() implies common.ip
            != crate::rv::machine::spelled(#[trigger] candidates[i], bits) by {
            if common.ip == crate::rv::machine::spelled(candidates[i], bits) {
                crate::wide::fits_injective(candidates[k], candidates[i], bits);
            }
        }
        inactive_bodies_change_nothing(start, common, candidates, front);
    } else {
        active_body_decides(start, common, candidates, front, k);
        assert(front.take(k) =~= visits.take(k));
        assert(candidates[k] != candidates[last]);
        if crate::rv::machine::spelled(candidates[k], bits) == crate::rv::machine::spelled(
            candidates[last],
            bits,
        ) {
            crate::wide::fits_injective(candidates[k], candidates[last], bits);
        }
        let g = crate::rv::looped::gathered(start, common, candidates, front)->Going_0;
        inactive_body_changes_no_cell(
            Hart { pc: candidates[last], ..common.base },
            g.cells,
            Frame { active: false, ..common.frame },
            common.plan,
            visits.last(),
        );
    }
}

/// A step none of whose candidates the virtual instruction pointer names
/// leaves every wire and every cell as it was.
pub proof fn inactive_bodies_change_nothing(
    start: Gather,
    common: Common<'_>,
    candidates: Seq<u64>,
    visits: Seq<Seq<Answers>>,
)
    requires
        visits.len() <= candidates.len(),
        forall|i: int|
            0 <= i < visits.len() ==> common.ip != crate::rv::machine::spelled(
                #[trigger] candidates[i],
                common.frame.bits,
            ),
        crate::rv::looped::gathered(start, common, candidates, visits) is Going,
    ensures
        ({
            let g = crate::rv::looped::gathered(start, common, candidates, visits)->Going_0;
            &&& g.regs == start.regs
            &&& g.ip == start.ip
            &&& g.done == start.done
            &&& g.cells == start.cells
        }),
    decreases visits.len(),
{
    if visits.len() > 0 {
        let front = visits.drop_last();
        inactive_bodies_change_nothing(start, common, candidates, front);
        let last = visits.len() - 1;
        assert(common.ip != crate::rv::machine::spelled(candidates[last], common.frame.bits));
        let g = crate::rv::looped::gathered(start, common, candidates, front)->Going_0;
        inactive_body_changes_no_cell(
            Hart { pc: candidates[last], ..common.base },
            g.cells,
            Frame { active: false, ..common.frame },
            common.plan,
            visits.last(),
        );
    }
}


/// The done wire only accumulates: what one step sets, no later one takes back.
pub proof fn done_is_never_taken_back(
    l: Loop,
    capacity: int,
    frame: Frame<'_>,
    plan: Plan<'_>,
    visits: Seq<Seq<Answers>>,
)
    requires
        l.done,
    ensures
        l.advance(capacity, frame, plan, visits) matches Advance::To { next, done: _ } ==> next.done,
{
    let common = l.common(capacity - l.candidates.len(), frame, plan);
    gathered_done(l.opening(), common, l.candidates, visits);
}

proof fn gathered_done(
    start: Gather,
    common: Common<'_>,
    candidates: Seq<u64>,
    visits: Seq<Seq<Answers>>,
)
    requires
        start.done,
    ensures
        crate::rv::looped::gathered(start, common, candidates, visits) matches Gathering::Going(g)
            ==> g.done,
    decreases visits.len(),
{
    if visits.len() > 0 {
        gathered_done(start, common, candidates, visits.drop_last());
    }
}

/// A precomputed program is a cache and never a semantic change: a body that is
/// checked against it does what it does without, or fails closed.
pub proof fn program_only_confirms(
    h: Hart,
    cells: Seq<bool>,
    frame: Frame<'_>,
    plan: Plan<'_>,
    answers: Seq<Answers>,
)
    ensures
        ({
            let checked = crate::rv::body::body_runs(h, cells, frame, plan, answers);
            let live = crate::rv::body::body_runs(
                h,
                cells,
                frame,
                Plan { program: None, ..plan },
                answers,
            );
            checked == live || checked == Course::End(BodyEnd::Unexpected)
        }),
    decreases answers.len(),
{
    if answers.len() > 0 {
        program_only_confirms(h, cells, frame, plan, answers.drop_last());
    }
}

/// Where a declared indirect jump leads is among the addresses that it
/// declares.
proof fn dispatched_is_resolved(targets: Seq<u64>, base: Seq<bool>, offset: i64, bits: nat)
    requires
        targets.len() > 0,
    ensures
        crate::rv::program::resolved_all(targets, offset, bits).contains(
            crate::rv::body::dispatched(targets, base, offset, bits),
        ),
    decreases targets.len(),
{
    let all = crate::rv::program::resolved_all(targets, offset, bits);
    if targets.len() <= 1 || base == crate::rv::machine::spelled(targets[0], bits) {
        assert(all[0] == crate::rv::program::resolved(targets[0], offset, bits));
    } else {
        let rest = targets.skip(1);
        dispatched_is_resolved(rest, base, offset, bits);
        let next = crate::rv::body::dispatched(rest, base, offset, bits);
        let i = choose|i: int|
            0 <= i < rest.len() && crate::rv::program::resolved_all(rest, offset, bits)[i] == next;
        assert(all[i + 1] == next);
    }
}

/// Where a body closes, it goes on at one of the addresses that it names, all
/// of which fit a register.
proof fn closing_names_its_next(
    h: Hart,
    cells: Seq<bool>,
    frame: Frame<'_>,
    plan: Plan<'_>,
    answers: Seq<Answers>,
)
    requires
        frame.bits == 32 || frame.bits == 64,
    ensures
        crate::rv::body::body_runs(h, cells, frame, plan, answers) matches Course::End(
            BodyEnd::Close { hart: _, cells: _, next, successors },
        ) ==> successors.contains(next) && forall|i: int|
            0 <= i < successors.len() ==> crate::wide::fits(#[trigger] successors[i], frame.bits),
    decreases answers.len(),
{
    if answers.len() > 0 {
        closing_names_its_next(h, cells, frame, plan, answers.drop_last());
        match crate::rv::body::body_runs(h, cells, frame, plan, answers.drop_last()) {
            Course::On { hart, cells: _ } => {
                let here = hart.at_start(frame);
                if let Ok((op, len)) = here.fetched(frame) {
                    turn_names_its_next(here.reset(frame.bits), plan, op, len, frame.bits);
                }
            },
            _ => {},
        }
    }
}

proof fn turn_names_its_next(h: Hart, plan: Plan<'_>, op: RvOp, len: u64, bits: nat)
    requires
        bits == 32 || bits == 64,
    ensures
        h.turn(plan, op, len, bits) matches Turn::Close { hart: _, next, successors }
            ==> successors.contains(next) && forall|i: int|
            0 <= i < successors.len() ==> crate::wide::fits(#[trigger] successors[i], bits),
{
    if let Turn::Close { hart: _, next, successors } = h.turn(plan, op, len, bits) {
        match op {
            RvOp::Branch { predicate: _, left: _, right: _, offset } => {
                let taken = crate::wide::low(crate::rv::machine::at(h.pc, offset), bits);
                let fallthrough = crate::wide::low(h.pc.wrapping_add(len), bits);
                assert(successors == crate::rv::body::branch_successors(taken, fallthrough));
                assert(successors[0] == taken);
                assert(taken != fallthrough ==> successors[1] == fallthrough);
            },
            RvOp::JumpRegister { dest: _, base, offset } => {
                let targets = crate::rv::program::declared(plan.indirect@, h.pc)->0;
                dispatched_is_resolved(targets, h.regs[base as int], offset, bits);
            },
            _ => {},
        }
    }
}

/// A state whose virtual instruction pointer names a live candidate, unless the
/// active path has exited.
pub open spec fn on_course(l: Loop, bits: nat) -> bool {
    &&& l.candidates.no_duplicates()
    &&& forall|i: int|
        0 <= i < l.candidates.len() ==> crate::wide::fits(#[trigger] l.candidates[i], bits)
    &&& l.done || exists|k: int|
        0 <= k < l.candidates.len() && l.ip == crate::rv::machine::spelled(
            #[trigger] l.candidates[k],
            bits,
        )
}

/// The candidates of a step so far: distinct, and each fits a register.
proof fn gathered_candidates(
    start: Gather,
    common: Common<'_>,
    candidates: Seq<u64>,
    visits: Seq<Seq<Answers>>,
)
    requires
        common.frame.bits == 32 || common.frame.bits == 64,
        start.successors.len() == 0,
    ensures
        crate::rv::looped::gathered(start, common, candidates, visits) matches Gathering::Going(g)
            ==> g.successors.no_duplicates() && forall|i: int|
            0 <= i < g.successors.len() ==> crate::wide::fits(
                #[trigger] g.successors[i],
                common.frame.bits,
            ),
    decreases visits.len(),
{
    if visits.len() > 0 {
        let front = visits.drop_last();
        let candidate = candidates[visits.len() - 1];
        gathered_candidates(start, common, candidates, front);
        match crate::rv::looped::gathered(start, common, candidates, front) {
            Gathering::Going(g) => {
                let active = common.ip == crate::rv::machine::spelled(
                    candidate,
                    common.frame.bits,
                );
                let body = Hart { pc: candidate, ..common.base };
                let frame = Frame { active, ..common.frame };
                closing_names_its_next(body, g.cells, frame, common.plan, visits.last());
                if let Course::End(BodyEnd::Close { hart: _, cells: _, next: _, successors }) =
                    crate::rv::body::body_runs(body, g.cells, frame, common.plan, visits.last()) {
                    crate::table::extended_is_distinct(g.successors, successors);
                    extended_fits(g.successors, successors, common.frame.bits);
                }
            },
            _ => {},
        }
    }
}

proof fn extended_fits(next: Seq<u64>, candidates: Seq<u64>, bits: nat)
    requires
        forall|i: int| 0 <= i < next.len() ==> crate::wide::fits(#[trigger] next[i], bits),
        forall|i: int|
            0 <= i < candidates.len() ==> crate::wide::fits(#[trigger] candidates[i], bits),
    ensures
        forall|i: int|
            0 <= i < crate::table::extended(next, candidates).len() ==> crate::wide::fits(
                #[trigger] crate::table::extended(next, candidates)[i],
                bits,
            ),
{
    let all = crate::table::extended(next, candidates);
    assert forall|i: int| 0 <= i < all.len() implies crate::wide::fits(#[trigger] all[i], bits) by {
        crate::table::extended_holds_both(next, candidates, all[i]);
        assert(all.contains(all[i]));
        if next.contains(all[i]) {
            let j = choose|j: int| 0 <= j < next.len() && next[j] == all[i];
            assert(crate::wide::fits(next[j], bits));
        } else {
            let j = choose|j: int| 0 <= j < candidates.len() && candidates[j] == all[i];
            assert(crate::wide::fits(candidates[j], bits));
        }
    }
}

/// What a candidate's visit adds, later visits keep.
proof fn gathered_keeps(
    start: Gather,
    common: Common<'_>,
    candidates: Seq<u64>,
    visits: Seq<Seq<Answers>>,
    k: int,
    c: u64,
)
    requires
        0 <= k <= visits.len(),
        crate::rv::looped::gathered(start, common, candidates, visits) is Going,
        crate::rv::looped::gathered(start, common, candidates, visits.take(k)) is Going,
        crate::rv::looped::gathered(
            start,
            common,
            candidates,
            visits.take(k),
        )->Going_0.successors.contains(c),
    ensures
        crate::rv::looped::gathered(start, common, candidates, visits)->Going_0.successors.contains(
            c,
        ),
    decreases visits.len(),
{
    if k == visits.len() {
        assert(visits.take(k) =~= visits);
    } else {
        let front = visits.drop_last();
        assert(front.take(k) =~= visits.take(k));
        gathered_keeps(start, common, candidates, front, k, c);
        let g = crate::rv::looped::gathered(start, common, candidates, front)->Going_0;
        let candidate = candidates[visits.len() - 1];
        let active = common.ip == crate::rv::machine::spelled(candidate, common.frame.bits);
        if let Course::End(BodyEnd::Close { hart: _, cells: _, next: _, successors }) =
            crate::rv::body::body_runs(
            Hart { pc: candidate, ..common.base },
            g.cells,
            Frame { active, ..common.frame },
            common.plan,
            visits.last(),
        ) {
            crate::table::extended_holds_both(g.successors, successors, c);
        }
    }
}

/// A prefix of visits that go on goes on.
proof fn prefix_goes_on(
    start: Gather,
    common: Common<'_>,
    candidates: Seq<u64>,
    visits: Seq<Seq<Answers>>,
    k: int,
)
    requires
        0 <= k <= visits.len(),
        crate::rv::looped::gathered(start, common, candidates, visits) is Going,
    ensures
        crate::rv::looped::gathered(start, common, candidates, visits.take(k)) is Going,
    decreases visits.len(),
{
    if k == visits.len() {
        assert(visits.take(k) =~= visits);
    } else {
        assert(visits.drop_last().take(k) =~= visits.take(k));
        prefix_goes_on(start, common, candidates, visits.drop_last(), k);
    }
}

proof fn single_stays_on_course(
    l: Loop,
    capacity: int,
    frame: Frame<'_>,
    plan: Plan<'_>,
    answers: Seq<Answers>,
)
    requires
        frame.bits == 32 || frame.bits == 64,
    ensures
        l.advance_one(capacity, frame, plan, answers) matches Advance::To { next, done: _ }
            ==> on_course(next, frame.bits),
{
    let body = Hart { pc: l.candidates[0], ..l.hart };
    closing_names_its_next(body, l.cells, frame, plan, answers);
    if let Course::End(BodyEnd::Close { hart: _, cells: _, next, successors }) =
        crate::rv::body::body_runs(body, l.cells, frame, plan, answers) {
        let none = Seq::<u64>::empty();
        let all = crate::table::extended(none, successors);
        crate::table::extended_is_distinct(none, successors);
        extended_fits(none, successors, frame.bits);
        crate::table::extended_holds_both(none, successors, next);
        let k = choose|k: int| 0 <= k < all.len() && all[k] == next;
        if let Advance::To { next: after, done: _ } = l.advance_one(
            capacity,
            frame,
            plan,
            answers,
        ) {
            assert(after.candidates == all);
            assert(after.ip == crate::rv::machine::spelled(after.candidates[k], frame.bits));
        }
    }
}

/// A step of a program that is not known to have exited is the last one exactly
/// where it leaves no candidate.
pub proof fn done_leaves_no_candidate(
    l: Loop,
    capacity: int,
    frame: Frame<'_>,
    plan: Plan<'_>,
    visits: Seq<Seq<Answers>>,
)
    requires
        frame.bits == 32 || frame.bits == 64,
        l.done_known != Some(true),
    ensures
        l.advance(capacity, frame, plan, visits) matches Advance::To { next, done } ==> done == (
        next.candidates.len() == 0),
{
    if l.candidates.len() == 1 && visits.len() == 1 {
        let answers = visits[0];
        let body = Hart { pc: l.candidates[0], ..l.hart };
        closing_names_its_next(body, l.cells, frame, plan, answers);
        if let Course::End(BodyEnd::Close { hart: _, cells: _, next, successors }) =
            crate::rv::body::body_runs(body, l.cells, frame, plan, answers) {
            crate::table::extended_holds_both(Seq::<u64>::empty(), successors, next);
        }
    }
}

proof fn several_stay_on_course(
    l: Loop,
    room: int,
    frame: Frame<'_>,
    plan: Plan<'_>,
    visits: Seq<Seq<Answers>>,
)
    requires
        frame.bits == 32 || frame.bits == 64,
        on_course(l, frame.bits),
        visits.len() == l.candidates.len(),
    ensures
        crate::rv::looped::gathered(
            l.opening(),
            l.common(room, frame, plan),
            l.candidates,
            visits,
        ) matches Gathering::Going(g) ==> on_course(l.settled(g), frame.bits),
{
    let bits = frame.bits;
    let common = l.common(room, frame, plan);
    let start = l.opening();
    gathered_candidates(start, common, l.candidates, visits);
    if let Gathering::Going(g) = crate::rv::looped::gathered(
        start,
        common,
        l.candidates,
        visits,
    ) {
        if l.done {
            gathered_done(start, common, l.candidates, visits);
        } else {
            let k = choose|k: int|
                0 <= k < l.candidates.len() && l.ip == crate::rv::machine::spelled(
                    #[trigger] l.candidates[k],
                    bits,
                );
            active_body_decides(start, common, l.candidates, visits, k);
            prefix_goes_on(start, common, l.candidates, visits, k);
            prefix_goes_on(start, common, l.candidates, visits, k + 1);
            let before = crate::rv::looped::gathered(
                start,
                common,
                l.candidates,
                visits.take(k),
            )->Going_0;
            assert(visits.take(k + 1).drop_last() =~= visits.take(k));
            let body = Hart { pc: l.candidates[k], ..common.base };
            let around = Frame { active: true, ..common.frame };
            closing_names_its_next(body, before.cells, around, plan, visits[k]);
            if let Course::End(BodyEnd::Close { hart: _, cells: _, next, successors }) =
                crate::rv::body::body_runs(body, before.cells, around, plan, visits[k]) {
                crate::table::extended_holds_both(before.successors, successors, next);
                gathered_keeps(start, common, l.candidates, visits, k + 1, next);
                let j = choose|j: int| 0 <= j < g.successors.len() && g.successors[j] == next;
                let after = l.settled(g);
                assert(after.candidates == g.successors);
                assert(after.ip == crate::rv::machine::spelled(after.candidates[j], bits));
            }
            assert(on_course(l.settled(g), bits));
        }
    }
}

/// The virtual instruction pointer stays on course: after every step it names
/// one of the candidates of the next, until the active path exits.
pub proof fn virtual_ip_stays_on_course(
    l: Loop,
    capacity: int,
    frame: Frame<'_>,
    plan: Plan<'_>,
    visits: Seq<Seq<Answers>>,
)
    requires
        frame.bits == 32 || frame.bits == 64,
        on_course(l, frame.bits),
    ensures
        l.advance(capacity, frame, plan, visits) matches Advance::To { next, done: _ } ==> on_course(
            next,
            frame.bits,
        ),
{
    let count = l.candidates.len();
    if l.done_known == Some(true) || count == 0 {
    } else if count == 1 {
        if visits.len() == 1 {
            single_stays_on_course(l, capacity, frame, plan, visits[0]);
        }
    } else if visits.len() == count {
        several_stay_on_course(l, capacity - count, frame, plan, visits);
    }
}

/// The default handler goes by `a0` alone: zero hashes and goes on, all ones
/// exit and leave the registers as they are, and anything else is refused.
pub proof fn default_call_goes_by_a0<C, F, W, E, const BITS: usize>(
    h: Hart,
    outcome: EcallOutcome,
    reply: Reply,
) where
    C: ContextWithErtOps<bool> + ContextWithStorage<bool> + ContextWithValue<bool, Wrapped = W>
        + HasError<Error = E>,
    F: HashCallback<C, W, E, BITS>,
    W: Clone,

    requires
        BITS == 32 || BITS == 64,
        h.known.len() == 32,
        crate::rv::control::called::<RvDefaultHandler<DefaultHandler<C, F>>, BITS>(
            h,
            outcome,
            reply,
        ),
    ensures
        outcome == if h.value(10) == Some(0u64) {
            EcallOutcome::Continue
        } else if h.value(10) == Some(crate::rv::handler::all_ones(BITS as int)) {
            EcallOutcome::Exit
        } else {
            EcallOutcome::Unexpected
        },
        outcome == EcallOutcome::Exit ==> h.replied(reply) == h,
{
    let (before, zero, one, after) = choose|
        before: File<W, BITS>,
        zero: W,
        one: W,
        after: File<W, BITS>,
    |
        #[trigger] <RvDefaultHandler<DefaultHandler<C, F>> as RvHandler<bool, BITS>>::answers(
            before,
            zero,
            one,
            outcome,
            after,
        ) && crate::rv::control::handed::<RvDefaultHandler<DefaultHandler<C, F>>, BITS>(before, h)
            && reply == crate::rv::control::reply_of::<RvDefaultHandler<DefaultHandler<C, F>>, BITS>(
            after.regs,
            after.constants,
            after.offsets,
        );
    assert(before.constants[10] == h.value(10));
    if outcome == EcallOutcome::Exit {
        assert(reply.known =~= h.known);
    }
}

/// With the default handler, an `ECALL` with all ones in `a0` and a balanced
/// stack exits in the state in which it was made, and one with anything but
/// these or zero is refused.
pub proof fn default_exit_exits<C, F, W, E, const BITS: usize>(
    h: Hart,
    cells: Seq<bool>,
    frame: Frame<'_>,
    answers: Answers,
    len: u64,
) where
    C: ContextWithErtOps<bool> + ContextWithStorage<bool> + ContextWithValue<bool, Wrapped = W>
        + HasError<Error = E>,
    F: HashCallback<C, W, E, BITS>,
    W: Clone,

    requires
        BITS == 32 || BITS == 64,
        frame.bits == BITS,
        crate::rv::control::honest::<RvDefaultHandler<DefaultHandler<C, F>>, BITS>(
            h,
            frame,
            answers,
        ),
        h.at_start(frame).fetched(frame) == Ok::<(RvOp, u64), FetchError>((RvOp::Ecall, len)),
        h.at_start(frame).reset(frame.bits).known.len() == 32,
    ensures
        ({
            let set = h.at_start(frame).reset(frame.bits);
            let all_ones = Some(crate::rv::handler::all_ones(BITS as int));
            &&& set.value(10) == all_ones && h.sp == frame.stack_top ==> h.step(
                cells,
                frame,
                answers,
            ) == (Step::Exit { hart: set, cells })
            &&& set.value(10) == all_ones && h.sp != frame.stack_top ==> h.step(
                cells,
                frame,
                answers,
            ) == Step::Unexpected
            &&& set.value(10) != all_ones && set.value(10) != Some(0u64) ==> h.step(
                cells,
                frame,
                answers,
            ) == Step::Unexpected
        }),
{
    default_call_goes_by_a0::<C, F, W, E, BITS>(
        h.at_start(frame).reset(frame.bits),
        answers.outcome,
        answers.ecall,
    );
}

} // verus!
