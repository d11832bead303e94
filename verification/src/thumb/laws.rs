//! What holds of several instructions together.
use crate::storage;
use crate::thumb::control::{Answers, Reply};
use crate::thumb::early_exit::FetchError;
use crate::thumb::exec::Frame;
use crate::callback::{HashCallback, PolicyCallback};
use crate::context::{ContextWithStorage, ContextWithValue, HasError};
use crate::handler::{EcallOutcome, File, Handler};
use crate::thumb::handler::{
    ArmCallAction, ArmDefaultHandler, ContextWithArmv8mOps, DefaultHandler, SecurityAttribute,
    SecurityState,
};
use crate::thumb::machine::{Cpu, Step};
use crate::thumb::op::{Arithmetic, Decoded, LoadKind, Op, Operand};
use vstd::prelude::*;

verus! {

/// A word stored on the stack is loaded back from the same place.
pub proof fn stored_word_is_loaded_back(
    c: Cpu,
    cells: Seq<bool>,
    mem: crate::memory::RawMemory<'_>,
    storage_bits: int,
    source: int,
    dest: int,
    base: int,
    offset: i32,
)
    requires
        crate::thumb::machine::shaped(c),
        0 <= source < 16,
        0 <= dest < 16,
        0 <= base < 15,
        storage_bits <= cells.len(),
        c.store(cells, storage_bits, source, base, offset, 32) is Some,
    ensures
        c.load(
            c.store(cells, storage_bits, source, base, offset, 32)->0,
            mem,
            storage_bits,
            dest,
            base,
            offset,
            LoadKind::Word,
        ) == Some(c.write(dest, c.regs[source], false)),
{
    let after = c.store(cells, storage_bits, source, base, offset, 32)->0;
    let start = crate::thumb::stack::stack_range(
        c.sp,
        c.offsets[base]->0.wrapping_add(offset),
        32,
        storage_bits,
    )->0;
    assert(c.regs[source].take(32) =~= c.regs[source]);
    assert(crate::thumb::stack::extended(after, start, LoadKind::Word) =~= c.regs[source]);
}

/// What is written to the status register is read back from it: its five
/// architectural bits, and zeros elsewhere.
pub proof fn status_round_trips(c: Cpu, source: int, dest: int)
    requires
        crate::thumb::machine::shaped(c),
        0 <= source < 13,
        0 <= dest < 13,
    ensures
        c.write_apsr(source) is Some,
        c.write_apsr(source)->0.read_apsr(dest) is Some,
        ({
            let after = c.write_apsr(source)->0.read_apsr(dest)->0;
            &&& after.regs[dest] == Seq::new(32, |i: int| i >= 27 && c.regs[source][i])
            &&& after.known[dest] == c.known[source]
        }),
{
    let after = c.write_apsr(source)->0.read_apsr(dest)->0;
    assert(after.regs[dest] =~= Seq::new(32, |i: int| i >= 27 && c.regs[source][i]));
}

/// A call that is entered returns behind itself: the control stack is as deep
/// as before, whatever the link register holds by then.
pub proof fn a_call_returns_behind_itself(c: Cpu, cells: Seq<bool>, target: u32, return_pc: u32)
    requires
        crate::thumb::machine::shaped(c),
        0 <= c.rsp,
        c.rsp < c.rstack.len(),
    ensures
        c.enter(cells, target, return_pc) matches Step::Next { cpu, cells: kept, pc } && {
            &&& pc == target
            &&& kept == cells
            &&& cpu.return_from_call() matches Some((after, back)) && back == return_pc
                && after.rsp == c.rsp
        },
{
}

/// A hook that returns at once leaves the control stack alone and goes on
/// behind the call, whatever the target, known or not.
pub proof fn returning_now_pushes_no_frame(
    c: Cpu,
    cells: Seq<bool>,
    target: Option<u32>,
    return_pc: u32,
    reply: Reply,
)
    ensures
        c.call(cells, target, return_pc, ArmCallAction::ReturnNow, reply) == (Step::Next {
            cpu: c.replied(reply),
            cells,
            pc: return_pc,
        }),
        c.replied(reply).rstack == c.rstack,
        c.replied(reply).rsp == c.rsp,
{
}

/// A call without a known target fails closed unless the hook says where it
/// goes.
pub proof fn unresolved_calls_fail_closed(
    c: Cpu,
    cells: Seq<bool>,
    return_pc: u32,
    action: ArmCallAction,
    reply: Reply,
)
    requires
        action == ArmCallAction::Continue || (action matches ArmCallAction::Divert(to) && to % 2
            == 1),
    ensures
        c.call(cells, None, return_pc, action, reply) == Step::Unexpected,
{
}

/// An instruction whose condition is known to be false changes nothing but the
/// program counter.
pub proof fn skipped_instructions_change_nothing(
    c: Cpu,
    cells: Seq<bool>,
    frame: crate::thumb::exec::Frame<'_>,
    d: crate::thumb::op::Decoded,
    answers: crate::thumb::control::Answers,
)
    requires
        c.itstate != 0,
        !(d.operation is It),
        crate::thumb::flags::condition_known(c, (c.itstate >> 4) & 15) == Some(Some(false)),
    ensures
        c.predicated(cells, frame, d, answers) == (Step::Next {
            cpu: c,
            cells,
            pc: c.pc.wrapping_add(d.len),
        }),
{
}

/// A move under a condition that the host does not know does what the
/// condition says: all of the move where it holds, and nothing where it does
/// not, but that the host no longer knows the result.
pub proof fn symbolic_moves_follow_their_condition(
    c: Cpu,
    dest: int,
    fact: crate::thumb::data::Fact,
    set_flags: bool,
)
    requires
        crate::thumb::machine::shaped(c),
        0 <= dest < 16,
    ensures
        c.select_move(true, dest, fact, set_flags) == c.result(
            dest,
            crate::thumb::data::Fact { known: false, ..fact },
            set_flags,
        ),
        c.select_move(false, dest, fact, set_flags).regs == c.regs,
        c.select_move(false, dest, fact, set_flags).flags == c.flags,
{
    let not = c.select_move(false, dest, fact, set_flags);
    assert(not.regs =~= c.regs);
    assert(not.flags =~= c.flags);
}

/// Where a slot of a block at the stack pointer is.
proof fn slot_start(sp: u32, slot: int, storage_bits: int)
    requires
        0 <= slot <= 16,
        sp + 4 * slot <= u32::MAX,
    ensures
        crate::thumb::stack::stack_range(
            sp,
            crate::thumb::stack::slot_offset(0, slot),
            32,
            storage_bits,
        ) == if 8 * (sp + 4 * slot) + 32 <= storage_bits {
            Some(8 * (sp + 4 * slot))
        } else {
            None::<int>
        },
{
}

/// The slot of a register in a block.
pub open spec fn slot_of(list: u16, register: int) -> int {
    crate::thumb::stack::listed_below(list, register)
}

/// Slots count up.
proof fn slots_count_up(list: u16, j: int, k: int)
    requires
        0 <= j <= k,
    ensures
        slot_of(list, j) <= slot_of(list, k) <= slot_of(list, j) + (k - j),
        0 <= slot_of(list, j),
        j < k && crate::thumb::stack::listed(list, j) ==> slot_of(list, j) < slot_of(list, k),
    decreases k,
{
    if j < k {
        slots_count_up(list, j, k - 1);
    } else if j > 0 {
        slots_count_up(list, j - 1, j - 1);
    }
}

/// A block that was stored: each listed register from `register` up is in its
/// slot, and nothing below the first of those slots changed.
proof fn block_is_stored(
    c: Cpu,
    cells: Seq<bool>,
    storage_bits: int,
    list: u16,
    register: int,
)
    requires
        crate::thumb::machine::shaped(c),
        0 <= register <= 16,
        storage_bits <= cells.len(),
        c.sp + 4 * slot_of(list, 16) <= u32::MAX,
        c.store_list(cells, storage_bits, list, 0, register, slot_of(list, register)) is Some,
    ensures
        ({
            let after = c.store_list(
                cells,
                storage_bits,
                list,
                0,
                register,
                slot_of(list, register),
            )->0;
            &&& after.len() == cells.len()
            &&& forall|i: int|
                0 <= i < 8 * (c.sp + 4 * slot_of(list, register)) && i < cells.len()
                    ==> #[trigger] after[i] == cells[i]
            &&& forall|r: int|
                register <= r < 16 && crate::thumb::stack::listed(list, r) ==> {
                    let start = 8 * (c.sp + 4 * #[trigger] slot_of(list, r));
                    &&& start + 32 <= storage_bits
                    &&& after.subrange(start, start + 32) == c.regs[r]
                }
        }),
    decreases 16 - register,
{
    if register < 16 {
        let slot = slot_of(list, register);
        slots_count_up(list, register, 16);
        slots_count_up(list, register, register + 1);
        slots_count_up(list, 0, register);
        if crate::thumb::stack::listed(list, register) {
            slot_start(c.sp, slot, storage_bits);
            let start = 8 * (c.sp + 4 * slot);
            let next = storage::overwrite(cells, start, c.regs[register]);
            block_is_stored(c, next, storage_bits, list, register + 1);
            let after = c.store_list(next, storage_bits, list, 0, register + 1, slot + 1)->0;
            assert(after.subrange(start, start + 32) =~= c.regs[register]);
            assert forall|i: int| 0 <= i < start && i < cells.len() implies #[trigger] after[i]
                == cells[i] by {
                assert(next[i] == cells[i]);
            }
        } else {
            block_is_stored(c, cells, storage_bits, list, register + 1);
        }
    }
}

/// A block that is loaded: each listed register from `register` up gets its
/// slot, and the others stay.
proof fn block_is_loaded(
    c: Cpu,
    cells: Seq<bool>,
    storage_bits: int,
    list: u16,
    register: int,
)
    requires
        crate::thumb::machine::shaped(c),
        0 <= register <= 16,
        storage_bits <= cells.len(),
        c.sp + 4 * slot_of(list, 16) <= u32::MAX,
        !crate::thumb::stack::listed(list, 15),
        forall|r: int|
            register <= r < 16 && crate::thumb::stack::listed(list, r) ==> 8 * (c.sp + 4
                * #[trigger] slot_of(list, r)) + 32 <= storage_bits,
    ensures
        c.load_list(cells, storage_bits, list, 0, register, slot_of(list, register), true) is Some,
        ({
            let after = c.load_list(
                cells,
                storage_bits,
                list,
                0,
                register,
                slot_of(list, register),
                true,
            )->0;
            &&& crate::thumb::machine::shaped(after)
            &&& after.sp == c.sp
            &&& forall|r: int|
                0 <= r < 16 ==> (#[trigger] after.regs[r]) == if register <= r
                    && crate::thumb::stack::listed(list, r) {
                    cells.subrange(
                        8 * (c.sp + 4 * slot_of(list, r)),
                        8 * (c.sp + 4 * slot_of(list, r)) + 32,
                    )
                } else {
                    c.regs[r]
                }
        }),
    decreases 16 - register,
{
    if register < 16 {
        let slot = slot_of(list, register);
        slots_count_up(list, register, 16);
        slots_count_up(list, 0, register);
        if crate::thumb::stack::listed(list, register) {
            slot_start(c.sp, slot, storage_bits);
            assert(8 * (c.sp + 4 * slot_of(list, register)) + 32 <= storage_bits);
            let start = 8 * (c.sp + 4 * slot);
            let next = c.write(register, cells.subrange(start, start + 32), false);
            block_is_loaded(next, cells, storage_bits, list, register + 1);
        } else {
            block_is_loaded(c, cells, storage_bits, list, register + 1);
        }
    }
}

/// What is pushed is popped: with the same list, neither the stack pointer nor
/// the program counter among it, every register and the stack pointer are as
/// before.
pub proof fn pushed_registers_are_popped(
    c: Cpu,
    cells: Seq<bool>,
    storage_bits: int,
    list: u16,
    len: u32,
    down: Cpu,
    stored: Seq<bool>,
    next: u32,
)
    requires
        crate::thumb::machine::shaped(c),
        storage_bits <= cells.len(),
        !crate::thumb::stack::listed(list, 13),
        !crate::thumb::stack::listed(list, 15),
        crate::thumb::stack::pushed(c, cells, storage_bits, list, len) == (Step::Next {
            cpu: down,
            cells: stored,
            pc: next,
        }),
    ensures
        crate::thumb::stack::popped(
            down,
            stored,
            storage_bits,
            list,
            len,
        ) matches Step::Next { cpu, cells: after, pc: _ } && {
            &&& cpu.sp == c.sp
            &&& after == stored
            &&& forall|r: int| 0 <= r < 16 && r != 13 ==> (#[trigger] cpu.regs[r]) == c.regs[r]
        },
{
    slots_count_up(list, 0, 16);
    assert(slot_of(list, 0) == 0);
    block_is_stored(down, cells, storage_bits, list, 0);
    block_is_loaded(down, stored, storage_bits, list, 0);
}

/// The default handler goes by `r0` alone: zero hashes and goes on, all ones
/// exit and leave the registers as they are, and anything else is refused.
pub proof fn default_call_goes_by_r0<C, F, W, E, G, A>(
    c: Cpu,
    outcome: EcallOutcome,
    reply: Reply,
) where
    C: ContextWithArmv8mOps<bool> + ContextWithValue<bool, Wrapped = W> + ContextWithStorage<bool>
        + HasError<Error = E>,
    F: HashCallback<C, W, E, 32>,
    G: PolicyCallback<DefaultHandler<C, F>, SecurityState, bool>,
    A: PolicyCallback<DefaultHandler<C, F>, u32, SecurityAttribute>,
    W: Clone,

    requires
        crate::thumb::machine::shaped(c),
        crate::thumb::control::called::<ArmDefaultHandler<DefaultHandler<C, F>, G, A>>(
            c,
            outcome,
            reply,
        ),
    ensures
        outcome == match c.value(0) {
            Some(0) => EcallOutcome::Continue,
            Some(0xffff_ffff) => EcallOutcome::Exit,
            _ => EcallOutcome::Unexpected,
        },
        outcome == EcallOutcome::Exit ==> c.replied(reply) == c,
{
    let (before, zero, one, after) = choose|
        before: File<W, 32>,
        zero: W,
        one: W,
        after: File<W, 32>,
    |
        #[trigger] <ArmDefaultHandler<DefaultHandler<C, F>, G, A> as Handler<bool>>::answers(
            before,
            zero,
            one,
            outcome,
            after,
        ) && crate::thumb::control::handed::<ArmDefaultHandler<DefaultHandler<C, F>, G, A>>(
            before,
            c,
        ) && crate::thumb::control::left::<ArmDefaultHandler<DefaultHandler<C, F>, G, A>>(
            after,
            reply,
        );
    assert(before.constants[0] == match c.value(0) {
        Some(v) => Some(v as u64),
        None => None,
    });
    if outcome == EcallOutcome::Exit {
        assert(after == before);
        assert(reply.known =~= c.known);
        assert(reply.offsets =~= c.offsets);
    }
}

/// What the host knows changes no wire: an additive operation in two states
/// with the same words, flags and stack pointer leaves the same words and
/// flags, whatever the host knows in either.
pub proof fn host_knowledge_changes_no_sum(
    a: Cpu,
    b: Cpu,
    kind: Arithmetic,
    dest: int,
    left: Operand,
    right: Operand,
    set_flags: bool,
)
    requires
        a.regs == b.regs,
        a.flags == b.flags,
        a.sp == b.sp,
    ensures
        a.arithmetic(kind, dest, left, right, set_flags) is Some == b.arithmetic(
            kind,
            dest,
            left,
            right,
            set_flags,
        ) is Some,
        a.arithmetic(kind, dest, left, right, set_flags) is Some ==> a.arithmetic(
            kind,
            dest,
            left,
            right,
            set_flags,
        )->0.regs == b.arithmetic(
            kind,
            dest,
            left,
            right,
            set_flags,
        )->0.regs,
        a.arithmetic(kind, dest, left, right, set_flags) is Some ==> a.arithmetic(
            kind,
            dest,
            left,
            right,
            set_flags,
        )->0.flags == b.arithmetic(
            kind,
            dest,
            left,
            right,
            set_flags,
        )->0.flags,
{
    assert(a.operand(left).word == b.operand(left).word);
    assert(a.operand(right).word == b.operand(right).word);
}

/// An `SVC #0` in the Secure state with the default handler goes by its gate
/// policy and by `r0`: a call that the policy refuses is unexpected, and one
/// that it permits with all ones in `r0` and a balanced stack exits with the
/// registers as they are.
pub proof fn gated_call_goes_by_its_policy<C, F, W, E, G, A>(
    c: Cpu,
    cells: Seq<bool>,
    frame: Frame<'_>,
    answers: Answers,
    len: u32,
) where
    C: ContextWithArmv8mOps<bool> + ContextWithValue<bool, Wrapped = W> + ContextWithStorage<bool>
        + HasError<Error = E>,
    F: HashCallback<C, W, E, 32>,
    G: PolicyCallback<DefaultHandler<C, F>, SecurityState, bool>,
    A: PolicyCallback<DefaultHandler<C, F>, u32, SecurityAttribute>,
    W: Clone,

    requires
        crate::thumb::machine::shaped(c),
        crate::thumb::exec::honest::<ArmDefaultHandler<DefaultHandler<C, F>, G, A>>(
            c,
            frame,
            answers,
        ),
        crate::thumb::early_exit::instruction_at(frame.mem, c.pc) == Ok::<Decoded, FetchError>(
            Decoded { operation: Op::Svc(0), len },
        ),
        c.itstate == 0,
        c.security == SecurityState::Secure,
    ensures
        G::gives(c.security, answers.permit),
        !answers.permit ==> c.step(cells, frame, answers) == Step::Unexpected,
        answers.permit && c.value(0) == Some(0xffff_ffffu32) && c.sp == frame.stack_top ==> c.step(
            cells,
            frame,
            answers,
        ) == (Step::Exit { cpu: c, cells }),
        answers.permit && c.value(0) == Some(0xffff_ffffu32) && c.sp != frame.stack_top ==> c.step(
            cells,
            frame,
            answers,
        ) == Step::Unexpected,
        c.value(0) != Some(0xffff_ffffu32) && c.value(0) != Some(0u32) ==> c.step(
            cells,
            frame,
            answers,
        ) == Step::Unexpected,
{
    if answers.permit {
        default_call_goes_by_r0::<C, F, W, E, G, A>(c, answers.outcome, answers.ecall);
    }
}

} // verus!
