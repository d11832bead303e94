//! Entry points: run an image, or call a function in it.
use crate::context::{keep, ContextWithValue, HasError};
use crate::memory::RawMemory;
use crate::storage;
use crate::thumb::control::Answers;
use crate::thumb::exec::Frame;
use crate::thumb::handler::{ArmHandler, SecurityState};
use crate::thumb::machine::{emitted, Cpu, ErtError, Flag, FlagWire, Machine, Step};
use crate::thumb::snapshot::keep_file;
use crate::word::{add_bits, fill, keep_word, ContextWithErtOps};
use vstd::prelude::*;

verus! {

/// Add two little-endian symbolic 32-bit words with an initial carry bit.
///
/// `zero` and `one` are not needed; they are taken so that every facade's
/// helper can be called alike.
pub fn simple_add<C: ContextWithErtOps<bool> + ?Sized>(
    t: &mut C,
    v: &[C::Wrapped; 32],
    w: &[C::Wrapped; 32],
    carry: C::Wrapped,
    _zero: C::Wrapped,
    _one: C::Wrapped,
) -> (r: Result<[C::Wrapped; 32], C::Error>) where C::Wrapped: Clone
    ensures
        crate::context::sound::<C>() ==> (r matches Ok(sum) ==> crate::context::bits::<C>(sum@)
            == crate::bits::add_of(
            crate::context::bits::<C>(v@),
            crate::context::bits::<C>(w@),
            crate::context::bit::<C>(carry),
        )),
        C::reliable() ==> r is Ok,
        r matches Err(error) ==> C::errs(error),
{
    add_bits(t, v, w, carry)
}

/// The state in which a program starts: the caller's registers, an empty
/// control stack, clear flags, the Secure state, and the stack pointer at the
/// top of the virtual stack.
pub open spec fn initial(
    regs: Seq<Seq<bool>>,
    known: Seq<bool>,
    rstack: Seq<u32>,
    pc: u32,
    sp: u32,
) -> Cpu {
    Cpu {
        pc,
        regs: regs.update(13, crate::concrete::word(sp)),
        known: known.update(13, false),
        offsets: Seq::new(
            16,
            |i: int|
                if i == 13 {
                    Some(0i32)
                } else {
                    None
                },
        ),
        flags: Seq::new(5, |i: int| false),
        flags_known: Seq::new(5, |i: int| true),
        itstate: 0,
        sp,
        rstack,
        rsp: 0,
        security: SecurityState::Secure,
        sites: Seq::new(8, |i: int| None),
    }
}

/// A register file whose host-known values are what its wires spell.
pub open spec fn consistent<H: ContextWithValue<bool> + ?Sized>(
    regs: Seq<[H::Wrapped; 32]>,
    constants: Seq<Option<u32>>,
) -> bool {
    forall|i: int|
        0 <= i < 16 ==> ((#[trigger] constants[i]) matches Some(v) ==> crate::context::bits::<H>(
            regs[i]@,
        ) == crate::concrete::word(v))
}

impl<'m, W: Clone> Machine<'m, W> {
    /// A machine at the start of a program.
    pub fn new<H: ContextWithValue<bool, Wrapped = W> + ?Sized>(
        mem: RawMemory<'m>,
        rstack: Vec<u32>,
        storage_bits: usize,
        pc: u32,
        regs: [[W; 32]; 16],
        constants: [Option<u32>; 16],
        zero: W,
        one: W,
        sp: u32,
    ) -> (r: Self)
        ensures
            crate::thumb::machine::bounded(r),
            crate::thumb::exec::frame(r) == (Frame {
                mem,
                storage_bits: storage_bits as int,
                stack_top: sp,
            }),
            r.storage_bits == storage_bits,
            r.zero == zero,
            r.one == one,
            r.rstack@ == rstack@,
            forall|i: int| 0 <= i < 8 ==> (#[trigger] r.loop_sites@[i]) is None,
            crate::word::constants::<H>(zero, one) && consistent::<H>(regs@, constants@) ==> {
                &&& crate::thumb::machine::live::<H>(r)
                &&& crate::thumb::machine::cpu::<H>(r) == initial(
                    crate::thumb::machine::words::<H>(regs@),
                    crate::thumb::machine::present(constants@),
                    rstack@,
                    pc,
                    sp,
                )
            },
    {
        let clear0 = Flag { wire: FlagWire::Direct(keep::<H>(&zero)), value: Some(false) };
        let clear1 = Flag { wire: FlagWire::Direct(keep::<H>(&zero)), value: Some(false) };
        let clear2 = Flag { wire: FlagWire::Direct(keep::<H>(&zero)), value: Some(false) };
        let clear3 = Flag { wire: FlagWire::Direct(keep::<H>(&zero)), value: Some(false) };
        let clear4 = Flag { wire: FlagWire::Direct(keep::<H>(&zero)), value: Some(false) };
        let ghost before = crate::thumb::machine::words::<H>(regs@);
        let ghost known = crate::thumb::machine::present(constants@);
        let mut machine = Machine {
            mem,
            rstack,
            storage_bits,
            pc,
            regs,
            constants,
            zero,
            one,
            sp,
            stack_top: sp,
            rsp: 0,
            offsets: [None; 16],
            flags: [clear0, clear1, clear2, clear3, clear4],
            itstate: 0,
            security_state: SecurityState::Secure,
            loop_sites: [None; 8],
        };
        machine.offsets[13] = Some(0);
        machine.constants[13] = None;
        let word = machine.word_from_constant::<H>(sp);
        machine.regs[13] = word;
        proof {
            if crate::word::constants::<H>(zero, one) && consistent::<H>(regs@, constants@) {
                let after = crate::thumb::machine::cpu::<H>(machine);
                let expected = initial(before, known, rstack@, pc, sp);
                assert(after.regs =~= expected.regs);
                assert(after.known =~= expected.known);
                assert(after.offsets =~= expected.offsets);
                assert(after.flags =~= expected.flags);
                assert(after.flags_known =~= expected.flags_known);
                assert(after.sites =~= expected.sites);
            }
        }
        machine
    }
}

/// Copy a control stack out.
pub fn copy_stack(from: &Vec<u32>, to: &mut [u32])
    requires
        from@.len() == old(to)@.len(),
    ensures
        final(to)@ == from@,
{
    let mut i: usize = 0;
    while i < from.len()
        invariant
            i <= from@.len() == to@.len(),
            forall|j: int| 0 <= j < i ==> to@[j] == from@[j],
        decreases from@.len() - i,
    {
        to[i] = from[i];
        i = i + 1;
    }
    assert(to@ =~= from@);
}

/// Copy a control stack in.
pub fn own_stack(from: &[u32]) -> (r: Vec<u32>)
    ensures
        r@ == from@,
{
    let mut r: Vec<u32> = Vec::new();
    let mut i: usize = 0;
    while i < from.len()
        invariant
            i <= from@.len(),
            r@.len() == i,
            forall|j: int| 0 <= j < i ==> r@[j] == from@[j],
        decreases from@.len() - i,
    {
        r.push(from[i]);
        i = i + 1;
    }
    assert(r@ =~= from@);
    r
}

/// The state that a machine starts in on the caller's buffers.
pub open spec fn entered<H: ContextWithValue<bool> + ?Sized>(
    regs: Seq<[H::Wrapped; 32]>,
    constants: Seq<Option<u32>>,
    rstack: Seq<u32>,
    pc: u32,
    sp: u32,
) -> Cpu {
    initial(
        crate::thumb::machine::words::<H>(regs),
        crate::thumb::machine::present(constants),
        rstack,
        pc,
        sp,
    )
}

/// The caller's buffers hold the state in which a program exited.
pub open spec fn left_behind<H: ContextWithValue<bool> + ?Sized>(
    regs: Seq<[H::Wrapped; 32]>,
    constants: Seq<Option<u32>>,
    rstack: Seq<u32>,
    cells: Seq<bool>,
    end: Step,
) -> bool {
    match end {
        Step::Exit { cpu, cells: c } => {
            &&& cpu.regs == crate::thumb::machine::words::<H>(regs)
            &&& cpu.known == crate::thumb::machine::present(constants)
            &&& cpu.rstack == rstack
            &&& c == cells
            &&& consistent::<H>(regs, constants)
        },
        _ => false,
    }
}

/// A run on the caller's buffers ended where its steps lead, and left the state
/// in which it exited, where it did.
pub open spec fn ran_on<H: ArmHandler<bool> + ?Sized>(
    r: Result<(), ErtError<H::Error>>,
    regs: Seq<[<H as ContextWithValue<bool>>::Wrapped; 32]>,
    constants: Seq<Option<u32>>,
    rstack: Seq<u32>,
    cells_after: Seq<bool>,
    c: Cpu,
    cells: Seq<bool>,
    frame: Frame<'_>,
    answers: Seq<Answers>,
) -> bool {
    &&& crate::thumb::exec::ended::<H, ()>(r, c, cells, frame, answers)
    &&& r is Ok ==> left_behind::<H>(
        regs,
        constants,
        rstack,
        cells_after,
        crate::thumb::exec::runs(c, cells, frame, answers),
    )
}

/// Run a machine on the caller's buffers.
fn run_buffers<W, E, H>(
    t: &mut H,
    storage: &mut H::Storage,
    storage_bits: usize,
    mem: RawMemory<'_>,
    rstack: &mut [u32],
    pc: u32,
    regs: &mut [[W; 32]; 16],
    reg_consts: &mut [Option<u32>; 16],
    zero: W,
    one: W,
    sp: u32,
) -> (r: Result<(), ErtError<E>>) where
    W: Clone,
    H: ArmHandler<bool> + ContextWithValue<bool, Wrapped = W> + HasError<Error = E> + ?Sized,

    requires
        crate::thumb::control::handles::<H>(),
        storage::reachable::<H>(old(storage), storage_bits as int, zero, one),
    ensures
        crate::thumb::control::unfailing::<H>() ==> crate::thumb::flags::unemitted(r),
        r matches Err(ErtError::Emitted(error)) ==> crate::thumb::control::stems::<H>(error),
        storage::reachable::<H>(final(storage), storage_bits as int, zero, one),
        final(rstack)@.len() == old(rstack)@.len(),
        H::tracks() && consistent::<H>(old(regs)@, old(reg_consts)@) ==> exists|answers: Seq<Answers>|
            #[trigger] ran_on::<H>(
                r,
                final(regs)@,
                final(reg_consts)@,
                final(rstack)@,
                H::cells(final(storage)),
                entered::<H>(old(regs)@, old(reg_consts)@, old(rstack)@, pc, sp),
                H::cells(old(storage)),
                Frame { mem, storage_bits: storage_bits as int, stack_top: sp },
                answers,
            ),
{
    let held = own_stack(rstack);
    let kept = keep_file::<H>(regs);
    let mut machine = Machine::new::<H>(
        mem,
        held,
        storage_bits,
        pc,
        kept,
        *reg_consts,
        zero,
        one,
        sp,
    );
    let ghost start = machine;
    proof {
        if H::tracks() && consistent::<H>(regs@, reg_consts@) {
            assert(crate::thumb::machine::words::<H>(kept@) =~= crate::thumb::machine::words::<H>(
                regs@,
            ));
            assert forall|i: int| 0 <= i < 16 implies ((#[trigger] reg_consts@[i]) matches Some(v)
                ==> crate::context::bits::<H>(kept@[i]@) == crate::concrete::word(v)) by {
                assert(crate::thumb::machine::words::<H>(kept@)[i]
                    == crate::thumb::machine::words::<H>(regs@)[i]);
            }
        }
    }
    let r = machine.run(t, storage);
    proof {
        if H::tracks() && consistent::<H>(regs@, reg_consts@) {
            let answers = choose|answers: Seq<Answers>| #[trigger]
                crate::thumb::exec::ran::<H>(
                    machine,
                    H::cells(storage),
                    r,
                    crate::thumb::machine::cpu::<H>(start),
                    H::cells(old(storage)),
                    crate::thumb::exec::frame(start),
                    answers,
                );
            assert(ran_on::<H>(
                r,
                machine.regs@,
                machine.constants@,
                machine.rstack@,
                H::cells(storage),
                crate::thumb::machine::cpu::<H>(start),
                H::cells(old(storage)),
                crate::thumb::exec::frame(start),
                answers,
            ));
        }
    }
    copy_stack(&machine.rstack, rstack);
    *reg_consts = machine.constants;
    *regs = machine.regs;
    r
}

/// The stack pointer of a virtual stack of `storage_bits` bits, where it is
/// one that a program may start with: whole bytes, eight-byte aligned, and
/// addressable.
pub open spec fn top_of_stack(storage_bits: int) -> Option<u32> {
    if storage_bits % 64 != 0 || storage_bits / 8 > u32::MAX {
        None
    } else {
        Some((storage_bits / 8) as u32)
    }
}

/// Execute Thumb instructions until the supported exit `SVC #0`.
///
/// `pc` is an odd Thumb entry pointer. The interpreter initializes `sp` to the
/// end of the caller-declared storage capacity and requires that initial byte
/// address to be eight-byte aligned.
pub fn ert_emit<W, E, H>(
    t: &mut H,
    storage: &mut H::Storage,
    storage_bits: usize,
    mem: RawMemory<'_>,
    rstack: &mut [u32],
    pc: u32,
    regs: &mut [[W; 32]; 16],
    reg_consts: &mut [Option<u32>; 16],
    zero: W,
    one: W,
) -> (r: Result<(), ErtError<E>>) where
    W: Clone,
    H: ArmHandler<bool> + ContextWithValue<bool, Wrapped = W> + HasError<Error = E> + ?Sized,

    requires
        crate::thumb::control::handles::<H>(),
        storage::reachable::<H>(old(storage), storage_bits as int, zero, one),
    ensures
        crate::thumb::control::unfailing::<H>() ==> crate::thumb::flags::unemitted(r),
        r matches Err(ErtError::Emitted(error)) ==> crate::thumb::control::stems::<H>(error),
        top_of_stack(storage_bits as int) is None || pc % 2 == 0 ==> {
            &&& r matches Err(ErtError::Unexpected)
            &&& final(regs)@ == old(regs)@
            &&& final(reg_consts)@ == old(reg_consts)@
            &&& final(rstack)@ == old(rstack)@
            &&& crate::word::untouched::<H>(old(t), final(t))
            &&& crate::word::untouched::<H::Storage>(old(storage), final(storage))
        },
        final(rstack)@.len() == old(rstack)@.len(),
        H::tracks() && top_of_stack(storage_bits as int) is Some && pc % 2 == 1 && consistent::<H>(
            old(regs)@,
            old(reg_consts)@,
        ) ==> exists|answers: Seq<Answers>|
            #[trigger] ran_on::<H>(
                r,
                final(regs)@,
                final(reg_consts)@,
                final(rstack)@,
                H::cells(final(storage)),
                entered::<H>(old(regs)@, old(reg_consts)@, old(rstack)@, (pc - 1) as u32, top_of_stack(storage_bits as int)->0),
                H::cells(old(storage)),
                Frame { mem, storage_bits: storage_bits as int, stack_top: top_of_stack(storage_bits as int)->0 },
                answers,
            ),
{
    if storage_bits % 8 != 0 {
        return Err(ErtError::Unexpected);
    }
    let bytes: usize = storage_bits / 8;
    if bytes as u64 > u32::MAX as u64 {
        return Err(ErtError::Unexpected);
    }
    let sp: u32 = bytes as u32;
    if sp % 8 != 0 || pc % 2 == 0 {
        return Err(ErtError::Unexpected);
    }
    run_buffers(t, storage, storage_bits, mem, rstack, pc - 1, regs, reg_consts, zero, one, sp)
}

/// Bytes rounded up to a multiple of eight.
pub open spec fn round_up(bytes: int) -> int {
    ((bytes + 7) / 8) * 8
}

/// How many of `values` words go on the stack.
pub open spec fn spilled(values: int) -> int {
    if values > 4 {
        values - 4
    } else {
        0
    }
}

/// The stack pointer below room for the words that do not fit in registers.
pub open spec fn abi_top(storage_bits: int, values: int) -> Option<u32> {
    let room = round_up(4 * spilled(values));
    if storage_bits % 8 != 0 || storage_bits / 8 > u32::MAX || room > storage_bits / 8 {
        None
    } else {
        Some((storage_bits / 8 - room) as u32)
    }
}

fn abi_stack_pointer(storage_bits: usize, values: usize) -> (r: Option<u32>)
    ensures
        r == abi_top(storage_bits as int, values as int),
{
    if storage_bits % 8 != 0 {
        return None;
    }
    let extra: usize = if values > 4 {
        values - 4
    } else {
        0
    };
    let bytes: usize = storage_bits / 8;
    if bytes as u64 > u32::MAX as u64 {
        return None;
    }
    if extra > bytes / 4 {
        return None;
    }
    let room: u64 = (((extra as u64) * 4 + 7) / 8) * 8;
    if room > bytes as u64 {
        return None;
    }
    Some((bytes as u64 - room) as u32)
}

/// Where the words beyond the fourth start.
pub open spec fn spill_start(sp: u32, index: int) -> int {
    8 * sp + 32 * (index - 4)
}

/// The registers after the first four arguments are placed.
pub open spec fn placed_regs(
    regs: Seq<Seq<bool>>,
    args: Seq<Seq<bool>>,
) -> Seq<Seq<bool>> {
    Seq::new(
        regs.len(),
        |i: int|
            if i < 4 && i < args.len() {
                args[i]
            } else {
                regs[i]
            },
    )
}

pub open spec fn placed_known(known: Seq<bool>, args: Seq<bool>) -> Seq<bool> {
    Seq::new(
        known.len(),
        |i: int|
            if i < 4 && i < args.len() {
                args[i]
            } else {
                known[i]
            },
    )
}

/// The cells after the arguments below `count` that do not fit in registers
/// are placed.
pub open spec fn placed_cells(cells: Seq<bool>, sp: u32, args: Seq<Seq<bool>>, count: int) -> Seq<
    bool,
>
    decreases count,
{
    if count <= 4 {
        cells
    } else {
        storage::overwrite(
            placed_cells(cells, sp, args, count - 1),
            spill_start(sp, count - 1),
            args[count - 1],
        )
    }
}

/// The argument words, and which of them the host knows.
pub open spec fn arg_words<H: ContextWithValue<bool> + ?Sized>(
    args: Seq<([H::Wrapped; 32], Option<u32>)>,
) -> Seq<Seq<bool>> {
    Seq::new(args.len(), |i: int| crate::context::bits::<H>(args[i].0@))
}

pub open spec fn arg_known<W>(args: Seq<([W; 32], Option<u32>)>) -> Seq<bool> {
    Seq::new(args.len(), |i: int| args[i].1 is Some)
}

/// Arguments whose host-known values are what their wires spell.
pub open spec fn args_consistent<H: ContextWithValue<bool> + ?Sized>(
    args: Seq<([H::Wrapped; 32], Option<u32>)>,
) -> bool {
    forall|i: int|
        0 <= i < args.len() ==> ((#[trigger] args[i]).1 matches Some(v) ==> crate::context::bits::<
            H,
        >(args[i].0@) == crate::concrete::word(v))
}

/// Place the arguments of a call.
fn write_abi_args<W, E, H, const N: usize>(
    t: &mut H,
    storage: &mut H::Storage,
    regs: &mut [[W; 32]; 16],
    reg_consts: &mut [Option<u32>; 16],
    storage_bits: usize,
    sp: u32,
    args: &[([W; 32], Option<u32>); N],
    zero: &W,
    one: &W,
) -> (r: Result<(), E>) where
    W: Clone,
    H: ArmHandler<bool> + ContextWithValue<bool, Wrapped = W> + HasError<Error = E> + ?Sized,

    requires
        storage::reachable::<H>(old(storage), storage_bits as int, *zero, *one),
        8 * sp + 32 * spilled(N as int) <= storage_bits,
    ensures
        storage::reachable::<H>(final(storage), storage_bits as int, *zero, *one),
        H::tracks() && r is Ok ==> {
            &&& H::cells(final(storage)) == placed_cells(
                H::cells(old(storage)),
                sp,
                arg_words::<H>(args@),
                N as int,
            )
            &&& crate::thumb::machine::words::<H>(final(regs)@) == placed_regs(
                crate::thumb::machine::words::<H>(old(regs)@),
                arg_words::<H>(args@),
            )
            &&& crate::thumb::machine::present(final(reg_consts)@) == placed_known(
                crate::thumb::machine::present(old(reg_consts)@),
                arg_known(args@),
            )
            &&& consistent::<H>(old(regs)@, old(reg_consts)@) && args_consistent::<H>(args@)
                ==> consistent::<H>(final(regs)@, final(reg_consts)@)
        },
        <H as ContextWithValue<bool>>::reliable() ==> r is Ok,
        r matches Err(error) ==> <H as ContextWithValue<bool>>::errs(error),
{
    let ghost words = arg_words::<H>(args@);
    let mut i: usize = 0;
    while i < N
        invariant
            i <= N,
            words == arg_words::<H>(args@),
            8 * sp + 32 * spilled(N as int) <= storage_bits,
            storage::reachable::<H>(storage, storage_bits as int, *zero, *one),
            H::tracks() ==> {
                &&& H::cells(storage) == placed_cells(
                    H::cells(old(storage)),
                    sp,
                    words,
                    i as int,
                )
                &&& forall|j: int|
                    0 <= j < 16 ==> crate::context::bits::<H>(#[trigger] regs@[j]@) == if j < 4 && j
                        < i {
                        words[j]
                    } else {
                        crate::context::bits::<H>(old(regs)@[j]@)
                    }
                &&& forall|j: int|
                    0 <= j < 16 ==> (#[trigger] reg_consts@[j]) == if j < 4 && j < i {
                        args@[j].1
                    } else {
                        old(reg_consts)@[j]
                    }
            },
        decreases N - i,
    {
        if i < 4 {
            regs[i] = keep_word::<H, 32>(&args[i].0);
            reg_consts[i] = args[i].1;
        } else {
            let start: usize = (sp as usize) * 8 + 32 * (i - 4);
            storage::write_word::<H, 32>(t, storage, start, &args[i].0, 32, zero, one)?;
            proof {
                assert(words[i as int].take(32) =~= words[i as int]);
            }
        }
        i = i + 1;
    }
    proof {
        if H::tracks() {
            assert(crate::thumb::machine::words::<H>(regs@) =~= placed_regs(
                crate::thumb::machine::words::<H>(old(regs)@),
                words,
            ));
            assert(crate::thumb::machine::present(reg_consts@) =~= placed_known(
                crate::thumb::machine::present(old(reg_consts)@),
                arg_known(args@),
            ));
            if consistent::<H>(old(regs)@, old(reg_consts)@) && args_consistent::<H>(args@) {
                assert forall|j: int| 0 <= j < 16 implies ((#[trigger] reg_consts@[j]) matches Some(v)
                    ==> crate::context::bits::<H>(regs@[j]@) == crate::concrete::word(v)) by {
                    if j < 4 && j < N {
                        assert(reg_consts@[j] == args@[j].1);
                    } else {
                        assert(reg_consts@[j] == old(reg_consts)@[j]);
                    }
                }
            }
        }
    }
    Ok(())
}

/// Result `index` of a call.
pub open spec fn abi_result(
    regs: Seq<Seq<bool>>,
    cells: Seq<bool>,
    sp: u32,
    index: int,
) -> Seq<bool> {
    if index < 4 {
        regs[index]
    } else {
        cells.subrange(spill_start(sp, index), spill_start(sp, index) + 32)
    }
}

/// Results before they are read: words of zeros that the host does not know.
fn blank_results<W: Clone, const M: usize>(zero: &W) -> (r: [([W; 32], Option<u32>); M])
    ensures
        forall|i: int| 0 <= i < M ==> (#[trigger] r@[i]).1 is None,
        forall|i: int, k: int|
            0 <= i < M && 0 <= k < 32 ==> cloned(*zero, #[trigger] r@[i].0@[k]),
{
    let blank: ([W; 32], Option<u32>) = (fill(zero), None);
    let mut r: [([W; 32], Option<u32>); M] = fill(&blank);
    let mut i: usize = 0;
    while i < M
        invariant
            i <= M,
            forall|j: int| 0 <= j < i ==> (#[trigger] r@[j]).1 is None,
            forall|j: int, k: int|
                0 <= j < i && 0 <= k < 32 ==> cloned(*zero, #[trigger] r@[j].0@[k]),
        decreases M - i,
    {
        r[i] = (fill(zero), None);
        i = i + 1;
    }
    r
}

/// Read the results of a call.
fn read_abi_results<W, E, H, const M: usize>(
    t: &mut H,
    storage: &mut H::Storage,
    regs: &[[W; 32]; 16],
    reg_consts: &[Option<u32>; 16],
    storage_bits: usize,
    sp: u32,
    zero: &W,
    one: &W,
) -> (r: Result<[([W; 32], Option<u32>); M], E>) where
    W: Clone,
    H: ArmHandler<bool> + ContextWithValue<bool, Wrapped = W> + HasError<Error = E> + ?Sized,

    requires
        storage::reachable::<H>(old(storage), storage_bits as int, *zero, *one),
        8 * sp + 32 * spilled(M as int) <= storage_bits,
    ensures
        H::tracks() ==> H::cells(final(storage)) == H::cells(old(storage)),
        H::tracks() ==> (r matches Ok(results) ==> forall|i: int|
            0 <= i < M ==> {
                &&& crate::context::bits::<H>((#[trigger] results@[i]).0@) == abi_result(
                    crate::thumb::machine::words::<H>(regs@),
                    H::cells(old(storage)),
                    sp,
                    i,
                )
                &&& results@[i].1 == if i < 4 {
                    reg_consts@[i]
                } else {
                    None
                }
            }),
        <H as ContextWithValue<bool>>::reliable() ==> r is Ok,
        r matches Err(error) ==> <H as ContextWithValue<bool>>::errs(error),
{
    let mut results = blank_results::<W, M>(zero);
    let ghost cells = H::cells(storage);
    let ghost words = crate::thumb::machine::words::<H>(regs@);
    let mut i: usize = 0;
    while i < M
        invariant
            i <= M,
            8 * sp + 32 * spilled(M as int) <= storage_bits,
            words == crate::thumb::machine::words::<H>(regs@),
            cells == H::cells(old(storage)),
            storage::reachable::<H>(storage, storage_bits as int, *zero, *one),
            H::tracks() ==> H::cells(storage) == cells,
            H::tracks() ==> forall|j: int|
                0 <= j < i ==> {
                    &&& crate::context::bits::<H>((#[trigger] results@[j]).0@) == abi_result(
                        words,
                        cells,
                        sp,
                        j,
                    )
                    &&& results@[j].1 == if j < 4 {
                        reg_consts@[j]
                    } else {
                        None
                    }
                },
        decreases M - i,
    {
        results[i] = if i < 4 {
            (keep_word::<H, 32>(&regs[i]), reg_consts[i])
        } else {
            let start: usize = (sp as usize) * 8 + 32 * (i - 4);
            (storage::read_word::<H, 32>(t, storage, start, zero, one)?, None)
        };
        i = i + 1;
    }
    Ok(results)
}

/// What a called function returns: the words in the result registers and, for
/// the rest, on the stack, of the state in which its program exits.
pub open spec fn returned<H: ContextWithValue<bool> + ?Sized>(
    results: Seq<([H::Wrapped; 32], Option<u32>)>,
    sp: u32,
    end: Step,
) -> bool {
    match end {
        Step::Exit { cpu, cells } => forall|i: int|
            0 <= i < results.len() ==> {
                &&& crate::context::bits::<H>((#[trigger] results[i]).0@) == abi_result(
                    cpu.regs,
                    cells,
                    sp,
                    i,
                )
                &&& (results[i].1 is Some) == (i < 4 && cpu.known[i])
                &&& results[i].1 matches Some(v) ==> crate::context::bits::<H>(results[i].0@)
                    == crate::concrete::word(v)
            },
        _ => false,
    }
}

/// The state that a called function starts in.
pub open spec fn entered_with<H: ContextWithValue<bool> + ?Sized>(
    regs: Seq<[H::Wrapped; 32]>,
    constants: Seq<Option<u32>>,
    rstack: Seq<u32>,
    args: Seq<([H::Wrapped; 32], Option<u32>)>,
    pc: u32,
    sp: u32,
) -> Cpu {
    initial(
        placed_regs(crate::thumb::machine::words::<H>(regs), arg_words::<H>(args)),
        placed_known(crate::thumb::machine::present(constants), arg_known(args)),
        rstack,
        pc,
        sp,
    )
}

/// A call ended where the steps of the called function lead: it returned its
/// results and left the state in which it exited in the caller's buffers, or it
/// failed as they do. A context that fails may also do so while the arguments
/// are placed or the results are read.
pub open spec fn called_on<H: ArmHandler<bool> + ?Sized>(
    r: Result<Seq<([<H as ContextWithValue<bool>>::Wrapped; 32], Option<u32>)>, ErtError<H::Error>>,
    regs: Seq<[<H as ContextWithValue<bool>>::Wrapped; 32]>,
    constants: Seq<Option<u32>>,
    rstack: Seq<u32>,
    cells_after: Seq<bool>,
    c: Cpu,
    cells: Seq<bool>,
    frame: Frame<'_>,
    answers: Seq<Answers>,
) -> bool {
    let end = crate::thumb::exec::runs(c, cells, frame, answers);
    match r {
        Ok(results) => {
            &&& crate::thumb::exec::sincere::<H>(c, cells, frame, answers)
            &&& returned::<H>(results, frame.stack_top, end)
            &&& left_behind::<H>(regs, constants, rstack, cells_after, end)
        },
        Err(ErtError::Emitted(error)) => {
            ||| crate::context::erred::<H>(error)
            ||| crate::thumb::exec::halted::<H>(c, cells, frame, answers, error)
        },
        _ => crate::thumb::exec::ended::<H, Seq<([<H as ContextWithValue<bool>>::Wrapped; 32], Option<u32>)>>(
            r,
            c,
            cells,
            frame,
            answers,
        ),
    }
}

/// The results as a sequence.
pub open spec fn result_seq<T, E, const M: usize>(r: Result<[T; M], E>) -> Result<Seq<T>, E> {
    match r {
        Ok(a) => Ok(a@),
        Err(e) => Err(e),
    }
}

/// The larger of two counts.
pub open spec fn larger(a: int, b: int) -> int {
    if a > b {
        a
    } else {
        b
    }
}

/// A call that the calling convention accepts: room on the stack for what
/// does not fit in registers, an aligned stack pointer, and a Thumb address.
pub open spec fn callable_at(storage_bits: int, values: int, pc: u32) -> bool {
    pc % 2 == 1 && (abi_top(storage_bits, values) matches Some(sp) && sp % 8 == 0)
}

/// Invoke an Arm Thumb function through the AAPCS32 word ABI.
///
/// The first four arguments and results occupy `r0` through `r3`; remaining
/// words use the caller-provided symbolic storage. `storage_bits` must be a
/// byte-length divisible by eight so that the public interface's `sp` stays
/// eight-byte aligned. `pc` must be an odd Thumb function pointer.
pub fn ert_func<W, E, const N: usize, const M: usize, H>(
    t: &mut H,
    storage: &mut H::Storage,
    storage_bits: usize,
    mem: RawMemory<'_>,
    rstack: &mut [u32],
    pc: u32,
    regs: &mut [[W; 32]; 16],
    reg_consts: &mut [Option<u32>; 16],
    zero: W,
    one: W,
    args: [([W; 32], Option<u32>); N],
) -> (r: Result<[([W; 32], Option<u32>); M], ErtError<E>>) where
    W: Clone,
    H: ArmHandler<bool> + ContextWithValue<bool, Wrapped = W> + HasError<Error = E> + ?Sized,

    requires
        crate::thumb::control::handles::<H>(),
        storage::reachable::<H>(old(storage), storage_bits as int, zero, one),
    ensures
        crate::thumb::control::unfailing::<H>() ==> crate::thumb::flags::unemitted(r),
        r matches Err(ErtError::Emitted(error)) ==> crate::thumb::control::stems::<H>(error),
        !callable_at(storage_bits as int, larger(N as int, M as int), pc) ==> {
            &&& r matches Err(ErtError::Unexpected)
            &&& final(regs)@ == old(regs)@
            &&& final(reg_consts)@ == old(reg_consts)@
            &&& final(rstack)@ == old(rstack)@
            &&& crate::word::untouched::<H>(old(t), final(t))
            &&& crate::word::untouched::<H::Storage>(old(storage), final(storage))
        },
        H::tracks() && callable_at(storage_bits as int, larger(N as int, M as int), pc)
            && consistent::<H>(old(regs)@, old(reg_consts)@) && args_consistent::<H>(args@) ==> {
            let sp = abi_top(storage_bits as int, larger(N as int, M as int))->0;
            exists|answers: Seq<Answers>|
                #[trigger] called_on::<H>(
                    result_seq(r),
                    final(regs)@,
                    final(reg_consts)@,
                    final(rstack)@,
                    H::cells(final(storage)),
                    entered_with::<H>(
                        old(regs)@,
                        old(reg_consts)@,
                        old(rstack)@,
                        args@,
                        (pc - 1) as u32,
                        sp,
                    ),
                    placed_cells(H::cells(old(storage)), sp, arg_words::<H>(args@), N as int),
                    Frame { mem, storage_bits: storage_bits as int, stack_top: sp },
                    answers,
                )
        },
{
    let values: usize = if N > M {
        N
    } else {
        M
    };
    let sp: u32 = match abi_stack_pointer(storage_bits, values) {
        Some(sp) => sp,
        None => return Err(ErtError::Unexpected),
    };
    if sp % 8 != 0 || pc % 2 == 0 {
        return Err(ErtError::Unexpected);
    }
    let ghost start = entered_with::<H>(
        regs@,
        reg_consts@,
        rstack@,
        args@,
        (pc - 1) as u32,
        sp,
    );
    let ghost cells = placed_cells(H::cells(storage), sp, arg_words::<H>(args@), N as int);
    let ghost frame = Frame { mem, storage_bits: storage_bits as int, stack_top: sp };
    let placed = write_abi_args(
        t,
        storage,
        regs,
        reg_consts,
        storage_bits,
        sp,
        &args,
        &zero,
        &one,
    );
    if let Err(error) = placed {
        proof {
            assert(called_on::<H>(
                Err(ErtError::Emitted(error)),
                regs@,
                reg_consts@,
                rstack@,
                H::cells(storage),
                start,
                cells,
                frame,
                Seq::empty(),
            ));
        }
        return Err(ErtError::Emitted(error));
    }
    let kept_zero = keep::<H>(&zero);
    let kept_one = keep::<H>(&one);
    let ran = run_buffers(
        t,
        storage,
        storage_bits,
        mem,
        rstack,
        pc - 1,
        regs,
        reg_consts,
        kept_zero,
        kept_one,
        sp,
    );
    let r = match ran {
        Ok(_) => emitted(
            read_abi_results(t, storage, regs, reg_consts, storage_bits, sp, &zero, &one),
        ),
        Err(error) => Err(error),
    };
    proof {
        if H::tracks() && consistent::<H>(old(regs)@, old(reg_consts)@) && args_consistent::<H>(
            args@,
        ) {
            let answers = choose|answers: Seq<Answers>| #[trigger]
                ran_on::<H>(
                    ran,
                    regs@,
                    reg_consts@,
                    rstack@,
                    H::cells(storage),
                    start,
                    cells,
                    frame,
                    answers,
                );
            assert(called_on::<H>(
                result_seq(r),
                regs@,
                reg_consts@,
                rstack@,
                H::cells(storage),
                start,
                cells,
                frame,
                answers,
            ));
        }
    }
    r
}

} // verus!
