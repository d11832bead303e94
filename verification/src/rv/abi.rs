//! The RISC-V argument and result convention.
use crate::context::{keep, ContextWithValue, HasError};
use crate::memory::RawMemory;
use crate::rv::control::Answers;
use crate::rv::entry::{run_buffers, RstackWord};
use crate::rv::handler::RvHandler;
use crate::rv::machine::{ErtError, Frame, Hart, Step, emitted};
use crate::storage;
use crate::word::{fill, keep_word};
use vstd::prelude::*;

verus! {

/// The first argument and result register, `a0`.
pub const FIRST: usize = 10;

/// How many words travel in registers.
pub const IN_REGISTERS: usize = 8;

/// How many of `values` words go on the stack.
pub open spec fn spilled(values: int) -> int {
    if values > 8 {
        values - 8
    } else {
        0
    }
}

/// The stack pointer below room for the words that do not fit in registers.
pub open spec fn abi_top(storage_bits: int, values: int, bits: nat) -> Option<u64> {
    let room = spilled(values) * (bits as int / 8);
    if storage_bits % 8 != 0 || room > storage_bits / 8 || !crate::wide::fits(
        (storage_bits / 8) as u64,
        bits,
    ) {
        None
    } else {
        Some((storage_bits / 8 - room) as u64)
    }
}

pub fn abi_stack_pointer<const BITS: usize>(storage_bits: usize, values: usize) -> (r: Option<u64>)
    requires
        BITS == 32 || BITS == 64,
    ensures
        r == abi_top(storage_bits as int, values as int, BITS as nat),
        r matches Some(sp) ==> crate::wide::fits(sp, BITS as nat) && 8 * sp + BITS * spilled(
            values as int,
        ) <= storage_bits,
{
    if storage_bits % 8 != 0 {
        return None;
    }
    let extra: usize = if values > 8 {
        values - 8
    } else {
        0
    };
    let bytes: usize = storage_bits / 8;
    let slot: usize = BITS / 8;
    proof {
        if BITS == 32 {
            assert(slot == 4);
        } else {
            assert(slot == 8);
        }
    }
    if BITS == 32 && bytes as u64 > 0xffff_ffff {
        return None;
    }
    if extra > bytes / slot {
        proof {
            assert(spilled(values as int) * (BITS as int / 8) > bytes) by (nonlinear_arith)
                requires
                    spilled(values as int) == extra,
                    BITS as int / 8 == slot,
                    slot == 4 || slot == 8,
                    extra > bytes as int / slot as int,
            ;
        }
        return None;
    }
    proof {
        assert(extra * slot <= bytes) by (nonlinear_arith)
            requires
                slot == 4 || slot == 8,
                extra <= bytes as int / slot as int,
        ;
        assert(8 * (extra * slot) == BITS * extra) by (nonlinear_arith)
            requires
                BITS == 8 * slot,
        ;
    }
    Some((bytes - extra * slot) as u64)
}

/// Where the words beyond the eighth start.
pub open spec fn spill_start(sp: u64, index: int, bits: nat) -> int {
    8 * sp + bits * (index - 8)
}

/// The registers after the arguments below `count` are placed.
pub open spec fn placed_regs(regs: Seq<Seq<bool>>, args: Seq<Seq<bool>>, count: int) -> Seq<
    Seq<bool>,
> {
    Seq::new(
        regs.len(),
        |i: int|
            if 10 <= i < 18 && i - 10 < count {
                args[i - 10]
            } else {
                regs[i]
            },
    )
}

/// What the host knows of the registers after the arguments below `count` are
/// placed.
pub open spec fn placed_constants(
    constants: Seq<Option<u64>>,
    args: Seq<Option<u64>>,
    count: int,
) -> Seq<Option<u64>> {
    Seq::new(
        constants.len(),
        |i: int|
            if 10 <= i < 18 && i - 10 < count {
                args[i - 10]
            } else {
                constants[i]
            },
    )
}

/// The cells after the arguments below `count` that do not fit in registers
/// are placed.
pub open spec fn placed_cells(
    cells: Seq<bool>,
    sp: u64,
    args: Seq<Seq<bool>>,
    count: int,
    bits: nat,
) -> Seq<bool>
    decreases count,
{
    if count <= 8 {
        cells
    } else {
        storage::overwrite(
            placed_cells(cells, sp, args, count - 1, bits),
            spill_start(sp, count - 1, bits),
            args[count - 1],
        )
    }
}

/// The argument words.
pub open spec fn arg_words<H: ContextWithValue<bool> + ?Sized, const BITS: usize>(
    args: Seq<([H::Wrapped; BITS], Option<u64>)>,
) -> Seq<Seq<bool>> {
    Seq::new(args.len(), |i: int| crate::context::bits::<H>(args[i].0@))
}

/// What the host knows of the arguments.
pub open spec fn arg_constants<W, const BITS: usize>(args: Seq<([W; BITS], Option<u64>)>) -> Seq<
    Option<u64>,
> {
    Seq::new(args.len(), |i: int| args[i].1)
}

/// Arguments whose host-known values are what their wires spell.
pub open spec fn args_agree<H: ContextWithValue<bool> + ?Sized, const BITS: usize>(
    args: Seq<([H::Wrapped; BITS], Option<u64>)>,
) -> bool {
    forall|i: int|
        0 <= i < args.len() ==> ((#[trigger] args[i]).1 matches Some(v) ==> crate::wide::fits(
            v,
            BITS as nat,
        ) && crate::context::bits::<H>(args[i].0@) == crate::rv::machine::spelled(v, BITS as nat))
}

/// Place the arguments of a call.
pub fn write_abi_args<W, E, H, const BITS: usize>(
    t: &mut H,
    storage: &mut H::Storage,
    regs: &mut [[W; BITS]; 32],
    reg_consts: &mut [Option<u64>; 32],
    storage_bits: usize,
    sp: u64,
    args: &[([W; BITS], Option<u64>)],
    zero: &W,
    one: &W,
) -> (r: Result<(), E>) where
    W: Clone,
    H: RvHandler<bool, BITS> + ContextWithValue<bool, Wrapped = W> + HasError<Error = E> + ?Sized,

    requires
        BITS == 32 || BITS == 64,
        storage::reachable::<H>(old(storage), storage_bits as int, *zero, *one),
        8 * sp + BITS * spilled(args@.len() as int) <= storage_bits,
    ensures
        storage::reachable::<H>(final(storage), storage_bits as int, *zero, *one),
        H::tracks() && r is Ok ==> {
            &&& H::cells(final(storage)) == placed_cells(
                H::cells(old(storage)),
                sp,
                arg_words::<H, BITS>(args@),
                args@.len() as int,
                BITS as nat,
            )
            &&& crate::rv::machine::words::<H, BITS>(final(regs)@) == placed_regs(
                crate::rv::machine::words::<H, BITS>(old(regs)@),
                arg_words::<H, BITS>(args@),
                args@.len() as int,
            )
            &&& final(reg_consts)@ == placed_constants(
                old(reg_consts)@,
                arg_constants(args@),
                args@.len() as int,
            )
            &&& crate::rv::machine::constants_agree::<H, BITS>(old(regs)@, old(reg_consts)@)
                && args_agree::<H, BITS>(args@) ==> crate::rv::machine::constants_agree::<H, BITS>(
                final(regs)@,
                final(reg_consts)@,
            )
        },
        <H as ContextWithValue<bool>>::reliable() ==> r is Ok,
        r matches Err(error) ==> <H as ContextWithValue<bool>>::errs(error),
{
    let ghost given = arg_words::<H, BITS>(args@);
    let total: usize = args.len();
    let mut i: usize = 0;
    while i < total
        invariant
            i <= total == args@.len(),
            BITS == 32 || BITS == 64,
            given == arg_words::<H, BITS>(args@),
            8 * sp + BITS * spilled(args@.len() as int) <= storage_bits,
            storage::reachable::<H>(storage, storage_bits as int, *zero, *one),
            H::tracks() ==> {
                &&& H::cells(storage) == placed_cells(
                    H::cells(old(storage)),
                    sp,
                    given,
                    i as int,
                    BITS as nat,
                )
                &&& forall|j: int|
                    0 <= j < 32 ==> crate::context::bits::<H>(#[trigger] regs@[j]@) == if 10 <= j
                        < 18 && j - 10 < i {
                        given[j - 10]
                    } else {
                        crate::context::bits::<H>(old(regs)@[j]@)
                    }
                &&& forall|j: int|
                    0 <= j < 32 ==> (#[trigger] reg_consts@[j]) == if 10 <= j < 18 && j - 10 < i {
                        args@[j - 10].1
                    } else {
                        old(reg_consts)@[j]
                    }
            },
        decreases total - i,
    {
        if i < IN_REGISTERS {
            regs[FIRST + i] = keep_word::<H, BITS>(&args[i].0);
            reg_consts[FIRST + i] = args[i].1;
        } else {
            proof {
                assert(BITS * (i - 8) + BITS <= BITS * spilled(args@.len() as int))
                    by (nonlinear_arith)
                    requires
                        i - 8 + 1 <= spilled(args@.len() as int),
                ;
                assert(0 <= BITS * (i - 8)) by (nonlinear_arith)
                    requires
                        i >= 8,
                ;
            }
            let start: usize = (sp as usize) * 8 + BITS * (i - 8);
            storage::write_word::<H, BITS>(t, storage, start, &args[i].0, BITS, zero, one)?;
            proof {
                assert(given[i as int].take(BITS as int) =~= given[i as int]);
            }
        }
        i = i + 1;
    }
    proof {
        if H::tracks() {
            assert(crate::rv::machine::words::<H, BITS>(regs@) =~= placed_regs(
                crate::rv::machine::words::<H, BITS>(old(regs)@),
                given,
                args@.len() as int,
            ));
            assert(reg_consts@ =~= placed_constants(
                old(reg_consts)@,
                arg_constants(args@),
                args@.len() as int,
            ));
            if crate::rv::machine::constants_agree::<H, BITS>(old(regs)@, old(reg_consts)@)
                && args_agree::<H, BITS>(args@) {
                assert forall|j: int| 0 <= j < 32 implies ((#[trigger] reg_consts@[j])
                    matches Some(v) ==> crate::wide::fits(v, BITS as nat)
                    && crate::context::bits::<H>(regs@[j]@) == crate::rv::machine::spelled(
                    v,
                    BITS as nat,
                )) by {
                    if 10 <= j < 18 && j - 10 < args@.len() {
                        assert(reg_consts@[j] == args@[j - 10].1);
                    } else {
                        assert(reg_consts@[j] == old(reg_consts)@[j]);
                    }
                }
            }
        }
    }
    Ok(())
}

/// Result `index` of a call.
pub open spec fn abi_result(
    regs: Seq<Seq<bool>>,
    cells: Seq<bool>,
    sp: u64,
    index: int,
    bits: nat,
) -> Seq<bool> {
    if index < 8 {
        regs[10 + index]
    } else {
        cells.subrange(spill_start(sp, index, bits), spill_start(sp, index, bits) + bits)
    }
}

/// Results before they are read: words of zeros that the host does not know.
pub(crate) fn blank_results<W: Clone, T: Clone, const BITS: usize, const M: usize>(zero: &W) -> (r: [(
    [W; BITS],
    Option<T>,
); M])
    ensures
        forall|i: int| 0 <= i < M ==> (#[trigger] r@[i]).1 is None,
        forall|i: int, k: int|
            0 <= i < M && 0 <= k < BITS ==> cloned(*zero, #[trigger] r@[i].0@[k]),
{
    let blank: ([W; BITS], Option<T>) = (fill(zero), None);
    let mut r: [([W; BITS], Option<T>); M] = fill(&blank);
    let mut i: usize = 0;
    while i < M
        invariant
            i <= M,
            forall|j: int| 0 <= j < i ==> (#[trigger] r@[j]).1 is None,
            forall|j: int, k: int|
                0 <= j < i && 0 <= k < BITS ==> cloned(*zero, #[trigger] r@[j].0@[k]),
        decreases M - i,
    {
        r[i] = (fill(zero), None);
        i = i + 1;
    }
    r
}

/// Read the results of a call.
pub fn read_abi_results<W, E, H, const BITS: usize, const M: usize>(
    t: &mut H,
    storage: &mut H::Storage,
    regs: &[[W; BITS]; 32],
    reg_consts: &[Option<u64>; 32],
    storage_bits: usize,
    sp: u64,
    zero: &W,
    one: &W,
) -> (r: Result<[([W; BITS], Option<u64>); M], E>) where
    W: Clone,
    H: RvHandler<bool, BITS> + ContextWithValue<bool, Wrapped = W> + HasError<Error = E> + ?Sized,

    requires
        BITS == 32 || BITS == 64,
        storage::reachable::<H>(old(storage), storage_bits as int, *zero, *one),
        8 * sp + BITS * spilled(M as int) <= storage_bits,
    ensures
        storage::reachable::<H>(final(storage), storage_bits as int, *zero, *one),
        H::tracks() ==> H::cells(final(storage)) == H::cells(old(storage)),
        H::tracks() ==> (r matches Ok(results) ==> forall|i: int|
            0 <= i < M ==> {
                &&& crate::context::bits::<H>((#[trigger] results@[i]).0@) == abi_result(
                    crate::rv::machine::words::<H, BITS>(regs@),
                    H::cells(old(storage)),
                    sp,
                    i,
                    BITS as nat,
                )
                &&& results@[i].1 == if i < 8 {
                    reg_consts@[10 + i]
                } else {
                    None
                }
            }),
        <H as ContextWithValue<bool>>::reliable() ==> r is Ok,
        r matches Err(error) ==> <H as ContextWithValue<bool>>::errs(error),
{
    let mut results = blank_results::<W, u64, BITS, M>(zero);
    let ghost cells = H::cells(storage);
    let ghost file = crate::rv::machine::words::<H, BITS>(regs@);
    let mut i: usize = 0;
    while i < M
        invariant
            i <= M,
            BITS == 32 || BITS == 64,
            8 * sp + BITS * spilled(M as int) <= storage_bits,
            file == crate::rv::machine::words::<H, BITS>(regs@),
            cells == H::cells(old(storage)),
            storage::reachable::<H>(storage, storage_bits as int, *zero, *one),
            H::tracks() ==> H::cells(storage) == cells,
            H::tracks() ==> forall|j: int|
                0 <= j < i ==> {
                    &&& crate::context::bits::<H>((#[trigger] results@[j]).0@) == abi_result(
                        file,
                        cells,
                        sp,
                        j,
                        BITS as nat,
                    )
                    &&& results@[j].1 == if j < 8 {
                        reg_consts@[10 + j]
                    } else {
                        None
                    }
                },
        decreases M - i,
    {
        results[i] = if i < IN_REGISTERS {
            (keep_word::<H, BITS>(&regs[FIRST + i]), reg_consts[FIRST + i])
        } else {
            proof {
                assert(BITS * (i - 8) + BITS <= BITS * spilled(M as int)) by (nonlinear_arith)
                    requires
                        i - 8 + 1 <= spilled(M as int),
                ;
                assert(0 <= BITS * (i - 8)) by (nonlinear_arith)
                    requires
                        i >= 8,
                ;
            }
            let start: usize = (sp as usize) * 8 + BITS * (i - 8);
            (storage::read_word::<H, BITS>(t, storage, start, zero, one)?, None)
        };
        i = i + 1;
    }
    Ok(results)
}

/// The larger of two counts.
pub open spec fn larger(a: int, b: int) -> int {
    if a > b {
        a
    } else {
        b
    }
}

/// What a called function returns: the words in the result registers and, for
/// the rest, on the stack, of the state in which its program exits.
pub open spec fn returned<H: ContextWithValue<bool> + ?Sized, const BITS: usize>(
    results: Seq<([H::Wrapped; BITS], Option<u64>)>,
    sp: u64,
    end: Step,
) -> bool {
    match end {
        Step::Exit { hart, cells } => forall|i: int|
            0 <= i < results.len() ==> {
                &&& crate::context::bits::<H>((#[trigger] results[i]).0@) == abi_result(
                    hart.regs,
                    cells,
                    sp,
                    i,
                    BITS as nat,
                )
                &&& (results[i].1 is Some) == (i < 8 && hart.known[10 + i])
                &&& results[i].1 matches Some(v) ==> crate::wide::fits(v, BITS as nat)
                    && crate::context::bits::<H>(results[i].0@) == crate::rv::machine::spelled(
                    v,
                    BITS as nat,
                )
            },
        _ => false,
    }
}

/// A call failed: as the steps of the called function do, or because the context
/// failed while the arguments were placed or the results were read.
pub open spec fn fell<H: RvHandler<bool, BITS> + ?Sized, const BITS: usize>(
    error: ErtError<H::Error>,
    start: Hart,
    cells: Seq<bool>,
    frame: Frame<'_>,
    answers: Seq<Answers>,
) -> bool {
    ||| crate::rv::control::ended::<H, BITS, ()>(Err(error), start, cells, frame, answers)
    ||| !crate::rv::handler::unfailing::<H, BITS>() && (error matches ErtError::Emitted(e)
        && crate::context::erred::<H>(e))
}

/// A call ended where the steps of the called function lead: it returned its
/// results and left the state in which it exited in the caller's buffers, or it
/// failed.
pub open spec fn called_on<H: RvHandler<bool, BITS> + ?Sized, const BITS: usize, R: RstackWord>(
    r: Result<Seq<([<H as ContextWithValue<bool>>::Wrapped; BITS], Option<u64>)>, ErtError<H::Error>>,
    regs: Seq<[<H as ContextWithValue<bool>>::Wrapped; BITS]>,
    constants: Seq<Option<u64>>,
    rstack: Seq<R>,
    cells_after: Seq<bool>,
    start: Hart,
    cells: Seq<bool>,
    frame: Frame<'_>,
    answers: Seq<Answers>,
) -> bool {
    let end = crate::rv::control::runs(start, cells, frame, answers);
    match r {
        Ok(results) => {
            &&& crate::rv::control::sincere::<H, BITS>(start, cells, frame, answers)
            &&& returned::<H, BITS>(results, frame.stack_top, end)
            &&& crate::rv::entry::left_behind::<H, BITS, R>(
                regs,
                constants,
                rstack,
                cells_after,
                end,
            )
        },
        Err(error) => fell::<H, BITS>(error, start, cells, frame, answers),
    }
}

/// The results as a sequence.
pub open spec fn result_seq<T, E, const M: usize>(r: Result<[T; M], E>) -> Result<Seq<T>, E> {
    match r {
        Ok(a) => Ok(a@),
        Err(e) => Err(e),
    }
}

/// The state in which a called function starts.
pub open spec fn called<H: RvHandler<bool, BITS> + ?Sized, const BITS: usize>(
    regs: Seq<[<H as ContextWithValue<bool>>::Wrapped; BITS]>,
    constants: Seq<Option<u64>>,
    rstack: Seq<u64>,
    args: Seq<([<H as ContextWithValue<bool>>::Wrapped; BITS], Option<u64>)>,
    pc: u64,
    sp: u64,
) -> crate::rv::machine::Hart {
    crate::rv::entry::initial(
        placed_regs(
            crate::rv::machine::words::<H, BITS>(regs),
            arg_words::<H, BITS>(args),
            args.len() as int,
        ),
        crate::thumb::machine::present(
            placed_constants(constants, arg_constants(args), args.len() as int),
        ),
        rstack,
        pc,
        sp,
    )
}

/// Call a function: place the arguments, run to the exit, read the results.
pub fn call_function<W, E, H, const BITS: usize, const M: usize, R: RstackWord>(
    t: &mut H,
    storage: &mut H::Storage,
    storage_bits: usize,
    mem: RawMemory<'_>,
    rstack: &mut [R],
    pc: u64,
    regs: &mut [[W; BITS]; 32],
    reg_consts: &mut [Option<u64>; 32],
    zero: W,
    one: W,
    args: &[([W; BITS], Option<u64>)],
    plain: bool,
) -> (r: Result<[([W; BITS], Option<u64>); M], ErtError<E>>) where
    W: Clone,
    H: RvHandler<bool, BITS> + ContextWithValue<bool, Wrapped = W> + HasError<Error = E> + ?Sized,

    requires
        BITS == 32 || BITS == 64,
        crate::rv::control::handles::<H, BITS>(),
        storage::reachable::<H>(old(storage), storage_bits as int, zero, one),
    ensures
        final(rstack)@.len() == old(rstack)@.len(),
        ({
            let values = larger(args@.len() as int, M as int);
            match abi_top(storage_bits as int, values, BITS as nat) {
                None => {
                    &&& r matches Err(ErtError::Unexpected)
                    &&& final(regs)@ == old(regs)@
                    &&& final(reg_consts)@ == old(reg_consts)@
                    &&& final(rstack)@ == old(rstack)@
                    &&& crate::word::untouched::<H>(old(t), final(t))
                    &&& crate::word::untouched::<H::Storage>(old(storage), final(storage))
                },
                Some(sp) => H::tracks() && crate::rv::machine::constants_agree::<H, BITS>(
                    old(regs)@,
                    old(reg_consts)@,
                ) && args_agree::<H, BITS>(args@) ==> exists|answers: Seq<Answers>|
                    #[trigger] called_on::<H, BITS, R>(
                        result_seq(r),
                        final(regs)@,
                        final(reg_consts)@,
                        final(rstack)@,
                        H::cells(final(storage)),
                        called::<H, BITS>(
                            old(regs)@,
                            old(reg_consts)@,
                            crate::rv::entry::addresses(old(rstack)@),
                            args@,
                            pc,
                            sp,
                        ),
                        placed_cells(
                            H::cells(old(storage)),
                            sp,
                            arg_words::<H, BITS>(args@),
                            args@.len() as int,
                            BITS as nat,
                        ),
                        Frame {
                            mem,
                            storage_bits: storage_bits as int,
                            stack_top: sp,
                            bits: BITS as nat,
                            active: true,
                            plain,
                        },
                        answers,
                    ),
            }
        }),
{
    let count: usize = args.len();
    let values: usize = if count > M {
        count
    } else {
        M
    };
    let sp: u64 = match abi_stack_pointer::<BITS>(storage_bits, values) {
        Some(sp) => sp,
        None => return Err(ErtError::Unexpected),
    };
    proof {
        assert(BITS * spilled(args@.len() as int) <= BITS * spilled(values as int)
            && BITS * spilled(M as int) <= BITS * spilled(values as int)) by (nonlinear_arith)
            requires
                spilled(args@.len() as int) <= spilled(values as int),
                spilled(M as int) <= spilled(values as int),
        ;
    }
    let ghost good = H::tracks() && crate::rv::machine::constants_agree::<H, BITS>(
        regs@,
        reg_consts@,
    ) && args_agree::<H, BITS>(args@);
    let ghost start = called::<H, BITS>(
        regs@,
        reg_consts@,
        crate::rv::entry::addresses(rstack@),
        args@,
        pc,
        sp,
    );
    let ghost cells = placed_cells(
        H::cells(storage),
        sp,
        arg_words::<H, BITS>(args@),
        args@.len() as int,
        BITS as nat,
    );
    let ghost frame = Frame {
        mem,
        storage_bits: storage_bits as int,
        stack_top: sp,
        bits: BITS as nat,
        active: true,
        plain,
    };
    let placed = write_abi_args(
        t,
        storage,
        regs,
        reg_consts,
        storage_bits,
        sp,
        args,
        &zero,
        &one,
    );
    if let Err(error) = placed {
        proof {
            assert(called_on::<H, BITS, R>(
                Err(ErtError::Emitted(error)),
                regs@,
                reg_consts@,
                rstack@,
                H::cells(storage),
                start,
                cells,
                frame,
                Seq::empty(),
            ));
        }
        return Err(ErtError::Emitted(error));
    }
    let kept_zero = keep::<H>(&zero);
    let kept_one = keep::<H>(&one);
    let ran = run_buffers::<W, E, H, BITS, R>(
        t,
        storage,
        storage_bits,
        mem,
        rstack,
        pc,
        regs,
        reg_consts,
        kept_zero,
        kept_one,
        sp,
        plain,
    );
    let ghost answers = choose|answers: Seq<Answers>| #[trigger]
        crate::rv::entry::ran_to::<H, BITS, R>(
            ran,
            regs@,
            reg_consts@,
            rstack@,
            H::cells(storage),
            answers,
            start,
            cells,
            frame,
        );
    let ghost end = crate::rv::control::runs(start, cells, frame, answers);
    let r = match ran {
        Ok(_) => emitted(
            read_abi_results::<W, E, H, BITS, M>(
                t,
                storage,
                regs,
                reg_consts,
                storage_bits,
                sp,
                &zero,
                &one,
            ),
        ),
        Err(error) => Err(error),
    };
    proof {
        if good {
            if r is Ok {
                let results = r->Ok_0;
                let hart = end->Exit_hart;
                assert forall|i: int| 0 <= i < M implies {
                    &&& (results@[i].1 is Some) == (i < 8 && hart.known[10 + i])
                    &&& results@[i].1 matches Some(v) ==> crate::wide::fits(v, BITS as nat)
                        && crate::context::bits::<H>(results@[i].0@)
                        == crate::rv::machine::spelled(v, BITS as nat)
                } by {
                    if i < 8 {
                        assert(hart.known[10 + i] == (reg_consts@[10 + i] is Some));
                        assert(hart.regs[10 + i] == crate::context::bits::<H>(regs@[10 + i]@));
                    }
                }
                assert(returned::<H, BITS>(results@, sp, end));
            }
            assert(called_on::<H, BITS, R>(
                result_seq(r),
                regs@,
                reg_consts@,
                rstack@,
                H::cells(storage),
                start,
                cells,
                frame,
                answers,
            ));
        }
    }
    r
}

/// Invoke an RV64 function using the RISC-V argument and result ABI.
///
/// The first eight arguments and results use `a0` through `a7`; further values
/// are placed in or read from the symbolic stack. `args` carries both the
/// symbolic word and, when known, its concrete value.
pub fn ert64_func<W, E, const N: usize, const M: usize, H>(
    t: &mut H,
    storage: &mut H::Storage,
    storage_bits: usize,
    mem: RawMemory<'_>,
    rstack: &mut [u64],
    pc: u64,
    regs: &mut [[W; 64]; 32],
    reg_consts: &mut [Option<u64>; 32],
    zero: W,
    one: W,
    args: [([W; 64], Option<u64>); N],
) -> (r: Result<[([W; 64], Option<u64>); M], ErtError<E>>) where
    W: Clone,
    H: RvHandler<bool, 64> + ContextWithValue<bool, Wrapped = W> + HasError<Error = E> + ?Sized,

    requires
        crate::rv::control::handles::<H, 64>(),
        storage::reachable::<H>(old(storage), storage_bits as int, zero, one),
    ensures
        ({
            let values = larger(N as int, M as int);
            match abi_top(storage_bits as int, values, 64) {
                None => {
                    &&& r matches Err(ErtError::Unexpected)
                    &&& final(regs)@ == old(regs)@
                    &&& final(reg_consts)@ == old(reg_consts)@
                    &&& final(rstack)@ == old(rstack)@
                    &&& crate::word::untouched::<H>(old(t), final(t))
                    &&& crate::word::untouched::<H::Storage>(old(storage), final(storage))
                },
                Some(sp) => H::tracks() && crate::rv::machine::constants_agree::<H, 64>(
                    old(regs)@,
                    old(reg_consts)@,
                ) && args_agree::<H, 64>(args@) ==> exists|answers: Seq<Answers>|
                    #[trigger] called_on::<H, 64, u64>(
                        result_seq(r),
                        final(regs)@,
                        final(reg_consts)@,
                        final(rstack)@,
                        H::cells(final(storage)),
                        called::<H, 64>(
                            old(regs)@,
                            old(reg_consts)@,
                            crate::rv::entry::addresses(old(rstack)@),
                            args@,
                            pc,
                            sp,
                        ),
                        placed_cells(
                            H::cells(old(storage)),
                            sp,
                            arg_words::<H, 64>(args@),
                            args@.len() as int,
                            64,
                        ),
                        Frame {
                            mem,
                            storage_bits: storage_bits as int,
                            stack_top: sp,
                            bits: 64,
                            active: true,
                            plain: false,
                        },
                        answers,
                    ),
            }
        }),
{
    call_function::<W, E, H, 64, M, u64>(
        t,
        storage,
        storage_bits,
        mem,
        rstack,
        pc,
        regs,
        reg_consts,
        zero,
        one,
        &args,
        false,
    )
}

} // verus!
