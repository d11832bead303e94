//! Entry points of the RISC-V machine: run an image, or call a function in it.
use crate::context::{ContextWithValue, HasError};
use crate::memory::RawMemory;
use crate::rv::control::Answers;
use crate::rv::handler::RvHandler;
use crate::rv::machine::{ErtError, Frame, Hart, Machine, Step};
use crate::storage;
use crate::word::{add_bits, fill, keep_word, ContextWithErtOps};
use vstd::prelude::*;

verus! {

/// Add two little-endian symbolic 32-bit words with an initial carry bit.
///
/// `zero` and `one` are not needed; they are taken so that every facade's
/// helper can be called alike.
pub fn simple_add<C: ContextWithErtOps<bool> + ?Sized>(
    t: &mut C,
    v: &[C::Wrapped; 32],
    w: &[C::Wrapped; 32],
    carry: C::Wrapped,
    _zero: C::Wrapped,
    _one: C::Wrapped,
) -> (r: Result<[C::Wrapped; 32], C::Error>) where C::Wrapped: Clone
    ensures
        crate::context::sound::<C>() ==> (r matches Ok(sum) ==> crate::context::bits::<C>(sum@)
            == crate::bits::add_of(
            crate::context::bits::<C>(v@),
            crate::context::bits::<C>(w@),
            crate::context::bit::<C>(carry),
        )),
        C::reliable() ==> r is Ok,
        r matches Err(error) ==> C::errs(error),
{
    add_bits(t, v, w, carry)
}

/// A word of a caller's return stack.
pub trait RstackWord: Copy {
    /// The address that it holds.
    spec fn address(self) -> u64;

    /// The word that holds an address, of which the low bits count.
    spec fn holding(v: u64) -> Self;

    fn into_u64(self) -> (r: u64)
        ensures
            r == self.address(),
    ;

    fn from_u64(v: u64) -> (r: Self)
        ensures
            r == Self::holding(v),
    ;
}

impl RstackWord for u32 {
    open spec fn address(self) -> u64 {
        self as u64
    }

    open spec fn holding(v: u64) -> u32 {
        (v % 0x1_0000_0000) as u32
    }

    fn into_u64(self) -> (r: u64) {
        self as u64
    }

    fn from_u64(v: u64) -> (r: u32) {
        (v % 0x1_0000_0000) as u32
    }
}

impl RstackWord for u64 {
    open spec fn address(self) -> u64 {
        self
    }

    open spec fn holding(v: u64) -> u64 {
        v
    }

    fn into_u64(self) -> (r: u64) {
        self
    }

    fn from_u64(v: u64) -> (r: u64) {
        v
    }
}

/// The addresses on a return stack.
pub open spec fn addresses<R: RstackWord>(stack: Seq<R>) -> Seq<u64> {
    Seq::new(stack.len(), |i: int| stack[i].address())
}

/// The return stack that holds these addresses.
pub open spec fn held<R: RstackWord>(stack: Seq<u64>) -> Seq<R> {
    Seq::new(stack.len(), |i: int| R::holding(stack[i]))
}

/// Copy a return stack in.
pub fn own_stack<R: RstackWord>(from: &[R]) -> (r: Vec<u64>)
    ensures
        r@ == addresses(from@),
{
    let mut r: Vec<u64> = Vec::new();
    let mut i: usize = 0;
    while i < from.len()
        invariant
            i <= from@.len(),
            r@.len() == i,
            forall|j: int| 0 <= j < i ==> r@[j] == from@[j].address(),
        decreases from@.len() - i,
    {
        r.push(from[i].into_u64());
        i = i + 1;
    }
    assert(r@ =~= addresses(from@));
    r
}

/// Copy a return stack out.
pub fn copy_stack<R: RstackWord>(from: &Vec<u64>, to: &mut [R])
    requires
        from@.len() == old(to)@.len(),
    ensures
        final(to)@ == held::<R>(from@),
{
    let mut i: usize = 0;
    while i < from.len()
        invariant
            i <= from@.len() == to@.len(),
            forall|j: int| 0 <= j < i ==> to@[j] == R::holding(from@[j]),
        decreases from@.len() - i,
    {
        to[i] = R::from_u64(from[i]);
        i = i + 1;
    }
    assert(to@ =~= held::<R>(from@));
}

/// The state in which a program starts: the caller's registers, an empty
/// control stack, and the stack pointer below the caller's stack slots.
pub open spec fn initial(
    regs: Seq<Seq<bool>>,
    known: Seq<bool>,
    rstack: Seq<u64>,
    pc: u64,
    sp: u64,
) -> Hart {
    Hart { pc, regs, known, offs: Seq::new(32, |i: int| None), sp, rstack, rsp: 0 }
}

/// Clone a register file.
pub fn keep_file<H: ContextWithValue<bool> + ?Sized, const BITS: usize>(
    regs: &[[H::Wrapped; BITS]; 32],
) -> (r: [[H::Wrapped; BITS]; 32]) where H::Wrapped: Clone
    ensures
        crate::context::sound::<H>() ==> crate::rv::machine::words::<H, BITS>(r@)
            == crate::rv::machine::words::<H, BITS>(regs@),
{
    let mut r = fill::<[H::Wrapped; BITS], 32>(&regs[0]);
    let mut i: usize = 0;
    while i < 32
        invariant
            i <= 32,
            crate::context::sound::<H>() ==> forall|j: int|
                0 <= j < i ==> crate::context::bits::<H>(#[trigger] r@[j]@)
                    == crate::context::bits::<H>(regs@[j]@),
        decreases 32 - i,
    {
        r[i] = keep_word::<H, BITS>(&regs[i]);
        i = i + 1;
    }
    proof {
        if crate::context::sound::<H>() {
            assert(crate::rv::machine::words::<H, BITS>(r@)
                =~= crate::rv::machine::words::<H, BITS>(regs@));
        }
    }
    r
}

/// A register file that means the same agrees with the same constants.
pub proof fn same_words_agree<H: ContextWithValue<bool> + ?Sized, const BITS: usize>(
    a: Seq<[H::Wrapped; BITS]>,
    b: Seq<[H::Wrapped; BITS]>,
    constants: Seq<Option<u64>>,
)
    requires
        a.len() == 32,
        b.len() == 32,
        crate::rv::machine::words::<H, BITS>(a) == crate::rv::machine::words::<H, BITS>(b),
        crate::rv::machine::constants_agree::<H, BITS>(a, constants),
    ensures
        crate::rv::machine::constants_agree::<H, BITS>(b, constants),
{
    assert forall|i: int| 0 <= i < 32 implies ((#[trigger] constants[i]) matches Some(v)
        ==> crate::wide::fits(v, BITS as nat) && crate::context::bits::<H>(b[i]@)
        == crate::rv::machine::spelled(v, BITS as nat)) by {
        assert(crate::rv::machine::words::<H, BITS>(a)[i] == crate::rv::machine::words::<H, BITS>(
            b,
        )[i]);
    }
}

impl<'m, W: Clone, const BITS: usize> Machine<'m, W, BITS> {
    /// A machine at the start of a program.
    pub fn new<H: ContextWithValue<bool, Wrapped = W> + ?Sized>(
        mem: RawMemory<'m>,
        rstack: Vec<u64>,
        storage_bits: usize,
        pc: u64,
        regs: [[W; BITS]; 32],
        constants: [Option<u64>; 32],
        zero: W,
        one: W,
        sp: u64,
    ) -> (r: Self)
        requires
            BITS == 32 || BITS == 64,
            crate::wide::fits(sp, BITS as nat),
        ensures
            crate::rv::machine::bounded(r),
            crate::rv::machine::frame::<H, BITS>(r) == (Frame {
                mem,
                storage_bits: storage_bits as int,
                stack_top: sp,
                bits: BITS as nat,
                active: true,
                plain: false,
            }),
            r.storage_bits == storage_bits,
            r.zero == zero,
            r.one == one,
            r.rstack@ == rstack@,
            r.predicate is None,
            r.regs == regs,
            r.constants == constants,
            r.stack_top == sp,
            crate::rv::machine::hart::<H, BITS>(r) == initial(
                crate::rv::machine::words::<H, BITS>(regs@),
                crate::thumb::machine::present(constants@),
                rstack@,
                pc,
                sp,
            ),
            crate::word::constants::<H>(zero, one) && crate::rv::machine::constants_agree::<H, BITS>(
                regs@,
                constants@,
            ) ==> crate::rv::machine::live::<H, BITS>(r),
    {
        let r = Machine {
            mem,
            rstack,
            storage_bits,
            pc,
            regs,
            constants,
            zero,
            one,
            sp,
            stack_top: sp,
            rsp: 0,
            offs: [None; 32],
            predicate: None,
            plain: false,
        };
        assert(r.offs@ =~= Seq::new(32, |i: int| None));
        r
    }
}

/// The state that a machine starts in on the caller's buffers.
pub open spec fn entered<
    H: ContextWithValue<bool> + ?Sized,
    const BITS: usize,
    R: RstackWord,
>(
    regs: Seq<[H::Wrapped; BITS]>,
    constants: Seq<Option<u64>>,
    rstack: Seq<R>,
    pc: u64,
    sp: u64,
) -> Hart {
    initial(
        crate::rv::machine::words::<H, BITS>(regs),
        crate::thumb::machine::present(constants),
        addresses(rstack),
        pc,
        sp,
    )
}

/// The caller's buffers hold the state in which a program exited.
pub open spec fn left_behind<
    H: ContextWithValue<bool> + ?Sized,
    const BITS: usize,
    R: RstackWord,
>(
    regs: Seq<[H::Wrapped; BITS]>,
    constants: Seq<Option<u64>>,
    rstack: Seq<R>,
    cells: Seq<bool>,
    end: Step,
) -> bool {
    match end {
        Step::Exit { hart, cells: c } => {
            &&& hart.regs == crate::rv::machine::words::<H, BITS>(regs)
            &&& hart.known == crate::thumb::machine::present(constants)
            &&& rstack == held::<R>(hart.rstack)
            &&& c == cells
            &&& crate::rv::machine::constants_agree::<H, BITS>(regs, constants)
        },
        _ => false,
    }
}

/// A run of a machine, seen in the caller's buffers.
proof fn ran_on_buffers<H: RvHandler<bool, BITS> + ?Sized, const BITS: usize, R: RstackWord>(
    after: Machine<'_, <H as ContextWithValue<bool>>::Wrapped, BITS>,
    rstack: Seq<R>,
    r: Result<(), ErtError<H::Error>>,
    cells_after: Seq<bool>,
    answers: Seq<Answers>,
    start: Hart,
    cells: Seq<bool>,
    frame: Frame<'_>,
) where <H as ContextWithValue<bool>>::Wrapped: Clone
    requires
        crate::rv::control::ran::<H, BITS>(after, cells_after, r, start, cells, frame, answers),
        rstack == held::<R>(after.rstack@),
    ensures
        ran_to::<H, BITS, R>(
            r,
            after.regs@,
            after.constants@,
            rstack,
            cells_after,
            answers,
            start,
            cells,
            frame,
        ),
{
}

/// Run a machine on the caller's buffers.
pub fn run_buffers<W, E, H, const BITS: usize, R: RstackWord>(
    t: &mut H,
    storage: &mut H::Storage,
    storage_bits: usize,
    mem: RawMemory<'_>,
    rstack: &mut [R],
    pc: u64,
    regs: &mut [[W; BITS]; 32],
    reg_consts: &mut [Option<u64>; 32],
    zero: W,
    one: W,
    sp: u64,
    plain: bool,
) -> (r: Result<(), ErtError<E>>) where
    W: Clone,
    H: RvHandler<bool, BITS> + ContextWithValue<bool, Wrapped = W> + HasError<Error = E> + ?Sized,

    requires
        BITS == 32 || BITS == 64,
        crate::rv::control::handles::<H, BITS>(),
        storage::reachable::<H>(old(storage), storage_bits as int, zero, one),
        crate::wide::fits(sp, BITS as nat),
    ensures
        storage::reachable::<H>(final(storage), storage_bits as int, zero, one),
        final(rstack)@.len() == old(rstack)@.len(),
        H::tracks() && crate::rv::machine::constants_agree::<H, BITS>(old(regs)@, old(reg_consts)@)
            ==> exists|answers: Seq<Answers>| #[trigger]
            ran_to::<H, BITS, R>(
                r,
                final(regs)@,
                final(reg_consts)@,
                final(rstack)@,
                H::cells(final(storage)),
                answers,
                entered::<H, BITS, R>(old(regs)@, old(reg_consts)@, old(rstack)@, pc, sp),
                H::cells(old(storage)),
                Frame {
                    mem,
                    storage_bits: storage_bits as int,
                    stack_top: sp,
                    bits: BITS as nat,
                    active: true,
                    plain,
                },
            ),
{
    let own = own_stack(rstack);
    let kept = keep_file::<H, BITS>(regs);
    let mut machine = Machine::new::<H>(
        mem,
        own,
        storage_bits,
        pc,
        kept,
        *reg_consts,
        zero,
        one,
        sp,
    );
    machine.plain = plain;
    let ghost start = machine;
    let ghost cells = H::cells(storage);
    let ghost good = H::tracks() && crate::rv::machine::constants_agree::<H, BITS>(
        regs@,
        reg_consts@,
    );
    proof {
        if good {
            same_words_agree::<H, BITS>(regs@, kept@, reg_consts@);
            assert(crate::rv::machine::live::<H, BITS>(start));
            assert(crate::rv::machine::hart::<H, BITS>(start) == entered::<H, BITS, R>(
                regs@,
                reg_consts@,
                rstack@,
                pc,
                sp,
            ));
        }
    }
    let r = machine.run(t, storage);
    let ghost rest = machine;
    copy_stack(&machine.rstack, rstack);
    *reg_consts = machine.constants;
    *regs = machine.regs;
    proof {
        if good {
            let answers = choose|answers: Seq<Answers>| #[trigger]
                crate::rv::control::ran::<H, BITS>(
                    rest,
                    H::cells(storage),
                    r,
                    crate::rv::machine::hart::<H, BITS>(start),
                    cells,
                    crate::rv::machine::frame::<H, BITS>(start),
                    answers,
                );
            ran_on_buffers::<H, BITS, R>(
                rest,
                rstack@,
                r,
                H::cells(storage),
                answers,
                crate::rv::machine::hart::<H, BITS>(start),
                cells,
                crate::rv::machine::frame::<H, BITS>(start),
            );
        }
    }
    r
}

/// A run on the caller's buffers ended where its steps lead, and left the state
/// in which it exited, where it did.
pub open spec fn ran_to<H: RvHandler<bool, BITS> + ?Sized, const BITS: usize, R: RstackWord>(
    r: Result<(), ErtError<H::Error>>,
    regs: Seq<[<H as ContextWithValue<bool>>::Wrapped; BITS]>,
    constants: Seq<Option<u64>>,
    rstack: Seq<R>,
    cells: Seq<bool>,
    answers: Seq<Answers>,
    start: Hart,
    first: Seq<bool>,
    frame: Frame<'_>,
) -> bool {
    &&& crate::rv::control::ended::<H, BITS, ()>(r, start, first, frame, answers)
    &&& r is Ok ==> left_behind::<H, BITS, R>(
        regs,
        constants,
        rstack,
        cells,
        crate::rv::control::runs(start, first, frame, answers),
    )
}

/// Execute an RV64 instruction image until the supported exit `ECALL`.
///
/// The interpreter resets `x0` and derives `sp` at each instruction, and
/// starts with `sp` at the end of the caller-declared storage.
pub fn ert64_emit<W, E, H>(
    t: &mut H,
    storage: &mut H::Storage,
    storage_bits: usize,
    mem: RawMemory<'_>,
    rstack: &mut [u64],
    pc: u64,
    regs: &mut [[W; 64]; 32],
    reg_consts: &mut [Option<u64>; 32],
    zero: W,
    one: W,
) -> (r: Result<(), ErtError<E>>) where
    W: Clone,
    H: RvHandler<bool, 64> + ContextWithValue<bool, Wrapped = W> + HasError<Error = E> + ?Sized,

    requires
        crate::rv::control::handles::<H, 64>(),
        storage::reachable::<H>(old(storage), storage_bits as int, zero, one),
    ensures
        final(rstack)@.len() == old(rstack)@.len(),
        storage_bits % 8 != 0 ==> {
            &&& r matches Err(ErtError::Unexpected)
            &&& final(regs)@ == old(regs)@
            &&& final(reg_consts)@ == old(reg_consts)@
            &&& final(rstack)@ == old(rstack)@
            &&& crate::word::untouched::<H>(old(t), final(t))
            &&& crate::word::untouched::<H::Storage>(old(storage), final(storage))
        },
        H::tracks() && storage_bits % 8 == 0 && crate::rv::machine::constants_agree::<H, 64>(
            old(regs)@,
            old(reg_consts)@,
        ) ==> exists|answers: Seq<Answers>| #[trigger]
            ran_to::<H, 64, u64>(
                r,
                final(regs)@,
                final(reg_consts)@,
                final(rstack)@,
                H::cells(final(storage)),
                answers,
                entered::<H, 64, u64>(
                    old(regs)@,
                    old(reg_consts)@,
                    old(rstack)@,
                    pc,
                    (storage_bits / 8) as u64,
                ),
                H::cells(old(storage)),
                Frame {
                    mem,
                    storage_bits: storage_bits as int,
                    stack_top: (storage_bits / 8) as u64,
                    bits: 64,
                    active: true,
                    plain: false,
                },
            ),
{
    if storage_bits % 8 != 0 {
        return Err(ErtError::Unexpected);
    }
    run_buffers::<W, E, H, 64, u64>(
        t,
        storage,
        storage_bits,
        mem,
        rstack,
        pc,
        regs,
        reg_consts,
        zero,
        one,
        (storage_bits / 8) as u64,
        false,
    )
}

} // verus!
