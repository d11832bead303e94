//! The looped emulator over a caller's buffers.
use crate::context::{keep, ContextWithValue, HasError};
use crate::memory::RawMemory;
use crate::rv::abi::{read_abi_results, write_abi_args};
use crate::rv::body::Plan;
use crate::rv::control::Answers;
use crate::rv::entry::{copy_stack, own_stack, RstackWord};
use crate::rv::handler::RvHandler;
use crate::rv::looped::{Advance, Loop, LoopState, Step};
use crate::rv::machine::{emitted, ErtError, Frame};
use crate::rv::program::{IndirectTargets, LoopedProgram};
use crate::storage;
use crate::table::CandidateTable;
use crate::word::{fill, keep_word, known_word};
use vstd::prelude::*;

verus! {

/// The looped-circuit emulator: a machine plus a virtual IP, a `done` wire,
/// and a caller-sized candidate table.
///
/// Construct with [`LoopedMachine::new`], drive with [`LoopedMachine::step`],
/// and read results with [`LoopedMachine::results`] once finished. The generic
/// `W` is the Boolean wire type of the caller's context (`bool` for plaintext
/// execution, an index for recording, a garbled label, ...).
#[verifier::reject_recursive_types(H)]
#[verifier::reject_recursive_types(W)]
#[verifier::reject_recursive_types(E)]
pub struct LoopedMachine<'a, H, W, E, const BITS: usize, R> where
    H: RvHandler<bool, BITS> + ContextWithValue<bool, Wrapped = W> + HasError<Error = E> + ?Sized,
    W: Clone,
    R: RstackWord,
 {
    pub handler: &'a mut H,
    pub storage: &'a mut H::Storage,
    pub rstack: &'a mut [R],
    pub state: LoopState<'a, W, BITS>,
    pub candidates: CandidateTable<'a, u64>,
    pub plan: Plan<'a>,
}

impl<'a, H, W, E, const BITS: usize, R> LoopedMachine<'a, H, W, E, BITS, R> where
    H: RvHandler<bool, BITS> + ContextWithValue<bool, Wrapped = W> + HasError<Error = E> + ?Sized,
    W: Clone,
    R: RstackWord,
 {
    /// The emulator's own bounds, and a store that it can reach.
    pub open spec fn wf(&self) -> bool {
        &&& crate::rv::looped::bounded(self.state)
        &&& self.candidates.wf()
        &&& self.state.rstack@.len() == self.rstack@.len()
        &&& storage::reachable::<H>(
            &*self.storage,
            self.state.storage_bits as int,
            self.state.zero,
            self.state.one,
        )
    }

    /// What the emulator's state means.
    pub open spec fn view_loop(&self) -> Loop {
        crate::rv::looped::meaning::<H, BITS>(
            self.state,
            H::cells(&*self.storage),
            self.candidates.candidates(),
        )
    }

    /// Whether every host-known fact agrees with its wires.
    pub open spec fn live(&self) -> bool {
        H::tracks() && crate::rv::looped::live::<H, BITS>(self.state)
    }
}

/// The state in which a looped program starts.
pub open spec fn started<H: RvHandler<bool, BITS> + ?Sized, const BITS: usize>(
    args: Seq<([<H as ContextWithValue<bool>>::Wrapped; BITS], Option<u64>)>,
    rstack: Seq<u64>,
    pc: u64,
    sp: u64,
    cells: Seq<bool>,
) -> Loop {
    Loop {
        hart: crate::rv::entry::initial(
            crate::rv::abi::placed_regs(
                Seq::new(32, |i: int| crate::rv::machine::spelled(0, BITS as nat)),
                crate::rv::abi::arg_words::<H, BITS>(args),
                args.len() as int,
            ),
            crate::thumb::machine::present(
                crate::rv::abi::placed_constants(
                    Seq::new(32, |i: int| None),
                    crate::rv::abi::arg_constants(args),
                    args.len() as int,
                ),
            ),
            rstack,
            0,
            sp,
        ),
        ip: crate::rv::machine::spelled(pc, BITS as nat),
        done: false,
        done_known: Some(false),
        cells: crate::rv::abi::placed_cells(
            cells,
            sp,
            crate::rv::abi::arg_words::<H, BITS>(args),
            args.len() as int,
            BITS as nat,
        ),
        candidates: seq![pc],
    }
}

/// A register file of zero words.
fn clear_file<H: ContextWithValue<bool> + ?Sized, const BITS: usize>(
    zero: &H::Wrapped,
    one: &H::Wrapped,
) -> (r: [[H::Wrapped; BITS]; 32]) where H::Wrapped: Clone
    requires
        BITS <= 64,
    ensures
        crate::word::constants::<H>(*zero, *one) ==> crate::rv::machine::words::<H, BITS>(r@)
            == Seq::new(32, |i: int| crate::rv::machine::spelled(0, BITS as nat)),
{
    let clear = known_word::<H, BITS>(zero, one, 0);
    let mut r = fill::<[H::Wrapped; BITS], 32>(&clear);
    let mut i: usize = 0;
    while i < 32
        invariant
            i <= 32,
            crate::context::sound::<H>() ==> forall|j: int|
                0 <= j < i ==> crate::context::bits::<H>(#[trigger] r@[j]@)
                    == crate::context::bits::<H>(clear@),
        decreases 32 - i,
    {
        r[i] = keep_word::<H, BITS>(&clear);
        i = i + 1;
    }
    proof {
        if crate::word::constants::<H>(*zero, *one) {
            assert(crate::rv::machine::words::<H, BITS>(r@) =~= Seq::new(
                32,
                |i: int| crate::rv::machine::spelled(0, BITS as nat),
            ));
        }
    }
    r
}

impl<'a, H, W, E, const BITS: usize, R> LoopedMachine<'a, H, W, E, BITS, R> where
    H: RvHandler<bool, BITS> + ContextWithValue<bool, Wrapped = W> + HasError<Error = E> + ?Sized,
    W: Clone,
    R: RstackWord,
 {
    /// Set up a looped execution with the RISC-V argument ABI: the first
    /// eight `args` go to `a0`..`a7`, further values to caller stack slots.
    /// `candidates` is the fixed-capacity candidate table: it must hold at
    /// least twice the maximum number of simultaneously-live branch targets
    /// (two per step for ordinary branches), and overflow fails closed.
    pub fn new<const N: usize>(
        t: &'a mut H,
        storage: &'a mut H::Storage,
        storage_bits: usize,
        mem: RawMemory<'a>,
        rstack: &'a mut [R],
        pc: u64,
        args: [([W; BITS], Option<u64>); N],
        candidates: &'a mut [u64],
        indirect: &'a [IndirectTargets<'a>],
        zero: W,
        one: W,
    ) -> (r: Result<Self, ErtError<E>>)
        requires
            BITS == 32 || BITS == 64,
            storage::reachable::<H>(&*old(storage), storage_bits as int, zero, one),
        ensures
            old(candidates)@.len() == 0 || crate::rv::abi::abi_top(
                storage_bits as int,
                N as int,
                BITS as nat,
            ) is None ==> r matches Err(ErtError::Unexpected),
            old(candidates)@.len() > 0 && crate::rv::abi::abi_top(
                storage_bits as int,
                N as int,
                BITS as nat,
            ) is Some ==> {
                &&& r matches Err(e) ==> (e matches ErtError::Emitted(error)
                    && crate::context::erred::<H>(error))
                &&& <H as ContextWithValue<bool>>::reliable() ==> r is Ok
            },
            r matches Ok(m) ==> {
                let sp = crate::rv::abi::abi_top(storage_bits as int, N as int, BITS as nat)->0;
                &&& m.wf()
                &&& crate::rv::looped::frame_of(m.state, true) == (Frame {
                    mem,
                    storage_bits: storage_bits as int,
                    stack_top: sp,
                    bits: BITS as nat,
                    active: true,
                    plain: false,
                })
                &&& m.plan.indirect == indirect
                &&& m.plan.program is None
                &&& m.candidates.capacity() == old(candidates)@.len()
                &&& H::tracks() && crate::rv::abi::args_agree::<H, BITS>(args@) ==> {
                    &&& m.live()
                    &&& m.view_loop() == started::<H, BITS>(
                        args@,
                        crate::rv::entry::addresses(old(rstack)@),
                        pc,
                        sp,
                        H::cells(&*old(storage)),
                    )
                }
            },
    {
        if candidates.len() == 0 {
            return Err(ErtError::Unexpected);
        }
        let sp: u64 = match crate::rv::abi::abi_stack_pointer::<BITS>(storage_bits, N) {
            Some(sp) => sp,
            None => return Err(ErtError::Unexpected),
        };
        let mut regs = clear_file::<H, BITS>(&zero, &one);
        let mut constants: [Option<u64>; 32] = [None; 32];
        let ghost cells = H::cells(&*storage);
        proof {
            assert(constants@ =~= Seq::new(32, |i: int| None));
        }
        emitted(
            write_abi_args(
                t,
                storage,
                &mut regs,
                &mut constants,
                storage_bits,
                sp,
                &args,
                &zero,
                &one,
            ),
        )?;
        let table = match CandidateTable::new(candidates, pc) {
            Ok(table) => table,
            Err(_) => return Err(ErtError::Unexpected),
        };
        let own = own_stack(rstack);
        let vip = known_word::<H, BITS>(&zero, &one, pc);
        let done = keep::<H>(&zero);
        let state = LoopState {
            mem,
            storage_bits,
            rstack: own,
            regs,
            constants,
            offs: [None; 32],
            sp,
            stack_top: sp,
            rsp: 0,
            zero,
            one,
            vip,
            done,
            done_const: Some(false),
        };
        assert(state.offs@ =~= Seq::new(32, |i: int| None));
        Ok(
            LoopedMachine {
                handler: t,
                storage,
                rstack,
                state,
                candidates: table,
                plan: Plan { indirect, program: None },
            },
        )
    }

    /// Attach a precomputed boundary map. The live walker re-derives
    /// everything it needs; the map only consistency-checks each symbolic
    /// control-flow point, failing closed on any drift. This is a cache, never
    /// a semantic change.
    pub fn set_program(&mut self, program: &'a LoopedProgram)
        ensures
            final(self).plan == (Plan { indirect: old(self).plan.indirect, program: Some(program) }),
            final(self).state == old(self).state,
            final(self).view_loop() == old(self).view_loop(),
            final(self).candidates == old(self).candidates,
            old(self).wf() ==> final(self).wf(),
    {
        self.plan = Plan { indirect: self.plan.indirect, program: Some(program) };
    }

    /// The accumulated `done` wire. Hosts with a concrete context (e.g.
    /// `bool`) read it to decide termination; symbolic-context hosts replay
    /// the recorded step on a plaintext backend and check it there.
    pub fn done_wire(&self) -> (r: &W)
        ensures
            *r == self.state.done,
    {
        &self.state.done
    }

    /// The candidate table's live count.
    pub fn candidate_count(&self) -> (r: usize)
        requires
            self.wf(),
        ensures
            r == self.view_loop().candidates.len(),
    {
        self.candidates.len()
    }

    /// The current register file (wires), for hosts reading state between
    /// steps.
    pub fn regs(&self) -> (r: &[[W; BITS]; 32])
        ensures
            *r == self.state.regs,
    {
        &self.state.regs
    }

    /// Overwrite a register's wires and concrete metadata (ABI setup beyond
    /// `a0`..`a7`, and test fixtures).
    pub fn set_register(&mut self, reg: rv_asm::Reg, wires: [W; BITS], constant: Option<u64>)
        requires
            reg.0 < 32,
            old(self).wf(),
        ensures
            final(self).wf(),
            final(self).plan == old(self).plan,
            final(self).candidates == old(self).candidates,
            final(self).state.zero == old(self).state.zero,
            final(self).state.one == old(self).state.one,
            crate::rv::looped::frame_of(final(self).state, true) == crate::rv::looped::frame_of(
                old(self).state,
                true,
            ),
            final(self).view_loop() == (Loop {
                hart: old(self).view_loop().hart.write(
                    reg.0 as int,
                    crate::context::bits::<H>(wires@),
                    constant is Some,
                    None,
                ),
                ..old(self).view_loop()
            }),
            final(self).state.regs@ == old(self).state.regs@.update(reg.0 as int, wires),
            final(self).state.constants@ == old(self).state.constants@.update(
                reg.0 as int,
                constant,
            ),
            final(self).state.offs@ == old(self).state.offs@.update(reg.0 as int, None),
            old(self).live() && (constant matches Some(v) ==> crate::wide::fits(v, BITS as nat)
                && crate::context::bits::<H>(wires@) == crate::rv::machine::spelled(
                v,
                BITS as nat,
            )) ==> final(self).live(),
    {
        let ghost before = self.view_loop().hart;
        let register: usize = reg.0 as usize;
        self.state.regs[register] = wires;
        self.state.constants[register] = constant;
        self.state.offs[register] = None;
        proof {
            let after = self.view_loop().hart;
            let expected = before.write(
                register as int,
                crate::context::bits::<H>(wires@),
                constant is Some,
                None,
            );
            assert(after.regs =~= expected.regs);
            assert(after.known =~= expected.known);
            assert(after.offs =~= expected.offs);
        }
    }

    /// Execute one step: every live candidate's body runs to its next
    /// control-flow point and the results fold.
    pub fn step(&mut self) -> (r: Result<Step, ErtError<E>>)
        requires
            crate::rv::control::handles::<H, BITS>(),
            old(self).wf(),
        ensures
            final(self).wf(),
            final(self).kept(*old(self)),
            old(self).live() && old(self).state.done_const != Some(true) ==> (r matches Ok(step)
                ==> (step == Step::Done) == (final(self).candidates.candidates().len() == 0)),
            old(self).live() && r is Ok && old(self).state.done_const != Some(true) && old(
                self,
            ).candidates.candidates().len() == 1 ==> crate::rv::looped::undispatched::<H, BITS>(
                &*old(self).handler,
                &*final(self).handler,
                old(self).view_loop(),
                crate::rv::looped::frame_of(old(self).state, true),
                old(self).plan,
            ),
            old(self).live() ==> exists|visits: Seq<Seq<Answers>>|
                final(self).reached(
                    r,
                    #[trigger] old(self).view_loop().advance(
                        old(self).candidates.capacity(),
                        crate::rv::looped::frame_of(old(self).state, true),
                        old(self).plan,
                        visits,
                    ),
                ) && (crate::rv::control::unemitted(r) ==> old(self).view_loop().sincere::<H, BITS>(
                        old(self).candidates.capacity(),
                        crate::rv::looped::frame_of(old(self).state, true),
                        old(self).plan,
                        visits,
                    )),
    {
        let r = self.state.step(self.handler, self.storage, &mut self.candidates, &self.plan);
        copy_stack(&self.state.rstack, self.rstack);
        proof {
            if old(self).live() {
                let before = old(self).view_loop();
                let capacity = old(self).candidates.capacity();
                let around = crate::rv::looped::frame_of(old(self).state, true);
                let visits = choose|visits: Seq<Seq<Answers>>|
                    crate::rv::looped::stepped::<H, BITS>(
                        self.state,
                        H::cells(&*self.storage),
                        self.candidates.candidates(),
                        r,
                        #[trigger] before.advance(capacity, around, old(self).plan, visits),
                    ) && (crate::rv::control::unemitted(r) ==> before.sincere::<H, BITS>(
                        capacity,
                        around,
                        old(self).plan,
                        visits,
                    ));
                assert(self.reached(r, before.advance(capacity, around, old(self).plan, visits)));
                if old(self).state.done_const != Some(true) {
                    crate::rv::laws::done_leaves_no_candidate(
                        before,
                        capacity,
                        around,
                        old(self).plan,
                        visits,
                    );
                }
            }
        }
        r
    }

    /// What a step leaves alone.
    pub open spec fn kept(&self, before: Self) -> bool {
        &&& self.plan == before.plan
        &&& self.candidates.capacity() == before.candidates.capacity()
        &&& self.state.zero == before.state.zero
        &&& self.state.one == before.state.one
        &&& self.rstack@.len() == before.rstack@.len()
        &&& crate::rv::looped::frame_of(self.state, true) == crate::rv::looped::frame_of(
            before.state,
            true,
        )
    }

    /// The emulator came where a step leads.
    pub open spec fn reached(&self, r: Result<Step, ErtError<E>>, advance: Advance) -> bool {
        match r {
            Ok(step) => self.live() && advance == (Advance::To {
                next: self.view_loop(),
                done: step == Step::Done,
            }),
            Err(ErtError::Unexpected) => advance is Unexpected,
            Err(ErtError::Decode(e)) => advance == Advance::Decode(e),
            Err(ErtError::Emitted(error)) => !crate::rv::handler::unfailing::<H, BITS>()
                && crate::rv::handler::stems::<H, BITS>(error),
        }
    }
}

/// Several steps, one per trace.
pub open spec fn advances(
    l: Loop,
    capacity: int,
    frame: Frame<'_>,
    plan: Plan<'_>,
    traces: Seq<Seq<Seq<Answers>>>,
) -> Advance
    decreases traces.len(),
{
    if traces.len() == 0 {
        Advance::To { next: l, done: false }
    } else {
        match advances(l, capacity, frame, plan, traces.drop_last()) {
            Advance::To { next, done: _ } => next.advance(capacity, frame, plan, traces.last()),
            other => other,
        }
    }
}

/// Every answer of several steps is one that the handler gave in the state of
/// its instruction.
pub open spec fn advances_sincere<H: RvHandler<bool, BITS> + ?Sized, const BITS: usize>(
    l: Loop,
    capacity: int,
    frame: Frame<'_>,
    plan: Plan<'_>,
    traces: Seq<Seq<Seq<Answers>>>,
) -> bool
    decreases traces.len(),
{
    traces.len() == 0 || (advances_sincere::<H, BITS>(
        l,
        capacity,
        frame,
        plan,
        traces.drop_last(),
    ) && match advances(l, capacity, frame, plan, traces.drop_last()) {
        Advance::To { next, done: _ } => next.sincere::<H, BITS>(
            capacity,
            frame,
            plan,
            traces.last(),
        ),
        _ => true,
    })
}

/// A callback that reads the done wire says whether it is set.
pub open spec fn said<W, D: Fn(&W) -> bool>(is_done: D, w: W, done: bool) -> bool {
    call_ensures(is_done, (&w,), done)
}

/// After every step, some candidate was live and the callback said of the done
/// wire that it is not set.
pub open spec fn denied<H: ContextWithValue<bool> + ?Sized, D: Fn(&H::Wrapped) -> bool>(
    is_done: D,
    l: Loop,
    capacity: int,
    frame: Frame<'_>,
    plan: Plan<'_>,
    traces: Seq<Seq<Seq<Answers>>>,
) -> bool
    decreases traces.len(),
{
    traces.len() == 0 || (denied::<H, D>(is_done, l, capacity, frame, plan, traces.drop_last())
        && match advances(l, capacity, frame, plan, traces) {
        Advance::To { next, done: _ } => {
            &&& next.done_known != Some(true)
            &&& next.candidates.len() > 0
            &&& exists|w: H::Wrapped| #[trigger]
                said(is_done, w, false) && crate::context::bit::<H>(w) == next.done
        },
        _ => false,
    })
}

/// The run went on after every step but the last.
pub open spec fn went_on<H: ContextWithValue<bool> + ?Sized, D: Fn(&H::Wrapped) -> bool, E>(
    r: Result<bool, ErtError<E>>,
    is_done: D,
    l: Loop,
    capacity: int,
    frame: Frame<'_>,
    plan: Plan<'_>,
    traces: Seq<Seq<Seq<Answers>>>,
) -> bool {
    match r {
        Ok(false) => denied::<H, D>(is_done, l, capacity, frame, plan, traces),
        _ => traces.len() > 0 && denied::<H, D>(
            is_done,
            l,
            capacity,
            frame,
            plan,
            traces.drop_last(),
        ),
    }
}

/// How a run ended.
pub open spec fn finished<W, E, D: Fn(&W) -> bool>(
    is_done: D,
    r: Result<bool, ErtError<E>>,
    after: Loop,
    done: W,
    steps: int,
    max_steps: int,
    end: Advance,
) -> bool {
    match r {
        Ok(true) => end matches Advance::To { next, done: _ } && after == (Loop {
            done_known: Some(true),
            ..next
        }) && (next.done_known == Some(true) || next.candidates.len() == 0 || said(
            is_done,
            done,
            true,
        )),
        Ok(false) => steps == max_steps && (end matches Advance::To { next, done: _ } && after
            == next && (steps > 0 ==> next.done_known != Some(true) && next.candidates.len() > 0)),
        Err(ErtError::Unexpected) => end is Unexpected,
        Err(ErtError::Decode(e)) => end == Advance::Decode(e),
        Err(ErtError::Emitted(_)) => true,
    }
}

impl<'a, H, W, E, const BITS: usize, R> LoopedMachine<'a, H, W, E, BITS, R> where
    H: RvHandler<bool, BITS> + ContextWithValue<bool, Wrapped = W> + HasError<Error = E> + ?Sized,
    W: Clone,
    R: RstackWord,
 {
    /// Keep stepping until done (structurally or by the caller's wire
    /// predicate) or the step budget runs out. Returns `true` when finished;
    /// `false` means the budget was exhausted and the caller must decide.
    pub fn run<D: Fn(&W) -> bool>(&mut self, max_steps: u64, is_done: D) -> (r: Result<
        bool,
        ErtError<E>,
    >)
        requires
            crate::rv::control::handles::<H, BITS>(),
            old(self).wf(),
            forall|w: &W| #[trigger] call_requires(is_done, (w,)),
        ensures
            old(self).live() ==> (r matches Err(ErtError::Emitted(error)) ==> {
                &&& !crate::rv::handler::unfailing::<H, BITS>()
                &&& crate::rv::handler::stems::<H, BITS>(error)
            }),
            final(self).wf(),
            final(self).kept(*old(self)),
            r == Ok::<bool, ErtError<E>>(true) ==> final(self).state.done_const == Some(true),
            old(self).live() ==> exists|traces: Seq<Seq<Seq<Answers>>>|
                traces.len() <= max_steps && (r is Ok ==> final(self).live()) && finished::<W, E, D>(
                    is_done,
                    r,
                    final(self).view_loop(),
                    final(self).state.done,
                    traces.len() as int,
                    max_steps as int,
                    #[trigger] advances(
                        old(self).view_loop(),
                        old(self).candidates.capacity(),
                        crate::rv::looped::frame_of(old(self).state, true),
                        old(self).plan,
                        traces,
                    ),
                ) && (crate::rv::control::unemitted(r) ==> advances_sincere::<H, BITS>(
                        old(self).view_loop(),
                        old(self).candidates.capacity(),
                        crate::rv::looped::frame_of(old(self).state, true),
                        old(self).plan,
                        traces,
                    )) && went_on::<H, D, E>(
                    r,
                    is_done,
                    old(self).view_loop(),
                    old(self).candidates.capacity(),
                    crate::rv::looped::frame_of(old(self).state, true),
                    old(self).plan,
                    traces,
                ),
    {
        let ghost good = self.live();
        let ghost start = self.view_loop();
        let ghost capacity = self.candidates.capacity();
        let ghost around = crate::rv::looped::frame_of(self.state, true);
        let ghost plan = self.plan;
        let ghost mut traces: Seq<Seq<Seq<Answers>>> = Seq::empty();
        let mut left: u64 = max_steps;
        while left > 0
            invariant
                crate::rv::control::handles::<H, BITS>(),
                self.wf(),
                self.kept(*old(self)),
                forall|w: &W| #[trigger] call_requires(is_done, (w,)),
                traces.len() + left == max_steps,
                good == old(self).live(),
                start == old(self).view_loop(),
                capacity == old(self).candidates.capacity(),
                around == crate::rv::looped::frame_of(old(self).state, true),
                plan == old(self).plan,
                traces.len() > 0 ==> self.state.done_const != Some(true)
                    && self.candidates.candidates().len() > 0,
                good ==> {
                    &&& self.live()
                    &&& advances_sincere::<H, BITS>(start, capacity, around, plan, traces)
                    &&& denied::<H, D>(is_done, start, capacity, around, plan, traces)
                    &&& advances(start, capacity, around, plan, traces) matches Advance::To {
                        next,
                        done: _,
                    } && next == self.view_loop()
                },
            decreases left,
        {
            let ghost before = self.view_loop();
            let stepped = self.step();
            proof {
                if good {
                    let visits = choose|visits: Seq<Seq<Answers>>|
                        self.reached(
                            stepped,
                            #[trigger] before.advance(capacity, around, plan, visits),
                        ) && (crate::rv::control::unemitted(stepped) ==> before.sincere::<H, BITS>(
                            capacity,
                            around,
                            plan,
                            visits,
                        ));
                    let more = traces.push(visits);
                    assert(more.drop_last() =~= traces);
                    traces = more;
                } else {
                    traces = traces.push(Seq::empty());
                }
            }
            left = left - 1;
            if let Err(error) = stepped {
                proof {
                    if good {
                        assert(finished::<W, E, D>(
                            is_done,
                            Err(error),
                            self.view_loop(),
                            self.state.done,
                            traces.len() as int,
                            max_steps as int,
                            advances(start, capacity, around, plan, traces),
                        ));
                    }
                }
                return Err(error);
            }
            let exited = match self.state.done_const {
                Some(done) => done,
                None => false,
            };
            let over = exited || self.candidates.len() == 0 || is_done(&self.state.done);
            assert(!over ==> said(is_done, self.state.done, false));
            if over {
                // The host's `is_done` is the done wire faithfully read (the
                // concrete-context contract); it authorizes `results()`.
                self.state.done_const = Some(true);
                proof {
                    if good {
                        assert(finished::<W, E, D>(
                            is_done,
                            Ok(true),
                            self.view_loop(),
                            self.state.done,
                            traces.len() as int,
                            max_steps as int,
                            advances(start, capacity, around, plan, traces),
                        ));
                    }
                }
                return Ok(true);
            }
        }
        proof {
            if good {
                assert(finished::<W, E, D>(
                    is_done,
                    Ok(false),
                    self.view_loop(),
                    self.state.done,
                    traces.len() as int,
                    max_steps as int,
                    advances(start, capacity, around, plan, traces),
                ));
            }
        }
        Ok(false)
    }

    /// Read ABI results (`a0`..`a7`, then caller stack slots) after the run
    /// finished. Fails closed when execution has not completed, and where the
    /// stack holds no slots for them.
    pub fn results<const M: usize>(&mut self) -> (r: Result<
        [([W; BITS], Option<u64>); M],
        ErtError<E>,
    >)
        requires
            old(self).wf(),
        ensures
            final(self).wf(),
            final(self).state == old(self).state,
            old(self).state.done_const != Some(true) || 8 * old(self).state.stack_top + BITS
                * crate::rv::abi::spilled(M as int) > old(self).state.storage_bits ==> r matches Err(
                ErtError::Unexpected,
            ),
            r matches Err(e) ==> !(e is Decode),
            r matches Err(ErtError::Emitted(error)) ==> crate::context::erred::<H>(error),
            old(self).state.done_const == Some(true) && 8 * old(self).state.stack_top + BITS
                * crate::rv::abi::spilled(M as int) <= old(self).state.storage_bits ==> {
                &&& !(r matches Err(ErtError::Unexpected))
                &&& H::tracks() ==> (r matches Ok(results) ==> forall|i: int|
                    0 <= i < M ==> {
                        &&& crate::context::bits::<H>((#[trigger] results@[i]).0@)
                            == crate::rv::abi::abi_result(
                            old(self).view_loop().hart.regs,
                            old(self).view_loop().cells,
                            old(self).state.stack_top,
                            i,
                            BITS as nat,
                        )
                        &&& results@[i].1 == if i < 8 {
                            old(self).state.constants@[10 + i]
                        } else {
                            None
                        }
                    })
                &&& <H as ContextWithValue<bool>>::reliable() ==> r is Ok
            },
    {
        let exited = match self.state.done_const {
            Some(done) => done,
            None => false,
        };
        if !exited {
            return Err(ErtError::Unexpected);
        }
        let extra: usize = if M > 8 {
            M - 8
        } else {
            0
        };
        let room: usize = self.state.storage_bits / BITS;
        proof {
            assert(extra > room ==> BITS * extra > self.state.storage_bits) by (nonlinear_arith)
                requires
                    room == self.state.storage_bits as int / BITS as int,
                    BITS == 32 || BITS == 64,
            ;
        }
        if extra > room {
            return Err(ErtError::Unexpected);
        }
        proof {
            assert(BITS * extra <= self.state.storage_bits) by (nonlinear_arith)
                requires
                    extra <= self.state.storage_bits as int / BITS as int,
                    BITS == 32 || BITS == 64,
            ;
        }
        let free: usize = self.state.storage_bits - BITS * extra;
        if self.state.stack_top > (free / 8) as u64 {
            return Err(ErtError::Unexpected);
        }
        emitted(
            read_abi_results::<W, E, H, BITS, M>(
                self.handler,
                self.storage,
                &self.state.regs,
                &self.state.constants,
                self.state.storage_bits,
                self.state.stack_top,
                &self.state.zero,
                &self.state.one,
            ),
        )
    }
}

/// A run went on after every step but the last, and after that one it was over:
/// the program is known to have exited, no candidate is left, or the callback
/// said of the done wire that it is set.
pub open spec fn over<H: ContextWithValue<bool> + ?Sized, D: Fn(&H::Wrapped) -> bool>(
    is_done: D,
    l: Loop,
    capacity: int,
    frame: Frame<'_>,
    plan: Plan<'_>,
    traces: Seq<Seq<Seq<Answers>>>,
) -> bool {
    &&& traces.len() > 0
    &&& denied::<H, D>(is_done, l, capacity, frame, plan, traces.drop_last())
    &&& match advances(l, capacity, frame, plan, traces) {
        Advance::To { next, done: _ } => next.done_known == Some(true) || next.candidates.len()
            == 0 || exists|w: H::Wrapped| #[trigger]
            said(is_done, w, true) && crate::context::bit::<H>(w) == next.done,
        _ => false,
    }
}

/// How a looped call for `values` results ended: where the steps of its program
/// lead, each of them with the handler's own answers. It is refused where a step
/// is, where the steps run out, and where the stack holds no slots for the
/// results.
pub open spec fn concluded<
    H: RvHandler<bool, BITS> + ?Sized,
    D: Fn(&<H as ContextWithValue<bool>>::Wrapped) -> bool,
    T,
    const BITS: usize,
>(
    r: Result<T, ErtError<H::Error>>,
    values: int,
    max_steps: int,
    is_done: D,
    l: Loop,
    capacity: int,
    frame: Frame<'_>,
    plan: Plan<'_>,
    traces: Seq<Seq<Seq<Answers>>>,
) -> bool {
    let end = advances(l, capacity, frame, plan, traces);
    let short = 8 * frame.stack_top + BITS * crate::rv::abi::spilled(values) > frame.storage_bits;
    let ended = over::<H, D>(is_done, l, capacity, frame, plan, traces);
    &&& traces.len() <= max_steps
    &&& crate::rv::control::unemitted(r) ==> advances_sincere::<H, BITS>(
        l,
        capacity,
        frame,
        plan,
        traces,
    )
    &&& match r {
        Ok(_) => !short && ended,
        Err(ErtError::Unexpected) => {
            ||| end is Unexpected
            ||| traces.len() == max_steps && denied::<H, D>(
                is_done,
                l,
                capacity,
                frame,
                plan,
                traces,
            )
            ||| short && ended
        },
        Err(ErtError::Decode(e)) => end == Advance::Decode(e),
        Err(ErtError::Emitted(error)) => !crate::rv::handler::unfailing::<H, BITS>()
            && crate::rv::handler::stems::<H, BITS>(error),
    }
}

/// What a looped call returns: the results of the state in which its program
/// is done.
pub open spec fn looped_results<H: ContextWithValue<bool> + ?Sized, const BITS: usize>(
    results: Seq<([H::Wrapped; BITS], Option<u64>)>,
    sp: u64,
    end: Advance,
) -> bool {
    end matches Advance::To { next, done: _ } && forall|i: int|
        0 <= i < results.len() ==> {
            &&& crate::context::bits::<H>((#[trigger] results[i]).0@) == crate::rv::abi::abi_result(
                next.hart.regs,
                next.cells,
                sp,
                i,
                BITS as nat,
            )
            &&& (results[i].1 is Some) == (i < 8 && next.hart.known[10 + i])
            &&& results[i].1 matches Some(v) ==> crate::wide::fits(v, BITS as nat)
                && crate::context::bits::<H>(results[i].0@) == crate::rv::machine::spelled(
                v,
                BITS as nat,
            )
        }
}

/// A looped program in `mem` over a symbolic stack.
pub open spec fn looped_frame<'a>(
    mem: RawMemory<'a>,
    storage_bits: int,
    stack_top: u64,
    bits: nat,
) -> Frame<'a> {
    Frame { mem, storage_bits, stack_top, bits, active: true, plain: false }
}

/// Run a program in loops and read its results.
fn run_looped<'a, H, W, E, const BITS: usize, const M: usize, R, D>(
    machine: LoopedMachine<'a, H, W, E, BITS, R>,
    max_steps: u64,
    is_done: D,
) -> (r: Result<[([W; BITS], Option<u64>); M], ErtError<E>>) where
    H: RvHandler<bool, BITS> + ContextWithValue<bool, Wrapped = W> + HasError<Error = E> + ?Sized,
    W: Clone,
    R: RstackWord,
    D: Fn(&W) -> bool,

    requires
        crate::rv::control::handles::<H, BITS>(),
        machine.wf(),
        forall|w: &W| #[trigger] call_requires(is_done, (w,)),
    ensures
        machine.live() ==> exists|traces: Seq<Seq<Seq<Answers>>>|
            #[trigger] concluded::<H, D, [([W; BITS], Option<u64>); M], BITS>(
                r,
                M as int,
                max_steps as int,
                is_done,
                machine.view_loop(),
                machine.candidates.capacity(),
                crate::rv::looped::frame_of(machine.state, true),
                machine.plan,
                traces,
            ) && (r matches Ok(results) ==> looped_results::<H, BITS>(
                results@,
                machine.state.stack_top,
                advances(
                    machine.view_loop(),
                    machine.candidates.capacity(),
                    crate::rv::looped::frame_of(machine.state, true),
                    machine.plan,
                    traces,
                ),
            )),
{
    let ghost given = machine;
    let ghost good = machine.live();
    let ghost start = machine.view_loop();
    let ghost capacity = machine.candidates.capacity();
    let ghost around = crate::rv::looped::frame_of(machine.state, true);
    let ghost plan = machine.plan;
    let ghost top = machine.state.stack_top;
    let ghost bits = machine.state.storage_bits as int;
    let mut machine = machine;
    let ran = machine.run(max_steps, is_done);
    let ghost traces = choose|traces: Seq<Seq<Seq<Answers>>>|
        traces.len() <= max_steps && (ran is Ok ==> machine.live()) && finished::<W, E, D>(
            is_done,
            ran,
            machine.view_loop(),
            machine.state.done,
            traces.len() as int,
            max_steps as int,
            #[trigger] advances(start, capacity, around, plan, traces),
        ) && (crate::rv::control::unemitted(ran) ==> advances_sincere::<H, BITS>(
            start,
            capacity,
            around,
            plan,
            traces,
        )) && went_on::<H, D, E>(ran, is_done, start, capacity, around, plan, traces);
    let ghost end = advances(start, capacity, around, plan, traces);
    let ghost stopped = machine.view_loop();
    let ghost constants = machine.state.constants@;
    let ghost file = machine.state.regs@;
    let r = match ran {
        Ok(true) => machine.results::<M>(),
        Ok(false) => Err(ErtError::Unexpected),
        Err(error) => Err(error),
    };
    proof {
        if good {
            if r is Ok {
                let results = r->Ok_0;
                assert forall|i: int| 0 <= i < M implies {
                    &&& (results@[i].1 is Some) == (i < 8 && stopped.hart.known[10 + i])
                    &&& results@[i].1 matches Some(v) ==> crate::wide::fits(v, BITS as nat)
                        && crate::context::bits::<H>(results@[i].0@)
                        == crate::rv::machine::spelled(v, BITS as nat)
                } by {
                    if i < 8 {
                        assert(stopped.hart.known[10 + i] == (constants[10 + i] is Some));
                        assert(stopped.hart.regs[10 + i] == crate::context::bits::<H>(
                            file[10 + i]@,
                        ));
                    }
                }
                assert(looped_results::<H, BITS>(results@, top, end));
            }
            assert(concluded::<H, D, [([W; BITS], Option<u64>); M], BITS>(
                r,
                M as int,
                max_steps as int,
                is_done,
                start,
                capacity,
                around,
                plan,
                traces,
            ));
        }
    }
    r
}

/// Invoke a symbolic RV64 function under the looped-circuit emulator, using
/// the RISC-V argument and result ABI. The run continues until done or the
/// step budget runs out; an exhausted budget fails closed.
///
/// `is_done` reads the `done` wire on concrete contexts (`|wire| *wire` for
/// `bool`); pass `|_| false` on opaque contexts to rely on structural
/// termination only.
pub fn looped_ert64_func<W, E, const N: usize, const M: usize, H, D>(
    t: &mut H,
    storage: &mut H::Storage,
    storage_bits: usize,
    mem: RawMemory<'_>,
    rstack: &mut [u64],
    pc: u64,
    args: [([W; 64], Option<u64>); N],
    candidates: &mut [u64],
    indirect: &[IndirectTargets<'_>],
    zero: W,
    one: W,
    max_steps: u64,
    is_done: D,
) -> (r: Result<[([W; 64], Option<u64>); M], ErtError<E>>) where
    W: Clone,
    H: RvHandler<bool, 64> + ContextWithValue<bool, Wrapped = W> + HasError<Error = E> + ?Sized,
    D: Fn(&W) -> bool,

    requires
        crate::rv::control::handles::<H, 64>(),
        storage::reachable::<H>(&*old(storage), storage_bits as int, zero, one),
        forall|w: &W| #[trigger] call_requires(is_done, (w,)),
    ensures
        match crate::rv::abi::abi_top(storage_bits as int, N as int, 64) {
            None => r matches Err(ErtError::Unexpected),
            Some(sp) => {
                &&& old(candidates)@.len() == 0 ==> (r matches Err(ErtError::Unexpected))
                &&& old(candidates)@.len() > 0 && H::tracks() && crate::rv::abi::args_agree::<
                    H,
                    64,
                >(args@) ==> ({
                    let start = started::<H, 64>(
                        args@,
                        crate::rv::entry::addresses(old(rstack)@),
                        pc,
                        sp,
                        H::cells(&*old(storage)),
                    );
                    let capacity = old(candidates)@.len() as int;
                    let frame = looped_frame(mem, storage_bits as int, sp, 64);
                    let plan = Plan { indirect, program: None };
                    exists|traces: Seq<Seq<Seq<Answers>>>|
                        #[trigger] concluded::<H, D, [([W; 64], Option<u64>); M], 64>(
                            r,
                            M as int,
                            max_steps as int,
                            is_done,
                            start,
                            capacity,
                            frame,
                            plan,
                            traces,
                        ) && (r matches Ok(results) ==> looped_results::<H, 64>(
                            results@,
                            sp,
                            advances(start, capacity, frame, plan, traces),
                        ))
                })
            },
        },
{
    let ghost sp = crate::rv::abi::abi_top(storage_bits as int, N as int, 64)->0;
    let ghost start = started::<H, 64>(
        args@,
        crate::rv::entry::addresses(rstack@),
        pc,
        sp,
        H::cells(&*storage),
    );
    let ghost frame = looped_frame(mem, storage_bits as int, sp, 64);
    let ghost plan = Plan { indirect, program: None };
    let ghost capacity = candidates@.len() as int;
    let machine = match LoopedMachine::<H, W, E, 64, u64>::new(
        t,
        storage,
        storage_bits,
        mem,
        rstack,
        pc,
        args,
        candidates,
        indirect,
        zero,
        one,
    ) {
        Ok(machine) => machine,
        Err(error) => {
            proof {
                let none: Seq<Seq<Seq<Answers>>> = Seq::empty();
                if error is Emitted {
                    assert(concluded::<H, D, [([W; 64], Option<u64>); M], 64>(
                        Err(error),
                        M as int,
                        max_steps as int,
                        is_done,
                        start,
                        capacity,
                        frame,
                        plan,
                        none,
                    ));
                }
            }
            return Err(error);
        },
    };
    run_looped::<H, W, E, 64, M, u64, D>(machine, max_steps, is_done)
}

/// What a looped RV32 call returns, with narrow host-known values.
pub open spec fn looped_results32<H: ContextWithValue<bool> + ?Sized>(
    results: Seq<([H::Wrapped; 32], Option<u32>)>,
    sp: u64,
    end: Advance,
) -> bool {
    end matches Advance::To { next, done: _ } && forall|i: int|
        0 <= i < results.len() ==> {
            &&& crate::context::bits::<H>((#[trigger] results[i]).0@) == crate::rv::abi::abi_result(
                next.hart.regs,
                next.cells,
                sp,
                i,
                32,
            )
            &&& (results[i].1 is Some) == (i < 8 && next.hart.known[10 + i])
            &&& results[i].1 matches Some(v) ==> crate::context::bits::<H>(results[i].0@)
                == crate::rv::machine::spelled(v as u64, 32)
        }
}

/// The RV32 spelling of [`looped_ert64_func`]: 32-bit wires, `u32` concrete
/// metadata, and a `u32` return stack.
pub fn looped_ert_func<W, E, const N: usize, const M: usize, H, D>(
    t: &mut H,
    storage: &mut H::Storage,
    storage_bits: usize,
    mem: RawMemory<'_>,
    rstack: &mut [u32],
    pc: u32,
    args: [([W; 32], Option<u32>); N],
    candidates: &mut [u64],
    indirect: &[IndirectTargets<'_>],
    zero: W,
    one: W,
    max_steps: u64,
    is_done: D,
) -> (r: Result<[([W; 32], Option<u32>); M], ErtError<E>>) where
    W: Clone,
    H: RvHandler<bool, 32> + ContextWithValue<bool, Wrapped = W> + HasError<Error = E> + ?Sized,
    D: Fn(&W) -> bool,

    requires
        crate::rv::control::handles::<H, 32>(),
        storage::reachable::<H>(&*old(storage), storage_bits as int, zero, one),
        forall|w: &W| #[trigger] call_requires(is_done, (w,)),
    ensures
        match crate::rv::abi::abi_top(storage_bits as int, N as int, 32) {
            None => r matches Err(ErtError::Unexpected),
            Some(sp) => {
                &&& old(candidates)@.len() == 0 ==> (r matches Err(ErtError::Unexpected))
                &&& old(candidates)@.len() > 0 && H::tracks() && crate::rv::abi::args_agree::<
                    H,
                    32,
                >(crate::rv::rv32::wide_args(args@)) ==> ({
                    let start = started::<H, 32>(
                        crate::rv::rv32::wide_args(args@),
                        crate::rv::entry::addresses(old(rstack)@),
                        pc as u64,
                        sp,
                        H::cells(&*old(storage)),
                    );
                    let capacity = old(candidates)@.len() as int;
                    let frame = looped_frame(mem, storage_bits as int, sp, 32);
                    let plan = Plan { indirect, program: None };
                    exists|traces: Seq<Seq<Seq<Answers>>>|
                        #[trigger] concluded::<H, D, [([W; 32], Option<u32>); M], 32>(
                            r,
                            M as int,
                            max_steps as int,
                            is_done,
                            start,
                            capacity,
                            frame,
                            plan,
                            traces,
                        ) && (r matches Ok(results) ==> looped_results32::<H>(
                            results@,
                            sp,
                            advances(start, capacity, frame, plan, traces),
                        ))
                })
            },
        },
{
    let ghost sp = crate::rv::abi::abi_top(storage_bits as int, N as int, 32)->0;
    let ghost given = crate::rv::rv32::wide_args(args@);
    let ghost start = started::<H, 32>(
        given,
        crate::rv::entry::addresses(rstack@),
        pc as u64,
        sp,
        H::cells(&*storage),
    );
    let ghost frame = looped_frame(mem, storage_bits as int, sp, 32);
    let ghost plan = Plan { indirect, program: None };
    let ghost capacity = candidates@.len() as int;
    let ghost good = capacity > 0 && H::tracks() && crate::rv::abi::args_agree::<H, 32>(given)
        && crate::rv::abi::abi_top(storage_bits as int, N as int, 32) is Some;
    let wide = crate::rv::rv32::widen_array::<H, N>(&args, &zero);
    let kept_zero = keep::<H>(&zero);
    let machine = match LoopedMachine::<H, W, E, 32, u32>::new(
        t,
        storage,
        storage_bits,
        mem,
        rstack,
        pc as u64,
        wide,
        candidates,
        indirect,
        zero,
        one,
    ) {
        Ok(machine) => machine,
        Err(error) => {
            proof {
                let none: Seq<Seq<Seq<Answers>>> = Seq::empty();
                if error is Emitted {
                    assert(concluded::<H, D, [([W; 32], Option<u32>); M], 32>(
                        Err(error),
                        M as int,
                        max_steps as int,
                        is_done,
                        start,
                        capacity,
                        frame,
                        plan,
                        none,
                    ));
                }
            }
            return Err(error);
        },
    };
    proof {
        if good {
            assert(machine.view_loop() == start);
        }
    }
    let ran = run_looped::<H, W, E, 32, M, u32, D>(machine, max_steps, is_done);
    let ghost traces = choose|traces: Seq<Seq<Seq<Answers>>>|
        #[trigger] concluded::<H, D, [([W; 32], Option<u64>); M], 32>(
            ran,
            M as int,
            max_steps as int,
            is_done,
            start,
            capacity,
            frame,
            plan,
            traces,
        ) && (ran matches Ok(results) ==> looped_results::<H, 32>(
            results@,
            sp,
            advances(start, capacity, frame, plan, traces),
        ));
    let ghost end = advances(start, capacity, frame, plan, traces);
    let ghost whole = ran;
    let r = match ran {
        Ok(results) => Ok(crate::rv::rv32::narrow_results::<H, M>(&results, &kept_zero)),
        Err(error) => Err(error),
    };
    proof {
        if good {
            if r is Ok {
                let results = r->Ok_0;
                let before = whole->Ok_0;
                assert forall|i: int| 0 <= i < M implies {
                    &&& crate::context::bits::<H>((#[trigger] results@[i]).0@)
                        == crate::context::bits::<H>(before@[i].0@)
                    &&& results@[i].1 is Some == before@[i].1 is Some
                    &&& results@[i].1 matches Some(v) ==> crate::context::bits::<H>(results@[i].0@)
                        == crate::rv::machine::spelled(v as u64, 32)
                } by {}
                assert(looped_results32::<H>(results@, sp, end));
            }
            assert(concluded::<H, D, [([W; 32], Option<u32>); M], 32>(
                r,
                M as int,
                max_steps as int,
                is_done,
                start,
                capacity,
                frame,
                plan,
                traces,
            ));
        }
    }
    r
}

} // verus!
