//! The looped-circuit emulator.
//!
//! The same instruction semantics as the single-pass interpreter, but with a
//! relaxed concrete-control-flow rule: when execution meets a branch whose
//! condition is symbolic, the emulator does not fail and does not unroll. It
//! closes the current step, makes the branch outcome a select on a **virtual
//! IP**, and transfers control by looping.
//!
//! Each step executes the straight-line code reachable from every live
//! candidate until a control-flow point:
//!
//! - one live candidate: the body executes directly on the live state;
//! - several live candidates: each body executes on a snapshot of the shared
//!   state, its stack writes predicated by the candidate's activity wire, and
//!   the resulting register files fold back through one select per register.
//!   Concrete stack pointers and return stacks must agree across continued
//!   bodies; divergence fails closed.
use crate::compare::{compare_word, ComparePredicate};
use crate::context::{keep, ContextWithValue};
use crate::memory::RawMemory;
use crate::rv::body::{BodyEnd, BodyKind, Course, Plan};
use crate::rv::control::Answers;
use crate::rv::entry::keep_file;
use crate::rv::handler::RvHandler;
use crate::rv::inst::{DecodeError, RvOp};
use crate::rv::machine::{emitted, ErtError, Frame, Hart, Machine};
use crate::storage;
use crate::table::CandidateTable;
use crate::word::{emit, keep_word, known_word, select_word, BitOp};
use vstd::prelude::*;

verus! {

/// One step of the emulator's progress.
#[derive(Clone, Copy, Debug, Eq, PartialEq, Structural)]
pub enum Step {
    /// Live paths remain; step again.
    Continue,
    /// Every path reached the exit `ECALL` (structurally known).
    Done,
}

/// The deepest a body may be inside unreturned calls at a control-flow point.
pub const MAX_INFLIGHT: usize = 8;

/// The state between two steps.
pub struct LoopState<'m, W, const BITS: usize> {
    pub mem: RawMemory<'m>,
    pub storage_bits: usize,
    pub rstack: Vec<u64>,
    pub regs: [[W; BITS]; 32],
    pub constants: [Option<u64>; 32],
    pub offs: [Option<i64>; 32],
    pub sp: u64,
    pub stack_top: u64,
    pub rsp: usize,
    pub zero: W,
    pub one: W,
    pub vip: [W; BITS],
    pub done: W,
    pub done_const: Option<bool>,
}

/// What the state between two steps means, with the cells of the virtual
/// stack and the live candidates.
#[verifier::ext_equal]
pub struct Loop {
    /// The machine's state, at no particular address.
    pub hart: Hart,
    /// The virtual instruction pointer.
    pub ip: Seq<bool>,
    /// Whether the active path exited.
    pub done: bool,
    /// What the structure of the paths says: every one exited, none did, or
    /// some.
    pub done_known: Option<bool>,
    pub cells: Seq<bool>,
    pub candidates: Seq<u64>,
}

/// The machine's state in a loop's.
pub open spec fn loop_hart<H: ContextWithValue<bool> + ?Sized, const BITS: usize>(
    s: LoopState<'_, H::Wrapped, BITS>,
) -> Hart {
    Hart {
        pc: 0,
        regs: crate::rv::machine::words::<H, BITS>(s.regs@),
        known: crate::thumb::machine::present(s.constants@),
        offs: s.offs@,
        sp: s.sp,
        rstack: s.rstack@,
        rsp: s.rsp as int,
    }
}

/// The meaning of a loop's state.
pub open spec fn meaning<H: ContextWithValue<bool> + ?Sized, const BITS: usize>(
    s: LoopState<'_, H::Wrapped, BITS>,
    cells: Seq<bool>,
    candidates: Seq<u64>,
) -> Loop {
    Loop {
        hart: loop_hart::<H, BITS>(s),
        ip: crate::context::bits::<H>(s.vip@),
        done: crate::context::bit::<H>(s.done),
        done_known: s.done_const,
        cells,
        candidates,
    }
}

/// The state's own bounds.
pub open spec fn bounded<W, const BITS: usize>(s: LoopState<'_, W, BITS>) -> bool {
    &&& BITS == 32 || BITS == 64
    &&& s.rsp <= s.rstack@.len()
    &&& crate::wide::fits(s.sp, BITS as nat)
}

/// The context carries meaning, the two constants are constants, and every
/// host-known fact agrees with its wires.
pub open spec fn live<H: ContextWithValue<bool> + ?Sized, const BITS: usize>(
    s: LoopState<'_, H::Wrapped, BITS>,
) -> bool where H::Wrapped: Clone {
    &&& crate::word::constants::<H>(s.zero, s.one)
    &&& crate::rv::machine::constants_agree::<H, BITS>(s.regs@, s.constants@)
    &&& crate::rv::machine::offsets_agree::<H, BITS>(s.regs@, s.offs@, s.sp)
}

/// What no step changes.
pub open spec fn framed<W, const BITS: usize>(
    before: LoopState<'_, W, BITS>,
    after: LoopState<'_, W, BITS>,
) -> bool {
    &&& after.mem == before.mem
    &&& after.storage_bits == before.storage_bits
    &&& after.stack_top == before.stack_top
    &&& after.zero == before.zero
    &&& after.one == before.one
    &&& after.rstack@.len() == before.rstack@.len()
    &&& bounded(after)
}

/// The surroundings of a body.
pub open spec fn frame_of<'m, W, const BITS: usize>(
    s: LoopState<'m, W, BITS>,
    active: bool,
) -> Frame<'m> {
    Frame {
        mem: s.mem,
        storage_bits: s.storage_bits as int,
        stack_top: s.stack_top,
        bits: BITS as nat,
        active,
        plain: false,
    }
}

/// Where a step leads.
pub enum Advance {
    /// To this state; `done` where every path has exited.
    To { next: Loop, done: bool },
    Unexpected,
    Decode(DecodeError),
    /// The answers given do not reach an end.
    Short,
}

/// A state as it stands between steps.
pub open spec fn parked(h: Hart) -> Hart {
    Hart { pc: 0, ..h }
}

impl Loop {
    /// The step of a single live candidate, whose body runs on the state
    /// itself.
    pub open spec fn advance_one(
        self,
        capacity: int,
        frame: Frame<'_>,
        plan: Plan<'_>,
        answers: Seq<Answers>,
    ) -> Advance {
        match crate::rv::body::body_runs(
            Hart { pc: self.candidates[0], ..self.hart },
            self.cells,
            frame,
            plan,
            answers,
        ) {
            Course::On { hart: _, cells: _ } => if answers.len() == u64::MAX {
                Advance::Unexpected
            } else {
                Advance::Short
            },
            Course::End(BodyEnd::Close { hart, cells, next, successors }) => if hart.rsp
                > self.hart.rsp + MAX_INFLIGHT || successors.len() > capacity {
                Advance::Unexpected
            } else {
                Advance::To {
                    next: Loop {
                        hart: parked(hart),
                        ip: crate::rv::machine::spelled(next, frame.bits),
                        done: self.done,
                        done_known: Some(false),
                        cells,
                        candidates: crate::table::extended(Seq::empty(), successors),
                    },
                    done: false,
                }
            },
            Course::End(BodyEnd::Exit { hart, cells }) => if hart.rsp > self.hart.rsp
                + MAX_INFLIGHT {
                Advance::Unexpected
            } else {
                Advance::To {
                    next: Loop {
                        hart: parked(hart),
                        ip: self.ip,
                        done: true,
                        done_known: Some(true),
                        cells,
                        candidates: Seq::empty(),
                    },
                    done: true,
                }
            },
            Course::End(BodyEnd::Unexpected) => Advance::Unexpected,
            Course::End(BodyEnd::Decode(e)) => Advance::Decode(e),
        }
    }
}

/// What the continued bodies of a step must share.
pub struct Agreed {
    pub sp: u64,
    pub rsp: int,
    /// The return addresses in use.
    pub frames: Seq<u64>,
}

/// A step of several candidates in progress.
pub struct Gather {
    pub regs: Seq<Seq<bool>>,
    pub known: Seq<bool>,
    pub offs: Seq<Option<i64>>,
    /// The stack pointer that `offs` are distances from.
    pub sp: u64,
    pub agreed: Option<Agreed>,
    pub ip: Seq<bool>,
    pub done: bool,
    pub exited: bool,
    pub continued: bool,
    pub cells: Seq<bool>,
    pub successors: Seq<u64>,
}

/// A step of several candidates, as far as it came.
pub enum Gathering {
    Going(Gather),
    Unexpected,
    Decode(DecodeError),
    Short,
}

/// Stack distances survive where they are the same and the stack pointer has
/// not moved.
pub open spec fn merged_offsets(
    body: Seq<Option<i64>>,
    body_sp: u64,
    held: Seq<Option<i64>>,
    held_sp: u64,
) -> Seq<Option<i64>> {
    Seq::new(
        32,
        |i: int|
            if body[i] == held[i] && body_sp == held_sp {
                held[i]
            } else {
                None
            },
    )
}

/// What every body of a step shares.
pub struct Common<'m> {
    /// The state in which each starts, but for its address.
    pub base: Hart,
    /// The virtual instruction pointer.
    pub ip: Seq<bool>,
    pub frame: Frame<'m>,
    pub plan: Plan<'m>,
    /// How many candidates the next step may have.
    pub room: int,
}

impl Gather {
    /// The registers of a body folded in: its wires where it is active, and of
    /// what the host knows only what both say.
    pub open spec fn fold(self, active: bool, hart: Hart, continued: bool) -> Gather {
        Gather {
            regs: crate::thumb::snapshot::chosen(active, hart.regs, self.regs),
            known: crate::thumb::generation::both_known(
                hart.known,
                hart.regs,
                self.known,
                self.regs,
            ),
            offs: merged_offsets(hart.offs, hart.sp, self.offs, self.sp),
            sp: if continued {
                hart.sp
            } else {
                self.sp
            },
            ..self
        }
    }

    /// One candidate's body.
    pub open spec fn visit(
        self,
        common: Common<'_>,
        candidate: u64,
        answers: Seq<Answers>,
    ) -> Gathering {
        let active = common.ip == crate::rv::machine::spelled(candidate, common.frame.bits);
        match crate::rv::body::body_runs(
            Hart { pc: candidate, ..common.base },
            self.cells,
            Frame { active, ..common.frame },
            common.plan,
            answers,
        ) {
            Course::On { hart: _, cells: _ } => if answers.len() == u64::MAX {
                Gathering::Unexpected
            } else {
                Gathering::Short
            },
            Course::End(BodyEnd::Close { hart, cells, next, successors }) => {
                let agreed = Agreed {
                    sp: hart.sp,
                    rsp: hart.rsp,
                    frames: hart.rstack.take(hart.rsp),
                };
                let more = crate::table::extended(self.successors, successors);
                if hart.rsp > common.base.rsp + MAX_INFLIGHT || (self.agreed is Some && self.agreed
                    != Some(agreed)) || more.len() > common.room {
                    Gathering::Unexpected
                } else {
                    Gathering::Going(
                        Gather {
                            agreed: Some(agreed),
                            ip: if active {
                                crate::rv::machine::spelled(next, common.frame.bits)
                            } else {
                                self.ip
                            },
                            continued: true,
                            cells,
                            successors: more,
                            ..self.fold(active, hart, true)
                        },
                    )
                }
            },
            Course::End(BodyEnd::Exit { hart, cells }) => if hart.rsp > common.base.rsp
                + MAX_INFLIGHT {
                Gathering::Unexpected
            } else {
                Gathering::Going(
                    Gather {
                        done: active || self.done,
                        exited: true,
                        cells,
                        ..self.fold(active, hart, false)
                    },
                )
            },
            Course::End(BodyEnd::Unexpected) => Gathering::Unexpected,
            Course::End(BodyEnd::Decode(e)) => Gathering::Decode(e),
        }
    }
}

/// The bodies of the first candidates, one per visit, in order.
pub open spec fn gathered(
    start: Gather,
    common: Common<'_>,
    candidates: Seq<u64>,
    visits: Seq<Seq<Answers>>,
) -> Gathering
    decreases visits.len(),
{
    if visits.len() == 0 {
        Gathering::Going(start)
    } else {
        match gathered(start, common, candidates, visits.drop_last()) {
            Gathering::Going(g) => g.visit(common, candidates[visits.len() - 1], visits.last()),
            other => other,
        }
    }
}

impl Loop {
    /// Where a step of several candidates starts.
    pub open spec fn opening(self) -> Gather {
        Gather {
            regs: self.hart.regs,
            known: self.hart.known,
            offs: self.hart.offs,
            sp: self.hart.sp,
            agreed: None,
            ip: self.ip,
            done: self.done,
            exited: false,
            continued: false,
            cells: self.cells,
            successors: Seq::empty(),
        }
    }

    /// What every body of a step shares.
    pub open spec fn common<'m>(self, room: int, frame: Frame<'m>, plan: Plan<'m>) -> Common<'m> {
        Common { base: self.hart, ip: self.ip, frame, plan, room }
    }

    /// The state after every candidate was visited.
    pub open spec fn settled(self, g: Gather) -> Loop {
        let folded = Hart { regs: g.regs, known: g.known, offs: g.offs, ..self.hart };
        Loop {
            hart: match g.agreed {
                Some(a) => Hart {
                    sp: a.sp,
                    rsp: a.rsp,
                    rstack: a.frames + self.hart.rstack.skip(a.rsp),
                    ..folded
                },
                None => folded,
            },
            ip: g.ip,
            done: g.done,
            done_known: if g.exited && !g.continued {
                Some(true)
            } else if !g.exited {
                Some(false)
            } else {
                None
            },
            cells: g.cells,
            candidates: g.successors,
        }
    }

    /// One step.
    pub open spec fn advance(
        self,
        capacity: int,
        frame: Frame<'_>,
        plan: Plan<'_>,
        visits: Seq<Seq<Answers>>,
    ) -> Advance {
        let count = self.candidates.len();
        if self.done_known == Some(true) || count == 0 {
            Advance::To { next: self, done: true }
        } else if count == 1 {
            if visits.len() == 1 {
                self.advance_one(capacity, frame, plan, visits[0])
            } else {
                Advance::Short
            }
        } else {
            match gathered(
                self.opening(),
                self.common(capacity - count, frame, plan),
                self.candidates,
                visits,
            ) {
                Gathering::Going(g) => if visits.len() == count {
                    Advance::To { next: self.settled(g), done: g.successors.len() == 0 }
                } else {
                    Advance::Short
                },
                Gathering::Unexpected => Advance::Unexpected,
                Gathering::Decode(e) => Advance::Decode(e),
                Gathering::Short => Advance::Short,
            }
        }
    }
}

impl Gather {
    /// The answers of one candidate's body are those that the handler gave.
    pub open spec fn sincere<H: RvHandler<bool, BITS> + ?Sized, const BITS: usize>(
        self,
        common: Common<'_>,
        candidate: u64,
        answers: Seq<Answers>,
    ) -> bool {
        let active = common.ip == crate::rv::machine::spelled(candidate, common.frame.bits);
        crate::rv::body::body_sincere::<H, BITS>(
            Hart { pc: candidate, ..common.base },
            self.cells,
            Frame { active, ..common.frame },
            common.plan,
            answers,
        )
    }
}

/// Every answer of every visit is one that the handler gave in the state of
/// its step.
pub open spec fn gathered_sincere<H: RvHandler<bool, BITS> + ?Sized, const BITS: usize>(
    start: Gather,
    common: Common<'_>,
    candidates: Seq<u64>,
    visits: Seq<Seq<Answers>>,
) -> bool
    decreases visits.len(),
{
    visits.len() == 0 || (gathered_sincere::<H, BITS>(
        start,
        common,
        candidates,
        visits.drop_last(),
    ) && match gathered(start, common, candidates, visits.drop_last()) {
        Gathering::Going(g) => g.sincere::<H, BITS>(
            common,
            candidates[visits.len() - 1],
            visits.last(),
        ),
        _ => true,
    })
}

impl Loop {
    /// The answers of a single live candidate's body are those that the
    /// handler gave.
    pub open spec fn sincere_one<H: RvHandler<bool, BITS> + ?Sized, const BITS: usize>(
        self,
        capacity: int,
        frame: Frame<'_>,
        plan: Plan<'_>,
        answers: Seq<Answers>,
    ) -> bool {
        crate::rv::body::body_sincere::<H, BITS>(
            Hart { pc: self.candidates[0], ..self.hart },
            self.cells,
            frame,
            plan,
            answers,
        )
    }

    /// Every answer of a step is one that the handler gave in the state of
    /// its instruction.
    pub open spec fn sincere<H: RvHandler<bool, BITS> + ?Sized, const BITS: usize>(
        self,
        capacity: int,
        frame: Frame<'_>,
        plan: Plan<'_>,
        visits: Seq<Seq<Answers>>,
    ) -> bool {
        let count = self.candidates.len();
        if self.done_known == Some(true) || count == 0 {
            true
        } else if count == 1 {
            visits.len() == 1 ==> self.sincere_one::<H, BITS>(capacity, frame, plan, visits[0])
        } else {
            gathered_sincere::<H, BITS>(
                self.opening(),
                self.common(capacity - count, frame, plan),
                self.candidates,
                visits,
            )
        }
    }
}

/// What a step did.
pub open spec fn stepped<H: RvHandler<bool, BITS> + ?Sized, const BITS: usize>(
    after: LoopState<'_, <H as ContextWithValue<bool>>::Wrapped, BITS>,
    cells: Seq<bool>,
    candidates: Seq<u64>,
    r: Result<Step, ErtError<H::Error>>,
    advance: Advance,
) -> bool where <H as ContextWithValue<bool>>::Wrapped: Clone {
    match r {
        Ok(step) => live::<H, BITS>(after) && advance == (Advance::To {
            next: meaning::<H, BITS>(after, cells, candidates),
            done: step == Step::Done,
        }),
        Err(ErtError::Unexpected) => advance is Unexpected,
        Err(ErtError::Decode(e)) => advance == Advance::Decode(e),
        Err(ErtError::Emitted(error)) => !crate::rv::handler::unfailing::<H, BITS>()
            && crate::rv::handler::stems::<H, BITS>(error),
    }
}

/// Copy a return stack.
fn copy_stack(from: &Vec<u64>) -> (r: Vec<u64>)
    ensures
        r@ == from@,
{
    let mut r: Vec<u64> = Vec::new();
    let mut i: usize = 0;
    while i < from.len()
        invariant
            i <= from@.len(),
            r@ == from@.take(i as int),
        decreases from@.len() - i,
    {
        r.push(from[i]);
        assert(from@.take(i + 1) =~= from@.take(i as int).push(from@[i as int]));
        i = i + 1;
    }
    assert(from@.take(i as int) =~= from@);
    r
}

impl<'m, W: Clone, const BITS: usize> LoopState<'m, W, BITS> {
    /// A machine that starts a body in this state.
    fn machine<H: ContextWithValue<bool, Wrapped = W> + ?Sized>(
        &self,
        pc: u64,
        predicate: Option<W>,
    ) -> (r: Machine<'m, W, BITS>)
        requires
            bounded(*self),
        ensures
            crate::rv::machine::bounded(r),
            r.storage_bits == self.storage_bits,
            r.rstack@.len() == self.rstack@.len(),
            crate::word::constants::<H>(self.zero, self.one) ==> crate::word::constants::<H>(
                r.zero,
                r.one,
            ),
            crate::rv::machine::frame::<H, BITS>(r) == frame_of(
                *self,
                match predicate {
                    Some(w) => crate::context::bit::<H>(w),
                    None => true,
                },
            ),
            live::<H, BITS>(*self) ==> {
                &&& crate::rv::machine::live::<H, BITS>(r)
                &&& crate::rv::machine::hart::<H, BITS>(r) == (Hart {
                    pc,
                    ..loop_hart::<H, BITS>(*self)
                })
            },
    {
        let regs = keep_file::<H, BITS>(&self.regs);
        let rstack = copy_stack(&self.rstack);
        let r = Machine {
            mem: self.mem,
            rstack,
            storage_bits: self.storage_bits,
            pc,
            regs,
            constants: self.constants,
            zero: keep::<H>(&self.zero),
            one: keep::<H>(&self.one),
            sp: self.sp,
            stack_top: self.stack_top,
            rsp: self.rsp,
            offs: self.offs,
            predicate,
            plain: false,
        };
        proof {
            if live::<H, BITS>(*self) {
                crate::rv::entry::same_words_agree::<H, BITS>(
                    self.regs@,
                    regs@,
                    self.constants@,
                );
                assert forall|i: int| 0 <= i < 32 implies ((#[trigger] r.offs@[i]) matches Some(o)
                    ==> crate::context::bits::<H>(r.regs@[i]@) == crate::rv::machine::spelled(
                    crate::rv::machine::at(r.sp, o),
                    BITS as nat,
                )) by {
                    assert(self.offs@[i] == r.offs@[i]);
                    assert(crate::rv::machine::words::<H, BITS>(regs@)[i]
                        == crate::rv::machine::words::<H, BITS>(self.regs@)[i]);
                }
            }
        }
        r
    }

    /// Take over the state that a body left.
    fn adopt(&mut self, machine: Machine<'m, W, BITS>)
        requires
            bounded(*old(self)),
            crate::rv::machine::bounded(machine),
            machine.rstack@.len() == old(self).rstack@.len(),
        ensures
            framed(*old(self), *final(self)),
            *final(self) == (LoopState {
                rstack: machine.rstack,
                regs: machine.regs,
                constants: machine.constants,
                offs: machine.offs,
                sp: machine.sp,
                rsp: machine.rsp,
                ..*old(self)
            }),
    {
        self.rstack = machine.rstack;
        self.regs = machine.regs;
        self.constants = machine.constants;
        self.offs = machine.offs;
        self.sp = machine.sp;
        self.rsp = machine.rsp;
    }

    /// The step of a single live candidate.
    fn step_one<H>(
        &mut self,
        h: &mut H,
        st: &mut H::Storage,
        candidates: &mut CandidateTable<'_, u64>,
        plan: &Plan<'_>,
    ) -> (r: Result<Step, ErtError<H::Error>>) where
        H: RvHandler<bool, BITS> + ContextWithValue<bool, Wrapped = W> + ?Sized,

        requires
            crate::rv::control::handles::<H, BITS>(),
            bounded(*old(self)),
            storage::reachable::<H>(
                old(st),
                old(self).storage_bits as int,
                old(self).zero,
                old(self).one,
            ),
            old(candidates).wf(),
            old(candidates).candidates().len() == 1,
        ensures
            framed(*old(self), *final(self)),
            storage::reachable::<H>(
                final(st),
                old(self).storage_bits as int,
                old(self).zero,
                old(self).one,
            ),
            final(candidates).wf(),
            final(candidates).capacity() == old(candidates).capacity(),
            H::tracks() && live::<H, BITS>(*old(self)) && r is Ok ==> undispatched::<H, BITS>(
                old(h),
                final(h),
                meaning::<H, BITS>(
                    *old(self),
                    H::cells(old(st)),
                    old(candidates).candidates(),
                ),
                frame_of(*old(self), true),
                *plan,
            ),
            H::tracks() && live::<H, BITS>(*old(self)) ==> exists|answers: Seq<Answers>|
                stepped::<H, BITS>(
                    *final(self),
                    H::cells(final(st)),
                    final(candidates).candidates(),
                    r,
                    #[trigger] meaning::<H, BITS>(
                        *old(self),
                        H::cells(old(st)),
                        old(candidates).candidates(),
                    ).advance_one(
                        old(candidates).capacity(),
                        frame_of(*old(self), true),
                        *plan,
                        answers,
                    ),
                ) && (crate::rv::control::unemitted(r) ==> meaning::<H, BITS>(
                        *old(self),
                        H::cells(old(st)),
                        old(candidates).candidates(),
                    ).sincere_one::<H, BITS>(
                        old(candidates).capacity(),
                        frame_of(*old(self), true),
                        *plan,
                        answers,
                    )),
    {
        let ghost good = H::tracks() && live::<H, BITS>(*self);
        let ghost before = meaning::<H, BITS>(*self, H::cells(st), candidates.candidates());
        let ghost capacity = candidates.capacity();
        let ghost around = frame_of(*self, true);
        let pc: u64 = candidates.current()[0];
        let mut machine = self.machine::<H>(pc, None);
        let ghost start = crate::rv::machine::hart::<H, BITS>(machine);
        let ghost cells = H::cells(st);
        let base_rsp: usize = self.rsp;
        let body = machine.execute_body(h, st, plan);
        let ghost answers = choose|answers: Seq<Answers>|
            crate::rv::body::body_did::<H, BITS>(
                machine,
                H::cells(st),
                body,
                answers.len() as int,
                #[trigger] crate::rv::body::body_runs(start, cells, around, *plan, answers),
            ) && (crate::rv::control::unemitted(body) ==> crate::rv::body::body_sincere::<H, BITS>(
                start,
                cells,
                around,
                *plan,
                answers,
            ));
        let ghost advance = before.advance_one(capacity, around, *plan, answers);
        proof {
            if good {
                assert(start == (Hart { pc, ..before.hart }));
            }
        }
        let kind = match body {
            Ok(kind) => kind,
            Err(error) => {
                proof {
                    if good {
                        assert(stepped::<H, BITS>(
                            *self,
                            H::cells(st),
                            candidates.candidates(),
                            Err(error),
                            advance,
                        ));
                    }
                }
                return Err(error);
            },
        };
        if machine.rsp > base_rsp && machine.rsp - base_rsp > MAX_INFLIGHT {
            proof {
                if good {
                    assert(stepped::<H, BITS>(
                        *self,
                        H::cells(st),
                        candidates.candidates(),
                        Err(ErtError::Unexpected),
                        advance,
                    ));
                }
            }
            return Err(ErtError::Unexpected);
        }
        self.adopt(machine);
        match kind {
            BodyKind::Close { next_vip, successors } => {
                self.vip = next_vip;
                if candidates.replace(successors.as_slice()).is_err() {
                    proof {
                        if good {
                            assert(stepped::<H, BITS>(
                                *self,
                                H::cells(st),
                                candidates.candidates(),
                                Err(ErtError::Unexpected),
                                advance,
                            ));
                        }
                    }
                    return Err(ErtError::Unexpected);
                }
                self.done_const = Some(false);
                proof {
                    if good {
                        assert(stepped::<H, BITS>(
                            *self,
                            H::cells(st),
                            candidates.candidates(),
                            Ok(Step::Continue),
                            advance,
                        ));
                    }
                }
                Ok(Step::Continue)
            },
            BodyKind::Exited => {
                self.done = keep::<H>(&self.one);
                self.done_const = Some(true);
                candidates.clear();
                proof {
                    if good {
                        assert(stepped::<H, BITS>(
                            *self,
                            H::cells(st),
                            candidates.candidates(),
                            Ok(Step::Done),
                            advance,
                        ));
                    }
                }
                Ok(Step::Done)
            },
        }
    }
}

/// What the bodies visited so far left.
struct Accumulator<W, const BITS: usize> {
    regs: [[W; BITS]; 32],
    constants: [Option<u64>; 32],
    offs: [Option<i64>; 32],
    sp: u64,
    agreed_sp: u64,
    agreed_rsp: usize,
    agreed_stack: Vec<u64>,
    vip: [W; BITS],
    done: W,
    any_exited: bool,
    any_continued: bool,
}

/// What an accumulator has gathered.
spec fn gather_of<H: ContextWithValue<bool> + ?Sized, const BITS: usize>(
    a: Accumulator<H::Wrapped, BITS>,
    cells: Seq<bool>,
    successors: Seq<u64>,
) -> Gather {
    Gather {
        regs: crate::rv::machine::words::<H, BITS>(a.regs@),
        known: crate::thumb::machine::present(a.constants@),
        offs: a.offs@,
        sp: a.sp,
        agreed: if a.any_continued {
            Some(
                Agreed {
                    sp: a.agreed_sp,
                    rsp: a.agreed_rsp as int,
                    frames: a.agreed_stack@.take(a.agreed_rsp as int),
                },
            )
        } else {
            None
        },
        ip: crate::context::bits::<H>(a.vip@),
        done: crate::context::bit::<H>(a.done),
        exited: a.any_exited,
        continued: a.any_continued,
        cells,
        successors,
    }
}

spec fn accumulator_ok<W, const BITS: usize>(a: Accumulator<W, BITS>, depth: int) -> bool {
    a.any_continued ==> {
        &&& a.agreed_rsp <= a.agreed_stack@.len()
        &&& a.agreed_stack@.len() == depth
        &&& crate::wide::fits(a.agreed_sp, BITS as nat)
    }
}

spec fn accumulator_live<H: ContextWithValue<bool> + ?Sized, const BITS: usize>(
    a: Accumulator<H::Wrapped, BITS>,
) -> bool {
    &&& crate::rv::machine::constants_agree::<H, BITS>(a.regs@, a.constants@)
    &&& crate::rv::machine::offsets_agree::<H, BITS>(a.regs@, a.offs@, a.sp)
}

/// Whether the first `depth` entries of two stacks are the same.
fn same_frames(a: &Vec<u64>, b: &Vec<u64>, depth: usize) -> (r: bool)
    requires
        depth <= a@.len(),
        depth <= b@.len(),
    ensures
        r == (a@.take(depth as int) == b@.take(depth as int)),
{
    let mut i: usize = 0;
    while i < depth
        invariant
            i <= depth,
            depth <= a@.len(),
            depth <= b@.len(),
            forall|j: int| 0 <= j < i ==> a@[j] == b@[j],
        decreases depth - i,
    {
        if a[i] != b[i] {
            assert(a@.take(depth as int)[i as int] != b@.take(depth as int)[i as int]);
            return false;
        }
        i = i + 1;
    }
    assert(a@.take(depth as int) =~= b@.take(depth as int));
    true
}

/// Merge two stack distances.
fn merge_offset(body: Option<i64>, body_sp: u64, held: Option<i64>, held_sp: u64) -> (r: Option<i64>)
    ensures
        r == if body == held && body_sp == held_sp {
            held
        } else {
            None
        },
{
    match (body, held) {
        (Some(b), Some(h)) => if b == h && body_sp == held_sp {
            Some(h)
        } else {
            None
        },
        _ => None,
    }
}

/// A single live candidate that stands at a symbolic branch takes that branch's
/// gates, its comparison and one select, and none to dispatch.
pub open spec fn undispatched<H: ContextWithValue<bool> + ?Sized, const BITS: usize>(
    before: &H,
    after: &H,
    l: Loop,
    frame: Frame<'_>,
    plan: Plan<'_>,
) -> bool {
    (Hart { pc: l.candidates[0], ..l.hart }).closes(frame, plan) matches Some(
        RvOp::Branch { predicate, .. },
    ) ==> crate::context::asked::<H>(
        before,
        after,
        crate::rv::body::branch_kinds(predicate, BITS as nat),
    )
}

/// The gates that fold `count` registers: one select for each.
pub open spec fn file_kinds(count: nat, bits: nat) -> Seq<BitOp>
    decreases count,
{
    if count == 0 {
        Seq::empty()
    } else {
        file_kinds((count - 1) as nat, bits) + crate::word::select_kinds(bits)
    }
}

/// What the host still knows after a fold is what both know alike.
proof fn folded_knowledge<H: ContextWithValue<bool> + ?Sized, const BITS: usize>(
    body_regs: Seq<[H::Wrapped; BITS]>,
    body: Seq<Option<u64>>,
    held_regs: Seq<[H::Wrapped; BITS]>,
    held: Seq<Option<u64>>,
)
    requires
        BITS == 32 || BITS == 64,
        body_regs.len() == 32,
        held_regs.len() == 32,
        body.len() == 32,
        held.len() == 32,
        crate::rv::machine::constants_agree::<H, BITS>(body_regs, body),
        crate::rv::machine::constants_agree::<H, BITS>(held_regs, held),
    ensures
        crate::thumb::machine::present(crate::thumb::snapshot::common(body, held))
            == crate::thumb::generation::both_known(
            crate::thumb::machine::present(body),
            crate::rv::machine::words::<H, BITS>(body_regs),
            crate::thumb::machine::present(held),
            crate::rv::machine::words::<H, BITS>(held_regs),
        ),
{
    let a = crate::thumb::machine::present(crate::thumb::snapshot::common(body, held));
    let b = crate::thumb::generation::both_known(
        crate::thumb::machine::present(body),
        crate::rv::machine::words::<H, BITS>(body_regs),
        crate::thumb::machine::present(held),
        crate::rv::machine::words::<H, BITS>(held_regs),
    );
    assert forall|i: int| 0 <= i < 32 implies a[i] == b[i] by {
        let x = body[i];
        let y = held[i];
        if x is Some && y is Some {
            if crate::rv::machine::spelled(x->0, BITS as nat) == crate::rv::machine::spelled(
                y->0,
                BITS as nat,
            ) {
                crate::wide::fits_injective(x->0, y->0, BITS as nat);
            }
        }
    }
    assert(a =~= b);
}

impl<W: Clone, const BITS: usize> Accumulator<W, BITS> {
    /// Fold a body's register file in: one select per register, and nothing
    /// else.
    fn fold<H>(
        &mut self,
        h: &mut H,
        active: &W,
        machine: &Machine<'_, W, BITS>,
        continued: bool,
    ) -> (r:
        Result<(), H::Error>) where
        H: RvHandler<bool, BITS> + ContextWithValue<bool, Wrapped = W> + ?Sized,

        requires
            BITS == 32 || BITS == 64,
        ensures
            r is Ok ==> crate::context::asked::<H>(
                old(h),
                final(h),
                file_kinds(32, BITS as nat),
            ),
            crate::context::reliable::<H>() ==> r is Ok,
            r matches Err(error) ==> crate::context::erred::<H>(error),
            *final(self) == (Accumulator {
                regs: final(self).regs,
                constants: final(self).constants,
                offs: final(self).offs,
                sp: if continued {
                    machine.sp
                } else {
                    old(self).sp
                },
                ..*old(self)
            }) || r is Err,
            r is Err ==> *final(self) == (Accumulator {
                regs: final(self).regs,
                constants: final(self).constants,
                offs: final(self).offs,
                ..*old(self)
            }),
            r is Ok && crate::context::sound::<H>() && accumulator_live::<H, BITS>(*old(self))
                && crate::rv::machine::live::<H, BITS>(*machine) ==> forall|
                cells: Seq<bool>,
                successors: Seq<u64>,
            | #[trigger]
                gather_of::<H, BITS>(*final(self), cells, successors) == gather_of::<H, BITS>(
                    *old(self),
                    cells,
                    successors,
                ).fold(
                    crate::context::bit::<H>(*active),
                    crate::rv::machine::hart::<H, BITS>(*machine),
                    continued,
                ),
            r is Ok && crate::context::sound::<H>() && accumulator_live::<H, BITS>(*old(self))
                && crate::rv::machine::live::<H, BITS>(*machine) ==> accumulator_live::<H, BITS>(
                *final(self),
            ),
    {
        let ghost on = crate::context::bit::<H>(*active);
        let held_sp: u64 = self.sp;
        proof {
            crate::context::asked_nothing::<H>(h);
        }
        let mut register: usize = 0;
        while register < 32
            invariant
                register <= 32,
                on == crate::context::bit::<H>(*active),
                held_sp == old(self).sp,
                *self == (Accumulator {
                    regs: self.regs,
                    constants: self.constants,
                    offs: self.offs,
                    ..*old(self)
                }),
                forall|j: int|
                    0 <= j < 32 ==> (#[trigger] self.constants@[j]) == if j < register
                        && machine.constants@[j] != old(self).constants@[j] {
                        None
                    } else {
                        old(self).constants@[j]
                    },
                forall|j: int|
                    0 <= j < 32 ==> (#[trigger] self.offs@[j]) == if j < register {
                        merged_offsets(
                            machine.offs@,
                            machine.sp,
                            old(self).offs@,
                            held_sp,
                        )[j]
                    } else {
                        old(self).offs@[j]
                    },
                crate::context::sound::<H>() ==> forall|j: int|
                    0 <= j < 32 ==> crate::context::bits::<H>(#[trigger] self.regs@[j]@) == if j
                        < register && on {
                        crate::context::bits::<H>(machine.regs@[j]@)
                    } else {
                        crate::context::bits::<H>(old(self).regs@[j]@)
                    },
                crate::context::asked::<H>(old(h), h, file_kinds(register as nat, BITS as nat)),
            decreases 32 - register,
        {
            let word = select_word(
                h,
                keep::<H>(active),
                &machine.regs[register],
                &self.regs[register],
            )?;
            self.regs[register] = word;
            proof {
                if H::logs() {
                    crate::rv::body::two_parts(
                        (*old(h)).gates(),
                        (*h).gates(),
                        file_kinds(register as nat, BITS as nat),
                        crate::word::select_kinds(BITS as nat),
                    );
                }
            }
            if machine.constants[register] != self.constants[register] {
                self.constants[register] = None;
            }
            self.offs[register] = merge_offset(
                machine.offs[register],
                machine.sp,
                self.offs[register],
                held_sp,
            );
            register = register + 1;
        }
        if continued {
            self.sp = machine.sp;
        }
        proof {
            if crate::context::sound::<H>() && accumulator_live::<H, BITS>(*old(self))
                && crate::rv::machine::live::<H, BITS>(*machine) {
                folded_knowledge::<H, BITS>(
                    machine.regs@,
                    machine.constants@,
                    old(self).regs@,
                    old(self).constants@,
                );
                assert(self.constants@ =~= crate::thumb::snapshot::common(
                    machine.constants@,
                    old(self).constants@,
                ));
                assert(self.offs@ =~= merged_offsets(
                    machine.offs@,
                    machine.sp,
                    old(self).offs@,
                    held_sp,
                ));
                assert(crate::rv::machine::words::<H, BITS>(self.regs@)
                    =~= crate::thumb::snapshot::chosen(
                    on,
                    crate::rv::machine::words::<H, BITS>(machine.regs@),
                    crate::rv::machine::words::<H, BITS>(old(self).regs@),
                ));
                assert forall|i: int| 0 <= i < 32 implies ((#[trigger] self.constants@[i])
                    matches Some(v) ==> crate::wide::fits(v, BITS as nat)
                    && crate::context::bits::<H>(self.regs@[i]@) == crate::rv::machine::spelled(
                    v,
                    BITS as nat,
                )) by {
                    assert(machine.constants@[i] == old(self).constants@[i]
                        || self.constants@[i] is None);
                }
                assert forall|i: int| 0 <= i < 32 implies ((#[trigger] self.offs@[i]) matches Some(
                    o,
                ) ==> crate::context::bits::<H>(self.regs@[i]@) == crate::rv::machine::spelled(
                    crate::rv::machine::at(self.sp, o),
                    BITS as nat,
                )) by {
                    if self.offs@[i] is Some {
                        assert(machine.offs@[i] is Some && old(self).offs@[i] is Some);
                    }
                }
            }
        }
        Ok(())
    }

    /// Check that a continued body's concrete stack state agrees with those
    /// before it, and keep it.
    fn agree(&mut self, machine: &Machine<'_, W, BITS>) -> (r: bool)
        requires
            accumulator_ok(*old(self), machine.rstack@.len() as int),
            machine.rsp <= machine.rstack@.len(),
            crate::wide::fits(machine.sp, BITS as nat),
        ensures
            r == (!old(self).any_continued || (old(self).agreed_sp == machine.sp && old(
                self,
            ).agreed_rsp == machine.rsp && old(self).agreed_stack@.take(old(self).agreed_rsp as int)
                == machine.rstack@.take(machine.rsp as int))),
            !r ==> *final(self) == *old(self),
            r ==> {
                &&& *final(self) == (Accumulator {
                    agreed_sp: machine.sp,
                    agreed_rsp: machine.rsp,
                    agreed_stack: final(self).agreed_stack,
                    any_continued: true,
                    ..*old(self)
                })
                &&& final(self).agreed_stack@.take(machine.rsp as int) == machine.rstack@.take(
                    machine.rsp as int,
                )
                &&& accumulator_ok(*final(self), machine.rstack@.len() as int)
            },
    {
        if self.any_continued {
            self.agreed_sp == machine.sp && self.agreed_rsp == machine.rsp && same_frames(
                &self.agreed_stack,
                &machine.rstack,
                machine.rsp,
            )
        } else {
            self.agreed_sp = machine.sp;
            self.agreed_rsp = machine.rsp;
            self.agreed_stack = copy_stack(&machine.rstack);
            self.any_continued = true;
            true
        }
    }
}

/// What one visit did. The successors of a body that went on are still to be
/// made candidates.
spec fn visited<H: RvHandler<bool, BITS> + ?Sized, const BITS: usize>(
    after: Accumulator<<H as ContextWithValue<bool>>::Wrapped, BITS>,
    r: Result<Option<Vec<u64>>, ErtError<H::Error>>,
    successors: Seq<u64>,
    cells: Seq<bool>,
    end: Gathering,
) -> bool {
    match r {
        Ok(found) => {
            &&& accumulator_live::<H, BITS>(after)
            &&& end == Gathering::Going(
                gather_of::<H, BITS>(
                    after,
                    cells,
                    match found {
                        Some(list) => crate::table::extended(successors, list@),
                        None => successors,
                    },
                ),
            )
        },
        Err(ErtError::Unexpected) => end is Unexpected,
        Err(ErtError::Decode(e)) => end == Gathering::Decode(e),
        Err(ErtError::Emitted(error)) => !crate::rv::handler::unfailing::<H, BITS>()
            && crate::rv::handler::stems::<H, BITS>(error),
    }
}

impl<W: Clone, const BITS: usize> Accumulator<W, BITS> {
    /// Gather what a body left.
    fn absorb<H>(
        &mut self,
        h: &mut H,
        active: W,
        machine: &Machine<'_, W, BITS>,
        kind: BodyKind<W, BITS>,
        base_rsp: usize,
        zero: &W,
        one: &W,
        Ghost(cells): Ghost<Seq<bool>>,
        Ghost(before): Ghost<Gather>,
        Ghost(common): Ghost<Common<'_>>,
        Ghost(candidate): Ghost<u64>,
        Ghost(answers): Ghost<Seq<Answers>>,
        Ghost(successors): Ghost<Seq<u64>>,
        Ghost(course): Ghost<Course>,
    ) -> (r: Result<Option<Vec<u64>>, ErtError<H::Error>>) where
        H: RvHandler<bool, BITS> + ContextWithValue<bool, Wrapped = W> + ?Sized,

        requires
            BITS == 32 || BITS == 64,
            accumulator_ok(*old(self), machine.rstack@.len() as int),
            crate::rv::machine::bounded(*machine),
        ensures
            accumulator_ok(*final(self), machine.rstack@.len() as int),
            crate::word::constants::<H>(*zero, *one) && accumulator_live::<H, BITS>(*old(self))
                && crate::rv::body::body_did::<H, BITS>(
                *machine,
                cells,
                Ok(kind),
                answers.len() as int,
                course,
            ) && before == gather_of::<H, BITS>(*old(self), before.cells, successors)
                && common.base.rsp == base_rsp && common.frame.bits == BITS && common.room
                >= crate::table::extended(
                successors,
                match kind {
                    BodyKind::Close { next_vip: _, successors } => successors@,
                    BodyKind::Exited => Seq::empty(),
                },
            ).len() && crate::context::bit::<H>(active) == (common.ip
                == crate::rv::machine::spelled(candidate, BITS as nat)) && course
                == crate::rv::body::body_runs(
                Hart { pc: candidate, ..common.base },
                before.cells,
                Frame { active: crate::context::bit::<H>(active), ..common.frame },
                common.plan,
                answers,
            ) ==> visited::<H, BITS>(
                *final(self),
                r,
                successors,
                cells,
                before.visit(common, candidate, answers),
            ),
    {
        if machine.rsp > base_rsp && machine.rsp - base_rsp > MAX_INFLIGHT {
            return Err(ErtError::Unexpected);
        }
        match kind {
            BodyKind::Close { next_vip, successors: list } => {
                let ghost given = *self;
                if !self.agree(machine) {
                    return Err(ErtError::Unexpected);
                }
                let ghost agreeing = *self;
                emitted(self.fold(h, &active, machine, true))?;
                let ghost folded = *self;
                let vip = emitted(select_word(h, active, &next_vip, &self.vip))?;
                self.vip = vip;
                proof {
                    assert(accumulator_live::<H, BITS>(given) ==> accumulator_live::<H, BITS>(
                        agreeing,
                    ));
                    assert(accumulator_live::<H, BITS>(folded) ==> accumulator_live::<H, BITS>(
                        *self,
                    ));
                    let a = gather_of::<H, BITS>(agreeing, cells, successors);
                    let b = gather_of::<H, BITS>(folded, cells, successors);
                }
                Ok(Some(list))
            },
            BodyKind::Exited => {
                let ghost given = *self;
                emitted(self.fold(h, &active, machine, false))?;
                let ghost folded = *self;
                let held = keep::<H>(&self.done);
                let done = emitted(emit(h, BitOp::Or, held, active))?;
                self.done = done;
                self.any_exited = true;
                proof {
                    assert(accumulator_live::<H, BITS>(folded) ==> accumulator_live::<H, BITS>(
                        *self,
                    ));
                    let b = gather_of::<H, BITS>(folded, cells, successors);
                }
                Ok(None)
            },
        }
    }
}

/// Room for whatever one body may find, and no less than `room`.
spec fn ample(successors: Seq<u64>, room: int) -> int {
    successors.len() + usize::MAX + room
}

/// A visit with less room goes on where the successors still fit.
proof fn room_matters(g: Gather, common: Common<'_>, room: int, candidate: u64, answers: Seq<Answers>)
    requires
        g.successors.len() <= room <= common.room,
    ensures
        match g.visit(common, candidate, answers) {
            Gathering::Going(next) => g.visit((Common { room, ..common }), candidate, answers) == if
                next.successors.len() > room {
                Gathering::Unexpected
            } else {
                Gathering::Going(next)
            },
            other => g.visit((Common { room, ..common }), candidate, answers) == other,
        },
{
}

impl<'m, W: Clone, const BITS: usize> LoopState<'m, W, BITS> {
    /// Run the body of one candidate on a snapshot and gather what it leaves.
    fn visit<H>(
        &self,
        gathered: &mut Accumulator<W, BITS>,
        h: &mut H,
        st: &mut H::Storage,
        candidate: u64,
        plan: &Plan<'_>,
        Ghost(successors): Ghost<Seq<u64>>,
        Ghost(room): Ghost<int>,
    ) -> (r: Result<Option<Vec<u64>>, ErtError<H::Error>>) where
        H: RvHandler<bool, BITS> + ContextWithValue<bool, Wrapped = W> + ?Sized,

        requires
            room >= 0,
            crate::rv::control::handles::<H, BITS>(),
            bounded(*self),
            accumulator_ok(*old(gathered), self.rstack@.len() as int),
            storage::reachable::<H>(old(st), self.storage_bits as int, self.zero, self.one),
        ensures
            accumulator_ok(*final(gathered), self.rstack@.len() as int),
            storage::reachable::<H>(final(st), self.storage_bits as int, self.zero, self.one),
            H::tracks() && live::<H, BITS>(*self) && accumulator_live::<H, BITS>(*old(gathered))
                ==> exists|answers: Seq<Answers>|
                visited::<H, BITS>(
                    *final(gathered),
                    r,
                    successors,
                    H::cells(final(st)),
                    #[trigger] gather_of::<H, BITS>(
                        *old(gathered),
                        H::cells(old(st)),
                        successors,
                    ).visit(
                        Common {
                            base: loop_hart::<H, BITS>(*self),
                            ip: crate::context::bits::<H>(self.vip@),
                            frame: frame_of(*self, true),
                            plan: *plan,
                            room: ample(successors, room),
                        },
                        candidate,
                        answers,
                    ),
                ) && (crate::rv::control::unemitted(r) ==> gather_of::<H, BITS>(
                        *old(gathered),
                        H::cells(old(st)),
                        successors,
                    ).sincere::<H, BITS>(
                        Common {
                            base: loop_hart::<H, BITS>(*self),
                            ip: crate::context::bits::<H>(self.vip@),
                            frame: frame_of(*self, true),
                            plan: *plan,
                            room: ample(successors, room),
                        },
                        candidate,
                        answers,
                    )),
    {
        let ghost good = H::tracks() && live::<H, BITS>(*self) && accumulator_live::<H, BITS>(
            *gathered,
        );
        let ghost common = Common {
            base: loop_hart::<H, BITS>(*self),
            ip: crate::context::bits::<H>(self.vip@),
            frame: frame_of(*self, true),
            plan: *plan,
            room: ample(successors, room),
        };
        let ghost cells = H::cells(st);
        let ghost before = gather_of::<H, BITS>(*gathered, cells, successors);
        let here = known_word::<H, BITS>(&self.zero, &self.one, candidate);
        let active = match compare_word(h, &self.vip, &here, ComparePredicate::Eq, &self.one) {
            Ok(active) => active,
            Err(error) => {
                proof {
                    let none: Seq<Answers> = Seq::empty();
                    assert(visited::<H, BITS>(
                        *gathered,
                        Err(ErtError::Emitted(error)),
                        successors,
                        cells,
                        before.visit(common, candidate, none),
                    ));
                }
                return Err(ErtError::Emitted(error));
            },
        };
        let ghost on = crate::context::bit::<H>(active);
        let predicate = keep::<H>(&active);
        let mut machine = self.machine::<H>(candidate, Some(predicate));
        let ghost start = crate::rv::machine::hart::<H, BITS>(machine);
        let ghost around = crate::rv::machine::frame::<H, BITS>(machine);
        let body = machine.execute_body(h, st, plan);
        let ghost answers = choose|answers: Seq<Answers>|
            crate::rv::body::body_did::<H, BITS>(
                machine,
                H::cells(st),
                body,
                answers.len() as int,
                #[trigger] crate::rv::body::body_runs(start, cells, around, *plan, answers),
            ) && (crate::rv::control::unemitted(body) ==> crate::rv::body::body_sincere::<H, BITS>(
                start,
                cells,
                around,
                *plan,
                answers,
            ));
        let ghost course = crate::rv::body::body_runs(start, cells, around, *plan, answers);
        let ghost end = before.visit(common, candidate, answers);
        proof {
            if good {
                assert(start == (Hart { pc: candidate, ..common.base }));
                assert(around == (Frame { active: on, ..common.frame }));
            }
        }
        let kind = match body {
            Ok(kind) => kind,
            Err(error) => {
                proof {
                    if good {
                        assert(visited::<H, BITS>(
                            *gathered,
                            Err(error),
                            successors,
                            H::cells(st),
                            end,
                        ));
                    }
                }
                return Err(error);
            },
        };
        if let BodyKind::Close { successors: list, .. } = &kind {
            let count: usize = list.len();
            proof {
                crate::table::extended_bound(successors, list@);
            }
        }
        let ghost after = H::cells(st);
        gathered.absorb(
            h,
            active,
            &machine,
            kind,
            self.rsp,
            &self.zero,
            &self.one,
            Ghost(after),
            Ghost(before),
            Ghost(common),
            Ghost(candidate),
            Ghost(answers),
            Ghost(successors),
            Ghost(course),
        )
    }
}

impl<'m, W: Clone, const BITS: usize> LoopState<'m, W, BITS> {
    /// An accumulator that has visited nothing yet.
    fn accumulator<H: ContextWithValue<bool, Wrapped = W> + ?Sized>(&self) -> (r: Accumulator<
        W,
        BITS,
    >)
        ensures
            !r.any_continued,
            crate::context::sound::<H>() ==> {
                &&& crate::rv::machine::constants_agree::<H, BITS>(self.regs@, self.constants@)
                    && crate::rv::machine::offsets_agree::<H, BITS>(self.regs@, self.offs@, self.sp)
                    ==> accumulator_live::<H, BITS>(r)
                &&& forall|cells: Seq<bool>, candidates: Seq<u64>| #[trigger]
                    gather_of::<H, BITS>(r, cells, Seq::empty()) == (#[trigger] meaning::<H, BITS>(
                        *self,
                        cells,
                        candidates,
                    )).opening()
            },
    {
        let regs = keep_file::<H, BITS>(&self.regs);
        let r = Accumulator {
            regs,
            constants: self.constants,
            offs: self.offs,
            sp: self.sp,
            agreed_sp: self.sp,
            agreed_rsp: 0,
            agreed_stack: Vec::new(),
            vip: keep_word::<H, BITS>(&self.vip),
            done: keep::<H>(&self.done),
            any_exited: false,
            any_continued: false,
        };
        proof {
            if crate::context::sound::<H>() {
                if crate::rv::machine::constants_agree::<H, BITS>(self.regs@, self.constants@) {
                    crate::rv::entry::same_words_agree::<H, BITS>(
                        self.regs@,
                        regs@,
                        self.constants@,
                    );
                }
                if crate::rv::machine::offsets_agree::<H, BITS>(self.regs@, self.offs@, self.sp) {
                    assert forall|i: int| 0 <= i < 32 implies ((#[trigger] r.offs@[i]) matches Some(
                        o,
                    ) ==> crate::context::bits::<H>(r.regs@[i]@) == crate::rv::machine::spelled(
                        crate::rv::machine::at(r.sp, o),
                        BITS as nat,
                    )) by {
                        assert(self.offs@[i] == r.offs@[i]);
                        assert(crate::rv::machine::words::<H, BITS>(regs@)[i]
                            == crate::rv::machine::words::<H, BITS>(self.regs@)[i]);
                    }
                }
            }
        }
        r
    }

    /// Take over what the bodies of a step left.
    fn settle<H>(&mut self, gathered: Accumulator<W, BITS>) where
        H: ContextWithValue<bool, Wrapped = W> + ?Sized,

        requires
            bounded(*old(self)),
            accumulator_ok(gathered, old(self).rstack@.len() as int),
        ensures
            framed(*old(self), *final(self)),
            crate::word::constants::<H>(old(self).zero, old(self).one) && accumulator_live::<
                H,
                BITS,
            >(gathered) && (if gathered.any_continued {
                gathered.sp == gathered.agreed_sp
            } else {
                gathered.sp == old(self).sp
            }) ==> live::<H, BITS>(*final(self)),
            forall|cells: Seq<bool>, candidates: Seq<u64>, more: Seq<bool>, next: Seq<u64>|
                #![trigger meaning::<H, BITS>(*final(self), more, next), meaning::<H, BITS>(*old(self), cells, candidates)]
                meaning::<H, BITS>(*final(self), more, next) == meaning::<H, BITS>(
                    *old(self),
                    cells,
                    candidates,
                ).settled(gather_of::<H, BITS>(gathered, more, next)),
    {
        let ghost stack = self.rstack@;
        self.regs = gathered.regs;
        self.constants = gathered.constants;
        self.offs = gathered.offs;
        self.vip = gathered.vip;
        self.done = gathered.done;
        self.done_const = if gathered.any_exited && !gathered.any_continued {
            Some(true)
        } else if !gathered.any_exited {
            Some(false)
        } else {
            None
        };
        if gathered.any_continued {
            self.sp = gathered.agreed_sp;
            self.rsp = gathered.agreed_rsp;
            let ghost set = *self;
            let mut i: usize = 0;
            while i < gathered.agreed_rsp
                invariant
                    i <= gathered.agreed_rsp <= gathered.agreed_stack@.len(),
                    gathered.agreed_stack@.len() == stack.len(),
                    self.rstack@.len() == stack.len(),
                    *self == (LoopState { rstack: self.rstack, ..set }),
                    forall|j: int| 0 <= j < i ==> self.rstack@[j] == gathered.agreed_stack@[j],
                    forall|j: int| i <= j < stack.len() ==> self.rstack@[j] == stack[j],
                decreases gathered.agreed_rsp - i,
            {
                self.rstack.set(i, gathered.agreed_stack[i]);
                i = i + 1;
            }
            assert(self.rstack@ =~= gathered.agreed_stack@.take(gathered.agreed_rsp as int)
                + stack.skip(gathered.agreed_rsp as int));
        }
    }

    /// The step of several live candidates.
    fn step_many<H>(
        &mut self,
        h: &mut H,
        st: &mut H::Storage,
        candidates: &mut CandidateTable<'_, u64>,
        plan: &Plan<'_>,
    ) -> (r: Result<Step, ErtError<H::Error>>) where
        H: RvHandler<bool, BITS> + ContextWithValue<bool, Wrapped = W> + ?Sized,

        requires
            crate::rv::control::handles::<H, BITS>(),
            bounded(*old(self)),
            storage::reachable::<H>(
                old(st),
                old(self).storage_bits as int,
                old(self).zero,
                old(self).one,
            ),
            old(candidates).wf(),
            old(candidates).candidates().len() > 1,
            old(self).done_const != Some(true),
        ensures
            framed(*old(self), *final(self)),
            storage::reachable::<H>(
                final(st),
                old(self).storage_bits as int,
                old(self).zero,
                old(self).one,
            ),
            final(candidates).wf(),
            final(candidates).capacity() == old(candidates).capacity(),
            H::tracks() && live::<H, BITS>(*old(self)) ==> exists|visits: Seq<Seq<Answers>>|
                stepped::<H, BITS>(
                    *final(self),
                    H::cells(final(st)),
                    final(candidates).candidates(),
                    r,
                    #[trigger] meaning::<H, BITS>(
                        *old(self),
                        H::cells(old(st)),
                        old(candidates).candidates(),
                    ).advance(
                        old(candidates).capacity(),
                        frame_of(*old(self), true),
                        *plan,
                        visits,
                    ),
                ) && (crate::rv::control::unemitted(r) ==> meaning::<H, BITS>(
                        *old(self),
                        H::cells(old(st)),
                        old(candidates).candidates(),
                    ).sincere::<H, BITS>(
                        old(candidates).capacity(),
                        frame_of(*old(self), true),
                        *plan,
                        visits,
                    )),
    {
        let ghost good = H::tracks() && live::<H, BITS>(*self);
        let ghost given = *self;
        let ghost cells = H::cells(st);
        let ghost list = candidates.candidates();
        let ghost before = meaning::<H, BITS>(*self, cells, list);
        let ghost capacity = candidates.capacity();
        let ghost around = frame_of(*self, true);
        let ghost room = candidates.room();
        let ghost common = before.common(room, around, *plan);
        let mut gathered = self.accumulator::<H>();
        let ghost mut visits: Seq<Seq<Answers>> = Seq::empty();
        let count: usize = candidates.len();
        let mut next_len: usize = 0;
        let mut i: usize = 0;
        proof {
            assert(candidates.upcoming(0) =~= Seq::empty());
            assert(room == capacity - list.len());
        }
        while i < count
            invariant
                crate::rv::control::handles::<H, BITS>(),
                *self == given,
                given == *old(self),
                bounded(*self),
                storage::reachable::<H>(st, self.storage_bits as int, self.zero, self.one),
                candidates.wf(),
                candidates.capacity() == capacity,
                capacity == old(candidates).capacity(),
                candidates.room() == room,
                candidates.candidates() == list,
                list == old(candidates).candidates(),
                room == capacity - list.len(),
                count == list.len(),
                count > 1,
                i <= count,
                next_len <= room,
                visits.len() == i,
                good == (H::tracks() && live::<H, BITS>(*old(self))),
                cells == H::cells(old(st)),
                before == meaning::<H, BITS>(*old(self), cells, list),
                before.done_known != Some(true),
                around == frame_of(*old(self), true),
                common == before.common(room, around, *plan),
                accumulator_ok(gathered, self.rstack@.len() as int),
                good ==> {
                    &&& accumulator_live::<H, BITS>(gathered)
                    &&& gathered_sincere::<H, BITS>(before.opening(), common, list, visits)
                    &&& gathered.any_continued ==> gathered.sp == gathered.agreed_sp
                    &&& !gathered.any_continued ==> gathered.sp == given.sp
                    &&& self::gathered(before.opening(), common, list, visits) == Gathering::Going(
                        gather_of::<H, BITS>(
                            gathered,
                            H::cells(st),
                            candidates.upcoming(next_len as int),
                        ),
                    )
                },
            decreases count - i,
        {
            let candidate: u64 = candidates.current()[i];
            let ghost so_far = candidates.upcoming(next_len as int);
            let ghost held = gather_of::<H, BITS>(gathered, H::cells(st), so_far);
            let ghost wide = Common { room: ample(so_far, room), ..common };
            let ghost past = visits;
            let done = self.visit(
                &mut gathered,
                h,
                st,
                candidate,
                plan,
                Ghost(so_far),
                Ghost(room),
            );
            let ghost answers = choose|answers: Seq<Answers>|
                visited::<H, BITS>(
                    gathered,
                    done,
                    so_far,
                    H::cells(st),
                    #[trigger] held.visit(wide, candidate, answers),
                ) && (crate::rv::control::unemitted(done) ==> held.sincere::<H, BITS>(
                    wide,
                    candidate,
                    answers,
                ));
            proof {
                visits = past.push(answers);
                assert(visits.drop_last() =~= past);
                if good {
                    room_matters(held, wide, room, candidate, answers);
                    assert((Common { room, ..wide }) == common);
                }
            }
            let found = match done {
                Ok(found) => found,
                Err(error) => {
                    proof {
                        if good {
                            let advance = before.advance(capacity, around, *plan, visits);
                            assert(stepped::<H, BITS>(
                                *self,
                                H::cells(st),
                                candidates.candidates(),
                                Err(error),
                                advance,
                            ));
                        }
                    }
                    return Err(error);
                },
            };
            if let Some(successors) = found {
                match candidates.append_all(next_len, successors.as_slice()) {
                    Ok(len) => {
                        next_len = len;
                    },
                    Err(_) => {
                        proof {
                            if good {
                                let advance = before.advance(capacity, around, *plan, visits);
                                assert(stepped::<H, BITS>(
                                    *self,
                                    H::cells(st),
                                    candidates.candidates(),
                                    Err(ErtError::Unexpected),
                                    advance,
                                ));
                            }
                        }
                        return Err(ErtError::Unexpected);
                    },
                }
            }
            i = i + 1;
        }
        let ghost last = gathered;
        let ghost next = candidates.upcoming(next_len as int);
        let _ = candidates.finish_next(next_len);
        self.settle::<H>(gathered);
        let step = if next_len == 0 {
            Step::Done
        } else {
            Step::Continue
        };
        proof {
            if good {
                let advance = before.advance(capacity, around, *plan, visits);
                assert(meaning::<H, BITS>(*self, H::cells(st), next) == before.settled(
                    gather_of::<H, BITS>(last, H::cells(st), next),
                ));
                assert(stepped::<H, BITS>(
                    *self,
                    H::cells(st),
                    candidates.candidates(),
                    Ok(step),
                    advance,
                ));
            }
        }
        Ok(step)
    }

    /// Execute one step: every live candidate's body runs to its next
    /// control-flow point and the results fold.
    pub fn step<H>(
        &mut self,
        h: &mut H,
        st: &mut H::Storage,
        candidates: &mut CandidateTable<'_, u64>,
        plan: &Plan<'_>,
    ) -> (r: Result<Step, ErtError<H::Error>>) where
        H: RvHandler<bool, BITS> + ContextWithValue<bool, Wrapped = W> + ?Sized,

        requires
            crate::rv::control::handles::<H, BITS>(),
            bounded(*old(self)),
            storage::reachable::<H>(
                old(st),
                old(self).storage_bits as int,
                old(self).zero,
                old(self).one,
            ),
            old(candidates).wf(),
        ensures
            framed(*old(self), *final(self)),
            storage::reachable::<H>(
                final(st),
                old(self).storage_bits as int,
                old(self).zero,
                old(self).one,
            ),
            final(candidates).wf(),
            final(candidates).capacity() == old(candidates).capacity(),
            H::tracks() && live::<H, BITS>(*old(self)) && r is Ok && old(self).done_const != Some(
                true,
            ) && old(candidates).candidates().len() == 1 ==> undispatched::<H, BITS>(
                old(h),
                final(h),
                meaning::<H, BITS>(
                    *old(self),
                    H::cells(old(st)),
                    old(candidates).candidates(),
                ),
                frame_of(*old(self), true),
                *plan,
            ),
            H::tracks() && live::<H, BITS>(*old(self)) ==> exists|visits: Seq<Seq<Answers>>|
                stepped::<H, BITS>(
                    *final(self),
                    H::cells(final(st)),
                    final(candidates).candidates(),
                    r,
                    #[trigger] meaning::<H, BITS>(
                        *old(self),
                        H::cells(old(st)),
                        old(candidates).candidates(),
                    ).advance(
                        old(candidates).capacity(),
                        frame_of(*old(self), true),
                        *plan,
                        visits,
                    ),
                ) && (crate::rv::control::unemitted(r) ==> meaning::<H, BITS>(
                        *old(self),
                        H::cells(old(st)),
                        old(candidates).candidates(),
                    ).sincere::<H, BITS>(
                        old(candidates).capacity(),
                        frame_of(*old(self), true),
                        *plan,
                        visits,
                    )),
    {
        let ghost before = meaning::<H, BITS>(*self, H::cells(st), candidates.candidates());
        let ghost capacity = candidates.capacity();
        let ghost around = frame_of(*self, true);
        let ghost good = H::tracks() && live::<H, BITS>(*self);
        let exited = match self.done_const {
            Some(done) => done,
            None => false,
        };
        if exited || candidates.len() == 0 {
            proof {
                if good {
                    let none: Seq<Seq<Answers>> = Seq::empty();
                    assert(stepped::<H, BITS>(
                        *self,
                        H::cells(st),
                        candidates.candidates(),
                        Ok(Step::Done),
                        before.advance(capacity, around, *plan, none),
                    ));
                }
            }
            return Ok(Step::Done);
        }
        if candidates.len() == 1 {
            let r = self.step_one(h, st, candidates, plan);
            proof {
                if good {
                    let answers = choose|answers: Seq<Answers>|
                        stepped::<H, BITS>(
                            *self,
                            H::cells(st),
                            candidates.candidates(),
                            r,
                            #[trigger] before.advance_one(capacity, around, *plan, answers),
                        ) && (crate::rv::control::unemitted(r) ==> before.sincere_one::<H, BITS>(
                            capacity,
                            around,
                            *plan,
                            answers,
                        ));
                    let visits = seq![answers];
                    if crate::rv::control::unemitted(r) {
                        assert(before.sincere::<H, BITS>(capacity, around, *plan, visits));
                    }
                    assert(before.advance(capacity, around, *plan, visits) == before.advance_one(
                        capacity,
                        around,
                        *plan,
                        answers,
                    ));
                }
            }
            return r;
        }
        self.step_many(h, st, candidates, plan)
    }
}

} // verus!
