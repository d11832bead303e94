//! Looped bodies: execution up to a control-flow point that the host cannot
//! decide.
use crate::compare::{compare_word, ComparePredicate};
use crate::context::{ContextWithValue, Gate};
use crate::rv::control::Answers;
use crate::rv::handler::RvHandler;
use crate::rv::inst::{DecodeError, FetchError, RvOp};
use crate::rv::machine::{emitted, ErtError, Flow, Frame, Hart, Machine, Step, RA};
use crate::rv::program::{find, resolve_all, IndirectTargets, LoopedProgram};
use crate::wide::{to_pattern, truncate};
use crate::word::{known_word, select_word, BitOp};
use vstd::prelude::*;

verus! {

/// What a looped execution is told of its program.
pub struct Plan<'a> {
    pub indirect: &'a [IndirectTargets<'a>],
    pub program: Option<&'a LoopedProgram>,
}

/// What an instruction means to a body.
pub enum Turn {
    /// It is executed.
    Open,
    /// It closes the body, in this state: the address that comes next, and
    /// the addresses that may.
    Close { hart: Hart, next: u64, successors: Seq<u64> },
    /// It cannot close the body as declared.
    Unexpected,
}

/// Where the base value of an indirect jump leads: to the first declared
/// target that it equals, and else to the last.
pub open spec fn dispatched(targets: Seq<u64>, base: Seq<bool>, offset: i64, bits: nat) -> u64
    decreases targets.len(),
{
    if targets.len() <= 1 || base == crate::rv::machine::spelled(targets[0], bits) {
        crate::rv::program::resolved(targets[0], offset, bits)
    } else {
        dispatched(targets.skip(1), base, offset, bits)
    }
}

/// The two targets of a branch, or one where they are the same.
pub open spec fn branch_successors(taken: u64, fallthrough: u64) -> Seq<u64> {
    if taken == fallthrough {
        seq![taken]
    } else {
        seq![taken, fallthrough]
    }
}

impl Hart {
    /// What an operation means to a body, in a state whose fixed registers
    /// are set.
    pub open spec fn turn(self, plan: Plan<'_>, op: RvOp, len: u64, bits: nat) -> Turn {
        let next = crate::wide::low(self.pc.wrapping_add(len), bits);
        match op {
            RvOp::Branch { predicate, left, right, offset } => if self.known[left as int]
                && self.known[right as int] {
                Turn::Open
            } else {
                let taken = crate::wide::low(crate::rv::machine::at(self.pc, offset), bits);
                if plan.program matches Some(program) && !(program.boundary_map().contains_key(
                    self.pc,
                ) && program.boundary_map()[self.pc] == (taken, next)) {
                    Turn::Unexpected
                } else {
                    Turn::Close {
                        hart: self,
                        next: if crate::compare::holds(
                            predicate,
                            self.regs[left as int],
                            self.regs[right as int],
                        ) {
                            taken
                        } else {
                            next
                        },
                        successors: branch_successors(taken, next),
                    }
                }
            },
            RvOp::JumpRegister { dest, base, offset } => if (dest == 0 && base == RA && offset == 0)
                || self.known[base as int] {
                Turn::Open
            } else {
                match crate::rv::program::declared(plan.indirect@, self.pc) {
                    None => Turn::Open,
                    Some(targets) => if targets.len() == 0 || (plan.program matches Some(program)
                        && !program.indirect_list().contains(self.pc)) {
                        Turn::Unexpected
                    } else {
                        match self.enter(Seq::empty(), dest as int, 0, next, bits) {
                            Step::Next { hart, cells: _, pc: _ } => Turn::Close {
                                hart,
                                next: dispatched(targets, self.regs[base as int], offset, bits),
                                successors: crate::rv::program::resolved_all(
                                    targets,
                                    offset,
                                    bits,
                                ),
                            },
                            _ => Turn::Unexpected,
                        }
                    },
                }
            },
            _ => Turn::Open,
        }
    }
}

/// Where the steps of a body come to.
pub enum Course {
    /// On, in this state.
    On { hart: Hart, cells: Seq<bool> },
    /// To its end.
    End(BodyEnd),
}

/// What a body ends in.
pub enum BodyEnd {
    /// A control-flow point that the host cannot decide, in this state.
    Close { hart: Hart, cells: Seq<bool>, next: u64, successors: Seq<u64> },
    /// The exit, in this state.
    Exit { hart: Hart, cells: Seq<bool> },
    /// Something outside the supported subset.
    Unexpected,
    /// A malformed instruction.
    Decode(DecodeError),
}

impl Hart {
    /// One step of a body.
    pub open spec fn body_step(
        self,
        cells: Seq<bool>,
        frame: Frame<'_>,
        plan: Plan<'_>,
        answers: Answers,
    ) -> Course {
        let here = self.at_start(frame);
        match here.fetched(frame) {
            Err(FetchError::Unmapped) => Course::End(BodyEnd::Unexpected),
            Err(FetchError::Decode(e)) => Course::End(BodyEnd::Decode(e)),
            Ok((op, len)) => {
                let set = here.reset(frame.bits);
                match set.turn(plan, op, len, frame.bits) {
                    Turn::Close { hart, next, successors } => Course::End(
                        BodyEnd::Close { hart, cells, next, successors },
                    ),
                    Turn::Unexpected => Course::End(BodyEnd::Unexpected),
                    Turn::Open => match set.execute(cells, frame, op, len, answers) {
                        Step::Next { hart, cells, pc } => Course::On {
                            hart: Hart { pc, ..hart },
                            cells,
                        },
                        Step::Exit { hart, cells } => Course::End(BodyEnd::Exit { hart, cells }),
                        Step::Unexpected => Course::End(BodyEnd::Unexpected),
                        Step::Decode(e) => Course::End(BodyEnd::Decode(e)),
                    },
                }
            },
        }
    }
}

impl Hart {
    /// The operation at the program counter, where it closes a body.
    pub open spec fn closes(self, frame: Frame<'_>, plan: Plan<'_>) -> Option<RvOp> {
        let here = self.at_start(frame);
        match here.fetched(frame) {
            Ok((op, len)) => if here.reset(frame.bits).turn(plan, op, len, frame.bits) is Close {
                Some(op)
            } else {
                None
            },
            Err(_) => None,
        }
    }
}

/// The steps of a body, one per answer.
pub open spec fn body_runs(
    h: Hart,
    cells: Seq<bool>,
    frame: Frame<'_>,
    plan: Plan<'_>,
    answers: Seq<Answers>,
) -> Course
    decreases answers.len(),
{
    if answers.len() == 0 {
        Course::On { hart: h, cells }
    } else {
        match body_runs(h, cells, frame, plan, answers.drop_last()) {
            Course::On { hart, cells } => hart.body_step(cells, frame, plan, answers.last()),
            end => end,
        }
    }
}

/// The answers to a step of a body are those that the handler gave in its
/// state.
pub open spec fn body_honest<H: RvHandler<bool, BITS> + ?Sized, const BITS: usize>(
    h: Hart,
    frame: Frame<'_>,
    plan: Plan<'_>,
    answers: Answers,
) -> bool {
    let here = h.at_start(frame);
    match here.fetched(frame) {
        Ok((op, len)) => {
            let set = here.reset(frame.bits);
            set.turn(plan, op, len, frame.bits) is Open ==> crate::rv::control::consulted::<
                H,
                BITS,
            >(set, op, len, answers)
        },
        Err(_) => true,
    }
}

/// Every answer of a body is one that the handler gave in the state of its
/// step.
pub open spec fn body_sincere<H: RvHandler<bool, BITS> + ?Sized, const BITS: usize>(
    h: Hart,
    cells: Seq<bool>,
    frame: Frame<'_>,
    plan: Plan<'_>,
    answers: Seq<Answers>,
) -> bool
    decreases answers.len(),
{
    answers.len() == 0 || (body_sincere::<H, BITS>(h, cells, frame, plan, answers.drop_last())
        && match body_runs(h, cells, frame, plan, answers.drop_last()) {
        Course::On { hart, cells: _ } => body_honest::<H, BITS>(
            hart,
            frame,
            plan,
            answers.last(),
        ),
        _ => true,
    })
}

/// What a body reached at its control-flow point.
pub enum BodyKind<W, const BITS: usize> {
    /// A symbolic branch or a declared indirect `JALR`: the virtual IP becomes
    /// a select over the targets.
    Close {
        /// The selected next virtual IP wires.
        next_vip: [W; BITS],
        /// The addresses that may come next.
        successors: Vec<u64>,
    },
    /// The body reached the exit `ECALL` with a balanced stack.
    Exited,
}

/// What a body did is what its steps lead to.
pub open spec fn body_did<H: RvHandler<bool, BITS> + ?Sized, const BITS: usize>(
    after: Machine<'_, <H as ContextWithValue<bool>>::Wrapped, BITS>,
    cells: Seq<bool>,
    r: Result<BodyKind<<H as ContextWithValue<bool>>::Wrapped, BITS>, ErtError<H::Error>>,
    steps: int,
    course: Course,
) -> bool where <H as ContextWithValue<bool>>::Wrapped: Clone {
    match r {
        Ok(BodyKind::Close { next_vip, successors }) => {
            &&& crate::rv::machine::live::<H, BITS>(after)
            &&& course matches Course::End(
                BodyEnd::Close { hart, cells: c, next, successors: s },
            ) && hart == crate::rv::machine::hart::<H, BITS>(after) && c == cells && s
                == successors@ && crate::context::bits::<H>(next_vip@)
                == crate::rv::machine::spelled(next, BITS as nat)
        },
        Ok(BodyKind::Exited) => {
            &&& crate::rv::machine::live::<H, BITS>(after)
            &&& course == Course::End(
                BodyEnd::Exit { hart: crate::rv::machine::hart::<H, BITS>(after), cells },
            )
        },
        Err(ErtError::Unexpected) => course == Course::End(BodyEnd::Unexpected) || (course is On
            && steps == u64::MAX),
        Err(ErtError::Decode(e)) => course == Course::End(BodyEnd::Decode(e)),
        Err(ErtError::Emitted(error)) => !crate::rv::handler::unfailing::<H, BITS>()
            && crate::rv::handler::stems::<H, BITS>(error),
    }
}

/// What intercepting an instruction did.
spec fn intercepted<H: RvHandler<bool, BITS> + ?Sized, const BITS: usize>(
    before: Machine<'_, <H as ContextWithValue<bool>>::Wrapped, BITS>,
    after: Machine<'_, <H as ContextWithValue<bool>>::Wrapped, BITS>,
    r: Result<Option<BodyKind<<H as ContextWithValue<bool>>::Wrapped, BITS>>, ErtError<H::Error>>,
    turn: Turn,
) -> bool where <H as ContextWithValue<bool>>::Wrapped: Clone {
    match r {
        Ok(None) => turn is Open && after == before,
        Ok(Some(BodyKind::Close { next_vip, successors })) => {
            &&& crate::rv::machine::live::<H, BITS>(after)
            &&& turn matches Turn::Close { hart, next, successors: s } && hart
                == crate::rv::machine::hart::<H, BITS>(after) && s == successors@
                && crate::context::bits::<H>(next_vip@) == crate::rv::machine::spelled(
                next,
                BITS as nat,
            )
        },
        Ok(Some(BodyKind::Exited)) => false,
        Err(ErtError::Unexpected) => turn is Unexpected,
        Err(ErtError::Decode(_)) => false,
        Err(ErtError::Emitted(error)) => !crate::rv::handler::unfailing::<H, BITS>()
            && crate::rv::handler::stems::<H, BITS>(error),
    }
}

/// The gates of a symbolic branch: its comparison and one select.
pub open spec fn branch_kinds(predicate: ComparePredicate, bits: nat) -> Seq<BitOp> {
    crate::compare::compare_kinds(predicate, bits) + crate::word::select_kinds(bits)
}

/// The gates of an operation that closes a body: a symbolic branch takes its
/// comparison and exactly one select, and an indirect jump a comparison and a
/// select for each declared target but one.
pub open spec fn closing_gates<H: ContextWithValue<bool> + ?Sized, const BITS: usize>(
    before: &H,
    after: &H,
    op: RvOp,
    kind: BodyKind<H::Wrapped, BITS>,
) -> bool {
    match op {
        RvOp::Branch { predicate, .. } => crate::context::asked::<H>(
            before,
            after,
            branch_kinds(predicate, BITS as nat),
        ),
        _ => kind matches BodyKind::Close { successors, .. } && crate::context::asked::<H>(
            before,
            after,
            dispatch_kinds(successors@.len(), BITS as nat),
        ),
    }
}

/// Gates that came in two parts.
pub proof fn two_parts<W>(
    first: Seq<Gate<W>>,
    last: Seq<Gate<W>>,
    a: Seq<BitOp>,
    b: Seq<BitOp>,
)
    requires
        crate::context::kinds(last) == crate::context::kinds(first) + a + b,
    ensures
        crate::context::kinds(last) == crate::context::kinds(first) + (a + b),
{
    assert(crate::context::kinds(first) + a + b =~= crate::context::kinds(first) + (a + b));
}

/// The gates of a dispatch over `n` targets: a comparison and a select for each
/// but the last.
pub open spec fn dispatch_kinds(n: nat, bits: nat) -> Seq<BitOp>
    decreases n,
{
    if n <= 1 {
        Seq::empty()
    } else {
        dispatch_kinds((n - 1) as nat, bits) + branch_kinds(ComparePredicate::Eq, bits)
    }
}

/// Select the landing of an indirect jump: a constant-mux over the declared
/// targets.
fn dispatch<H, const BITS: usize>(
    h: &mut H,
    base: &[<H as ContextWithValue<bool>>::Wrapped; BITS],
    targets: &[u64],
    landings: &[u64],
    offset: i64,
    zero: &<H as ContextWithValue<bool>>::Wrapped,
    one: &<H as ContextWithValue<bool>>::Wrapped,
) -> (r: Result<[<H as ContextWithValue<bool>>::Wrapped; BITS], H::Error>) where
    H: RvHandler<bool, BITS> + ?Sized,
    <H as ContextWithValue<bool>>::Wrapped: Clone,

    requires
        BITS == 32 || BITS == 64,
        targets@.len() > 0,
        landings@ == crate::rv::program::resolved_all(targets@, offset, BITS as nat),
    ensures
        crate::context::reliable::<H>() ==> r is Ok,
        r matches Err(error) ==> crate::context::erred::<H>(error),
        r is Ok ==> crate::context::asked::<H>(
            old(h),
            final(h),
            dispatch_kinds(targets@.len(), BITS as nat),
        ),
        targets@.len() == 1 ==> (r matches Ok(word) && crate::word::baked(word@, *zero, *one))
            && crate::word::untouched::<H>(old(h), final(h)),
        crate::word::constants::<H>(*zero, *one) ==> (r matches Ok(word) ==> crate::context::bits::<
            H,
        >(word@) == crate::rv::machine::spelled(
            dispatched(targets@, crate::context::bits::<H>(base@), offset, BITS as nat),
            BITS as nat,
        )),
{
    let ghost all = targets@;
    let count: usize = targets.len();
    let mut word = known_word::<H, BITS>(zero, one, landings[count - 1]);
    let mut i: usize = count - 1;
    proof {
        assert(all.skip(count - 1).len() == 1);
        assert(all.skip(count - 1)[0] == all[count - 1]);
        crate::context::asked_nothing::<H>(h);
    }
    while i > 0
        invariant
            i < count == targets@.len(),
            BITS == 32 || BITS == 64,
            count == 1 ==> crate::word::baked(word@, *zero, *one) && crate::word::untouched::<H>(
                old(h),
                h,
            ),
            crate::context::asked::<H>(old(h), h, dispatch_kinds((count - i) as nat, BITS as nat)),
            all == targets@,
            landings@ == crate::rv::program::resolved_all(targets@, offset, BITS as nat),
            crate::word::constants::<H>(*zero, *one) ==> crate::context::bits::<H>(word@)
                == crate::rv::machine::spelled(
                dispatched(
                    all.skip(i as int),
                    crate::context::bits::<H>(base@),
                    offset,
                    BITS as nat,
                ),
                BITS as nat,
            ),
        decreases i,
    {
        i = i - 1;
        let target_word = known_word::<H, BITS>(zero, one, targets[i]);
        let landing_word = known_word::<H, BITS>(zero, one, landings[i]);
        let ghost g0 = (*h).gates();
        let active = compare_word(h, base, &target_word, ComparePredicate::Eq, one)?;
        word = select_word(h, active, &landing_word, &word)?;
        proof {
            if H::logs() {
                two_parts(
                    g0,
                    (*h).gates(),
                    crate::compare::compare_kinds(ComparePredicate::Eq, BITS as nat),
                    crate::word::select_kinds(BITS as nat),
                );
                two_parts(
                    (*old(h)).gates(),
                    (*h).gates(),
                    dispatch_kinds((count - i - 1) as nat, BITS as nat),
                    branch_kinds(ComparePredicate::Eq, BITS as nat),
                );
            }
            assert(all.skip(i as int).skip(1) =~= all.skip(i + 1));
            assert(all.skip(i as int)[0] == all[i as int]);
        }
    }
    assert(all.skip(0) =~= all);
    Ok(word)
}

impl<'m, W: Clone, const BITS: usize> Machine<'m, W, BITS> {
    /// Intercept a conditional branch whose condition is symbolic: emit the
    /// virtual-IP select and close the body.
    fn intercept_branch<H>(
        &mut self,
        h: &mut H,
        plan: &Plan<'_>,
        predicate: ComparePredicate,
        left: u8,
        right: u8,
        offset: i64,
        len: u64,
    ) -> (r: Result<Option<BodyKind<W, BITS>>, ErtError<H::Error>>) where
        H: RvHandler<bool, BITS> + ContextWithValue<bool, Wrapped = W> + ?Sized,

        requires
            left < 32,
            right < 32,
            crate::rv::machine::bounded(*old(self)),
        ensures
            r matches Ok(None) ==> crate::word::untouched::<H>(old(h), final(h)),
            r matches Ok(Some(_)) ==> crate::context::asked::<H>(
                old(h),
                final(h),
                branch_kinds(predicate, BITS as nat),
            ),
            *final(self) == *old(self),
            crate::rv::machine::live::<H, BITS>(*old(self)) ==> intercepted::<H, BITS>(
                *old(self),
                *final(self),
                r,
                crate::rv::machine::hart::<H, BITS>(*old(self)).turn(
                    *plan,
                    RvOp::Branch { predicate, left, right, offset },
                    len,
                    BITS as nat,
                ),
            ),
    {
        if self.constants[left as usize].is_some() && self.constants[right as usize].is_some() {
            return Ok(None);
        }
        let taken: u64 = truncate::<BITS>(self.pc.wrapping_add(to_pattern(offset)));
        let fallthrough: u64 = self.next(len);
        if let Some(program) = plan.program {
            // The precomputed boundary map must agree with the live walker.
            if !program.confirms_branch(self.pc, taken, fallthrough) {
                return Err(ErtError::Unexpected);
            }
        }
        let condition = emitted(
            compare_word(
                h,
                &self.regs[left as usize],
                &self.regs[right as usize],
                predicate,
                &self.one,
            ),
        )?;
        let taken_word = self.word_from_constant::<H>(taken);
        let fallthrough_word = self.word_from_constant::<H>(fallthrough);
        let next_vip = emitted(select_word(h, condition, &taken_word, &fallthrough_word))?;
        proof {
            if H::logs() {
                two_parts(
                    (*old(h)).gates(),
                    (*h).gates(),
                    crate::compare::compare_kinds(predicate, BITS as nat),
                    crate::word::select_kinds(BITS as nat),
                );
            }
        }
        let mut successors: Vec<u64> = Vec::new();
        successors.push(taken);
        if fallthrough != taken {
            successors.push(fallthrough);
        }
        assert(successors@ =~= branch_successors(taken, fallthrough));
        Ok(Some(BodyKind::Close { next_vip, successors }))
    }

    /// Intercept a `JALR` whose base is symbolic and whose targets are
    /// declared. The call's link semantics still apply: the callee's
    /// conventional return pops the frame this pushes.
    fn intercept_indirect<H>(
        &mut self,
        h: &mut H,
        plan: &Plan<'_>,
        dest: u8,
        base: u8,
        offset: i64,
        len: u64,
    ) -> (r: Result<Option<BodyKind<W, BITS>>, ErtError<H::Error>>) where
        H: RvHandler<bool, BITS> + ContextWithValue<bool, Wrapped = W> + ?Sized,

        requires
            dest < 32,
            base < 32,
            crate::rv::machine::bounded(*old(self)),
        ensures
            r matches Ok(None) ==> crate::word::untouched::<H>(old(h), final(h)),
            r matches Ok(Some(kind)) ==> (kind matches BodyKind::Close { successors, .. }
                && crate::context::asked::<H>(
                old(h),
                final(h),
                dispatch_kinds(successors@.len(), BITS as nat),
            )),
            crate::rv::machine::framed(*old(self), *final(self)),
            crate::rv::machine::live::<H, BITS>(*old(self)) ==> intercepted::<H, BITS>(
                *old(self),
                *final(self),
                r,
                crate::rv::machine::hart::<H, BITS>(*old(self)).turn(
                    *plan,
                    RvOp::JumpRegister { dest, base, offset },
                    len,
                    BITS as nat,
                ),
            ),
    {
        if (dest == 0 && base == RA && offset == 0) || self.constants[base as usize].is_some() {
            return Ok(None);
        }
        let targets = match find(plan.indirect, self.pc) {
            Some(targets) => targets,
            None => return Ok(None),
        };
        if targets.len() == 0 {
            return Err(ErtError::Unexpected);
        }
        if let Some(program) = plan.program {
            if !program.confirms_indirect(self.pc) {
                return Err(ErtError::Unexpected);
            }
        }
        let successors = resolve_all::<BITS>(targets, offset);
        let next_vip = emitted(
            dispatch::<H, BITS>(
                h,
                &self.regs[base as usize],
                targets,
                successors.as_slice(),
                offset,
                &self.zero,
                &self.one,
            ),
        )?;
        let return_pc: u64 = self.next(len);
        proof {
            crate::wide::low_spells(self.pc.wrapping_add(len), BITS as nat);
        }
        self.enter::<H>(dest, 0, return_pc, Ghost(Seq::empty()))?;
        Ok(Some(BodyKind::Close { next_vip, successors }))
    }

    /// Intercept an operation when it is a symbolic control-flow point.
    /// Anything else gives nothing.
    fn intercept<H>(&mut self, h: &mut H, plan: &Plan<'_>, op: RvOp, len: u64) -> (r: Result<
        Option<BodyKind<W, BITS>>,
        ErtError<H::Error>,
    >) where H: RvHandler<bool, BITS> + ContextWithValue<bool, Wrapped = W> + ?Sized
        requires
            crate::rv::inst::op_ok(op),
            crate::rv::machine::bounded(*old(self)),
        ensures
            r matches Ok(None) ==> crate::word::untouched::<H>(old(h), final(h)),
            r matches Ok(Some(kind)) ==> closing_gates::<H, BITS>(old(h), final(h), op, kind),
            crate::rv::machine::framed(*old(self), *final(self)),
            crate::rv::machine::live::<H, BITS>(*old(self)) ==> intercepted::<H, BITS>(
                *old(self),
                *final(self),
                r,
                crate::rv::machine::hart::<H, BITS>(*old(self)).turn(*plan, op, len, BITS as nat),
            ),
    {
        match op {
            RvOp::Branch { predicate, left, right, offset } => self.intercept_branch(
                h,
                plan,
                predicate,
                left,
                right,
                offset,
                len,
            ),
            RvOp::JumpRegister { dest, base, offset } => self.intercept_indirect(
                h,
                plan,
                dest,
                base,
                offset,
                len,
            ),
            _ => Ok(None),
        }
    }

    /// One step of a body: its end, or nothing where it goes on.
    fn body_step<H>(
        &mut self,
        h: &mut H,
        st: &mut H::Storage,
        plan: &Plan<'_>,
        answers: &mut Ghost<Answers>,
    ) -> (r: Result<Option<BodyKind<W, BITS>>, ErtError<H::Error>>) where
        H: RvHandler<bool, BITS> + ContextWithValue<bool, Wrapped = W> + ?Sized,

        requires
            crate::rv::control::handles::<H, BITS>(),
            crate::rv::machine::bounded(*old(self)),
            crate::rv::machine::ready::<H, BITS>(*old(self), old(st)),
        ensures
            crate::rv::machine::live::<H, BITS>(*old(self)) && crate::rv::control::unemitted(r)
                ==> body_honest::<H, BITS>(
                crate::rv::machine::hart::<H, BITS>(*old(self)),
                crate::rv::machine::frame::<H, BITS>(*old(self)),
                *plan,
                final(answers)@,
            ),
            r matches Ok(Some(kind)) ==> kind is Exited || (crate::rv::inst::fetched(
                old(self).mem,
                crate::rv::inst::start_of(old(self).pc, old(self).plain),
                BITS == 64,
                old(self).plain,
            ) matches Ok((op, _)) && closing_gates::<H, BITS>(old(h), final(h), op, kind)),
            crate::rv::machine::framed(*old(self), *final(self)),
            crate::rv::machine::ready::<H, BITS>(*final(self), final(st)),
            H::tracks() && crate::rv::machine::live::<H, BITS>(*old(self)) ==> {
                let course = crate::rv::machine::hart::<H, BITS>(*old(self)).body_step(
                    H::cells(old(st)),
                    crate::rv::machine::frame::<H, BITS>(*old(self)),
                    *plan,
                    final(answers)@,
                );
                match r {
                    Ok(None) => crate::rv::machine::live::<H, BITS>(*final(self)) && course == (
                    Course::On {
                        hart: crate::rv::machine::hart::<H, BITS>(*final(self)),
                        cells: H::cells(final(st)),
                    }),
                    Ok(Some(kind)) => body_did::<H, BITS>(
                        *final(self),
                        H::cells(final(st)),
                        Ok(kind),
                        0,
                        course,
                    ),
                    Err(e) => body_did::<H, BITS>(
                        *final(self),
                        H::cells(final(st)),
                        Err(e),
                        0,
                        course,
                    ),
                }
            },
    {
        self.align::<H>();
        let (op, len) = self.decode()?;
        self.reset_fixed_registers::<H>();
        if let Some(kind) = self.intercept(h, plan, op, len)? {
            return Ok(Some(kind));
        }
        match self.execute(h, st, op, len, answers)? {
            Flow::Next(next) => {
                self.pc = next;
                Ok(None)
            },
            Flow::Exit => Ok(Some(BodyKind::Exited)),
        }
    }

    /// Execute one body until a control-flow point, intercepting symbolic
    /// branches and declared indirect calls; everything else runs as in the
    /// single-pass interpreter.
    pub fn execute_body<H>(&mut self, h: &mut H, st: &mut H::Storage, plan: &Plan<'_>) -> (r: Result<
        BodyKind<W, BITS>,
        ErtError<H::Error>,
    >) where H: RvHandler<bool, BITS> + ContextWithValue<bool, Wrapped = W> + ?Sized
        requires
            crate::rv::control::handles::<H, BITS>(),
            crate::rv::machine::bounded(*old(self)),
            crate::rv::machine::ready::<H, BITS>(*old(self), old(st)),
        ensures
            H::tracks() && crate::rv::machine::live::<H, BITS>(*old(self)) ==> (r matches Ok(kind)
                ==> (crate::rv::machine::hart::<H, BITS>(*old(self)).closes(
                crate::rv::machine::frame::<H, BITS>(*old(self)),
                *plan,
            ) matches Some(op) ==> closing_gates::<H, BITS>(old(h), final(h), op, kind))),
            crate::rv::machine::framed(*old(self), *final(self)),
            crate::rv::machine::ready::<H, BITS>(*final(self), final(st)),
            H::tracks() && crate::rv::machine::live::<H, BITS>(*old(self)) ==> exists|
                answers: Seq<Answers>,
            |
                body_did::<H, BITS>(
                    *final(self),
                    H::cells(final(st)),
                    r,
                    answers.len() as int,
                    #[trigger] body_runs(
                        crate::rv::machine::hart::<H, BITS>(*old(self)),
                        H::cells(old(st)),
                        crate::rv::machine::frame::<H, BITS>(*old(self)),
                        *plan,
                        answers,
                    ),
                ) && (crate::rv::control::unemitted(r) ==> body_sincere::<H, BITS>(
                        crate::rv::machine::hart::<H, BITS>(*old(self)),
                        H::cells(old(st)),
                        crate::rv::machine::frame::<H, BITS>(*old(self)),
                        *plan,
                        answers,
                    )),
    {
        let ghost start = crate::rv::machine::hart::<H, BITS>(*self);
        let ghost first = H::cells(st);
        let ghost around = crate::rv::machine::frame::<H, BITS>(*self);
        let ghost good = H::tracks() && crate::rv::machine::live::<H, BITS>(*self);
        let ghost mut past: Seq<Answers> = Seq::empty();
        let mut left: u64 = u64::MAX;
        while left > 0
            invariant
                crate::rv::control::handles::<H, BITS>(),
                past.len() + left == u64::MAX,
                good == (H::tracks() && crate::rv::machine::live::<H, BITS>(*old(self))),
                start == crate::rv::machine::hart::<H, BITS>(*old(self)),
                first == H::cells(old(st)),
                around == crate::rv::machine::frame::<H, BITS>(*old(self)),
                crate::rv::machine::framed(*old(self), *self),
                crate::rv::machine::ready::<H, BITS>(*self, st),
                left == u64::MAX ==> *self == *old(self) && crate::word::untouched::<H>(old(h), h),
                left < u64::MAX && good ==> start.closes(around, *plan) is None,
                good ==> {
                    &&& crate::rv::machine::live::<H, BITS>(*self)
                    &&& body_sincere::<H, BITS>(start, first, around, *plan, past)
                    &&& body_runs(start, first, around, *plan, past) == (Course::On {
                        hart: crate::rv::machine::hart::<H, BITS>(*self),
                        cells: H::cells(st),
                    })
                },
            decreases left,
        {
            let mut answers: Ghost<Answers> = Ghost(arbitrary());
            let stepped = self.body_step(h, st, plan, &mut answers);
            proof {
                let more = past.push(answers@);
                assert(more.drop_last() =~= past);
                past = more;
            }
            left = left - 1;
            match stepped {
                Ok(None) => {},
                Ok(Some(kind)) => {
                    proof {
                        if good {
                            assert(body_did::<H, BITS>(
                                *self,
                                H::cells(st),
                                Ok(kind),
                                past.len() as int,
                                body_runs(start, first, around, *plan, past),
                            ));
                        }
                    }
                    return Ok(kind);
                },
                Err(e) => {
                    proof {
                        if good {
                            assert(body_did::<H, BITS>(
                                *self,
                                H::cells(st),
                                Err(e),
                                past.len() as int,
                                body_runs(start, first, around, *plan, past),
                            ));
                        }
                    }
                    return Err(e);
                },
            }
        }
        proof {
            if good {
                assert(body_did::<H, BITS>(
                    *self,
                    H::cells(st),
                    Err(ErtError::Unexpected),
                    past.len() as int,
                    body_runs(start, first, around, *plan, past),
                ));
            }
        }
        Err(ErtError::Unexpected)
    }
}

} // verus!
