//! Control flow, host calls, and the run of a program.
use crate::compare::ComparePredicate;
use crate::context::{BitValue, ContextWithValue};
use crate::handler::{EcallOutcome, File};
use crate::rv::handler::{CallAction, CallEvent, RvHandler};
use crate::rv::inst::{fetch_for, FetchError, RvOp};
use crate::rv::machine::{emitted, ErtError, Flow, Frame, Hart, Machine, Step, RA};
use crate::wide::{compare_values, to_pattern, truncate};
use vstd::prelude::*;

verus! {

/// The register file that a host call left.
pub struct Reply {
    pub regs: Seq<Seq<bool>>,
    pub known: Seq<bool>,
    pub offs: Seq<Option<i64>>,
}

/// What a handler answers while one instruction executes. Only the answers to
/// questions that the instruction asks matter.
pub struct Answers {
    /// The effect of the host call, and the registers after it.
    pub outcome: EcallOutcome,
    pub ecall: Reply,
    /// The decision of the call hook, and the registers after it.
    pub action: CallAction,
    pub hook: Reply,
}

impl Hart {
    /// The register file after a host call.
    pub open spec fn replied(self, reply: Reply) -> Hart {
        Hart { regs: reply.regs, known: reply.known, offs: reply.offs, ..self }
    }

    /// The step to another instruction.
    pub open spec fn goes(self, cells: Seq<bool>, pc: u64) -> Step {
        Step::Next { hart: self, cells, pc }
    }

    /// A jump, with a frame pushed and the return address in the link
    /// register where there is one.
    pub open spec fn enter(
        self,
        cells: Seq<bool>,
        dest: int,
        target: u64,
        return_pc: u64,
        bits: nat,
    ) -> Step {
        if dest == 0 {
            self.goes(cells, target)
        } else if self.rsp >= self.rstack.len() {
            Step::Unexpected
        } else {
            (Hart {
                rstack: self.rstack.update(self.rsp, return_pc),
                rsp: self.rsp + 1,
                ..self
            }).write(dest, crate::rv::machine::spelled(return_pc, bits), true, None).goes(
                cells,
                target,
            )
        }
    }

    /// A call, once the hook has decided. Without a known target only the
    /// hook can say where it goes.
    pub open spec fn call(
        self,
        cells: Seq<bool>,
        dest: int,
        target: Option<u64>,
        return_pc: u64,
        action: CallAction,
        reply: Reply,
        bits: nat,
    ) -> Step {
        let after = self.replied(reply);
        match action {
            CallAction::ReturnNow => after.goes(cells, return_pc),
            CallAction::Divert(to) => after.enter(cells, dest, to, return_pc, bits),
            CallAction::Continue => match target {
                Some(target) => after.enter(cells, dest, target, return_pc, bits),
                None => Step::Unexpected,
            },
        }
    }

    /// `JAL`. One that does not link is no call.
    pub open spec fn jump(
        self,
        cells: Seq<bool>,
        dest: int,
        offset: i64,
        next: u64,
        answers: Answers,
        bits: nat,
    ) -> Step {
        let target = crate::wide::low(crate::rv::machine::at(self.pc, offset), bits);
        if dest == 0 {
            self.goes(cells, target)
        } else {
            self.call(cells, dest, Some(target), next, answers.action, answers.hook, bits)
        }
    }

    /// The target of a `JALR`, where the host knows it.
    pub open spec fn register_target(self, base: int, offset: i64, bits: nat) -> Option<u64> {
        match self.value(base) {
            Some(c) => {
                let full = crate::wide::low(crate::rv::machine::at(c, offset), bits);
                Some((full - full % 2) as u64)
            },
            None => None,
        }
    }

    /// `JALR`: the conventional return takes the address from the control
    /// stack, anything else is a call through a register.
    pub open spec fn jump_register(
        self,
        cells: Seq<bool>,
        dest: int,
        base: int,
        offset: i64,
        next: u64,
        answers: Answers,
        bits: nat,
    ) -> Step {
        if dest == 0 && base == RA && offset == 0 {
            if self.rsp == 0 {
                Step::Unexpected
            } else {
                (Hart { rsp: self.rsp - 1, ..self }).goes(cells, self.rstack[self.rsp - 1])
            }
        } else {
            self.call(
                cells,
                dest,
                self.register_target(base, offset, bits),
                next,
                answers.action,
                answers.hook,
                bits,
            )
        }
    }

    /// A conditional branch. Both operands must be known.
    pub open spec fn branch(
        self,
        cells: Seq<bool>,
        predicate: ComparePredicate,
        left: int,
        right: int,
        offset: i64,
        next: u64,
        bits: nat,
    ) -> Step {
        if self.known[left] && self.known[right] {
            self.goes(
                cells,
                if crate::compare::holds(predicate, self.regs[left], self.regs[right]) {
                    crate::wide::low(crate::rv::machine::at(self.pc, offset), bits)
                } else {
                    next
                },
            )
        } else {
            Step::Unexpected
        }
    }

    /// An environment call. An exit needs a balanced stack.
    pub open spec fn ecall(
        self,
        cells: Seq<bool>,
        stack_top: u64,
        next: u64,
        answers: Answers,
    ) -> Step {
        let after = self.replied(answers.ecall);
        match answers.outcome {
            EcallOutcome::Continue => after.goes(cells, next),
            EcallOutcome::Exit => if self.sp == stack_top {
                Step::Exit { hart: after, cells }
            } else {
                Step::Unexpected
            },
            EcallOutcome::Unexpected => Step::Unexpected,
        }
    }

    /// What an operation on registers and the virtual stack does.
    pub open spec fn compute(self, cells: Seq<bool>, frame: Frame<'_>, op: RvOp) -> Option<
        (Hart, Seq<bool>),
    > {
        let bits = frame.bits;
        let registers = match op {
            RvOp::Upper { dest, value, pc_relative } => self.upper(
                dest as int,
                value,
                pc_relative,
                bits,
            ),
            RvOp::AddImmediate { dest, src, imm } => self.add_immediate(
                dest as int,
                src as int,
                imm,
                bits,
            ),
            RvOp::Add { dest, left, right } => self.add(
                dest as int,
                left as int,
                right as int,
                bits,
            ),
            RvOp::Sub { dest, left, right } => self.subtract(
                dest as int,
                left as int,
                right as int,
                bits,
            ),
            RvOp::Bitwise { operation, dest, left, right } => self.bitwise(
                operation,
                dest as int,
                left as int,
                right as int,
                bits,
            ),
            RvOp::BitwiseImmediate { operation, dest, src, imm } => self.bitwise_immediate(
                operation,
                dest as int,
                src as int,
                imm,
                bits,
            ),
            RvOp::ShiftImmediate { direction, dest, src, amount } => self.shift(
                direction,
                dest as int,
                src as int,
                amount,
                bits,
            ),
            RvOp::Load { dest, base, offset, width, signed } => self.load(
                cells,
                frame,
                dest as int,
                base as int,
                offset,
                width as nat,
                signed,
            ),
            _ => Some(self),
        };
        match op {
            RvOp::Store { src, base, offset, width } => match self.store(
                cells,
                frame,
                src as int,
                base as int,
                offset,
                width as nat,
            ) {
                Some(after) => Some((self, after)),
                None => None,
            },
            _ => match registers {
                Some(hart) => Some((hart, cells)),
                None => None,
            },
        }
    }

    /// What an operation does, in a state whose fixed registers are set.
    pub open spec fn execute(
        self,
        cells: Seq<bool>,
        frame: Frame<'_>,
        op: RvOp,
        len: u64,
        answers: Answers,
    ) -> Step {
        let bits = frame.bits;
        let next = crate::wide::low(self.pc.wrapping_add(len), bits);
        match op {
            RvOp::Jump { dest, offset } => self.jump(
                cells,
                dest as int,
                offset,
                next,
                answers,
                bits,
            ),
            RvOp::JumpRegister { dest, base, offset } => self.jump_register(
                cells,
                dest as int,
                base as int,
                offset,
                next,
                answers,
                bits,
            ),
            RvOp::Branch { predicate, left, right, offset } => self.branch(
                cells,
                predicate,
                left as int,
                right as int,
                offset,
                next,
                bits,
            ),
            RvOp::Ecall => self.ecall(cells, frame.stack_top, next, answers),
            RvOp::Unsupported => Step::Unexpected,
            _ => match self.compute(cells, frame, op) {
                Some((hart, after)) => hart.goes(after, next),
                None => Step::Unexpected,
            },
        }
    }

    /// The state with the program counter at the start of its instruction.
    pub open spec fn at_start(self, frame: Frame<'_>) -> Hart {
        Hart { pc: crate::rv::inst::start_of(self.pc, frame.plain), ..self }
    }

    /// The operation at the program counter and the length of its encoding.
    pub open spec fn fetched(self, frame: Frame<'_>) -> Result<(RvOp, u64), FetchError> {
        crate::rv::inst::fetched(frame.mem, self.pc, frame.bits == 64, frame.plain)
    }

    /// What the instruction at the program counter does.
    pub open spec fn step(self, cells: Seq<bool>, frame: Frame<'_>, answers: Answers) -> Step {
        let here = self.at_start(frame);
        match here.fetched(frame) {
            Err(FetchError::Unmapped) => Step::Unexpected,
            Err(FetchError::Decode(e)) => Step::Decode(e),
            Ok((op, len)) => match here.reset(frame.bits).execute(
                cells,
                frame,
                op,
                len,
                answers,
            ) {
                Step::Next { hart, cells, pc } => Step::Next {
                    hart: Hart { pc, ..hart },
                    cells,
                    pc,
                },
                other => other,
            },
        }
    }
}

/// What running a handler needs of it.
pub open spec fn handles<H: RvHandler<bool, BITS> + ?Sized, const BITS: usize>() -> bool {
    H::callable()
}

/// What a register file says.
pub open spec fn reply_of<H: ContextWithValue<bool> + ?Sized, const BITS: usize>(
    regs: Seq<[H::Wrapped; BITS]>,
    constants: Seq<Option<u64>>,
    offs: Seq<Option<i64>>,
) -> Reply {
    Reply {
        regs: crate::rv::machine::words::<H, BITS>(regs),
        known: crate::thumb::machine::present(constants),
        offs,
    }
}

/// Not an error of the context.
pub open spec fn unemitted<T, E>(r: Result<T, ErtError<E>>) -> bool {
    !(r matches Err(ErtError::Emitted(_)))
}

/// A register file that the handler is given in a state.
pub open spec fn handed<H: RvHandler<bool, BITS> + ?Sized, const BITS: usize>(
    file: File<<H as ContextWithValue<bool>>::Wrapped, BITS>,
    h: Hart,
) -> bool {
    &&& crate::rv::machine::words::<H, BITS>(file.regs) == h.regs
    &&& file.constants == Seq::new(32, |i: int| h.value(i))
    &&& file.offsets == h.offs
}

/// The handler was called in this state, and answered so.
pub open spec fn called<H: RvHandler<bool, BITS> + ?Sized, const BITS: usize>(
    h: Hart,
    outcome: EcallOutcome,
    reply: Reply,
) -> bool {
    exists|
        before: File<<H as ContextWithValue<bool>>::Wrapped, BITS>,
        zero: <H as ContextWithValue<bool>>::Wrapped,
        one: <H as ContextWithValue<bool>>::Wrapped,
        after: File<<H as ContextWithValue<bool>>::Wrapped, BITS>,
    | #[trigger]
        H::answers(before, zero, one, outcome, after) && handed::<H, BITS>(before, h) && reply
            == reply_of::<H, BITS>(after.regs, after.constants, after.offsets)
}

/// The hook was told of this call in this state, and decided so.
pub open spec fn told<H: RvHandler<bool, BITS> + ?Sized, const BITS: usize>(
    h: Hart,
    event: CallEvent,
    action: CallAction,
    reply: Reply,
) -> bool {
    exists|
        before: File<<H as ContextWithValue<bool>>::Wrapped, BITS>,
        zero: <H as ContextWithValue<bool>>::Wrapped,
        one: <H as ContextWithValue<bool>>::Wrapped,
        after: File<<H as ContextWithValue<bool>>::Wrapped, BITS>,
    | #[trigger]
        crate::rv::handler::decided::<H, BITS>(event, before, zero, one, action, after) && handed::<
            H,
            BITS,
        >(before, h) && reply == reply_of::<H, BITS>(after.regs, after.constants, after.offsets)
}

/// The handler was called in this state, and failed so.
pub open spec fn failed<H: RvHandler<bool, BITS> + ?Sized, const BITS: usize>(
    h: Hart,
    error: H::Error,
) -> bool {
    exists|
        before: File<<H as ContextWithValue<bool>>::Wrapped, BITS>,
        zero: <H as ContextWithValue<bool>>::Wrapped,
        one: <H as ContextWithValue<bool>>::Wrapped,
    | #[trigger]
        H::fails(before, zero, one, error) && handed::<H, BITS>(before, h)
}

/// The hook was told of this call in this state, and failed so.
pub open spec fn hook_failed<H: RvHandler<bool, BITS> + ?Sized, const BITS: usize>(
    h: Hart,
    event: CallEvent,
    error: H::Error,
) -> bool {
    exists|
        before: File<<H as ContextWithValue<bool>>::Wrapped, BITS>,
        zero: <H as ContextWithValue<bool>>::Wrapped,
        one: <H as ContextWithValue<bool>>::Wrapped,
    | #[trigger]
        H::hook_fails(event, before, zero, one, error) && handed::<H, BITS>(before, h)
}

/// An operation failed with this error: that of the environment call or the
/// hook that it makes, or else one of the context.
pub open spec fn failing<H: RvHandler<bool, BITS> + ?Sized, const BITS: usize>(
    h: Hart,
    op: RvOp,
    len: u64,
    error: H::Error,
) -> bool {
    let bits = BITS as nat;
    let next = crate::wide::low(h.pc.wrapping_add(len), bits);
    match op {
        RvOp::Ecall => failed::<H, BITS>(h, error),
        RvOp::Jump { dest, offset } => dest != 0 && hook_failed::<H, BITS>(
            h,
            CallEvent::DirectCall {
                caller_pc: h.pc,
                target: crate::wide::low(crate::rv::machine::at(h.pc, offset), bits),
                return_pc: next,
            },
            error,
        ),
        RvOp::JumpRegister { dest, base, offset } => !(dest == 0 && base == RA && offset == 0)
            && hook_failed::<H, BITS>(
            h,
            CallEvent::RegisterCall {
                caller_pc: h.pc,
                register: base,
                target: h.register_target(base as int, offset, bits),
                return_pc: next,
            },
            error,
        ),
        _ => crate::context::erred::<H>(error),
    }
}

/// What an operation learnt from the handler.
pub open spec fn consulted<H: RvHandler<bool, BITS> + ?Sized, const BITS: usize>(
    h: Hart,
    op: RvOp,
    len: u64,
    answers: Answers,
) -> bool {
    let bits = BITS as nat;
    let next = crate::wide::low(h.pc.wrapping_add(len), bits);
    match op {
        RvOp::Ecall => called::<H, BITS>(h, answers.outcome, answers.ecall),
        RvOp::Jump { dest, offset } => dest != 0 ==> told::<H, BITS>(
            h,
            CallEvent::DirectCall {
                caller_pc: h.pc,
                target: crate::wide::low(crate::rv::machine::at(h.pc, offset), bits),
                return_pc: next,
            },
            answers.action,
            answers.hook,
        ),
        RvOp::JumpRegister { dest, base, offset } => !(dest == 0 && base == RA && offset == 0)
            ==> told::<H, BITS>(
            h,
            CallEvent::RegisterCall {
                caller_pc: h.pc,
                register: base,
                target: h.register_target(base as int, offset, bits),
                return_pc: next,
            },
            answers.action,
            answers.hook,
        ),
        _ => true,
    }
}

/// An operation that the host alone decides: a jump that does not link, a
/// return, or a branch. Its target is baked in and costs no gate.
pub open spec fn unconditional(op: RvOp) -> bool {
    match op {
        RvOp::Jump { dest, offset: _ } => dest == 0,
        RvOp::JumpRegister { dest, base, offset } => dest == 0 && base == RA && offset == 0,
        RvOp::Branch { .. } => true,
        _ => false,
    }
}

/// The answers to a step are those that the handler gave in its state.
pub open spec fn honest<H: RvHandler<bool, BITS> + ?Sized, const BITS: usize>(
    h: Hart,
    frame: Frame<'_>,
    answers: Answers,
) -> bool {
    let here = h.at_start(frame);
    match here.fetched(frame) {
        Ok((op, len)) => consulted::<H, BITS>(here.reset(frame.bits), op, len, answers),
        Err(_) => true,
    }
}

/// Every answer of a run is one that the handler gave in the state of its step.
pub open spec fn sincere<H: RvHandler<bool, BITS> + ?Sized, const BITS: usize>(
    h: Hart,
    cells: Seq<bool>,
    frame: Frame<'_>,
    answers: Seq<Answers>,
) -> bool
    decreases answers.len(),
{
    answers.len() == 0 || (sincere::<H, BITS>(h, cells, frame, answers.drop_last()) && match runs(
        h,
        cells,
        frame,
        answers.drop_last(),
    ) {
        Step::Next { hart, cells: _, pc: _ } => honest::<H, BITS>(hart, frame, answers.last()),
        _ => true,
    })
}

/// A step fails with this error.
pub open spec fn broke<H: RvHandler<bool, BITS> + ?Sized, const BITS: usize>(
    h: Hart,
    frame: Frame<'_>,
    error: H::Error,
) -> bool {
    let here = h.at_start(frame);
    match here.fetched(frame) {
        Ok((op, len)) => failing::<H, BITS>(here.reset(frame.bits), op, len, error),
        Err(_) => false,
    }
}

/// After steps with the handler's own answers, the next one fails with this
/// error.
pub open spec fn halted<H: RvHandler<bool, BITS> + ?Sized, const BITS: usize>(
    h: Hart,
    cells: Seq<bool>,
    frame: Frame<'_>,
    answers: Seq<Answers>,
    error: H::Error,
) -> bool {
    &&& !crate::rv::handler::unfailing::<H, BITS>()
    &&& sincere::<H, BITS>(h, cells, frame, answers)
    &&& match runs(h, cells, frame, answers) {
        Step::Next { hart, cells: _, pc: _ } => broke::<H, BITS>(hart, frame, error),
        _ => false,
    }
}

/// How a run ended is where the steps from its start lead, each of them with
/// the handler's own answers. One that has not exited after `u64::MAX` steps is
/// given up.
pub open spec fn ended<H: RvHandler<bool, BITS> + ?Sized, const BITS: usize, T>(
    r: Result<T, ErtError<H::Error>>,
    h: Hart,
    cells: Seq<bool>,
    frame: Frame<'_>,
    answers: Seq<Answers>,
) -> bool {
    let end = runs(h, cells, frame, answers);
    match r {
        Ok(_) => end is Exit && sincere::<H, BITS>(h, cells, frame, answers),
        Err(ErtError::Unexpected) => (end is Unexpected || (end is Next && answers.len()
            == u64::MAX)) && sincere::<H, BITS>(h, cells, frame, answers),
        Err(ErtError::Decode(e)) => end == Step::Decode(e) && sincere::<H, BITS>(
            h,
            cells,
            frame,
            answers,
        ),
        Err(ErtError::Emitted(error)) => halted::<H, BITS>(h, cells, frame, answers, error),
    }
}

/// The machine's agreement, as a handler sees it.
proof fn agreement_out<H: RvHandler<bool, BITS> + ?Sized, const BITS: usize>(
    regs: Seq<[<H as ContextWithValue<bool>>::Wrapped; BITS]>,
    constants: Seq<Option<u64>>,
)
    requires
        regs.len() == 32,
        crate::rv::machine::constants_agree::<H, BITS>(regs, constants),
    ensures
        crate::handler::agree::<bool, H, BITS>(regs, constants),
{
    assert forall|i: int| 0 <= i < 32 implies ((#[trigger] constants[i]) matches Some(v)
        ==> crate::handler::spells::<bool, H>(regs[i]@, v)) by {
        if let Some(v) = constants[i] {
            let word = regs[i]@;
            assert forall|j: int| 0 <= j < word.len() implies <H as ContextWithValue<
                bool,
            >>::denotes(#[trigger] word[j]).truth() == crate::bits::bits_of(
                v as nat,
                word.len(),
            )[j] by {
                assert(crate::context::bits::<H>(word)[j] == crate::context::bit::<H>(word[j]));
            }
        }
    }
}

/// A handler's agreement, as the machine keeps it.
proof fn agreement_in<H: RvHandler<bool, BITS> + ?Sized, const BITS: usize>(
    regs: Seq<[<H as ContextWithValue<bool>>::Wrapped; BITS]>,
    constants: Seq<Option<u64>>,
    kept: Seq<Option<u64>>,
)
    requires
        BITS == 32 || BITS == 64,
        regs.len() == 32,
        kept.len() == 32,
        forall|i: int|
            0 <= i < 32 ==> (#[trigger] kept[i]) == match constants[i] {
                Some(v) => Some(crate::wide::low(v, BITS as nat)),
                None => None,
            },
        crate::handler::agree::<bool, H, BITS>(regs, constants),
    ensures
        crate::rv::machine::constants_agree::<H, BITS>(regs, kept),
{
    assert forall|i: int| 0 <= i < 32 implies ((#[trigger] kept[i]) matches Some(v)
        ==> crate::wide::fits(v, BITS as nat) && crate::context::bits::<H>(regs[i]@)
        == crate::rv::machine::spelled(v, BITS as nat)) by {
        if let Some(v) = constants[i] {
            crate::wide::low_spells(v, BITS as nat);
            assert(crate::handler::spells::<bool, H>(regs[i]@, v));
            assert(crate::context::bits::<H>(regs[i]@) =~= crate::bits::bits_of(
                v as nat,
                BITS as nat,
            ));
        }
    }
}

/// Where an environment call leads, given what the handler answers: on, or out
/// where the stack pointer is back at the stack's top.
pub fn ecall_flow<E>(outcome: EcallOutcome, sp: u64, stack_top: u64, next: u64) -> (r: Result<
    Flow,
    ErtError<E>,
>)
    ensures
        r == match outcome {
            EcallOutcome::Continue => Ok(Flow::Next(next)),
            EcallOutcome::Exit if sp == stack_top => Ok(Flow::Exit),
            _ => Err(ErtError::<E>::Unexpected),
        },
{
    match outcome {
        EcallOutcome::Continue => Ok(Flow::Next(next)),
        EcallOutcome::Exit => if sp == stack_top {
            Ok(Flow::Exit)
        } else {
            Err(ErtError::Unexpected)
        },
        EcallOutcome::Unexpected => Err(ErtError::Unexpected),
    }
}

/// Where a call leads, given what the hook decided, and whether the callee is
/// entered. Nothing where the call cannot be made.
pub fn hooked_target(action: CallAction, target: Option<u64>, return_pc: u64) -> (r: Option<
    (u64, bool),
>)
    ensures
        r == match action {
            CallAction::ReturnNow => Some((return_pc, false)),
            CallAction::Divert(to) => Some((to, true)),
            CallAction::Continue => match target {
                Some(target) => Some((target, true)),
                None => None,
            },
        },
{
    match action {
        CallAction::ReturnNow => Some((return_pc, false)),
        CallAction::Divert(to) => Some((to, true)),
        CallAction::Continue => match target {
            Some(target) => Some((target, true)),
            None => None,
        },
    }
}

impl<'m, W: Clone, const BITS: usize> Machine<'m, W, BITS> {
    /// Every host-known value of a register is its value.
    proof fn known_values<H: ContextWithValue<bool, Wrapped = W> + ?Sized>(&self)
        requires
            BITS == 32 || BITS == 64,
            crate::rv::machine::live::<H, BITS>(*self),
        ensures
            self.constants@ == Seq::new(
                32,
                |i: int| crate::rv::machine::hart::<H, BITS>(*self).value(i),
            ),
    {
        let values = Seq::new(
            32,
            |i: int| crate::rv::machine::hart::<H, BITS>(*self).value(i),
        );
        assert forall|i: int| 0 <= i < 32 implies (#[trigger] self.constants@[i]) == values[i] by {
            self.known_value::<H>(i);
        }
        assert(self.constants@ =~= values);
    }

    /// Keep the low bits of every host-known value.
    fn canonicalize(&mut self)
        requires
            crate::rv::machine::bounded(*old(self)),
        ensures
            *final(self) == (Machine { constants: final(self).constants, ..*old(self) }),
            forall|i: int|
                0 <= i < 32 ==> (#[trigger] final(self).constants@[i]) == match old(
                    self,
                ).constants@[i] {
                    Some(v) => Some(crate::wide::low(v, BITS as nat)),
                    None => None,
                },
    {
        let mut i: usize = 0;
        while i < 32
            invariant
                i <= 32,
                BITS == 32 || BITS == 64,
                *self == (Machine { constants: self.constants, ..*old(self) }),
                forall|j: int|
                    0 <= j < 32 ==> (#[trigger] self.constants@[j]) == if j < i {
                        match old(self).constants@[j] {
                            Some(v) => Some(crate::wide::low(v, BITS as nat)),
                            None => None,
                        }
                    } else {
                        old(self).constants@[j]
                    },
            decreases 32 - i,
        {
            if let Some(v) = self.constants[i] {
                self.constants[i] = Some(truncate::<BITS>(v));
            }
            i = i + 1;
        }
    }

    /// Push a frame and set the link register, where the jump links.
    pub fn enter<H>(
        &mut self,
        dest: u8,
        target: u64,
        return_pc: u64,
        Ghost(cells): Ghost<Seq<bool>>,
    ) -> (r: Result<Flow, ErtError<H::Error>>) where
        H: RvHandler<bool, BITS> + ContextWithValue<bool, Wrapped = W> + ?Sized,

        requires
            dest < 32,
            crate::rv::machine::bounded(*old(self)),
        ensures
            unemitted(r),
            crate::rv::machine::framed(*old(self), *final(self)),
            crate::rv::machine::live::<H, BITS>(*old(self)) && crate::wide::fits(
                return_pc,
                BITS as nat,
            ) ==> crate::rv::machine::stepped::<H, BITS>(
                *final(self),
                cells,
                r,
                crate::rv::machine::hart::<H, BITS>(*old(self)).enter(
                    cells,
                    dest as int,
                    target,
                    return_pc,
                    BITS as nat,
                ),
            ),
    {
        if dest == 0 {
            return Ok(Flow::Next(target));
        }
        if self.rsp >= self.rstack.len() {
            return Err(ErtError::Unexpected);
        }
        let ghost before = *self;
        self.rstack.set(self.rsp, return_pc);
        self.rsp = self.rsp + 1;
        proof {
            let a = crate::rv::machine::hart::<H, BITS>(*self);
            let b = crate::rv::machine::hart::<H, BITS>(before);
            assert(a == (Hart {
                rstack: b.rstack.update(b.rsp, return_pc),
                rsp: b.rsp + 1,
                ..b
            }));
        }
        let word = self.word_from_constant::<H>(return_pc);
        self.write::<H>(dest, word, Some(return_pc), None);
        Ok(Flow::Next(target))
    }

    /// Offer a call to the hook, then make it.
    fn call<H>(
        &mut self,
        h: &mut H,
        event: CallEvent,
        dest: u8,
        target: Option<u64>,
        return_pc: u64,
        Ghost(cells): Ghost<Seq<bool>>,
        answers: &mut Ghost<Answers>,
    ) -> (r: Result<Flow, ErtError<H::Error>>) where
        H: RvHandler<bool, BITS> + ContextWithValue<bool, Wrapped = W> + ?Sized,

        requires
            handles::<H, BITS>(),
            dest < 32,
            crate::wide::fits(return_pc, BITS as nat),
            crate::rv::machine::bounded(*old(self)),
        ensures
            crate::rv::machine::live::<H, BITS>(*old(self)) && unemitted(r) ==> told::<H, BITS>(
                crate::rv::machine::hart::<H, BITS>(*old(self)),
                event,
                final(answers)@.action,
                final(answers)@.hook,
            ),
            crate::rv::machine::live::<H, BITS>(*old(self)) ==> (r matches Err(
                ErtError::Emitted(error),
            ) ==> hook_failed::<H, BITS>(
                crate::rv::machine::hart::<H, BITS>(*old(self)),
                event,
                error,
            )),
            crate::rv::machine::framed(*old(self), *final(self)),
            crate::rv::machine::live::<H, BITS>(*old(self)) ==> crate::rv::machine::stepped::<
                H,
                BITS,
            >(
                *final(self),
                cells,
                r,
                crate::rv::machine::hart::<H, BITS>(*old(self)).call(
                    cells,
                    dest as int,
                    target,
                    return_pc,
                    final(answers)@.action,
                    final(answers)@.hook,
                    BITS as nat,
                ),
            ),
    {
        proof {
            if crate::rv::machine::live::<H, BITS>(*self) {
                agreement_out::<H, BITS>(self.regs@, self.constants@);
            }
        }
        let ghost before = *self;
        let ghost given = File {
            regs: self.regs@,
            constants: self.constants@,
            offsets: self.offs@,
        };
        proof {
            if crate::rv::machine::live::<H, BITS>(before) {
                before.known_values::<H>();
                assert(handed::<H, BITS>(given, crate::rv::machine::hart::<H, BITS>(before)));
            }
        }
        let decision = h.call_hook(
            event,
            &mut self.regs,
            &mut self.constants,
            &mut self.offs,
            &self.zero,
            &self.one,
        );
        proof {
            if decision is Err {
                assert(H::hook_fails(event, given, self.zero, self.one, decision->Err_0));
            }
        }
        let action = emitted(decision)?;
        let ghost hooked = *self;
        self.canonicalize();
        let ghost reply = reply_of::<H, BITS>(self.regs@, self.constants@, self.offs@);
        proof {
            *answers.borrow_mut() = Answers { action, hook: reply, ..answers@ };
            if crate::rv::machine::live::<H, BITS>(before) {
                answered::<H, BITS>(before, hooked, *self);
                let back = File {
                    regs: hooked.regs@,
                    constants: hooked.constants@,
                    offsets: hooked.offs@,
                };
                assert(reply.known =~= crate::thumb::machine::present(back.constants));
                assert(reply == reply_of::<H, BITS>(back.regs, back.constants, back.offsets));
                assert(crate::rv::handler::decided::<H, BITS>(
                    event,
                    given,
                    self.zero,
                    self.one,
                    action,
                    back,
                ));
            }
        }
        match hooked_target(action, target, return_pc) {
            Some((pc, entered)) => if entered {
                self.enter::<H>(dest, pc, return_pc, Ghost(cells))
            } else {
                Ok(Flow::Next(pc))
            },
            None => Err(ErtError::Unexpected),
        }
    }
}

/// A register file that a handler rewrote, under its rules, is sound again
/// once the host-known values are cut to the width of a register.
proof fn answered<H: RvHandler<bool, BITS> + ?Sized, const BITS: usize>(
    before: Machine<'_, <H as ContextWithValue<bool>>::Wrapped, BITS>,
    hooked: Machine<'_, <H as ContextWithValue<bool>>::Wrapped, BITS>,
    after: Machine<'_, <H as ContextWithValue<bool>>::Wrapped, BITS>,
) where <H as ContextWithValue<bool>>::Wrapped: Clone
    requires
        BITS == 32 || BITS == 64,
        crate::rv::machine::live::<H, BITS>(before),
        hooked == (Machine {
            regs: hooked.regs,
            constants: hooked.constants,
            offs: hooked.offs,
            ..before
        }),
        after == (Machine { constants: after.constants, ..hooked }),
        forall|i: int|
            0 <= i < 32 ==> (#[trigger] after.constants@[i]) == match hooked.constants@[i] {
                Some(v) => Some(crate::wide::low(v, BITS as nat)),
                None => None,
            },
        crate::handler::agree::<bool, H, BITS>(hooked.regs@, hooked.constants@),
        crate::rv::handler::offsets_kept::<<H as ContextWithValue<bool>>::Wrapped, BITS>(
            before.regs@,
            hooked.regs@,
            before.offs@,
            hooked.offs@,
        ),
    ensures
        crate::rv::machine::live::<H, BITS>(after),
        crate::rv::machine::hart::<H, BITS>(after) == crate::rv::machine::hart::<H, BITS>(
            before,
        ).replied(reply_of::<H, BITS>(after.regs@, after.constants@, after.offs@)),
{
    agreement_in::<H, BITS>(hooked.regs@, hooked.constants@, after.constants@);
    assert forall|i: int| 0 <= i < 32 implies ((#[trigger] after.offs@[i]) matches Some(o)
        ==> crate::context::bits::<H>(after.regs@[i]@) == crate::rv::machine::spelled(
        crate::rv::machine::at(after.sp, o),
        BITS as nat,
    )) by {
        if after.offs@[i] is Some {
            assert(hooked.offs@[i] == before.offs@[i]);
        }
    }
}

impl<'m, W: Clone, const BITS: usize> Machine<'m, W, BITS> {
    /// `JAL`.
    fn jump<H>(
        &mut self,
        h: &mut H,
        dest: u8,
        offset: i64,
        len: u64,
        Ghost(cells): Ghost<Seq<bool>>,
        answers: &mut Ghost<Answers>,
    ) -> (r: Result<Flow, ErtError<H::Error>>) where
        H: RvHandler<bool, BITS> + ContextWithValue<bool, Wrapped = W> + ?Sized,

        requires
            handles::<H, BITS>(),
            dest < 32,
            crate::rv::machine::bounded(*old(self)),
        ensures
            dest == 0 ==> crate::word::untouched::<H>(old(h), final(h)),
            crate::rv::machine::live::<H, BITS>(*old(self)) && unemitted(r) ==> consulted::<H, BITS>(
                crate::rv::machine::hart::<H, BITS>(*old(self)),
                RvOp::Jump { dest, offset },
                len,
                final(answers)@,
            ),
            crate::rv::machine::live::<H, BITS>(*old(self)) ==> (r matches Err(
                ErtError::Emitted(error),
            ) ==> failing::<H, BITS>(
                crate::rv::machine::hart::<H, BITS>(*old(self)),
                RvOp::Jump { dest, offset },
                len,
                error,
            )),
            crate::rv::machine::framed(*old(self), *final(self)),
            crate::rv::machine::live::<H, BITS>(*old(self)) ==> crate::rv::machine::stepped::<
                H,
                BITS,
            >(
                *final(self),
                cells,
                r,
                crate::rv::machine::hart::<H, BITS>(*old(self)).jump(
                    cells,
                    dest as int,
                    offset,
                    crate::wide::low(old(self).pc.wrapping_add(len), BITS as nat),
                    final(answers)@,
                    BITS as nat,
                ),
            ),
    {
        let target: u64 = truncate::<BITS>(self.pc.wrapping_add(to_pattern(offset)));
        if dest == 0 {
            return Ok(Flow::Next(target));
        }
        let return_pc: u64 = self.next(len);
        proof {
            crate::wide::low_spells(self.pc.wrapping_add(len), BITS as nat);
        }
        let event = CallEvent::DirectCall { caller_pc: self.pc, target, return_pc };
        self.call(h, event, dest, Some(target), return_pc, Ghost(cells), answers)
    }

    /// `JALR`.
    fn jump_register<H>(
        &mut self,
        h: &mut H,
        dest: u8,
        base: u8,
        offset: i64,
        len: u64,
        Ghost(cells): Ghost<Seq<bool>>,
        answers: &mut Ghost<Answers>,
    ) -> (r: Result<Flow, ErtError<H::Error>>) where
        H: RvHandler<bool, BITS> + ContextWithValue<bool, Wrapped = W> + ?Sized,

        requires
            handles::<H, BITS>(),
            dest < 32,
            base < 32,
            crate::rv::machine::bounded(*old(self)),
        ensures
            dest == 0 && base == RA && offset == 0 ==> crate::word::untouched::<H>(
                old(h),
                final(h),
            ),
            crate::rv::machine::live::<H, BITS>(*old(self)) && unemitted(r) ==> consulted::<H, BITS>(
                crate::rv::machine::hart::<H, BITS>(*old(self)),
                RvOp::JumpRegister { dest, base, offset },
                len,
                final(answers)@,
            ),
            crate::rv::machine::live::<H, BITS>(*old(self)) ==> (r matches Err(
                ErtError::Emitted(error),
            ) ==> failing::<H, BITS>(
                crate::rv::machine::hart::<H, BITS>(*old(self)),
                RvOp::JumpRegister { dest, base, offset },
                len,
                error,
            )),
            crate::rv::machine::framed(*old(self), *final(self)),
            crate::rv::machine::live::<H, BITS>(*old(self)) ==> crate::rv::machine::stepped::<
                H,
                BITS,
            >(
                *final(self),
                cells,
                r,
                crate::rv::machine::hart::<H, BITS>(*old(self)).jump_register(
                    cells,
                    dest as int,
                    base as int,
                    offset,
                    crate::wide::low(old(self).pc.wrapping_add(len), BITS as nat),
                    final(answers)@,
                    BITS as nat,
                ),
            ),
    {
        if dest == 0 && base == RA && offset == 0 {
            if self.rsp == 0 {
                return Err(ErtError::Unexpected);
            }
            self.rsp = self.rsp - 1;
            return Ok(Flow::Next(self.rstack[self.rsp]));
        }
        proof {
            if crate::rv::machine::live::<H, BITS>(*self) {
                self.known_value::<H>(base as int);
            }
            crate::wide::low_spells(self.pc.wrapping_add(len), BITS as nat);
        }
        let target = match self.constants[base as usize] {
            Some(c) => {
                let full: u64 = truncate::<BITS>(c.wrapping_add(to_pattern(offset)));
                Some(full - full % 2)
            },
            None => None,
        };
        let return_pc: u64 = self.next(len);
        let event = CallEvent::RegisterCall {
            caller_pc: self.pc,
            register: base,
            target,
            return_pc,
        };
        self.call(h, event, dest, target, return_pc, Ghost(cells), answers)
    }

    /// A conditional branch on known operands.
    fn branch<H>(
        &mut self,
        predicate: ComparePredicate,
        left: u8,
        right: u8,
        offset: i64,
        len: u64,
        Ghost(cells): Ghost<Seq<bool>>,
    ) -> (r: Result<Flow, ErtError<H::Error>>) where
        H: RvHandler<bool, BITS> + ContextWithValue<bool, Wrapped = W> + ?Sized,

        requires
            left < 32,
            right < 32,
            crate::rv::machine::bounded(*old(self)),
        ensures
            unemitted(r),
            crate::rv::machine::framed(*old(self), *final(self)),
            crate::rv::machine::live::<H, BITS>(*old(self)) ==> crate::rv::machine::stepped::<
                H,
                BITS,
            >(
                *final(self),
                cells,
                r,
                crate::rv::machine::hart::<H, BITS>(*old(self)).branch(
                    cells,
                    predicate,
                    left as int,
                    right as int,
                    offset,
                    crate::wide::low(old(self).pc.wrapping_add(len), BITS as nat),
                    BITS as nat,
                ),
            ),
    {
        let (a, b) = match (self.constants[left as usize], self.constants[right as usize]) {
            (Some(a), Some(b)) => (a, b),
            _ => return Err(ErtError::Unexpected),
        };
        proof {
            crate::wide::low_spells(a, BITS as nat);
            crate::wide::low_spells(b, BITS as nat);
        }
        let taken = compare_values::<BITS>(predicate, truncate::<BITS>(a), truncate::<BITS>(b));
        if taken {
            Ok(Flow::Next(truncate::<BITS>(self.pc.wrapping_add(to_pattern(offset)))))
        } else {
            Ok(Flow::Next(self.next(len)))
        }
    }

    /// An environment call.
    fn ecall<H>(
        &mut self,
        h: &mut H,
        len: u64,
        Ghost(cells): Ghost<Seq<bool>>,
        answers: &mut Ghost<Answers>,
    ) -> (r: Result<Flow, ErtError<H::Error>>) where
        H: RvHandler<bool, BITS> + ContextWithValue<bool, Wrapped = W> + ?Sized,

        requires
            handles::<H, BITS>(),
            crate::rv::machine::bounded(*old(self)),
        ensures
            crate::rv::machine::live::<H, BITS>(*old(self)) && unemitted(r) ==> consulted::<H, BITS>(
                crate::rv::machine::hart::<H, BITS>(*old(self)),
                RvOp::Ecall,
                len,
                final(answers)@,
            ),
            crate::rv::machine::live::<H, BITS>(*old(self)) ==> (r matches Err(
                ErtError::Emitted(error),
            ) ==> failing::<H, BITS>(
                crate::rv::machine::hart::<H, BITS>(*old(self)),
                RvOp::Ecall,
                len,
                error,
            )),
            crate::rv::machine::framed(*old(self), *final(self)),
            crate::rv::machine::live::<H, BITS>(*old(self)) ==> crate::rv::machine::stepped::<
                H,
                BITS,
            >(
                *final(self),
                cells,
                r,
                crate::rv::machine::hart::<H, BITS>(*old(self)).ecall(
                    cells,
                    old(self).stack_top,
                    crate::wide::low(old(self).pc.wrapping_add(len), BITS as nat),
                    final(answers)@,
                ),
            ),
    {
        proof {
            if crate::rv::machine::live::<H, BITS>(*self) {
                agreement_out::<H, BITS>(self.regs@, self.constants@);
            }
        }
        let ghost before = *self;
        let ghost given = File {
            regs: self.regs@,
            constants: self.constants@,
            offsets: self.offs@,
        };
        proof {
            if crate::rv::machine::live::<H, BITS>(before) {
                before.known_values::<H>();
                assert(handed::<H, BITS>(given, crate::rv::machine::hart::<H, BITS>(before)));
            }
        }
        let answer = h.ecall(
            &mut self.regs,
            &mut self.constants,
            &mut self.offs,
            &self.zero,
            &self.one,
        );
        proof {
            if answer is Err {
                assert(H::fails(given, self.zero, self.one, answer->Err_0));
            }
        }
        let outcome = emitted(answer)?;
        let ghost hooked = *self;
        self.canonicalize();
        let ghost reply = reply_of::<H, BITS>(self.regs@, self.constants@, self.offs@);
        proof {
            *answers.borrow_mut() = Answers { outcome, ecall: reply, ..answers@ };
            if crate::rv::machine::live::<H, BITS>(before) {
                answered::<H, BITS>(before, hooked, *self);
                let back = File {
                    regs: hooked.regs@,
                    constants: hooked.constants@,
                    offsets: hooked.offs@,
                };
                assert(reply.known =~= crate::thumb::machine::present(back.constants));
                assert(reply == reply_of::<H, BITS>(back.regs, back.constants, back.offsets));
                assert(H::answers(given, self.zero, self.one, outcome, back));
            }
        }
        ecall_flow(outcome, self.sp, self.stack_top, self.next(len))
    }

    /// Execute an operation on registers and the virtual stack.
    fn compute<H>(&mut self, h: &mut H, st: &mut H::Storage, op: RvOp) -> (r: Result<
        (),
        ErtError<H::Error>,
    >) where H: RvHandler<bool, BITS> + ContextWithValue<bool, Wrapped = W> + ?Sized
        requires
            crate::rv::inst::op_ok(op),
            crate::rv::machine::bounded(*old(self)),
            crate::rv::machine::ready::<H, BITS>(*old(self), old(st)),
        ensures
            crate::rv::machine::framed(*old(self), *final(self)),
            crate::rv::machine::ready::<H, BITS>(*final(self), final(st)),
            final(self).pc == old(self).pc,
            H::tracks() && crate::rv::machine::live::<H, BITS>(*old(self)) ==> {
                let expected = crate::rv::machine::hart::<H, BITS>(*old(self)).compute(
                    H::cells(old(st)),
                    crate::rv::machine::frame::<H, BITS>(*old(self)),
                    op,
                );
                match r {
                    Ok(_) => crate::rv::machine::live::<H, BITS>(*final(self)) && expected == Some(
                        (crate::rv::machine::hart::<H, BITS>(*final(self)), H::cells(final(st))),
                    ),
                    Err(ErtError::Unexpected) => expected is None,
                    Err(ErtError::Emitted(error)) => !crate::context::reliable::<H>()
                        && crate::context::erred::<H>(error),
                    Err(ErtError::Decode(_)) => false,
                }
            },
    {
        match op {
            RvOp::Upper { dest, value, pc_relative } => self.upper::<H>(dest, value, pc_relative),
            RvOp::AddImmediate { dest, src, imm } => self.add_immediate(h, dest, src, imm),
            RvOp::Add { dest, left, right } => self.add(h, dest, left, right),
            RvOp::Sub { dest, left, right } => self.subtract(h, dest, left, right),
            RvOp::Bitwise { operation, dest, left, right } => self.bitwise(
                h,
                operation,
                dest,
                left,
                right,
            ),
            RvOp::BitwiseImmediate { operation, dest, src, imm } => self.bitwise_immediate(
                h,
                operation,
                dest,
                src,
                imm,
            ),
            RvOp::ShiftImmediate { direction, dest, src, amount } => self.shift::<H>(
                direction,
                dest,
                src,
                amount,
            ),
            RvOp::Load { dest, base, offset, width, signed } => self.load(
                h,
                st,
                dest,
                base,
                offset,
                width,
                signed,
            ),
            RvOp::Store { src, base, offset, width } => self.store(
                h,
                st,
                src,
                base,
                offset,
                width,
            ),
            _ => Ok(()),
        }
    }

    /// Execute an operation in a state whose fixed registers are set.
    pub fn execute<H>(
        &mut self,
        h: &mut H,
        st: &mut H::Storage,
        op: RvOp,
        len: u64,
        answers: &mut Ghost<Answers>,
    ) -> (r: Result<Flow, ErtError<H::Error>>) where
        H: RvHandler<bool, BITS> + ContextWithValue<bool, Wrapped = W> + ?Sized,

        requires
            handles::<H, BITS>(),
            crate::rv::inst::op_ok(op),
            crate::rv::machine::bounded(*old(self)),
            crate::rv::machine::ready::<H, BITS>(*old(self), old(st)),
        ensures
            unconditional(op) ==> crate::word::untouched::<H>(old(h), final(h)),
            crate::rv::machine::live::<H, BITS>(*old(self)) && unemitted(r) ==> consulted::<H, BITS>(
                crate::rv::machine::hart::<H, BITS>(*old(self)),
                op,
                len,
                final(answers)@,
            ),
            H::tracks() && crate::rv::machine::live::<H, BITS>(*old(self)) ==> (r matches Err(
                ErtError::Emitted(error),
            ) ==> failing::<H, BITS>(
                crate::rv::machine::hart::<H, BITS>(*old(self)),
                op,
                len,
                error,
            )),
            crate::rv::machine::framed(*old(self), *final(self)),
            crate::rv::machine::ready::<H, BITS>(*final(self), final(st)),
            H::tracks() && crate::rv::machine::live::<H, BITS>(*old(self))
                ==> crate::rv::machine::stepped::<H, BITS>(
                *final(self),
                H::cells(final(st)),
                r,
                crate::rv::machine::hart::<H, BITS>(*old(self)).execute(
                    H::cells(old(st)),
                    crate::rv::machine::frame::<H, BITS>(*old(self)),
                    op,
                    len,
                    final(answers)@,
                ),
            ),
    {
        let ghost cells = H::cells(st);
        match op {
            RvOp::Jump { dest, offset } => self.jump(h, dest, offset, len, Ghost(cells), answers),
            RvOp::JumpRegister { dest, base, offset } => self.jump_register(
                h,
                dest,
                base,
                offset,
                len,
                Ghost(cells),
                answers,
            ),
            RvOp::Branch { predicate, left, right, offset } => self.branch::<H>(
                predicate,
                left,
                right,
                offset,
                len,
                Ghost(cells),
            ),
            RvOp::Ecall => self.ecall(h, len, Ghost(cells), answers),
            RvOp::Unsupported => Err(ErtError::Unexpected),
            _ => {
                self.compute(h, st, op)?;
                Ok(Flow::Next(self.next(len)))
            },
        }
    }

    /// Move the program counter to the start of its instruction.
    pub fn align<H>(&mut self) where H: ContextWithValue<bool, Wrapped = W> + ?Sized
        requires
            crate::rv::machine::bounded(*old(self)),
        ensures
            *final(self) == (Machine { pc: final(self).pc, ..*old(self) }),
            final(self).pc == crate::rv::inst::start_of(old(self).pc, old(self).plain),
            crate::rv::machine::framed(*old(self), *final(self)),
            crate::rv::machine::live::<H, BITS>(*old(self)) ==> crate::rv::machine::live::<H, BITS>(
                *final(self),
            ),
            crate::rv::machine::hart::<H, BITS>(*final(self)) == crate::rv::machine::hart::<
                H,
                BITS,
            >(*old(self)).at_start(crate::rv::machine::frame::<H, BITS>(*old(self))),
    {
        if self.plain {
            self.pc = self.pc - self.pc % 4;
        }
    }

    /// Fetch and decode the operation at the program counter.
    pub fn decode<E>(&self) -> (r: Result<(RvOp, u64), ErtError<E>>)
        ensures
            r == match crate::rv::inst::fetched(self.mem, self.pc, BITS == 64, self.plain) {
                Ok(found) => Ok::<(RvOp, u64), ErtError<E>>(found),
                Err(FetchError::Unmapped) => Err(ErtError::Unexpected),
                Err(FetchError::Decode(e)) => Err(ErtError::Decode(e)),
            },
            r matches Ok(found) ==> crate::rv::inst::op_ok(found.0) && (found.1 == 2 || found.1
                == 4) && self.pc + found.1 <= u64::MAX,
    {
        match fetch_for(&self.mem, self.pc, BITS == 64, self.plain) {
            Ok(found) => Ok(found),
            Err(FetchError::Unmapped) => Err(ErtError::Unexpected),
            Err(FetchError::Decode(e)) => Err(ErtError::Decode(e)),
        }
    }

    /// Execute the instruction at the program counter.
    pub fn step<H>(&mut self, h: &mut H, st: &mut H::Storage, answers: &mut Ghost<Answers>) -> (r:
        Result<Flow, ErtError<H::Error>>) where
        H: RvHandler<bool, BITS> + ContextWithValue<bool, Wrapped = W> + ?Sized,

        requires
            handles::<H, BITS>(),
            crate::rv::machine::bounded(*old(self)),
            crate::rv::machine::ready::<H, BITS>(*old(self), old(st)),
        ensures
            crate::rv::machine::live::<H, BITS>(*old(self)) && unemitted(r) ==> honest::<H, BITS>(
                crate::rv::machine::hart::<H, BITS>(*old(self)),
                crate::rv::machine::frame::<H, BITS>(*old(self)),
                final(answers)@,
            ),
            H::tracks() && crate::rv::machine::live::<H, BITS>(*old(self)) ==> (r matches Err(
                ErtError::Emitted(error),
            ) ==> broke::<H, BITS>(
                crate::rv::machine::hart::<H, BITS>(*old(self)),
                crate::rv::machine::frame::<H, BITS>(*old(self)),
                error,
            )),
            crate::rv::machine::framed(*old(self), *final(self)),
            crate::rv::machine::ready::<H, BITS>(*final(self), final(st)),
            H::tracks() && crate::rv::machine::live::<H, BITS>(*old(self))
                ==> crate::rv::machine::stepped::<H, BITS>(
                *final(self),
                H::cells(final(st)),
                r,
                crate::rv::machine::hart::<H, BITS>(*old(self)).step(
                    H::cells(old(st)),
                    crate::rv::machine::frame::<H, BITS>(*old(self)),
                    final(answers)@,
                ),
            ),
    {
        self.align::<H>();
        let (op, len) = self.decode()?;
        self.reset_fixed_registers::<H>();
        let flow = self.execute(h, st, op, len, answers)?;
        if let Flow::Next(next) = flow {
            self.pc = next;
        }
        Ok(flow)
    }

    /// Execute instructions until the program exits. A program that has not
    /// exited after `u64::MAX` instructions is given up as unexpected.
    pub fn run<H>(&mut self, h: &mut H, st: &mut H::Storage) -> (r: Result<
        (),
        ErtError<H::Error>,
    >) where H: RvHandler<bool, BITS> + ContextWithValue<bool, Wrapped = W> + ?Sized
        requires
            handles::<H, BITS>(),
            crate::rv::machine::bounded(*old(self)),
            crate::rv::machine::ready::<H, BITS>(*old(self), old(st)),
        ensures
            crate::rv::machine::framed(*old(self), *final(self)),
            crate::rv::machine::ready::<H, BITS>(*final(self), final(st)),
            H::tracks() && crate::rv::machine::live::<H, BITS>(*old(self)) ==> exists|
                answers: Seq<Answers>,
            | #[trigger]
                ran::<H, BITS>(
                    *final(self),
                    H::cells(final(st)),
                    r,
                    crate::rv::machine::hart::<H, BITS>(*old(self)),
                    H::cells(old(st)),
                    crate::rv::machine::frame::<H, BITS>(*old(self)),
                    answers,
                ),
    {
        let ghost start = crate::rv::machine::hart::<H, BITS>(*self);
        let ghost first = H::cells(st);
        let ghost around = crate::rv::machine::frame::<H, BITS>(*self);
        let ghost good = H::tracks() && crate::rv::machine::live::<H, BITS>(*self);
        let ghost mut past: Seq<Answers> = Seq::empty();
        let mut left: u64 = u64::MAX;
        while left > 0
            invariant
                handles::<H, BITS>(),
                past.len() + left == u64::MAX,
                good == (H::tracks() && crate::rv::machine::live::<H, BITS>(*old(self))),
                start == crate::rv::machine::hart::<H, BITS>(*old(self)),
                first == H::cells(old(st)),
                around == crate::rv::machine::frame::<H, BITS>(*old(self)),
                crate::rv::machine::framed(*old(self), *self),
                crate::rv::machine::ready::<H, BITS>(*self, st),
                good ==> {
                    &&& crate::rv::machine::live::<H, BITS>(*self)
                    &&& sincere::<H, BITS>(start, first, around, past)
                    &&& runs(start, first, around, past) == (Step::Next {
                        hart: crate::rv::machine::hart::<H, BITS>(*self),
                        cells: H::cells(st),
                        pc: self.pc,
                    })
                },
            decreases left,
        {
            let mut answers: Ghost<Answers> = Ghost(arbitrary());
            let stepped = self.step(h, st, &mut answers);
            let ghost held = past;
            proof {
                let more = past.push(answers@);
                assert(more.drop_last() =~= past);
                past = more;
            }
            left = left - 1;
            match stepped {
                Ok(Flow::Next(_)) => {},
                Ok(Flow::Exit) => {
                    proof {
                        if good {
                            assert(ran::<H, BITS>(
                                *self,
                                H::cells(st),
                                Ok(()),
                                start,
                                first,
                                around,
                                past,
                            ));
                        }
                    }
                    return Ok(());
                },
                Err(e) => {
                    proof {
                        if good {
                            assert(ran::<H, BITS>(
                                *self,
                                H::cells(st),
                                Err(e),
                                start,
                                first,
                                around,
                                if e is Emitted {
                                    held
                                } else {
                                    past
                                },
                            ));
                        }
                    }
                    return Err(e);
                },
            }
        }
        proof {
            if good {
                assert(ran::<H, BITS>(
                    *self,
                    H::cells(st),
                    Err(ErtError::Unexpected),
                    start,
                    first,
                    around,
                    past,
                ));
            }
        }
        Err(ErtError::Unexpected)
    }
}

/// A run from a state: one step per answer, until one of them is the last.
pub open spec fn runs(h: Hart, cells: Seq<bool>, frame: Frame<'_>, answers: Seq<Answers>) -> Step
    decreases answers.len(),
{
    if answers.len() == 0 {
        Step::Next { hart: h, cells, pc: h.pc }
    } else {
        match runs(h, cells, frame, answers.drop_last()) {
            Step::Next { hart, cells, pc: _ } => hart.step(cells, frame, answers.last()),
            other => other,
        }
    }
}

/// What a run left is what the steps from its start lead to.
pub open spec fn ran<H: RvHandler<bool, BITS> + ?Sized, const BITS: usize>(
    after: Machine<'_, <H as ContextWithValue<bool>>::Wrapped, BITS>,
    cells_after: Seq<bool>,
    r: Result<(), ErtError<H::Error>>,
    h: Hart,
    cells: Seq<bool>,
    frame: Frame<'_>,
    answers: Seq<Answers>,
) -> bool where <H as ContextWithValue<bool>>::Wrapped: Clone {
    &&& ended::<H, BITS, ()>(r, h, cells, frame, answers)
    &&& r is Ok ==> crate::rv::machine::live::<H, BITS>(after) && runs(h, cells, frame, answers)
        == (Step::Exit { hart: crate::rv::machine::hart::<H, BITS>(after), cells: cells_after })
}

} // verus!
