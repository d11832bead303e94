//! The instruction step, and runs of it.
use crate::arm_shift::choose_wire;
use crate::compare::zero_word;
use crate::context::{keep, ContextWithValue};
use crate::thumb::control::Answers;
use crate::thumb::early_exit::{fetch, FetchError};
use crate::thumb::handler::{ArmCallEvent, ArmHandler, SecurityAttribute, SecurityState};
use crate::thumb::machine::{
    emitted, Cpu, ErtError, Flag, FlagWire, Flow, Machine, Step, FLAG_N, FLAG_Z,
};
use crate::thumb::op::{Decoded, DecodeError, Op, SP};
use crate::word::{invert_word, select_word};
use vstd::prelude::*;

verus! {

/// What surrounds a program: its image, the size of its virtual stack in
/// bits, and where that stack starts.
pub struct Frame<'m> {
    pub mem: crate::memory::RawMemory<'m>,
    pub storage_bits: int,
    pub stack_top: u32,
}

/// The surroundings of a machine.
pub open spec fn frame<'m, W>(m: Machine<'m, W>) -> Frame<'m> {
    Frame { mem: m.mem, storage_bits: m.storage_bits as int, stack_top: m.stack_top }
}

/// The three kinds of operation.
#[derive(Clone, Copy, Debug, Eq, PartialEq, Structural)]
pub enum Class {
    /// Registers and flags only.
    Data,
    /// Loads and stores.
    Memory,
    /// Predication, branches, calls and host calls.
    Control,
}

/// The kind of an operation.
pub open spec fn class(op: Op) -> Class {
    match op {
        Op::Nop | Op::Move { .. } | Op::MoveTop { .. } | Op::MoveNot { .. }
        | Op::Arithmetic { .. } | Op::Bitwise { .. } | Op::BitClear { .. } | Op::Compare { .. }
        | Op::Test { .. } | Op::Shift { .. } | Op::Multiply { .. } | Op::LongMultiply { .. }
        | Op::ReadApsr { .. } | Op::WriteApsr { .. } => Class::Data,
        Op::Load { .. } | Op::Store { .. } | Op::StoreDouble { .. } | Op::LoadIndexed { .. }
        | Op::StoreIndexed { .. } | Op::Push { .. } | Op::Pop { .. } | Op::LoadMultiple { .. }
        | Op::StoreMultiple { .. } => Class::Memory,
        _ => Class::Control,
    }
}

fn classify(op: Op) -> (r: Class)
    ensures
        r == class(op),
{
    match op {
        Op::Nop | Op::Move { .. } | Op::MoveTop { .. } | Op::MoveNot { .. }
        | Op::Arithmetic { .. } | Op::Bitwise { .. } | Op::BitClear { .. } | Op::Compare { .. }
        | Op::Test { .. } | Op::Shift { .. } | Op::Multiply { .. } | Op::LongMultiply { .. }
        | Op::ReadApsr { .. } | Op::WriteApsr { .. } => Class::Data,
        Op::Load { .. } | Op::Store { .. } | Op::StoreDouble { .. } | Op::LoadIndexed { .. }
        | Op::StoreIndexed { .. } | Op::Push { .. } | Op::Pop { .. } | Op::LoadMultiple { .. }
        | Op::StoreMultiple { .. } => Class::Memory,
        _ => Class::Control,
    }
}

/// A data instruction's result as a step.
pub open spec fn data(cpu: Option<Cpu>, cells: Seq<bool>, pc: u32) -> Step {
    match cpu {
        Some(cpu) => Step::Next { cpu, cells, pc },
        None => Step::Unexpected,
    }
}

impl Cpu {
    /// What a register operation leaves, where it is accepted.
    pub open spec fn compute(self, op: Op) -> Option<Cpu> {
        match op {
            Op::Nop => Some(self),
            Op::Move { dest, source, set_flags } => Some(self.mov(dest as int, source, set_flags)),
            Op::MoveTop { dest, immediate } => Some(
                    self.write(
                        dest as int,
                        crate::thumb::logic::with_top(self.regs[dest as int], immediate),
                        self.known[dest as int],
                    ),
                ),
            Op::MoveNot { dest, source, set_flags } => Some(
                self.result(dest as int, self.not(source), set_flags),
            ),
            Op::Arithmetic { kind, dest, left, right, set_flags } => self.arithmetic(
                kind,
                dest as int,
                left,
                right,
                set_flags,
            ),
            Op::Bitwise { kind, dest, left, right, set_flags } => Some(
                    self.result(
                        dest as int,
                        self.bitwise(kind, self.operand(left), self.operand(right)),
                        set_flags,
                    ),
                ),
            Op::BitClear { dest, left, right, set_flags } => Some(
                    self.result(
                        dest as int,
                        self.bit_clear(self.operand(left), self.operand(right)),
                        set_flags,
                    ),
                ),
            Op::Compare { left, right, add } => Some(self.compare(left, right, add)),
            Op::Test { left, right } => Some(self.test(self.operand(left), self.operand(right))),
            Op::Shift { dest, source, direction, amount, set_flags } => Some(
                self.shift(dest as int, source as int, direction, amount, set_flags),
            ),
            Op::Multiply { dest, left, right, add, subtract, set_flags } => Some(
                    self.result(
                        dest as int,
                        self.multiply(left as int, right as int, add, subtract),
                        set_flags,
                    ),
                ),
            Op::LongMultiply { dest_low, dest_high, left, right, signed } => Some(
                    self.long_multiply(
                        dest_low as int,
                        dest_high as int,
                        left as int,
                        right as int,
                        signed,
                    ),
                ),
            Op::ReadApsr { dest } => self.read_apsr(dest as int),
            Op::WriteApsr { source } => self.write_apsr(source as int),
            _ => None,
        }
    }

    /// What a load or store does.
    pub open spec fn access(self, cells: Seq<bool>, frame: Frame<'_>, op: Op, len: u32) -> Step {
        let next = self.pc.wrapping_add(len);
        let bits = frame.storage_bits;
        match op {
            Op::Load { dest, base, offset, kind } => crate::thumb::stack::fall_through(
                self.load(cells, frame.mem, bits, dest as int, base as int, offset, kind),
                Some(cells),
                next,
            ),
            Op::Store { source, base, offset, width } => crate::thumb::stack::fall_through(
                Some(self),
                self.store(cells, bits, source as int, base as int, offset, width as int),
                next,
            ),
            Op::StoreDouble { first, second, base, offset } => match self.store(
                cells,
                bits,
                first as int,
                base as int,
                offset,
                32,
            ) {
                None => Step::Unexpected,
                Some(half) => crate::thumb::stack::fall_through(
                    Some(self),
                    self.store(
                        half,
                        bits,
                        second as int,
                        base as int,
                        offset.wrapping_add(4),
                        32,
                    ),
                    next,
                ),
            },
            Op::LoadIndexed { dest, base, index, shift, kind } => match self.index_offset(
                index as int,
                shift,
            ) {
                None => Step::Unexpected,
                Some(offset) => crate::thumb::stack::fall_through(
                    self.load(cells, frame.mem, bits, dest as int, base as int, offset, kind),
                    Some(cells),
                    next,
                ),
            },
            Op::StoreIndexed { source, base, index, shift, width } => match self.index_offset(
                index as int,
                shift,
            ) {
                None => Step::Unexpected,
                Some(offset) => crate::thumb::stack::fall_through(
                    Some(self),
                    self.store(cells, bits, source as int, base as int, offset, width as int),
                    next,
                ),
            },
            Op::Push { list } => crate::thumb::stack::pushed(self, cells, bits, list, len),
            Op::Pop { list } => crate::thumb::stack::popped(self, cells, bits, list, len),
            Op::LoadMultiple { base, list, write_back } => crate::thumb::stack::block_loaded(
                self,
                cells,
                bits,
                base as int,
                list,
                write_back,
                len,
            ),
            Op::StoreMultiple { base, list, write_back } => crate::thumb::stack::block_stored(
                self,
                cells,
                bits,
                base as int,
                list,
                write_back,
                len,
            ),
            _ => Step::Unexpected,
        }
    }

    /// What a control transfer does.
    pub open spec fn transfer(
        self,
        cells: Seq<bool>,
        frame: Frame<'_>,
        op: Op,
        len: u32,
        answers: Answers,
    ) -> Step {
        let next = self.pc.wrapping_add(len);
        match op {
            Op::It { condition, mask } => if condition >= 14 || mask == 0 {
                Step::Decode(DecodeError::Malformed(((condition as u32) << 4) | (mask as u32)))
            } else {
                Step::Next {
                    cpu: Cpu { itstate: (condition << 4) | mask, ..self },
                    cells,
                    pc: next,
                }
            },
            Op::Branch { target, condition } => self.branch(cells, target, condition, next),
            Op::CompareBranch { register, nonzero, target } => self.compare_branch(
                cells,
                frame.mem,
                register,
                nonzero,
                target,
                len,
                answers.options,
            ),
            Op::Call { target } => self.call(
                cells,
                Some(target),
                next,
                answers.action,
                answers.hook,
            ),
            Op::CallRegister { register } => self.call_register(
                cells,
                register as int,
                next,
                answers.action,
                answers.hook,
            ),
            Op::BranchRegister { register } => self.branch_register(cells, register as int),
            Op::SecureGateway => Step::Next {
                cpu: self.secure_gateway(answers.attribute),
                cells,
                pc: next,
            },
            Op::BranchExchangeNonSecure { register, link } => self.branch_exchange_non_secure(
                cells,
                register as int,
                link,
                next,
            ),
            Op::Svc(number) => if number == 0 {
                self.svc(
                    cells,
                    frame.stack_top,
                    next,
                    answers.permit,
                    answers.outcome,
                    answers.ecall,
                )
            } else {
                Step::Unexpected
            },
            _ => Step::Unexpected,
        }
    }

    /// What an operation does, once it is due.
    pub open spec fn perform(
        self,
        cells: Seq<bool>,
        frame: Frame<'_>,
        op: Op,
        len: u32,
        answers: Answers,
    ) -> Step {
        match class(op) {
            Class::Data => data(self.compute(op), cells, self.pc.wrapping_add(len)),
            Class::Memory => self.access(cells, frame, op, len),
            Class::Control => self.transfer(cells, frame, op, len, answers),
        }
    }

    /// What an operation does. In the Non-secure state, code may be fetched
    /// from Non-secure memory only; the one exception is the gateway.
    pub open spec fn execute(
        self,
        cells: Seq<bool>,
        frame: Frame<'_>,
        op: Op,
        len: u32,
        answers: Answers,
    ) -> Step {
        if self.security == SecurityState::NonSecure && op != Op::SecureGateway
            && answers.attribute != SecurityAttribute::NonSecure {
            Step::Unexpected
        } else {
            self.perform(cells, frame, op, len, answers)
        }
    }

    /// The value that a predicated move would write.
    pub open spec fn candidate(self, op: Op) -> Option<(int, crate::thumb::data::Fact, bool)> {
        match op {
            Op::Move { dest, source, set_flags } => if dest < 13 {
                Some((dest as int, self.operand(source), set_flags))
            } else {
                None
            },
            Op::MoveNot { dest, source, set_flags } => if dest < 13 {
                Some((dest as int, self.not(source), set_flags))
            } else {
                None
            },
            _ => None,
        }
    }

    /// A move under a condition that the host does not know: the result, and
    /// N and Z, are selected by the condition.
    pub open spec fn select_move(
        self,
        holds: bool,
        dest: int,
        fact: crate::thumb::data::Fact,
        set_flags: bool,
    ) -> Cpu {
        let written = self.write(
            dest,
            if holds {
                fact.word
            } else {
                self.regs[dest]
            },
            false,
        );
        if set_flags {
            written.set_flag(
                0,
                if holds {
                    fact.word[31]
                } else {
                    self.flags[0]
                },
                false,
            ).set_flag(
                1,
                if holds {
                    crate::bits::num(fact.word) == 0
                } else {
                    self.flags[1]
                },
                false,
            )
        } else {
            written
        }
    }

    /// A symbolic condition may only materialize a value: one register move,
    /// alone in its block.
    pub open spec fn execute_symbolic_it(self, cells: Seq<bool>, op: Op, len: u32) -> Step {
        if self.itstate & 7 != 0 {
            Step::Unexpected
        } else {
            match self.candidate(op) {
                None => Step::Unexpected,
                Some((dest, fact, set_flags)) => Step::Next {
                    cpu: self.select_move(
                        crate::thumb::flags::condition_holds(self, (self.itstate >> 4) & 15),
                        dest,
                        fact,
                        set_flags,
                    ),
                    cells,
                    pc: self.pc.wrapping_add(len),
                },
            }
        }
    }

    /// The predication state after an instruction of a block.
    pub open spec fn advance_it(self) -> Cpu {
        Cpu {
            itstate: if self.itstate & 7 == 0 {
                0
            } else {
                (self.itstate & 0xe0) | ((self.itstate << 1) & 0x1f)
            },
            ..self
        }
    }

    /// What a decoded instruction does, under predication.
    pub open spec fn predicated(
        self,
        cells: Seq<bool>,
        frame: Frame<'_>,
        d: Decoded,
        answers: Answers,
    ) -> Step {
        if d.operation is It {
            if self.itstate != 0 {
                Step::Unexpected
            } else {
                self.execute(cells, frame, d.operation, d.len, answers)
            }
        } else if self.itstate == 0 {
            self.execute(cells, frame, d.operation, d.len, answers)
        } else {
            match crate::thumb::flags::condition_known(self, (self.itstate >> 4) & 15) {
                None => Step::Unexpected,
                Some(Some(true)) => self.execute(cells, frame, d.operation, d.len, answers),
                Some(Some(false)) => Step::Next {
                    cpu: self,
                    cells,
                    pc: self.pc.wrapping_add(d.len),
                },
                Some(None) => self.execute_symbolic_it(cells, d.operation, d.len),
            }
        }
    }

    /// What a decoded instruction does, with the predication state moved on.
    pub open spec fn execute_decoded(
        self,
        cells: Seq<bool>,
        frame: Frame<'_>,
        d: Decoded,
        answers: Answers,
    ) -> Step {
        match self.predicated(cells, frame, d, answers) {
            Step::Next { cpu, cells, pc } => Step::Next {
                cpu: if !(d.operation is It) && cpu.itstate != 0 {
                    cpu.advance_it()
                } else {
                    cpu
                },
                cells,
                pc,
            },
            Step::Exit { cpu, cells } => Step::Exit {
                cpu: if !(d.operation is It) && cpu.itstate != 0 {
                    cpu.advance_it()
                } else {
                    cpu
                },
                cells,
            },
            other => other,
        }
    }

    /// What the instruction at the program counter does.
    pub open spec fn step(self, cells: Seq<bool>, frame: Frame<'_>, answers: Answers) -> Step {
        match crate::thumb::early_exit::instruction_at(frame.mem, self.pc) {
            Err(FetchError::Unmapped) => Step::Unexpected,
            Err(FetchError::Decode(e)) => Step::Decode(e),
            Ok(d) => match self.execute_decoded(cells, frame, d, answers) {
                Step::Next { cpu, cells, pc } => Step::Next { cpu: Cpu { pc, ..cpu }, cells, pc },
                other => other,
            },
        }
    }
}

/// What an operation learnt from the handler, once it was due.
pub open spec fn consulted<H: ArmHandler<bool> + ?Sized>(
    c: Cpu,
    op: Op,
    len: u32,
    answers: Answers,
) -> bool {
    match op {
        Op::Svc(number) => number == 0 ==> {
            &&& crate::thumb::control::permitted::<H>(c.security, answers.permit)
            &&& answers.permit ==> crate::thumb::control::called::<H>(
                c,
                answers.outcome,
                answers.ecall,
            )
        },
        Op::Call { target } => crate::thumb::control::told::<H>(
            c,
            ArmCallEvent::DirectCall {
                caller_pc: c.pc,
                target,
                return_pc: c.pc.wrapping_add(len),
            },
            answers.action,
            answers.hook,
        ),
        Op::CallRegister { register } => c.offers::<H>(register, len, answers),
        Op::SecureGateway => crate::thumb::control::attributed::<H>(c.pc, answers.attribute),
        Op::CompareBranch { register, .. } => c.value(register as int) is None
            ==> crate::thumb::control::opted::<H>(answers.options),
        _ => true,
    }
}

/// The answers to an operation are those that the handler gave: about the
/// memory that the code is fetched from, and then about the operation.
pub open spec fn asked<H: ArmHandler<bool> + ?Sized>(
    c: Cpu,
    op: Op,
    len: u32,
    answers: Answers,
) -> bool {
    if c.security == SecurityState::NonSecure && op != Op::SecureGateway {
        &&& crate::thumb::control::attributed::<H>(c.pc, answers.attribute)
        &&& answers.attribute == SecurityAttribute::NonSecure ==> consulted::<H>(
            c,
            op,
            len,
            answers,
        )
    } else {
        consulted::<H>(c, op, len, answers)
    }
}

/// An operation failed with this error: that of the host call or the hook that
/// it makes, once the host call was permitted, or else one of the context.
pub open spec fn failing<H: ArmHandler<bool> + ?Sized>(
    c: Cpu,
    op: Op,
    len: u32,
    error: H::Error,
) -> bool {
    &&& c.security == SecurityState::NonSecure && op != Op::SecureGateway
        ==> crate::thumb::control::attributed::<H>(c.pc, SecurityAttribute::NonSecure)
    &&& match op {
        Op::Svc(number) => number == 0 && crate::thumb::control::permitted::<H>(c.security, true)
            && crate::thumb::control::failed::<H>(c, error),
        Op::Call { target } => crate::thumb::control::hook_failed::<H>(
            c,
            ArmCallEvent::DirectCall {
                caller_pc: c.pc,
                target,
                return_pc: c.pc.wrapping_add(len),
            },
            error,
        ),
        Op::CallRegister { register } => c.offer_failed::<H>(register, len, error),
        _ => crate::context::erred::<H>(error),
    }
}

/// A decoded instruction is executed, neither refused nor skipped nor blended.
pub open spec fn due(c: Cpu, d: Decoded) -> bool {
    c.itstate == 0 || (!(d.operation is It) && crate::thumb::flags::condition_known(
        c,
        (c.itstate >> 4) & 15,
    ) == Some(Some(true)))
}

/// The answers to a step are those that the handler gave in its state.
pub open spec fn honest<H: ArmHandler<bool> + ?Sized>(
    c: Cpu,
    frame: Frame<'_>,
    answers: Answers,
) -> bool {
    match crate::thumb::early_exit::instruction_at(frame.mem, c.pc) {
        Ok(d) => due(c, d) ==> asked::<H>(c, d.operation, d.len, answers),
        Err(_) => true,
    }
}

/// A step fails with this error.
pub open spec fn broke<H: ArmHandler<bool> + ?Sized>(
    c: Cpu,
    frame: Frame<'_>,
    error: H::Error,
) -> bool {
    match crate::thumb::early_exit::instruction_at(frame.mem, c.pc) {
        Ok(d) => if due(c, d) {
            failing::<H>(c, d.operation, d.len, error)
        } else {
            crate::context::erred::<H>(error)
        },
        Err(_) => false,
    }
}

/// After steps with the handler's own answers, the next one fails with this
/// error.
pub open spec fn halted<H: ArmHandler<bool> + ?Sized>(
    c: Cpu,
    cells: Seq<bool>,
    frame: Frame<'_>,
    answers: Seq<Answers>,
    error: H::Error,
) -> bool {
    &&& sincere::<H>(c, cells, frame, answers)
    &&& match runs(c, cells, frame, answers) {
        Step::Next { cpu, cells: _, pc: _ } => broke::<H>(cpu, frame, error),
        _ => false,
    }
}

/// How a run ended is where the steps from its start lead, each of them with
/// the handler's own answers. One that has not exited after `u64::MAX` steps is
/// given up.
pub open spec fn ended<H: ArmHandler<bool> + ?Sized, T>(
    r: Result<T, ErtError<H::Error>>,
    c: Cpu,
    cells: Seq<bool>,
    frame: Frame<'_>,
    answers: Seq<Answers>,
) -> bool {
    let end = runs(c, cells, frame, answers);
    match r {
        Ok(_) => end is Exit && sincere::<H>(c, cells, frame, answers),
        Err(ErtError::Unexpected) => (end is Unexpected || (end is Next && answers.len()
            == u64::MAX)) && sincere::<H>(c, cells, frame, answers),
        Err(ErtError::Decode(e)) => end == Step::Decode(e) && sincere::<H>(
            c,
            cells,
            frame,
            answers,
        ),
        Err(ErtError::Emitted(error)) => halted::<H>(c, cells, frame, answers, error),
    }
}

/// Every answer of a run is one that the handler gave in the state of its step.
pub open spec fn sincere<H: ArmHandler<bool> + ?Sized>(
    c: Cpu,
    cells: Seq<bool>,
    frame: Frame<'_>,
    answers: Seq<Answers>,
) -> bool
    decreases answers.len(),
{
    answers.len() == 0 || (sincere::<H>(c, cells, frame, answers.drop_last()) && match runs(
        c,
        cells,
        frame,
        answers.drop_last(),
    ) {
        Step::Next { cpu, cells: _, pc: _ } => honest::<H>(cpu, frame, answers.last()),
        _ => true,
    })
}

/// A data step is a step.
proof fn data_steps<H: ArmHandler<bool> + ?Sized>(
    before: Machine<'_, <H as ContextWithValue<bool>>::Wrapped>,
    after: Machine<'_, <H as ContextWithValue<bool>>::Wrapped>,
    r: Result<Flow, ErtError<H::Error>>,
    len: u32,
    expected: Option<Cpu>,
    cells: Seq<bool>,
) where <H as ContextWithValue<bool>>::Wrapped: Clone
    requires
        crate::thumb::data::data_step::<H>(before, after, r, len, expected),
    ensures
        crate::thumb::machine::stepped::<H>(
            after,
            cells,
            r,
            data(expected, cells, before.pc.wrapping_add(len)),
        ),
{
}

impl<'m, W: Clone> Machine<'m, W> {
    /// Execute a register operation.
    pub fn compute<H>(
        &mut self,
        h: &mut H,
        operation: Op,
        len: u32,
    ) -> (r: Result<Flow, ErtError<H::Error>>) where
        H: ArmHandler<bool> + ContextWithValue<bool, Wrapped = W> + ?Sized,

        requires
            crate::thumb::control::handles::<H>(),
            crate::thumb::op::op_ok(operation),
            class(operation) == Class::Data,
            crate::thumb::machine::bounded(*old(self)),
        ensures
            r is Ok ==> (crate::thumb::logic::data_gates(*old(self), operation) matches Some(gates)
                ==> crate::context::asked::<H>(old(h), final(h), gates)),
            crate::thumb::machine::framed(*old(self), *final(self)),
            crate::thumb::machine::live::<H>(*old(self)) ==> crate::thumb::data::data_step::<H>(
                *old(self),
                *final(self),
                r,
                len,
                crate::thumb::machine::cpu::<H>(*old(self)).compute(operation),
            ),
            crate::context::reliable::<H>() ==> crate::thumb::flags::unemitted(r),
            r matches Err(ErtError::Emitted(error)) ==> crate::context::erred::<H>(error),
    {
        proof {
            crate::context::asked_nothing::<H>(h);
        }
        match operation {
            Op::Nop => Ok(self.next(len)),
            Op::Move { dest, source, set_flags } => self.mov(h, dest, source, set_flags, len),
            Op::MoveTop { dest, immediate } => self.move_top(h, dest, immediate, len),
            Op::MoveNot { dest, source, set_flags } => self.move_not(
                h,
                dest,
                source,
                set_flags,
                len,
            ),
            Op::Arithmetic { kind, dest, left, right, set_flags } => self.arithmetic(
                h,
                kind,
                dest,
                left,
                right,
                set_flags,
                len,
            ),
            Op::Bitwise { kind, dest, left, right, set_flags } => self.bitwise(
                h,
                kind,
                dest,
                left,
                right,
                set_flags,
                len,
            ),
            Op::BitClear { dest, left, right, set_flags } => self.bit_clear(
                h,
                dest,
                left,
                right,
                set_flags,
                len,
            ),
            Op::Compare { left, right, add } => self.compare(h, left, right, add, len),
            Op::Test { left, right } => self.test(h, left, right, len),
            Op::Shift { dest, source, direction, amount, set_flags } => self.shift(
                h,
                dest,
                source,
                direction,
                amount,
                set_flags,
                len,
            ),
            Op::Multiply { dest, left, right, add, subtract, set_flags } => self.multiply(
                h,
                dest,
                left,
                right,
                add,
                subtract,
                set_flags,
                len,
            ),
            Op::LongMultiply { dest_low, dest_high, left, right, signed } => self.long_multiply(
                h,
                dest_low,
                dest_high,
                left,
                right,
                signed,
                len,
            ),
            Op::ReadApsr { dest } => self.read_apsr(h, dest, len),
            Op::WriteApsr { source } => self.write_apsr(h, source, len),
            _ => Err(ErtError::Unexpected),
        }
    }

    /// Execute a load or store.
    pub fn access<H>(
        &mut self,
        h: &mut H,
        st: &mut H::Storage,
        operation: Op,
        len: u32,
    ) -> (r: Result<Flow, ErtError<H::Error>>) where
        H: ArmHandler<bool> + ContextWithValue<bool, Wrapped = W> + ?Sized,

        requires
            crate::thumb::control::handles::<H>(),
            crate::thumb::op::op_ok(operation),
            class(operation) == Class::Memory,
            crate::thumb::machine::bounded(*old(self)),
            crate::thumb::machine::ready::<H>(*old(self), old(st)),
        ensures
            crate::thumb::machine::framed(*old(self), *final(self)),
            crate::thumb::machine::ready::<H>(*final(self), final(st)),
            H::tracks() && crate::thumb::machine::live::<H>(*old(self))
                ==> crate::thumb::machine::stepped::<H>(
                *final(self),
                H::cells(final(st)),
                r,
                crate::thumb::machine::cpu::<H>(*old(self)).access(
                    H::cells(old(st)),
                    frame(*old(self)),
                    operation,
                    len,
                ),
            ),
            crate::context::reliable::<H>() ==> crate::thumb::flags::unemitted(r),
            r matches Err(ErtError::Emitted(error)) ==> crate::context::erred::<H>(error),
    {
        match operation {
            Op::Load { dest, base, offset, kind } => self.load(
                h,
                st,
                dest,
                base,
                offset,
                kind,
                len,
            ),
            Op::Store { source, base, offset, width } => self.store(
                h,
                st,
                source,
                base,
                offset,
                width,
                len,
            ),
            Op::StoreDouble { first, second, base, offset } => {
                self.store(h, st, first, base, offset, 32, len)?;
                self.store(h, st, second, base, offset.wrapping_add(4), 32, len)
            },
            Op::LoadIndexed { dest, base, index, shift, kind } => {
                proof {
                    if crate::thumb::machine::live::<H>(*self) {
                        self.known_value::<H>(index as int);
                    }
                }
                let offset: i32 = self.indexed_offset(index, shift)?;
                self.load(h, st, dest, base, offset, kind, len)
            },
            Op::StoreIndexed { source, base, index, shift, width } => {
                proof {
                    if crate::thumb::machine::live::<H>(*self) {
                        self.known_value::<H>(index as int);
                    }
                }
                let offset: i32 = self.indexed_offset(index, shift)?;
                self.store(h, st, source, base, offset, width, len)
            },
            Op::Push { list } => self.push(h, st, list, len),
            Op::Pop { list } => self.pop(h, st, list, len),
            Op::LoadMultiple { base, list, write_back } => self.load_multiple(
                h,
                st,
                base,
                list,
                write_back,
                len,
            ),
            Op::StoreMultiple { base, list, write_back } => self.store_multiple(
                h,
                st,
                base,
                list,
                write_back,
                len,
            ),
            _ => Err(ErtError::Unexpected),
        }
    }

    /// Execute a control transfer.
    pub fn transfer<H>(
        &mut self,
        h: &mut H,
        operation: Op,
        len: u32,
        Ghost(cells): Ghost<Seq<bool>>,
        answers: &mut Ghost<Answers>,
    ) -> (r: Result<Flow, ErtError<H::Error>>) where
        H: ArmHandler<bool> + ContextWithValue<bool, Wrapped = W> + ?Sized,

        requires
            crate::thumb::control::handles::<H>(),
            crate::thumb::op::op_ok(operation),
            class(operation) == Class::Control,
            crate::thumb::machine::bounded(*old(self)),
        ensures
            crate::thumb::machine::live::<H>(*old(self)) && crate::thumb::flags::unemitted(r)
                ==> consulted::<H>(
                crate::thumb::machine::cpu::<H>(*old(self)),
                operation,
                len,
                final(answers)@,
            ),
            operation == Op::Svc(0) ==> {
                &&& crate::thumb::control::permitted::<H>(
                    old(self).security_state,
                    final(answers)@.permit,
                )
                &&& !final(answers)@.permit ==> r matches Err(ErtError::Unexpected)
            },
            crate::thumb::machine::live::<H>(*old(self)) && (old(self).security_state
                == SecurityState::NonSecure && operation != Op::SecureGateway
                ==> crate::thumb::control::attributed::<H>(
                old(self).pc,
                SecurityAttribute::NonSecure,
            )) ==> (r matches Err(ErtError::Emitted(error)) ==> failing::<H>(
                crate::thumb::machine::cpu::<H>(*old(self)),
                operation,
                len,
                error,
            )),
            crate::thumb::control::unfailing::<H>() ==> crate::thumb::flags::unemitted(r),
            r matches Err(ErtError::Emitted(error)) ==> crate::thumb::control::stems::<H>(error),
            crate::thumb::machine::framed(*old(self), *final(self)),
            crate::thumb::machine::live::<H>(*old(self)) ==> crate::thumb::machine::stepped::<H>(
                *final(self),
                cells,
                r,
                crate::thumb::machine::cpu::<H>(*old(self)).transfer(
                    cells,
                    frame(*old(self)),
                    operation,
                    len,
                    final(answers)@,
                ),
            ),
            operation != Op::SecureGateway ==> final(answers)@.attribute == old(answers)@.attribute,
    {
        match operation {
            Op::It { condition, mask } => {
                if condition >= 14 || mask == 0 {
                    return Err(
                        ErtError::Decode(
                            DecodeError::Malformed(((condition as u32) << 4) | (mask as u32)),
                        ),
                    );
                }
                self.itstate = (condition << 4) | mask;
                Ok(self.next(len))
            },
            Op::Branch { target, condition } => self.branch::<H>(
                target,
                condition,
                len,
                Ghost(cells),
            ),
            Op::CompareBranch { register, nonzero, target } => self.compare_branch(
                h,
                register,
                nonzero,
                target,
                len,
                Ghost(cells),
                answers,
            ),
            Op::Call { target } => self.call(h, target, len, Ghost(cells), answers),
            Op::CallRegister { register } => self.call_register(
                h,
                register,
                len,
                Ghost(cells),
                answers,
            ),
            Op::BranchRegister { register } => self.branch_register::<H>(register, Ghost(cells)),
            Op::SecureGateway => self.secure_gateway(h, len, Ghost(cells), answers),
            Op::BranchExchangeNonSecure { register, link } => self.branch_exchange_non_secure::<H>(
                register,
                link,
                len,
                Ghost(cells),
            ),
            Op::Svc(number) => {
                if number != 0 {
                    return Err(ErtError::Unexpected);
                }
                self.svc(h, len, Ghost(cells), answers)
            },
            _ => Err(ErtError::Unexpected),
        }
    }

    /// Perform an operation.
    pub fn perform<H>(
        &mut self,
        h: &mut H,
        st: &mut H::Storage,
        operation: Op,
        len: u32,
        answers: &mut Ghost<Answers>,
    ) -> (r: Result<Flow, ErtError<H::Error>>) where
        H: ArmHandler<bool> + ContextWithValue<bool, Wrapped = W> + ?Sized,

        requires
            crate::thumb::control::handles::<H>(),
            crate::thumb::op::op_ok(operation),
            crate::thumb::machine::bounded(*old(self)),
            crate::thumb::machine::ready::<H>(*old(self), old(st)),
        ensures
            r is Ok ==> (crate::thumb::logic::data_gates(*old(self), operation) matches Some(gates)
                ==> crate::context::asked::<H>(old(h), final(h), gates)),
            crate::thumb::machine::live::<H>(*old(self)) && crate::thumb::flags::unemitted(r)
                ==> consulted::<H>(
                crate::thumb::machine::cpu::<H>(*old(self)),
                operation,
                len,
                final(answers)@,
            ),
            operation == Op::Svc(0) ==> {
                &&& crate::thumb::control::permitted::<H>(
                    old(self).security_state,
                    final(answers)@.permit,
                )
                &&& !final(answers)@.permit ==> r matches Err(ErtError::Unexpected)
            },
            crate::thumb::machine::live::<H>(*old(self)) && (old(self).security_state
                == SecurityState::NonSecure && operation != Op::SecureGateway
                ==> crate::thumb::control::attributed::<H>(
                old(self).pc,
                SecurityAttribute::NonSecure,
            )) ==> (r matches Err(ErtError::Emitted(error)) ==> failing::<H>(
                crate::thumb::machine::cpu::<H>(*old(self)),
                operation,
                len,
                error,
            )),
            crate::thumb::control::unfailing::<H>() ==> crate::thumb::flags::unemitted(r),
            r matches Err(ErtError::Emitted(error)) ==> crate::thumb::control::stems::<H>(error),
            crate::thumb::machine::framed(*old(self), *final(self)),
            crate::thumb::machine::ready::<H>(*final(self), final(st)),
            H::tracks() && crate::thumb::machine::live::<H>(*old(self))
                ==> crate::thumb::machine::stepped::<H>(
                *final(self),
                H::cells(final(st)),
                r,
                crate::thumb::machine::cpu::<H>(*old(self)).perform(
                    H::cells(old(st)),
                    frame(*old(self)),
                    operation,
                    len,
                    final(answers)@,
                ),
            ),
            operation != Op::SecureGateway ==> final(answers)@.attribute == old(answers)@.attribute,
    {
        let ghost cells = H::cells(st);
        match classify(operation) {
            Class::Data => {
                let r = self.compute(h, operation, len);
                proof {
                    if crate::thumb::machine::live::<H>(*old(self)) {
                        data_steps::<H>(
                            *old(self),
                            *self,
                            r,
                            len,
                            crate::thumb::machine::cpu::<H>(*old(self)).compute(operation),
                            cells,
                        );
                    }
                }
                r
            },
            Class::Memory => self.access(h, st, operation, len),
            Class::Control => self.transfer(h, operation, len, Ghost(cells), answers),
        }
    }

    /// Execute an operation, where code may be fetched.
    pub fn execute<H>(
        &mut self,
        h: &mut H,
        st: &mut H::Storage,
        operation: Op,
        len: u32,
        answers: &mut Ghost<Answers>,
    ) -> (r: Result<Flow, ErtError<H::Error>>) where
        H: ArmHandler<bool> + ContextWithValue<bool, Wrapped = W> + ?Sized,

        requires
            crate::thumb::control::handles::<H>(),
            crate::thumb::op::op_ok(operation),
            crate::thumb::machine::bounded(*old(self)),
            crate::thumb::machine::ready::<H>(*old(self), old(st)),
        ensures
            old(self).security_state == SecurityState::Secure && r is Ok ==> (
            crate::thumb::logic::data_gates(*old(self), operation) matches Some(gates)
                ==> crate::context::asked::<H>(old(h), final(h), gates)),
            crate::thumb::machine::live::<H>(*old(self)) && crate::thumb::flags::unemitted(r)
                ==> asked::<H>(
                crate::thumb::machine::cpu::<H>(*old(self)),
                operation,
                len,
                final(answers)@,
            ),
            operation == Op::Svc(0) && old(self).security_state == SecurityState::Secure ==> {
                &&& crate::thumb::control::permitted::<H>(
                    SecurityState::Secure,
                    final(answers)@.permit,
                )
                &&& !final(answers)@.permit ==> r matches Err(ErtError::Unexpected)
            },
            crate::thumb::machine::live::<H>(*old(self)) ==> (r matches Err(ErtError::Emitted(error))
                ==> failing::<H>(
                crate::thumb::machine::cpu::<H>(*old(self)),
                operation,
                len,
                error,
            )),
            crate::thumb::control::unfailing::<H>() ==> crate::thumb::flags::unemitted(r),
            r matches Err(ErtError::Emitted(error)) ==> crate::thumb::control::stems::<H>(error),
            crate::thumb::machine::framed(*old(self), *final(self)),
            crate::thumb::machine::ready::<H>(*final(self), final(st)),
            H::tracks() && crate::thumb::machine::live::<H>(*old(self))
                ==> crate::thumb::machine::stepped::<H>(
                *final(self),
                H::cells(final(st)),
                r,
                crate::thumb::machine::cpu::<H>(*old(self)).execute(
                    H::cells(old(st)),
                    frame(*old(self)),
                    operation,
                    len,
                    final(answers)@,
                ),
            ),
    {
        if self.security_state == SecurityState::NonSecure && operation != Op::SecureGateway {
            let attribute = h.security_attribute(self.pc);
            proof {
                *answers.borrow_mut() = Answers { attribute, ..answers@ };
            }
            if attribute != SecurityAttribute::NonSecure {
                return Err(ErtError::Unexpected);
            }
        }
        self.perform(h, st, operation, len, answers)
    }

    /// The value that a predicated move would write, with its destination.
    fn candidate<H>(&self, h: &mut H, operation: Op) -> (r: Result<
        (u8, [W; 32], Option<u32>, bool),
        ErtError<H::Error>,
    >) where H: ArmHandler<bool> + ContextWithValue<bool, Wrapped = W> + ?Sized
        requires
            crate::thumb::op::op_ok(operation),
        ensures
            crate::thumb::machine::live::<H>(*self) ==> match r {
                Ok((dest, word, value, set_flags)) => {
                    &&& crate::thumb::machine::cpu::<H>(*self).candidate(operation) matches Some(
                        (d, fact, s),
                    )
                    &&& d == dest
                    &&& s == set_flags
                    &&& crate::thumb::data::reads::<H>(word, value, fact)
                },
                Err(ErtError::Unexpected) => crate::thumb::machine::cpu::<H>(*self).candidate(
                    operation,
                ) is None,
                Err(ErtError::Decode(_)) => false,
                Err(ErtError::Emitted(_)) => true,
            },
            r matches Ok((dest, _, _, _)) ==> dest < 13,
            crate::context::reliable::<H>() ==> crate::thumb::flags::unemitted(r),
            r matches Err(ErtError::Emitted(error)) ==> crate::context::erred::<H>(error),
    {
        match operation {
            Op::Move { dest, source, set_flags } => {
                if dest >= SP {
                    return Err(ErtError::Unexpected);
                }
                let (word, value) = self.operand(h, source)?;
                Ok((dest, word, value, set_flags))
            },
            Op::MoveNot { dest, source, set_flags } => {
                if dest >= SP {
                    return Err(ErtError::Unexpected);
                }
                let (word, value) = self.operand(h, source)?;
                let inverted = emitted(invert_word(h, &word, keep::<H>(&self.one)))?;
                let value = match value {
                    Some(value) => {
                        proof {
                            crate::concrete::word_complement(value);
                        }
                        Some(!value)
                    },
                    None => None,
                };
                Ok((dest, inverted, value, set_flags))
            },
            _ => Err(ErtError::Unexpected),
        }
    }

    /// Execute an operation under a condition that the host does not know.
    ///
    /// A symbolic condition may only materialize a value. Multi-instruction
    /// IT blocks and every non-register effect would otherwise require
    /// symbolic control flow.
    pub fn execute_symbolic_it<H>(
        &mut self,
        h: &mut H,
        operation: Op,
        len: u32,
        Ghost(cells): Ghost<Seq<bool>>,
    ) -> (r: Result<Flow, ErtError<H::Error>>) where
        H: ArmHandler<bool> + ContextWithValue<bool, Wrapped = W> + ?Sized,

        requires
            crate::thumb::op::op_ok(operation),
            crate::thumb::machine::bounded(*old(self)),
            (old(self).itstate >> 4) & 15 < 15,
        ensures
            crate::thumb::machine::framed(*old(self), *final(self)),
            crate::thumb::machine::live::<H>(*old(self)) ==> crate::thumb::machine::stepped::<H>(
                *final(self),
                cells,
                r,
                crate::thumb::machine::cpu::<H>(*old(self)).execute_symbolic_it(
                    cells,
                    operation,
                    len,
                ),
            ),
            crate::context::reliable::<H>() ==> crate::thumb::flags::unemitted(r),
            r matches Err(ErtError::Emitted(error)) ==> crate::context::erred::<H>(error),
    {
        let ghost start = crate::thumb::machine::cpu::<H>(*self);
        if self.itstate & 7 != 0 {
            return Err(ErtError::Unexpected);
        }
        let code: u8 = (self.itstate >> 4) & 15;
        let condition = self.condition_wire(h, code)?;
        let (dest, word, value, set_flags) = self.candidate(h, operation)?;
        let selected = emitted(
            select_word(h, keep::<H>(&condition), &word, &self.regs[dest as usize]),
        )?;
        self.write::<H>(dest, selected, None);
        if set_flags {
            let ghost written = crate::thumb::machine::cpu::<H>(*self);
            proof {
                assert(crate::context::bits::<H>(word@)[31] == crate::context::bit::<H>(word@[31]));
            }
            // Only N and Z are written. C, V, and Q retain their state on
            // both paths.
            let old_negative = self.materialize_flag(h, FLAG_N)?;
            let negative = emitted(choose_wire(h, &condition, &word[31], &old_negative))?;
            self.set_flag::<H>(FLAG_N, Flag { wire: FlagWire::Direct(negative), value: None });
            let old_zero = self.materialize_flag(h, FLAG_Z)?;
            let new_zero = match value {
                Some(value) => {
                    proof {
                        crate::concrete::word_num(value);
                    }
                    if value == 0 {
                        keep::<H>(&self.one)
                    } else {
                        keep::<H>(&self.zero)
                    }
                },
                None => emitted(zero_word(h, &word, &self.one))?,
            };
            let zero = emitted(choose_wire(h, &condition, &new_zero, &old_zero))?;
            self.set_flag::<H>(FLAG_Z, Flag { wire: FlagWire::Direct(zero), value: None });
        }
        Ok(self.next(len))
    }

    /// Move the predication state past an instruction.
    pub fn advance_it<H>(&mut self) where H: ContextWithValue<bool, Wrapped = W> + ?Sized
        requires
            crate::thumb::machine::bounded(*old(self)),
        ensures
            crate::thumb::machine::framed(*old(self), *final(self)),
            crate::thumb::machine::cpu::<H>(*final(self)) == crate::thumb::machine::cpu::<H>(
                *old(self),
            ).advance_it(),
            crate::thumb::machine::agreeing::<H>(*old(self)) ==> crate::thumb::machine::agreeing::<H>(
                *final(self),
            ),
    {
        if self.itstate & 7 == 0 {
            self.itstate = 0;
        } else {
            self.itstate = (self.itstate & 0xe0) | ((self.itstate << 1) & 0x1f);
        }
    }

    /// Execute a decoded instruction, under predication where there is any.
    pub fn execute_decoded<H>(
        &mut self,
        h: &mut H,
        st: &mut H::Storage,
        decoded: Decoded,
        answers: &mut Ghost<Answers>,
    ) -> (r: Result<Flow, ErtError<H::Error>>) where
        H: ArmHandler<bool> + ContextWithValue<bool, Wrapped = W> + ?Sized,

        requires
            crate::thumb::control::handles::<H>(),
            crate::thumb::op::op_ok(decoded.operation),
            crate::thumb::machine::bounded(*old(self)),
            crate::thumb::machine::ready::<H>(*old(self), old(st)),
        ensures
            crate::thumb::machine::live::<H>(*old(self)) && crate::thumb::flags::unemitted(r) && due(
                crate::thumb::machine::cpu::<H>(*old(self)),
                decoded,
            ) ==> asked::<H>(
                crate::thumb::machine::cpu::<H>(*old(self)),
                decoded.operation,
                decoded.len,
                final(answers)@,
            ),
            crate::thumb::machine::live::<H>(*old(self)) ==> (r matches Err(ErtError::Emitted(error))
                ==> if due(crate::thumb::machine::cpu::<H>(*old(self)), decoded) {
                failing::<H>(
                    crate::thumb::machine::cpu::<H>(*old(self)),
                    decoded.operation,
                    decoded.len,
                    error,
                )
            } else {
                crate::context::erred::<H>(error)
            }),
            crate::thumb::control::unfailing::<H>() ==> crate::thumb::flags::unemitted(r),
            r matches Err(ErtError::Emitted(error)) ==> crate::thumb::control::stems::<H>(error),
            crate::thumb::machine::framed(*old(self), *final(self)),
            crate::thumb::machine::ready::<H>(*final(self), final(st)),
            H::tracks() && crate::thumb::machine::live::<H>(*old(self))
                ==> crate::thumb::machine::stepped::<H>(
                *final(self),
                H::cells(final(st)),
                r,
                crate::thumb::machine::cpu::<H>(*old(self)).execute_decoded(
                    H::cells(old(st)),
                    frame(*old(self)),
                    decoded,
                    final(answers)@,
                ),
            ),
    {
        let ghost cells = H::cells(st);
        let ghost start = crate::thumb::machine::cpu::<H>(*self);
        let is_it = match decoded.operation {
            Op::It { .. } => true,
            _ => false,
        };
        if is_it && self.itstate != 0 {
            return Err(ErtError::Unexpected);
        }
        proof {
            if crate::thumb::machine::live::<H>(*self) {
                self.known_flags::<H>();
            }
        }
        let flow = if self.itstate == 0 {
            self.execute(h, st, decoded.operation, decoded.len, answers)?
        } else {
            let code: u8 = (self.itstate >> 4) & 15;
            match self.condition_value(code)? {
                Some(true) => self.execute(h, st, decoded.operation, decoded.len, answers)?,
                Some(false) => self.next(decoded.len),
                None => self.execute_symbolic_it(
                    h,
                    decoded.operation,
                    decoded.len,
                    Ghost(cells),
                )?,
            }
        };
        if !is_it && self.itstate != 0 {
            self.advance_it::<H>();
        }
        Ok(flow)
    }

    /// Fetch and decode the instruction at the program counter.
    pub fn decode<E>(&self) -> (r: Result<Decoded, ErtError<E>>)
        ensures
            r == match crate::thumb::early_exit::instruction_at(self.mem, self.pc) {
                Ok(d) => Ok::<Decoded, ErtError<E>>(d),
                Err(FetchError::Unmapped) => Err(ErtError::Unexpected),
                Err(FetchError::Decode(e)) => Err(ErtError::Decode(e)),
            },
            r matches Ok(d) ==> crate::thumb::op::op_ok(d.operation) && (d.len == 2 || d.len == 4),
    {
        match fetch(&self.mem, self.pc) {
            Ok(d) => Ok(d),
            Err(FetchError::Unmapped) => Err(ErtError::Unexpected),
            Err(FetchError::Decode(e)) => Err(ErtError::Decode(e)),
        }
    }

    /// Execute the instruction at the program counter.
    pub fn step<H>(&mut self, h: &mut H, st: &mut H::Storage, answers: &mut Ghost<Answers>) -> (r:
        Result<Flow, ErtError<H::Error>>) where
        H: ArmHandler<bool> + ContextWithValue<bool, Wrapped = W> + ?Sized,

        requires
            crate::thumb::control::handles::<H>(),
            crate::thumb::machine::bounded(*old(self)),
            crate::thumb::machine::ready::<H>(*old(self), old(st)),
        ensures
            crate::thumb::machine::live::<H>(*old(self)) && crate::thumb::flags::unemitted(r)
                ==> honest::<H>(
                crate::thumb::machine::cpu::<H>(*old(self)),
                frame(*old(self)),
                final(answers)@,
            ),
            crate::thumb::machine::live::<H>(*old(self)) ==> (r matches Err(ErtError::Emitted(error))
                ==> broke::<H>(crate::thumb::machine::cpu::<H>(*old(self)), frame(*old(self)), error)),
            crate::thumb::control::unfailing::<H>() ==> crate::thumb::flags::unemitted(r),
            r matches Err(ErtError::Emitted(error)) ==> crate::thumb::control::stems::<H>(error),
            crate::thumb::machine::framed(*old(self), *final(self)),
            crate::thumb::machine::ready::<H>(*final(self), final(st)),
            H::tracks() && crate::thumb::machine::live::<H>(*old(self))
                ==> crate::thumb::machine::stepped::<H>(
                *final(self),
                H::cells(final(st)),
                r,
                crate::thumb::machine::cpu::<H>(*old(self)).step(
                    H::cells(old(st)),
                    frame(*old(self)),
                    final(answers)@,
                ),
            ),
    {
        let decoded = self.decode()?;
        let flow = self.execute_decoded(h, st, decoded, answers)?;
        if let Flow::Next(next) = flow {
            self.pc = next;
        }
        Ok(flow)
    }

    /// Execute instructions until the program exits. A program that has not
    /// exited after `u64::MAX` instructions is given up as unexpected.
    pub fn run<H>(&mut self, h: &mut H, st: &mut H::Storage) -> (r: Result<
        (),
        ErtError<H::Error>,
    >) where H: ArmHandler<bool> + ContextWithValue<bool, Wrapped = W> + ?Sized
        requires
            crate::thumb::control::handles::<H>(),
            crate::thumb::machine::bounded(*old(self)),
            crate::thumb::machine::ready::<H>(*old(self), old(st)),
        ensures
            crate::thumb::control::unfailing::<H>() ==> crate::thumb::flags::unemitted(r),
            r matches Err(ErtError::Emitted(error)) ==> crate::thumb::control::stems::<H>(error),
            crate::thumb::machine::framed(*old(self), *final(self)),
            crate::thumb::machine::ready::<H>(*final(self), final(st)),
            H::tracks() && crate::thumb::machine::live::<H>(*old(self)) ==> exists|
                answers: Seq<Answers>,
            | #[trigger]
                ran::<H>(
                    *final(self),
                    H::cells(final(st)),
                    r,
                    crate::thumb::machine::cpu::<H>(*old(self)),
                    H::cells(old(st)),
                    frame(*old(self)),
                    answers,
                ),
    {
        let ghost start = crate::thumb::machine::cpu::<H>(*self);
        let ghost mut past: Seq<Answers> = Seq::empty();
        let mut left: u64 = u64::MAX;
        while left > 0
            invariant
                crate::thumb::control::handles::<H>(),
                past.len() + left == u64::MAX,
                start == crate::thumb::machine::cpu::<H>(*old(self)),
                crate::thumb::machine::framed(*old(self), *self),
                crate::thumb::machine::ready::<H>(*self, st),
                H::tracks() && crate::thumb::machine::live::<H>(*old(self)) ==> {
                    &&& crate::thumb::machine::live::<H>(*self)
                    &&& sincere::<H>(start, H::cells(old(st)), frame(*old(self)), past)
                    &&& runs(start, H::cells(old(st)), frame(*old(self)), past) == (Step::Next {
                        cpu: crate::thumb::machine::cpu::<H>(*self),
                        cells: H::cells(st),
                        pc: self.pc,
                    })
                },
            decreases left,
        {
            let mut answers: Ghost<Answers> = Ghost(arbitrary());
            let stepped = self.step(h, st, &mut answers);
            let ghost held = past;
            proof {
                let more = past.push(answers@);
                assert(more.drop_last() =~= past);
                past = more;
            }
            left = left - 1;
            match stepped {
                Ok(Flow::Next(_)) => {},
                Ok(Flow::Exit) => {
                    proof {
                        if H::tracks() && crate::thumb::machine::live::<H>(*old(self)) {
                            assert(ran::<H>(
                                *self,
                                H::cells(st),
                                Ok(()),
                                start,
                                H::cells(old(st)),
                                frame(*old(self)),
                                past,
                            ));
                        }
                    }
                    return Ok(());
                },
                Err(e) => {
                    proof {
                        if H::tracks() && crate::thumb::machine::live::<H>(*old(self)) {
                            assert(ran::<H>(
                                *self,
                                H::cells(st),
                                Err(e),
                                start,
                                H::cells(old(st)),
                                frame(*old(self)),
                                if e is Emitted {
                                    held
                                } else {
                                    past
                                },
                            ));
                        }
                    }
                    return Err(e);
                },
            }
        }
        proof {
            if H::tracks() && crate::thumb::machine::live::<H>(*old(self)) {
                assert(ran::<H>(
                    *self,
                    H::cells(st),
                    Err(ErtError::Unexpected),
                    start,
                    H::cells(old(st)),
                    frame(*old(self)),
                    past,
                ));
            }
        }
        Err(ErtError::Unexpected)
    }
}

/// A run from a state: one step per answer, until one of them is the last.
pub open spec fn runs(c: Cpu, cells: Seq<bool>, frame: Frame<'_>, answers: Seq<Answers>) -> Step
    decreases answers.len(),
{
    if answers.len() == 0 {
        Step::Next { cpu: c, cells, pc: c.pc }
    } else {
        match runs(c, cells, frame, answers.drop_last()) {
            Step::Next { cpu, cells, pc: _ } => cpu.step(cells, frame, answers.last()),
            other => other,
        }
    }
}

/// What a run left is what the steps from its start lead to, each of them with
/// the handler's own answers.
pub open spec fn ran<H: ArmHandler<bool> + ?Sized>(
    after: Machine<'_, <H as ContextWithValue<bool>>::Wrapped>,
    cells_after: Seq<bool>,
    r: Result<(), ErtError<H::Error>>,
    c: Cpu,
    cells: Seq<bool>,
    frame: Frame<'_>,
    answers: Seq<Answers>,
) -> bool where <H as ContextWithValue<bool>>::Wrapped: Clone {
    &&& ended::<H, ()>(r, c, cells, frame, answers)
    &&& r is Ok ==> crate::thumb::machine::live::<H>(after) && runs(c, cells, frame, answers) == (
    Step::Exit { cpu: crate::thumb::machine::cpu::<H>(after), cells: cells_after })
}

} // verus!
