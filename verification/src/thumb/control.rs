//! Control flow: branches, calls, the secure world, and host calls.
use crate::compare::nonzero_word;
use crate::context::{keep, ContextWithValue};
use crate::handler::{EarlyExitLoopOptions, EcallOutcome, File};
use crate::thumb::early_exit::{recognize, RecognizedSite, Site};
use crate::thumb::handler::{
    ArmCallAction, ArmCallEvent, ArmHandler, HookFile, SecurityAttribute, SecurityState,
};
use crate::thumb::machine::{emitted, Cpu, ErtError, Flow, Machine, Step};
use crate::thumb::op::LR;
use crate::word::select_word;
use vstd::prelude::*;

verus! {

/// The register file that a host call left.
pub struct Reply {
    pub regs: Seq<Seq<bool>>,
    pub known: Seq<bool>,
    pub offsets: Seq<Option<i32>>,
}

/// What a handler answers while one instruction executes. Only the answers to
/// questions that the instruction asks matter.
pub struct Answers {
    /// The attribution of the instruction's own address.
    pub attribute: SecurityAttribute,
    /// Whether the host call may proceed.
    pub permit: bool,
    /// The effect of the host call, and the registers after it.
    pub outcome: EcallOutcome,
    pub ecall: Reply,
    /// The decision of the call hook, and the registers after it.
    pub action: ArmCallAction,
    pub hook: Reply,
    /// The loop recognizer's options.
    pub options: EarlyExitLoopOptions,
}

impl Cpu {
    /// The register file after a host call.
    pub open spec fn replied(self, reply: Reply) -> Cpu {
        Cpu { regs: reply.regs, known: reply.known, offsets: reply.offsets, ..self }
    }

    /// The value of a register that the host knows.
    pub open spec fn value(self, register: int) -> Option<u32> {
        if self.known[register] {
            Some(crate::bits::num(self.regs[register]) as u32)
        } else {
            None
        }
    }

    /// A frame pushed on the control stack, with its address in the link
    /// register.
    pub open spec fn link(self, return_pc: u32) -> Option<Cpu> {
        if self.rsp >= self.rstack.len() {
            None
        } else {
            Some(
                (Cpu {
                    rstack: self.rstack.update(self.rsp, return_pc),
                    rsp: self.rsp + 1,
                    ..self
                }).write_constant(14, return_pc | 1),
            )
        }
    }

    /// A call entered.
    pub open spec fn enter(self, cells: Seq<bool>, target: u32, return_pc: u32) -> Step {
        match self.link(return_pc) {
            Some(cpu) => Step::Next { cpu, cells, pc: target },
            None => Step::Unexpected,
        }
    }

    /// A call, once the hook has decided. Without a known target only the
    /// hook can say where it goes.
    pub open spec fn call(
        self,
        cells: Seq<bool>,
        target: Option<u32>,
        return_pc: u32,
        action: ArmCallAction,
        reply: Reply,
    ) -> Step {
        let after = self.replied(reply);
        match action {
            ArmCallAction::ReturnNow => Step::Next { cpu: after, cells, pc: return_pc },
            ArmCallAction::Divert(to) => if to % 2 == 1 {
                Step::Unexpected
            } else {
                after.enter(cells, to, return_pc)
            },
            ArmCallAction::Continue => match target {
                Some(target) => after.enter(cells, target, return_pc),
                None => Step::Unexpected,
            },
        }
    }

    /// A call through a register. An even target would leave Thumb state.
    pub open spec fn call_register(
        self,
        cells: Seq<bool>,
        register: int,
        return_pc: u32,
        action: ArmCallAction,
        reply: Reply,
    ) -> Step {
        match self.value(register) {
            Some(target) => if target % 2 == 0 {
                Step::Unexpected
            } else {
                self.call(cells, Some((target - 1) as u32), return_pc, action, reply)
            },
            None => self.call(cells, None, return_pc, action, reply),
        }
    }

    /// A branch through a register: the link register returns, any other must
    /// hold a known Thumb address.
    pub open spec fn branch_register(self, cells: Seq<bool>, register: int) -> Step {
        if register == 14 {
            match self.return_from_call() {
                Some((cpu, pc)) => Step::Next { cpu, cells, pc },
                None => Step::Unexpected,
            }
        } else {
            match self.value(register) {
                Some(target) => if target % 2 == 0 {
                    Step::Unexpected
                } else {
                    Step::Next { cpu: self, cells, pc: (target - 1) as u32 }
                },
                None => Step::Unexpected,
            }
        }
    }

    /// The secure gateway: a Non-secure caller that lands on it in Secure
    /// memory becomes Secure, and its link register is marked.
    pub open spec fn secure_gateway(self, attribute: SecurityAttribute) -> Cpu {
        if attribute != SecurityAttribute::NonSecure && self.security == SecurityState::NonSecure {
            let secure = Cpu { security: SecurityState::Secure, ..self };
            match self.value(14) {
                Some(lr) => secure.write_constant(14, (lr - lr % 2) as u32),
                None => secure,
            }
        } else {
            self
        }
    }

    /// A branch or call to the Non-secure world.
    pub open spec fn branch_exchange_non_secure(
        self,
        cells: Seq<bool>,
        register: int,
        link: bool,
        return_pc: u32,
    ) -> Step {
        if self.security == SecurityState::NonSecure {
            Step::Unexpected
        } else {
            match self.value(register) {
                None => Step::Unexpected,
                Some(target) => {
                    let crossed = if target % 2 == 0 {
                        Cpu { security: SecurityState::NonSecure, ..self }
                    } else {
                        self
                    };
                    let pc = (target - target % 2) as u32;
                    if link {
                        crossed.enter(cells, pc, return_pc)
                    } else {
                        Step::Next { cpu: crossed, cells, pc }
                    }
                },
            }
        }
    }

    /// A host call.
    pub open spec fn svc(
        self,
        cells: Seq<bool>,
        stack_top: u32,
        next: u32,
        permit: bool,
        outcome: EcallOutcome,
        reply: Reply,
    ) -> Step {
        let after = self.replied(reply);
        if !permit {
            Step::Unexpected
        } else {
            match outcome {
                EcallOutcome::Continue => Step::Next { cpu: after, cells, pc: next },
                EcallOutcome::Exit => if self.sp == stack_top {
                    Step::Exit { cpu: after, cells }
                } else {
                    Step::Unexpected
                },
                EcallOutcome::Unexpected => Step::Unexpected,
            }
        }
    }

    /// A direct branch. Its condition must be known.
    pub open spec fn branch(
        self,
        cells: Seq<bool>,
        target: u32,
        condition: Option<u8>,
        next: u32,
    ) -> Step {
        match condition {
            None => Step::Next { cpu: self, cells, pc: target },
            Some(condition) => match crate::thumb::flags::condition_known(self, condition) {
                Some(Some(taken)) => Step::Next {
                    cpu: self,
                    cells,
                    pc: if taken {
                        target
                    } else {
                        next
                    },
                },
                _ => Step::Unexpected,
            },
        }
    }

    /// The site recognized earlier at `pc`, if any.
    pub open spec fn cached_site(self, pc: u32, from: int) -> Option<Site>
        decreases 8 - from,
    {
        if from >= 8 {
            None
        } else {
            match self.sites[from] {
                Some(site) => if site.branch_pc == pc {
                    Some(site)
                } else {
                    self.cached_site(pc, from + 1)
                },
                None => self.cached_site(pc, from + 1),
            }
        }
    }

    /// A newly recognized site kept in the first free place.
    pub open spec fn cache_site(self, site: Site, from: int) -> Cpu
        decreases 8 - from,
    {
        if from >= 8 {
            self
        } else if self.sites[from] is None {
            Cpu { sites: self.sites.update(from, Some(site)), ..self }
        } else {
            self.cache_site(site, from + 1)
        }
    }

    /// The writes of an early exit, each made only where the exit is taken.
    pub open spec fn exit_writes(self, writes: Seq<(u8, u32)>, exit: bool) -> Cpu
        decreases writes.len(),
    {
        if writes.len() == 0 {
            self
        } else {
            let (dest, value) = writes.last();
            let before = self.exit_writes(writes.drop_last(), exit);
            before.write(
                dest as int,
                if exit {
                    crate::concrete::word(value)
                } else {
                    before.regs[dest as int]
                },
                false,
            )
        }
    }

    /// A recognized early exit replayed: its writes are selected by the exit
    /// condition, and the loop goes on.
    pub open spec fn replay(self, cells: Seq<bool>, site: Site) -> Step {
        let nonzero = crate::bits::num(self.regs[site.register as int]) != 0;
        let exit = (nonzero == site.nonzero) == site.exit_when_taken;
        Step::Next {
            cpu: self.exit_writes(site.writes, exit),
            cells,
            pc: site.continue_target,
        }
    }

    /// A compare-and-branch whose register the host does not know.
    pub open spec fn early_exit_loop_compare_branch(
        self,
        cells: Seq<bool>,
        mem: crate::memory::RawMemory<'_>,
        register: u8,
        nonzero: bool,
        target: u32,
        len: u32,
        options: EarlyExitLoopOptions,
    ) -> Step {
        if !options.enabled {
            Step::Unexpected
        } else {
            match self.cached_site(self.pc, 0) {
                Some(site) => self.replay(cells, site),
                None => match crate::thumb::early_exit::recognized(
                    mem,
                    self.pc,
                    register,
                    nonzero,
                    len,
                    target,
                    options.max_lookahead_instructions as nat,
                ) {
                    None => Step::Unexpected,
                    Some(site) => self.cache_site(site, 0).replay(cells, site),
                },
            }
        }
    }

    /// A compare-and-branch.
    pub open spec fn compare_branch(
        self,
        cells: Seq<bool>,
        mem: crate::memory::RawMemory<'_>,
        register: u8,
        nonzero: bool,
        target: u32,
        len: u32,
        options: EarlyExitLoopOptions,
    ) -> Step {
        match self.value(register as int) {
            Some(value) => Step::Next {
                cpu: self,
                cells,
                pc: if (value != 0) == nonzero {
                    target
                } else {
                    self.pc.wrapping_add(len)
                },
            },
            None => self.early_exit_loop_compare_branch(
                cells,
                mem,
                register,
                nonzero,
                target,
                len,
                options,
            ),
        }
    }
}

proof fn odd_masks(v: u32)
    ensures
        (v & 1 == 0) == (v % 2 == 0),
        v & !1u32 == v - v % 2,
        v % 2 == 0 || v % 2 == 1,
{
    assert((v & 1 == 0) == (v % 2 == 0) && v & !1u32 == v - v % 2) by (bit_vector);
}

/// What a handler demands of the caller.
pub open spec fn handles<H: ArmHandler<bool> + ?Sized>() -> bool {
    H::callable() && H::policies_callable()
}

/// The handler was asked whether an `SVC #0` in this state may proceed, and
/// said so.
pub open spec fn permitted<H: ArmHandler<bool> + ?Sized>(state: SecurityState, permit: bool) -> bool {
    exists|h: &mut H| #[trigger]
        call_ensures(<H as ArmHandler<bool>>::svc_permitted, (h, state), permit)
}

/// The handler was asked for the attribution of an address, and gave it.
pub open spec fn attributed<H: ArmHandler<bool> + ?Sized>(
    address: u32,
    attribute: SecurityAttribute,
) -> bool {
    exists|h: &mut H| #[trigger]
        call_ensures(<H as ArmHandler<bool>>::security_attribute, (h, address), attribute)
}

/// The handler was asked for the loop recognizer's options, and gave them.
pub open spec fn opted<H: ArmHandler<bool> + ?Sized>(options: EarlyExitLoopOptions) -> bool {
    options == crate::handler::opted_out() || H::opts_in(options)
}

/// A register file that a host call is given in a state.
pub open spec fn handed<H: ArmHandler<bool> + ?Sized>(
    file: File<<H as ContextWithValue<bool>>::Wrapped, 32>,
    c: Cpu,
) -> bool {
    &&& crate::thumb::machine::words::<H>(file.regs) == c.regs
    &&& file.constants.len() == 16
    &&& file.offsets.len() == 16
    &&& forall|i: int|
        0 <= i < 16 ==> (#[trigger] file.constants[i]) == match c.value(i) {
            Some(v) => Some(v as u64),
            None => None,
        }
    &&& forall|i: int|
        0 <= i < 16 ==> (#[trigger] file.offsets[i]) == match c.offsets[i] {
            Some(v) => Some(v as i64),
            None => None,
        }
}

/// What a register file that a host call left means.
pub open spec fn left<H: ArmHandler<bool> + ?Sized>(
    file: File<<H as ContextWithValue<bool>>::Wrapped, 32>,
    reply: Reply,
) -> bool {
    &&& reply.regs == crate::thumb::machine::words::<H>(file.regs)
    &&& reply.known == Seq::new(16, |i: int| file.constants[i] is Some)
    &&& reply.offsets == Seq::new(
        16,
        |i: int|
            match file.offsets[i] {
                Some(v) => Some(v as i32),
                None => None,
            },
    )
}

/// The handler was called in this state, and answered so.
pub open spec fn called<H: ArmHandler<bool> + ?Sized>(
    c: Cpu,
    outcome: EcallOutcome,
    reply: Reply,
) -> bool {
    exists|
        before: File<<H as ContextWithValue<bool>>::Wrapped, 32>,
        zero: <H as ContextWithValue<bool>>::Wrapped,
        one: <H as ContextWithValue<bool>>::Wrapped,
        after: File<<H as ContextWithValue<bool>>::Wrapped, 32>,
    | #[trigger]
        H::answers(before, zero, one, outcome, after) && handed::<H>(before, c) && left::<H>(
            after,
            reply,
        )
}

/// The hook was told of this call in this state, and decided so.
pub open spec fn told<H: ArmHandler<bool> + ?Sized>(
    c: Cpu,
    event: ArmCallEvent,
    action: ArmCallAction,
    reply: Reply,
) -> bool {
    exists|
        before: HookFile<<H as ContextWithValue<bool>>::Wrapped>,
        zero: <H as ContextWithValue<bool>>::Wrapped,
        one: <H as ContextWithValue<bool>>::Wrapped,
        after: HookFile<<H as ContextWithValue<bool>>::Wrapped>,
    | #[trigger]
        crate::thumb::handler::decided::<bool, H>(event, before, zero, one, action, after)
            && crate::thumb::machine::words::<H>(before.regs) == c.regs && before.constants
            == Seq::new(16, |i: int| c.value(i)) && before.offsets == c.offsets && reply
            == reply_of::<H>(after.regs, after.constants, after.offsets)
}

/// The handler was called in this state, and failed so.
pub open spec fn failed<H: ArmHandler<bool> + ?Sized>(c: Cpu, error: H::Error) -> bool {
    exists|
        before: File<<H as ContextWithValue<bool>>::Wrapped, 32>,
        zero: <H as ContextWithValue<bool>>::Wrapped,
        one: <H as ContextWithValue<bool>>::Wrapped,
    | #[trigger]
        H::fails(before, zero, one, error) && handed::<H>(before, c)
}

/// The hook was told of this call in this state, and failed so.
pub open spec fn hook_failed<H: ArmHandler<bool> + ?Sized>(
    c: Cpu,
    event: ArmCallEvent,
    error: H::Error,
) -> bool {
    exists|
        before: HookFile<<H as ContextWithValue<bool>>::Wrapped>,
        zero: <H as ContextWithValue<bool>>::Wrapped,
        one: <H as ContextWithValue<bool>>::Wrapped,
    | #[trigger]
        H::hook_fails(event, before, zero, one, error) && crate::thumb::machine::words::<H>(
            before.regs,
        ) == c.regs && before.constants == Seq::new(16, |i: int| c.value(i)) && before.offsets
            == c.offsets
}

/// An error of the context's operations, of the handler's host call or of its
/// hook.
pub open spec fn stems<H: ArmHandler<bool> + ?Sized>(error: H::Error) -> bool {
    ||| crate::context::erred::<H>(error)
    ||| exists|
        before: File<<H as ContextWithValue<bool>>::Wrapped, 32>,
        zero: <H as ContextWithValue<bool>>::Wrapped,
        one: <H as ContextWithValue<bool>>::Wrapped,
    | #[trigger]
        H::fails(before, zero, one, error)
    ||| exists|
        event: ArmCallEvent,
        before: HookFile<<H as ContextWithValue<bool>>::Wrapped>,
        zero: <H as ContextWithValue<bool>>::Wrapped,
        one: <H as ContextWithValue<bool>>::Wrapped,
    | #[trigger]
        H::hook_fails(event, before, zero, one, error)
}

/// Neither the context nor the handler ever fails.
pub open spec fn unfailing<H: ArmHandler<bool> + ?Sized>() -> bool {
    &&& crate::context::reliable::<H>()
    &&& H::willing()
    &&& H::hook_willing()
}

impl Cpu {
    /// The hook failed when a register call was offered to it.
    pub open spec fn offer_failed<H: ArmHandler<bool> + ?Sized>(
        self,
        register: u8,
        len: u32,
        error: H::Error,
    ) -> bool {
        hook_failed::<H>(
            self,
            ArmCallEvent::RegisterCall {
                caller_pc: self.pc,
                register,
                target: match self.value(register as int) {
                    Some(target) => Some((target - 1) as u32),
                    None => None,
                },
                return_pc: self.pc.wrapping_add(len),
            },
            error,
        )
    }

    /// A register call is offered to the hook, unless its target is known and
    /// would leave Thumb state.
    pub open spec fn offers<H: ArmHandler<bool> + ?Sized>(
        self,
        register: u8,
        len: u32,
        answers: Answers,
    ) -> bool {
        match self.value(register as int) {
            Some(target) => target % 2 == 0 || told::<H>(
                self,
                ArmCallEvent::RegisterCall {
                    caller_pc: self.pc,
                    register,
                    target: Some((target - 1) as u32),
                    return_pc: self.pc.wrapping_add(len),
                },
                answers.action,
                answers.hook,
            ),
            None => told::<H>(
                self,
                ArmCallEvent::RegisterCall {
                    caller_pc: self.pc,
                    register,
                    target: None,
                    return_pc: self.pc.wrapping_add(len),
                },
                answers.action,
                answers.hook,
            ),
        }
    }
}

/// Where an `SVC #0` leads, given whether the handler permits it and what it
/// answers: on, or out where the stack pointer is back at the stack's top.
pub fn svc_flow<E>(
    permit: bool,
    outcome: EcallOutcome,
    sp: u32,
    stack_top: u32,
    next: u32,
) -> (r: Result<Flow, ErtError<E>>)
    ensures
        r == match outcome {
            EcallOutcome::Continue if permit => Ok(Flow::Next(next)),
            EcallOutcome::Exit if permit && sp == stack_top => Ok(Flow::Exit),
            _ => Err(ErtError::<E>::Unexpected),
        },
{
    if !permit {
        return Err(ErtError::Unexpected);
    }
    match outcome {
        EcallOutcome::Continue => Ok(Flow::Next(next)),
        EcallOutcome::Exit => if sp == stack_top {
            Ok(Flow::Exit)
        } else {
            Err(ErtError::Unexpected)
        },
        EcallOutcome::Unexpected => Err(ErtError::Unexpected),
    }
}

/// Where a call leads, given what the hook decided, and whether its return
/// address is kept. Nothing where the call cannot be made.
pub fn hooked_target(action: ArmCallAction, target: Option<u32>, return_pc: u32) -> (r: Option<
    (u32, bool),
>)
    ensures
        r == match action {
            ArmCallAction::ReturnNow => Some((return_pc, false)),
            ArmCallAction::Divert(to) => if to % 2 == 1 {
                None
            } else {
                Some((to, true))
            },
            ArmCallAction::Continue => match target {
                Some(target) => Some((target, true)),
                None => None,
            },
        },
{
    match action {
        ArmCallAction::ReturnNow => Some((return_pc, false)),
        ArmCallAction::Divert(to) => {
            if to % 2 == 1 {
                return None;
            }
            Some((to, true))
        },
        ArmCallAction::Continue => match target {
            Some(target) => Some((target, true)),
            None => None,
        },
    }
}

impl<'m, W: Clone> Machine<'m, W> {
    /// Every host-known value of a register is its value.
    pub proof fn known_values<H: ContextWithValue<bool, Wrapped = W> + ?Sized>(&self)
        requires
            crate::thumb::machine::agreeing::<H>(*self),
        ensures
            forall|i: int|
                0 <= i < 16 ==> (#[trigger] self.constants@[i]) == crate::thumb::machine::cpu::<H>(
                    *self,
                ).value(i),
    {
        assert forall|i: int| 0 <= i < 16 implies (#[trigger] self.constants@[i])
            == crate::thumb::machine::cpu::<H>(*self).value(i) by {
            self.known_value::<H>(i);
        }
    }

    /// The host-known value of a register is its value.
    pub proof fn known_value<H: ContextWithValue<bool, Wrapped = W> + ?Sized>(&self, register: int)
        requires
            0 <= register < 16,
            crate::thumb::machine::agreeing::<H>(*self),
        ensures
            self.constants@[register] == crate::thumb::machine::cpu::<H>(*self).value(register),
    {
        if self.constants@[register] is Some {
            crate::concrete::word_num(self.constants@[register]->0);
        }
    }

    /// Push a frame on the control stack.
    fn link<H>(&mut self, return_pc: u32) -> (r: Result<(), ErtError<H::Error>>) where
        H: ArmHandler<bool> + ContextWithValue<bool, Wrapped = W> + ?Sized,

        requires
            crate::thumb::machine::bounded(*old(self)),
        ensures
            crate::thumb::machine::framed(*old(self), *final(self)),
            crate::thumb::machine::live::<H>(*old(self)) ==> match r {
                Ok(_) => crate::thumb::machine::live::<H>(*final(self))
                    && crate::thumb::machine::cpu::<H>(*old(self)).link(return_pc) == Some(
                    crate::thumb::machine::cpu::<H>(*final(self)),
                ),
                Err(ErtError::Unexpected) => crate::thumb::machine::cpu::<H>(*old(self)).link(
                    return_pc,
                ) is None,
                _ => false,
            },
            !crate::thumb::flags::emits(r),
    {
        if self.rsp >= self.rstack.len() {
            return Err(ErtError::Unexpected);
        }
        self.rstack.set(self.rsp, return_pc);
        self.rsp = self.rsp + 1;
        let ghost mid = crate::thumb::machine::cpu::<H>(*self);
        proof {
            let c = crate::thumb::machine::cpu::<H>(*old(self));
            assert(mid =~= (Cpu { rstack: c.rstack.update(c.rsp, return_pc), rsp: c.rsp + 1, ..c }));
        }
        self.write_constant::<H>(LR, return_pc | 1);
        Ok(())
    }

    /// Ask the hook about a call, and make the call it decides on.
    fn hooked_call<H>(
        &mut self,
        h: &mut H,
        event: ArmCallEvent,
        target: Option<u32>,
        return_pc: u32,
        Ghost(cells): Ghost<Seq<bool>>,
        answers: &mut Ghost<Answers>,
    ) -> (r: Result<Flow, ErtError<H::Error>>) where
        H: ArmHandler<bool> + ContextWithValue<bool, Wrapped = W> + ?Sized,

        requires
            handles::<H>(),
            crate::thumb::machine::bounded(*old(self)),
        ensures
            crate::thumb::machine::live::<H>(*old(self)) && crate::thumb::flags::unemitted(r)
                ==> told::<H>(
                crate::thumb::machine::cpu::<H>(*old(self)),
                event,
                final(answers)@.action,
                final(answers)@.hook,
            ),
            crate::thumb::machine::live::<H>(*old(self)) ==> (r matches Err(ErtError::Emitted(error))
                ==> hook_failed::<H>(crate::thumb::machine::cpu::<H>(*old(self)), event, error)),
            unfailing::<H>() ==> crate::thumb::flags::unemitted(r),
            r matches Err(ErtError::Emitted(error)) ==> stems::<H>(error),
            crate::thumb::machine::framed(*old(self), *final(self)),
            final(answers)@.attribute == old(answers)@.attribute,
            crate::thumb::machine::live::<H>(*old(self)) ==> crate::thumb::machine::stepped::<H>(
                *final(self),
                cells,
                r,
                crate::thumb::machine::cpu::<H>(*old(self)).call(
                    cells,
                    target,
                    return_pc,
                    final(answers)@.action,
                    final(answers)@.hook,
                ),
            ),
    {
        proof {
            if crate::thumb::machine::live::<H>(*self) {
                agreement_out::<H>(self.regs@, self.constants@);
            }
        }
        let ghost before = *self;
        let ghost given = HookFile {
            regs: self.regs@,
            constants: self.constants@,
            offsets: self.offsets@,
        };
        proof {
            if crate::thumb::machine::live::<H>(before) {
                before.known_values::<H>();
                assert(given.constants =~= Seq::new(
                    16,
                    |i: int| crate::thumb::machine::cpu::<H>(before).value(i),
                ));
            }
        }
        let hooked = h.call_hook(
            event,
            &mut self.regs,
            &mut self.constants,
            &mut self.offsets,
            &self.zero,
            &self.one,
        );
        proof {
            if hooked is Err {
                assert(H::hook_fails(event, given, self.zero, self.one, hooked->Err_0));
            }
        }
        let action = emitted(hooked)?;
        let ghost reply = reply_of::<H>(self.regs@, self.constants@, self.offsets@);
        proof {
            *answers.borrow_mut() = Answers { action, hook: reply, ..answers@ };
            if crate::thumb::machine::live::<H>(before) {
                assert(crate::thumb::handler::decided::<bool, H>(
                    event,
                    given,
                    self.zero,
                    self.one,
                    action,
                    HookFile {
                        regs: self.regs@,
                        constants: self.constants@,
                        offsets: self.offsets@,
                    },
                ));
                agreement_in::<H>(self.regs@, self.constants@);
                assert(crate::thumb::machine::live::<H>(*self));
                assert(crate::thumb::machine::cpu::<H>(*self) =~= crate::thumb::machine::cpu::<H>(
                    before,
                ).replied(reply));
            }
        }
        match hooked_target(action, target, return_pc) {
            Some((pc, linked)) => {
                if linked {
                    self.link::<H>(return_pc)?;
                }
                Ok(Flow::Next(pc))
            },
            None => Err(ErtError::Unexpected),
        }
    }

    /// Call a direct target.
    pub fn call<H>(
        &mut self,
        h: &mut H,
        target: u32,
        len: u32,
        Ghost(cells): Ghost<Seq<bool>>,
        answers: &mut Ghost<Answers>,
    ) -> (r: Result<Flow, ErtError<H::Error>>) where
        H: ArmHandler<bool> + ContextWithValue<bool, Wrapped = W> + ?Sized,

        requires
            handles::<H>(),
            crate::thumb::machine::bounded(*old(self)),
        ensures
            crate::thumb::machine::live::<H>(*old(self)) && crate::thumb::flags::unemitted(r)
                ==> told::<H>(
                crate::thumb::machine::cpu::<H>(*old(self)),
                ArmCallEvent::DirectCall {
                    caller_pc: old(self).pc,
                    target,
                    return_pc: old(self).pc.wrapping_add(len),
                },
                final(answers)@.action,
                final(answers)@.hook,
            ),
            crate::thumb::machine::live::<H>(*old(self)) ==> (r matches Err(ErtError::Emitted(error))
                ==> hook_failed::<H>(
                crate::thumb::machine::cpu::<H>(*old(self)),
                ArmCallEvent::DirectCall {
                    caller_pc: old(self).pc,
                    target,
                    return_pc: old(self).pc.wrapping_add(len),
                },
                error,
            )),
            unfailing::<H>() ==> crate::thumb::flags::unemitted(r),
            r matches Err(ErtError::Emitted(error)) ==> stems::<H>(error),
            crate::thumb::machine::framed(*old(self), *final(self)),
            final(answers)@.attribute == old(answers)@.attribute,
            crate::thumb::machine::live::<H>(*old(self)) ==> crate::thumb::machine::stepped::<H>(
                *final(self),
                cells,
                r,
                crate::thumb::machine::cpu::<H>(*old(self)).call(
                    cells,
                    Some(target),
                    old(self).pc.wrapping_add(len),
                    final(answers)@.action,
                    final(answers)@.hook,
                ),
            ),
    {
        let return_pc: u32 = self.pc.wrapping_add(len);
        let event = ArmCallEvent::DirectCall { caller_pc: self.pc, target, return_pc };
        self.hooked_call(h, event, Some(target), return_pc, Ghost(cells), answers)
    }

    /// Call the target in a register. A target that is not known is offered to the
    /// hook before the call fails.
    pub fn call_register<H>(
        &mut self,
        h: &mut H,
        register: u8,
        len: u32,
        Ghost(cells): Ghost<Seq<bool>>,
        answers: &mut Ghost<Answers>,
    ) -> (r: Result<Flow, ErtError<H::Error>>) where
        H: ArmHandler<bool> + ContextWithValue<bool, Wrapped = W> + ?Sized,

        requires
            handles::<H>(),
            register < 16,
            crate::thumb::machine::bounded(*old(self)),
        ensures
            crate::thumb::machine::live::<H>(*old(self)) && crate::thumb::flags::unemitted(r)
                ==> crate::thumb::machine::cpu::<H>(
                *old(self),
            ).offers::<H>(register, len, final(answers)@),
            crate::thumb::machine::live::<H>(*old(self)) ==> (r matches Err(ErtError::Emitted(error))
                ==> crate::thumb::machine::cpu::<H>(*old(self)).offer_failed::<H>(
                register,
                len,
                error,
            )),
            unfailing::<H>() ==> crate::thumb::flags::unemitted(r),
            r matches Err(ErtError::Emitted(error)) ==> stems::<H>(error),
            crate::thumb::machine::framed(*old(self), *final(self)),
            final(answers)@.attribute == old(answers)@.attribute,
            crate::thumb::machine::live::<H>(*old(self)) ==> crate::thumb::machine::stepped::<H>(
                *final(self),
                cells,
                r,
                crate::thumb::machine::cpu::<H>(*old(self)).call_register(
                    cells,
                    register as int,
                    old(self).pc.wrapping_add(len),
                    final(answers)@.action,
                    final(answers)@.hook,
                ),
            ),
    {
        let return_pc: u32 = self.pc.wrapping_add(len);
        proof {
            if crate::thumb::machine::live::<H>(*self) {
                self.known_value::<H>(register as int);
            }
        }
        let target = match self.constants[register as usize] {
            Some(value) => {
                proof {
                    odd_masks(value);
                }
                if value & 1 == 0 {
                    return Err(ErtError::Unexpected);
                }
                Some(value & !1u32)
            },
            None => None,
        };
        let event = ArmCallEvent::RegisterCall { caller_pc: self.pc, register, target, return_pc };
        self.hooked_call(h, event, target, return_pc, Ghost(cells), answers)
    }

    /// Branch to the address in a register.
    pub fn branch_register<H>(
        &mut self,
        register: u8,
        Ghost(cells): Ghost<Seq<bool>>,
    ) -> (r: Result<Flow, ErtError<H::Error>>) where
        H: ArmHandler<bool> + ContextWithValue<bool, Wrapped = W> + ?Sized,

        requires
            handles::<H>(),
            register < 16,
            crate::thumb::machine::bounded(*old(self)),
        ensures
            crate::thumb::machine::framed(*old(self), *final(self)),
            crate::thumb::machine::live::<H>(*old(self)) ==> crate::thumb::machine::stepped::<H>(
                *final(self),
                cells,
                r,
                crate::thumb::machine::cpu::<H>(*old(self)).branch_register(cells, register as int),
            ),
            crate::context::reliable::<H>() ==> crate::thumb::flags::unemitted(r),
            r matches Err(ErtError::Emitted(error)) ==> crate::context::erred::<H>(error),
    {
        if register == LR {
            return self.return_from_call::<H>();
        }
        proof {
            if crate::thumb::machine::live::<H>(*self) {
                self.known_value::<H>(register as int);
            }
        }
        match self.constants[register as usize] {
            Some(target) => {
                proof {
                    odd_masks(target);
                }
                if target & 1 == 0 {
                    return Err(ErtError::Unexpected);
                }
                Ok(Flow::Next(target & !1u32))
            },
            None => Err(ErtError::Unexpected),
        }
    }

    /// Enter the Secure world through a gateway.
    pub fn secure_gateway<H>(
        &mut self,
        h: &mut H,
        len: u32,
        Ghost(cells): Ghost<Seq<bool>>,
        answers: &mut Ghost<Answers>,
    ) -> (r: Result<Flow, ErtError<H::Error>>) where
        H: ArmHandler<bool> + ContextWithValue<bool, Wrapped = W> + ?Sized,

        requires
            handles::<H>(),
            crate::thumb::machine::bounded(*old(self)),
        ensures
            attributed::<H>(old(self).pc, final(answers)@.attribute),
            crate::thumb::machine::framed(*old(self), *final(self)),
            crate::thumb::machine::live::<H>(*old(self)) ==> crate::thumb::machine::stepped::<H>(
                *final(self),
                cells,
                r,
                (Step::Next {
                    cpu: crate::thumb::machine::cpu::<H>(*old(self)).secure_gateway(
                        final(answers)@.attribute,
                    ),
                    cells,
                    pc: old(self).pc.wrapping_add(len),
                }),
            ),
            crate::context::reliable::<H>() ==> crate::thumb::flags::unemitted(r),
            r matches Err(ErtError::Emitted(error)) ==> crate::context::erred::<H>(error),
    {
        let attribute = h.security_attribute(self.pc);
        proof {
            *answers.borrow_mut() = Answers { attribute, ..answers@ };
            if crate::thumb::machine::live::<H>(*self) {
                self.known_value::<H>(14);
            }
        }
        if attribute != SecurityAttribute::NonSecure && self.security_state
            == SecurityState::NonSecure {
            self.security_state = SecurityState::Secure;
            if let Some(lr) = self.constants[LR as usize] {
                proof {
                    odd_masks(lr);
                }
                self.write_constant::<H>(LR, lr & !1u32);
            }
        }
        Ok(self.next(len))
    }

    /// Branch, or call, to the Non-secure world.
    pub fn branch_exchange_non_secure<H>(
        &mut self,
        register: u8,
        link: bool,
        len: u32,
        Ghost(cells): Ghost<Seq<bool>>,
    ) -> (r: Result<Flow, ErtError<H::Error>>) where
        H: ArmHandler<bool> + ContextWithValue<bool, Wrapped = W> + ?Sized,

        requires
            handles::<H>(),
            register < 16,
            crate::thumb::machine::bounded(*old(self)),
        ensures
            crate::thumb::machine::framed(*old(self), *final(self)),
            crate::thumb::machine::live::<H>(*old(self)) ==> crate::thumb::machine::stepped::<H>(
                *final(self),
                cells,
                r,
                crate::thumb::machine::cpu::<H>(*old(self)).branch_exchange_non_secure(
                    cells,
                    register as int,
                    link,
                    old(self).pc.wrapping_add(len),
                ),
            ),
            crate::context::reliable::<H>() ==> crate::thumb::flags::unemitted(r),
            r matches Err(ErtError::Emitted(error)) ==> crate::context::erred::<H>(error),
    {
        if self.security_state == SecurityState::NonSecure {
            return Err(ErtError::Unexpected);
        }
        proof {
            if crate::thumb::machine::live::<H>(*self) {
                self.known_value::<H>(register as int);
            }
        }
        let target: u32 = match self.constants[register as usize] {
            Some(target) => target,
            None => return Err(ErtError::Unexpected),
        };
        proof {
            odd_masks(target);
        }
        if target & 1 == 0 {
            self.security_state = SecurityState::NonSecure;
        }
        if link {
            let return_pc: u32 = self.pc.wrapping_add(len);
            self.link::<H>(return_pc)?;
        }
        Ok(Flow::Next(target & !1u32))
    }

    /// Call the host, where the policy permits it. An exit needs a balanced stack.
    pub fn svc<H>(
        &mut self,
        h: &mut H,
        len: u32,
        Ghost(cells): Ghost<Seq<bool>>,
        answers: &mut Ghost<Answers>,
    ) -> (r: Result<Flow, ErtError<H::Error>>) where
        H: ArmHandler<bool> + ContextWithValue<bool, Wrapped = W> + ?Sized,

        requires
            handles::<H>(),
            crate::thumb::machine::bounded(*old(self)),
        ensures
            permitted::<H>(old(self).security_state, final(answers)@.permit),
            crate::thumb::machine::live::<H>(*old(self)) && crate::thumb::flags::unemitted(r)
                && final(answers)@.permit ==> called::<H>(
                crate::thumb::machine::cpu::<H>(*old(self)),
                final(answers)@.outcome,
                final(answers)@.ecall,
            ),
            !final(answers)@.permit ==> r matches Err(ErtError::Unexpected),
            crate::thumb::machine::live::<H>(*old(self)) ==> (r matches Err(ErtError::Emitted(error))
                ==> final(answers)@.permit && failed::<H>(
                crate::thumb::machine::cpu::<H>(*old(self)),
                error,
            )),
            unfailing::<H>() ==> crate::thumb::flags::unemitted(r),
            r matches Err(ErtError::Emitted(error)) ==> stems::<H>(error),
            crate::thumb::machine::framed(*old(self), *final(self)),
            final(answers)@.attribute == old(answers)@.attribute,
            crate::thumb::machine::live::<H>(*old(self)) ==> crate::thumb::machine::stepped::<H>(
                *final(self),
                cells,
                r,
                crate::thumb::machine::cpu::<H>(*old(self)).svc(
                    cells,
                    old(self).stack_top,
                    old(self).pc.wrapping_add(len),
                    final(answers)@.permit,
                    final(answers)@.outcome,
                    final(answers)@.ecall,
                ),
            ),
    {
        let permit = h.svc_permitted(self.security_state);
        proof {
            *answers.borrow_mut() = Answers { permit, ..answers@ };
        }
        if !permit {
            return Err(ErtError::Unexpected);
        }
        let mut constants = widen_constants(&self.constants);
        let mut offsets = widen_offsets(&self.offsets);
        proof {
            if crate::thumb::machine::live::<H>(*self) {
                agreement_out::<H>(self.regs@, self.constants@);
                assert(constants@ =~= crate::thumb::handler::widen(self.constants@));
            }
        }
        let ghost before = *self;
        let ghost given = File { regs: self.regs@, constants: constants@, offsets: offsets@ };
        proof {
            if crate::thumb::machine::live::<H>(before) {
                before.known_values::<H>();
                assert(handed::<H>(given, crate::thumb::machine::cpu::<H>(before)));
            }
        }
        let answer = h.ecall(&mut self.regs, &mut constants, &mut offsets, &self.zero, &self.one);
        proof {
            if answer is Err {
                assert(H::fails(given, self.zero, self.one, answer->Err_0));
            }
        }
        let outcome = emitted(answer)?;
        let ghost after = File { regs: self.regs@, constants: constants@, offsets: offsets@ };
        self.constants = narrow_constants(&constants);
        self.offsets = narrow_offsets(&offsets);
        let ghost reply = reply_of::<H>(self.regs@, self.constants@, self.offsets@);
        proof {
            *answers.borrow_mut() = Answers { outcome, ecall: reply, ..answers@ };
            if crate::thumb::machine::live::<H>(before) {
                assert(H::answers(given, self.zero, self.one, outcome, after));
                assert(reply.known =~= Seq::new(16, |i: int| after.constants[i] is Some));
                assert(reply.offsets =~= Seq::new(
                    16,
                    |i: int|
                        match after.offsets[i] {
                            Some(v) => Some(v as i32),
                            None => None,
                        },
                ));
                assert(left::<H>(after, reply));
                narrowed_agreement::<H>(self.regs@, constants@, self.constants@);
                assert(crate::thumb::machine::live::<H>(*self));
                assert(crate::thumb::machine::cpu::<H>(*self) =~= crate::thumb::machine::cpu::<H>(
                    before,
                ).replied(reply));
            }
        }
        svc_flow(permit, outcome, self.sp, self.stack_top, self.pc.wrapping_add(len))
    }

    /// Branch directly, on a condition that must be known.
    pub fn branch<H>(
        &mut self,
        target: u32,
        condition: Option<u8>,
        len: u32,
        Ghost(cells): Ghost<Seq<bool>>,
    ) -> (r: Result<Flow, ErtError<H::Error>>) where
        H: ArmHandler<bool> + ContextWithValue<bool, Wrapped = W> + ?Sized,

        requires
            handles::<H>(),
            crate::thumb::machine::bounded(*old(self)),
        ensures
            crate::thumb::machine::framed(*old(self), *final(self)),
            crate::thumb::machine::live::<H>(*old(self)) ==> crate::thumb::machine::stepped::<H>(
                *final(self),
                cells,
                r,
                crate::thumb::machine::cpu::<H>(*old(self)).branch(
                    cells,
                    target,
                    condition,
                    old(self).pc.wrapping_add(len),
                ),
            ),
            crate::context::reliable::<H>() ==> crate::thumb::flags::unemitted(r),
            r matches Err(ErtError::Emitted(error)) ==> crate::context::erred::<H>(error),
    {
        let taken = match condition {
            None => true,
            Some(condition) => {
                proof {
                    if crate::thumb::machine::live::<H>(*self) {
                        self.known_flags::<H>();
                    }
                }
                match self.condition_value(condition)? {
                    Some(taken) => taken,
                    None => return Err(ErtError::Unexpected),
                }
            },
        };
        Ok(
            if taken {
                Flow::Next(target)
            } else {
                self.next(len)
            },
        )
    }

    /// Branch on whether a register is zero.
    pub fn compare_branch<H>(
        &mut self,
        h: &mut H,
        register: u8,
        nonzero: bool,
        target: u32,
        len: u32,
        Ghost(cells): Ghost<Seq<bool>>,
        answers: &mut Ghost<Answers>,
    ) -> (r: Result<Flow, ErtError<H::Error>>) where
        H: ArmHandler<bool> + ContextWithValue<bool, Wrapped = W> + ?Sized,

        requires
            handles::<H>(),
            register < 16,
            crate::thumb::machine::bounded(*old(self)),
        ensures
            old(self).constants@[register as int] is None ==> opted::<H>(final(answers)@.options),
            crate::thumb::machine::framed(*old(self), *final(self)),
            final(answers)@.attribute == old(answers)@.attribute,
            crate::thumb::machine::live::<H>(*old(self)) ==> crate::thumb::machine::stepped::<H>(
                *final(self),
                cells,
                r,
                crate::thumb::machine::cpu::<H>(*old(self)).compare_branch(
                    cells,
                    old(self).mem,
                    register,
                    nonzero,
                    target,
                    len,
                    final(answers)@.options,
                ),
            ),
            crate::context::reliable::<H>() ==> crate::thumb::flags::unemitted(r),
            r matches Err(ErtError::Emitted(error)) ==> crate::context::erred::<H>(error),
    {
        proof {
            if crate::thumb::machine::live::<H>(*self) {
                self.known_value::<H>(register as int);
            }
        }
        if let Some(value) = self.constants[register as usize] {
            return Ok(
                if (value != 0) == nonzero {
                    Flow::Next(target)
                } else {
                    self.next(len)
                },
            );
        }
        self.early_exit_loop_compare_branch(
            h,
            register,
            nonzero,
            target,
            len,
            Ghost(cells),
            answers,
        )
    }

    /// Attempt the opt-in early-exit loop recognizer (see
    /// [`recognize`](crate::thumb::early_exit::recognize)) at a compare-and-branch
    /// that cannot be resolved. Fails where the recognizer is not enabled or this
    /// branch doesn't match the idiom it looks for.
    pub fn early_exit_loop_compare_branch<H>(
        &mut self,
        h: &mut H,
        register: u8,
        nonzero: bool,
        target: u32,
        len: u32,
        Ghost(cells): Ghost<Seq<bool>>,
        answers: &mut Ghost<Answers>,
    ) -> (r: Result<Flow, ErtError<H::Error>>) where
        H: ArmHandler<bool> + ContextWithValue<bool, Wrapped = W> + ?Sized,

        requires
            handles::<H>(),
            register < 16,
            crate::thumb::machine::bounded(*old(self)),
        ensures
            opted::<H>(final(answers)@.options),
            crate::thumb::machine::framed(*old(self), *final(self)),
            final(answers)@.attribute == old(answers)@.attribute,
            crate::thumb::machine::live::<H>(*old(self)) ==> crate::thumb::machine::stepped::<H>(
                *final(self),
                cells,
                r,
                crate::thumb::machine::cpu::<H>(*old(self)).early_exit_loop_compare_branch(
                    cells,
                    old(self).mem,
                    register,
                    nonzero,
                    target,
                    len,
                    final(answers)@.options,
                ),
            ),
            crate::context::reliable::<H>() ==> crate::thumb::flags::unemitted(r),
            r matches Err(ErtError::Emitted(error)) ==> crate::context::erred::<H>(error),
    {
        let options = h.early_exit_loop_options();
        proof {
            *answers.borrow_mut() = Answers { options, ..answers@ };
        }
        if !options.enabled {
            return Err(ErtError::Unexpected);
        }
        let site = match self.find_site::<H>(self.pc) {
            Some(site) => site,
            None => {
                let site = match recognize(
                    &self.mem,
                    self.pc,
                    register,
                    nonzero,
                    len,
                    target,
                    options.max_lookahead_instructions,
                ) {
                    Some(site) => site,
                    None => return Err(ErtError::Unexpected),
                };
                self.keep_site::<H>(site);
                site
            },
        };
        self.replay::<H>(h, site, Ghost(cells))
    }

    /// The flags that the host knows are the flags.
    pub proof fn known_flags<H: ContextWithValue<bool, Wrapped = W> + ?Sized>(&self)
        requires
            crate::thumb::machine::agreeing::<H>(*self),
        ensures
            self.flags@[0].value == crate::thumb::flags::flag_fact(
                crate::thumb::machine::cpu::<H>(*self),
                0,
            ),
            self.flags@[1].value == crate::thumb::flags::flag_fact(
                crate::thumb::machine::cpu::<H>(*self),
                1,
            ),
            self.flags@[2].value == crate::thumb::flags::flag_fact(
                crate::thumb::machine::cpu::<H>(*self),
                2,
            ),
            self.flags@[3].value == crate::thumb::flags::flag_fact(
                crate::thumb::machine::cpu::<H>(*self),
                3,
            ),
    {
        let c = crate::thumb::machine::cpu::<H>(*self);
        assert(c.flags[0] == crate::thumb::machine::wire_bit::<H>(self.flags@[0].wire));
        assert(c.flags[1] == crate::thumb::machine::wire_bit::<H>(self.flags@[1].wire));
        assert(c.flags[2] == crate::thumb::machine::wire_bit::<H>(self.flags@[2].wire));
        assert(c.flags[3] == crate::thumb::machine::wire_bit::<H>(self.flags@[3].wire));
    }

    /// The site recognized earlier at `pc`.
    fn find_site<H>(&self, pc: u32) -> (r: Option<RecognizedSite>) where
        H: ContextWithValue<bool, Wrapped = W> + ?Sized,

        requires
            crate::thumb::machine::bounded(*self),
        ensures
            r is Some == crate::thumb::machine::cpu::<H>(*self).cached_site(pc, 0) is Some,
            r matches Some(site) ==> site.ok() && Some(site@) == crate::thumb::machine::cpu::<H>(
                *self,
            ).cached_site(pc, 0),
    {
        let ghost c = crate::thumb::machine::cpu::<H>(*self);
        let mut i: usize = 0;
        while i < 8
            invariant
                i <= 8,
                c == crate::thumb::machine::cpu::<H>(*self),
                crate::thumb::machine::bounded(*self),
                c.cached_site(pc, 0) == c.cached_site(pc, i as int),
            decreases 8 - i,
        {
            if let Some(site) = self.loop_sites[i] {
                if site.branch_pc == pc {
                    assert(c.sites[i as int] == Some(site@));
                    return Some(site);
                }
            }
            i = i + 1;
        }
        None
    }

    /// Keep a recognized site in the first free place.
    fn keep_site<H>(&mut self, site: RecognizedSite) where
        H: ContextWithValue<bool, Wrapped = W> + ?Sized,

        requires
            site.ok(),
            crate::thumb::machine::bounded(*old(self)),
        ensures
            crate::thumb::machine::framed(*old(self), *final(self)),
            crate::thumb::machine::cpu::<H>(*final(self)) == crate::thumb::machine::cpu::<H>(
                *old(self),
            ).cache_site(site@, 0),
            crate::thumb::machine::agreeing::<H>(*old(self)) ==> crate::thumb::machine::agreeing::<H>(
                *final(self),
            ),
    {
        let ghost c = crate::thumb::machine::cpu::<H>(*self);
        let mut i: usize = 0;
        while i < 8
            invariant
                i <= 8,
                *self == *old(self),
                site.ok(),
                c == crate::thumb::machine::cpu::<H>(*self),
                crate::thumb::machine::bounded(*self),
                c.cache_site(site@, 0) == c.cache_site(site@, i as int),
            decreases 8 - i,
        {
            if self.loop_sites[i].is_none() {
                self.loop_sites[i] = Some(site);
                proof {
                    assert(crate::thumb::machine::cpu::<H>(*self).sites =~= c.sites.update(
                        i as int,
                        Some(site@),
                    ));
                }
                return;
            }
            i = i + 1;
        }
    }

    /// Replay a recognized early exit.
    fn replay<H>(&mut self, h: &mut H, site: RecognizedSite, Ghost(cells): Ghost<Seq<bool>>) -> (r:
        Result<Flow, ErtError<H::Error>>) where
        H: ArmHandler<bool> + ContextWithValue<bool, Wrapped = W> + ?Sized,

        requires
            site.ok(),
            crate::thumb::machine::bounded(*old(self)),
        ensures
            crate::thumb::machine::framed(*old(self), *final(self)),
            crate::thumb::machine::live::<H>(*old(self)) ==> crate::thumb::machine::stepped::<H>(
                *final(self),
                cells,
                r,
                crate::thumb::machine::cpu::<H>(*old(self)).replay(cells, site@),
            ),
            crate::context::reliable::<H>() ==> crate::thumb::flags::unemitted(r),
            r matches Err(ErtError::Emitted(error)) ==> crate::context::erred::<H>(error),
    {
        let ghost c = crate::thumb::machine::cpu::<H>(*self);
        let is_nonzero = emitted(nonzero_word(h, &self.regs[site.register as usize]))?;
        let should_take = if site.nonzero {
            is_nonzero
        } else {
            emitted(h.bitxor(is_nonzero, keep::<H>(&self.one)))?
        };
        let should_exit = if site.exit_when_taken {
            should_take
        } else {
            emitted(h.bitxor(should_take, keep::<H>(&self.one)))?
        };
        let ghost exit = crate::context::bit::<H>(should_exit);
        let mut i: usize = 0;
        proof {
            assert(site.exit@.take(0) =~= Seq::<(u8, u32)>::empty());
        }
        while i < site.exit.write_count
            invariant
                i <= site.exit.write_count,
                site.ok(),
                exit == crate::context::bit::<H>(should_exit),
                crate::thumb::machine::framed(*old(self), *self),
                crate::thumb::machine::live::<H>(*old(self)) ==> {
                    &&& crate::thumb::machine::live::<H>(*self)
                    &&& crate::thumb::machine::cpu::<H>(*self) == c.exit_writes(
                        site.exit@.take(i as int),
                        exit,
                    )
                },
            decreases site.exit.write_count - i,
        {
            let (dest, value) = site.exit.writes[i];
            let candidate = self.word_from_constant::<H>(value);
            let selected = emitted(
                select_word(
                    h,
                    keep::<H>(&should_exit),
                    &candidate,
                    &self.regs[dest as usize],
                ),
            )?;
            self.write::<H>(dest, selected, None);
            proof {
                let more = site.exit@.take(i + 1);
                assert(more.drop_last() =~= site.exit@.take(i as int));
                assert(more.last() == (dest, value));
            }
            i = i + 1;
        }
        proof {
            assert(site.exit@.take(site.exit.write_count as int) =~= site.exit@);
        }
        Ok(Flow::Next(site.continue_target))
    }
}

/// The meaning of a register file that a host call left.
pub open spec fn reply_of<H: ContextWithValue<bool> + ?Sized>(
    regs: Seq<[H::Wrapped; 32]>,
    constants: Seq<Option<u32>>,
    offsets: Seq<Option<i32>>,
) -> Reply {
    Reply {
        regs: crate::thumb::machine::words::<H>(regs),
        known: crate::thumb::machine::present(constants),
        offsets,
    }
}

/// Agreement, as a host call sees it.
proof fn agreement_out<H: ContextWithValue<bool> + ?Sized>(
    regs: Seq<[H::Wrapped; 32]>,
    constants: Seq<Option<u32>>,
)
    requires
        regs.len() == 16,
        constants.len() == 16,
        forall|i: int|
            0 <= i < 16 ==> ((#[trigger] constants[i]) matches Some(v) ==> crate::context::bits::<H>(
                regs[i]@,
            ) == crate::concrete::word(v)),
    ensures
        crate::handler::agree::<bool, H, 32>(regs, crate::thumb::handler::widen(constants)),
{
    let wide = crate::thumb::handler::widen(constants);
    assert forall|i: int| 0 <= i < 16 implies ((#[trigger] wide[i]) matches Some(v)
        ==> crate::handler::spells::<bool, H>(regs[i]@, v)) by {
        if constants[i] is Some {
            let v = constants[i]->0;
            assert forall|j: int| 0 <= j < 32 implies crate::context::BitValue::truth(
                H::denotes(#[trigger] regs[i]@[j]),
            ) == crate::bits::bits_of(v as nat, 32)[j] by {
                assert(crate::context::bits::<H>(regs[i]@)[j] == crate::concrete::word(v)[j]);
            }
        }
    }
}

/// Agreement, as the machine sees it.
proof fn agreement_in<H: ContextWithValue<bool> + ?Sized>(
    regs: Seq<[H::Wrapped; 32]>,
    constants: Seq<Option<u32>>,
)
    requires
        regs.len() == 16,
        constants.len() == 16,
        crate::handler::agree::<bool, H, 32>(regs, crate::thumb::handler::widen(constants)),
    ensures
        forall|i: int|
            0 <= i < 16 ==> ((#[trigger] constants[i]) matches Some(v) ==> crate::context::bits::<H>(
                regs[i]@,
            ) == crate::concrete::word(v)),
{
    let wide = crate::thumb::handler::widen(constants);
    assert forall|i: int| 0 <= i < 16 implies ((#[trigger] constants[i]) matches Some(v)
        ==> crate::context::bits::<H>(regs[i]@) == crate::concrete::word(v)) by {
        if constants[i] is Some {
            let v = constants[i]->0;
            assert(wide[i] == Some(v as u64));
            assert(crate::handler::spells::<bool, H>(regs[i]@, v as u64));
            assert(crate::context::bits::<H>(regs[i]@) =~= crate::concrete::word(v));
        }
    }
}

/// Widen the machine's facts for a host call.
fn widen_constants(constants: &[Option<u32>; 16]) -> (r: [Option<u64>; 16])
    ensures
        r@ == crate::thumb::handler::widen(constants@),
{
    let mut r: [Option<u64>; 16] = [None; 16];
    let mut i: usize = 0;
    while i < 16
        invariant
            i <= 16,
            forall|j: int|
                0 <= j < i ==> r@[j] == crate::thumb::handler::widen(constants@)[j],
        decreases 16 - i,
    {
        r[i] = match constants[i] {
            Some(v) => Some(v as u64),
            None => None,
        };
        i = i + 1;
    }
    assert(r@ =~= crate::thumb::handler::widen(constants@));
    r
}

fn widen_offsets(offsets: &[Option<i32>; 16]) -> (r: [Option<i64>; 16])
    ensures
        forall|i: int|
            0 <= i < 16 ==> (#[trigger] r@[i]) == match offsets@[i] {
                Some(v) => Some(v as i64),
                None => None,
            },
{
    let mut r: [Option<i64>; 16] = [None; 16];
    let mut i: usize = 0;
    while i < 16
        invariant
            i <= 16,
            forall|j: int|
                0 <= j < i ==> (#[trigger] r@[j]) == match offsets@[j] {
                    Some(v) => Some(v as i64),
                    None => None,
                },
        decreases 16 - i,
    {
        r[i] = match offsets[i] {
            Some(v) => Some(v as i64),
            None => None,
        };
        i = i + 1;
    }
    r
}

/// Take a host call's facts back.
fn narrow_constants(constants: &[Option<u64>; 16]) -> (r: [Option<u32>; 16])
    ensures
        forall|i: int|
            0 <= i < 16 ==> (#[trigger] r@[i]) == match constants@[i] {
                Some(v) => Some(v as u32),
                None => None,
            },
{
    let mut r: [Option<u32>; 16] = [None; 16];
    let mut i: usize = 0;
    while i < 16
        invariant
            i <= 16,
            forall|j: int|
                0 <= j < i ==> (#[trigger] r@[j]) == match constants@[j] {
                    Some(v) => Some(v as u32),
                    None => None,
                },
        decreases 16 - i,
    {
        r[i] = match constants[i] {
            Some(v) => Some(v as u32),
            None => None,
        };
        i = i + 1;
    }
    r
}

fn narrow_offsets(offsets: &[Option<i64>; 16]) -> (r: [Option<i32>; 16])
    ensures
        forall|i: int|
            0 <= i < 16 ==> (#[trigger] r@[i]) == match offsets@[i] {
                Some(v) => Some(v as i32),
                None => None,
            },
{
    let mut r: [Option<i32>; 16] = [None; 16];
    let mut i: usize = 0;
    while i < 16
        invariant
            i <= 16,
            forall|j: int|
                0 <= j < i ==> (#[trigger] r@[j]) == match offsets@[j] {
                    Some(v) => Some(v as i32),
                    None => None,
                },
        decreases 16 - i,
    {
        r[i] = match offsets[i] {
            Some(v) => Some(v as i32),
            None => None,
        };
        i = i + 1;
    }
    r
}

/// Cutting a host call's facts to a word keeps agreement.
proof fn narrowed_agreement<H: ContextWithValue<bool> + ?Sized>(
    regs: Seq<[H::Wrapped; 32]>,
    wide: Seq<Option<u64>>,
    constants: Seq<Option<u32>>,
)
    requires
        regs.len() == 16,
        wide.len() == 16,
        constants.len() == 16,
        forall|i: int|
            0 <= i < 16 ==> (#[trigger] constants[i]) == match wide[i] {
                Some(v) => Some(v as u32),
                None => None,
            },
        crate::handler::agree::<bool, H, 32>(regs, wide),
    ensures
        forall|i: int|
            0 <= i < 16 ==> ((#[trigger] constants[i]) matches Some(v) ==> crate::context::bits::<H>(
                regs[i]@,
            ) == crate::concrete::word(v)),
{
    assert forall|i: int| 0 <= i < 16 implies ((#[trigger] constants[i]) matches Some(v)
        ==> crate::context::bits::<H>(regs[i]@) == crate::concrete::word(v)) by {
        if constants[i] is Some {
            let v = wide[i]->0;
            assert(crate::handler::spells::<bool, H>(regs[i]@, v));
            crate::concrete::word_truncates(v);
            assert(crate::context::bits::<H>(regs[i]@) =~= crate::bits::bits_of(v as nat, 32));
        }
    }
}

} // verus!
