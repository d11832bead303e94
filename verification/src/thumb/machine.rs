//! The Thumb machine: its symbolic state, what that state means, and the
//! primitive updates everything else is built from.
//!
//! The executable state is a register file of wires with host-known facts
//! beside them. Its meaning is a [`Cpu`]: plain bits, and which of them the
//! host knows.
use crate::context::{keep, ContextWithValue};
use crate::memory::RawMemory;
use crate::thumb::early_exit::{RecognizedSite, Site};
use crate::thumb::handler::SecurityState;
use crate::thumb::op::DecodeError;
use crate::word::{keep_word, known_word, ContextWithErtOps, Shift};
use vstd::prelude::*;

verus! {

/// An error while decoding or symbolically executing an Armv8-M program.
#[derive(Debug)]
pub enum ErtError<E> {
    /// The caller-provided Boolean context or hash callback returned this error.
    Emitted(E),
    /// The Thumb image could not be decoded.
    Decode(DecodeError),
    /// The program is outside the supported well-behaved subset.
    Unexpected,
}

/// Turn an error of the context into an error of the machine.
pub fn emitted<T, E>(r: Result<T, E>) -> (o: Result<T, ErtError<E>>)
    ensures
        o == match r {
            Ok(v) => Ok::<T, ErtError<E>>(v),
            Err(e) => Err(ErtError::Emitted(e)),
        },
{
    match r {
        Ok(v) => Ok(v),
        Err(e) => Err(ErtError::Emitted(e)),
    }
}

/// Where execution goes after an instruction.
#[derive(Clone, Copy, Debug, Eq, PartialEq, Structural)]
pub enum Flow {
    /// On to the instruction at this address.
    Next(u32),
    /// The program has exited.
    Exit,
}

/// A status flag: the wire that carries it, and its value where it is known.
#[derive(Clone)]
pub struct Flag<W> {
    pub wire: FlagWire<W>,
    pub value: Option<bool>,
}

/// A symbolic status bit which is lowered only when an instruction observes it.
///
/// Arithmetic already has a carry wire, but Z and V otherwise require a
/// reduction or a small Boolean circuit.  Keeping their inputs here means
/// ordinary flag-setting data instructions emit no gate for flags that nobody
/// reads.
#[derive(Clone)]
#[allow(inconsistent_fields)]
pub enum FlagWire<W> {
    /// The flag is this wire.
    Direct(W),
    /// The flag says that this word is zero.
    Zero([W; 32]),
    /// The flag is the signed overflow of a sum with these sign bits.
    AddOverflow { left: W, right: W, result: W },
    /// The flag is the signed overflow of a difference with these sign bits.
    SubOverflow { left: W, right: W, result: W },
    /// The flag is the carry of a shift by a register count.
    ShiftCarry { source: [W; 32], amount: [W; 32], direction: Shift, old: W },
}

pub const FLAG_N: usize = 0;

pub const FLAG_Z: usize = 1;

pub const FLAG_C: usize = 2;

pub const FLAG_V: usize = 3;

pub const FLAG_Q: usize = 4;

/// The symbolic machine. `rstack` is the private control stack of return
/// addresses, `rsp` its depth; `offsets` says which registers hold an address
/// at a known distance from `sp`.
pub struct Machine<'m, W> {
    pub mem: RawMemory<'m>,
    pub rstack: Vec<u32>,
    pub storage_bits: usize,
    pub pc: u32,
    pub regs: [[W; 32]; 16],
    pub constants: [Option<u32>; 16],
    pub zero: W,
    pub one: W,
    pub sp: u32,
    pub stack_top: u32,
    pub rsp: usize,
    pub offsets: [Option<i32>; 16],
    pub flags: [Flag<W>; 5],
    pub itstate: u8,
    pub security_state: SecurityState,
    pub loop_sites: [Option<RecognizedSite>; 8],
}

/// What the state of a machine means.
#[verifier::ext_equal]
pub struct Cpu {
    pub pc: u32,
    /// Sixteen words of thirty-two bits.
    pub regs: Seq<Seq<bool>>,
    /// Which registers the host knows.
    pub known: Seq<bool>,
    /// The distance from `sp` of a register that holds a stack address.
    pub offsets: Seq<Option<i32>>,
    /// N, Z, C, V and Q.
    pub flags: Seq<bool>,
    /// Which flags the host knows.
    pub flags_known: Seq<bool>,
    pub itstate: u8,
    pub sp: u32,
    pub rstack: Seq<u32>,
    pub rsp: int,
    pub security: SecurityState,
    pub sites: Seq<Option<Site>>,
}

/// The truth value of a status flag, lowered or not.
pub open spec fn wire_bit<H: ContextWithValue<bool> + ?Sized>(w: FlagWire<H::Wrapped>) -> bool {
    match w {
        FlagWire::Direct(w) => crate::context::bit::<H>(w),
        FlagWire::Zero(word) => crate::bits::num(crate::context::bits::<H>(word@)) == 0,
        FlagWire::AddOverflow { left, right, result } => crate::compare::add_overflows(
            crate::context::bit::<H>(left),
            crate::context::bit::<H>(right),
            crate::context::bit::<H>(result),
        ),
        FlagWire::SubOverflow { left, right, result } => crate::compare::subtract_overflows(
            crate::context::bit::<H>(left),
            crate::context::bit::<H>(right),
            crate::context::bit::<H>(result),
        ),
        FlagWire::ShiftCarry { source, amount, direction, old } => crate::arm_shift::arm_carry(
            crate::context::bits::<H>(source@),
            crate::bits::num(crate::context::bits::<H>(amount@)),
            direction,
            crate::context::bit::<H>(old),
        ),
    }
}

/// The words of a register file.
pub open spec fn words<H: ContextWithValue<bool> + ?Sized>(regs: Seq<[H::Wrapped; 32]>) -> Seq<
    Seq<bool>,
> {
    Seq::new(regs.len(), |i: int| crate::context::bits::<H>(regs[i]@))
}

/// Which entries hold a value.
pub open spec fn present<T>(values: Seq<Option<T>>) -> Seq<bool> {
    Seq::new(values.len(), |i: int| values[i] is Some)
}

pub open spec fn flag_bits<H: ContextWithValue<bool> + ?Sized>(flags: Seq<Flag<H::Wrapped>>) -> Seq<
    bool,
> {
    Seq::new(flags.len(), |i: int| wire_bit::<H>(flags[i].wire))
}

pub open spec fn flags_present<W>(flags: Seq<Flag<W>>) -> Seq<bool> {
    Seq::new(flags.len(), |i: int| flags[i].value is Some)
}

pub open spec fn site_views(sites: Seq<Option<RecognizedSite>>) -> Seq<Option<Site>> {
    Seq::new(
        sites.len(),
        |i: int|
            match sites[i] {
                Some(site) => Some(site@),
                None => None,
            },
    )
}

/// The meaning of a machine's state over the wires of `H`.
pub open spec fn cpu<H: ContextWithValue<bool> + ?Sized>(m: Machine<'_, H::Wrapped>) -> Cpu {
    Cpu {
        pc: m.pc,
        regs: words::<H>(m.regs@),
        known: present(m.constants@),
        offsets: m.offsets@,
        flags: flag_bits::<H>(m.flags@),
        flags_known: flags_present(m.flags@),
        itstate: m.itstate,
        sp: m.sp,
        rstack: m.rstack@,
        rsp: m.rsp as int,
        security: m.security_state,
        sites: site_views(m.loop_sites@),
    }
}

/// Every host-known register and flag is what the wires beside it say.
pub open spec fn agreeing<H: ContextWithValue<bool> + ?Sized>(m: Machine<'_, H::Wrapped>) -> bool {
    &&& forall|i: int|
        0 <= i < 16 ==> ((#[trigger] m.constants@[i]) matches Some(v) ==> crate::context::bits::<H>(
            m.regs@[i]@,
        ) == crate::concrete::word(v))
    &&& forall|i: int|
        0 <= i < 5 ==> ((#[trigger] m.flags@[i]).value matches Some(b) ==> wire_bit::<H>(
            m.flags@[i].wire,
        ) == b)
}

/// The machine's own bounds.
pub open spec fn bounded<W>(m: Machine<'_, W>) -> bool {
    &&& m.rsp <= m.rstack@.len()
    &&& forall|i: int|
        0 <= i < 8 ==> ((#[trigger] m.loop_sites@[i]) matches Some(site) ==> site.ok())
}

/// The context carries meaning, the two constants are constants, and every
/// host-known fact agrees with its wires.
pub open spec fn live<H: ContextWithValue<bool> + ?Sized>(m: Machine<'_, H::Wrapped>) -> bool where
    H::Wrapped: Clone,
 {
    &&& crate::word::constants::<H>(m.zero, m.one)
    &&& agreeing::<H>(m)
}

/// What no instruction changes.
pub open spec fn framed<W>(before: Machine<'_, W>, after: Machine<'_, W>) -> bool {
    &&& after.mem == before.mem
    &&& after.storage_bits == before.storage_bits
    &&& after.stack_top == before.stack_top
    &&& after.zero == before.zero
    &&& after.one == before.one
    &&& after.rstack@.len() == before.rstack@.len()
    &&& bounded(after)
}

/// A `Cpu` with sixteen words and five flags.
pub open spec fn shaped(c: Cpu) -> bool {
    &&& c.regs.len() == 16
    &&& c.known.len() == 16
    &&& c.offsets.len() == 16
    &&& c.flags.len() == 5
    &&& c.flags_known.len() == 5
    &&& c.sites.len() == 8
    &&& forall|i: int| 0 <= i < 16 ==> (#[trigger] c.regs[i]).len() == 32
}

/// What a machine's state means has that shape.
pub proof fn cpu_is_shaped<H: ContextWithValue<bool> + ?Sized>(m: Machine<'_, H::Wrapped>)
    ensures
        shaped(cpu::<H>(m)),
{
}

impl Cpu {
    /// A register write: the word, whether the host knows it, and no stack
    /// distance.
    pub open spec fn write(self, register: int, word: Seq<bool>, known: bool) -> Cpu {
        Cpu {
            regs: self.regs.update(register, word),
            known: self.known.update(register, known),
            offsets: self.offsets.update(register, None),
            ..self
        }
    }

    /// A write of a word the host knows.
    pub open spec fn write_constant(self, register: int, value: u32) -> Cpu {
        self.write(register, crate::concrete::word(value), true)
    }

    /// A flag write.
    pub open spec fn set_flag(self, index: int, bit: bool, known: bool) -> Cpu {
        Cpu {
            flags: self.flags.update(index, bit),
            flags_known: self.flags_known.update(index, known),
            ..self
        }
    }

    /// N and Z from a result.
    pub open spec fn set_nz(self, word: Seq<bool>, known: bool) -> Cpu {
        self.set_flag(0, word[31], known).set_flag(1, crate::bits::num(word) == 0, known)
    }

    /// A new stack pointer: every distance from it moves the other way.
    pub open spec fn adjust_sp(self, new_sp: u32) -> Cpu {
        let delta = new_sp.wrapping_sub(self.sp) as i32;
        Cpu {
            sp: new_sp,
            offsets: Seq::new(
                16,
                |i: int|
                    if i == 13 {
                        Some(0i32)
                    } else {
                        match self.offsets[i] {
                            Some(offset) => Some(offset.wrapping_sub(delta)),
                            None => None,
                        }
                    },
            ),
            known: self.known.update(13, false),
            regs: self.regs.update(13, crate::concrete::word(new_sp)),
            ..self
        }
    }
}

impl<'m, W: Clone> Machine<'m, W> {
    /// A symbolic constant of the machine.
    pub fn word_from_constant<H: ContextWithValue<bool, Wrapped = W> + ?Sized>(
        &self,
        value: u32,
    ) -> (r: [W; 32])
        ensures
            crate::word::constants::<H>(self.zero, self.one) ==> crate::context::bits::<H>(r@)
                == crate::concrete::word(value),
    {
        known_word::<H, 32>(&self.zero, &self.one, value as u64)
    }

    /// Write a register.
    pub fn write<H: ContextWithValue<bool, Wrapped = W> + ?Sized>(
        &mut self,
        register: u8,
        word: [W; 32],
        value: Option<u32>,
    )
        requires
            register < 16,
            bounded(*old(self)),
        ensures
            framed(*old(self), *final(self)),
            cpu::<H>(*final(self)) == cpu::<H>(*old(self)).write(
                register as int,
                crate::context::bits::<H>(word@),
                value is Some,
            ),
            agreeing::<H>(*old(self)) && (value matches Some(v) ==> crate::context::bits::<H>(word@)
                == crate::concrete::word(v)) ==> agreeing::<H>(*final(self)),
    {
        let ghost before = cpu::<H>(*self);
        self.offsets[register as usize] = None;
        self.regs[register as usize] = word;
        self.constants[register as usize] = value;
        proof {
            let after = cpu::<H>(*self);
            let expected = before.write(
                register as int,
                crate::context::bits::<H>(word@),
                value is Some,
            );
            assert(after.regs =~= expected.regs);
            assert(after.known =~= expected.known);
            assert(after.offsets =~= expected.offsets);
        }
    }

    /// Write a constant to a register.
    pub fn write_constant<H: ContextWithValue<bool, Wrapped = W> + ?Sized>(
        &mut self,
        register: u8,
        value: u32,
    )
        requires
            register < 16,
            bounded(*old(self)),
        ensures
            framed(*old(self), *final(self)),
            live::<H>(*old(self)) ==> {
                &&& live::<H>(*final(self))
                &&& cpu::<H>(*final(self)) == cpu::<H>(*old(self)).write_constant(
                    register as int,
                    value,
                )
            },
    {
        let word = self.word_from_constant::<H>(value);
        self.write::<H>(register, word, Some(value));
    }

    /// Record the distance of a register from the stack pointer.
    pub fn set_offset<H: ContextWithValue<bool, Wrapped = W> + ?Sized>(
        &mut self,
        register: u8,
        offset: Option<i32>,
    )
        requires
            register < 16,
            bounded(*old(self)),
        ensures
            framed(*old(self), *final(self)),
            cpu::<H>(*final(self)) == (Cpu {
                offsets: cpu::<H>(*old(self)).offsets.update(register as int, offset),
                ..cpu::<H>(*old(self))
            }),
            agreeing::<H>(*old(self)) ==> agreeing::<H>(*final(self)),
    {
        self.offsets[register as usize] = offset;
        proof {
            assert(cpu::<H>(*self).offsets =~= cpu::<H>(*old(self)).offsets.update(
                register as int,
                offset,
            ));
        }
    }

    /// Replace a flag.
    pub fn set_flag<H: ContextWithValue<bool, Wrapped = W> + ?Sized>(
        &mut self,
        index: usize,
        flag: Flag<W>,
    )
        requires
            index < 5,
            bounded(*old(self)),
        ensures
            framed(*old(self), *final(self)),
            cpu::<H>(*final(self)) == cpu::<H>(*old(self)).set_flag(
                index as int,
                wire_bit::<H>(flag.wire),
                flag.value is Some,
            ),
            agreeing::<H>(*old(self)) && (flag.value matches Some(b) ==> wire_bit::<H>(flag.wire)
                == b) ==> agreeing::<H>(*final(self)),
            final(self).flags@ == old(self).flags@.update(index as int, flag),
            final(self).regs == old(self).regs,
            final(self).constants == old(self).constants,
    {
        self.flags[index] = flag;
        proof {
            let after = cpu::<H>(*self);
            let expected = cpu::<H>(*old(self)).set_flag(
                index as int,
                wire_bit::<H>(flag.wire),
                flag.value is Some,
            );
            assert(after.flags =~= expected.flags);
            assert(after.flags_known =~= expected.flags_known);
        }
    }

    /// Move the stack pointer.
    pub fn adjust_sp<H: ContextWithValue<bool, Wrapped = W> + ?Sized>(&mut self, new_sp: u32)
        requires
            bounded(*old(self)),
        ensures
            framed(*old(self), *final(self)),
            live::<H>(*old(self)) ==> {
                &&& live::<H>(*final(self))
                &&& cpu::<H>(*final(self)) == cpu::<H>(*old(self)).adjust_sp(new_sp)
            },
    {
        let delta: i32 = new_sp.wrapping_sub(self.sp) as i32;
        self.sp = new_sp;
        let mut i: usize = 0;
        while i < 16
            invariant
                i <= 16,
                delta == new_sp.wrapping_sub(old(self).sp) as i32,
                *self == (Machine { sp: new_sp, offsets: self.offsets, ..*old(self) }),
                forall|j: int|
                    0 <= j < 16 ==> (#[trigger] self.offsets@[j]) == if j < i {
                        match old(self).offsets@[j] {
                            Some(offset) => Some(offset.wrapping_sub(delta)),
                            None => None,
                        }
                    } else {
                        old(self).offsets@[j]
                    },
            decreases 16 - i,
        {
            if let Some(offset) = self.offsets[i] {
                self.offsets[i] = Some(offset.wrapping_sub(delta));
            }
            i = i + 1;
        }
        self.offsets[13] = Some(0);
        self.constants[13] = None;
        let word = self.word_from_constant::<H>(new_sp);
        self.regs[13] = word;
        proof {
            if live::<H>(*old(self)) {
                let after = cpu::<H>(*self);
                let expected = cpu::<H>(*old(self)).adjust_sp(new_sp);
                assert(after.regs =~= expected.regs);
                assert(after.known =~= expected.known);
                assert(after.offsets =~= expected.offsets);
                assert(after =~= expected);
            }
        }
    }
}

/// A flag carried in the same way, by clones of the same wires.
pub open spec fn wire_cloned<W: Clone>(wire: FlagWire<W>, copy: FlagWire<W>) -> bool {
    match (wire, copy) {
        (FlagWire::Direct(a), FlagWire::Direct(b)) => cloned(a, b),
        (FlagWire::Zero(a), FlagWire::Zero(b)) => crate::word::word_cloned(a@, b@),
        (
            FlagWire::AddOverflow { left: a, right: b, result: c },
            FlagWire::AddOverflow { left: x, right: y, result: z },
        ) => cloned(a, x) && cloned(b, y) && cloned(c, z),
        (
            FlagWire::SubOverflow { left: a, right: b, result: c },
            FlagWire::SubOverflow { left: x, right: y, result: z },
        ) => cloned(a, x) && cloned(b, y) && cloned(c, z),
        (
            FlagWire::ShiftCarry { source: a, amount: b, direction: d, old: c },
            FlagWire::ShiftCarry { source: x, amount: y, direction: e, old: z },
        ) => crate::word::word_cloned(a@, x@) && crate::word::word_cloned(b@, y@) && d == e
            && cloned(c, z),
        _ => false,
    }
}

/// Clone a flag's wires.
pub fn keep_wire<H: ContextWithErtOps<bool> + ?Sized>(wire: &FlagWire<H::Wrapped>) -> (r: FlagWire<
    H::Wrapped,
>) where H::Wrapped: Clone
    ensures
        crate::context::sound::<H>() ==> wire_bit::<H>(r) == wire_bit::<H>(*wire),
        (r is Direct) == (*wire is Direct),
        wire_cloned(*wire, r),
{
    match wire {
        FlagWire::Direct(w) => FlagWire::Direct(keep::<H>(w)),
        FlagWire::Zero(word) => FlagWire::Zero(keep_word::<H, 32>(word)),
        FlagWire::AddOverflow { left, right, result } => FlagWire::AddOverflow {
            left: keep::<H>(left),
            right: keep::<H>(right),
            result: keep::<H>(result),
        },
        FlagWire::SubOverflow { left, right, result } => FlagWire::SubOverflow {
            left: keep::<H>(left),
            right: keep::<H>(right),
            result: keep::<H>(result),
        },
        FlagWire::ShiftCarry { source, amount, direction, old } => FlagWire::ShiftCarry {
            source: keep_word::<H, 32>(source),
            amount: keep_word::<H, 32>(amount),
            direction: *direction,
            old: keep::<H>(old),
        },
    }
}

/// What one instruction does.
pub enum Step {
    /// It leaves this state and these storage cells, and goes on at `pc`.
    Next { cpu: Cpu, cells: Seq<bool>, pc: u32 },
    /// It exits in this state.
    Exit { cpu: Cpu, cells: Seq<bool> },
    /// It is outside the supported subset.
    Unexpected,
    /// It is malformed.
    Decode(DecodeError),
}

/// What an instruction did is `expected`. An error of the context may come in
/// the way; then nothing is said of the state.
pub open spec fn stepped<H: ContextWithErtOps<bool> + ?Sized>(
    after: Machine<'_, H::Wrapped>,
    cells: Seq<bool>,
    r: Result<Flow, ErtError<H::Error>>,
    expected: Step,
) -> bool where H::Wrapped: Clone {
    match r {
        Ok(Flow::Next(pc)) => live::<H>(after) && expected == (Step::Next {
            cpu: cpu::<H>(after),
            cells,
            pc,
        }),
        Ok(Flow::Exit) => live::<H>(after) && expected == (Step::Exit {
            cpu: cpu::<H>(after),
            cells,
        }),
        Err(ErtError::Unexpected) => expected == Step::Unexpected,
        Err(ErtError::Decode(e)) => expected == Step::Decode(e),
        Err(ErtError::Emitted(_)) => true,
    }
}

/// The constant wires and the store let the machine reach its virtual stack.
pub open spec fn ready<H: crate::context::ContextWithStorage<bool> + ?Sized>(
    m: Machine<'_, <H as ContextWithValue<bool>>::Wrapped>,
    storage: &H::Storage,
) -> bool where <H as ContextWithValue<bool>>::Wrapped: Clone {
    crate::storage::reachable::<H>(storage, m.storage_bits as int, m.zero, m.one)
}

} // verus!
