//! The RISC-V machine's state and what it means.
use crate::context::{ContextWithStorage, ContextWithValue};
use crate::memory::RawMemory;
use crate::rv::inst::DecodeError;
use crate::wide::{to_pattern, to_signed, truncate};
use crate::word::{known_word, ContextWithErtOps};
use vstd::prelude::*;

verus! {

/// An error while decoding or symbolically executing a program.
#[derive(Debug)]
pub enum ErtError<E> {
    /// The caller-supplied Boolean context or a callback returned this error.
    Emitted(E),
    /// The instruction image could not be decoded.
    Decode(DecodeError),
    /// The program is outside the supported, well-behaved instruction subset.
    Unexpected,
}

/// Errors of the context become errors of the machine.
pub fn emitted<T, E>(r: Result<T, E>) -> (q: Result<T, ErtError<E>>)
    ensures
        r matches Ok(v) ==> q == Ok::<T, ErtError<E>>(v),
        r matches Err(e) ==> q == Err::<T, ErtError<E>>(ErtError::Emitted(e)),
{
    match r {
        Ok(v) => Ok(v),
        Err(e) => Err(ErtError::Emitted(e)),
    }
}

/// Where an instruction goes.
#[derive(Clone, Copy, Debug, Eq, PartialEq, Structural)]
pub enum Flow {
    /// On at this address.
    Next(u64),
    /// Out of the program.
    Exit,
}

/// The zero register.
pub const ZERO: usize = 0;

/// The return address register.
pub const RA: u8 = 1;

/// The stack pointer.
pub const SP: usize = 2;

/// The symbolic machine. `rstack` is the private control stack of return
/// addresses, `rsp` its depth; `offs` says which registers hold an address at
/// a known distance from `sp`. Where there is a `predicate`, stores take
/// effect only under it.
pub struct Machine<'m, W, const BITS: usize> {
    pub mem: RawMemory<'m>,
    pub rstack: Vec<u64>,
    pub storage_bits: usize,
    pub pc: u64,
    pub regs: [[W; BITS]; 32],
    pub constants: [Option<u64>; 32],
    pub zero: W,
    pub one: W,
    pub sp: u64,
    pub stack_top: u64,
    pub rsp: usize,
    pub offs: [Option<i64>; 32],
    pub predicate: Option<W>,
    pub plain: bool,
}

/// What the state of a machine means.
#[verifier::ext_equal]
pub struct Hart {
    pub pc: u64,
    /// Thirty-two words.
    pub regs: Seq<Seq<bool>>,
    /// Which registers the host knows.
    pub known: Seq<bool>,
    /// The distance from `sp` of a register that holds a stack address.
    pub offs: Seq<Option<i64>>,
    pub sp: u64,
    pub rstack: Seq<u64>,
    pub rsp: int,
}

/// What does not change while a program runs.
pub struct Frame<'m> {
    pub mem: RawMemory<'m>,
    pub storage_bits: int,
    pub stack_top: u64,
    /// The width of a register.
    pub bits: nat,
    /// Whether stores take effect.
    pub active: bool,
    /// Whether only aligned instructions of four bytes are executed, and a
    /// jump through a register only as a return.
    pub plain: bool,
}

/// The words of a register file.
pub open spec fn words<H: ContextWithValue<bool> + ?Sized, const BITS: usize>(
    regs: Seq<[H::Wrapped; BITS]>,
) -> Seq<Seq<bool>> {
    Seq::new(regs.len(), |i: int| crate::context::bits::<H>(regs[i]@))
}

/// The meaning of a machine's state over the wires of `H`.
pub open spec fn hart<H: ContextWithValue<bool> + ?Sized, const BITS: usize>(
    m: Machine<'_, H::Wrapped, BITS>,
) -> Hart {
    Hart {
        pc: m.pc,
        regs: words::<H, BITS>(m.regs@),
        known: crate::thumb::machine::present(m.constants@),
        offs: m.offs@,
        sp: m.sp,
        rstack: m.rstack@,
        rsp: m.rsp as int,
    }
}

pub open spec fn frame<'m, H: ContextWithValue<bool> + ?Sized, const BITS: usize>(
    m: Machine<'m, H::Wrapped, BITS>,
) -> Frame<'m> {
    Frame {
        mem: m.mem,
        storage_bits: m.storage_bits as int,
        stack_top: m.stack_top,
        bits: BITS as nat,
        active: match m.predicate {
            Some(w) => crate::context::bit::<H>(w),
            None => true,
        },
        plain: m.plain,
    }
}

/// The bits of a number in a register of `bits` bits.
pub open spec fn spelled(v: u64, bits: nat) -> Seq<bool> {
    crate::bits::bits_of(v as nat, bits)
}

/// An address at a signed distance from another.
pub open spec fn at(base: u64, offset: i64) -> u64 {
    base.wrapping_add(crate::wide::pattern(offset))
}

/// Every host-known register is what the wires beside it spell.
pub open spec fn constants_agree<H: ContextWithValue<bool> + ?Sized, const BITS: usize>(
    regs: Seq<[H::Wrapped; BITS]>,
    constants: Seq<Option<u64>>,
) -> bool {
    forall|i: int|
        0 <= i < 32 ==> ((#[trigger] constants[i]) matches Some(v) ==> crate::wide::fits(
            v,
            BITS as nat,
        ) && crate::context::bits::<H>(regs[i]@) == spelled(v, BITS as nat))
}

/// Every register at a known distance from the stack pointer holds the
/// address at that distance.
pub open spec fn offsets_agree<H: ContextWithValue<bool> + ?Sized, const BITS: usize>(
    regs: Seq<[H::Wrapped; BITS]>,
    offs: Seq<Option<i64>>,
    sp: u64,
) -> bool {
    forall|i: int|
        0 <= i < 32 ==> ((#[trigger] offs[i]) matches Some(o) ==> crate::context::bits::<H>(
            regs[i]@,
        ) == spelled(at(sp, o), BITS as nat))
}

/// The machine's own bounds.
pub open spec fn bounded<W, const BITS: usize>(m: Machine<'_, W, BITS>) -> bool {
    &&& BITS == 32 || BITS == 64
    &&& m.rsp <= m.rstack@.len()
    &&& crate::wide::fits(m.sp, BITS as nat)
}

/// The context carries meaning, the two constants are constants, and every
/// host-known fact agrees with its wires.
pub open spec fn live<H: ContextWithValue<bool> + ?Sized, const BITS: usize>(
    m: Machine<'_, H::Wrapped, BITS>,
) -> bool where H::Wrapped: Clone {
    &&& crate::word::constants::<H>(m.zero, m.one)
    &&& constants_agree::<H, BITS>(m.regs@, m.constants@)
    &&& offsets_agree::<H, BITS>(m.regs@, m.offs@, m.sp)
}

/// What no instruction changes.
pub open spec fn framed<W, const BITS: usize>(
    before: Machine<'_, W, BITS>,
    after: Machine<'_, W, BITS>,
) -> bool {
    &&& after.mem == before.mem
    &&& after.storage_bits == before.storage_bits
    &&& after.stack_top == before.stack_top
    &&& after.zero == before.zero
    &&& after.one == before.one
    &&& after.predicate == before.predicate
    &&& after.plain == before.plain
    &&& after.rstack@.len() == before.rstack@.len()
    &&& bounded(after)
}

/// The constant wires and the store let the machine reach its virtual stack.
pub open spec fn ready<H: ContextWithStorage<bool> + ?Sized, const BITS: usize>(
    m: Machine<'_, <H as ContextWithValue<bool>>::Wrapped, BITS>,
    storage: &H::Storage,
) -> bool where <H as ContextWithValue<bool>>::Wrapped: Clone {
    crate::storage::reachable::<H>(storage, m.storage_bits as int, m.zero, m.one)
}

/// What one instruction does.
pub enum Step {
    /// It leaves this state and these storage cells, and goes on at `pc`.
    Next { hart: Hart, cells: Seq<bool>, pc: u64 },
    /// It exits in this state.
    Exit { hart: Hart, cells: Seq<bool> },
    /// It is outside the supported subset.
    Unexpected,
    /// It is malformed.
    Decode(DecodeError),
}

/// What an instruction did is `expected`. An error of the context may come in
/// the way; then nothing is said of the state.
pub open spec fn stepped<H: crate::rv::handler::RvHandler<bool, BITS> + ?Sized, const BITS: usize>(
    after: Machine<'_, H::Wrapped, BITS>,
    cells: Seq<bool>,
    r: Result<Flow, ErtError<H::Error>>,
    expected: Step,
) -> bool where H::Wrapped: Clone {
    match r {
        Ok(Flow::Next(pc)) => live::<H, BITS>(after) && expected == (Step::Next {
            hart: hart::<H, BITS>(after),
            cells,
            pc,
        }),
        Ok(Flow::Exit) => live::<H, BITS>(after) && expected == (Step::Exit {
            hart: hart::<H, BITS>(after),
            cells,
        }),
        Err(ErtError::Unexpected) => expected == Step::Unexpected,
        Err(ErtError::Decode(e)) => expected == Step::Decode(e),
        Err(ErtError::Emitted(error)) => !crate::rv::handler::unfailing::<H, BITS>()
            && crate::rv::handler::stems::<H, BITS>(error),
    }
}

impl Hart {
    /// A register write.
    pub open spec fn write(
        self,
        register: int,
        word: Seq<bool>,
        known: bool,
        offset: Option<i64>,
    ) -> Hart {
        Hart {
            regs: self.regs.update(register, word),
            known: self.known.update(register, known),
            offs: self.offs.update(register, offset),
            ..self
        }
    }

    /// The zero register is zero, and the stack pointer's register holds the
    /// stack pointer.
    pub open spec fn reset(self, bits: nat) -> Hart {
        self.write(0, spelled(0, bits), true, None).write(
            2,
            spelled(self.sp, bits),
            false,
            Some(0),
        )
    }

    /// A new stack pointer: every distance from it moves the other way.
    pub open spec fn adjust_sp(self, new_sp: u64, bits: nat) -> Hart {
        let delta = crate::wide::signed_of(new_sp.wrapping_sub(self.sp));
        Hart {
            sp: new_sp,
            offs: Seq::new(
                32,
                |i: int|
                    match self.offs[i] {
                        Some(offset) => Some(offset.wrapping_sub(delta)),
                        None => None,
                    },
            ),
            ..self
        }.write(2, spelled(new_sp, bits), false, Some(0))
    }

    /// The value of a register that the host knows.
    pub open spec fn value(self, register: int) -> Option<u64> {
        if self.known[register] {
            Some(crate::bits::num(self.regs[register]) as u64)
        } else {
            None
        }
    }
}

impl<'m, W: Clone, const BITS: usize> Machine<'m, W, BITS> {
    /// A symbolic constant of the machine.
    pub fn word_from_constant<H: ContextWithValue<bool, Wrapped = W> + ?Sized>(
        &self,
        value: u64,
    ) -> (r: [W; BITS])
        requires
            BITS <= 64,
        ensures
            crate::word::constants::<H>(self.zero, self.one) ==> crate::context::bits::<H>(r@)
                == spelled(value, BITS as nat),
    {
        known_word::<H, BITS>(&self.zero, &self.one, value)
    }

    /// Write a register. The stack pointer's holds the stack pointer again at
    /// the next instruction.
    pub fn write<H: ContextWithValue<bool, Wrapped = W> + ?Sized>(
        &mut self,
        register: u8,
        word: [W; BITS],
        value: Option<u64>,
        offset: Option<i64>,
    )
        requires
            register < 32,
            bounded(*old(self)),
        ensures
            framed(*old(self), *final(self)),
            hart::<H, BITS>(*final(self)) == hart::<H, BITS>(*old(self)).write(
                register as int,
                crate::context::bits::<H>(word@),
                value is Some,
                offset,
            ),
            live::<H, BITS>(*old(self)) && (value matches Some(v) ==> crate::wide::fits(
                v,
                BITS as nat,
            ) && crate::context::bits::<H>(word@) == spelled(v, BITS as nat)) && (offset matches Some(
                o,
            ) ==> crate::context::bits::<H>(word@) == spelled(at(old(self).sp, o), BITS as nat))
                ==> live::<H, BITS>(*final(self)),
            final(self).pc == old(self).pc,
            final(self).sp == old(self).sp,
    {
        let ghost before = hart::<H, BITS>(*self);
        self.offs[register as usize] = offset;
        self.regs[register as usize] = word;
        self.constants[register as usize] = value;
        proof {
            let after = hart::<H, BITS>(*self);
            let expected = before.write(
                register as int,
                crate::context::bits::<H>(word@),
                value is Some,
                offset,
            );
            assert(after.regs =~= expected.regs);
            assert(after.known =~= expected.known);
            assert(after.offs =~= expected.offs);
        }
    }

    /// Set the fixed registers.
    pub fn reset_fixed_registers<H: ContextWithValue<bool, Wrapped = W> + ?Sized>(&mut self)
        requires
            bounded(*old(self)),
        ensures
            framed(*old(self), *final(self)),
            live::<H, BITS>(*old(self)) ==> {
                &&& live::<H, BITS>(*final(self))
                &&& hart::<H, BITS>(*final(self)) == hart::<H, BITS>(*old(self)).reset(BITS as nat)
            },
            final(self).pc == old(self).pc,
    {
        let zero = self.word_from_constant::<H>(0);
        proof {
            crate::wide::low_spells(0, BITS as nat);
        }
        self.write::<H>(0, zero, Some(0), None);
        let sp = self.word_from_constant::<H>(self.sp);
        proof {
            assert(at(self.sp, 0) == self.sp);
        }
        self.write::<H>(2, sp, None, Some(0));
    }

    /// Move the stack pointer by a distance.
    pub fn adjust_sp<H: ContextWithValue<bool, Wrapped = W> + ?Sized>(&mut self, offset: i64)
        requires
            bounded(*old(self)),
        ensures
            framed(*old(self), *final(self)),
            live::<H, BITS>(*old(self)) ==> {
                &&& live::<H, BITS>(*final(self))
                &&& hart::<H, BITS>(*final(self)) == hart::<H, BITS>(*old(self)).adjust_sp(
                    crate::wide::low(at(old(self).sp, offset), BITS as nat),
                    BITS as nat,
                )
            },
            final(self).pc == old(self).pc,
    {
        let old_sp: u64 = self.sp;
        let new_sp: u64 = truncate::<BITS>(old_sp.wrapping_add(to_pattern(offset)));
        let delta: i64 = to_signed(new_sp.wrapping_sub(old_sp));
        proof {
            crate::wide::low_spells(at(old_sp, offset), BITS as nat);
        }
        self.sp = new_sp;
        let mut i: usize = 0;
        while i < 32
            invariant
                i <= 32,
                *self == (Machine { sp: new_sp, offs: self.offs, ..*old(self) }),
                forall|j: int|
                    0 <= j < 32 ==> (#[trigger] self.offs@[j]) == if j < i {
                        match old(self).offs@[j] {
                            Some(o) => Some(o.wrapping_sub(delta)),
                            None => None,
                        }
                    } else {
                        old(self).offs@[j]
                    },
            decreases 32 - i,
        {
            if let Some(o) = self.offs[i] {
                self.offs[i] = Some(o.wrapping_sub(delta));
            }
            i = i + 1;
        }
        let ghost moved = *self;
        proof {
            if live::<H, BITS>(*old(self)) {
                assert forall|j: int| 0 <= j < 32 implies ((#[trigger] self.offs@[j]) matches Some(o)
                    ==> crate::context::bits::<H>(self.regs@[j]@) == spelled(
                    at(new_sp, o),
                    BITS as nat,
                )) by {
                    if let Some(o) = old(self).offs@[j] {
                        moved_distance(old_sp, new_sp, o);
                        assert(crate::context::bits::<H>(old(self).regs@[j]@) == spelled(
                            at(old_sp, o),
                            BITS as nat,
                        ));
                    }
                }
                assert(live::<H, BITS>(*self));
            }
            assert(hart::<H, BITS>(moved).offs =~= Seq::new(
                32,
                |i: int|
                    match hart::<H, BITS>(*old(self)).offs[i] {
                        Some(offset) => Some(offset.wrapping_sub(delta)),
                        None => None,
                    },
            ));
        }
        let word = self.word_from_constant::<H>(new_sp);
        proof {
            assert(at(self.sp, 0) == self.sp);
        }
        self.write::<H>(2, word, None, Some(0));
    }

    /// The address behind an instruction.
    pub fn next(&self, len: u64) -> (r: u64)
        requires
            BITS == 32 || BITS == 64,
        ensures
            r == crate::wide::low(self.pc.wrapping_add(len), BITS as nat),
    {
        truncate::<BITS>(self.pc.wrapping_add(len))
    }

    /// The value of a register that the host knows is what its wires spell.
    pub proof fn known_value<H: ContextWithValue<bool, Wrapped = W> + ?Sized>(&self, register: int)
        requires
            BITS == 32 || BITS == 64,
            0 <= register < 32,
            constants_agree::<H, BITS>(self.regs@, self.constants@),
        ensures
            self.constants@[register] == hart::<H, BITS>(*self).value(register),
    {
        if let Some(v) = self.constants@[register] {
            crate::wide::low_spells(v, BITS as nat);
        }
    }
}

/// A register's distance from a stack pointer that moved.
proof fn moved_distance(old_sp: u64, new_sp: u64, o: i64)
    ensures
        at(new_sp, o.wrapping_sub(crate::wide::signed_of(new_sp.wrapping_sub(old_sp)))) == at(
            old_sp,
            o,
        ),
{
}

} // verus!
