//! Data processing: operands, arithmetic, logic, shifts and products.
use crate::arm_shift::{arm_runtime_shift, arm_shift_count, concrete_shift};
use crate::context::{keep, ContextWithValue};
use crate::shift::shift_word as fixed_shift_word;
use crate::thumb::machine::{emitted, Cpu, ErtError, Flow, Machine, FLAG_C};
use crate::thumb::op::{Arithmetic, Operand, ShiftAmount, SP};
use crate::word::{
    add_bits_with_carry_out, invert_word, keep_word, BitOp, ContextWithErtOps, Shift,
};
use vstd::prelude::*;

verus! {

/// A word, and whether the host knows it.
pub struct Fact {
    pub word: Seq<bool>,
    pub known: bool,
}

/// A word of wires and its host-known value, if any, are what `fact` says.
pub open spec fn reads<H: ContextWithValue<bool> + ?Sized>(
    word: [H::Wrapped; 32],
    value: Option<u32>,
    fact: Fact,
) -> bool {
    &&& crate::context::bits::<H>(word@) == fact.word
    &&& (value is Some) == fact.known
    &&& value matches Some(v) ==> fact.word == crate::concrete::word(v)
}

/// The all-ones word.
pub open spec fn ones(word: Seq<bool>) -> bool {
    word == crate::concrete::word(0xffff_ffff)
}

/// The all-zeros word.
pub open spec fn zeros(word: Seq<bool>) -> bool {
    word == crate::concrete::word(0)
}

/// A constant that alone decides the result of a bitwise operation.
pub open spec fn decides(kind: BitOp, word: Seq<bool>) -> bool {
    match kind {
        BitOp::And => zeros(word),
        BitOp::Or => ones(word),
        BitOp::Xor => false,
    }
}

impl Cpu {
    /// A register, with what the host knows of it.
    pub open spec fn register(self, r: int) -> Fact {
        Fact { word: self.regs[r], known: self.known[r] }
    }

    /// A register shifted.
    pub open spec fn shifted(self, r: int, direction: Shift, amount: ShiftAmount) -> Fact {
        match amount {
            ShiftAmount::Immediate(n) => Fact {
                word: crate::word::shift_bits(
                    self.regs[r],
                    crate::shift::shift_amount(n, 32),
                    direction,
                ),
                known: self.known[r],
            },
            ShiftAmount::Register(by) => Fact {
                word: crate::arm_shift::arm_shifted(
                    self.regs[r],
                    crate::bits::num(self.regs[by as int]),
                    direction,
                ),
                known: self.known[r] && self.known[by as int],
            },
        }
    }

    /// A data operand.
    pub open spec fn operand(self, operand: Operand) -> Fact {
        match operand {
            Operand::Register(r) => self.register(r as int),
            Operand::Immediate(v) => Fact { word: crate::concrete::word(v), known: true },
            Operand::Shifted { register, shift, amount } => self.shifted(
                register as int,
                shift,
                amount,
            ),
        }
    }

    /// The word that an additive operation adds to, the word it adds, and the
    /// carry it adds.
    pub open spec fn addends(self, kind: Arithmetic, left: Seq<bool>, right: Seq<bool>) -> (
        Seq<bool>,
        Seq<bool>,
        bool,
    ) {
        match kind {
            Arithmetic::Add => (left, right, false),
            Arithmetic::AddCarry => (left, right, self.flags[2]),
            Arithmetic::Sub => (left, crate::bits::complement(right), true),
            Arithmetic::SubCarry => (left, crate::bits::complement(right), self.flags[2]),
            Arithmetic::ReverseSub => (right, crate::bits::complement(left), true),
        }
    }

    /// The result of an additive operation, its carry, and whether the host
    /// knows them.
    pub open spec fn sum(self, kind: Arithmetic, left: Fact, right: Fact) -> (Seq<bool>, bool, bool) {
        let (a, b, c) = self.addends(kind, left.word, right.word);
        (
            crate::bits::add_of(a, b, c),
            crate::bits::carry_of(a, b, c),
            left.known && right.known && (kind == Arithmetic::AddCarry || kind
                == Arithmetic::SubCarry ==> self.flags_known[2]),
        )
    }

    /// The stack pointer that an additive operation on it leaves, where the
    /// form is one of the two that may change it.
    pub open spec fn moved_sp(self, kind: Arithmetic, left: Operand, right: Operand) -> Option<u32> {
        match (kind, left, right) {
            (Arithmetic::Add, Operand::Register(r), Operand::Immediate(amount)) => if r == 13 {
                Some(self.sp.wrapping_add(amount))
            } else {
                None
            },
            (Arithmetic::Sub, Operand::Register(r), Operand::Immediate(amount)) => if r == 13 {
                Some(self.sp.wrapping_sub(amount))
            } else {
                None
            },
            _ => None,
        }
    }

    /// The stack distance of the result of an additive operation.
    pub open spec fn moved_offset(self, kind: Arithmetic, left: Operand, right: Operand) -> Option<
        i32,
    > {
        match (kind, left, right) {
            (
                Arithmetic::Add,
                Operand::Register(base),
                Operand::Immediate(offset),
            ) => match self.offsets[base as int] {
                Some(from) => Some(from.wrapping_add(offset as i32)),
                None => None,
            },
            (
                Arithmetic::Sub,
                Operand::Register(base),
                Operand::Immediate(offset),
            ) => match self.offsets[base as int] {
                Some(from) => Some(from.wrapping_sub(offset as i32)),
                None => None,
            },
            _ => None,
        }
    }

    /// The flags of an additive operation.
    pub open spec fn sum_flags(
        self,
        kind: Arithmetic,
        left: Seq<bool>,
        right: Seq<bool>,
        result: Seq<bool>,
        carry: bool,
        known: bool,
    ) -> Cpu {
        match kind {
            Arithmetic::Add | Arithmetic::AddCarry => self.set_add_flags(
                left,
                right,
                result,
                carry,
                known,
            ),
            Arithmetic::Sub | Arithmetic::SubCarry => self.set_sub_flags(
                left,
                right,
                result,
                carry,
                known,
            ),
            Arithmetic::ReverseSub => self.set_sub_flags(right, left, result, carry, known),
        }
    }

    /// An additive operation. The stack pointer changes only by a host-known
    /// amount; any other write to it is rejected.
    pub open spec fn arithmetic(
        self,
        kind: Arithmetic,
        dest: int,
        left: Operand,
        right: Operand,
        set_flags: bool,
    ) -> Option<Cpu> {
        let l = self.operand(left);
        let r = self.operand(right);
        let (result, carry, known) = self.sum(kind, l, r);
        let written = if dest == 13 {
            match self.moved_sp(kind, left, right) {
                Some(sp) => Some(self.adjust_sp(sp)),
                None => None,
            }
        } else {
            let stored = self.write(dest, result, known);
            Some(
                Cpu {
                    offsets: stored.offsets.update(dest, stored.moved_offset(kind, left, right)),
                    ..stored
                },
            )
        };
        match written {
            None => None,
            Some(c) => Some(
                if set_flags {
                    c.sum_flags(kind, l.word, r.word, result, carry, known)
                } else {
                    c
                },
            ),
        }
    }
}

/// The gates of a sum, by what the host knows of its operands: none where it
/// knows both.
pub open spec fn sum_gates(kind: Arithmetic, left: Option<u32>, right: Option<u32>) -> Seq<BitOp> {
    if left is Some && right is Some {
        Seq::empty()
    } else {
        match kind {
            Arithmetic::Add | Arithmetic::AddCarry => crate::word::adder_kinds(32),
            _ => crate::compare::subtract_kinds(32),
        }
    }
}

/// A sum takes the carry flag in.
pub open spec fn takes_carry(kind: Arithmetic) -> bool {
    kind == Arithmetic::AddCarry || kind == Arithmetic::SubCarry
}

/// What the host knows of an operand that needs no shift.
pub open spec fn host_value<W>(m: Machine<'_, W>, operand: Operand) -> Option<u32> {
    match operand {
        Operand::Register(register) => m.constants@[register as int],
        Operand::Immediate(value) => Some(value),
        Operand::Shifted { .. } => None,
    }
}

impl<'m, W: Clone> Machine<'m, W> {
    /// Go on to the next instruction.
    pub fn next(&self, len: u32) -> (r: Flow)
        ensures
            r == Flow::Next(self.pc.wrapping_add(len)),
    {
        Flow::Next(self.pc.wrapping_add(len))
    }

    /// Read a data operand.
    pub fn operand<H>(&self, h: &mut H, operand: Operand) -> (r: Result<
        ([W; 32], Option<u32>),
        ErtError<H::Error>,
    >) where H: ContextWithErtOps<bool> + ContextWithValue<bool, Wrapped = W> + ?Sized
        requires
            crate::thumb::op::operand_ok(operand),
        ensures
            !(operand is Shifted) ==> (r matches Ok((_, value)) && value == host_value(*self, operand)
                && crate::word::untouched::<H>(old(h), final(h))),
            crate::thumb::machine::live::<H>(*self) ==> (r matches Ok((word, value)) ==> reads::<H>(
                word,
                value,
                crate::thumb::machine::cpu::<H>(*self).operand(operand),
            )),
            r is Err ==> crate::thumb::flags::emits(r),
            crate::context::reliable::<H>() ==> r is Ok,
            r matches Err(ErtError::Emitted(error)) ==> crate::context::erred::<H>(error),
    {
        match operand {
            Operand::Register(register) => Ok(
                (
                    keep_word::<H, 32>(&self.regs[register as usize]),
                    self.constants[register as usize],
                ),
            ),
            Operand::Immediate(value) => Ok((self.word_from_constant::<H>(value), Some(value))),
            Operand::Shifted { register, shift, amount } => self.shift_word(
                h,
                register,
                shift,
                amount,
            ),
        }
    }

    /// Shift a register.
    pub fn shift_word<H>(
        &self,
        h: &mut H,
        register: u8,
        direction: Shift,
        amount: ShiftAmount,
    ) -> (r: Result<([W; 32], Option<u32>), ErtError<H::Error>>) where
        H: ContextWithErtOps<bool> + ContextWithValue<bool, Wrapped = W> + ?Sized,

        requires
            register < 16,
            crate::thumb::op::amount_ok(amount),
        ensures
            crate::thumb::machine::live::<H>(*self) ==> (r matches Ok((word, value)) ==> reads::<H>(
                word,
                value,
                crate::thumb::machine::cpu::<H>(*self).shifted(register as int, direction, amount),
            )),
            r is Err ==> crate::thumb::flags::emits(r),
            crate::context::reliable::<H>() ==> r is Ok,
            r matches Err(ErtError::Emitted(error)) ==> crate::context::erred::<H>(error),
    {
        let source = &self.regs[register as usize];
        let source_value = self.constants[register as usize];
        match amount {
            ShiftAmount::Immediate(count) => {
                let value = match source_value {
                    Some(value) => Some(concrete_shift(value, count, direction)),
                    None => None,
                };
                proof {
                    immediate_count(
                        crate::context::bits::<H>(source@),
                        count,
                        direction,
                    );
                }
                Ok((fixed_shift_word::<H, 32>(source, count, direction, &self.zero), value))
            },
            ShiftAmount::Register(by) => {
                match self.constants[by as usize] {
                    Some(count) => {
                        let value = match source_value {
                            Some(value) => Some(concrete_shift(value, count, direction)),
                            None => None,
                        };
                        proof {
                            crate::concrete::word_num(count);
                        }
                        let places: u32 = arm_shift_count(count, direction);
                        Ok(
                            (
                                fixed_shift_word::<H, 32>(source, places, direction, &self.zero),
                                value,
                            ),
                        )
                    },
                    None => {
                        let word = emitted(
                            arm_runtime_shift(
                                h,
                                source,
                                &self.regs[by as usize],
                                direction,
                                &self.zero,
                            ),
                        )?;
                        Ok((word, None))
                    },
                }
            },
        }
    }

    /// Add, subtract or reverse-subtract.
    pub fn arithmetic<H>(
        &mut self,
        h: &mut H,
        kind: Arithmetic,
        dest: u8,
        left: Operand,
        right: Operand,
        set_flags: bool,
        len: u32,
    ) -> (r: Result<Flow, ErtError<H::Error>>) where
        H: ContextWithErtOps<bool> + ContextWithValue<bool, Wrapped = W> + ?Sized,

        requires
            dest < 16,
            crate::thumb::op::operand_ok(left),
            crate::thumb::op::operand_ok(right),
            crate::thumb::machine::bounded(*old(self)),
        ensures
            r is Ok && !takes_carry(kind) && !(left is Shifted) && !(right is Shifted) ==> crate::context::asked::<H>(
                old(h),
                final(h),
                sum_gates(kind, host_value(*old(self), left), host_value(*old(self), right)),
            ),
            crate::thumb::machine::framed(*old(self), *final(self)),
            crate::thumb::machine::live::<H>(*old(self)) ==> data_step::<H>(
                *old(self),
                *final(self),
                r,
                len,
                crate::thumb::machine::cpu::<H>(*old(self)).arithmetic(
                    kind,
                    dest as int,
                    left,
                    right,
                    set_flags,
                ),
            ),
            crate::context::reliable::<H>() ==> crate::thumb::flags::unemitted(r),
            r matches Err(ErtError::Emitted(error)) ==> crate::context::erred::<H>(error),
    {
        let ghost start = crate::thumb::machine::cpu::<H>(*self);
        let ghost l = start.operand(left);
        let ghost rr = start.operand(right);
        let (left_word, left_value) = self.operand(h, left)?;
        let (right_word, right_value) = self.operand(h, right)?;
        let carry_kind = kind == Arithmetic::AddCarry || kind == Arithmetic::SubCarry;
        let (carry, carry_value) = if carry_kind {
            let wire = self.materialize_flag(h, FLAG_C)?;
            (wire, self.flags[FLAG_C].value)
        } else {
            (keep::<H>(&self.zero), Some(false))
        };
        proof {
            if crate::thumb::machine::live::<H>(*old(self)) && carry_kind {
                assert(crate::thumb::machine::cpu::<H>(*self).flags[2]
                    == crate::thumb::machine::wire_bit::<H>(self.flags@[2].wire));
                assert(carry_value matches Some(c) ==> c == start.flags[2]);
            }
        }
        let (word, carry_out, value) = self.sum(
            h,
            kind,
            &left_word,
            &right_word,
            left_value,
            right_value,
            &carry,
            carry_value,
        )?;
        let ghost (result, carried, known) = start.sum(kind, l, rr);
        if dest == SP {
            let new_sp: u32 = match (kind, left, right) {
                (Arithmetic::Add, Operand::Register(SP), Operand::Immediate(
                    amount,
                )) => self.sp.wrapping_add(amount),
                (Arithmetic::Sub, Operand::Register(SP), Operand::Immediate(
                    amount,
                )) => self.sp.wrapping_sub(amount),
                _ => return Err(ErtError::Unexpected),
            };
            self.adjust_sp::<H>(new_sp);
        } else {
            self.write::<H>(dest, keep_word::<H, 32>(&word), value);
            let offset = match (kind, left, right) {
                (
                    Arithmetic::Add,
                    Operand::Register(base),
                    Operand::Immediate(offset),
                ) => match self.offsets[base as usize] {
                    Some(from) => Some(from.wrapping_add(offset as i32)),
                    None => None,
                },
                (
                    Arithmetic::Sub,
                    Operand::Register(base),
                    Operand::Immediate(offset),
                ) => match self.offsets[base as usize] {
                    Some(from) => Some(from.wrapping_sub(offset as i32)),
                    None => None,
                },
                _ => None,
            };
            self.set_offset::<H>(dest, offset);
        }
        if set_flags {
            match kind {
                Arithmetic::Add | Arithmetic::AddCarry => self.set_add_flags::<H>(
                    &left_word,
                    &right_word,
                    &word,
                    carry_out,
                    left_value,
                    right_value,
                    carry_value,
                ),
                Arithmetic::Sub | Arithmetic::SubCarry => self.set_sub_flags::<H>(
                    &left_word,
                    &right_word,
                    &word,
                    carry_out,
                    left_value,
                    right_value,
                    if carry_kind {
                        carry_value
                    } else {
                        Some(true)
                    },
                ),
                Arithmetic::ReverseSub => self.set_sub_flags::<H>(
                    &right_word,
                    &left_word,
                    &word,
                    carry_out,
                    right_value,
                    left_value,
                    Some(true),
                ),
            }
        }
        Ok(self.next(len))
    }

    /// The sum of an additive operation: computed by the host where every
    /// input is known, else by an adder.
    pub fn sum<H>(
        &self,
        h: &mut H,
        kind: Arithmetic,
        left_word: &[W; 32],
        right_word: &[W; 32],
        left_value: Option<u32>,
        right_value: Option<u32>,
        carry: &W,
        carry_value: Option<bool>,
    ) -> (r: Result<([W; 32], W, Option<u32>), ErtError<H::Error>>) where
        H: ContextWithErtOps<bool> + ContextWithValue<bool, Wrapped = W> + ?Sized,

        ensures
            crate::thumb::machine::live::<H>(*self) ==> forall|l: Fact, rr: Fact|
                #![trigger reads::<H>(*left_word, left_value, l), reads::<H>(*right_word, right_value, rr)]
                reads::<H>(*left_word, left_value, l) && reads::<H>(*right_word, right_value, rr) && ((
                kind == Arithmetic::AddCarry || kind == Arithmetic::SubCarry) ==> {
                    &&& crate::context::bit::<H>(*carry) == crate::thumb::machine::cpu::<H>(
                        *self,
                    ).flags[2]
                    &&& (carry_value is Some) == crate::thumb::machine::cpu::<H>(
                        *self,
                    ).flags_known[2]
                    &&& carry_value matches Some(c) ==> c == crate::context::bit::<H>(*carry)
                }) ==> (r matches Ok((word, carry_out, value)) ==> {
                    let (result, carried, known) = crate::thumb::machine::cpu::<H>(*self).sum(
                        kind,
                        l,
                        rr,
                    );
                    &&& reads::<H>(word, value, Fact { word: result, known })
                    &&& crate::context::bit::<H>(carry_out) == carried
                }),
            r is Ok && !takes_carry(kind) ==> crate::context::asked::<H>(
                old(h),
                final(h),
                sum_gates(kind, left_value, right_value),
            ),
            r is Err ==> crate::thumb::flags::emits(r),
            crate::context::reliable::<H>() ==> r is Ok,
            r matches Err(ErtError::Emitted(error)) ==> crate::context::erred::<H>(error),
    {
        let known = match (left_value, right_value) {
            (Some(left), Some(right)) => {
                proof {
                    crate::concrete::word_sum(left, right, false);
                    crate::concrete::word_sum(left, right, true);
                    crate::concrete::wrapping_sum(left, right);
                    crate::concrete::word_difference(left, right, true);
                    crate::concrete::word_difference(left, right, false);
                    crate::concrete::word_difference(right, left, true);
                }
                match kind {
                    Arithmetic::Add => Some(
                        (
                            left.wrapping_add(right),
                            (left as u64) + (right as u64) >= 0x1_0000_0000,
                        ),
                    ),
                    Arithmetic::AddCarry => match carry_value {
                        Some(true) => Some(
                            (
                                left.wrapping_add(right).wrapping_add(1),
                                (left as u64) + (right as u64) + 1 >= 0x1_0000_0000,
                            ),
                        ),
                        Some(false) => Some(
                            (
                                left.wrapping_add(right),
                                (left as u64) + (right as u64) >= 0x1_0000_0000,
                            ),
                        ),
                        None => None,
                    },
                    Arithmetic::Sub => Some((left.wrapping_sub(right), left >= right)),
                    Arithmetic::SubCarry => match carry_value {
                        Some(true) => Some((left.wrapping_sub(right), left >= right)),
                        Some(false) => Some(
                            (left.wrapping_sub(right).wrapping_sub(1), left > right),
                        ),
                        None => None,
                    },
                    Arithmetic::ReverseSub => Some((right.wrapping_sub(left), right >= left)),
                }
            },
            _ => None,
        };
        proof {
            crate::context::asked_nothing::<H>(h);
        }
        if let Some((value, carries)) = known {
            let carry_out = if carries {
                keep::<H>(&self.one)
            } else {
                keep::<H>(&self.zero)
            };
            return Ok((self.word_from_constant::<H>(value), carry_out, Some(value)));
        }
        let (word, carry_out) = match kind {
            Arithmetic::Add => emitted(
                add_bits_with_carry_out(h, left_word, right_word, keep::<H>(&self.zero)),
            )?,
            Arithmetic::AddCarry => emitted(
                add_bits_with_carry_out(h, left_word, right_word, keep::<H>(carry)),
            )?,
            Arithmetic::Sub => {
                let inverted = emitted(invert_word(h, right_word, keep::<H>(&self.one)))?;
                emitted(add_bits_with_carry_out(h, left_word, &inverted, keep::<H>(&self.one)))?
            },
            Arithmetic::SubCarry => {
                let inverted = emitted(invert_word(h, right_word, keep::<H>(&self.one)))?;
                emitted(add_bits_with_carry_out(h, left_word, &inverted, keep::<H>(carry)))?
            },
            Arithmetic::ReverseSub => {
                let inverted = emitted(invert_word(h, left_word, keep::<H>(&self.one)))?;
                emitted(add_bits_with_carry_out(h, right_word, &inverted, keep::<H>(&self.one)))?
            },
        };
        proof {
            if H::logs() {
                let a = crate::context::repeated(BitOp::Xor, 32);
                let b = crate::word::adder_kinds(32);
                let first = crate::context::kinds((*old(h)).gates());
                assert(first + a + b =~= first + (a + b));
            }
        }
        Ok((word, carry_out, None))
    }
}

/// What a data instruction did: the state it left and the next address, or a
/// rejection.
pub open spec fn data_step<H: ContextWithErtOps<bool> + ?Sized>(
    before: Machine<'_, H::Wrapped>,
    after: Machine<'_, H::Wrapped>,
    r: Result<Flow, ErtError<H::Error>>,
    len: u32,
    expected: Option<Cpu>,
) -> bool where H::Wrapped: Clone {
    match r {
        Ok(flow) => {
            &&& crate::thumb::machine::live::<H>(after)
            &&& Some(crate::thumb::machine::cpu::<H>(after)) == expected
            &&& flow == Flow::Next(before.pc.wrapping_add(len))
        },
        Err(ErtError::Unexpected) => expected is None,
        Err(ErtError::Decode(_)) => false,
        Err(ErtError::Emitted(_)) => true,
    }
}

/// An immediate shift stays within the word, where both shift rules agree.
proof fn immediate_count(b: Seq<bool>, count: u32, direction: Shift)
    requires
        count <= 32,
        b.len() == 32,
    ensures
        crate::arm_shift::arm_shifted(b, count as nat, direction) == crate::word::shift_bits(
            b,
            crate::shift::shift_amount(count, 32),
            direction,
        ),
{
    if direction == Shift::RotateRight && count == 32 {
        assert(crate::word::shift_bits(b, 0, direction) =~= crate::word::shift_bits(
            b,
            32,
            direction,
        ));
    }
}

} // verus!
