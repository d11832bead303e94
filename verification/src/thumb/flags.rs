//! Status flags: lazily lowered wires, concrete facts, and conditions.
use crate::arm_shift::arm_runtime_shift_with_carry;
use crate::compare::{
    add_overflow, arm_condition, arm_condition_value, subtract_overflow, zero_word,
};
use crate::context::{keep, ContextWithValue};
use crate::thumb::machine::{
    emitted, keep_wire, ErtError, Flag, FlagWire, Machine, FLAG_C, FLAG_N, FLAG_V, FLAG_Z,
};
use crate::word::{keep_word, ContextWithErtOps};
use vstd::prelude::*;

verus! {

/// No error came from the context.
pub open spec fn unemitted<T, E>(r: Result<T, ErtError<E>>) -> bool {
    !(r matches Err(ErtError::Emitted(_)))
}

/// An error of the context, if any.
pub open spec fn emits<T, E>(r: Result<T, ErtError<E>>) -> bool {
    r matches Err(ErtError::Emitted(_))
}

/// The condition codes that exist.
pub open spec fn condition_known(c: crate::thumb::machine::Cpu, condition: u8) -> Option<
    Option<bool>,
> {
    crate::compare::arm_known(
        flag_fact(c, 0),
        flag_fact(c, 1),
        flag_fact(c, 2),
        flag_fact(c, 3),
        condition,
    )
}

/// What the host knows of a flag.
pub open spec fn flag_fact(c: crate::thumb::machine::Cpu, index: int) -> Option<bool> {
    if c.flags_known[index] {
        Some(c.flags[index])
    } else {
        None
    }
}

/// What a condition code says of the flags.
pub open spec fn condition_holds(c: crate::thumb::machine::Cpu, condition: u8) -> bool {
    crate::compare::arm_holds(c.flags[0], c.flags[1], c.flags[2], c.flags[3], condition)
}

impl crate::thumb::machine::Cpu {
    /// The four flags of a sum.
    pub open spec fn set_add_flags(
        self,
        left: Seq<bool>,
        right: Seq<bool>,
        result: Seq<bool>,
        carry: bool,
        known: bool,
    ) -> Self {
        self.set_nz(result, known).set_flag(2, carry, known).set_flag(
            3,
            crate::compare::add_overflows(left[31], right[31], result[31]),
            known,
        )
    }

    /// The four flags of a difference.
    pub open spec fn set_sub_flags(
        self,
        left: Seq<bool>,
        right: Seq<bool>,
        result: Seq<bool>,
        carry: bool,
        known: bool,
    ) -> Self {
        self.set_nz(result, known).set_flag(2, carry, known).set_flag(
            3,
            crate::compare::subtract_overflows(left[31], right[31], result[31]),
            known,
        )
    }
}

/// Where the host knows both operands and the carry in of a sum (or of a
/// difference), the operands are what it knows, and the result and the carry
/// out are theirs.
pub open spec fn totals<H: ContextWithValue<bool> + ?Sized>(
    left: [H::Wrapped; 32],
    right: [H::Wrapped; 32],
    result: [H::Wrapped; 32],
    carry_out: H::Wrapped,
    left_value: Option<u32>,
    right_value: Option<u32>,
    carry_in: Option<bool>,
    subtract: bool,
) -> bool {
    match (left_value, right_value, carry_in) {
        (Some(l), Some(r), Some(c)) => {
            let a = crate::concrete::word(l);
            let b = if subtract {
                crate::bits::complement(crate::concrete::word(r))
            } else {
                crate::concrete::word(r)
            };
            &&& crate::context::bits::<H>(left@) == a
            &&& crate::context::bits::<H>(right@) == crate::concrete::word(r)
            &&& crate::context::bits::<H>(result@) == crate::bits::add_of(a, b, c)
            &&& crate::context::bit::<H>(carry_out) == crate::bits::carry_of(a, b, c)
        },
        _ => true,
    }
}

/// The overflow of host-known operands, by their sign bits.
proof fn overflow_masks(left: u32, right: u32, result: u32)
    ensures
        (((left ^ result) & (right ^ result) & 0x8000_0000) != 0) == crate::compare::add_overflows(
            crate::concrete::word(left)[31],
            crate::concrete::word(right)[31],
            crate::concrete::word(result)[31],
        ),
        (((left ^ right) & (left ^ result) & 0x8000_0000) != 0)
            == crate::compare::subtract_overflows(
            crate::concrete::word(left)[31],
            crate::concrete::word(right)[31],
            crate::concrete::word(result)[31],
        ),
{
    crate::concrete::word_sign(left);
    crate::concrete::word_sign(right);
    crate::concrete::word_sign(result);
    assert((((left ^ result) & (right ^ result) & 0x8000_0000) != 0) == ((left >= 0x8000_0000) == (
    right >= 0x8000_0000) && (result >= 0x8000_0000) != (left >= 0x8000_0000)) && (((left ^ right) & (
    left ^ result) & 0x8000_0000) != 0) == ((left >= 0x8000_0000) != (right >= 0x8000_0000) && (result
        >= 0x8000_0000) != (left >= 0x8000_0000))) by (bit_vector);
}

/// Lower a flag to one wire, over the two constant wires.
pub fn lower_wire<H: ContextWithErtOps<bool> + ?Sized>(
    h: &mut H,
    wire: FlagWire<H::Wrapped>,
    zero: &H::Wrapped,
    one: &H::Wrapped,
) -> (r: Result<H::Wrapped, H::Error>) where H::Wrapped: Clone
    ensures
        crate::word::constants::<H>(*zero, *one) ==> (r matches Ok(w) ==> crate::context::bit::<H>(
            w,
        ) == crate::thumb::machine::wire_bit::<H>(wire)),
        crate::context::reliable::<H>() ==> r is Ok,
        r matches Err(error) ==> crate::context::erred::<H>(error),
{
    match wire {
        FlagWire::Direct(wire) => Ok(wire),
        FlagWire::Zero(word) => zero_word(h, &word, one),
        FlagWire::AddOverflow { left, right, result } => add_overflow(h, left, right, result),
        FlagWire::SubOverflow { left, right, result } => subtract_overflow(h, left, right, result),
        FlagWire::ShiftCarry { source, amount, direction, old } => {
            let (_, carry) = arm_runtime_shift_with_carry(
                h,
                &source,
                &amount,
                direction,
                zero,
                old,
            )?;
            Ok(carry)
        },
    }
}

impl<'m, W: Clone> Machine<'m, W> {
    /// A flag from a wire.
    pub fn flag(&self, wire: W, value: Option<bool>) -> (r: Flag<W>)
        ensures
            r == (Flag { wire: FlagWire::Direct(wire), value }),
    {
        Flag { wire: FlagWire::Direct(wire), value }
    }

    /// Lower a flag to one wire.
    pub fn materialize_wire<H>(&self, h: &mut H, wire: FlagWire<W>) -> (r: Result<
        W,
        ErtError<H::Error>,
    >) where H: ContextWithErtOps<bool> + ContextWithValue<bool, Wrapped = W> + ?Sized
        ensures
            crate::word::constants::<H>(self.zero, self.one) ==> (r matches Ok(w) ==>
                crate::context::bit::<H>(w) == crate::thumb::machine::wire_bit::<H>(wire)),
            r is Err ==> emits(r),
            crate::context::reliable::<H>() ==> r is Ok,
            r matches Err(ErtError::Emitted(error)) ==> crate::context::erred::<H>(error),
    {
        emitted(lower_wire(h, wire, &self.zero, &self.one))
    }

    /// Lower a flag of the machine, and keep it lowered.
    pub fn materialize_flag<H>(&mut self, h: &mut H, index: usize) -> (r: Result<
        W,
        ErtError<H::Error>,
    >) where H: ContextWithErtOps<bool> + ContextWithValue<bool, Wrapped = W> + ?Sized
        requires
            index < 5,
            crate::thumb::machine::bounded(*old(self)),
        ensures
            crate::thumb::machine::framed(*old(self), *final(self)),
            crate::thumb::machine::live::<H>(*old(self)) ==> (r matches Ok(w) ==> {
                &&& crate::context::bit::<H>(w) == crate::thumb::machine::cpu::<H>(
                    *old(self),
                ).flags[index as int]
                &&& crate::thumb::machine::cpu::<H>(*final(self)) == crate::thumb::machine::cpu::<H>(
                    *old(self),
                )
                &&& crate::thumb::machine::live::<H>(*final(self))
            }),
            final(self).flags@[index as int].value == old(self).flags@[index as int].value,
            r is Ok ==> final(self).flags@[index as int].wire is Direct,
            forall|j: int|
                0 <= j < 5 && j != index ==> #[trigger] final(self).flags@[j]
                    == old(self).flags@[j],
            r is Err ==> emits(r),
            crate::context::reliable::<H>() ==> r is Ok,
            r matches Err(ErtError::Emitted(error)) ==> crate::context::erred::<H>(error),
    {
        let kept = keep_wire::<H>(&self.flags[index].wire);
        let wire = self.materialize_wire(h, kept)?;
        let value = self.flags[index].value;
        let flag = Flag { wire: FlagWire::Direct(keep::<H>(&wire)), value };
        self.set_flag::<H>(index, flag);
        proof {
            if crate::thumb::machine::live::<H>(*old(self)) {
                let before = crate::thumb::machine::cpu::<H>(*old(self));
                let after = crate::thumb::machine::cpu::<H>(*self);
                assert(before.flags.update(index as int, before.flags[index as int])
                    =~= before.flags);
                assert(before.flags_known.update(index as int, before.flags_known[index as int])
                    =~= before.flags_known);
            }
        }
        Ok(wire)
    }

    /// Evaluate a condition from the flags the host knows.
    pub fn condition_value<E>(&self, condition: u8) -> (r: Result<Option<bool>, ErtError<E>>)
        ensures
            r == match crate::compare::arm_known(
                self.flags@[0].value,
                self.flags@[1].value,
                self.flags@[2].value,
                self.flags@[3].value,
                condition,
            ) {
                Some(v) => Ok::<Option<bool>, ErtError<E>>(v),
                None => Err(ErtError::Unexpected),
            },
    {
        let n = self.flags[FLAG_N].value;
        let z = self.flags[FLAG_Z].value;
        let c = self.flags[FLAG_C].value;
        let v = self.flags[FLAG_V].value;
        match arm_condition_value(n, z, c, v, condition) {
            Some(value) => Ok(value),
            None => Err(ErtError::Unexpected),
        }
    }

    /// Lower a condition to one wire.
    pub fn condition_wire<H>(&mut self, h: &mut H, condition: u8) -> (r: Result<
        W,
        ErtError<H::Error>,
    >) where H: ContextWithErtOps<bool> + ContextWithValue<bool, Wrapped = W> + ?Sized
        requires
            crate::thumb::machine::bounded(*old(self)),
        ensures
            crate::thumb::machine::framed(*old(self), *final(self)),
            crate::thumb::machine::live::<H>(*old(self)) ==> (r matches Ok(w) ==> {
                &&& crate::context::bit::<H>(w) == condition_holds(
                    crate::thumb::machine::cpu::<H>(*old(self)),
                    condition,
                )
                &&& crate::thumb::machine::cpu::<H>(*final(self)) == crate::thumb::machine::cpu::<H>(
                    *old(self),
                )
                &&& crate::thumb::machine::live::<H>(*final(self))
            }),
            crate::context::reliable::<H>() ==> unemitted(r),
            r matches Err(ErtError::Emitted(error)) ==> crate::context::erred::<H>(error),
            r matches Ok(_) ==> condition < 15,
            r matches Err(ErtError::Unexpected) ==> condition >= 15,
            !(r matches Err(ErtError::Decode(_))),
    {
        let n = self.materialize_flag(h, FLAG_N)?;
        let z = self.materialize_flag(h, FLAG_Z)?;
        let c = self.materialize_flag(h, FLAG_C)?;
        let v = self.materialize_flag(h, FLAG_V)?;
        match emitted(arm_condition(h, n, z, c, v, condition, &self.one))? {
            Some(wire) => Ok(wire),
            None => Err(ErtError::Unexpected),
        }
    }

    /// Set N and Z from a result.
    pub fn set_nz<H>(&mut self, word: &[W; 32], value: Option<u32>) where
        H: ContextWithErtOps<bool> + ContextWithValue<bool, Wrapped = W> + ?Sized,

        requires
            crate::thumb::machine::bounded(*old(self)),
        ensures
            crate::thumb::machine::framed(*old(self), *final(self)),
            crate::thumb::machine::live::<H>(*old(self)) && (value matches Some(v)
                ==> crate::context::bits::<H>(word@) == crate::concrete::word(v)) ==> {
                &&& crate::thumb::machine::live::<H>(*final(self))
                &&& crate::thumb::machine::cpu::<H>(*final(self)) == crate::thumb::machine::cpu::<H>(
                    *old(self),
                ).set_nz(crate::context::bits::<H>(word@), value is Some)
            },
            final(self).regs == old(self).regs,
            final(self).constants == old(self).constants,
    {
        let sign = match value {
            Some(value) => Some(value >= 0x8000_0000),
            None => None,
        };
        let negative = self.flag(keep::<H>(&word[31]), sign);
        let zero = match value {
            Some(value) => {
                let wire = if value == 0 {
                    keep::<H>(&self.one)
                } else {
                    keep::<H>(&self.zero)
                };
                self.flag(wire, Some(value == 0))
            },
            None => Flag { wire: FlagWire::Zero(keep_word::<H, 32>(word)), value: None },
        };
        proof {
            if value is Some {
                crate::concrete::word_sign(value->0);
                crate::concrete::word_num(value->0);
            }
            assert(crate::context::bits::<H>(word@)[31] == crate::context::bit::<H>(word@[31]));
        }
        self.set_flag::<H>(FLAG_N, negative);
        self.set_flag::<H>(FLAG_Z, zero);
    }

    /// Set the four flags of a sum with a carry in.
    pub fn set_add_flags<H>(
        &mut self,
        left: &[W; 32],
        right: &[W; 32],
        result: &[W; 32],
        carry_out: W,
        left_value: Option<u32>,
        right_value: Option<u32>,
        carry_in: Option<bool>,
    ) where H: ContextWithErtOps<bool> + ContextWithValue<bool, Wrapped = W> + ?Sized
        requires
            crate::thumb::machine::bounded(*old(self)),
        ensures
            crate::thumb::machine::framed(*old(self), *final(self)),
            crate::thumb::machine::live::<H>(*old(self)) && totals::<H>(
                *left,
                *right,
                *result,
                carry_out,
                left_value,
                right_value,
                carry_in,
                false,
            ) ==> {
                &&& crate::thumb::machine::live::<H>(*final(self))
                &&& crate::thumb::machine::cpu::<H>(*final(self)) == crate::thumb::machine::cpu::<H>(
                    *old(self),
                ).set_add_flags(
                    crate::context::bits::<H>(left@),
                    crate::context::bits::<H>(right@),
                    crate::context::bits::<H>(result@),
                    crate::context::bit::<H>(carry_out),
                    left_value is Some && right_value is Some && carry_in is Some,
                )
            },
    {
        let known = match (left_value, right_value, carry_in) {
            (Some(left), Some(right), Some(carry)) => {
                proof {
                    crate::concrete::word_sum(left, right, carry);
                    crate::concrete::wrapping_sum(left, right);
                    overflow_masks(left, right, crate::concrete::sum_value(left, right, carry));
                }
                let carried: u32 = if carry {
                    1
                } else {
                    0
                };
                let total: u32 = left.wrapping_add(right).wrapping_add(carried);
                let carries = (left as u64) + (right as u64) + (carried as u64) >= 0x1_0000_0000;
                let overflows = (left ^ total) & (right ^ total) & 0x8000_0000 != 0;
                Some((total, carries, overflows))
            },
            _ => None,
        };
        let (value, carry, overflow) = match known {
            Some((value, carry, overflow)) => (Some(value), Some(carry), Some(overflow)),
            None => (None, None, None),
        };
        self.set_nz::<H>(result, value);
        let carry_flag = self.flag(carry_out, carry);
        self.set_flag::<H>(FLAG_C, carry_flag);
        let overflow_flag = Flag {
            wire: FlagWire::AddOverflow {
                left: keep::<H>(&left[31]),
                right: keep::<H>(&right[31]),
                result: keep::<H>(&result[31]),
            },
            value: overflow,
        };
        proof {
            assert(crate::context::bits::<H>(left@)[31] == crate::context::bit::<H>(left@[31]));
            assert(crate::context::bits::<H>(right@)[31] == crate::context::bit::<H>(right@[31]));
            assert(crate::context::bits::<H>(result@)[31] == crate::context::bit::<H>(result@[31]));
        }
        self.set_flag::<H>(FLAG_V, overflow_flag);
    }

    /// Set the four flags of a difference with a carry (an inverted borrow) in.
    pub fn set_sub_flags<H>(
        &mut self,
        left: &[W; 32],
        right: &[W; 32],
        result: &[W; 32],
        carry_out: W,
        left_value: Option<u32>,
        right_value: Option<u32>,
        carry_in: Option<bool>,
    ) where H: ContextWithErtOps<bool> + ContextWithValue<bool, Wrapped = W> + ?Sized
        requires
            crate::thumb::machine::bounded(*old(self)),
        ensures
            crate::thumb::machine::framed(*old(self), *final(self)),
            crate::thumb::machine::live::<H>(*old(self)) && totals::<H>(
                *left,
                *right,
                *result,
                carry_out,
                left_value,
                right_value,
                carry_in,
                true,
            ) ==> {
                &&& crate::thumb::machine::live::<H>(*final(self))
                &&& crate::thumb::machine::cpu::<H>(*final(self)) == crate::thumb::machine::cpu::<H>(
                    *old(self),
                ).set_sub_flags(
                    crate::context::bits::<H>(left@),
                    crate::context::bits::<H>(right@),
                    crate::context::bits::<H>(result@),
                    crate::context::bit::<H>(carry_out),
                    left_value is Some && right_value is Some && carry_in is Some,
                )
            },
    {
        let known = match (left_value, right_value, carry_in) {
            (Some(left), Some(right), Some(carry)) => {
                proof {
                    crate::concrete::word_difference(left, right, carry);
                    overflow_masks(
                        left,
                        right,
                        crate::concrete::difference_value(left, right, carry),
                    );
                }
                let borrow: u32 = if carry {
                    0
                } else {
                    1
                };
                let total: u32 = left.wrapping_sub(right).wrapping_sub(borrow);
                let carries = (left as u64) >= (right as u64) + (borrow as u64);
                let overflows = (left ^ right) & (left ^ total) & 0x8000_0000 != 0;
                Some((total, carries, overflows))
            },
            _ => None,
        };
        let (value, carry, overflow) = match known {
            Some((value, carry, overflow)) => (Some(value), Some(carry), Some(overflow)),
            None => (None, None, None),
        };
        self.set_nz::<H>(result, value);
        let carry_flag = self.flag(carry_out, carry);
        self.set_flag::<H>(FLAG_C, carry_flag);
        let overflow_flag = Flag {
            wire: FlagWire::SubOverflow {
                left: keep::<H>(&left[31]),
                right: keep::<H>(&right[31]),
                result: keep::<H>(&result[31]),
            },
            value: overflow,
        };
        proof {
            assert(crate::context::bits::<H>(left@)[31] == crate::context::bit::<H>(left@[31]));
            assert(crate::context::bits::<H>(right@)[31] == crate::context::bit::<H>(right@[31]));
            assert(crate::context::bits::<H>(result@)[31] == crate::context::bit::<H>(result@[31]));
        }
        self.set_flag::<H>(FLAG_V, overflow_flag);
    }
}

} // verus!
