//! Logic, moves, shifts, products and status-register transfers.
use crate::concrete::fold;
use crate::context::{keep, ContextWithValue};
use crate::multiply::{concrete_product, multiply_word};
use crate::thumb::data::Fact;
use crate::thumb::machine::{
    emitted, Cpu, ErtError, Flag, FlagWire, Flow, Machine, FLAG_C, FLAG_Q,
};
use crate::thumb::op::{Arithmetic, Op, Operand, ShiftAmount, SP};
use crate::word::{
    add_bits, bitwise_word, invert_word, keep_word, partial_and_not_word, partial_bitwise_word,
    BitOp, ContextWithErtOps, Product, Shift,
};
use vstd::prelude::*;

verus! {

/// A word with its upper half replaced.
pub open spec fn with_top(word: Seq<bool>, immediate: u16) -> Seq<bool> {
    Seq::new(
        32,
        |i: int|
            if i < 16 {
                word[i]
            } else {
                crate::bits::bits_of(immediate as nat, 16)[i - 16]
            },
    )
}

/// The status register: N, Z, C, V and Q in its top bits.
pub open spec fn apsr(flags: Seq<bool>) -> Seq<bool> {
    Seq::new(32, |i: int| i >= 27 && flags[31 - i])
}

impl Cpu {
    /// A flag-setting compare, by addition or subtraction.
    pub open spec fn compare(self, left: Operand, right: Operand, add: bool) -> Cpu {
        let kind = if add {
            Arithmetic::Add
        } else {
            Arithmetic::Sub
        };
        let l = self.operand(left);
        let r = self.operand(right);
        let (result, carry, known) = self.sum(kind, l, r);
        self.sum_flags(kind, l.word, r.word, result, carry, known)
    }

    /// A result written, with N and Z where asked for.
    pub open spec fn result(self, dest: int, fact: Fact, set_flags: bool) -> Cpu {
        let written = self.write(dest, fact.word, fact.known);
        if set_flags {
            written.set_nz(fact.word, fact.known)
        } else {
            written
        }
    }

    /// The result of a bitwise operation. A constant that alone decides it
    /// makes it known.
    pub open spec fn bitwise(self, kind: BitOp, l: Fact, r: Fact) -> Fact {
        Fact {
            word: crate::word::bitwise_bits(kind, l.word, r.word),
            known: (l.known && r.known) || (l.known && crate::thumb::data::decides(kind, l.word))
                || (r.known && crate::thumb::data::decides(kind, r.word)),
        }
    }

    /// The bits of `l` that `r` does not have.
    pub open spec fn bit_clear(self, l: Fact, r: Fact) -> Fact {
        Fact {
            word: crate::bits::and_bits(l.word, crate::bits::complement(r.word)),
            known: (l.known && r.known) || (r.known && crate::thumb::data::ones(r.word)) || (l.known
                && crate::thumb::data::zeros(l.word)),
        }
    }

    /// Flags of a conjunction.
    pub open spec fn test(self, l: Fact, r: Fact) -> Cpu {
        self.set_nz(crate::bits::and_bits(l.word, r.word), l.known && r.known)
    }

    /// A move. A register's distance from the stack pointer moves along.
    pub open spec fn mov(self, dest: int, source: Operand, set_flags: bool) -> Cpu {
        let fact = self.operand(source);
        let written = self.write(dest, fact.word, fact.known);
        let moved = match source {
            Operand::Register(from) => Cpu {
                offsets: written.offsets.update(dest, written.offsets[from as int]),
                ..written
            },
            _ => written,
        };
        if set_flags {
            moved.set_nz(fact.word, fact.known)
        } else {
            moved
        }
    }

    /// The complement of an operand.
    pub open spec fn not(self, source: Operand) -> Fact {
        let fact = self.operand(source);
        Fact { word: crate::bits::complement(fact.word), known: fact.known }
    }

    /// The count of a shift, and whether the host knows it.
    pub open spec fn shift_count(self, amount: ShiftAmount) -> (nat, bool) {
        match amount {
            ShiftAmount::Immediate(n) => (n as nat, true),
            ShiftAmount::Register(r) => (
                crate::bits::num(self.regs[r as int]),
                self.known[r as int],
            ),
        }
    }

    /// The carry flag of a shift of `source` by `count`. A count of zero
    /// leaves the flag alone.
    pub open spec fn shift_carry(
        self,
        source: Fact,
        direction: Shift,
        count: nat,
        count_known: bool,
    ) -> Cpu {
        if count_known && count % 256 == 0 {
            self
        } else {
            self.set_flag(
                2,
                crate::arm_shift::arm_carry(source.word, count, direction, self.flags[2]),
                count_known && source.known,
            )
        }
    }

    /// A shift instruction.
    pub open spec fn shift(
        self,
        dest: int,
        source: int,
        direction: Shift,
        amount: ShiftAmount,
        set_flags: bool,
    ) -> Cpu {
        let fact = self.shifted(source, direction, amount);
        let (count, count_known) = self.shift_count(amount);
        let written = self.result(dest, fact, set_flags);
        if set_flags {
            written.shift_carry(self.register(source), direction, count, count_known)
        } else {
            written
        }
    }

    /// A product, with an accumulator added to it or the product taken from
    /// the accumulator.
    pub open spec fn multiply(
        self,
        left: int,
        right: int,
        add: Option<u8>,
        subtract: bool,
    ) -> Fact {
        let product = crate::multiply::product_bits(
            Product::Low,
            self.regs[left],
            self.regs[right],
        );
        let known = self.known[left] && self.known[right];
        match add {
            None => Fact { word: product, known },
            Some(a) => Fact {
                word: if subtract {
                    crate::bits::sub_of(self.regs[a as int], product)
                } else {
                    crate::bits::add_of(product, self.regs[a as int], false)
                },
                known: known && self.known[a as int],
            },
        }
    }

    /// A double-width product into two registers, the low one first.
    pub open spec fn long_multiply(
        self,
        dest_low: int,
        dest_high: int,
        left: int,
        right: int,
        signed: bool,
    ) -> Cpu {
        let known = self.known[left] && self.known[right];
        let view = if signed {
            Product::HighSigned
        } else {
            Product::HighUnsigned
        };
        self.write(
            dest_low,
            crate::multiply::product_bits(Product::Low, self.regs[left], self.regs[right]),
            known,
        ).write(
            dest_high,
            crate::multiply::product_bits(view, self.regs[left], self.regs[right]),
            known,
        )
    }

    /// Read the status register.
    pub open spec fn read_apsr(self, dest: int) -> Option<Cpu> {
        if dest >= 13 {
            None
        } else {
            Some(
                self.write(
                    dest,
                    apsr(self.flags),
                    self.flags_known[0] && self.flags_known[1] && self.flags_known[2]
                        && self.flags_known[3] && self.flags_known[4],
                ),
            )
        }
    }

    /// Write the status register.
    pub open spec fn write_apsr(self, source: int) -> Option<Cpu> {
        if source >= 13 {
            None
        } else {
            Some(
                Cpu {
                    flags: Seq::new(5, |i: int| self.regs[source][31 - i]),
                    flags_known: Seq::new(5, |i: int| self.known[source]),
                    ..self
                },
            )
        }
    }
}

proof fn bitwise_commutes(kind: BitOp, a: Seq<bool>, b: Seq<bool>)
    requires
        a.len() == b.len(),
    ensures
        crate::word::bitwise_bits(kind, a, b) == crate::word::bitwise_bits(kind, b, a),
{
    assert(crate::word::bitwise_bits(kind, a, b) =~= crate::word::bitwise_bits(kind, b, a));
}

/// The bits of the two words that decide bitwise operations.
proof fn extreme_words()
    ensures
        forall|i: int| 0 <= i < 32 ==> !#[trigger] crate::concrete::word(0)[i],
        forall|i: int| 0 <= i < 32 ==> #[trigger] crate::concrete::word(0xffff_ffff)[i],
{
    assert forall|i: int| 0 <= i < 32 implies !#[trigger] crate::concrete::word(0)[i] by {
        let k = i as u32;
        crate::concrete::word_bit(0, k);
        assert((0u32 >> k) & 1 == 0) by (bit_vector);
    }
    assert forall|i: int| 0 <= i < 32 implies #[trigger] crate::concrete::word(0xffff_ffff)[i] by {
        let k = i as u32;
        crate::concrete::word_bit(0xffff_ffff, k);
        assert(k < 32 ==> (0xffff_ffffu32 >> k) & 1 == 1) by (bit_vector);
    }
}

/// A deciding constant gives the same word whatever the other operand is.
proof fn decided(kind: BitOp, constant: Seq<bool>, other: Seq<bool>)
    requires
        crate::thumb::data::decides(kind, constant),
        other.len() == 32,
    ensures
        crate::word::bitwise_bits(kind, constant, other) == constant,
        crate::word::bitwise_bits(kind, other, constant) == constant,
{
    extreme_words();
    assert(crate::word::bitwise_bits(kind, constant, other) =~= constant);
    assert(crate::word::bitwise_bits(kind, other, constant) =~= constant);
}

/// A bit-clear with one deciding operand is zero.
proof fn cleared(l: Seq<bool>, r: Seq<bool>)
    requires
        l.len() == 32,
        r.len() == 32,
        crate::thumb::data::ones(r) || crate::thumb::data::zeros(l),
    ensures
        crate::bits::and_bits(l, crate::bits::complement(r)) == crate::concrete::word(0),
{
    extreme_words();
    assert(crate::bits::and_bits(l, crate::bits::complement(r)) =~= crate::concrete::word(0));
}

proof fn word_with_top(v: u32, immediate: u16)
    ensures
        crate::concrete::word((v & 0xffff) | ((immediate as u32) << 16)) == with_top(
            crate::concrete::word(v),
            immediate,
        ),
{
    let joined = (v & 0xffff) | ((immediate as u32) << 16);
    let left = crate::concrete::word(joined);
    let right = with_top(crate::concrete::word(v), immediate);
    assert forall|i: int| 0 <= i < 32 implies left[i] == right[i] by {
        let k = i as u32;
        crate::concrete::word_bit(joined, k);
        crate::concrete::word_bit(v, k);
        if k < 16 {
            assert((((v & 0xffff) | ((immediate as u32) << 16)) >> k) & 1 == (v >> k) & 1) by (bit_vector)
                requires
                    k < 16,
            ;
        } else {
            let j = (k - 16) as u32;
            crate::bits::shifted_bit(immediate as u64, j as u64);
            let up = immediate as u32;
            assert((((v & 0xffff) | (up << 16)) >> k) & 1 == (up >> j) & 1) by (bit_vector)
                requires
                    16 <= k < 32,
                    j == k - 16,
            ;
            assert(((immediate as u64) >> (j as u64)) & 1 == ((up >> j) & 1) as u64) by (bit_vector)
                requires
                    up == immediate as u32,
                    j < 16,
            ;
        }
    }
    assert(left =~= right);
}

/// The gates of a bit-clear, by what the host knows of its operands: none where
/// it knows the mask, one per set bit where it knows only the left operand, and
/// two per bit where it knows neither.
pub open spec fn cleared_gates(left: Option<u32>, right: Option<u32>) -> Seq<BitOp> {
    match (left, right) {
        (_, Some(_)) => Seq::empty(),
        (Some(a), None) => if a == 0 {
            Seq::empty()
        } else {
            crate::context::repeated(
                BitOp::Xor,
                crate::bits::set_bits(crate::bits::bits_of(a as nat, 32)),
            )
        },
        (None, None) => crate::context::repeated(BitOp::Xor, 32) + crate::context::repeated(
            BitOp::And,
            32,
        ),
    }
}

/// The gates of a bitwise operation, by what the host knows of its operands: one
/// per bit where it knows neither, and otherwise none but for one per set bit of
/// an exclusive-or's known operand.
pub open spec fn bitwise_gates(kind: BitOp, left: Option<u32>, right: Option<u32>) -> Seq<BitOp> {
    match (left, right) {
        (None, None) => crate::context::repeated(kind, 32),
        (Some(_), Some(_)) => Seq::empty(),
        (Some(a), None) => constant_gates(kind, a),
        (None, Some(b)) => constant_gates(kind, b),
    }
}

/// The gates of a bitwise operation with a constant.
pub open spec fn constant_gates(kind: BitOp, constant: u32) -> Seq<BitOp> {
    if kind == BitOp::Xor {
        crate::context::repeated(
            BitOp::Xor,
            crate::bits::set_bits(crate::bits::bits_of(constant as nat, 32)),
        )
    } else {
        Seq::empty()
    }
}

/// The gates of a register operation on unshifted operands, by what the host
/// knows of them. Whether it sets the flags makes no difference: a flag takes
/// gates only once it is read.
pub open spec fn data_gates<W>(m: Machine<'_, W>, op: Op) -> Option<Seq<BitOp>> {
    match op {
        Op::Move { source, .. } => if source is Shifted {
            None
        } else {
            Some(Seq::empty())
        },
        Op::Bitwise { kind, left, right, .. } => if left is Shifted || right is Shifted {
            None
        } else {
            Some(
                bitwise_gates(
                    kind,
                    crate::thumb::data::host_value(m, left),
                    crate::thumb::data::host_value(m, right),
                ),
            )
        },
        Op::BitClear { left, right, .. } => if left is Shifted || right is Shifted {
            None
        } else {
            Some(
                cleared_gates(
                    crate::thumb::data::host_value(m, left),
                    crate::thumb::data::host_value(m, right),
                ),
            )
        },
        Op::Test { left, right } => if left is Shifted || right is Shifted {
            None
        } else if crate::thumb::data::host_value(m, left) is Some && crate::thumb::data::host_value(
            m,
            right,
        ) is Some {
            Some(Seq::empty())
        } else {
            Some(crate::context::repeated(BitOp::And, 32))
        },
        Op::Arithmetic { kind, left, right, .. } => if left is Shifted || right is Shifted
            || crate::thumb::data::takes_carry(kind) {
            None
        } else {
            Some(
                crate::thumb::data::sum_gates(
                    kind,
                    crate::thumb::data::host_value(m, left),
                    crate::thumb::data::host_value(m, right),
                ),
            )
        },
        Op::Compare { left, right, add } => if left is Shifted || right is Shifted {
            None
        } else {
            Some(
                crate::thumb::data::sum_gates(
                    if add {
                        Arithmetic::Add
                    } else {
                        Arithmetic::Sub
                    },
                    crate::thumb::data::host_value(m, left),
                    crate::thumb::data::host_value(m, right),
                ),
            )
        },
        _ => None,
    }
}

impl<'m, W: Clone> Machine<'m, W> {
    /// Compare two operands by adding or subtracting them.
    pub fn compare<H>(
        &mut self,
        h: &mut H,
        left: Operand,
        right: Operand,
        add: bool,
        len: u32,
    ) -> (r: Result<
        Flow,
        ErtError<H::Error>,
    >) where H: ContextWithErtOps<bool> + ContextWithValue<bool, Wrapped = W> + ?Sized
        requires
            crate::thumb::op::operand_ok(left),
            crate::thumb::op::operand_ok(right),
            crate::thumb::machine::bounded(*old(self)),
        ensures
            r is Ok && !(left is Shifted) && !(right is Shifted) ==> crate::context::asked::<H>(
                old(h),
                final(h),
                crate::thumb::data::sum_gates(
                    if add {
                        Arithmetic::Add
                    } else {
                        Arithmetic::Sub
                    },
                    crate::thumb::data::host_value(*old(self), left),
                    crate::thumb::data::host_value(*old(self), right),
                ),
            ),
            crate::thumb::machine::framed(*old(self), *final(self)),
            crate::thumb::machine::live::<H>(*old(self)) ==> crate::thumb::data::data_step::<H>(
                *old(self),
                *final(self),
                r,
                len,
                Some(crate::thumb::machine::cpu::<H>(*old(self)).compare(left, right, add)),
            ),
            crate::context::reliable::<H>() ==> crate::thumb::flags::unemitted(r),
            r matches Err(ErtError::Emitted(error)) ==> crate::context::erred::<H>(error),
    {
        let ghost start = crate::thumb::machine::cpu::<H>(*self);
        let ghost l = start.operand(left);
        let ghost rr = start.operand(right);
        let (left_word, left_value) = self.operand(h, left)?;
        let (right_word, right_value) = self.operand(h, right)?;
        let zero = keep::<H>(&self.zero);
        let kind = if add {
            Arithmetic::Add
        } else {
            Arithmetic::Sub
        };
        let (result, carry_out, _) = self.sum(
            h,
            kind,
            &left_word,
            &right_word,
            left_value,
            right_value,
            &zero,
            Some(false),
        )?;
        if add {
            self.set_add_flags::<H>(
                &left_word,
                &right_word,
                &result,
                carry_out,
                left_value,
                right_value,
                Some(false),
            );
        } else {
            self.set_sub_flags::<H>(
                &left_word,
                &right_word,
                &result,
                carry_out,
                left_value,
                right_value,
                Some(true),
            );
        }
        Ok(self.next(len))
    }

    /// Write a result, and set N and Z where asked for.
    fn finish<H>(&mut self, dest: u8, word: [W; 32], value: Option<u32>, set_flags: bool) where
        H: ContextWithErtOps<bool> + ContextWithValue<bool, Wrapped = W> + ?Sized,

        requires
            dest < 16,
            crate::thumb::machine::bounded(*old(self)),
        ensures
            crate::thumb::machine::framed(*old(self), *final(self)),
            crate::thumb::machine::live::<H>(*old(self)) ==> forall|fact: Fact| #[trigger]
                crate::thumb::data::reads::<H>(word, value, fact) ==> {
                    &&& crate::thumb::machine::live::<H>(*final(self))
                    &&& crate::thumb::machine::cpu::<H>(*final(self))
                        == crate::thumb::machine::cpu::<H>(*old(self)).result(
                        dest as int,
                        fact,
                        set_flags,
                    )
                },
    {
        if set_flags {
            let result = keep_word::<H, 32>(&word);
            self.write::<H>(dest, word, value);
            self.set_nz::<H>(&result, value);
        } else {
            self.write::<H>(dest, word, value);
        }
    }

    /// AND, OR or XOR two operands, folding host-known ones.
    pub fn bitwise<H>(
        &mut self,
        h: &mut H,
        kind: BitOp,
        dest: u8,
        left: Operand,
        right: Operand,
        set_flags: bool,
        len: u32,
    ) -> (r: Result<
        Flow,
        ErtError<H::Error>,
    >) where H: ContextWithErtOps<bool> + ContextWithValue<bool, Wrapped = W> + ?Sized
        requires
            dest < 16,
            crate::thumb::op::operand_ok(left),
            crate::thumb::op::operand_ok(right),
            crate::thumb::machine::bounded(*old(self)),
        ensures
            r is Ok && !(left is Shifted) && !(right is Shifted) ==> crate::context::asked::<H>(
                old(h),
                final(h),
                bitwise_gates(
                    kind,
                    crate::thumb::data::host_value(*old(self), left),
                    crate::thumb::data::host_value(*old(self), right),
                ),
            ),
            crate::thumb::machine::framed(*old(self), *final(self)),
            crate::thumb::machine::live::<H>(*old(self)) ==> crate::thumb::data::data_step::<H>(
                *old(self),
                *final(self),
                r,
                len,
                Some(
                    crate::thumb::machine::cpu::<H>(*old(self)).result(
                        dest as int,
                        crate::thumb::machine::cpu::<H>(*old(self)).bitwise(
                            kind,
                            crate::thumb::machine::cpu::<H>(*old(self)).operand(left),
                            crate::thumb::machine::cpu::<H>(*old(self)).operand(right),
                        ),
                        set_flags,
                    ),
                ),
            ),
            crate::context::reliable::<H>() ==> crate::thumb::flags::unemitted(r),
            r matches Err(ErtError::Emitted(error)) ==> crate::context::erred::<H>(error),
    {
        let ghost start = crate::thumb::machine::cpu::<H>(*self);
        let ghost l = start.operand(left);
        let ghost rr = start.operand(right);
        let ghost fact = start.bitwise(kind, l, rr);
        let (left_word, left_value) = self.operand(h, left)?;
        let (right_word, right_value) = self.operand(h, right)?;
        proof {
            crate::context::asked_nothing::<H>(h);
        }
        let (word, value) = match (left_value, right_value) {
            (Some(a), Some(b)) => {
                proof {
                    crate::concrete::word_fold(kind, a, b);
                }
                let value: u32 = fold(kind, a, b);
                (self.word_from_constant::<H>(value), Some(value))
            },
            (Some(a), None) => self.bitwise_constant(h, kind, a, &right_word)?,
            (None, Some(b)) => {
                proof {
                    if crate::thumb::machine::live::<H>(*self) {
                        bitwise_commutes(kind, l.word, rr.word);
                    }
                }
                self.bitwise_constant(h, kind, b, &left_word)?
            },
            (None, None) => (emitted(bitwise_word(h, &left_word, &right_word, kind))?, None),
        };
        proof {
            if crate::thumb::machine::live::<H>(*self) {
                assert(crate::thumb::data::reads::<H>(word, value, fact));
            }
        }
        self.finish::<H>(dest, word, value, set_flags);
        Ok(self.next(len))
    }

    /// A bitwise operation with one host-known operand.
    fn bitwise_constant<H>(&self, h: &mut H, kind: BitOp, constant: u32, symbolic: &[W; 32]) -> (r:
        Result<([W; 32], Option<u32>), ErtError<H::Error>>) where
        H: ContextWithErtOps<bool> + ContextWithValue<bool, Wrapped = W> + ?Sized,

        ensures
            crate::word::constants::<H>(self.zero, self.one) ==> (r matches Ok((word, value))
                ==> crate::thumb::data::reads::<H>(
                word,
                value,
                Fact {
                    word: crate::word::bitwise_bits(
                        kind,
                        crate::concrete::word(constant),
                        crate::context::bits::<H>(symbolic@),
                    ),
                    known: crate::thumb::data::decides(kind, crate::concrete::word(constant)),
                },
            )),
            r is Ok ==> crate::context::asked::<H>(
                old(h),
                final(h),
                constant_gates(kind, constant),
            ),
            r is Err ==> crate::thumb::flags::emits(r),
            crate::context::reliable::<H>() ==> r is Ok,
            r matches Err(ErtError::Emitted(error)) ==> crate::context::erred::<H>(error),
    {
        proof {
            crate::context::asked_nothing::<H>(h);
            if constant != 0 && crate::concrete::word(constant) == crate::concrete::word(0) {
                crate::concrete::word_injective(constant, 0);
            }
            if constant != 0xffff_ffff && crate::concrete::word(constant) == crate::concrete::word(
                0xffff_ffff,
            ) {
                crate::concrete::word_injective(constant, 0xffff_ffff);
            }
        }
        if degenerate(kind, constant) {
            proof {
                decided(kind, crate::concrete::word(constant), crate::context::bits::<H>(symbolic@));
            }
            return Ok((self.word_from_constant::<H>(constant), Some(constant)));
        }
        let word = emitted(
            partial_bitwise_word(h, constant as u64, symbolic, &self.zero, &self.one, kind),
        )?;
        Ok((word, None))
    }

    /// Clear the bits of the right operand in the left one.
    pub fn bit_clear<H>(
        &mut self,
        h: &mut H,
        dest: u8,
        left: Operand,
        right: Operand,
        set_flags: bool,
        len: u32,
    ) -> (r: Result<
        Flow,
        ErtError<H::Error>,
    >) where H: ContextWithErtOps<bool> + ContextWithValue<bool, Wrapped = W> + ?Sized
        requires
            dest < 16,
            crate::thumb::op::operand_ok(left),
            crate::thumb::op::operand_ok(right),
            crate::thumb::machine::bounded(*old(self)),
        ensures
            !(left is Shifted) && !(right is Shifted) && r is Ok ==> crate::context::asked::<H>(
                old(h),
                final(h),
                cleared_gates(
                    crate::thumb::data::host_value(*old(self), left),
                    crate::thumb::data::host_value(*old(self), right),
                ),
            ),
            crate::thumb::machine::framed(*old(self), *final(self)),
            crate::thumb::machine::live::<H>(*old(self)) ==> crate::thumb::data::data_step::<H>(
                *old(self),
                *final(self),
                r,
                len,
                Some(
                    crate::thumb::machine::cpu::<H>(*old(self)).result(
                        dest as int,
                        crate::thumb::machine::cpu::<H>(*old(self)).bit_clear(
                            crate::thumb::machine::cpu::<H>(*old(self)).operand(left),
                            crate::thumb::machine::cpu::<H>(*old(self)).operand(right),
                        ),
                        set_flags,
                    ),
                ),
            ),
            crate::context::reliable::<H>() ==> crate::thumb::flags::unemitted(r),
            r matches Err(ErtError::Emitted(error)) ==> crate::context::erred::<H>(error),
    {
        let ghost start = crate::thumb::machine::cpu::<H>(*self);
        let ghost l = start.operand(left);
        let ghost rr = start.operand(right);
        let ghost fact = start.bit_clear(l, rr);
        let (left_word, left_value) = self.operand(h, left)?;
        let (right_word, right_value) = self.operand(h, right)?;
        proof {
            if crate::thumb::machine::live::<H>(*self) {
                if crate::thumb::data::ones(rr.word) || crate::thumb::data::zeros(l.word) {
                    cleared(l.word, rr.word);
                }
            }
        }
        let (word, value) = match (left_value, right_value) {
            (Some(a), Some(b)) => {
                proof {
                    crate::concrete::word_complement(b);
                    crate::concrete::word_fold(BitOp::And, a, !b);
                }
                let value: u32 = a & !b;
                (self.word_from_constant::<H>(value), Some(value))
            },
            (None, Some(b)) => {
                proof {
                    crate::concrete::word_complement(b);
                    if b != 0xffff_ffff && crate::thumb::data::ones(crate::concrete::word(b)) {
                        crate::concrete::word_injective(b, 0xffff_ffff);
                    }
                    if crate::thumb::machine::live::<H>(*self) {
                        bitwise_commutes(BitOp::And, l.word, crate::concrete::word(!b));
                    }
                }
                if b == 0xffff_ffff {
                    (self.word_from_constant::<H>(0), Some(0u32))
                } else {
                    (
                        emitted(
                            partial_bitwise_word(
                                h,
                                (!b) as u64,
                                &left_word,
                                &self.zero,
                                &self.one,
                                BitOp::And,
                            ),
                        )?,
                        None,
                    )
                }
            },
            (Some(a), None) => {
                proof {
                    if a != 0 && crate::thumb::data::zeros(crate::concrete::word(a)) {
                        crate::concrete::word_injective(a, 0);
                    }
                }
                if a == 0 {
                    (self.word_from_constant::<H>(0), Some(0u32))
                } else {
                    (
                        emitted(
                            partial_and_not_word(
                                h,
                                a as u64,
                                &right_word,
                                &self.zero,
                                &self.one,
                            ),
                        )?,
                        None,
                    )
                }
            },
            (None, None) => {
                let inverted = emitted(invert_word(h, &right_word, keep::<H>(&self.one)))?;
                let word = emitted(bitwise_word(h, &left_word, &inverted, BitOp::And))?;
                proof {
                    if H::logs() {
                        assert(crate::context::kinds((*old(h)).gates())
                            + crate::context::repeated(BitOp::Xor, 32)
                            + crate::context::repeated(BitOp::And, 32) =~= crate::context::kinds(
                            (*old(h)).gates(),
                        ) + (crate::context::repeated(BitOp::Xor, 32) + crate::context::repeated(
                            BitOp::And,
                            32,
                        )));
                    }
                }
                (word, None)
            },
        };
        proof {
            if H::logs() {
                assert(crate::context::kinds((*old(h)).gates()) =~= crate::context::kinds(
                    (*old(h)).gates(),
                ) + Seq::empty());
            }
            if crate::thumb::machine::live::<H>(*self) {
                assert(crate::thumb::data::reads::<H>(word, value, fact));
            }
        }
        self.finish::<H>(dest, word, value, set_flags);
        Ok(self.next(len))
    }

    /// Set the flags of a conjunction.
    pub fn test<H>(&mut self, h: &mut H, left: Operand, right: Operand, len: u32) -> (r: Result<
        Flow,
        ErtError<H::Error>,
    >) where H: ContextWithErtOps<bool> + ContextWithValue<bool, Wrapped = W> + ?Sized
        requires
            crate::thumb::op::operand_ok(left),
            crate::thumb::op::operand_ok(right),
            crate::thumb::machine::bounded(*old(self)),
        ensures
            r is Ok && !(left is Shifted) && !(right is Shifted) ==> crate::context::asked::<H>(
                old(h),
                final(h),
                if crate::thumb::data::host_value(*old(self), left) is Some
                    && crate::thumb::data::host_value(*old(self), right) is Some {
                    Seq::empty()
                } else {
                    crate::context::repeated(BitOp::And, 32)
                },
            ),
            crate::thumb::machine::framed(*old(self), *final(self)),
            crate::thumb::machine::live::<H>(*old(self)) ==> crate::thumb::data::data_step::<H>(
                *old(self),
                *final(self),
                r,
                len,
                Some(
                    crate::thumb::machine::cpu::<H>(*old(self)).test(
                        crate::thumb::machine::cpu::<H>(*old(self)).operand(left),
                        crate::thumb::machine::cpu::<H>(*old(self)).operand(right),
                    ),
                ),
            ),
            crate::context::reliable::<H>() ==> crate::thumb::flags::unemitted(r),
            r matches Err(ErtError::Emitted(error)) ==> crate::context::erred::<H>(error),
    {
        let (left_word, left_value) = self.operand(h, left)?;
        let (right_word, right_value) = self.operand(h, right)?;
        proof {
            crate::context::asked_nothing::<H>(h);
        }
        let (word, value) = match (left_value, right_value) {
            (Some(a), Some(b)) => {
                proof {
                    crate::concrete::word_fold(BitOp::And, a, b);
                }
                let value: u32 = a & b;
                (self.word_from_constant::<H>(value), Some(value))
            },
            _ => (emitted(bitwise_word(h, &left_word, &right_word, BitOp::And))?, None),
        };
        self.set_nz::<H>(&word, value);
        Ok(self.next(len))
    }

    /// Move an operand to a register.
    pub fn mov<H>(
        &mut self,
        h: &mut H,
        dest: u8,
        source: Operand,
        set_flags: bool,
        len: u32,
    ) -> (r: Result<
        Flow,
        ErtError<H::Error>,
    >) where H: ContextWithErtOps<bool> + ContextWithValue<bool, Wrapped = W> + ?Sized
        requires
            dest < 16,
            crate::thumb::op::operand_ok(source),
            crate::thumb::machine::bounded(*old(self)),
        ensures
            !(source is Shifted) ==> crate::word::untouched::<H>(old(h), final(h)),
            crate::thumb::machine::framed(*old(self), *final(self)),
            crate::thumb::machine::live::<H>(*old(self)) ==> crate::thumb::data::data_step::<H>(
                *old(self),
                *final(self),
                r,
                len,
                Some(crate::thumb::machine::cpu::<H>(*old(self)).mov(dest as int, source, set_flags)),
            ),
            crate::context::reliable::<H>() ==> crate::thumb::flags::unemitted(r),
            r matches Err(ErtError::Emitted(error)) ==> crate::context::erred::<H>(error),
    {
        let (word, value) = self.operand(h, source)?;
        let result = keep_word::<H, 32>(&word);
        self.write::<H>(dest, word, value);
        if let Operand::Register(from) = source {
            let offset = self.offsets[from as usize];
            self.set_offset::<H>(dest, offset);
        }
        if set_flags {
            self.set_nz::<H>(&result, value);
        }
        Ok(self.next(len))
    }

    /// Replace the upper half of a register.
    pub fn move_top<H>(&mut self, h: &mut H, dest: u8, immediate: u16, len: u32) -> (r: Result<
        Flow,
        ErtError<H::Error>,
    >) where H: ContextWithErtOps<bool> + ContextWithValue<bool, Wrapped = W> + ?Sized
        requires
            dest < 16,
            crate::thumb::machine::bounded(*old(self)),
        ensures
            crate::thumb::machine::framed(*old(self), *final(self)),
            crate::thumb::machine::live::<H>(*old(self)) ==> crate::thumb::data::data_step::<H>(
                *old(self),
                *final(self),
                r,
                len,
                Some(
                    crate::thumb::machine::cpu::<H>(*old(self)).write(
                        dest as int,
                        with_top(
                            crate::thumb::machine::cpu::<H>(*old(self)).regs[dest as int],
                            immediate,
                        ),
                        crate::thumb::machine::cpu::<H>(*old(self)).known[dest as int],
                    ),
                ),
            ),
            crate::context::reliable::<H>() ==> crate::thumb::flags::unemitted(r),
            r matches Err(ErtError::Emitted(error)) ==> crate::context::erred::<H>(error),
    {
        let mut word = keep_word::<H, 32>(&self.regs[dest as usize]);
        let ghost before = crate::context::bits::<H>(word@);
        let mut bit: usize = 16;
        while bit < 32
            invariant
                16 <= bit <= 32,
                crate::thumb::machine::live::<H>(*self) ==> forall|j: int|
                    0 <= j < 32 ==> crate::context::bit::<H>(#[trigger] word@[j]) == if 16 <= j < bit {
                        with_top(before, immediate)[j]
                    } else {
                        before[j]
                    },
            decreases 32 - bit,
        {
            proof {
                crate::bits::shifted_bit(immediate as u64, (bit - 16) as u64);
            }
            word[bit] = if ((immediate as u64) >> ((bit - 16) as u64)) & 1 == 0 {
                keep::<H>(&self.zero)
            } else {
                keep::<H>(&self.one)
            };
            bit = bit + 1;
        }
        let value = match self.constants[dest as usize] {
            Some(value) => {
                proof {
                    word_with_top(value, immediate);
                }
                Some((value & 0xffff) | ((immediate as u32) << 16))
            },
            None => None,
        };
        proof {
            if crate::thumb::machine::live::<H>(*self) {
                assert(crate::context::bits::<H>(word@) =~= with_top(before, immediate));
            }
        }
        self.write::<H>(dest, word, value);
        Ok(self.next(len))
    }

    /// Move the complement of an operand to a register.
    pub fn move_not<H>(
        &mut self,
        h: &mut H,
        dest: u8,
        source: Operand,
        set_flags: bool,
        len: u32,
    ) -> (r: Result<
        Flow,
        ErtError<H::Error>,
    >) where H: ContextWithErtOps<bool> + ContextWithValue<bool, Wrapped = W> + ?Sized
        requires
            dest < 16,
            crate::thumb::op::operand_ok(source),
            crate::thumb::machine::bounded(*old(self)),
        ensures
            crate::thumb::machine::framed(*old(self), *final(self)),
            crate::thumb::machine::live::<H>(*old(self)) ==> crate::thumb::data::data_step::<H>(
                *old(self),
                *final(self),
                r,
                len,
                Some(
                    crate::thumb::machine::cpu::<H>(*old(self)).result(
                        dest as int,
                        crate::thumb::machine::cpu::<H>(*old(self)).not(source),
                        set_flags,
                    ),
                ),
            ),
            crate::context::reliable::<H>() ==> crate::thumb::flags::unemitted(r),
            r matches Err(ErtError::Emitted(error)) ==> crate::context::erred::<H>(error),
    {
        let ghost fact = crate::thumb::machine::cpu::<H>(*self).not(source);
        let (word, value) = self.operand(h, source)?;
        let inverted = emitted(invert_word(h, &word, keep::<H>(&self.one)))?;
        let value = match value {
            Some(value) => {
                proof {
                    crate::concrete::word_complement(value);
                }
                Some(!value)
            },
            None => None,
        };
        proof {
            if crate::thumb::machine::live::<H>(*self) {
                assert(crate::thumb::data::reads::<H>(inverted, value, fact));
            }
        }
        self.finish::<H>(dest, inverted, value, set_flags);
        Ok(self.next(len))
    }

    /// Shift a register into another, with the carry of the shift.
    pub fn shift<H>(
        &mut self,
        h: &mut H,
        dest: u8,
        source: u8,
        direction: Shift,
        amount: ShiftAmount,
        set_flags: bool,
        len: u32,
    ) -> (r: Result<
        Flow,
        ErtError<H::Error>,
    >) where H: ContextWithErtOps<bool> + ContextWithValue<bool, Wrapped = W> + ?Sized
        requires
            dest < 16,
            source < 16,
            crate::thumb::op::amount_ok(amount),
            crate::thumb::machine::bounded(*old(self)),
        ensures
            crate::thumb::machine::framed(*old(self), *final(self)),
            crate::thumb::machine::live::<H>(*old(self)) ==> crate::thumb::data::data_step::<H>(
                *old(self),
                *final(self),
                r,
                len,
                Some(
                    crate::thumb::machine::cpu::<H>(*old(self)).shift(
                        dest as int,
                        source as int,
                        direction,
                        amount,
                        set_flags,
                    ),
                ),
            ),
            crate::context::reliable::<H>() ==> crate::thumb::flags::unemitted(r),
            r matches Err(ErtError::Emitted(error)) ==> crate::context::erred::<H>(error),
    {
        let ghost start = crate::thumb::machine::cpu::<H>(*self);
        let source_word = keep_word::<H, 32>(&self.regs[source as usize]);
        let source_value = self.constants[source as usize];
        let (count_word, count) = match amount {
            ShiftAmount::Immediate(n) => (self.word_from_constant::<H>(n), Some(n)),
            ShiftAmount::Register(r) => (
                keep_word::<H, 32>(&self.regs[r as usize]),
                self.constants[r as usize],
            ),
        };
        let (word, value) = self.shift_word(h, source, direction, amount)?;
        proof {
            if crate::thumb::machine::live::<H>(*self) {
                assert(crate::thumb::data::reads::<H>(
                    word,
                    value,
                    start.shifted(source as int, direction, amount),
                ));
                assert(crate::thumb::data::reads::<H>(
                    source_word,
                    source_value,
                    start.register(source as int),
                ));
                if count is Some {
                    crate::concrete::word_num(count->0);
                }
                assert(counts::<H>(count_word, count, start.shift_count(amount).0));
            }
        }
        self.finish::<H>(dest, word, value, set_flags);
        if set_flags {
            self.set_shift_carry(h, &source_word, source_value, direction, &count_word, count)?;
        }
        Ok(self.next(len))
    }

    /// Set C to the carry of a shift. Where the count is not known, the flag
    /// is lowered only when it is read.
    fn set_shift_carry<H>(
        &mut self,
        h: &mut H,
        source: &[W; 32],
        source_value: Option<u32>,
        direction: Shift,
        count_word: &[W; 32],
        count: Option<u32>,
    ) -> (r: Result<(), ErtError<H::Error>>) where
        H: ContextWithErtOps<bool> + ContextWithValue<bool, Wrapped = W> + ?Sized,

        requires
            crate::thumb::machine::bounded(*old(self)),
        ensures
            crate::thumb::machine::framed(*old(self), *final(self)),
            crate::thumb::machine::live::<H>(*old(self)) && r is Ok ==> forall|fact: Fact, places: nat|
                #![trigger crate::thumb::data::reads::<H>(*source, source_value, fact), counts::<H>(*count_word, count, places)]
                crate::thumb::data::reads::<H>(*source, source_value, fact) && counts::<H>(
                    *count_word,
                    count,
                    places,
                ) ==> {
                    &&& crate::thumb::machine::live::<H>(*final(self))
                    &&& crate::thumb::machine::cpu::<H>(*final(self))
                        == crate::thumb::machine::cpu::<H>(*old(self)).shift_carry(
                        fact,
                        direction,
                        places,
                        count is Some,
                    )
                },
            r is Err ==> crate::thumb::flags::emits(r),
            crate::context::reliable::<H>() ==> r is Ok,
            r matches Err(ErtError::Emitted(error)) ==> crate::context::erred::<H>(error),
    {
        let count: u32 = match count {
            Some(count) => count,
            None => {
                let old_carry = self.materialize_flag(h, FLAG_C)?;
                let flag = Flag {
                    wire: FlagWire::ShiftCarry {
                        source: keep_word::<H, 32>(source),
                        amount: keep_word::<H, 32>(count_word),
                        direction,
                        old: old_carry,
                    },
                    value: None,
                };
                self.set_flag::<H>(FLAG_C, flag);
                return Ok(());
            },
        };
        let raw: u32 = count % 256;
        if raw == 0 {
            return Ok(());
        }
        let position: Option<usize> = match direction {
            Shift::Left => if raw <= 32 {
                Some((32 - raw) as usize)
            } else {
                None
            },
            Shift::LogicalRight => if raw <= 32 {
                Some((raw - 1) as usize)
            } else {
                None
            },
            Shift::ArithmeticRight => if raw <= 32 {
                Some((raw - 1) as usize)
            } else {
                Some(31)
            },
            Shift::RotateRight => Some(((raw - 1) % 32) as usize),
        };
        let (wire, value) = match position {
            None => (
                keep::<H>(&self.zero),
                match source_value {
                    Some(_) => Some(false),
                    None => None,
                },
            ),
            Some(bit) => {
                let value = match source_value {
                    Some(value) => {
                        proof {
                            crate::concrete::word_bit(value, bit as u32);
                        }
                        Some((value >> (bit as u32)) & 1 != 0)
                    },
                    None => None,
                };
                proof {
                    assert(crate::context::bits::<H>(source@)[bit as int] == crate::context::bit::<
                        H,
                    >(source@[bit as int]));
                }
                (keep::<H>(&source[bit]), value)
            },
        };
        let flag = self.flag(wire, value);
        self.set_flag::<H>(FLAG_C, flag);
        Ok(())
    }

    /// Multiply two registers, with an optional accumulator.
    pub fn multiply<H>(
        &mut self,
        h: &mut H,
        dest: u8,
        left: u8,
        right: u8,
        add: Option<u8>,
        subtract: bool,
        set_flags: bool,
        len: u32,
    ) -> (r: Result<
        Flow,
        ErtError<H::Error>,
    >) where H: ContextWithErtOps<bool> + ContextWithValue<bool, Wrapped = W> + ?Sized
        requires
            dest < 16,
            left < 16,
            right < 16,
            add matches Some(a) ==> a < 16,
            crate::thumb::machine::bounded(*old(self)),
        ensures
            crate::thumb::machine::framed(*old(self), *final(self)),
            crate::thumb::machine::live::<H>(*old(self)) ==> crate::thumb::data::data_step::<H>(
                *old(self),
                *final(self),
                r,
                len,
                Some(
                    crate::thumb::machine::cpu::<H>(*old(self)).result(
                        dest as int,
                        crate::thumb::machine::cpu::<H>(*old(self)).multiply(
                            left as int,
                            right as int,
                            add,
                            subtract,
                        ),
                        set_flags,
                    ),
                ),
            ),
            crate::context::reliable::<H>() ==> crate::thumb::flags::unemitted(r),
            r matches Err(ErtError::Emitted(error)) ==> crate::context::erred::<H>(error),
    {
        let ghost fact = crate::thumb::machine::cpu::<H>(*self).multiply(
            left as int,
            right as int,
            add,
            subtract,
        );
        let left_value = self.constants[left as usize];
        let right_value = self.constants[right as usize];
        let product_value = match (left_value, right_value) {
            (Some(a), Some(b)) => Some(concrete_product(Product::Low, a, b)),
            _ => None,
        };
        let value = match (add, product_value) {
            (None, _) => product_value,
            (Some(a), Some(product)) => match self.constants[a as usize] {
                Some(add) => {
                    proof {
                        crate::concrete::word_difference(add, product, true);
                        crate::concrete::word_sum(product, add, false);
                        crate::concrete::wrapping_sum(product, add);
                    }
                    if subtract {
                        Some(add.wrapping_sub(product))
                    } else {
                        Some(product.wrapping_add(add))
                    }
                },
                None => None,
            },
            _ => None,
        };
        let word = match value {
            Some(value) => self.word_from_constant::<H>(value),
            None => {
                let product = emitted(
                    multiply_word(
                        h,
                        &self.regs[left as usize],
                        &self.regs[right as usize],
                        left_value,
                        right_value,
                        Product::Low,
                        &self.zero,
                        &self.one,
                    ),
                )?;
                match add {
                    None => product,
                    Some(a) => if subtract {
                        let inverted = emitted(invert_word(h, &product, keep::<H>(&self.one)))?;
                        emitted(
                            add_bits(
                                h,
                                &self.regs[a as usize],
                                &inverted,
                                keep::<H>(&self.one),
                            ),
                        )?
                    } else {
                        emitted(
                            add_bits(
                                h,
                                &product,
                                &self.regs[a as usize],
                                keep::<H>(&self.zero),
                            ),
                        )?
                    },
                }
            },
        };
        proof {
            if crate::thumb::machine::live::<H>(*self) {
                assert(crate::thumb::data::reads::<H>(word, value, fact));
            }
        }
        self.finish::<H>(dest, word, value, set_flags);
        Ok(self.next(len))
    }

    /// Multiply two registers into a double-width result.
    pub fn long_multiply<H>(
        &mut self,
        h: &mut H,
        dest_low: u8,
        dest_high: u8,
        left: u8,
        right: u8,
        signed: bool,
        len: u32,
    ) -> (r: Result<
        Flow,
        ErtError<H::Error>,
    >) where H: ContextWithErtOps<bool> + ContextWithValue<bool, Wrapped = W> + ?Sized
        requires
            dest_low < 16,
            dest_high < 16,
            left < 16,
            right < 16,
            crate::thumb::machine::bounded(*old(self)),
        ensures
            crate::thumb::machine::framed(*old(self), *final(self)),
            crate::thumb::machine::live::<H>(*old(self)) ==> crate::thumb::data::data_step::<H>(
                *old(self),
                *final(self),
                r,
                len,
                Some(
                    crate::thumb::machine::cpu::<H>(*old(self)).long_multiply(
                        dest_low as int,
                        dest_high as int,
                        left as int,
                        right as int,
                        signed,
                    ),
                ),
            ),
            crate::context::reliable::<H>() ==> crate::thumb::flags::unemitted(r),
            r matches Err(ErtError::Emitted(error)) ==> crate::context::erred::<H>(error),
    {
        let left_value = self.constants[left as usize];
        let right_value = self.constants[right as usize];
        let view = if signed {
            Product::HighSigned
        } else {
            Product::HighUnsigned
        };
        let high = emitted(
            multiply_word(
                h,
                &self.regs[left as usize],
                &self.regs[right as usize],
                left_value,
                right_value,
                view,
                &self.zero,
                &self.one,
            ),
        )?;
        let low = emitted(
            multiply_word(
                h,
                &self.regs[left as usize],
                &self.regs[right as usize],
                left_value,
                right_value,
                Product::Low,
                &self.zero,
                &self.one,
            ),
        )?;
        let (low_value, high_value) = match (left_value, right_value) {
            (Some(a), Some(b)) => (
                Some(concrete_product(Product::Low, a, b)),
                Some(concrete_product(view, a, b)),
            ),
            _ => (None, None),
        };
        self.write::<H>(dest_low, low, low_value);
        self.write::<H>(dest_high, high, high_value);
        Ok(self.next(len))
    }

    /// Read the status register into a register.
    pub fn read_apsr<H>(&mut self, h: &mut H, dest: u8, len: u32) -> (r: Result<
        Flow,
        ErtError<H::Error>,
    >) where H: ContextWithErtOps<bool> + ContextWithValue<bool, Wrapped = W> + ?Sized
        requires
            dest < 16,
            crate::thumb::machine::bounded(*old(self)),
        ensures
            crate::thumb::machine::framed(*old(self), *final(self)),
            crate::thumb::machine::live::<H>(*old(self)) ==> crate::thumb::data::data_step::<H>(
                *old(self),
                *final(self),
                r,
                len,
                crate::thumb::machine::cpu::<H>(*old(self)).read_apsr(dest as int),
            ),
            crate::context::reliable::<H>() ==> crate::thumb::flags::unemitted(r),
            r matches Err(ErtError::Emitted(error)) ==> crate::context::erred::<H>(error),
    {
        if dest >= SP {
            return Err(ErtError::Unexpected);
        }
        let ghost start = crate::thumb::machine::cpu::<H>(*self);
        let mut word = self.word_from_constant::<H>(0);
        let mut value: Option<u32> = Some(0);
        let mut offset: usize = 0;
        proof {
            extreme_words();
            if crate::thumb::machine::live::<H>(*old(self)) {
                assert forall|j: int| 0 <= j < 32 implies !crate::context::bit::<H>(
                    #[trigger] word@[j],
                ) by {
                    assert(crate::context::bits::<H>(word@)[j] == crate::concrete::word(0)[j]);
                }
            }
        }
        while offset <= FLAG_Q
            invariant
                offset <= 5,
                FLAG_Q == 4,
                crate::thumb::machine::framed(*old(self), *self),
                crate::thumb::machine::live::<H>(*old(self)) ==> {
                    &&& crate::thumb::machine::live::<H>(*self)
                    &&& crate::thumb::machine::cpu::<H>(*self) == start
                    &&& forall|j: int|
                        0 <= j < 32 ==> crate::context::bit::<H>(#[trigger] word@[j]) == (j > 31
                            - offset && start.flags[31 - j])
                    &&& (value is Some) == (forall|j: int|
                        0 <= j < offset ==> #[trigger] start.flags_known[j])
                    &&& value matches Some(v) ==> crate::context::bits::<H>(word@)
                        == crate::concrete::word(v)
                },
                start == crate::thumb::machine::cpu::<H>(*old(self)),
            decreases 5 - offset,
        {
            let ghost old_word = word@;
            let fact = self.flags[offset].value;
            let wire = self.materialize_flag(h, offset)?;
            word[31 - offset] = wire;
            let ghost old_value = value;
            value = match (value, fact) {
                (Some(value), Some(set)) => Some(
                    if set {
                        value | (1u32 << ((31 - offset) as u32))
                    } else {
                        value
                    },
                ),
                _ => None,
            };
            proof {
                if crate::thumb::machine::live::<H>(*old(self)) {
                    assert(start.flags_known[offset as int] == (fact is Some));
                    assert(fact matches Some(b) ==> b == start.flags[offset as int]);
                    if old_value is Some && fact is Some {
                        set_bit(old_value->0, (31 - offset) as u32);
                        let at = 31 - offset;
                        assert forall|j: int| 0 <= j < 32 implies crate::context::bits::<H>(word@)[j]
                            == crate::concrete::word(value->0)[j] by {
                            assert(crate::context::bits::<H>(old_word)[j] == crate::concrete::word(
                                old_value->0,
                            )[j]);
                        }
                        assert(crate::context::bits::<H>(word@) =~= crate::concrete::word(value->0));
                    }
                }
            }
            offset = offset + 1;
        }
        proof {
            if crate::thumb::machine::live::<H>(*old(self)) {
                assert(crate::context::bits::<H>(word@) =~= apsr(start.flags));
                assert(start.flags_known[0] && start.flags_known[1] && start.flags_known[2]
                    && start.flags_known[3] && start.flags_known[4] ==> forall|j: int|
                    0 <= j < 5 ==> #[trigger] start.flags_known[j]);
            }
        }
        self.write::<H>(dest, word, value);
        Ok(self.next(len))
    }

    /// Write the status register from a register.
    pub fn write_apsr<H>(&mut self, h: &mut H, source: u8, len: u32) -> (r: Result<
        Flow,
        ErtError<H::Error>,
    >) where H: ContextWithErtOps<bool> + ContextWithValue<bool, Wrapped = W> + ?Sized
        requires
            source < 16,
            crate::thumb::machine::bounded(*old(self)),
        ensures
            crate::thumb::machine::framed(*old(self), *final(self)),
            crate::thumb::machine::live::<H>(*old(self)) ==> crate::thumb::data::data_step::<H>(
                *old(self),
                *final(self),
                r,
                len,
                crate::thumb::machine::cpu::<H>(*old(self)).write_apsr(source as int),
            ),
            crate::context::reliable::<H>() ==> crate::thumb::flags::unemitted(r),
            r matches Err(ErtError::Emitted(error)) ==> crate::context::erred::<H>(error),
    {
        if source >= SP {
            return Err(ErtError::Unexpected);
        }
        let ghost start = crate::thumb::machine::cpu::<H>(*self);
        let word = keep_word::<H, 32>(&self.regs[source as usize]);
        let value = self.constants[source as usize];
        let mut offset: usize = 0;
        while offset <= FLAG_Q
            invariant
                offset <= 5,
                FLAG_Q == 4,
                source < 13,
                start == crate::thumb::machine::cpu::<H>(*old(self)),
                crate::thumb::machine::framed(*old(self), *self),
                crate::thumb::machine::live::<H>(*old(self)) ==> {
                    &&& crate::thumb::machine::live::<H>(*self)
                    &&& crate::context::bits::<H>(word@) == start.regs[source as int]
                    &&& (value is Some) == start.known[source as int]
                    &&& value matches Some(v) ==> start.regs[source as int]
                        == crate::concrete::word(v)
                    &&& crate::thumb::machine::cpu::<H>(*self) == (Cpu {
                        flags: crate::thumb::machine::cpu::<H>(*self).flags,
                        flags_known: crate::thumb::machine::cpu::<H>(*self).flags_known,
                        ..start
                    })
                    &&& forall|j: int|
                        0 <= j < offset ==> crate::thumb::machine::cpu::<H>(*self).flags[j]
                            == start.regs[source as int][31 - j]
                    &&& forall|j: int|
                        0 <= j < offset ==> crate::thumb::machine::cpu::<H>(*self).flags_known[j]
                            == start.known[source as int]
                },
            decreases 5 - offset,
        {
            let at: usize = 31 - offset;
            let fact = match value {
                Some(value) => {
                    proof {
                        crate::concrete::word_bit(value, at as u32);
                    }
                    Some((value >> (at as u32)) & 1 != 0)
                },
                None => None,
            };
            proof {
                assert(crate::context::bits::<H>(word@)[at as int] == crate::context::bit::<H>(
                    word@[at as int],
                ));
            }
            let flag = self.flag(keep::<H>(&word[at]), fact);
            self.set_flag::<H>(offset, flag);
            offset = offset + 1;
        }
        proof {
            if crate::thumb::machine::live::<H>(*old(self)) {
                let after = crate::thumb::machine::cpu::<H>(*self);
                let expected = start.write_apsr(source as int)->0;
                assert(after.flags =~= expected.flags);
                assert(after.flags_known =~= expected.flags_known);
            }
        }
        Ok(self.next(len))
    }

}

/// A shift count: a word of wires, the host's knowledge of it, and the number.
pub open spec fn counts<H: ContextWithValue<bool> + ?Sized>(
    word: [H::Wrapped; 32],
    count: Option<u32>,
    places: nat,
) -> bool {
    &&& crate::bits::num(crate::context::bits::<H>(word@)) == places
    &&& count matches Some(c) ==> c == places
}

/// Setting a bit of a number sets it in the word.
proof fn set_bit(v: u32, k: u32)
    requires
        k < 32,
    ensures
        forall|j: int|
            0 <= j < 32 ==> crate::concrete::word(v | (1u32 << k))[j] == (j == k
                || crate::concrete::word(v)[j]),
{
    let w = v | (1u32 << k);
    assert forall|j: int| 0 <= j < 32 implies crate::concrete::word(w)[j] == (j == k
        || crate::concrete::word(v)[j]) by {
        let i = j as u32;
        crate::concrete::word_bit(w, i);
        crate::concrete::word_bit(v, i);
        assert((((v | (1u32 << k)) >> i) & 1 == 1) == (i == k || (v >> i) & 1 == 1)) by (bit_vector)
            requires
                k < 32,
                i < 32,
        ;
    }
}

/// A constant that alone decides the result.
pub fn degenerate(operation: BitOp, constant: u32) -> (r: bool)
    ensures
        r == match operation {
            BitOp::And => constant == 0,
            BitOp::Or => constant == 0xffff_ffff,
            BitOp::Xor => false,
        },
{
    match operation {
        BitOp::And => constant == 0,
        BitOp::Or => constant == 0xffff_ffff,
        BitOp::Xor => false,
    }
}

} // verus!
