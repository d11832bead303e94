//! Shifts by the Arm register-count rules: the count is the low byte of a
//! register, and counts beyond the width saturate instead of wrapping.
use crate::concrete;
use crate::context::keep;
use crate::shift;
use crate::word::{keep_word, select_word, ContextWithErtOps, ErtSelectEmitter, Shift};
use vstd::arithmetic::power2::*;
use vstd::prelude::*;

verus! {

/// The number of places that a register count shifts a 32-bit word.
pub open spec fn arm_count(count: nat, direction: Shift) -> nat {
    if direction == Shift::RotateRight {
        count % 32
    } else if count % 256 < 32 {
        count % 256
    } else {
        32
    }
}

/// A 32-bit word shifted by a register count.
pub open spec fn arm_shifted(b: Seq<bool>, count: nat, direction: Shift) -> Seq<bool> {
    crate::word::shift_bits(b, arm_count(count, direction), direction)
}

/// The carry that a shift by a register count leaves: the last bit shifted
/// out, or the old carry where nothing is shifted.
pub open spec fn arm_carry(b: Seq<bool>, count: nat, direction: Shift, old_carry: bool) -> bool {
    let c = count % 256;
    if c == 0 {
        old_carry
    } else {
        match direction {
            Shift::Left => c <= 32 && b[32 - c],
            Shift::LogicalRight => c <= 32 && b[c - 1],
            Shift::ArithmeticRight => if c <= 32 {
                b[c - 1]
            } else {
                b[31]
            },
            Shift::RotateRight => b[(c - 1) % 32],
        }
    }
}

/// The places that a host-known register count shifts.
pub fn arm_shift_count(amount: u32, direction: Shift) -> (r: u32)
    ensures
        r == arm_count(amount as nat, direction),
{
    match direction {
        Shift::RotateRight => amount % 32,
        _ => {
            let count: u32 = amount % 256;
            if count < 32 {
                count
            } else {
                32
            }
        },
    }
}

/// Shift a host-known word by a host-known register count.
pub fn concrete_shift(value: u32, amount: u32, direction: Shift) -> (r: u32)
    ensures
        concrete::word(r) == arm_shifted(concrete::word(value), amount as nat, direction),
{
    let count: u32 = arm_shift_count(amount, direction);
    proof {
        word_shift(value, count, direction);
    }
    match direction {
        Shift::Left => if count == 32 {
            0
        } else {
            value << count
        },
        Shift::LogicalRight => if count == 32 {
            0
        } else {
            value >> count
        },
        Shift::ArithmeticRight => if count == 32 {
            ((value as i32) >> 31) as u32
        } else {
            ((value as i32) >> count) as u32
        },
        Shift::RotateRight => crate::thumb::decode::rotate_right(value, count),
    }
}

/// A host-known word shifted by a host-known number of places.
pub open spec fn shift_value(v: u32, k: u32, direction: Shift) -> u32 {
    match direction {
        Shift::Left => if k == 32 {
            0
        } else {
            v << k
        },
        Shift::LogicalRight => if k == 32 {
            0
        } else {
            v >> k
        },
        Shift::ArithmeticRight => if k == 32 {
            ((v as i32) >> 31u32) as u32
        } else {
            ((v as i32) >> k) as u32
        },
        Shift::RotateRight => crate::thumb::decode::rotate(v, k),
    }
}

pub proof fn word_shift(v: u32, k: u32, direction: Shift)
    requires
        k <= 32,
        direction == Shift::RotateRight ==> k < 32,
    ensures
        concrete::word(shift_value(v, k, direction)) == crate::word::shift_bits(
            concrete::word(v),
            k as nat,
            direction,
        ),
{
    let s = shift_value(v, k, direction);
    let left = concrete::word(s);
    let right = crate::word::shift_bits(concrete::word(v), k as nat, direction);
    assert forall|i: int| 0 <= i < 32 implies left[i] == right[i] by {
        let j = i as u32;
        concrete::word_bit(s, j);
        concrete::word_bit(v, 31);
        let down = (j - k) as u32;
        let up = (j + k) as u32;
        let around = ((j + k) % 32) as u32;
        let back = (32 - k) as u32;
        if j >= k {
            concrete::word_bit(v, down);
        }
        if up < 32 {
            concrete::word_bit(v, up);
        }
        concrete::word_bit(v, around);
        if k == 32 {
            assert((0u32 >> j) & 1 == 0) by (bit_vector);
            assert(j < 32 ==> (((((v as i32) >> 31u32) as u32) >> j) & 1 == 1) == ((v >> 31) & 1 == 1)) by (bit_vector);
        } else {
            assert((((v << k) >> j) & 1 == 1) == (j >= k && (v >> down) & 1 == 1)) by (bit_vector)
                requires
                    j < 32,
                    k < 32,
                    j >= k ==> down == j - k,
            ;
            assert((((v >> k) >> j) & 1 == 1) == (up < 32 && (v >> up) & 1 == 1)) by (bit_vector)
                requires
                    j < 32,
                    k < 32,
                    up == j + k,
            ;
            assert((((((v as i32) >> k) as u32) >> j) & 1 == 1) == (if up < 32 {
                (v >> up) & 1 == 1
            } else {
                (v >> 31) & 1 == 1
            })) by (bit_vector)
                requires
                    j < 32,
                    k < 32,
                    up == j + k,
            ;
            if k > 0 {
            assert(((((v >> k) | (v << back)) >> j) & 1 == 1) == ((v >> around) & 1 == 1)) by (bit_vector)
                requires
                    j < 32,
                    0 < k < 32,
                    back == 32 - k,
                    around == (j + k) % 32,
            ;
            }
        }
    }
    assert(left =~= right);
}

/// Shift a symbolic word by a symbolic register count.
pub fn arm_runtime_shift<C: ContextWithErtOps<bool> + ?Sized>(
    t: &mut C,
    source: &[C::Wrapped; 32],
    amount: &[C::Wrapped; 32],
    direction: Shift,
    zero: &C::Wrapped,
) -> (r: Result<[C::Wrapped; 32], C::Error>) where C::Wrapped: Clone
    ensures
        crate::context::sound::<C>() && !crate::context::bit::<C>(*zero) ==> (r matches Ok(word) ==>
            crate::context::bits::<C>(word@) == arm_shifted(
            crate::context::bits::<C>(source@),
            crate::bits::num(crate::context::bits::<C>(amount@)),
            direction,
        )),
        C::reliable() ==> r is Ok,
        r matches Err(error) ==> C::errs(error),
{
    let ghost by = crate::context::bits::<C>(amount@);
    let ghost src = crate::context::bits::<C>(source@);
    let mut output = shift::rv32_runtime_shift(t, source, amount, direction, zero)?;
    proof {
        low_byte(by);
    }
    if direction != Shift::RotateRight {
        let mut saturated = keep::<C>(zero);
        let mut bit: usize = 5;
        while bit < 8
            invariant
                5 <= bit <= 8,
                by == crate::context::bits::<C>(amount@),
                crate::context::sound::<C>() && !crate::context::bit::<C>(*zero)
                    ==> crate::context::bit::<C>(saturated) == ((bit > 5 && by[5]) || (bit > 6
                    && by[6]) || (bit > 7 && by[7])),
            decreases 8 - bit,
        {
            saturated = t.bitor(saturated, keep::<C>(&amount[bit]))?;
            bit = bit + 1;
        }
        let fill = if direction == Shift::ArithmeticRight {
            crate::word::fill::<C::Wrapped, 32>(&source[31])
        } else {
            crate::word::fill::<C::Wrapped, 32>(zero)
        };
        let ghost low = crate::context::bits::<C>(output@);
        output = select_word(t, saturated, &fill, &output)?;
        proof {
            if crate::context::sound::<C>() && !crate::context::bit::<C>(*zero) {
                let filled = crate::context::bits::<C>(fill@);
                let full = crate::word::shift_bits(src, 32, direction);
                assert forall|i: int| 0 <= i < 32 implies filled[i] == full[i] by {
                    assert(cloned(
                        if direction == Shift::ArithmeticRight {
                            source@[31]
                        } else {
                            *zero
                        },
                        fill@[i],
                    ));
                }
                assert(filled =~= full);
            }
        }
    }
    Ok(output)
}

/// The low byte of a register count: its low five bits and whether it
/// reaches the width.
proof fn low_byte(by: Seq<bool>)
    requires
        by.len() == 32,
    ensures
        crate::bits::num(by) % 256 == crate::bits::num(by.take(5)) + (if by[5] {
            32int
        } else {
            0
        }) + (if by[6] {
            64int
        } else {
            0
        }) + (if by[7] {
            128int
        } else {
            0
        }),
        crate::bits::num(by) % 32 == crate::bits::num(by.take(5)),
        crate::bits::num(by.take(5)) < 32,
        (crate::bits::num(by.take(5)) == 0) == !(by[0] || by[1] || by[2] || by[3] || by[4]),
{
    lemma2_to64();
    crate::bits::num_step(by, 5);
    crate::bits::num_step(by, 6);
    crate::bits::num_step(by, 7);
    crate::bits::num_bound(by.take(5));
    crate::bits::num_bound(by.take(8));
    low_bits(by, 5);
    low_bits(by, 8);
    let five = by.take(5);
    crate::bits::num_zero(five);
    assert(five[0] == by[0] && five[1] == by[1] && five[2] == by[2] && five[3] == by[3] && five[4]
        == by[4]);
}

/// The low bits of a number are its remainder.
pub proof fn low_bits(b: Seq<bool>, k: int)
    requires
        0 <= k <= b.len(),
    ensures
        crate::bits::num(b.take(k)) == crate::bits::num(b) % pow2(k as nat),
    decreases b.len() - k,
{
    crate::bits::num_bound(b.take(k));
    lemma_pow2_pos(k as nat);
    if k == b.len() {
        assert(b.take(k) =~= b);
        vstd::arithmetic::div_mod::lemma_small_mod(crate::bits::num(b), pow2(k as nat));
    } else {
        low_bits(b, k + 1);
        crate::bits::num_step(b, k);
        lemma_pow2_unfold((k + 1) as nat);
        let n = crate::bits::num(b) as int;
        let p = pow2(k as nat) as int;
        let h: int = if b[k] {
            1
        } else {
            0
        };
        let q = n / (2 * p);
        vstd::arithmetic::div_mod::lemma_fundamental_div_mod(n, 2 * p);
        assert(h * p == if b[k] {
            p
        } else {
            0
        });
        assert(n == (2 * q + h) * p + crate::bits::num(b.take(k))) by (nonlinear_arith)
            requires
                n == (2 * p) * q + n % (2 * p),
                n % (2 * p) == crate::bits::num(b.take(k)) + h * p,
        ;
        vstd::arithmetic::div_mod::lemma_fundamental_div_mod_converse(
            n,
            p,
            2 * q + h,
            crate::bits::num(b.take(k)) as int,
        );
    }
}

/// The bit that a shift by `a` places, `0 < a < 32`, shifts out last.
pub open spec fn shifted_out(b: Seq<bool>, a: nat, direction: Shift) -> bool {
    if direction == Shift::Left {
        b[32 - a]
    } else {
        b[a - 1]
    }
}

/// The carry of a shift by the low five bits of `amount`, and whether any of
/// the five is set.
fn stage_carry<C: ContextWithErtOps<bool> + ?Sized>(
    t: &mut C,
    source: &[C::Wrapped; 32],
    amount: &[C::Wrapped; 32],
    direction: Shift,
    zero: &C::Wrapped,
    old_carry: C::Wrapped,
) -> (r: Result<(C::Wrapped, C::Wrapped), C::Error>) where C::Wrapped: Clone
    ensures
        crate::context::sound::<C>() && !crate::context::bit::<C>(*zero) ==> (r matches Ok(
            (carry, low),
        ) ==> {
            let a = crate::bits::num(crate::context::bits::<C>(amount@).take(5));
            &&& crate::context::bit::<C>(carry) == if a == 0 {
                crate::context::bit::<C>(old_carry)
            } else {
                shifted_out(crate::context::bits::<C>(source@), a, direction)
            }
            &&& crate::context::bit::<C>(low) == (a != 0)
        }),
        C::reliable() ==> r is Ok,
        r matches Err(error) ==> C::errs(error),
{
    let ghost by = crate::context::bits::<C>(amount@);
    let ghost src = crate::context::bits::<C>(source@);
    let ghost live = crate::context::sound::<C>() && !crate::context::bit::<C>(*zero);
    let ghost old_bit = crate::context::bit::<C>(old_carry);
    let mut output = keep_word::<C, 32>(source);
    let mut carry = old_carry;
    let mut low = keep::<C>(zero);
    let mut stage: usize = 0;
    let mut step: u32 = 1;
    proof {
        assert(by.take(0) =~= Seq::<bool>::empty());
        shift::shift_zero(src, direction);
        lemma2_to64();
    }
    while stage < 5
        invariant
            stage <= 5,
            step == pow2(stage as nat),
            by == crate::context::bits::<C>(amount@),
            src == crate::context::bits::<C>(source@),
            live == (crate::context::sound::<C>() && !crate::context::bit::<C>(*zero)),
            live ==> crate::context::bits::<C>(output@) == crate::word::shift_bits(
                src,
                crate::bits::num(by.take(stage as int)),
                direction,
            ),
            live ==> crate::context::bit::<C>(carry) == if crate::bits::num(by.take(stage as int))
                == 0 {
                old_bit
            } else {
                shifted_out(src, crate::bits::num(by.take(stage as int)), direction)
            },
            live ==> crate::context::bit::<C>(low) == (crate::bits::num(by.take(stage as int)) != 0),
        decreases 5 - stage,
    {
        let ghost done = crate::bits::num(by.take(stage as int));
        proof {
            stage_facts(by, stage as int);
            shift::shift_compose(src, done, step as nat, direction);
        }
        let edge: usize = match direction {
            Shift::Left => (32 - step) as usize,
            _ => (step - 1) as usize,
        };
        proof {
            if live {
                edge_bit(src, done, step as nat, direction);
                assert(crate::context::bits::<C>(output@)[edge as int] == crate::context::bit::<C>(
                    output@[edge as int],
                ));
            }
        }
        carry = choose_wire(t, &amount[stage], &output[edge], &carry)?;
        let candidate = shift::shift_word::<C, 32>(&output, step, direction, zero);
        output = select_word(t, keep::<C>(&amount[stage]), &candidate, &output)?;
        low = t.bitor(low, keep::<C>(&amount[stage]))?;
        stage = stage + 1;
        step = step + step;
    }
    Ok((carry, low))
}

proof fn stage_facts(by: Seq<bool>, stage: int)
    requires
        by.len() == 32,
        0 <= stage < 5,
    ensures
        pow2((stage + 1) as nat) == 2 * pow2(stage as nat),
        1 <= pow2(stage as nat) <= 16,
        crate::bits::num(by.take(stage + 1)) == crate::bits::num(by.take(stage)) + if by[stage] {
            pow2(stage as nat)
        } else {
            0
        },
        crate::bits::num(by.take(stage)) < pow2(stage as nat),
{
    lemma2_to64();
    lemma_pow2_unfold((stage + 1) as nat);
    crate::bits::num_step(by, stage);
    crate::bits::num_bound(by.take(stage));
}

/// The edge bit of a shifted word is the bit that the longer shift drops.
proof fn edge_bit(src: Seq<bool>, done: nat, step: nat, direction: Shift)
    requires
        src.len() == 32,
        0 < step,
        done < step <= 16,
    ensures
        crate::word::shift_bits(src, done, direction)[if direction == Shift::Left {
            32 - step
        } else {
            step - 1
        }] == shifted_out(src, done + step, direction),
{
    if direction == Shift::RotateRight {
        vstd::arithmetic::div_mod::lemma_small_mod((step - 1 + done) as nat, 32);
    }
}

/// Select one wire.
pub fn choose_wire<C: ContextWithErtOps<bool> + ?Sized>(
    t: &mut C,
    condition: &C::Wrapped,
    then: &C::Wrapped,
    otherwise: &C::Wrapped,
) -> (r: Result<C::Wrapped, C::Error>) where C::Wrapped: Clone
    ensures
        crate::context::sound::<C>() ==> (r matches Ok(w) ==> crate::context::bit::<C>(w)
            == if crate::context::bit::<C>(*condition) {
            crate::context::bit::<C>(*then)
        } else {
            crate::context::bit::<C>(*otherwise)
        }),
        C::reliable() ==> r is Ok,
        r matches Err(error) ==> C::errs(error),
{
    let mut emitter = ErtSelectEmitter::new(t);
    emitter.select(keep::<C>(condition), keep::<C>(then), keep::<C>(otherwise))
}

/// Shift a symbolic word by a symbolic register count, with the carry that
/// the shift leaves.
pub fn arm_runtime_shift_with_carry<C: ContextWithErtOps<bool> + ?Sized>(
    t: &mut C,
    source: &[C::Wrapped; 32],
    amount: &[C::Wrapped; 32],
    direction: Shift,
    zero: &C::Wrapped,
    old_carry: C::Wrapped,
) -> (r: Result<([C::Wrapped; 32], C::Wrapped), C::Error>) where C::Wrapped: Clone
    ensures
        crate::context::sound::<C>() && !crate::context::bit::<C>(*zero) ==> (r matches Ok(
            (word, carry),
        ) ==> {
            &&& crate::context::bits::<C>(word@) == arm_shifted(
                crate::context::bits::<C>(source@),
                crate::bits::num(crate::context::bits::<C>(amount@)),
                direction,
            )
            &&& crate::context::bit::<C>(carry) == arm_carry(
                crate::context::bits::<C>(source@),
                crate::bits::num(crate::context::bits::<C>(amount@)),
                direction,
                crate::context::bit::<C>(old_carry),
            )
        }),
        C::reliable() ==> r is Ok,
        r matches Err(error) ==> C::errs(error),
{
    let ghost by = crate::context::bits::<C>(amount@);
    let word = arm_runtime_shift(t, source, amount, direction, zero)?;
    let (carry, low) = stage_carry(t, source, amount, direction, zero, old_carry)?;
    proof {
        low_byte(by);
    }
    let far = t.bitor(keep::<C>(&amount[6]), keep::<C>(&amount[7]))?;
    let high = t.bitor(keep::<C>(&amount[5]), keep::<C>(&far))?;
    let beyond = match direction {
        Shift::RotateRight => choose_wire(t, &low, &carry, &source[31])?,
        Shift::ArithmeticRight => keep::<C>(&source[31]),
        Shift::LogicalRight => {
            let exact = choose_wire(t, &far, zero, &source[31])?;
            choose_wire(t, &low, zero, &exact)?
        },
        Shift::Left => {
            let exact = choose_wire(t, &far, zero, &source[0])?;
            choose_wire(t, &low, zero, &exact)?
        },
    };
    let carry = choose_wire(t, &high, &beyond, &carry)?;
    Ok((word, carry))
}

} // verus!
