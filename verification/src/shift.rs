//! Shifts and rotations of symbolic words.
use crate::context::{keep, ContextWithValue};
use crate::word::{select_word, ContextWithErtOps, Shift};
use vstd::prelude::*;

verus! {

/// Where bit `i` of a word shifted by `k` comes from: a bit of the word, or
/// the zero that is shifted in.
pub open spec fn shift_source<W>(source: Seq<W>, k: nat, direction: Shift, zero: W, i: int) -> W {
    let n = source.len();
    match direction {
        Shift::Left => if i >= k {
            source[i - k]
        } else {
            zero
        },
        Shift::LogicalRight => if i + k < n {
            source[i + k]
        } else {
            zero
        },
        Shift::ArithmeticRight => if i + k < n {
            source[i + k]
        } else {
            source[n - 1]
        },
        Shift::RotateRight => source[(i + k) % (n as int)],
    }
}

/// A host-known shift amount as [`fixed_shift`] applies it: no more than the
/// width of the word.
pub open spec fn shift_amount(amount: u32, width: nat) -> nat {
    if amount < width {
        amount as nat
    } else {
        width
    }
}

/// Shift or rotate a snapshot by a host-known amount, capped at the width.
pub fn fixed_shift<W: Clone, const N: usize>(
    source: &[W; N],
    amount: u32,
    direction: Shift,
    zero: &W,
) -> (r: [W; N])
    requires
        0 < N <= 64,
    ensures
        forall|i: int|
            0 <= i < N ==> cloned(
                shift_source(source@, shift_amount(amount, N as nat), direction, *zero, i),
                #[trigger] r@[i],
            ),
{
    let amount: usize = if (amount as usize) < N {
        amount as usize
    } else {
        N
    };
    let mut r = source.clone();
    let mut i: usize = 0;
    while i < N
        invariant
            0 < N <= 64,
            i <= N,
            amount <= N,
            forall|j: int|
                0 <= j < i ==> cloned(
                    shift_source(source@, amount as nat, direction, *zero, j),
                    #[trigger] r@[j],
                ),
        decreases N - i,
    {
        r[i] = match direction {
            Shift::Left => if i >= amount {
                source[i - amount].clone()
            } else {
                zero.clone()
            },
            Shift::LogicalRight => if i + amount < N {
                source[i + amount].clone()
            } else {
                zero.clone()
            },
            Shift::ArithmeticRight => if i + amount < N {
                source[i + amount].clone()
            } else {
                source[N - 1].clone()
            },
            Shift::RotateRight => source[(i + amount) % N].clone(),
        };
        i = i + 1;
    }
    r
}

/// [`fixed_shift`] for the wires of `C`.
pub fn shift_word<C: ContextWithValue<bool> + ?Sized, const N: usize>(
    source: &[C::Wrapped; N],
    amount: u32,
    direction: Shift,
    zero: &C::Wrapped,
) -> (r: [C::Wrapped; N]) where C::Wrapped: Clone
    requires
        0 < N <= 64,
    ensures
        crate::context::sound::<C>() && !crate::context::bit::<C>(*zero) ==> crate::context::bits::<
            C,
        >(r@) == crate::word::shift_bits(
            crate::context::bits::<C>(source@),
            shift_amount(amount, N as nat),
            direction,
        ),
{
    let r = fixed_shift(source, amount, direction, zero);
    proof {
        if crate::context::sound::<C>() && !crate::context::bit::<C>(*zero) {
            let expected = crate::word::shift_bits(
                crate::context::bits::<C>(source@),
                shift_amount(amount, N as nat),
                direction,
            );
            assert(crate::context::bits::<C>(r@) =~= expected) by {
                assert forall|i: int| 0 <= i < N implies crate::context::bits::<C>(r@)[i]
                    == expected[i] by {
                    let w = shift_source(
                        source@,
                        shift_amount(amount, N as nat),
                        direction,
                        *zero,
                        i,
                    );
                    assert(cloned(w, r@[i]));
                    if direction == Shift::RotateRight {
                        assert(0 <= (i + shift_amount(amount, N as nat)) % (N as int) < N);
                    }
                }
            }
        }
    }
    r
}

/// Two shifts in one direction are one shift.
pub proof fn shift_compose(b: Seq<bool>, first: nat, second: nat, direction: Shift)
    ensures
        crate::word::shift_bits(crate::word::shift_bits(b, first, direction), second, direction)
            == crate::word::shift_bits(b, first + second, direction),
{
    let once = crate::word::shift_bits(b, first, direction);
    let n = b.len() as int;
    assert(crate::word::shift_bits(once, second, direction) =~= crate::word::shift_bits(
        b,
        first + second,
        direction,
    )) by {
        assert forall|i: int| 0 <= i < n implies crate::word::shift_bits(once, second, direction)[i]
            == crate::word::shift_bits(b, first + second, direction)[i] by {
            if direction == Shift::RotateRight {
                let m = (i + second) % n;
                assert(0 <= m < n);
                vstd::arithmetic::div_mod::lemma_add_mod_noop(i + second as int, first as int, n);
                vstd::arithmetic::div_mod::lemma_add_mod_noop(m, first as int, n);
                vstd::arithmetic::div_mod::lemma_small_mod(m as nat, n as nat);
                assert((m + first) % n == (i + second + first) % n);
            }
        }
    }
}

/// A shift by no places changes nothing.
pub proof fn shift_zero(b: Seq<bool>, direction: Shift)
    ensures
        crate::word::shift_bits(b, 0, direction) == b,
{
    assert forall|i: int| 0 <= i < b.len() implies crate::word::shift_bits(b, 0, direction)[i]
        == b[i] by {
        vstd::arithmetic::div_mod::lemma_small_mod(i as nat, b.len());
    }
    assert(crate::word::shift_bits(b, 0, direction) =~= b);
}

/// Compute a symbolic barrel shift by the low `stages` bits of `amount`, one
/// select per stage.
pub fn runtime_shift<C: ContextWithErtOps<bool> + ?Sized, const N: usize, const M: usize>(
    t: &mut C,
    source: &[C::Wrapped; N],
    amount: &[C::Wrapped; M],
    stages: usize,
    direction: Shift,
    zero: &C::Wrapped,
) -> (r: Result<[C::Wrapped; N], C::Error>) where C::Wrapped: Clone
    requires
        stages <= M,
        stages < 32,
        0 < N <= 64,
        vstd::arithmetic::power2::pow2(stages as nat) <= N,
    ensures
        crate::context::sound::<C>() && !crate::context::bit::<C>(*zero) ==> (r matches Ok(word) ==>
            crate::context::bits::<C>(word@) == crate::word::shift_bits(
            crate::context::bits::<C>(source@),
            crate::bits::num(crate::context::bits::<C>(amount@).take(stages as int)),
            direction,
        )),
        C::reliable() ==> r is Ok,
        r matches Err(error) ==> C::errs(error),
{
    let ghost by = crate::context::bits::<C>(amount@);
    let ghost src = crate::context::bits::<C>(source@);
    let mut output = crate::word::keep_word::<C, N>(source);
    let mut stage: usize = 0;
    let mut step: u32 = 1;
    proof {
        assert(by.take(0) =~= Seq::<bool>::empty());
        shift_zero(src, direction);
        vstd::arithmetic::power2::lemma2_to64();
    }
    while stage < stages
        invariant
            stage <= stages <= M,
            stages < 32,
            0 < N <= 64,
            step == vstd::arithmetic::power2::pow2(stage as nat),
            vstd::arithmetic::power2::pow2(stages as nat) <= N,
            by == crate::context::bits::<C>(amount@),
            crate::context::sound::<C>() && !crate::context::bit::<C>(*zero)
                ==> crate::context::bits::<C>(output@) == crate::word::shift_bits(
                src,
                crate::bits::num(by.take(stage as int)),
                direction,
            ),
        decreases stages - stage,
    {
        proof {
            vstd::arithmetic::power2::lemma_pow2_strictly_increases(stage as nat, stages as nat);
            vstd::arithmetic::power2::lemma_pow2_unfold((stage + 1) as nat);
            crate::bits::num_step(by, stage as int);
            let done = crate::bits::num(by.take(stage as int));
            shift_compose(src, done, step as nat, direction);
        }
        let candidate = shift_word::<C, N>(&output, step, direction, zero);
        output = select_word(t, keep::<C>(&amount[stage]), &candidate, &output)?;
        stage = stage + 1;
        step = step + step;
    }
    Ok(output)
}

/// Compute a five-stage symbolic barrel shift of a 32-bit word.
pub fn rv32_runtime_shift<C: ContextWithErtOps<bool> + ?Sized>(
    t: &mut C,
    source: &[C::Wrapped; 32],
    amount: &[C::Wrapped; 32],
    direction: Shift,
    zero: &C::Wrapped,
) -> (r: Result<[C::Wrapped; 32], C::Error>) where C::Wrapped: Clone
    ensures
        crate::context::sound::<C>() && !crate::context::bit::<C>(*zero) ==> (r matches Ok(word) ==>
            crate::context::bits::<C>(word@) == crate::word::shift_bits(
            crate::context::bits::<C>(source@),
            crate::bits::num(crate::context::bits::<C>(amount@).take(5)),
            direction,
        )),
        C::reliable() ==> r is Ok,
        r matches Err(error) ==> C::errs(error),
{
    proof {
        vstd::arithmetic::power2::lemma2_to64();
    }
    runtime_shift(t, source, amount, 5, direction, zero)
}

} // verus!
