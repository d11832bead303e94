//! Symbolic comparisons, materialized as a single Boolean wire.
//!
//! Control-flow decisions still require concrete values, but set-less-than
//! instructions, Arm status flags, and the early-exit-loop rewriting all need
//! a comparison as circuit data. This module supplies that result without
//! weakening the concrete-only branch discipline.
use crate::context::keep;
use crate::word::{add_bits_with_carry_out, bitwise_word, invert_word, BitOp, ContextWithErtOps};
use vstd::prelude::*;

verus! {

/// The six branch and compare conditions.
#[derive(Clone, Copy, Debug, Eq, PartialEq, Structural)]
pub enum ComparePredicate {
    /// `left == right`.
    Eq,
    /// `left != right`.
    Ne,
    /// `left >= right`, unsigned.
    GeU,
    /// `left < right`, unsigned.
    LtU,
    /// `left >= right`, signed.
    GeS,
    /// `left < right`, signed.
    LtS,
}

/// What a predicate says of two words of one width.
pub open spec fn holds(predicate: ComparePredicate, left: Seq<bool>, right: Seq<bool>) -> bool {
    match predicate {
        ComparePredicate::Eq => left == right,
        ComparePredicate::Ne => left != right,
        ComparePredicate::GeU => crate::bits::num(left) >= crate::bits::num(right),
        ComparePredicate::LtU => crate::bits::num(left) < crate::bits::num(right),
        ComparePredicate::GeS => crate::bits::signed(left) >= crate::bits::signed(right),
        ComparePredicate::LtS => crate::bits::signed(left) < crate::bits::signed(right),
    }
}

/// Derive the signed-overflow flag for `left + right = result` from the three
/// sign bits.
pub fn add_overflow<C: ContextWithErtOps<bool> + ?Sized>(
    t: &mut C,
    left: C::Wrapped,
    right: C::Wrapped,
    result: C::Wrapped,
) -> (r: Result<C::Wrapped, C::Error>) where C::Wrapped: Clone
    ensures
        crate::context::sound::<C>() ==> (r matches Ok(w) ==> crate::context::bit::<C>(w)
            == add_overflows(
            crate::context::bit::<C>(left),
            crate::context::bit::<C>(right),
            crate::context::bit::<C>(result),
        )),
        C::reliable() ==> r is Ok,
        r matches Err(error) ==> C::errs(error),
{
    let left_differs = t.bitxor(left, keep::<C>(&result))?;
    let right_differs = t.bitxor(right, result)?;
    t.bitand(left_differs, right_differs)
}

/// Signed overflow of a sum, from the signs of the operands and the result.
pub open spec fn add_overflows(left: bool, right: bool, result: bool) -> bool {
    left == right && result != left
}

/// Derive the signed-overflow flag for `left - right = result` from the three
/// sign bits.
pub fn subtract_overflow<C: ContextWithErtOps<bool> + ?Sized>(
    t: &mut C,
    left: C::Wrapped,
    right: C::Wrapped,
    result: C::Wrapped,
) -> (r: Result<C::Wrapped, C::Error>) where C::Wrapped: Clone
    ensures
        crate::context::sound::<C>() ==> (r matches Ok(w) ==> crate::context::bit::<C>(w)
            == subtract_overflows(
            crate::context::bit::<C>(left),
            crate::context::bit::<C>(right),
            crate::context::bit::<C>(result),
        )),
        C::reliable() ==> r is Ok,
        r matches Err(error) ==> C::errs(error),
{
    let operands_differ = t.bitxor(keep::<C>(&left), right)?;
    let result_differs = t.bitxor(left, result)?;
    t.bitand(operands_differ, result_differs)
}

/// Signed overflow of a difference, from the signs of the operands and the
/// result.
pub open spec fn subtract_overflows(left: bool, right: bool, result: bool) -> bool {
    left != right && result != left
}

/// The two sign rules are signed overflow: the true sum (or difference) of
/// the two's-complement values leaves the range of the width.
pub proof fn overflow_is_signed_range(a: Seq<bool>, b: Seq<bool>)
    requires
        a.len() == b.len(),
        a.len() > 0,
    ensures
        add_overflows(a.last(), b.last(), crate::bits::add_of(a, b, false).last()) <==> !(
        signed_range(crate::bits::signed(a) + crate::bits::signed(b), a.len())),
        subtract_overflows(a.last(), b.last(), crate::bits::sub_of(a, b).last()) <==> !(
        signed_range(crate::bits::signed(a) - crate::bits::signed(b), a.len())),
{
    let n = a.len();
    let half = vstd::arithmetic::power2::pow2((n - 1) as nat) as int;
    vstd::arithmetic::power2::lemma_pow2_unfold(n);
    vstd::arithmetic::power2::lemma_pow2_pos((n - 1) as nat);
    sign_split(a);
    sign_split(b);
    let sum = crate::bits::add_of(a, b, false);
    let difference = crate::bits::sub_of(a, b);
    sign_split(sum);
    sign_split(difference);
    crate::bits::num_bits_of((crate::bits::num(a) + crate::bits::num(b)) as nat, n);
    crate::bits::sub_is_difference(a, b);
    wrap_once((crate::bits::num(a) + crate::bits::num(b)) as int, 2 * half);
    wrap_once(crate::bits::num(a) - crate::bits::num(b), 2 * half);
}

/// A value that a signed word of `n` bits can hold.
pub open spec fn signed_range(v: int, n: nat) -> bool {
    -vstd::arithmetic::power2::pow2((n - 1) as nat) <= v < vstd::arithmetic::power2::pow2(
        (n - 1) as nat,
    )
}

proof fn sign_split(a: Seq<bool>)
    requires
        a.len() > 0,
    ensures
        a.last() == (crate::bits::num(a) >= vstd::arithmetic::power2::pow2((a.len() - 1) as nat)),
        crate::bits::num(a) < 2 * vstd::arithmetic::power2::pow2((a.len() - 1) as nat),
        crate::bits::signed(a) == if a.last() {
            crate::bits::num(a) - 2 * vstd::arithmetic::power2::pow2((a.len() - 1) as nat)
        } else {
            crate::bits::num(a) as int
        },
{
    crate::bits::num_bound(a.drop_last());
    vstd::arithmetic::power2::lemma_pow2_unfold(a.len());
}

proof fn wrap_once(v: int, p: int)
    requires
        p > 0,
        -p <= v < 2 * p,
    ensures
        v % p == if v < 0 {
            v + p
        } else if v >= p {
            v - p
        } else {
            v
        },
{
    let q: int = if v < 0 {
        -1
    } else if v >= p {
        1
    } else {
        0
    };
    assert(-1 * p == -p && 0 * p == 0 && 1 * p == p);
    vstd::arithmetic::div_mod::lemma_fundamental_div_mod_converse(v, p, q, v - q * p);
}

/// What an Arm condition code says of the four flags.
pub open spec fn arm_holds(n: bool, z: bool, c: bool, v: bool, condition: u8) -> bool {
    if condition == 0 {
        z
    } else if condition == 1 {
        !z
    } else if condition == 2 {
        c
    } else if condition == 3 {
        !c
    } else if condition == 4 {
        n
    } else if condition == 5 {
        !n
    } else if condition == 6 {
        v
    } else if condition == 7 {
        !v
    } else if condition == 8 {
        c && !z
    } else if condition == 9 {
        !c || z
    } else if condition == 10 {
        n == v
    } else if condition == 11 {
        n != v
    } else if condition == 12 {
        !z && n == v
    } else if condition == 13 {
        z || n != v
    } else {
        true
    }
}

/// Evaluate an Arm NZCV condition from symbolic flag wires.
///
/// Returns `None` for the reserved condition encoding 15 (and anything above
/// it). Condition 14 is the unconditional `AL` form and returns `one` without
/// emitting a gate; the four conditions that name a set flag emit none either.
pub fn arm_condition<C: ContextWithErtOps<bool> + ?Sized>(
    t: &mut C,
    n: C::Wrapped,
    z: C::Wrapped,
    c: C::Wrapped,
    v: C::Wrapped,
    condition: u8,
    one: &C::Wrapped,
) -> (r: Result<Option<C::Wrapped>, C::Error>) where C::Wrapped: Clone
    ensures
        r matches Ok(w) ==> (w is None <==> condition >= 15),
        crate::context::sound::<C>() && crate::context::bit::<C>(*one) ==> (r matches Ok(Some(w)) ==>
            crate::context::bit::<C>(w) == arm_holds(
            crate::context::bit::<C>(n),
            crate::context::bit::<C>(z),
            crate::context::bit::<C>(c),
            crate::context::bit::<C>(v),
            condition,
        )),
        C::reliable() ==> r is Ok,
        r matches Err(error) ==> C::errs(error),
        condition >= 14 || condition == 0 || condition == 2 || condition == 4 || condition == 6
            ==> r is Ok && crate::word::untouched::<C>(old(t), final(t)),
{
    let result = match condition {
        0 => z,
        1 => invert_boolean(t, z, one)?,
        2 => c,
        3 => invert_boolean(t, c, one)?,
        4 => n,
        5 => invert_boolean(t, n, one)?,
        6 => v,
        7 => invert_boolean(t, v, one)?,
        8 => {
            let not_z = invert_boolean(t, z, one)?;
            t.bitand(c, not_z)?
        },
        9 => {
            let not_c = invert_boolean(t, c, one)?;
            t.bitor(not_c, z)?
        },
        10 => {
            let differs = t.bitxor(n, v)?;
            invert_boolean(t, differs, one)?
        },
        11 => t.bitxor(n, v)?,
        12 => {
            let not_z = invert_boolean(t, z, one)?;
            let differs = t.bitxor(n, v)?;
            let equal = invert_boolean(t, differs, one)?;
            t.bitand(not_z, equal)?
        },
        13 => {
            let differs = t.bitxor(n, v)?;
            t.bitor(z, differs)?
        },
        14 => keep::<C>(one),
        _ => return Ok(None),
    };
    Ok(Some(result))
}

/// Invert one wire.
pub fn invert_boolean<C: ContextWithErtOps<bool> + ?Sized>(
    t: &mut C,
    wire: C::Wrapped,
    one: &C::Wrapped,
) -> (r: Result<C::Wrapped, C::Error>) where C::Wrapped: Clone
    ensures
        crate::context::sound::<C>() && crate::context::bit::<C>(*one) ==> (r matches Ok(w) ==>
            crate::context::bit::<C>(w) == !crate::context::bit::<C>(wire)),
        C::reliable() ==> r is Ok,
        r matches Err(error) ==> C::errs(error),
{
    t.bitxor(wire, keep::<C>(one))
}

/// Evaluate an Arm NZCV condition using optional concrete flag facts.
///
/// The outer `None` denotes the reserved condition encoding 15. For a valid
/// condition, the inner value is `None` until every flag it observes is known.
pub fn arm_condition_value(
    n: Option<bool>,
    z: Option<bool>,
    c: Option<bool>,
    v: Option<bool>,
    condition: u8,
) -> (r: Option<Option<bool>>)
    ensures
        r == arm_known(n, z, c, v, condition),
{
    let value = match condition {
        0 => z,
        1 => not_known(z),
        2 => c,
        3 => not_known(c),
        4 => n,
        5 => not_known(n),
        6 => v,
        7 => not_known(v),
        8 => match (c, z) {
            (Some(c), Some(z)) => Some(c && !z),
            _ => None,
        },
        9 => match (c, z) {
            (Some(c), Some(z)) => Some(!c || z),
            _ => None,
        },
        10 => match (n, v) {
            (Some(n), Some(v)) => Some(n == v),
            _ => None,
        },
        11 => match (n, v) {
            (Some(n), Some(v)) => Some(n != v),
            _ => None,
        },
        12 => match (z, n, v) {
            (Some(z), Some(n), Some(v)) => Some(!z && n == v),
            _ => None,
        },
        13 => match (z, n, v) {
            (Some(z), Some(n), Some(v)) => Some(z || n != v),
            _ => None,
        },
        14 => Some(true),
        _ => return None,
    };
    Some(value)
}

fn not_known(value: Option<bool>) -> (r: Option<bool>)
    ensures
        r == match value {
            Some(b) => Some(!b),
            None => None,
        },
{
    match value {
        Some(b) => Some(!b),
        None => None,
    }
}

/// Whether a condition code observes the negative flag, and so on for the
/// other three.
pub open spec fn observes_n(condition: u8) -> bool {
    condition == 4 || condition == 5 || 10 <= condition <= 13
}

pub open spec fn observes_z(condition: u8) -> bool {
    condition == 0 || condition == 1 || condition == 8 || condition == 9 || condition == 12
        || condition == 13
}

pub open spec fn observes_c(condition: u8) -> bool {
    condition == 2 || condition == 3 || condition == 8 || condition == 9
}

pub open spec fn observes_v(condition: u8) -> bool {
    condition == 6 || condition == 7 || 10 <= condition <= 13
}

/// What is known of a condition when only some flags are known.
pub open spec fn arm_known(
    n: Option<bool>,
    z: Option<bool>,
    c: Option<bool>,
    v: Option<bool>,
    condition: u8,
) -> Option<Option<bool>> {
    if condition >= 15 {
        None
    } else if (observes_n(condition) && n is None) || (observes_z(condition) && z is None) || (
    observes_c(condition) && c is None) || (observes_v(condition) && v is None) {
        Some(None)
    } else {
        Some(
            Some(
                arm_holds(
                    n == Some(true),
                    z == Some(true),
                    c == Some(true),
                    v == Some(true),
                    condition,
                ),
            ),
        )
    }
}

/// The gates of a subtraction of `n` bits.
pub open spec fn subtract_kinds(n: nat) -> Seq<BitOp> {
    crate::context::repeated(BitOp::Xor, n) + crate::word::adder_kinds(n)
}

/// The gates of a comparison of two words of `n` bits.
pub open spec fn compare_kinds(predicate: ComparePredicate, n: nat) -> Seq<BitOp> {
    let equal = crate::context::repeated(BitOp::Xor, n) + crate::context::repeated(
        BitOp::Or,
        (n - 1) as nat,
    ).push(BitOp::Xor);
    let less = subtract_kinds(n).push(BitOp::Xor).push(BitOp::Xor).push(BitOp::And).push(
        BitOp::Xor,
    );
    match predicate {
        ComparePredicate::Eq => equal,
        ComparePredicate::Ne => equal.push(BitOp::Xor),
        ComparePredicate::GeU => subtract_kinds(n),
        ComparePredicate::LtU => subtract_kinds(n).push(BitOp::Xor),
        ComparePredicate::LtS => less,
        ComparePredicate::GeS => less.push(BitOp::Xor),
    }
}

/// Evaluate `predicate` between two symbolic words, returning a single
/// Boolean wire (`one` if the predicate holds, `zero` otherwise).
///
/// Built entirely from AND/OR/XOR gates; no mux capability is required.
pub fn compare_word<C: ContextWithErtOps<bool> + ?Sized, const N: usize>(
    t: &mut C,
    left: &[C::Wrapped; N],
    right: &[C::Wrapped; N],
    predicate: ComparePredicate,
    one: &C::Wrapped,
) -> (r: Result<C::Wrapped, C::Error>) where C::Wrapped: Clone
    requires
        N > 0,
    ensures
        crate::context::sound::<C>() && crate::context::bit::<C>(*one) ==> (r matches Ok(w) ==>
            crate::context::bit::<C>(w) == holds(
            predicate,
            crate::context::bits::<C>(left@),
            crate::context::bits::<C>(right@),
        )),
        r is Ok ==> crate::context::asked::<C>(
            old(t),
            final(t),
            compare_kinds(predicate, N as nat),
        ),
        C::reliable() ==> r is Ok,
        r matches Err(error) ==> C::errs(error),
{
    let ghost a = crate::context::bits::<C>(left@);
    let ghost b = crate::context::bits::<C>(right@);
    match predicate {
        ComparePredicate::Eq | ComparePredicate::Ne => {
            let xor = bitwise_word(t, left, right, BitOp::Xor)?;
            let ghost g0 = (*t).gates();
            let equal = zero_word(t, &xor, one)?;
            let ghost g1 = (*t).gates();
            let ghost more = compare_kinds(ComparePredicate::Eq, N as nat);
            proof {
                if C::logs() {
                    let a = crate::context::repeated(BitOp::Xor, N as nat);
                    let b = crate::context::repeated(BitOp::Or, (N - 1) as nat).push(BitOp::Xor);
                    assert(crate::context::kinds((*old(t)).gates()) + a + b
                        =~= crate::context::kinds((*old(t)).gates()) + (a + b));
                }
                let x = crate::bits::xor_bits(a, b);
                crate::bits::num_zero(x);
                if crate::bits::num(x) == 0 {
                    assert forall|i: int| 0 <= i < N implies a[i] == b[i] by {
                        assert(!x[i]);
                    }
                    assert(a =~= b);
                } else {
                    let i = choose|i: int| 0 <= i < x.len() && #[trigger] x[i];
                    assert(a[i] != b[i]);
                }
            }
            match predicate {
                ComparePredicate::Eq => Ok(equal),
                _ => {
                    let r = t.bitxor(equal, keep::<C>(one));
                    proof {
                        if C::logs() && r is Ok {
                            let g2 = (*t).gates();
                            crate::context::asked_more((*old(t)).gates(), g1, g2, g2.last(), more);
                        }
                    }
                    r
                },
            }
        },
        ComparePredicate::GeU | ComparePredicate::LtU => {
            let (_, carry_out) = subtract_word_with_carry_out(t, left, right, one)?;
            let ghost g0 = (*t).gates();
            proof {
                crate::bits::sub_is_difference(a, b);
            }
            match predicate {
                ComparePredicate::GeU => Ok(carry_out),
                _ => {
                    let r = t.bitxor(carry_out, keep::<C>(one));
                    proof {
                        if C::logs() && r is Ok {
                            let more = subtract_kinds(N as nat);
                            let g1 = (*t).gates();
                            crate::context::asked_more((*old(t)).gates(), g0, g1, g1.last(), more);
                        }
                    }
                    r
                },
            }
        },
        ComparePredicate::GeS | ComparePredicate::LtS => {
            let (diff, _) = subtract_word_with_carry_out(t, left, right, one)?;
            let ghost g0 = (*t).gates();
            let sign_l = keep::<C>(&left[N - 1]);
            let sign_r = keep::<C>(&right[N - 1]);
            let sign_d = keep::<C>(&diff[N - 1]);
            let operands_differ = t.bitxor(keep::<C>(&sign_l), sign_r)?;
            let ghost g1 = (*t).gates();
            let result_differs_from_left = t.bitxor(sign_l, keep::<C>(&sign_d))?;
            let ghost g2 = (*t).gates();
            let overflow = t.bitand(operands_differ, result_differs_from_left)?;
            let ghost g3 = (*t).gates();
            let signed_lt = t.bitxor(sign_d, overflow)?;
            let ghost g4 = (*t).gates();
            let ghost more = compare_kinds(ComparePredicate::LtS, N as nat);
            proof {
                if C::logs() {
                    let first = (*old(t)).gates();
                    let so_far = subtract_kinds(N as nat);
                    crate::context::asked_more(first, g0, g1, g1.last(), so_far);
                    let so_far = so_far.push(BitOp::Xor);
                    crate::context::asked_more(first, g1, g2, g2.last(), so_far);
                    let so_far = so_far.push(BitOp::Xor);
                    crate::context::asked_more(first, g2, g3, g3.last(), so_far);
                    let so_far = so_far.push(BitOp::And);
                    crate::context::asked_more(first, g3, g4, g4.last(), so_far);
                }
                if crate::context::sound::<C>() && crate::context::bit::<C>(*one) {
                    signed_less(a, b);
                    assert(crate::context::bits::<C>(diff@).last() == crate::context::bit::<C>(
                        diff@[N - 1],
                    ));
                }
            }
            match predicate {
                ComparePredicate::LtS => Ok(signed_lt),
                _ => {
                    let r = t.bitxor(signed_lt, keep::<C>(one));
                    proof {
                        if C::logs() && r is Ok {
                            let g5 = (*t).gates();
                            crate::context::asked_more((*old(t)).gates(), g4, g5, g5.last(), more);
                        }
                    }
                    r
                },
            }
        },
    }
}

proof fn signed_less(a: Seq<bool>, b: Seq<bool>)
    requires
        a.len() == b.len(),
        a.len() > 0,
    ensures
        (crate::bits::signed(a) < crate::bits::signed(b)) == (crate::bits::sub_of(a, b).last()
            != subtract_overflows(a.last(), b.last(), crate::bits::sub_of(a, b).last())),
{
    let n = a.len();
    let half = vstd::arithmetic::power2::pow2((n - 1) as nat) as int;
    vstd::arithmetic::power2::lemma_pow2_unfold(n);
    vstd::arithmetic::power2::lemma_pow2_pos((n - 1) as nat);
    sign_split(a);
    sign_split(b);
    sign_split(crate::bits::sub_of(a, b));
    crate::bits::sub_is_difference(a, b);
    wrap_once(crate::bits::num(a) - crate::bits::num(b), 2 * half);
}

/// `left - right` via two's-complement addition, plus the top-bit carry-out
/// (unsigned "no borrow occurred" flag).
pub fn subtract_word_with_carry_out<C: ContextWithErtOps<bool> + ?Sized, const N: usize>(
    t: &mut C,
    left: &[C::Wrapped; N],
    right: &[C::Wrapped; N],
    one: &C::Wrapped,
) -> (r: Result<([C::Wrapped; N], C::Wrapped), C::Error>) where C::Wrapped: Clone
    ensures
        crate::context::sound::<C>() && crate::context::bit::<C>(*one) ==> (r matches Ok(
            (difference, no_borrow),
        ) ==> {
            &&& crate::context::bits::<C>(difference@) == crate::bits::sub_of(
                crate::context::bits::<C>(left@),
                crate::context::bits::<C>(right@),
            )
            &&& crate::context::bit::<C>(no_borrow) == crate::bits::carry_of(
                crate::context::bits::<C>(left@),
                crate::bits::complement(crate::context::bits::<C>(right@)),
                true,
            )
        }),
        r is Ok ==> crate::context::asked::<C>(old(t), final(t), subtract_kinds(N as nat)),
        C::reliable() ==> r is Ok,
        r matches Err(error) ==> C::errs(error),
{
    let inverted_right = invert_word(t, right, keep::<C>(one))?;
    let r = add_bits_with_carry_out(t, left, &inverted_right, keep::<C>(one));
    proof {
        if C::logs() && r is Ok {
            let a = crate::context::repeated(BitOp::Xor, N as nat);
            let b = crate::word::adder_kinds(N as nat);
            assert(crate::context::kinds((*old(t)).gates()) + a + b =~= crate::context::kinds(
                (*old(t)).gates(),
            ) + (a + b));
        }
    }
    r
}

/// Return a Boolean wire that is one exactly when `word` is not zero.
pub fn nonzero_word<C: ContextWithErtOps<bool> + ?Sized, const N: usize>(
    t: &mut C,
    word: &[C::Wrapped; N],
) -> (r: Result<C::Wrapped, C::Error>) where C::Wrapped: Clone
    requires
        N > 0,
    ensures
        crate::context::sound::<C>() ==> (r matches Ok(w) ==> crate::context::bit::<C>(w) == (
        crate::bits::num(crate::context::bits::<C>(word@)) != 0)),
        C::reliable() ==> r is Ok,
        r matches Err(error) ==> C::errs(error),
        r is Ok ==> crate::context::asked::<C>(
            old(t),
            final(t),
            crate::context::repeated(BitOp::Or, (N - 1) as nat),
        ),
{
    let ghost b = crate::context::bits::<C>(word@);
    proof {
        if C::logs() {
            assert(crate::context::kinds((*t).gates()) =~= crate::context::kinds((*t).gates())
                + crate::context::repeated(BitOp::Or, 0));
        }
    }
    let mut acc = keep::<C>(&word[0]);
    proof {
        assert(b[0] == crate::context::bit::<C>(word@[0]));
    }
    let mut i: usize = 1;
    while i < N
        invariant
            1 <= i <= N,
            b == crate::context::bits::<C>(word@),
            crate::context::sound::<C>() ==> (crate::context::bit::<C>(acc) == exists|j: int|
                0 <= j < i && #[trigger] b[j]),
            crate::context::asked::<C>(
                old(t),
                t,
                crate::context::repeated(BitOp::Or, (i - 1) as nat),
            ),
        decreases N - i,
    {
        let ghost before = crate::context::bit::<C>(acc);
        let ghost was = (*t).gates();
        acc = t.bitor(acc, keep::<C>(&word[i]))?;
        proof {
            if C::logs() {
                let more = crate::context::repeated(BitOp::Or, (i - 1) as nat);
                let now = (*t).gates();
                crate::context::asked_more((*old(t)).gates(), was, now, now.last(), more);
                crate::context::repeated_more(BitOp::Or, (i - 1) as nat);
            }
            if crate::context::sound::<C>() {
                if before {
                    let j = choose|j: int| 0 <= j < i && #[trigger] b[j];
                    assert(0 <= j < i + 1 && b[j]);
                } else if b[i as int] {
                    assert(0 <= i < i + 1 && b[i as int]);
                }
            }
        }
        i = i + 1;
    }
    proof {
        crate::bits::num_zero(b);
    }
    Ok(acc)
}

/// Return a Boolean wire that is one exactly when `word` is zero.
pub fn zero_word<C: ContextWithErtOps<bool> + ?Sized, const N: usize>(
    t: &mut C,
    word: &[C::Wrapped; N],
    one: &C::Wrapped,
) -> (r: Result<C::Wrapped, C::Error>) where C::Wrapped: Clone
    requires
        N > 0,
    ensures
        crate::context::sound::<C>() && crate::context::bit::<C>(*one) ==> (r matches Ok(w) ==>
            crate::context::bit::<C>(w) == (crate::bits::num(crate::context::bits::<C>(word@))
            == 0)),
        C::reliable() ==> r is Ok,
        r matches Err(error) ==> C::errs(error),
        r is Ok ==> crate::context::asked::<C>(
            old(t),
            final(t),
            crate::context::repeated(BitOp::Or, (N - 1) as nat).push(BitOp::Xor),
        ),
{
    let nonzero = nonzero_word(t, word)?;
    let ghost was = (*t).gates();
    let r = t.bitxor(nonzero, keep::<C>(one));
    proof {
        if C::logs() && r is Ok {
            let more = crate::context::repeated(BitOp::Or, (N - 1) as nat);
            let now = (*t).gates();
            crate::context::asked_more((*old(t)).gates(), was, now, now.last(), more);
        }
    }
    r
}

} // verus!
