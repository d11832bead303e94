//! Words as numbers: what splitting, joining and shifting a word does to the
//! number that it spells.
use crate::word::Shift;
use vstd::arithmetic::div_mod::*;
use vstd::arithmetic::mul::*;
use vstd::arithmetic::power2::*;
use vstd::prelude::*;

verus! {

/// The number of two words joined, the low one first.
pub proof fn joined(low: Seq<bool>, high: Seq<bool>)
    ensures
        crate::bits::num(low + high) == crate::bits::num(low) + pow2(low.len()) * crate::bits::num(
            high,
        ),
    decreases high.len(),
{
    let p = pow2(low.len()) as int;
    if high.len() == 0 {
        assert(low + high =~= low);
        assert(p * 0 == 0);
    } else {
        let front = high.drop_last();
        joined(low, front);
        assert((low + high).drop_last() =~= low + front);
        assert((low + high).last() == high.last());
        let top = pow2((high.len() - 1) as nat) as int;
        lemma_pow2_adds(low.len(), (high.len() - 1) as nat);
        lemma_mul_is_distributive_add(p, crate::bits::num(front) as int, top);
        assert(p * (crate::bits::num(front) + 0) == p * crate::bits::num(front));
    }
}

/// The two parts of a word: the low `k` bits are the remainder, and the others
/// the quotient, of its number by `2^k`.
pub proof fn split(b: Seq<bool>, k: nat)
    requires
        k <= b.len(),
    ensures
        crate::bits::num(b.take(k as int)) == crate::bits::num(b) % pow2(k),
        crate::bits::num(b.skip(k as int)) == crate::bits::num(b) / pow2(k),
{
    let low = b.take(k as int);
    let high = b.skip(k as int);
    assert(low + high =~= b);
    joined(low, high);
    crate::bits::num_bound(low);
    let p = pow2(k) as int;
    lemma_mul_is_commutative(p, crate::bits::num(high) as int);
    lemma_fundamental_div_mod_converse(
        crate::bits::num(b) as int,
        p,
        crate::bits::num(high) as int,
        crate::bits::num(low) as int,
    );
}

/// A word of clear bits is zero.
pub proof fn cleared(b: Seq<bool>)
    requires
        forall|i: int| 0 <= i < b.len() ==> !#[trigger] b[i],
    ensures
        crate::bits::num(b) == 0,
{
    crate::bits::num_zero(b);
}

/// The top bit says whether a word's number is in the upper half.
pub proof fn top_bit(b: Seq<bool>)
    requires
        b.len() > 0,
    ensures
        b.last() == (crate::bits::num(b) >= pow2((b.len() - 1) as nat)),
{
    crate::bits::num_bound(b.drop_last());
}

/// A shift to the left multiplies, modulo the width.
pub proof fn shifted_left(b: Seq<bool>, k: nat)
    requires
        k <= b.len(),
    ensures
        crate::bits::num(crate::word::shift_bits(b, k, Shift::Left)) == (crate::bits::num(b) * pow2(
            k,
        )) % pow2(b.len()),
{
    let n = b.len();
    let zeros = Seq::new(k, |i: int| false);
    let kept = b.take(n - k);
    assert(crate::word::shift_bits(b, k, Shift::Left) =~= zeros + kept);
    joined(zeros, kept);
    cleared(zeros);
    split(b, (n - k) as nat);
    lemma_pow2_adds(k, (n - k) as nat);
    lemma_pow2_pos(k);
    lemma_pow2_pos((n - k) as nat);
    let v = crate::bits::num(b) as int;
    lemma_truncate_middle(v, pow2(k) as int, pow2((n - k) as nat) as int);
    lemma_mul_is_commutative(v, pow2(k) as int);
}

/// A logical shift to the right divides.
pub proof fn shifted_right(b: Seq<bool>, k: nat)
    requires
        k <= b.len(),
    ensures
        crate::bits::num(crate::word::shift_bits(b, k, Shift::LogicalRight)) == crate::bits::num(b)
            / pow2(k),
{
    let zeros = Seq::new(k, |i: int| false);
    let kept = b.skip(k as int);
    assert(crate::word::shift_bits(b, k, Shift::LogicalRight) =~= kept + zeros);
    joined(kept, zeros);
    cleared(zeros);
    split(b, k);
    assert(pow2(kept.len()) * 0 == 0);
}

/// An arithmetic shift to the right divides the signed number, rounding down.
pub proof fn shifted_signed(b: Seq<bool>, k: nat)
    requires
        k <= b.len(),
        b.len() > 0,
    ensures
        crate::bits::signed(crate::word::shift_bits(b, k, Shift::ArithmeticRight))
            == crate::bits::signed(b) / (pow2(k) as int),
{
    let n = b.len();
    let sign = b.last();
    let signs = Seq::new(k, |i: int| sign);
    let kept = b.skip(k as int);
    let r = crate::word::shift_bits(b, k, Shift::ArithmeticRight);
    assert(r =~= kept + signs);
    joined(kept, signs);
    split(b, k);
    lemma_pow2_pos(k);
    let p = pow2(k) as int;
    let q = pow2((n - k) as nat) as int;
    lemma_pow2_adds((n - k) as nat, k);
    assert(r.last() == sign);
    if sign {
        assert(crate::bits::complement(signs) =~= Seq::new(k, |i: int| false));
        cleared(crate::bits::complement(signs));
        crate::bits::num_complement(signs);
        lemma_mul_is_distributive_sub(q, p, 1);
        // num(r) == num(b) / p + q * (p - 1)
        lemma_hoist_over_denominator(crate::bits::num(b) as int, -q, p as nat);
        lemma_mul_is_commutative(q, p);
        assert(crate::bits::num(b) - pow2(n) == crate::bits::num(b) + (-q) * p) by (nonlinear_arith)
            requires
                pow2(n) == q * p,
        ;
    } else {
        cleared(signs);
        assert(q * 0 == 0);
    }
}

/// A word extended with its sign keeps its signed number.
pub proof fn extended_signed(word: Seq<bool>, n: nat)
    requires
        0 < word.len() <= n,
    ensures
        crate::bits::signed(crate::wide::extended(word, n, true)) == crate::bits::signed(word),
{
    let k = (n - word.len()) as nat;
    let sign = word.last();
    let signs = Seq::new(k, |i: int| sign);
    assert(crate::wide::extended(word, n, true) =~= word + signs);
    joined(word, signs);
    let p = pow2(word.len()) as int;
    lemma_pow2_adds(word.len(), k);
    assert((word + signs).last() == sign);
    if sign {
        assert(crate::bits::complement(signs) =~= Seq::new(k, |i: int| false));
        cleared(crate::bits::complement(signs));
        crate::bits::num_complement(signs);
        lemma_mul_is_distributive_sub(p, pow2(k) as int, 1);
    } else {
        cleared(signs);
        assert(p * 0 == 0);
    }
}

/// A word extended with zeros keeps its number.
pub proof fn extended_plain(word: Seq<bool>, n: nat)
    requires
        word.len() <= n,
    ensures
        crate::bits::num(crate::wide::extended(word, n, false)) == crate::bits::num(word),
{
    let zeros = Seq::new((n - word.len()) as nat, |i: int| false);
    assert(crate::wide::extended(word, n, false) =~= word + zeros);
    joined(word, zeros);
    cleared(zeros);
    assert(pow2(word.len()) * 0 == 0);
}

/// A sum of words is the sum of their numbers, modulo the width.
pub proof fn sum(a: Seq<bool>, b: Seq<bool>, carry: bool)
    ensures
        crate::bits::num(crate::bits::add_of(a, b, carry)) == (crate::bits::num(a)
            + crate::bits::num(b) + if carry {
            1nat
        } else {
            0nat
        }) % pow2(a.len()),
        crate::bits::add_of(a, b, carry).len() == a.len(),
{
    crate::bits::num_bits_of(
        crate::bits::num(a) + crate::bits::num(b) + crate::bits::carry_num(carry),
        a.len(),
    );
}

/// A digit of a number that is written in mixed places.
pub proof fn digit(v: int, low: int, size: int, high: int, mid: int, rest: int)
    requires
        v == high * (low * size) + mid * low + rest,
        0 <= rest < low,
        0 <= mid < size,
    ensures
        (v / low) % size == mid,
        v / low == high * size + mid,
{
    lemma_mul_is_associative(high, size, low);
    lemma_mul_is_commutative(low, size);
    lemma_mul_is_distributive_add_other_way(low, high * size, mid);
    lemma_fundamental_div_mod_converse(v, low, high * size + mid, rest);
    lemma_fundamental_div_mod_converse(high * size + mid, size, high, mid);
}

} // verus!
