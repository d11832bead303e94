//! Little-endian bit sequences and the numbers they spell.
use vstd::prelude::*;
use vstd::arithmetic::power2::*;

verus! {

/// The number that `b` spells, bit zero first.
pub open spec fn num(b: Seq<bool>) -> nat
    decreases b.len(),
{
    if b.len() == 0 {
        0
    } else {
        num(b.drop_last()) + if b.last() {
            pow2((b.len() - 1) as nat)
        } else {
            0
        }
    }
}

pub proof fn num_empty()
    ensures
        num(Seq::<bool>::empty()) == 0,
{
}

/// A number of `n` bits is below `2^n`.
pub proof fn num_bound(b: Seq<bool>)
    ensures
        num(b) < pow2(b.len()),
    decreases b.len(),
{
    lemma_pow2_pos(b.len());
    if b.len() > 0 {
        num_bound(b.drop_last());
        lemma_pow2_unfold(b.len());
    }
}

/// The number read from its low bit up.
pub proof fn num_front(b: Seq<bool>)
    requires
        b.len() > 0,
    ensures
        num(b) == (if b[0] {
            1nat
        } else {
            0nat
        }) + 2 * num(b.subrange(1, b.len() as int)),
    decreases b.len(),
{
    lemma2_to64();
    let rest = b.subrange(1, b.len() as int);
    if b.len() == 1 {
        assert(b.drop_last() =~= Seq::<bool>::empty());
        assert(rest =~= Seq::<bool>::empty());
    } else {
        num_front(b.drop_last());
        assert(b.drop_last().subrange(1, b.len() - 1) =~= rest.drop_last());
        lemma_pow2_unfold((b.len() - 1) as nat);
        assert(rest.last() == b.last());
    }
}

/// One more low bit of a number.
pub proof fn num_step(b: Seq<bool>, i: int)
    requires
        0 <= i < b.len(),
    ensures
        num(b.take(i + 1)) == num(b.take(i)) + if b[i] {
            pow2(i as nat)
        } else {
            0
        },
{
    assert(b.take(i + 1).drop_last() =~= b.take(i));
}

/// The high bits of a number weigh no more than the number.
pub proof fn num_suffix(b: Seq<bool>, at: int)
    requires
        0 <= at <= b.len(),
    ensures
        num(b.subrange(at, b.len() as int)) <= num(b),
    decreases at,
{
    if at == 0 {
        assert(b.subrange(0, b.len() as int) =~= b);
    } else {
        let more = b.subrange(at - 1, b.len() as int);
        num_front(more);
        assert(more.subrange(1, more.len() as int) =~= b.subrange(at, b.len() as int));
        num_suffix(b, at - 1);
    }
}

/// A number as a two's-complement value.
pub open spec fn signed(b: Seq<bool>) -> int {
    if b.len() > 0 && b.last() {
        num(b) - pow2(b.len())
    } else {
        num(b) as int
    }
}

/// The low `n` bits of `v`.
pub open spec fn bits_of(v: nat, n: nat) -> Seq<bool> {
    Seq::new(n, |i: int| (v / pow2(i as nat)) % 2 == 1)
}

/// Spelling out the low `n` bits reduces a number modulo `2^n`.
pub proof fn num_bits_of(v: nat, n: nat)
    ensures
        num(bits_of(v, n)) == v % pow2(n),
    decreases n,
{
    lemma_pow2_pos(n);
    if n == 0 {
        lemma2_to64();
        assert(bits_of(v, n) =~= Seq::<bool>::empty());
        assert(v % 1 == 0) by (nonlinear_arith);
    } else {
        let m = (n - 1) as nat;
        num_bits_of(v, m);
        assert(bits_of(v, n).drop_last() =~= bits_of(v, m));
        lemma_pow2_pos(m);
        lemma_pow2_unfold(n);
        let p = pow2(m);
        let q = v / p;
        let r = v % p;
        assert(v % (2 * p) == (q % 2) * p + r) by (nonlinear_arith)
            requires
                p > 0,
                q == v / p,
                r == v % p,
        {
            let h = q / 2;
            assert(v == q * p + r);
            assert(q == 2 * h + q % 2);
            assert(v == h * (2 * p) + ((q % 2) * p + r));
            assert(0 <= (q % 2) * p + r < 2 * p);
            vstd::arithmetic::div_mod::lemma_fundamental_div_mod_converse(
                v as int,
                (2 * p) as int,
                h as int,
                ((q % 2) * p + r) as int,
            );
        }
        assert(bits_of(v, n).last() == (q % 2 == 1));
        if q % 2 == 1 {
            assert((q % 2) * p == p);
        } else {
            assert(q % 2 == 0);
            assert((q % 2) * p == 0);
        }
    }
}

/// Bit sequences of one length that spell one number are the same.
pub proof fn num_injective(a: Seq<bool>, b: Seq<bool>)
    requires
        a.len() == b.len(),
        num(a) == num(b),
    ensures
        a == b,
    decreases a.len(),
{
    if a.len() == 0 {
        assert(a =~= b);
    } else {
        num_bound(a.drop_last());
        num_bound(b.drop_last());
        num_injective(a.drop_last(), b.drop_last());
        assert(a =~= a.drop_last().push(a.last()));
        assert(b =~= b.drop_last().push(b.last()));
    }
}

/// A bit sequence is the spelling of its number.
pub proof fn bits_of_num(b: Seq<bool>)
    ensures
        bits_of(num(b), b.len()) == b,
{
    num_bits_of(num(b), b.len());
    num_bound(b);
    vstd::arithmetic::div_mod::lemma_small_mod(num(b), pow2(b.len()));
    num_injective(bits_of(num(b), b.len()), b);
}

/// A bit sequence whose number is `v` modulo `2^n` spells `v`.
pub proof fn spells(b: Seq<bool>, v: nat, extra: nat)
    requires
        num(b) + extra * pow2(b.len()) == v,
    ensures
        b == bits_of(v, b.len()),
{
    let n = b.len();
    num_bound(b);
    num_bits_of(v, n);
    vstd::arithmetic::div_mod::lemma_fundamental_div_mod_converse(
        v as int,
        pow2(n) as int,
        extra as int,
        num(b) as int,
    );
    num_injective(b, bits_of(v, n));
}

/// The complement of every bit.
pub open spec fn complement(b: Seq<bool>) -> Seq<bool> {
    Seq::new(b.len(), |i: int| !b[i])
}

/// A number and its complement add up to all ones.
pub proof fn num_complement(b: Seq<bool>)
    ensures
        num(complement(b)) == pow2(b.len()) - 1 - num(b),
    decreases b.len(),
{
    if b.len() == 0 {
        lemma2_to64();
    } else {
        num_complement(b.drop_last());
        assert(complement(b).drop_last() =~= complement(b.drop_last()));
        lemma_pow2_unfold(b.len());
    }
}

/// A word is zero exactly when none of its bits is set.
pub proof fn num_zero(b: Seq<bool>)
    ensures
        (num(b) == 0) == (forall|i: int| 0 <= i < b.len() ==> !#[trigger] b[i]),
    decreases b.len(),
{
    if b.len() > 0 {
        num_zero(b.drop_last());
        lemma_pow2_pos((b.len() - 1) as nat);
        if num(b) == 0 {
            assert forall|i: int| 0 <= i < b.len() implies !#[trigger] b[i] by {
                if i < b.len() - 1 {
                    assert(b.drop_last()[i] == b[i]);
                }
            }
        }
        if forall|i: int| 0 <= i < b.len() ==> !#[trigger] b[i] {
            assert forall|i: int| 0 <= i < b.drop_last().len() implies !#[trigger] b.drop_last()[i] by {
                assert(b.drop_last()[i] == b[i]);
            }
            assert(!b[b.len() - 1]);
        }
    }
}

/// The test of a single bit of a machine word.
pub proof fn shifted_bit(v: u64, i: u64)
    requires
        i < 64,
    ensures
        ((v >> i) & 1 == 0) == ((v as nat / pow2(i as nat)) % 2 != 1),
        ((v >> i) & 1 == 1) == ((v as nat / pow2(i as nat)) % 2 == 1),
{
    vstd::bits::lemma_u64_shr_is_div(v, i);
    let q = v >> i;
    assert(q & 1 == q % 2) by (bit_vector);
}

/// Bitwise conjunction.
pub open spec fn and_bits(a: Seq<bool>, b: Seq<bool>) -> Seq<bool> {
    Seq::new(a.len(), |i: int| a[i] && b[i])
}

/// Bitwise disjunction.
pub open spec fn or_bits(a: Seq<bool>, b: Seq<bool>) -> Seq<bool> {
    Seq::new(a.len(), |i: int| a[i] || b[i])
}

/// Bitwise exclusive-or.
pub open spec fn xor_bits(a: Seq<bool>, b: Seq<bool>) -> Seq<bool> {
    Seq::new(a.len(), |i: int| a[i] != b[i])
}

/// `a + b + carry`, reduced to the width of `a`.
pub open spec fn add_of(a: Seq<bool>, b: Seq<bool>, carry: bool) -> Seq<bool> {
    bits_of(num(a) + num(b) + carry_num(carry), a.len())
}

/// Whether `a + b + carry` leaves the width of `a`.
pub open spec fn carry_of(a: Seq<bool>, b: Seq<bool>, carry: bool) -> bool {
    num(a) + num(b) + carry_num(carry) >= pow2(a.len())
}

/// A carry as a number.
pub open spec fn carry_num(carry: bool) -> nat {
    if carry {
        1
    } else {
        0
    }
}

/// `a - b`, reduced to the width of `a`.
pub open spec fn sub_of(a: Seq<bool>, b: Seq<bool>) -> Seq<bool> {
    add_of(a, complement(b), true)
}

/// Subtraction through the complement is subtraction modulo `2^n`, and its
/// carry says that no borrow occurred.
pub proof fn sub_is_difference(a: Seq<bool>, b: Seq<bool>)
    requires
        a.len() == b.len(),
    ensures
        num(sub_of(a, b)) == (num(a) - num(b)) % (pow2(a.len()) as int),
        carry_of(a, complement(b), true) == (num(a) >= num(b)),
{
    let n = a.len();
    let p = pow2(n) as int;
    num_complement(b);
    num_bound(a);
    num_bound(b);
    lemma_pow2_pos(n);
    let total = num(a) + num(complement(b)) + 1;
    assert(total == num(a) - num(b) + p);
    num_bits_of(total, n);
    vstd::arithmetic::div_mod::lemma_mod_add_multiples_vanish(num(a) - num(b), p);
}

/// How many bits of a word are set.
pub open spec fn set_bits(b: Seq<bool>) -> nat
    decreases b.len(),
{
    if b.len() == 0 {
        0
    } else {
        set_bits(b.drop_last()) + if b.last() {
            1nat
        } else {
            0nat
        }
    }
}

/// One more bit of a word.
pub proof fn set_bits_step(b: Seq<bool>, i: int)
    requires
        0 <= i < b.len(),
    ensures
        set_bits(b.take(i + 1)) == set_bits(b.take(i)) + if b[i] {
            1nat
        } else {
            0nat
        },
{
    assert(b.take(i + 1).drop_last() =~= b.take(i));
}

/// A set bit is not counted before its place.
pub proof fn set_bits_grow(b: Seq<bool>, i: int)
    requires
        0 <= i < b.len(),
        b[i],
    ensures
        set_bits(b.take(i)) < set_bits(b),
    decreases b.len(),
{
    let front = b.drop_last();
    if i == b.len() - 1 {
        assert(b.take(i) =~= front);
    } else {
        set_bits_grow(front, i);
        assert(front.take(i) =~= b.take(i));
    }
}

} // verus!
