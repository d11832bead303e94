//! Host-known words and the bits that spell them.
//!
//! A machine keeps a host-known number beside a symbolic word wherever it can.
//! These lemmas say that computing on the number and computing on the bits
//! give the same word.
use crate::word::BitOp;
use vstd::arithmetic::div_mod::*;
use vstd::arithmetic::power2::*;
use vstd::prelude::*;

verus! {

/// The bits of a 32-bit number.
pub open spec fn word(v: u32) -> Seq<bool> {
    crate::bits::bits_of(v as nat, 32)
}

/// Bit `i` of a 32-bit number, by shifting.
pub proof fn word_bit(v: u32, i: u32)
    requires
        i < 32,
    ensures
        word(v)[i as int] == ((v >> i) & 1 == 1),
        word(v)[i as int] == ((v >> i) & 1 != 0),
{
    vstd::bits::lemma_u32_shr_is_div(v, i);
    let q = v >> i;
    assert(q & 1 == q % 2) by (bit_vector);
}

/// The number that the bits of a 32-bit number spell.
pub proof fn word_num(v: u32)
    ensures
        crate::bits::num(word(v)) == v,
        word(v).len() == 32,
{
    crate::bits::num_bits_of(v as nat, 32);
    lemma2_to64();
    lemma_small_mod(v as nat, 0x1_0000_0000);
}

/// Different numbers have different bits.
pub proof fn word_injective(a: u32, b: u32)
    requires
        word(a) == word(b),
    ensures
        a == b,
{
    word_num(a);
    word_num(b);
}

/// Only the low 32 bits of a number matter to a 32-bit word.
pub proof fn word_truncates(v: u64)
    ensures
        crate::bits::bits_of(v as nat, 32) == word(v as u32),
{
    lemma2_to64();
    crate::bits::num_bits_of(v as nat, 32);
    word_num(v as u32);
    assert(v as u32 == v % 0x1_0000_0000) by (bit_vector);
    crate::bits::num_injective(crate::bits::bits_of(v as nat, 32), word(v as u32));
}

/// The sign bit of a 32-bit number.
pub proof fn word_sign(v: u32)
    ensures
        word(v)[31] == (v >> 31 != 0),
        word(v)[31] == (v >= 0x8000_0000),
        word(v).last() == word(v)[31],
{
    word_bit(v, 31);
    assert(((v >> 31) & 1 == 1) == (v >> 31 != 0) && (v >> 31 != 0) == (v >= 0x8000_0000)) by (bit_vector);
}

/// A bitwise operation on two host-known words.
pub open spec fn fold_value(operation: BitOp, a: u32, b: u32) -> u32 {
    match operation {
        BitOp::And => a & b,
        BitOp::Or => a | b,
        BitOp::Xor => a ^ b,
    }
}

/// Apply a bitwise operation to two host-known words.
pub fn fold(operation: BitOp, a: u32, b: u32) -> (r: u32)
    ensures
        r == fold_value(operation, a, b),
{
    match operation {
        BitOp::And => a & b,
        BitOp::Or => a | b,
        BitOp::Xor => a ^ b,
    }
}

pub proof fn word_fold(operation: BitOp, a: u32, b: u32)
    ensures
        word(fold_value(operation, a, b)) == crate::word::bitwise_bits(operation, word(a), word(b)),
{
    let left = word(fold_value(operation, a, b));
    let right = crate::word::bitwise_bits(operation, word(a), word(b));
    assert forall|i: int| 0 <= i < 32 implies left[i] == right[i] by {
        let k = i as u32;
        word_bit(a, k);
        word_bit(b, k);
        word_bit(fold_value(operation, a, b), k);
        assert((((a & b) >> k) & 1 == 1) == ((a >> k) & 1 == 1 && (b >> k) & 1 == 1) && (((a | b) >> k)
            & 1 == 1) == ((a >> k) & 1 == 1 || (b >> k) & 1 == 1) && (((a ^ b) >> k) & 1 == 1) == ((a
            >> k) & 1 == 1 != ((b >> k) & 1 == 1))) by (bit_vector);
    }
    assert(left =~= right);
}

pub proof fn word_complement(a: u32)
    ensures
        word(!a) == crate::bits::complement(word(a)),
{
    assert forall|i: int| 0 <= i < 32 implies word(!a)[i] == crate::bits::complement(word(a))[i] by {
        let k = i as u32;
        word_bit(a, k);
        word_bit(!a, k);
        assert(k < 32 ==> (((!a) >> k) & 1 == 1) == !((a >> k) & 1 == 1)) by (bit_vector);
    }
    assert(word(!a) =~= crate::bits::complement(word(a)));
}

/// `a + b + carry` in 32 bits.
pub open spec fn sum_value(a: u32, b: u32, carry: bool) -> u32 {
    ((a + b + crate::bits::carry_num(carry)) % 0x1_0000_0000) as u32
}

pub proof fn word_sum(a: u32, b: u32, carry: bool)
    ensures
        word(sum_value(a, b, carry)) == crate::bits::add_of(word(a), word(b), carry),
        crate::bits::carry_of(word(a), word(b), carry) == (a + b + crate::bits::carry_num(carry)
            >= 0x1_0000_0000),
{
    lemma2_to64();
    word_num(a);
    word_num(b);
    let total = (a + b + crate::bits::carry_num(carry)) as nat;
    let r = sum_value(a, b, carry);
    crate::bits::num_bits_of(total, 32);
    word_num(r);
    crate::bits::num_injective(word(r), crate::bits::bits_of(total, 32));
}

/// `a - b - 1 + carry` in 32 bits: subtraction with an inverted borrow.
pub open spec fn difference_value(a: u32, b: u32, carry: bool) -> u32 {
    sum_value(a, !b, carry)
}

pub proof fn complement_value(b: u32)
    ensures
        !b == 0xffff_ffff - b,
{
    assert(!b == 0xffff_ffffu32 - b) by (bit_vector);
}

pub proof fn word_difference(a: u32, b: u32, carry: bool)
    ensures
        word(difference_value(a, b, carry)) == crate::bits::add_of(
            word(a),
            crate::bits::complement(word(b)),
            carry,
        ),
        crate::bits::carry_of(word(a), crate::bits::complement(word(b)), carry) == (a
            + crate::bits::carry_num(carry) > b),
        carry ==> difference_value(a, b, carry) == a.wrapping_sub(b),
        !carry ==> difference_value(a, b, carry) == a.wrapping_sub(b).wrapping_sub(1),
{
    word_complement(b);
    word_sum(a, !b, carry);
    complement_value(b);
}

pub proof fn wrapping_sum(a: u32, b: u32)
    ensures
        sum_value(a, b, false) == a.wrapping_add(b),
        sum_value(a, b, true) == a.wrapping_add(b).wrapping_add(1),
{
}

/// The low word of a product.
pub proof fn word_product_low(a: u32, b: u32)
    ensures
        word(a.wrapping_mul(b)) == crate::bits::bits_of((a * b) as nat, 32),
{
    lemma2_to64();
    word_num(a.wrapping_mul(b));
    crate::bits::num_bits_of((a * b) as nat, 32);
    crate::bits::num_injective(word(a.wrapping_mul(b)), crate::bits::bits_of((a * b) as nat, 32));
}

} // verus!
