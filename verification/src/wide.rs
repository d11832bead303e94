//! Host-known numbers of up to 64 bits and the bits that spell them.
//!
//! A register of `n` bits keeps a host-known number beside its wires. Only the
//! low `n` bits of the number count.
use crate::compare::ComparePredicate;
use crate::word::{BitOp, Shift};
use vstd::arithmetic::div_mod::*;
use vstd::arithmetic::power2::*;
use vstd::prelude::*;

verus! {

/// Numbers that are equal modulo `2^n` have the same `n` bits.
pub proof fn congruent(v: nat, w: nat, n: nat)
    requires
        v % pow2(n) == w % pow2(n),
    ensures
        crate::bits::bits_of(v, n) == crate::bits::bits_of(w, n),
{
    crate::bits::num_bits_of(v, n);
    crate::bits::num_bits_of(w, n);
    crate::bits::num_injective(crate::bits::bits_of(v, n), crate::bits::bits_of(w, n));
}

/// A number modulo `2^64` has the same `n` bits, for `n` up to 64.
pub proof fn wraps(v: nat, n: nat)
    requires
        n <= 64,
    ensures
        crate::bits::bits_of((v % 0x1_0000_0000_0000_0000) as nat, n) == crate::bits::bits_of(v, n),
{
    lemma2_to64();
    lemma_pow2_adds(n, (64 - n) as nat);
    lemma_pow2_pos(n);
    lemma_pow2_pos((64 - n) as nat);
    lemma_mod_mod(v as int, pow2(n) as int, pow2((64 - n) as nat) as int);
    congruent((v % 0x1_0000_0000_0000_0000) as nat, v, n);
}

/// A number below `2^n` is what its `n` bits spell.
pub proof fn spelled(v: nat, n: nat)
    requires
        v < pow2(n),
    ensures
        crate::bits::num(crate::bits::bits_of(v, n)) == v,
{
    crate::bits::num_bits_of(v, n);
    lemma_small_mod(v, pow2(n));
}

/// Different 64-bit numbers have different bits.
pub proof fn spelled_injective(v: u64, w: u64)
    requires
        crate::bits::bits_of(v as nat, 64) == crate::bits::bits_of(w as nat, 64),
    ensures
        v == w,
{
    lemma2_to64();
    spelled(v as nat, 64);
    spelled(w as nat, 64);
}

/// The sum of numbers spells the sum of their bits.
pub proof fn sum_bits(a: nat, b: nat, carry: bool, n: nat)
    ensures
        crate::bits::add_of(
            crate::bits::bits_of(a, n),
            crate::bits::bits_of(b, n),
            carry,
        ) == crate::bits::bits_of(a + b + crate::bits::carry_num(carry), n),
{
    let p = pow2(n) as int;
    lemma_pow2_pos(n);
    crate::bits::num_bits_of(a, n);
    crate::bits::num_bits_of(b, n);
    let c = crate::bits::carry_num(carry) as int;
    lemma_add_mod_noop(a as int, b as int, p);
    lemma_add_mod_noop(a as int % p + b as int % p, c, p);
    lemma_add_mod_noop(a as int + b as int, c, p);
    congruent(
        (a as int % p + b as int % p + c) as nat,
        (a + b + crate::bits::carry_num(carry)) as nat,
        n,
    );
}

/// The wrapping sum of two machine words.
pub proof fn wrapping_sum_bits(a: u64, b: u64, n: nat)
    requires
        n <= 64,
    ensures
        crate::bits::bits_of(a.wrapping_add(b) as nat, n) == crate::bits::add_of(
            crate::bits::bits_of(a as nat, n),
            crate::bits::bits_of(b as nat, n),
            false,
        ),
{
    sum_bits(a as nat, b as nat, false, n);
    wraps((a + b) as nat, n);
    assert(a.wrapping_add(b) as nat == (a + b) as nat % 0x1_0000_0000_0000_0000);
}

/// The bits of a complement.
pub proof fn complement_bits(b: nat, n: nat)
    ensures
        crate::bits::complement(crate::bits::bits_of(b, n)) == crate::bits::bits_of(
            (pow2(n) - 1 - b % pow2(n)) as nat,
            n,
        ),
{
    lemma_pow2_pos(n);
    let w = crate::bits::bits_of(b, n);
    crate::bits::num_complement(w);
    crate::bits::num_bits_of(b, n);
    lemma_mod_bound(b as int, pow2(n) as int);
    let v = (pow2(n) - 1 - b % pow2(n)) as nat;
    spelled(v, n);
    crate::bits::num_injective(crate::bits::complement(w), crate::bits::bits_of(v, n));
}

/// The wrapping difference of two machine words.
pub proof fn wrapping_difference_bits(a: u64, b: u64, n: nat)
    requires
        n <= 64,
    ensures
        crate::bits::bits_of(a.wrapping_sub(b) as nat, n) == crate::bits::sub_of(
            crate::bits::bits_of(a as nat, n),
            crate::bits::bits_of(b as nat, n),
        ),
{
    let p = pow2(n) as int;
    let top = 0x1_0000_0000_0000_0000int;
    lemma_pow2_pos(n);
    complement_bits(b as nat, n);
    let c = (p - 1 - b as int % p) as nat;
    sum_bits(a as nat, c, true, n);
    let q = b as int / p;
    lemma_fundamental_div_mod(b as int, p);
    // a + c + 1 == a - b + (q + 1) * p
    assert(a + c + 1 == a - b + (q + 1) * p) by (nonlinear_arith)
        requires
            c == p - 1 - b as int % p,
            b as int == p * q + b as int % p,
    ;
    lemma_mod_multiples_vanish(q + 1, a - b, p);
    assert((q + 1) * p == p * (q + 1)) by (nonlinear_arith);
    let d = a.wrapping_sub(b) as int;
    lemma2_to64();
    lemma_pow2_adds(n, (64 - n) as nat);
    let m = pow2((64 - n) as nat) as int;
    lemma_mod_multiples_vanish(m, a - b, p);
    assert(p * m + (a - b) == a - b + top) by (nonlinear_arith)
        requires
            p * m == top,
    ;
    assert(d % p == (a - b) % p);
    congruent(d as nat, (a + c + 1) as nat, n);
}

/// The low bits of a number's bits.
pub proof fn low_bits(v: nat, k: nat, n: nat)
    requires
        k <= n,
    ensures
        crate::bits::bits_of(v, n).take(k as int) == crate::bits::bits_of(v, k),
{
    assert(crate::bits::bits_of(v, n).take(k as int) =~= crate::bits::bits_of(v, k));
}

/// The bits of zero.
pub proof fn zero_bits(n: nat)
    ensures
        forall|i: int| 0 <= i < n ==> !#[trigger] crate::bits::bits_of(0, n)[i],
{
    assert forall|i: int| 0 <= i < n implies !#[trigger] crate::bits::bits_of(0, n)[i] by {
        lemma_pow2_pos(i as nat);
        lemma_basic_div(0, pow2(i as nat) as int);
    }
}

/// The low `bits` bits of a number, for registers of 32 or 64 bits.
pub open spec fn low(v: u64, bits: nat) -> u64 {
    if bits == 64 {
        v
    } else {
        (v % 0x1_0000_0000) as u64
    }
}

/// A number of at most `bits` bits, for registers of 32 or 64 bits.
pub open spec fn fits(v: u64, bits: nat) -> bool {
    low(v, bits) == v
}

/// The low `BITS` bits of a number.
pub fn truncate<const BITS: usize>(v: u64) -> (r: u64)
    requires
        BITS == 32 || BITS == 64,
    ensures
        r == low(v, BITS as nat),
{
    if BITS == 64 {
        v
    } else {
        v % 0x1_0000_0000
    }
}

/// Truncation keeps the bits that count.
pub proof fn low_spells(v: u64, bits: nat)
    requires
        bits == 32 || bits == 64,
    ensures
        crate::bits::bits_of(low(v, bits) as nat, bits) == crate::bits::bits_of(v as nat, bits),
        fits(low(v, bits), bits),
        crate::bits::num(crate::bits::bits_of(v as nat, bits)) == low(v, bits),
{
    lemma2_to64();
    crate::bits::num_bits_of(v as nat, bits);
    if bits == 32 {
        lemma_mod_bound(v as int, 0x1_0000_0000);
        lemma_small_mod(low(v, bits) as nat, 0x1_0000_0000);
        congruent(low(v, bits) as nat, v as nat, 32);
    } else {
        lemma_small_mod(v as nat, 0x1_0000_0000_0000_0000);
    }
}

/// Numbers that fit are told apart by their bits.
pub proof fn fits_injective(v: u64, w: u64, bits: nat)
    requires
        bits == 32 || bits == 64,
        fits(v, bits),
        fits(w, bits),
        crate::bits::bits_of(v as nat, bits) == crate::bits::bits_of(w as nat, bits),
    ensures
        v == w,
{
    low_spells(v, bits);
    low_spells(w, bits);
}

/// A bitwise operation on two host-known numbers.
pub open spec fn fold_value(operation: BitOp, a: u64, b: u64) -> u64 {
    match operation {
        BitOp::And => a & b,
        BitOp::Or => a | b,
        BitOp::Xor => a ^ b,
    }
}

/// Apply a bitwise operation to two host-known numbers.
pub fn fold(operation: BitOp, a: u64, b: u64) -> (r: u64)
    ensures
        r == fold_value(operation, a, b),
{
    match operation {
        BitOp::And => a & b,
        BitOp::Or => a | b,
        BitOp::Xor => a ^ b,
    }
}

/// A bitwise operation on numbers is one on their bits.
pub proof fn fold_bits(operation: BitOp, a: u64, b: u64, n: nat)
    requires
        n <= 64,
    ensures
        crate::bits::bits_of(fold_value(operation, a, b) as nat, n) == crate::word::bitwise_bits(
            operation,
            crate::bits::bits_of(a as nat, n),
            crate::bits::bits_of(b as nat, n),
        ),
{
    let left = crate::bits::bits_of(fold_value(operation, a, b) as nat, n);
    let right = crate::word::bitwise_bits(
        operation,
        crate::bits::bits_of(a as nat, n),
        crate::bits::bits_of(b as nat, n),
    );
    assert forall|i: int| 0 <= i < n implies left[i] == right[i] by {
        let k = i as u64;
        crate::bits::shifted_bit(a, k);
        crate::bits::shifted_bit(b, k);
        crate::bits::shifted_bit(fold_value(operation, a, b), k);
        assert((((a & b) >> k) & 1 == 1) == ((a >> k) & 1 == 1 && (b >> k) & 1 == 1) && (((a | b) >> k)
            & 1 == 1) == ((a >> k) & 1 == 1 || (b >> k) & 1 == 1) && (((a ^ b) >> k) & 1 == 1) == ((a
            >> k) & 1 == 1 != ((b >> k) & 1 == 1))) by (bit_vector);
    }
    assert(left =~= right);
}

/// A shift of a host-known number of `bits` bits.
pub fn shift_value<const BITS: usize>(v: u64, amount: u32, direction: Shift) -> (r: u64)
    requires
        BITS == 32 || BITS == 64,
        fits(v, BITS as nat),
        amount < BITS,
        direction != Shift::RotateRight,
    ensures
        fits(r, BITS as nat),
        crate::bits::bits_of(r as nat, BITS as nat) == crate::word::shift_bits(
            crate::bits::bits_of(v as nat, BITS as nat),
            amount as nat,
            direction,
        ),
{
    let top: u64 = BITS as u64 - 1;
    let ones: u64 = if BITS == 64 {
        u64::MAX
    } else {
        0xffff_ffff
    };
    let k: u64 = amount as u64;
    let sign: u64 = (v >> top) & 1;
    let full: u64 = match direction {
        Shift::Left => v << k,
        Shift::ArithmeticRight => if sign == 1 {
            (v >> k) | (ones & !(ones >> k))
        } else {
            v >> k
        },
        _ => v >> k,
    };
    let r: u64 = truncate::<BITS>(full);
    proof {
        let n = BITS as nat;
        low_spells(full, n);
        let b = crate::bits::bits_of(v as nat, n);
        let expected = crate::word::shift_bits(b, amount as nat, direction);
        assert forall|i: int| 0 <= i < n implies crate::bits::bits_of(full as nat, n)[i]
            == expected[i] by {
            let at = i as u64;
            crate::bits::shifted_bit(full, at);
            crate::bits::shifted_bit(v, top);
            if at >= k {
                crate::bits::shifted_bit(v, (at - k) as u64);
            }
            if at + k <= top {
                crate::bits::shifted_bit(v, (at + k) as u64);
            }
            shifted_bits(v, k, at, top, ones);
        }
        assert(crate::bits::bits_of(full as nat, n) =~= expected);
    }
    r
}

/// The bits of a shifted number, one by one.
proof fn shifted_bits(v: u64, k: u64, at: u64, top: u64, ones: u64)
    requires
        (top == 63 && ones == u64::MAX) || (top == 31 && ones == 0xffff_ffff && v <= 0xffff_ffff),
        k <= top,
        at <= top,
    ensures
        ((v << k) >> at) & 1 == (if at >= k {
            (v >> ((at - k) as u64)) & 1
        } else {
            0
        }),
        ((v >> k) >> at) & 1 == (if at + k <= top {
            (v >> ((at + k) as u64)) & 1
        } else {
            0
        }),
        (((v >> k) | (ones & !(ones >> k))) >> at) & 1 == (if at + k <= top {
            (v >> ((at + k) as u64)) & 1
        } else {
            1
        }),
{
    let down = if at >= k {
        (at - k) as u64
    } else {
        0u64
    };
    let up = if at + k <= top {
        (at + k) as u64
    } else {
        0u64
    };
    assert(((v << k) >> at) & 1 == (if at >= k {
        (v >> down) & 1
    } else {
        0
    })) by (bit_vector)
        requires
            k <= 63,
            at <= 63,
            at >= k ==> down == at - k,
    ;
    assert(((v >> k) >> at) & 1 == (if at + k <= top {
        (v >> up) & 1
    } else {
        0
    }) && (((v >> k) | (ones & !(ones >> k))) >> at) & 1 == (if at + k <= top {
        (v >> up) & 1
    } else {
        1
    })) by (bit_vector)
        requires
            (top == 63 && ones == 0xffff_ffff_ffff_ffff) || (top == 31 && ones == 0xffff_ffff && v
                <= 0xffff_ffff),
            k <= top,
            at <= top,
            at + k <= top ==> up == at + k,
    ;
}

/// The two's-complement value of a number's bits.
pub proof fn signed_value(v: u64, bits: nat)
    requires
        bits == 32 || bits == 64,
        fits(v, bits),
    ensures
        crate::bits::signed(crate::bits::bits_of(v as nat, bits)) == if v >= (if bits == 64 {
            0x8000_0000_0000_0000u64
        } else {
            0x8000_0000u64
        }) {
            v - pow2(bits)
        } else {
            v as int
        },
{
    lemma2_to64();
    low_spells(v, bits);
    let b = crate::bits::bits_of(v as nat, bits);
    let m = (bits - 1) as nat;
    lemma_pow2_unfold(bits);
    lemma_pow2_pos(m);
    if bits == 64 {
        assert(pow2(m) == 0x8000_0000_0000_0000);
    }
    // The sign bit weighs half of the range.
    crate::bits::num_step(b, m as int);
    assert(b.take(bits as int) =~= b);
    crate::bits::num_bound(b.take(m as int));
    assert(b.last() == b[m as int]);
}

/// Compare two host-known numbers of `BITS` bits.
pub fn compare_values<const BITS: usize>(predicate: ComparePredicate, a: u64, b: u64) -> (r: bool)
    requires
        BITS == 32 || BITS == 64,
        fits(a, BITS as nat),
        fits(b, BITS as nat),
    ensures
        r == crate::compare::holds(
            predicate,
            crate::bits::bits_of(a as nat, BITS as nat),
            crate::bits::bits_of(b as nat, BITS as nat),
        ),
{
    proof {
        let n = BITS as nat;
        low_spells(a, n);
        low_spells(b, n);
        signed_value(a, n);
        signed_value(b, n);
        if crate::bits::bits_of(a as nat, n) == crate::bits::bits_of(b as nat, n) {
            fits_injective(a, b, n);
        }
        lemma2_to64();
    }
    let half: u64 = if BITS == 64 {
        0x8000_0000_0000_0000
    } else {
        0x8000_0000
    };
    let less_signed = if (a >= half) != (b >= half) {
        a >= half
    } else {
        a < b
    };
    match predicate {
        ComparePredicate::Eq => a == b,
        ComparePredicate::Ne => a != b,
        ComparePredicate::GeU => a >= b,
        ComparePredicate::LtU => a < b,
        ComparePredicate::GeS => !less_signed,
        ComparePredicate::LtS => less_signed,
    }
}

/// A word extended to `n` bits, with its sign or with zeros.
pub open spec fn extended(word: Seq<bool>, n: nat, signed: bool) -> Seq<bool> {
    Seq::new(
        n,
        |i: int|
            if i < word.len() {
                word[i]
            } else {
                signed && word.last()
            },
    )
}

/// The number that an extended word spells.
pub proof fn extended_number(word: Seq<bool>, n: nat, signed: bool)
    requires
        0 < word.len() <= n,
    ensures
        crate::bits::num(extended(word, n, signed)) == crate::bits::num(word) + if signed
            && word.last() {
            pow2(n) - pow2(word.len())
        } else {
            0
        },
    decreases n,
{
    let w = extended(word, n, signed);
    if n == word.len() {
        assert(w =~= word);
    } else {
        let m = (n - 1) as nat;
        extended_number(word, m, signed);
        assert(w.drop_last() =~= extended(word, m, signed));
        lemma_pow2_unfold(n);
    }
}

/// Extend a host-known number of `width` bits to `BITS` bits.
pub fn extend_value<const BITS: usize>(v: u64, width: usize, signed: bool) -> (r: u64)
    requires
        BITS == 32 || BITS == 64,
        width == 8 || width == 16 || width == 32 || width == 64,
        width <= BITS,
        v < pow2(width as nat),
    ensures
        fits(r, BITS as nat),
        crate::bits::bits_of(r as nat, BITS as nat) == extended(
            crate::bits::bits_of(v as nat, width as nat),
            BITS as nat,
            signed,
        ),
{
    proof {
        lemma2_to64();
        lemma2_to64_rest();
    }
    let half: u64 = if width == 8 {
        0x80
    } else if width == 16 {
        0x8000
    } else if width == 32 {
        0x8000_0000
    } else {
        0x8000_0000_0000_0000
    };
    let ones: u64 = if BITS == 64 {
        u64::MAX
    } else {
        0xffff_ffff
    };
    let ghost word = crate::bits::bits_of(v as nat, width as nat);
    proof {
        let m = (width - 1) as nat;
        lemma_pow2_unfold(width as nat);
        assert(half == pow2(m));
        spelled(v as nat, width as nat);
        crate::bits::num_step(word, m as int);
        assert(word.take(width as int) =~= word);
        crate::bits::num_bound(word.take(m as int));
        assert(word.last() == (v >= half));
        extended_number(word, BITS as nat, signed);
    }
    let r: u64 = if signed && v >= half {
        // The bits above the word, all set.
        v + (ones - (half - 1) - half)
    } else {
        v
    };
    proof {
        let n = BITS as nat;
        let e = extended(word, n, signed);
        assert(crate::bits::num(e) == r);
        crate::bits::num_bound(e);
        spelled(r as nat, n);
        crate::bits::num_injective(crate::bits::bits_of(r as nat, n), e);
        low_spells(r, n);
    }
    r
}

/// The two's-complement pattern of a signed number.
pub open spec fn pattern(v: i64) -> u64 {
    if v >= 0 {
        v as u64
    } else {
        (v + 0x1_0000_0000_0000_0000) as u64
    }
}

/// The signed number of a two's-complement pattern.
pub open spec fn signed_of(v: u64) -> i64 {
    if v < 0x8000_0000_0000_0000 {
        v as i64
    } else {
        (v - 0x1_0000_0000_0000_0000) as i64
    }
}

/// The two's-complement pattern of a signed number.
pub fn to_pattern(v: i64) -> (r: u64)
    ensures
        r == pattern(v),
{
    if v >= 0 {
        v as u64
    } else {
        u64::MAX - ((-(v + 1)) as u64)
    }
}

/// The signed number of a two's-complement pattern.
pub fn to_signed(v: u64) -> (r: i64)
    ensures
        r == signed_of(v),
{
    if v < 0x8000_0000_0000_0000 {
        v as i64
    } else {
        -((u64::MAX - v) as i64) - 1
    }
}

} // verus!
