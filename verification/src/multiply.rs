//! 32-bit products, symbolic and host-known.
use crate::concrete;
use crate::context::keep;
use crate::shift;
use crate::word::{
    add_bits, fill, invert_word, keep_word, known_word, select_word, ContextWithErtOps, Product,
    Shift,
};
use vstd::arithmetic::div_mod::*;
use vstd::arithmetic::power2::*;
use vstd::prelude::*;

verus! {

/// The product that a view looks at, before it is cut to a word.
pub open spec fn full_product(product: Product, a: Seq<bool>, b: Seq<bool>) -> int {
    match product {
        Product::Low => (crate::bits::num(a) * crate::bits::num(b)) as int,
        Product::HighUnsigned => (crate::bits::num(a) * crate::bits::num(b)) as int,
        Product::HighSigned => crate::bits::signed(a) * crate::bits::signed(b),
        Product::HighSignedUnsigned => crate::bits::signed(a) * crate::bits::num(b),
    }
}

/// A view of the product of two 32-bit words.
pub open spec fn product_bits(product: Product, a: Seq<bool>, b: Seq<bool>) -> Seq<bool> {
    if product == Product::Low {
        crate::bits::bits_of(full_product(product, a, b) as nat, 32)
    } else {
        crate::bits::bits_of(
            ((full_product(product, a, b) / 0x1_0000_0000) % 0x1_0000_0000) as nat,
            32,
        )
    }
}

/// Take `amount` away where a sign bit is set.
pub open spec fn minus_if(v: int, negative: bool, amount: int) -> int {
    if negative {
        v - amount
    } else {
        v
    }
}

/// The high word of a product, corrected from the unsigned high word.
pub open spec fn high_value(product: Product, a: u32, b: u32) -> int {
    let high = (a * b) / 0x1_0000_0000;
    match product {
        Product::HighSigned => minus_if(
            minus_if(high, a >= 0x8000_0000, b as int),
            b >= 0x8000_0000,
            a as int,
        ),
        Product::HighSignedUnsigned => minus_if(high, a >= 0x8000_0000, b as int),
        _ => high,
    }
}

/// The sign corrections give the high word of the signed product.
proof fn high_is_product(product: Product, la: Seq<bool>, lb: Seq<bool>, a: u32, b: u32)
    requires
        la.len() == 32,
        lb.len() == 32,
        crate::bits::num(la) == a,
        crate::bits::num(lb) == b,
        product != Product::Low,
    ensures
        (full_product(product, la, lb) / 0x1_0000_0000) % 0x1_0000_0000 == high_value(product, a, b)
            % 0x1_0000_0000,
{
    let p: int = 0x1_0000_0000;
    sign_value(la, a);
    sign_value(lb, b);
    let n = a * b;
    let sa: int = if a >= 0x8000_0000 {
        a - p
    } else {
        a as int
    };
    let sb: int = if b >= 0x8000_0000 {
        b - p
    } else {
        b as int
    };
    let ka: int = if a >= 0x8000_0000 {
        1
    } else {
        0
    };
    let kb: int = if b >= 0x8000_0000 {
        1
    } else {
        0
    };
    let q = n / p;
    let r = n % p;
    lemma_fundamental_div_mod(n, p);
    if product == Product::HighSigned {
        let m = q - ka * b - kb * a + ka * kb * p;
        assert(sa * sb == a * b - p * (ka * b) - p * (kb * a) + p * (ka * kb * p)) by {
            let x = ka * p;
            let y = kb * p;
            assert((a - x) * (b - y) == a * b - x * b - a * y + x * y) by (nonlinear_arith);
            assert(x * b == p * (ka * b)) by (nonlinear_arith)
                requires
                    x == ka * p,
            ;
            assert(a * y == p * (kb * a)) by (nonlinear_arith)
                requires
                    y == kb * p,
            ;
            assert(x * y == p * (ka * kb * p)) by (nonlinear_arith)
                requires
                    x == ka * p,
                    y == kb * p,
            ;
        }
        assert(p * m == p * q - p * (ka * b) - p * (kb * a) + p * (ka * kb * p))
            by (nonlinear_arith)
            requires
                m == q - ka * b - kb * a + ka * kb * p,
        ;
        lemma_fundamental_div_mod_converse(sa * sb, p, m, r);
        assert(ka * b == (if ka == 1 {
            b as int
        } else {
            0
        })) by (nonlinear_arith)
            requires
                ka == 0 || ka == 1,
        ;
        assert(kb * a == (if kb == 1 {
            a as int
        } else {
            0
        })) by (nonlinear_arith)
            requires
                kb == 0 || kb == 1,
        ;
        let h = high_value(product, a, b);
        assert(m == p * (ka * kb) + h) by (nonlinear_arith)
            requires
                m == q - ka * b - kb * a + ka * kb * p,
                h == q - ka * b - kb * a,
        ;
        lemma_mod_multiples_vanish(ka * kb, h, p);
    } else if product == Product::HighSignedUnsigned {
        let m = q - ka * b;
        assert(sa * b == p * m + r) by (nonlinear_arith)
            requires
                sa == a - ka * p,
                a * b == p * q + r,
                m == q - ka * b,
        ;
        lemma_fundamental_div_mod_converse(sa * b, p, m, r);
        assert(ka * b == (if ka == 1 {
            b as int
        } else {
            0
        })) by (nonlinear_arith)
            requires
                ka == 0 || ka == 1,
        ;
    }
}

proof fn sign_value(b: Seq<bool>, v: u32)
    requires
        b.len() == 32,
        crate::bits::num(b) == v,
    ensures
        b == concrete::word(v),
        b[31] == (v >= 0x8000_0000),
        crate::bits::signed(b) == if v >= 0x8000_0000 {
            v - 0x1_0000_0000
        } else {
            v as int
        },
{
    concrete::word_num(v);
    crate::bits::num_injective(b, concrete::word(v));
    concrete::word_sign(v);
    lemma2_to64();
}

/// A 32-bit word spells a machine number.
pub proof fn word_of(b: Seq<bool>) -> (v: u32)
    requires
        b.len() == 32,
    ensures
        b == concrete::word(v),
        crate::bits::num(b) == v,
{
    crate::bits::num_bound(b);
    lemma2_to64();
    let v = crate::bits::num(b) as u32;
    sign_value(b, v);
    v
}

/// Compute a host-known 32-bit product view.
pub fn concrete_product(product: Product, left: u32, right: u32) -> (r: u32)
    ensures
        concrete::word(r) == product_bits(product, concrete::word(left), concrete::word(right)),
{
    proof {
        concrete::word_num(left);
        concrete::word_num(right);
        concrete::word_product_low(left, right);
        assert(left * right <= 0xffff_ffff * 0xffff_ffff) by (nonlinear_arith)
            requires
                left <= 0xffff_ffff,
                right <= 0xffff_ffff,
        ;
        if product != Product::Low {
            high_is_product(product, concrete::word(left), concrete::word(right), left, right);
        }
    }
    if product == Product::Low {
        return left.wrapping_mul(right);
    }
    let wide: u64 = (left as u64) * (right as u64);
    let high: u32 = (wide / 0x1_0000_0000) as u32;
    let signed_left = product == Product::HighSigned || product == Product::HighSignedUnsigned;
    let signed_right = product == Product::HighSigned;
    let once: u32 = if signed_left && left >= 0x8000_0000 {
        high.wrapping_sub(right)
    } else {
        high
    };
    let twice: u32 = if signed_right && right >= 0x8000_0000 {
        once.wrapping_sub(left)
    } else {
        once
    };
    proof {
        let h = high_value(product, left, right);
        assert(h % 0x1_0000_0000 == twice) by {
            wrap_down(high as int, signed_left && left >= 0x8000_0000, right as int);
            wrap_down(once as int, signed_right && right >= 0x8000_0000, left as int);
            let p: int = 0x1_0000_0000;
            let first = minus_if(high as int, signed_left && left >= 0x8000_0000, right as int);
            lemma_sub_mod_noop(first, left as int, p);
            lemma_sub_mod_noop(once as int, left as int, p);
            lemma_small_mod(twice as nat, p as nat);
        }
    }
    twice
}

proof fn wrap_down(v: int, negative: bool, amount: int)
    requires
        0 <= v < 0x1_0000_0000,
        0 <= amount < 0x1_0000_0000,
    ensures
        minus_if(v, negative, amount) % 0x1_0000_0000 == if negative && v < amount {
            v - amount + 0x1_0000_0000
        } else {
            minus_if(v, negative, amount)
        },
{
}

/// A doubled word that still fits is its double.
proof fn num_double(b: Seq<bool>)
    requires
        b.len() > 0,
        2 * crate::bits::num(b) < pow2(b.len()),
    ensures
        crate::bits::num(crate::word::shift_bits(b, 1, Shift::Left)) == 2 * crate::bits::num(b),
{
    let s = crate::word::shift_bits(b, 1, Shift::Left);
    let n = b.len() as int;
    lemma_pow2_unfold(b.len());
    assert(!b.last());
    crate::bits::num_front(s);
    assert(s.subrange(1, n) =~= b.drop_last());
}

/// A number splits into its low and its high bits.
pub proof fn num_split(b: Seq<bool>, k: int)
    requires
        0 <= k <= b.len(),
    ensures
        crate::bits::num(b) == crate::bits::num(b.take(k)) + pow2(k as nat) * crate::bits::num(
            b.subrange(k, b.len() as int),
        ),
    decreases b.len() - k,
{
    let high = b.subrange(k, b.len() as int);
    if k == b.len() {
        assert(b.take(k) =~= b);
        assert(high =~= Seq::<bool>::empty());
        assert(pow2(k as nat) * 0 == 0);
    } else {
        num_split(b, k + 1);
        crate::bits::num_step(b, k);
        crate::bits::num_front(high);
        assert(high.subrange(1, high.len() as int) =~= b.subrange(k + 1, b.len() as int));
        lemma_pow2_unfold((k + 1) as nat);
        let p = pow2(k as nat);
        let rest = crate::bits::num(b.subrange(k + 1, b.len() as int));
        let low: nat = if b[k] {
            1
        } else {
            0
        };
        assert(p * (low + 2 * rest) == low * p + (2 * p) * rest) by (nonlinear_arith);
        assert(low * p == if b[k] {
            p
        } else {
            0
        });
    }
}

/// A zero-extended 32-bit word.
fn extend_word<C: ContextWithErtOps<bool> + ?Sized>(
    source: &[C::Wrapped; 32],
    zero: &C::Wrapped,
) -> (r: [C::Wrapped; 64]) where C::Wrapped: Clone
    ensures
        crate::context::sound::<C>() && !crate::context::bit::<C>(*zero) ==> crate::bits::num(
            crate::context::bits::<C>(r@),
        ) == crate::bits::num(crate::context::bits::<C>(source@)),
{
    let mut r = fill::<C::Wrapped, 64>(zero);
    let mut i: usize = 0;
    while i < 32
        invariant
            i <= 32,
            crate::context::sound::<C>() ==> forall|j: int|
                0 <= j < i ==> crate::context::bit::<C>(#[trigger] r@[j])
                    == crate::context::bit::<C>(source@[j]),
            forall|j: int| i <= j < 64 ==> cloned(*zero, #[trigger] r@[j]),
        decreases 32 - i,
    {
        r[i] = keep::<C>(&source[i]);
        i = i + 1;
    }
    proof {
        if crate::context::sound::<C>() && !crate::context::bit::<C>(*zero) {
            let b = crate::context::bits::<C>(r@);
            num_split(b, 32);
            assert(b.take(32) =~= crate::context::bits::<C>(source@));
            let high = b.subrange(32, 64);
            crate::bits::num_zero(high);
            assert forall|i: int| 0 <= i < high.len() implies !#[trigger] high[i] by {
                assert(cloned(*zero, r@[32 + i]));
            }
            assert(pow2(32) * 0 == 0);
        }
    }
    r
}

/// Thirty-two consecutive wires of a double word.
fn slice_word<C: ContextWithErtOps<bool> + ?Sized>(
    source: &[C::Wrapped; 64],
    start: usize,
    zero: &C::Wrapped,
) -> (r: [C::Wrapped; 32]) where C::Wrapped: Clone
    requires
        start <= 32,
    ensures
        crate::context::sound::<C>() ==> crate::context::bits::<C>(r@) == crate::context::bits::<C>(
            source@,
        ).subrange(start as int, start + 32),
{
    let mut r = fill::<C::Wrapped, 32>(zero);
    let mut i: usize = 0;
    while i < 32
        invariant
            i <= 32,
            start <= 32,
            crate::context::sound::<C>() ==> forall|j: int|
                0 <= j < i ==> crate::context::bit::<C>(#[trigger] r@[j])
                    == crate::context::bit::<C>(source@[start + j]),
        decreases 32 - i,
    {
        r[i] = keep::<C>(&source[start + i]);
        i = i + 1;
    }
    proof {
        if crate::context::sound::<C>() {
            assert(crate::context::bits::<C>(r@) =~= crate::context::bits::<C>(source@).subrange(
                start as int,
                start + 32,
            ));
        }
    }
    r
}

/// The 64-bit product of two 32-bit words by shifting and adding. A
/// host-known multiplier decides each partial sum without a gate.
fn wide_product<C: ContextWithErtOps<bool> + ?Sized>(
    t: &mut C,
    multiplicand: &[C::Wrapped; 32],
    multiplier: &[C::Wrapped; 32],
    known: Option<u32>,
    zero: &C::Wrapped,
) -> (r: Result<[C::Wrapped; 64], C::Error>) where C::Wrapped: Clone
    ensures
        crate::context::sound::<C>() && !crate::context::bit::<C>(*zero) && (known matches Some(v)
            ==> crate::context::bits::<C>(multiplier@) == concrete::word(v)) ==> (r matches Ok(word)
            ==> crate::bits::num(crate::context::bits::<C>(word@)) == crate::bits::num(
            crate::context::bits::<C>(multiplicand@),
        ) * crate::bits::num(crate::context::bits::<C>(multiplier@))),
        C::reliable() ==> r is Ok,
        r matches Err(error) ==> C::errs(error),
{
    let ghost live = crate::context::sound::<C>() && !crate::context::bit::<C>(*zero) && (
    known matches Some(v) ==> crate::context::bits::<C>(multiplier@) == concrete::word(v));
    let ghost m = crate::bits::num(crate::context::bits::<C>(multiplicand@));
    let ghost by = crate::context::bits::<C>(multiplier@);
    let mut accumulator = fill::<C::Wrapped, 64>(zero);
    let mut addend = extend_word::<C>(multiplicand, zero);
    let mut bit: usize = 0;
    proof {
        lemma2_to64();
        crate::bits::num_bound(crate::context::bits::<C>(multiplicand@));
        assert(by.take(0) =~= Seq::<bool>::empty());
        assert(m * 0 == 0 && m * 1 == m);
        if live {
            let b = crate::context::bits::<C>(accumulator@);
            crate::bits::num_zero(b);
            assert forall|i: int| 0 <= i < b.len() implies !#[trigger] b[i] by {
                assert(cloned(*zero, accumulator@[i]));
            }
        }
    }
    while bit < 32
        invariant
            bit <= 32,
            live == (crate::context::sound::<C>() && !crate::context::bit::<C>(*zero) && (
            known matches Some(v) ==> crate::context::bits::<C>(multiplier@) == concrete::word(v))),
            by == crate::context::bits::<C>(multiplier@),
            m < 0x1_0000_0000,
            live ==> crate::bits::num(crate::context::bits::<C>(accumulator@)) == m
                * crate::bits::num(by.take(bit as int)),
            live ==> crate::bits::num(crate::context::bits::<C>(addend@)) == m * pow2(bit as nat),
        decreases 32 - bit,
    {
        proof {
            if live {
                partial_sum(
                    crate::context::bits::<C>(accumulator@),
                    crate::context::bits::<C>(addend@),
                    by,
                    m,
                    bit as int,
                );
                if known is Some {
                    concrete::word_bit(known->0, bit as u32);
                }
            }
        }
        let sum = add_bits(t, &accumulator, &addend, keep::<C>(zero))?;
        accumulator = match known {
            Some(value) => if (value >> (bit as u32)) & 1 != 0 {
                sum
            } else {
                accumulator
            },
            None => select_word(t, keep::<C>(&multiplier[bit]), &sum, &accumulator)?,
        };
        addend = shift::shift_word::<C, 64>(&addend, 1, Shift::Left, zero);
        bit = bit + 1;
    }
    proof {
        assert(by.take(32) =~= by);
    }
    Ok(accumulator)
}

proof fn partial_sum(acc: Seq<bool>, addend: Seq<bool>, by: Seq<bool>, m: nat, bit: int)
    requires
        acc.len() == 64,
        addend.len() == 64,
        by.len() == 32,
        0 <= bit < 32,
        m < 0x1_0000_0000,
        crate::bits::num(acc) == m * crate::bits::num(by.take(bit)),
        crate::bits::num(addend) == m * pow2(bit as nat),
    ensures
        crate::bits::num(crate::bits::add_of(acc, addend, false)) == m * (crate::bits::num(
            by.take(bit),
        ) + pow2(bit as nat)),
        crate::bits::num(by.take(bit + 1)) == crate::bits::num(by.take(bit)) + if by[bit] {
            pow2(bit as nat)
        } else {
            0
        },
        crate::bits::num(crate::word::shift_bits(addend, 1, Shift::Left)) == m * pow2(
            (bit + 1) as nat,
        ),
{
    lemma2_to64();
    lemma2_to64_rest();
    let p = pow2(bit as nat);
    let low = crate::bits::num(by.take(bit));
    crate::bits::num_bound(by.take(bit));
    crate::bits::num_step(by, bit);
    lemma_pow2_unfold((bit + 1) as nat);
    if bit < 31 {
        lemma_pow2_strictly_increases((bit + 1) as nat, 32);
    }
    assert(2 * p <= 0x1_0000_0000);
    assert(m * (low + p) == m * low + m * p) by (nonlinear_arith);
    assert(m * (low + p) < 0x1_0000_0000_0000_0000 && 2 * (m * p) < 0x1_0000_0000_0000_0000) by (nonlinear_arith)
        requires
            m < 0x1_0000_0000,
            low < p,
            2 * p <= 0x1_0000_0000,
    ;
    crate::bits::num_bits_of((m * low + m * p) as nat, 64);
    lemma_small_mod((m * low + m * p) as nat, pow2(64));
    num_double(addend);
    assert(2 * (m * p) == m * (2 * p)) by (nonlinear_arith);
}

/// Multiply two words, either of which may be host-known.
pub fn multiply_word<C: ContextWithErtOps<bool> + ?Sized>(
    t: &mut C,
    left: &[C::Wrapped; 32],
    right: &[C::Wrapped; 32],
    left_constant: Option<u32>,
    right_constant: Option<u32>,
    product: Product,
    zero: &C::Wrapped,
    one: &C::Wrapped,
) -> (r: Result<[C::Wrapped; 32], C::Error>) where C::Wrapped: Clone
    ensures
        crate::word::constants::<C>(*zero, *one) && (left_constant matches Some(v)
            ==> crate::context::bits::<C>(left@) == concrete::word(v)) && (right_constant matches Some(
            v,
        ) ==> crate::context::bits::<C>(right@) == concrete::word(v)) ==> (r matches Ok(word)
            ==> crate::context::bits::<C>(word@) == product_bits(
            product,
            crate::context::bits::<C>(left@),
            crate::context::bits::<C>(right@),
        )),
        C::reliable() ==> r is Ok,
        r matches Err(error) ==> C::errs(error),
{
    let ghost live = crate::word::constants::<C>(*zero, *one) && (left_constant matches Some(v)
        ==> crate::context::bits::<C>(left@) == concrete::word(v)) && (right_constant matches Some(v)
        ==> crate::context::bits::<C>(right@) == concrete::word(v));
    let ghost la = crate::context::bits::<C>(left@);
    let ghost lb = crate::context::bits::<C>(right@);
    let ghost a = word_of(la);
    let ghost b = word_of(lb);
    if let (Some(l), Some(r)) = (left_constant, right_constant) {
        let value: u32 = concrete_product(product, l, r);
        return Ok(known_word::<C, 32>(zero, one, value as u64));
    }
    proof {
        assert(0 * (b as int) == 0 && (a as int) * 0 == 0);
    }
    if left_constant == Some(0u32) || right_constant == Some(0u32) {
        proof {
            if live {
                if left_constant is Some {
                    concrete::word_injective(a, left_constant->0);
                }
                if right_constant is Some {
                    concrete::word_injective(b, right_constant->0);
                }
                zero_product(product, la, lb, a, b);
            }
        }
        return Ok(known_word::<C, 32>(zero, one, 0));
    }
    let wide = match (left_constant, right_constant) {
        (Some(l), None) => wide_product(t, right, left, Some(l), zero)?,
        (_, known) => wide_product(t, left, right, known, zero)?,
    };
    proof {
        assert((a as int) * (b as int) == (b as int) * (a as int)) by (nonlinear_arith);
        if live {
            halves(crate::context::bits::<C>(wide@), a, b);
        }
    }
    if product == Product::Low {
        return Ok(slice_word::<C>(&wide, 0, zero));
    }
    let mut result = slice_word::<C>(&wide, 32, zero);
    let ghost start = crate::context::bits::<C>(result@);
    let ghost mut value: int = (a * b) / 0x1_0000_0000;
    proof {
        lemma2_to64();
        crate::bits::num_bound(start);
        if live {
            assert(start == crate::context::bits::<C>(wide@).subrange(32, 64));
            lemma_small_mod(value as nat, 0x1_0000_0000);
        }
    }
    if product == Product::HighSigned || product == Product::HighSignedUnsigned {
        proof {
            if live {
                borrow_step(crate::context::bits::<C>(result@), value, la, lb, a, b);
            }
            value = minus_if(value, a >= 0x8000_0000, b as int);
        }
        result = subtract_if_negative(t, &result, left, right, left_constant, one)?;
    }
    if product == Product::HighSigned {
        proof {
            if live {
                borrow_step(crate::context::bits::<C>(result@), value, lb, la, b, a);
            }
            value = minus_if(value, b >= 0x8000_0000, a as int);
        }
        result = subtract_if_negative(t, &result, right, left, right_constant, one)?;
    }
    proof {
        if live {
            high_is_product(product, la, lb, a, b);
            let r = crate::context::bits::<C>(result@);
            crate::bits::bits_of_num(r);
        }
    }
    Ok(result)
}

proof fn zero_product(product: Product, la: Seq<bool>, lb: Seq<bool>, a: u32, b: u32)
    requires
        la == concrete::word(a),
        lb == concrete::word(b),
        a == 0 || b == 0,
    ensures
        product_bits(product, la, lb) == crate::bits::bits_of(0, 32),
{
    concrete::word_num(a);
    concrete::word_num(b);
    sign_value(la, a);
    sign_value(lb, b);
    assert(full_product(product, la, lb) == 0) by (nonlinear_arith)
        requires
            a == 0 || b == 0,
            crate::bits::num(la) == a,
            crate::bits::num(lb) == b,
            a == 0 ==> crate::bits::signed(la) == 0,
            b == 0 ==> crate::bits::signed(lb) == 0,
            full_product(product, la, lb) == crate::bits::num(la) * crate::bits::num(lb)
                || full_product(product, la, lb) == crate::bits::signed(la)
                * crate::bits::signed(lb) || full_product(product, la, lb) == crate::bits::signed(la)
                * crate::bits::num(lb),
    ;
}

/// The two halves of a double word that spells `a * b`.
proof fn halves(wide: Seq<bool>, a: u32, b: u32)
    requires
        wide.len() == 64,
        crate::bits::num(wide) == a * b,
    ensures
        wide.subrange(0, 32) == crate::bits::bits_of((a * b) as nat, 32),
        crate::bits::num(wide.subrange(32, 64)) == (a * b) / 0x1_0000_0000,
{
    lemma2_to64();
    num_split(wide, 32);
    assert(wide.subrange(0, 32) =~= wide.take(32));
    crate::bits::num_bound(wide.take(32));
    let high = crate::bits::num(wide.subrange(32, 64));
    assert(pow2(32) * high == high * 0x1_0000_0000) by (nonlinear_arith)
        requires
            pow2(32) == 0x1_0000_0000,
    ;
    lemma_fundamental_div_mod_converse(
        a * b,
        0x1_0000_0000,
        crate::bits::num(wide.subrange(32, 64)) as int,
        crate::bits::num(wide.take(32)) as int,
    );
    crate::bits::num_bits_of((a * b) as nat, 32);
    crate::bits::num_injective(wide.take(32), crate::bits::bits_of((a * b) as nat, 32));
}

/// A conditional subtraction of words, modulo the width.
proof fn borrow_step(word: Seq<bool>, value: int, ls: Seq<bool>, lb: Seq<bool>, s: u32, b: u32)
    requires
        word.len() == 32,
        crate::bits::num(word) == value % 0x1_0000_0000,
        ls == concrete::word(s),
        lb == concrete::word(b),
    ensures
        crate::bits::num(
            if ls[31] {
                crate::bits::sub_of(word, lb)
            } else {
                word
            },
        ) == minus_if(value, s >= 0x8000_0000, b as int) % 0x1_0000_0000,
        ls[31] == (s >= 0x8000_0000),
{
    lemma2_to64();
    concrete::word_sign(s);
    concrete::word_num(b);
    crate::bits::sub_is_difference(word, lb);
    lemma_sub_mod_noop(value, b as int, 0x1_0000_0000);
    lemma_small_mod(b as nat, 0x1_0000_0000);
    lemma_sub_mod_noop(crate::bits::num(word) as int, b as int, 0x1_0000_0000);
    lemma_small_mod(crate::bits::num(word), 0x1_0000_0000);
}

/// Subtract `subtrahend` from `value` where `signed` is negative.
fn subtract_if_negative<C: ContextWithErtOps<bool> + ?Sized>(
    t: &mut C,
    value: &[C::Wrapped; 32],
    signed: &[C::Wrapped; 32],
    subtrahend: &[C::Wrapped; 32],
    signed_constant: Option<u32>,
    one: &C::Wrapped,
) -> (r: Result<[C::Wrapped; 32], C::Error>) where C::Wrapped: Clone
    ensures
        crate::context::sound::<C>() && crate::context::bit::<C>(*one) && (
        signed_constant matches Some(v) ==> crate::context::bits::<C>(signed@) == concrete::word(v))
            ==> (r matches Ok(word) ==> crate::context::bits::<C>(word@)
            == if crate::context::bits::<C>(signed@)[31] {
            crate::bits::sub_of(
                crate::context::bits::<C>(value@),
                crate::context::bits::<C>(subtrahend@),
            )
        } else {
            crate::context::bits::<C>(value@)
        }),
        C::reliable() ==> r is Ok,
        r matches Err(error) ==> C::errs(error),
{
    let inverted = invert_word(t, subtrahend, keep::<C>(one))?;
    let difference = add_bits(t, value, &inverted, keep::<C>(one))?;
    match signed_constant {
        Some(constant) => {
            proof {
                concrete::word_sign(constant);
            }
            if constant >> 31 == 0 {
                Ok(keep_word::<C, 32>(value))
            } else {
                Ok(difference)
            }
        },
        None => select_word(t, keep::<C>(&signed[31]), &difference, value),
    }
}

} // verus!
