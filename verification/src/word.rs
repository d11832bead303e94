//! Symbolic words: little-endian arrays of Boolean wires, and the circuits
//! that compute on them.
//!
//! Bit zero is at index zero. Every circuit is built from the three gates of
//! a [`ContextWithErtOps`]; its contract speaks of the truth values of the
//! wires, through [`bits`](crate::context::bits).
use crate::context::{
    keep, BitValue, ContextWithBitAnd, ContextWithBitOr, ContextWithBitXor, ContextWithValue, Gate,
};
use vstd::prelude::*;

verus! {

/// The Boolean operations needed by the shared symbolic-word machinery.
pub trait ContextWithErtOps<Val: BitValue>: ContextWithBitAnd<Val> + ContextWithBitOr<
    Val,
> + ContextWithBitXor<Val> {

}

impl<Val: BitValue, T> ContextWithErtOps<Val> for T where
    T: ContextWithBitAnd<Val> + ContextWithBitOr<Val> + ContextWithBitXor<Val> + ?Sized,
 {

}

/// Adapts a Boolean context to select emission.
///
/// The zero and one wires come from the caller, so this has only the
/// AND and XOR that selection needs rather than a constant constructor.
pub struct ErtSelectEmitter<'a, T: ?Sized> {
    context: &'a mut T,
}

impl<'a, T: ContextWithErtOps<bool> + ?Sized> ErtSelectEmitter<'a, T> {
    /// The emitter works on this context.
    pub closed spec fn carries(&self, context: &T) -> bool {
        untouched::<T>(context, &*self.context)
    }

    /// Borrow one context for Boolean select emission.
    pub fn new(context: &'a mut T) -> (r: Self)
        ensures
            r.carries(old(context)),
    {
        ErtSelectEmitter { context }
    }

    /// Emit a conjunction.
    pub fn and(&mut self, left: T::Wrapped, right: T::Wrapped) -> (r: Result<T::Wrapped, T::Error>)
        ensures
            T::lawful() ==> (r matches Ok(w) ==> crate::context::bit::<T>(w) == (
            crate::context::bit::<T>(left) && crate::context::bit::<T>(right))),
            T::reliable() ==> r is Ok,
            r matches Err(error) ==> T::errs(error),
    {
        self.context.bitand(left, right)
    }

    /// Emit an exclusive-or.
    pub fn xor(&mut self, left: T::Wrapped, right: T::Wrapped) -> (r: Result<T::Wrapped, T::Error>)
        ensures
            T::lawful() ==> (r matches Ok(w) ==> crate::context::bit::<T>(w) == (
            crate::context::bit::<T>(left) != crate::context::bit::<T>(right))),
            T::reliable() ==> r is Ok,
            r matches Err(error) ==> T::errs(error),
    {
        self.context.bitxor(left, right)
    }

    /// Emit `otherwise ^ (condition & (then ^ otherwise))`: `then` where the
    /// condition holds, else `otherwise`.
    pub fn select(
        &mut self,
        condition: T::Wrapped,
        then: T::Wrapped,
        otherwise: T::Wrapped,
    ) -> (r: Result<T::Wrapped, T::Error>) where T::Wrapped: Clone
        ensures
            crate::context::sound::<T>() ==> (r matches Ok(w) ==> crate::context::bit::<T>(w)
                == if crate::context::bit::<T>(condition) {
                crate::context::bit::<T>(then)
            } else {
                crate::context::bit::<T>(otherwise)
            }),
            T::reliable() ==> r is Ok,
            r matches Err(error) ==> T::errs(error),
    {
        let difference = self.xor(then, keep::<T>(&otherwise))?;
        let gated = self.and(condition, difference)?;
        self.xor(otherwise, gated)
    }
}

/// The three bitwise operations used by canonical word handlers.
#[derive(Clone, Copy, Debug, Eq, PartialEq, Structural)]
pub enum BitOp {
    /// Bitwise conjunction.
    And,
    /// Bitwise disjunction.
    Or,
    /// Bitwise exclusive-or.
    Xor,
}

/// The supported shift directions.
#[derive(Clone, Copy, Debug, Eq, PartialEq, Structural)]
pub enum Shift {
    /// Shift towards more-significant bits.
    Left,
    /// Shift right and insert zeroes.
    LogicalRight,
    /// Shift right and replicate the sign bit.
    ArithmeticRight,
    /// Rotate right, including the bits displaced at the low end.
    RotateRight,
}

/// The four scalar product views.
#[derive(Clone, Copy, Debug, Eq, PartialEq, Structural)]
pub enum Product {
    /// Low 32 bits of the product.
    Low,
    /// High 32 bits of a signed product.
    HighSigned,
    /// High 32 bits of signed-left, unsigned-right product.
    HighSignedUnsigned,
    /// High 32 bits of an unsigned product.
    HighUnsigned,
}

/// `zero` and `one` are the two Boolean constants of a sound context.
pub open spec fn constants<C: ContextWithValue<bool> + ?Sized>(
    zero: C::Wrapped,
    one: C::Wrapped,
) -> bool where C::Wrapped: Clone {
    &&& crate::context::sound::<C>()
    &&& !crate::context::bit::<C>(zero)
    &&& crate::context::bit::<C>(one)
}

/// No gate was emitted: the context is as it was.
pub open spec fn untouched<C: ?Sized>(before: &C, after: &C) -> bool {
    before == after
}

/// What a gate does to two truth values.
pub open spec fn gate_value(operation: BitOp, a: bool, b: bool) -> bool {
    match operation {
        BitOp::And => a && b,
        BitOp::Or => a || b,
        BitOp::Xor => a != b,
    }
}

/// A bitwise operation on two words of one width.
pub open spec fn bitwise_bits(operation: BitOp, a: Seq<bool>, b: Seq<bool>) -> Seq<bool> {
    match operation {
        BitOp::And => crate::bits::and_bits(a, b),
        BitOp::Or => crate::bits::or_bits(a, b),
        BitOp::Xor => crate::bits::xor_bits(a, b),
    }
}

/// A word shifted by `k` places, `k` at most its width.
pub open spec fn shift_bits(b: Seq<bool>, k: nat, direction: Shift) -> Seq<bool> {
    let n = b.len();
    Seq::new(
        n,
        |i: int|
            match direction {
                Shift::Left => i >= k && b[i - k],
                Shift::LogicalRight => i + k < n && b[i + k],
                Shift::ArithmeticRight => if i + k < n {
                    b[i + k]
                } else {
                    b[n - 1]
                },
                Shift::RotateRight => b[(i + k) % (n as int)],
            },
    )
}

/// Clone a wire.
pub fn dup<W: Clone>(wire: &W) -> (r: W)
    ensures
        cloned(*wire, r),
{
    wire.clone()
}

/// An array of clones, made with `core::array::from_fn`: that function calls
/// its argument once for every index and collects what it returns, here a clone
/// of `wire`.
#[verifier::external_body]
pub(crate) fn fill<W: Clone, const N: usize>(wire: &W) -> (r: [W; N])
    ensures
        forall|i: int| 0 <= i < N ==> cloned(*wire, #[trigger] r@[i]),
{
    core::array::from_fn(|_| dup(wire))
}

/// Form a symbolic constant word.
pub fn constant_word<W: Clone, const N: usize>(zero: &W, one: &W, value: u64) -> (r: [W; N])
    requires
        N <= 64,
    ensures
        forall|i: int|
            0 <= i < N ==> cloned(
                if crate::bits::bits_of(value as nat, N as nat)[i] {
                    *one
                } else {
                    *zero
                },
                #[trigger] r@[i],
            ),
{
    let mut r = fill::<W, N>(zero);
    let mut i: usize = 0;
    while i < N
        invariant
            i <= N <= 64,
            forall|j: int|
                0 <= j < i ==> cloned(
                    if crate::bits::bits_of(value as nat, N as nat)[j] {
                        *one
                    } else {
                        *zero
                    },
                    #[trigger] r@[j],
                ),
        decreases N - i,
    {
        proof {
            crate::bits::shifted_bit(value, i as u64);
        }
        r[i] = if (value >> (i as u64)) & 1 == 0 {
            zero.clone()
        } else {
            one.clone()
        };
        i = i + 1;
    }
    r
}

/// Every wire is a clone of one of the two constant wires.
pub open spec fn baked<W: Clone>(word: Seq<W>, zero: W, one: W) -> bool {
    forall|i: int|
        0 <= i < word.len() ==> cloned(zero, #[trigger] word[i]) || cloned(one, word[i])
}

/// [`constant_word`] for the wires of `C`.
pub fn known_word<C: ContextWithValue<bool> + ?Sized, const N: usize>(
    zero: &C::Wrapped,
    one: &C::Wrapped,
    value: u64,
) -> (r: [C::Wrapped; N]) where C::Wrapped: Clone
    requires
        N <= 64,
    ensures
        constants::<C>(*zero, *one) ==> crate::context::bits::<C>(r@) == crate::bits::bits_of(
            value as nat,
            N as nat,
        ),
        baked(r@, *zero, *one),
{
    let r = constant_word::<C::Wrapped, N>(zero, one, value);
    proof {
        if constants::<C>(*zero, *one) {
            assert(crate::context::bits::<C>(r@) =~= crate::bits::bits_of(value as nat, N as nat));
        }
    }
    r
}

/// Every wire of a word is a clone.
pub open spec fn word_cloned<W: Clone>(word: Seq<W>, copy: Seq<W>) -> bool {
    copy.len() == word.len() && forall|i: int|
        0 <= i < word.len() ==> cloned(word[i], #[trigger] copy[i])
}

/// Clone a word of the wires of `C`.
pub fn keep_word<C: ContextWithValue<bool> + ?Sized, const N: usize>(word: &[C::Wrapped; N]) -> (r:
    [C::Wrapped; N]) where C::Wrapped: Clone
    ensures
        crate::context::sound::<C>() ==> crate::context::bits::<C>(r@) == crate::context::bits::<C>(
            word@,
        ),
        word_cloned(word@, r@),
{
    let r = word.clone();
    proof {
        assert forall|i: int| 0 <= i < N implies cloned(word@[i], #[trigger] r@[i]) by {}
        if crate::context::sound::<C>() {
            assert forall|i: int| 0 <= i < N implies crate::context::bits::<C>(r@)[i]
                == crate::context::bits::<C>(word@)[i] by {
                assert(cloned(word@[i], r@[i]));
            }
            assert(crate::context::bits::<C>(r@) =~= crate::context::bits::<C>(word@));
        }
    }
    r
}

/// Emit one gate.
pub fn emit<C: ContextWithErtOps<bool> + ?Sized>(
    t: &mut C,
    operation: BitOp,
    left: C::Wrapped,
    right: C::Wrapped,
) -> (r: Result<C::Wrapped, C::Error>)
    ensures
        C::lawful() ==> (r matches Ok(w) ==> crate::context::bit::<C>(w) == gate_value(
            operation,
            crate::context::bit::<C>(left),
            crate::context::bit::<C>(right),
        )),
        C::logs() ==> (r matches Ok(w) ==> (*final(t)).gates() == (*old(t)).gates().push(
            Gate { kind: operation, left, right, out: w },
        )),
        C::reliable() ==> r is Ok,
        r matches Err(error) ==> C::errs(error),
{
    match operation {
        BitOp::And => t.bitand(left, right),
        BitOp::Or => t.bitor(left, right),
        BitOp::Xor => t.bitxor(left, right),
    }
}

/// A reading of wires as truth values that a gate constructor and cloning
/// both respect.
pub open spec fn respects<W: Clone, E, G: FnMut(BitOp, W, W) -> Result<W, E>>(
    gate: G,
    value: spec_fn(W) -> bool,
) -> bool {
    &&& forall|operation: BitOp, a: W, b: W, r: Result<W, E>| #[trigger]
        call_ensures(gate, (operation, a, b), r) ==> (r matches Ok(w) ==> value(w) == gate_value(
            operation,
            value(a),
            value(b),
        ))
    &&& forall|a: W, b: W| #[trigger] cloned(a, b) ==> value(a) == value(b)
}

/// The truth values of a word under a reading of its wires.
pub open spec fn read_word<W>(value: spec_fn(W) -> bool, w: Seq<W>) -> Seq<bool> {
    Seq::new(w.len(), |i: int| value(w[i]))
}

/// Add fixed-width little-endian words with an initial carry through a
/// caller-supplied Boolean gate constructor.
///
/// This is the architecture-neutral core of the symbolic adder. Frontends
/// that retain concrete-bit metadata can use it with a simplifying gate
/// constructor and still share the exact carry circuit of [`add_bits`].
pub fn add_bits_with<W: Clone, E, const N: usize, G: FnMut(BitOp, W, W) -> Result<W, E>>(
    v: &[W; N],
    w: &[W; N],
    carry: W,
    gate: G,
) -> (r: Result<[W; N], E>)
    requires
        forall|operation: BitOp, a: W, b: W| #[trigger] call_requires(gate, (operation, a, b)),
    ensures
        r matches Ok(sum) ==> forall|value: spec_fn(W) -> bool| #[trigger]
            respects::<W, E, G>(gate, value) ==> read_word(value, sum@) == crate::bits::add_of(
                read_word(value, v@),
                read_word(value, w@),
                value(carry),
            ),
        r is Err ==> exists|operation: BitOp, a: W, b: W, x: Result<W, E>| #[trigger]
            call_ensures(gate, (operation, a, b), x) && x is Err,
{
    let ghost g0 = gate;
    let mut apply = gate;
    let mut carry = carry;
    let ghost carry_in = carry;
    let mut output = v.clone();
    let mut i: usize = 0;
    proof {
        assert forall|value: spec_fn(W) -> bool| #[trigger]
            respects::<W, E, G>(g0, value) implies ripple(
            read_word(value, v@),
            read_word(value, w@),
            value(carry_in),
            read_word(value, output@),
            value(carry),
            0,
        ) by {
            ripple_start(
                read_word(value, v@),
                read_word(value, w@),
                value(carry),
                read_word(value, output@),
            );
        }
    }
    while i < N
        invariant
            i <= N,
            apply == g0,
            g0 == gate,
            forall|operation: BitOp, a: W, b: W| #[trigger] call_requires(g0, (operation, a, b)),
            forall|value: spec_fn(W) -> bool| #[trigger]
                respects::<W, E, G>(g0, value) ==> ripple(
                    read_word(value, v@),
                    read_word(value, w@),
                    value(carry_in),
                    read_word(value, output@),
                    value(carry),
                    i as int,
                ),
        decreases N - i,
    {
        let ghost before = output;
        let ghost carry_before = carry;
        let without_carry = apply(BitOp::Xor, dup(&v[i]), dup(&w[i]))?;
        output[i] = apply(BitOp::Xor, without_carry, dup(&carry))?;
        let a = apply(BitOp::And, dup(&v[i]), dup(&w[i]))?;
        let b = apply(BitOp::And, dup(&v[i]), dup(&carry))?;
        let c = apply(BitOp::And, dup(&w[i]), dup(&carry))?;
        let remaining_pairs = apply(BitOp::Or, b, c)?;
        carry = apply(BitOp::Or, a, remaining_pairs)?;
        proof {
            assert forall|value: spec_fn(W) -> bool| #[trigger]
                respects::<W, E, G>(g0, value) implies ripple(
                read_word(value, v@),
                read_word(value, w@),
                value(carry_in),
                read_word(value, output@),
                value(carry),
                i + 1,
            ) by {
                ripple_step(
                    read_word(value, v@),
                    read_word(value, w@),
                    value(carry_in),
                    read_word(value, before@),
                    value(carry_before),
                    read_word(value, output@),
                    value(carry),
                    i as int,
                );
            }
        }
        i = i + 1;
    }
    proof {
        assert forall|value: spec_fn(W) -> bool| #[trigger]
            respects::<W, E, G>(g0, value) implies read_word(value, output@) == crate::bits::add_of(
            read_word(value, v@),
            read_word(value, w@),
            value(carry_in),
        ) by {
            ripple_end(
                read_word(value, v@),
                read_word(value, w@),
                value(carry_in),
                read_word(value, output@),
                value(carry),
            );
        }
    }
    Ok(output)
}

/// The state of a ripple-carry addition once the low `i` bits are out.
pub open spec fn ripple(
    v: Seq<bool>,
    w: Seq<bool>,
    carry_in: bool,
    out: Seq<bool>,
    carry: bool,
    i: int,
) -> bool {
    crate::bits::num(out.take(i)) + crate::bits::carry_num(carry)
        * vstd::arithmetic::power2::pow2(i as nat) == crate::bits::num(v.take(i))
        + crate::bits::num(w.take(i)) + crate::bits::carry_num(carry_in)
}

proof fn ripple_start(v: Seq<bool>, w: Seq<bool>, carry: bool, out: Seq<bool>)
    ensures
        ripple(v, w, carry, out, carry, 0),
{
    vstd::arithmetic::power2::lemma2_to64();
    assert(v.take(0) =~= Seq::<bool>::empty());
    assert(w.take(0) =~= Seq::<bool>::empty());
    assert(out.take(0) =~= Seq::<bool>::empty());
}

proof fn ripple_step(
    v: Seq<bool>,
    w: Seq<bool>,
    carry_in: bool,
    out: Seq<bool>,
    carry: bool,
    next: Seq<bool>,
    next_carry: bool,
    i: int,
)
    requires
        0 <= i < v.len() == w.len() == out.len() == next.len(),
        ripple(v, w, carry_in, out, carry, i),
        forall|j: int| 0 <= j < i ==> out[j] == next[j],
        next[i] == ((v[i] != w[i]) != carry),
        next_carry == ((v[i] && w[i]) || (v[i] && carry) || (w[i] && carry)),
    ensures
        ripple(v, w, carry_in, next, next_carry, i + 1),
{
    assert(next.take(i) =~= out.take(i));
    crate::bits::num_step(v, i);
    crate::bits::num_step(w, i);
    crate::bits::num_step(next, i);
    vstd::arithmetic::power2::lemma_pow2_unfold((i + 1) as nat);
    let p = vstd::arithmetic::power2::pow2(i as nat);
    assert(1 * p == p && 0 * p == 0 && 1 * (2 * p) == 2 * p && 0 * (2 * p) == 0);
}

proof fn ripple_end(v: Seq<bool>, w: Seq<bool>, carry_in: bool, out: Seq<bool>, carry: bool)
    requires
        v.len() == w.len() == out.len(),
        ripple(v, w, carry_in, out, carry, v.len() as int),
    ensures
        out == crate::bits::add_of(v, w, carry_in),
        carry == crate::bits::carry_of(v, w, carry_in),
{
    assert(out.take(v.len() as int) =~= out);
    assert(v.take(v.len() as int) =~= v);
    assert(w.take(v.len() as int) =~= w);
    crate::bits::spells(
        out,
        crate::bits::num(v) + crate::bits::num(w) + crate::bits::carry_num(carry_in),
        crate::bits::carry_num(carry),
    );
    crate::bits::num_bound(out);
    let p = vstd::arithmetic::power2::pow2(v.len());
    assert(1 * p == p && 0 * p == 0);
}

/// Add fixed-width little-endian words with an initial carry, keeping the
/// carry out of the top bit.
pub fn add_bits_with_carry_out<C: ContextWithErtOps<bool> + ?Sized, const N: usize>(
    t: &mut C,
    v: &[C::Wrapped; N],
    w: &[C::Wrapped; N],
    carry: C::Wrapped,
) -> (r: Result<([C::Wrapped; N], C::Wrapped), C::Error>) where C::Wrapped: Clone
    ensures
        crate::context::sound::<C>() ==> (r matches Ok((sum, carry_out)) ==> {
            &&& crate::context::bits::<C>(sum@) == crate::bits::add_of(
                crate::context::bits::<C>(v@),
                crate::context::bits::<C>(w@),
                crate::context::bit::<C>(carry),
            )
            &&& crate::context::bit::<C>(carry_out) == crate::bits::carry_of(
                crate::context::bits::<C>(v@),
                crate::context::bits::<C>(w@),
                crate::context::bit::<C>(carry),
            )
        }),
        r is Ok ==> crate::context::asked::<C>(old(t), final(t), adder_kinds(N as nat)),
        C::reliable() ==> r is Ok,
        r matches Err(error) ==> C::errs(error),
{
    let ghost carry_in = crate::context::bit::<C>(carry);
    let ghost va = crate::context::bits::<C>(v@);
    let ghost wa = crate::context::bits::<C>(w@);
    let mut carry = carry;
    let mut output = v.clone();
    let mut i: usize = 0;
    proof {
        crate::context::asked_nothing::<C>(t);
        ripple_start(va, wa, carry_in, crate::context::bits::<C>(output@));
    }
    while i < N
        invariant
            i <= N,
            va == crate::context::bits::<C>(v@),
            wa == crate::context::bits::<C>(w@),
            crate::context::sound::<C>() ==> ripple(
                va,
                wa,
                carry_in,
                crate::context::bits::<C>(output@),
                crate::context::bit::<C>(carry),
                i as int,
            ),
            crate::context::asked::<C>(old(t), t, adder_kinds(i as nat)),
        decreases N - i,
    {
        let ghost g0 = (*t).gates();
        let ghost before = crate::context::bits::<C>(output@);
        let ghost carry_before = crate::context::bit::<C>(carry);
        let without_carry = t.bitxor(keep::<C>(&v[i]), keep::<C>(&w[i]))?;
        let ghost g1 = (*t).gates();
        output[i] = t.bitxor(without_carry, keep::<C>(&carry))?;
        let ghost g2 = (*t).gates();
        let a = t.bitand(keep::<C>(&v[i]), keep::<C>(&w[i]))?;
        let ghost g3 = (*t).gates();
        let b = t.bitand(keep::<C>(&v[i]), keep::<C>(&carry))?;
        let ghost g4 = (*t).gates();
        let c = t.bitand(keep::<C>(&w[i]), keep::<C>(&carry))?;
        let ghost g5 = (*t).gates();
        let remaining_pairs = t.bitor(b, c)?;
        let ghost g6 = (*t).gates();
        carry = t.bitor(a, remaining_pairs)?;
        let ghost g7 = (*t).gates();
        proof {
            if C::logs() {
                let first = (*old(t)).gates();
                let more = adder_kinds(i as nat);
                crate::context::asked_more(first, g0, g1, g1.last(), more);
                let more = more.push(BitOp::Xor);
                crate::context::asked_more(first, g1, g2, g2.last(), more);
                let more = more.push(BitOp::Xor);
                crate::context::asked_more(first, g2, g3, g3.last(), more);
                let more = more.push(BitOp::And);
                crate::context::asked_more(first, g3, g4, g4.last(), more);
                let more = more.push(BitOp::And);
                crate::context::asked_more(first, g4, g5, g5.last(), more);
                let more = more.push(BitOp::And);
                crate::context::asked_more(first, g5, g6, g6.last(), more);
                let more = more.push(BitOp::Or);
                crate::context::asked_more(first, g6, g7, g7.last(), more);
            }
            if crate::context::sound::<C>() {
                ripple_step(
                    va,
                    wa,
                    carry_in,
                    before,
                    carry_before,
                    crate::context::bits::<C>(output@),
                    crate::context::bit::<C>(carry),
                    i as int,
                );
            }
        }
        i = i + 1;
    }
    proof {
        if crate::context::sound::<C>() {
            ripple_end(
                va,
                wa,
                carry_in,
                crate::context::bits::<C>(output@),
                crate::context::bit::<C>(carry),
            );
        }
    }
    Ok((output, carry))
}

/// Add fixed-width little-endian words with an initial carry.
pub fn add_bits<C: ContextWithErtOps<bool> + ?Sized, const N: usize>(
    t: &mut C,
    v: &[C::Wrapped; N],
    w: &[C::Wrapped; N],
    carry: C::Wrapped,
) -> (r: Result<[C::Wrapped; N], C::Error>) where C::Wrapped: Clone
    ensures
        crate::context::sound::<C>() ==> (r matches Ok(sum) ==> crate::context::bits::<C>(sum@)
            == crate::bits::add_of(
            crate::context::bits::<C>(v@),
            crate::context::bits::<C>(w@),
            crate::context::bit::<C>(carry),
        )),
        r is Ok ==> crate::context::asked::<C>(old(t), final(t), adder_kinds(N as nat)),
        C::reliable() ==> r is Ok,
        r matches Err(error) ==> C::errs(error),
{
    let (sum, _) = add_bits_with_carry_out(t, v, w, carry)?;
    Ok(sum)
}

/// Add two words.
pub fn add_word<C: ContextWithErtOps<bool> + ?Sized, const N: usize>(
    t: &mut C,
    left: &[C::Wrapped; N],
    right: &[C::Wrapped; N],
    zero: C::Wrapped,
) -> (r: Result<[C::Wrapped; N], C::Error>) where C::Wrapped: Clone
    ensures
        crate::context::sound::<C>() ==> (r matches Ok(sum) ==> crate::context::bits::<C>(sum@)
            == crate::bits::add_of(
            crate::context::bits::<C>(left@),
            crate::context::bits::<C>(right@),
            crate::context::bit::<C>(zero),
        )),
        r is Ok ==> crate::context::asked::<C>(old(t), final(t), adder_kinds(N as nat)),
        C::reliable() ==> r is Ok,
        r matches Err(error) ==> C::errs(error),
{
    add_bits(t, left, right, zero)
}

/// The gates of `n` selects, one after the other.
pub open spec fn select_kinds(n: nat) -> Seq<BitOp>
    decreases n,
{
    if n == 0 {
        Seq::empty()
    } else {
        select_kinds((n - 1) as nat).push(BitOp::Xor).push(BitOp::And).push(BitOp::Xor)
    }
}

/// The gates of a ripple-carry adder of `n` bits.
pub open spec fn adder_kinds(n: nat) -> Seq<BitOp>
    decreases n,
{
    if n == 0 {
        Seq::empty()
    } else {
        adder_kinds((n - 1) as nat).push(BitOp::Xor).push(BitOp::Xor).push(BitOp::And).push(
            BitOp::And,
        ).push(BitOp::And).push(BitOp::Or).push(BitOp::Or)
    }
}

/// Select `then_word` when `condition` is set, else select `else_word`.
///
/// The implementation is the circuit identity `else ^ (condition & (then ^
/// else))`, so no mux capability is required from the Boolean context.
pub fn select_word<C: ContextWithErtOps<bool> + ?Sized, const N: usize>(
    t: &mut C,
    condition: C::Wrapped,
    then_word: &[C::Wrapped; N],
    else_word: &[C::Wrapped; N],
) -> (r: Result<[C::Wrapped; N], C::Error>) where C::Wrapped: Clone
    ensures
        crate::context::sound::<C>() ==> (r matches Ok(word) ==> crate::context::bits::<C>(word@)
            == if crate::context::bit::<C>(condition) {
            crate::context::bits::<C>(then_word@)
        } else {
            crate::context::bits::<C>(else_word@)
        }),
        r is Ok ==> crate::context::asked::<C>(old(t), final(t), select_kinds(N as nat)),
        C::reliable() ==> r is Ok,
        r matches Err(error) ==> C::errs(error),
{
    let ghost chosen = if crate::context::bit::<C>(condition) {
        then_word@
    } else {
        else_word@
    };
    proof {
        crate::context::asked_nothing::<C>(t);
    }
    let mut output = else_word.clone();
    let mut i: usize = 0;
    while i < N
        invariant
            i <= N,
            chosen == if crate::context::bit::<C>(condition) {
                then_word@
            } else {
                else_word@
            },
            crate::context::sound::<C>() ==> forall|j: int|
                0 <= j < i ==> crate::context::bit::<C>(#[trigger] output@[j])
                    == crate::context::bit::<C>(chosen[j]),
            crate::context::asked::<C>(old(t), t, select_kinds(i as nat)),
        decreases N - i,
    {
        let ghost g0 = (*t).gates();
        let difference = t.bitxor(keep::<C>(&then_word[i]), keep::<C>(&else_word[i]))?;
        let ghost g1 = (*t).gates();
        let gated = t.bitand(keep::<C>(&condition), difference)?;
        let ghost g2 = (*t).gates();
        output[i] = t.bitxor(keep::<C>(&else_word[i]), gated)?;
        proof {
            if C::logs() {
                let first = (*old(t)).gates();
                let g3 = (*t).gates();
                let more = select_kinds(i as nat);
                crate::context::asked_more(first, g0, g1, g1.last(), more);
                let more = more.push(BitOp::Xor);
                crate::context::asked_more(first, g1, g2, g2.last(), more);
                let more = more.push(BitOp::And);
                crate::context::asked_more(first, g2, g3, g3.last(), more);
            }
        }
        i = i + 1;
    }
    proof {
        if crate::context::sound::<C>() {
            assert(crate::context::bits::<C>(output@) =~= crate::context::bits::<C>(chosen));
        }
    }
    Ok(output)
}

/// Apply a bitwise operation to every bit of two words.
pub fn bitwise_word<C: ContextWithErtOps<bool> + ?Sized, const N: usize>(
    t: &mut C,
    left: &[C::Wrapped; N],
    right: &[C::Wrapped; N],
    operation: BitOp,
) -> (r: Result<[C::Wrapped; N], C::Error>) where C::Wrapped: Clone
    ensures
        crate::context::sound::<C>() ==> (r matches Ok(word) ==> crate::context::bits::<C>(word@)
            == bitwise_bits(
            operation,
            crate::context::bits::<C>(left@),
            crate::context::bits::<C>(right@),
        )),
        r is Ok ==> crate::context::asked::<C>(
            old(t),
            final(t),
            crate::context::repeated(operation, N as nat),
        ),
        C::reliable() ==> r is Ok,
        r matches Err(error) ==> C::errs(error),
{
    let ghost expected = bitwise_bits(
        operation,
        crate::context::bits::<C>(left@),
        crate::context::bits::<C>(right@),
    );
    proof {
        if C::logs() {
            assert(crate::context::kinds((*t).gates()) =~= crate::context::kinds((*t).gates())
                + crate::context::repeated(operation, 0));
        }
    }
    let mut output = left.clone();
    let mut i: usize = 0;
    while i < N
        invariant
            i <= N,
            expected == bitwise_bits(
                operation,
                crate::context::bits::<C>(left@),
                crate::context::bits::<C>(right@),
            ),
            crate::context::sound::<C>() ==> forall|j: int|
                0 <= j < i ==> crate::context::bit::<C>(#[trigger] output@[j]) == expected[j],
            crate::context::asked::<C>(
                old(t),
                t,
                crate::context::repeated(operation, i as nat),
            ),
        decreases N - i,
    {
        let ghost was = (*t).gates();
        output[i] = emit(t, operation, keep::<C>(&left[i]), keep::<C>(&right[i]))?;
        proof {
            if C::logs() {
                let more = crate::context::repeated(operation, i as nat);
                let now = (*t).gates();
                crate::context::asked_more((*old(t)).gates(), was, now, now.last(), more);
                crate::context::repeated_more(operation, i as nat);
            }
        }
        i = i + 1;
    }
    proof {
        if crate::context::sound::<C>() {
            assert(crate::context::bits::<C>(output@) =~= expected);
        }
    }
    Ok(output)
}

/// The wires that a constant alone determines, once a word is combined with
/// it: clones of the word's own wires and of the two constants, and for XOR the
/// word's own wires where the constant is unset.
pub open spec fn hardcoded<W: Clone>(
    operation: BitOp,
    known: Seq<bool>,
    symbolic: Seq<W>,
    zero: W,
    one: W,
    word: Seq<W>,
) -> bool {
    forall|i: int|
        #![trigger word[i]]
        0 <= i < known.len() ==> match operation {
            BitOp::And => cloned(
                if known[i] {
                    symbolic[i]
                } else {
                    zero
                },
                word[i],
            ),
            BitOp::Or => cloned(
                if known[i] {
                    one
                } else {
                    symbolic[i]
                },
                word[i],
            ),
            BitOp::Xor => known[i] || cloned(symbolic[i], word[i]),
        }
}

/// A gate inverts a wire: it takes a clone of the wire and a clone of `one`.
pub open spec fn inverts<W: Clone>(gate: Gate<W>, wire: W, one: W, out: W) -> bool {
    &&& gate.kind == BitOp::Xor
    &&& cloned(wire, gate.left)
    &&& cloned(one, gate.right)
    &&& gate.out == out
}

/// The gates that invert the wires of a word where a constant is set came on
/// top of the earlier ones, in order, and their outputs are the wires of the
/// result.
pub open spec fn inverting<W: Clone>(
    before: Seq<Gate<W>>,
    after: Seq<Gate<W>>,
    known: Seq<bool>,
    symbolic: Seq<W>,
    one: W,
    word: Seq<W>,
) -> bool {
    &&& before.is_prefix_of(after)
    &&& after.len() == before.len() + crate::bits::set_bits(known)
    &&& forall|i: int|
        #![trigger word[i]]
        0 <= i < known.len() && known[i] ==> inverts(
            after[(before.len() + crate::bits::set_bits(known.take(i))) as int],
            symbolic[i],
            one,
            word[i],
        )
}

/// One more wire of a word, inverted or not.
proof fn inverting_step<W: Clone>(
    before: Seq<Gate<W>>,
    was: Seq<Gate<W>>,
    now: Seq<Gate<W>>,
    known: Seq<bool>,
    i: int,
    symbolic: Seq<W>,
    one: W,
    old_word: Seq<W>,
    word: Seq<W>,
)
    requires
        0 <= i < known.len(),
        known.len() <= old_word.len(),
        inverting(before, was, known.take(i), symbolic, one, old_word),
        word == old_word.update(i, word[i]),
        if known[i] {
            &&& now.len() == was.len() + 1
            &&& was == now.drop_last()
            &&& inverts(now.last(), symbolic[i], one, word[i])
        } else {
            now == was
        },
    ensures
        inverting(before, now, known.take(i + 1), symbolic, one, word),
{
    crate::bits::set_bits_step(known, i);
    let more = known.take(i + 1);
    assert(before.is_prefix_of(now));
    assert forall|j: int|
        #![trigger word[j]]
        0 <= j < more.len() && more[j] implies inverts(
        now[(before.len() + crate::bits::set_bits(more.take(j))) as int],
        symbolic[j],
        one,
        word[j],
    ) by {
        assert(more.take(j) =~= known.take(j));
        if j < i {
            assert(known.take(i).take(j) =~= known.take(j));
            assert(old_word[j] == word[j]);
            assert(known.take(i)[j]);
            crate::bits::set_bits_grow(known.take(i), j);
        }
    }
}

/// AND/OR/XOR a host-known `constant` against a symbolic word, hardcoding
/// every bit the constant alone determines with no gate at all for AND and
/// OR. XOR is accepted for call-site uniformity only: it still emits one gate
/// per set bit, since XOR has no constant-side shortcut to exploit.
pub fn partial_bitwise_word<C: ContextWithErtOps<bool> + ?Sized, const N: usize>(
    t: &mut C,
    constant: u64,
    symbolic: &[C::Wrapped; N],
    zero: &C::Wrapped,
    one: &C::Wrapped,
    operation: BitOp,
) -> (r: Result<[C::Wrapped; N], C::Error>) where C::Wrapped: Clone
    requires
        N <= 64,
    ensures
        constants::<C>(*zero, *one) ==> (r matches Ok(word) ==> crate::context::bits::<C>(word@)
            == bitwise_bits(
            operation,
            crate::bits::bits_of(constant as nat, N as nat),
            crate::context::bits::<C>(symbolic@),
        )),
        C::reliable() ==> r is Ok,
        r matches Err(error) ==> C::errs(error),
        operation != BitOp::Xor ==> r is Ok && untouched::<C>(old(t), final(t)),
        operation == BitOp::Xor && r is Ok ==> crate::context::asked::<C>(
            old(t),
            final(t),
            crate::context::repeated(
                BitOp::Xor,
                crate::bits::set_bits(crate::bits::bits_of(constant as nat, N as nat)),
            ),
        ),
        r matches Ok(word) ==> hardcoded(
            operation,
            crate::bits::bits_of(constant as nat, N as nat),
            symbolic@,
            *zero,
            *one,
            word@,
        ),
        C::logs() && operation == BitOp::Xor ==> (r matches Ok(word) ==> inverting(
            (*old(t)).gates(),
            (*final(t)).gates(),
            crate::bits::bits_of(constant as nat, N as nat),
            symbolic@,
            *one,
            word@,
        )),
{
    let ghost known = crate::bits::bits_of(constant as nat, N as nat);
    let ghost expected = bitwise_bits(operation, known, crate::context::bits::<C>(symbolic@));
    proof {
        if C::logs() {
            assert(crate::context::kinds((*t).gates()) =~= crate::context::kinds((*t).gates())
                + crate::context::repeated(BitOp::Xor, crate::bits::set_bits(known.take(0))));
        }
    }
    let mut output = symbolic.clone();
    let mut i: usize = 0;
    while i < N
        invariant
            i <= N <= 64,
            known == crate::bits::bits_of(constant as nat, N as nat),
            expected == bitwise_bits(operation, known, crate::context::bits::<C>(symbolic@)),
            constants::<C>(*zero, *one) ==> forall|j: int|
                0 <= j < i ==> crate::context::bit::<C>(#[trigger] output@[j]) == expected[j],
            operation != BitOp::Xor ==> untouched::<C>(old(t), t),
            operation == BitOp::Xor ==> crate::context::asked::<C>(
                old(t),
                t,
                crate::context::repeated(BitOp::Xor, crate::bits::set_bits(known.take(i as int))),
            ),
            hardcoded(operation, known.take(i as int), symbolic@, *zero, *one, output@),
            C::logs() && operation == BitOp::Xor ==> inverting(
                (*old(t)).gates(),
                (*t).gates(),
                known.take(i as int),
                symbolic@,
                *one,
                output@,
            ),
        decreases N - i,
    {
        proof {
            crate::bits::shifted_bit(constant, i as u64);
            crate::bits::set_bits_step(known, i as int);
        }
        let ghost was = (*t).gates();
        let ghost old_output = output@;
        let set = (constant >> (i as u64)) & 1 != 0;
        output[i] = match operation {
            BitOp::And => if set {
                keep::<C>(&symbolic[i])
            } else {
                keep::<C>(zero)
            },
            BitOp::Or => if set {
                keep::<C>(one)
            } else {
                keep::<C>(&symbolic[i])
            },
            BitOp::Xor => if set {
                t.bitxor(keep::<C>(&symbolic[i]), keep::<C>(one))?
            } else {
                keep::<C>(&symbolic[i])
            },
        };
        i = i + 1;
        proof {
            assert(output@ =~= old_output.update(i - 1, output@[i - 1]));
            assert forall|j: int|
                #![trigger output@[j]]
                0 <= j < i - 1 implies old_output[j] == output@[j] && known.take(i - 1)[j]
                == known.take(i as int)[j] by {}
            if C::logs() && operation == BitOp::Xor {
                let now = (*t).gates();
                if known[i - 1] {
                    assert(now.drop_last() =~= was);
                }
                inverting_step(
                    (*old(t)).gates(),
                    was,
                    now,
                    known,
                    i - 1,
                    symbolic@,
                    *one,
                    old_output,
                    output@,
                );
            }
            if C::logs() && operation == BitOp::Xor && known[i - 1] {
                let count = crate::bits::set_bits(known.take(i - 1));
                let now = (*t).gates();
                crate::context::asked_more(
                    (*old(t)).gates(),
                    was,
                    now,
                    now.last(),
                    crate::context::repeated(BitOp::Xor, count),
                );
                crate::context::repeated_more(BitOp::Xor, count);
            }
        }
    }
    proof {
        assert(known.take(N as int) =~= known);
        if constants::<C>(*zero, *one) {
            assert(crate::context::bits::<C>(output@) =~= expected);
        }
    }
    Ok(output)
}

/// `constant & !symbolic`, for a bit-clear with a concrete left operand (not
/// expressible via [`partial_bitwise_word`], since it needs a per-bit
/// inverted copy rather than a direct copy).
pub fn partial_and_not_word<C: ContextWithErtOps<bool> + ?Sized, const N: usize>(
    t: &mut C,
    constant: u64,
    symbolic: &[C::Wrapped; N],
    zero: &C::Wrapped,
    one: &C::Wrapped,
) -> (r: Result<[C::Wrapped; N], C::Error>) where C::Wrapped: Clone
    requires
        N <= 64,
    ensures
        constants::<C>(*zero, *one) ==> (r matches Ok(word) ==> crate::context::bits::<C>(word@)
            == crate::bits::and_bits(
            crate::bits::bits_of(constant as nat, N as nat),
            crate::bits::complement(crate::context::bits::<C>(symbolic@)),
        )),
        C::reliable() ==> r is Ok,
        r matches Err(error) ==> C::errs(error),
        r is Ok ==> crate::context::asked::<C>(
            old(t),
            final(t),
            crate::context::repeated(
                BitOp::Xor,
                crate::bits::set_bits(crate::bits::bits_of(constant as nat, N as nat)),
            ),
        ),
        r matches Ok(word) ==> forall|i: int|
            #![trigger word@[i]]
            0 <= i < N && !crate::bits::bits_of(constant as nat, N as nat)[i] ==> cloned(
                *zero,
                word@[i],
            ),
        C::logs() ==> (r matches Ok(word) ==> inverting(
            (*old(t)).gates(),
            (*final(t)).gates(),
            crate::bits::bits_of(constant as nat, N as nat),
            symbolic@,
            *one,
            word@,
        )),
{
    let ghost known = crate::bits::bits_of(constant as nat, N as nat);
    let ghost expected = crate::bits::and_bits(
        known,
        crate::bits::complement(crate::context::bits::<C>(symbolic@)),
    );
    proof {
        if C::logs() {
            assert(crate::context::kinds((*t).gates()) =~= crate::context::kinds((*t).gates())
                + crate::context::repeated(BitOp::Xor, crate::bits::set_bits(known.take(0))));
        }
    }
    let mut output = symbolic.clone();
    let mut i: usize = 0;
    while i < N
        invariant
            i <= N <= 64,
            known == crate::bits::bits_of(constant as nat, N as nat),
            expected == crate::bits::and_bits(
                known,
                crate::bits::complement(crate::context::bits::<C>(symbolic@)),
            ),
            constants::<C>(*zero, *one) ==> forall|j: int|
                0 <= j < i ==> crate::context::bit::<C>(#[trigger] output@[j]) == expected[j],
            crate::context::asked::<C>(
                old(t),
                t,
                crate::context::repeated(BitOp::Xor, crate::bits::set_bits(known.take(i as int))),
            ),
            forall|j: int|
                #![trigger output@[j]]
                0 <= j < i && !known[j] ==> cloned(*zero, output@[j]),
            C::logs() ==> inverting(
                (*old(t)).gates(),
                (*t).gates(),
                known.take(i as int),
                symbolic@,
                *one,
                output@,
            ),
        decreases N - i,
    {
        proof {
            crate::bits::shifted_bit(constant, i as u64);
            crate::bits::set_bits_step(known, i as int);
        }
        let ghost was = (*t).gates();
        let ghost old_output = output@;
        output[i] = if (constant >> (i as u64)) & 1 == 0 {
            keep::<C>(zero)
        } else {
            t.bitxor(keep::<C>(&symbolic[i]), keep::<C>(one))?
        };
        i = i + 1;
        proof {
            assert(output@ =~= old_output.update(i - 1, output@[i - 1]));
            if C::logs() {
                let now = (*t).gates();
                if known[i - 1] {
                    assert(now.drop_last() =~= was);
                }
                inverting_step(
                    (*old(t)).gates(),
                    was,
                    now,
                    known,
                    i - 1,
                    symbolic@,
                    *one,
                    old_output,
                    output@,
                );
            }
            if C::logs() && known[i - 1] {
                let count = crate::bits::set_bits(known.take(i - 1));
                let now = (*t).gates();
                crate::context::asked_more(
                    (*old(t)).gates(),
                    was,
                    now,
                    now.last(),
                    crate::context::repeated(BitOp::Xor, count),
                );
                crate::context::repeated_more(BitOp::Xor, count);
            }
        }
    }
    proof {
        assert(known.take(N as int) =~= known);
        if constants::<C>(*zero, *one) {
            assert(crate::context::bits::<C>(output@) =~= expected);
        }
    }
    Ok(output)
}

/// Invert every bit of a word using the supplied Boolean one wire.
pub fn invert_word<C: ContextWithErtOps<bool> + ?Sized, const N: usize>(
    t: &mut C,
    word: &[C::Wrapped; N],
    one: C::Wrapped,
) -> (r: Result<[C::Wrapped; N], C::Error>) where C::Wrapped: Clone
    ensures
        crate::context::sound::<C>() && crate::context::bit::<C>(one) ==> (r matches Ok(inverse) ==>
            crate::context::bits::<C>(inverse@) == crate::bits::complement(
            crate::context::bits::<C>(word@),
        )),
        r is Ok ==> crate::context::asked::<C>(
            old(t),
            final(t),
            crate::context::repeated(BitOp::Xor, N as nat),
        ),
        C::reliable() ==> r is Ok,
        r matches Err(error) ==> C::errs(error),
{
    let ghost expected = crate::bits::complement(crate::context::bits::<C>(word@));
    proof {
        if C::logs() {
            assert(crate::context::kinds((*t).gates()) =~= crate::context::kinds((*t).gates())
                + crate::context::repeated(BitOp::Xor, 0));
        }
    }
    let mut output = word.clone();
    let mut i: usize = 0;
    while i < N
        invariant
            i <= N,
            expected == crate::bits::complement(crate::context::bits::<C>(word@)),
            crate::context::sound::<C>() && crate::context::bit::<C>(one) ==> forall|j: int|
                0 <= j < i ==> crate::context::bit::<C>(#[trigger] output@[j]) == expected[j],
            crate::context::asked::<C>(
                old(t),
                t,
                crate::context::repeated(BitOp::Xor, i as nat),
            ),
        decreases N - i,
    {
        let ghost was = (*t).gates();
        output[i] = t.bitxor(keep::<C>(&word[i]), keep::<C>(&one))?;
        proof {
            if C::logs() {
                let more = crate::context::repeated(BitOp::Xor, i as nat);
                let now = (*t).gates();
                crate::context::asked_more((*old(t)).gates(), was, now, now.last(), more);
                crate::context::repeated_more(BitOp::Xor, i as nat);
            }
        }
        i = i + 1;
    }
    proof {
        if crate::context::sound::<C>() && crate::context::bit::<C>(one) {
            assert(crate::context::bits::<C>(output@) =~= expected);
        }
    }
    Ok(output)
}

} // verus!
