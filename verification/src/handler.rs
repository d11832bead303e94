//! Environment calls: what a machine asks of its host.
use crate::context::{BitValue, ContextWithValue};
use crate::word::ContextWithErtOps;
use vstd::prelude::*;

verus! {

/// The wires of `C` have a meaning that cloning keeps, and `zero` and `one`
/// mean false and true.
pub open spec fn meaningful<Val: BitValue, C: ContextWithValue<Val> + ?Sized>(
    zero: C::Wrapped,
    one: C::Wrapped,
) -> bool where C::Wrapped: Clone {
    &&& C::lawful()
    &&& forall|a: C::Wrapped, b: C::Wrapped| #[trigger]
        cloned(a, b) ==> C::denotes(a) == C::denotes(b)
    &&& !C::denotes(zero).truth()
    &&& C::denotes(one).truth()
}

/// A word of wires spells the number `v`.
pub open spec fn spells<Val: BitValue, C: ContextWithValue<Val> + ?Sized>(
    word: Seq<C::Wrapped>,
    v: u64,
) -> bool {
    forall|j: int|
        0 <= j < word.len() ==> C::denotes(#[trigger] word[j]).truth() == crate::bits::bits_of(
            v as nat,
            word.len(),
        )[j]
}

/// Every register with a host-known value spells that value.
pub open spec fn agree<Val: BitValue, C: ContextWithValue<Val> + ?Sized, const BITS: usize>(
    regs: Seq<[C::Wrapped; BITS]>,
    constants: Seq<Option<u64>>,
) -> bool {
    forall|i: int|
        0 <= i < regs.len() ==> ((#[trigger] constants[i]) matches Some(v) ==> spells::<Val, C>(
            regs[i]@,
            v,
        ))
}

/// The effect of a handled environment call on control flow.
#[derive(Clone, Copy, Debug, Eq, PartialEq, Structural)]
pub enum EcallOutcome {
    /// Continue execution at the next instruction.
    Continue,
    /// Exit the program, once the interpreter confirms the stack is balanced.
    Exit,
    /// This specific call (e.g. an unrecognized register-zero value) is invalid.
    Unexpected,
}

/// Options controlling the opt-in recognizer of secret-dependent early-exit
/// loops: instead of failing the moment a machine meets a branch it cannot
/// resolve concretely, it may recognize a narrow idiom (a concrete-bounded
/// loop with exactly one secret-dependent early exit that only ever writes
/// constants) and replay it as an always-runs-every-iteration loop with the
/// exit folded in via [`select_word`](crate::word::select_word).
///
/// Anything outside that narrow idiom keeps failing exactly as before.
#[derive(Clone, Copy, Debug, Eq, PartialEq, Structural)]
pub struct EarlyExitLoopOptions {
    /// Attempt the recognizer instead of failing on a symbolic branch.
    pub enabled: bool,
    /// Bound on how many instructions the recognizer will statically scan
    /// while classifying a candidate loop body, before giving up and falling
    /// through to the ordinary error.
    pub max_lookahead_instructions: u16,
}

impl Default for EarlyExitLoopOptions {
    fn default() -> (r: Self)
        ensures
            !r.enabled,
            r.max_lookahead_instructions == 256,
    {
        EarlyExitLoopOptions { enabled: false, max_lookahead_instructions: 256 }
    }
}

/// A register file as a host call sees it.
pub struct File<W, const BITS: usize> {
    pub regs: Seq<[W; BITS]>,
    pub constants: Seq<Option<u64>>,
    pub offsets: Seq<Option<i64>>,
}

/// The options of a handler that does not opt in.
pub open spec fn opted_out() -> EarlyExitLoopOptions {
    EarlyExitLoopOptions { enabled: false, max_lookahead_instructions: 256 }
}

/// A handler for a machine's environment-call instruction (Armv8-M `SVC #0`),
/// and any others a caller adds.
///
/// `regs`/`reg_consts`/`offsets` are slices over the full register file at
/// the call. An implementation is expected to index only known ABI-fixed
/// positions (e.g. "register 0" and "the eight registers following it").
/// `zero`/`one` are the caller's symbolic Boolean constants. Returning `Err`
/// aborts execution with a caller-emitted error; return
/// [`EcallOutcome::Unexpected`] instead to reject just this particular call
/// (e.g. an unrecognized register-zero value) without fabricating one.
///
/// The caller-balanced-stack requirement for a successful exit is enforced
/// by each machine, not by the handler.
pub trait Handler<Val: BitValue>: ContextWithErtOps<Val> {
    /// Whether the callbacks inside the handler accept every argument.
    open spec fn callable() -> bool {
        true
    }

    /// Whether the handler's calls never fail.
    open spec fn willing() -> bool {
        false
    }

    /// How the handler answers a call: the register file that it is given, the
    /// two constant wires, the outcome, and the register file that it leaves.
    open spec fn answers(
        before: File<<Self as ContextWithValue<Val>>::Wrapped, 32>,
        zero: <Self as ContextWithValue<Val>>::Wrapped,
        one: <Self as ContextWithValue<Val>>::Wrapped,
        outcome: EcallOutcome,
        after: File<<Self as ContextWithValue<Val>>::Wrapped, 32>,
    ) -> bool {
        true
    }

    /// The errors that the handler may fail a call with: the register file that
    /// it is given, the two constant wires, and the error.
    open spec fn fails(
        before: File<<Self as ContextWithValue<Val>>::Wrapped, 32>,
        zero: <Self as ContextWithValue<Val>>::Wrapped,
        one: <Self as ContextWithValue<Val>>::Wrapped,
        error: Self::Error,
    ) -> bool {
        true
    }

    /// The options, other than none, that the handler opts in with.
    open spec fn opts_in(options: EarlyExitLoopOptions) -> bool {
        false
    }

    /// Handle an environment call. Whatever the handler writes, a host-known
    /// value must stay the value that the wires beside it spell.
    fn ecall(
        &mut self,
        regs: &mut [[<Self as ContextWithValue<Val>>::Wrapped; 32]],
        reg_consts: &mut [Option<u64>],
        offsets: &mut [Option<i64>],
        zero: &<Self as ContextWithValue<Val>>::Wrapped,
        one: &<Self as ContextWithValue<Val>>::Wrapped,
    ) -> (r: Result<EcallOutcome, Self::Error>) where
        <Self as ContextWithValue<Val>>::Wrapped: Clone,

        requires
            Self::callable(),
            old(regs)@.len() >= 16,
            old(reg_consts)@.len() == old(regs)@.len(),
            old(offsets)@.len() == old(regs)@.len(),
        ensures
            Self::willing() ==> r is Ok,
            r matches Err(error) ==> Self::fails(
                File {
                    regs: old(regs)@,
                    constants: old(reg_consts)@,
                    offsets: old(offsets)@,
                },
                *zero,
                *one,
                error,
            ),
            r matches Ok(outcome) ==> Self::answers(
                File {
                    regs: old(regs)@,
                    constants: old(reg_consts)@,
                    offsets: old(offsets)@,
                },
                *zero,
                *one,
                outcome,
                File {
                    regs: final(regs)@,
                    constants: final(reg_consts)@,
                    offsets: final(offsets)@,
                },
            ),
            final(regs)@.len() == old(regs)@.len(),
            final(reg_consts)@.len() == old(reg_consts)@.len(),
            final(offsets)@.len() == old(offsets)@.len(),
            r is Ok && meaningful::<Val, Self>(*zero, *one) && agree::<Val, Self, 32>(
                old(regs)@,
                old(reg_consts)@,
            ) ==> agree::<Val, Self, 32>(final(regs)@, final(reg_consts)@),
    ;

    /// Options for the opt-in secret-dependent early-exit loop recognizer
    /// (see [`EarlyExitLoopOptions`]).
    ///
    /// Defaults to disabled: branch handling fails the moment it meets a
    /// symbolic condition it cannot resolve concretely.
    fn early_exit_loop_options(&self) -> (r: EarlyExitLoopOptions)
        ensures
            r == opted_out() || Self::opts_in(r),
    {
        EarlyExitLoopOptions::default()
    }
}

/// Word `k` of a digest cut into words of `bytes` bytes, least significant
/// byte first.
pub open spec fn digest_word(digest: Seq<u8>, k: int, bytes: int) -> nat {
    crate::memory::le_num(digest.subrange(bytes * k, bytes * k + bytes))
}

/// A register file after a 32-byte digest went into the registers from
/// `first` up as known words, `BITS / 8` bytes to a register.
pub open spec fn digested<W: Clone, const BITS: usize>(
    digest: Seq<u8>,
    first: int,
    zero: W,
    one: W,
    old_regs: Seq<[W; BITS]>,
    regs: Seq<[W; BITS]>,
    old_constants: Seq<Option<u64>>,
    constants: Seq<Option<u64>>,
    old_offsets: Seq<Option<i64>>,
    offsets: Seq<Option<i64>>,
) -> bool {
    let bytes = BITS as int / 8;
    let count = 32int / bytes;
    &&& regs.len() == old_regs.len()
    &&& constants.len() == old_constants.len()
    &&& offsets.len() == old_offsets.len()
    &&& forall|i: int|
        0 <= i < regs.len() && !(first <= i < first + count) ==> (#[trigger] regs[i]) == old_regs[i]
    &&& forall|i: int|
        0 <= i < constants.len() ==> (#[trigger] constants[i]) == if first <= i < first + count {
            Some(digest_word(digest, i - first, bytes) as u64)
        } else {
            old_constants[i]
        }
    &&& forall|i: int|
        0 <= i < offsets.len() ==> (#[trigger] offsets[i]) == if first <= i < first + count {
            None
        } else {
            old_offsets[i]
        }
    &&& forall|i: int, j: int|
        first <= i < first + count && 0 <= j < BITS ==> cloned(
            if crate::bits::bits_of(digest_word(digest, i - first, bytes), BITS as nat)[j] {
                one
            } else {
                zero
            },
            #[trigger] regs[i]@[j],
        )
}

/// Write a digest to the registers from `first` up.
pub fn write_digest<W: Clone, const BITS: usize>(
    digest: &[u8; 32],
    first: usize,
    regs: &mut [[W; BITS]],
    reg_consts: &mut [Option<u64>],
    offsets: &mut [Option<i64>],
    zero: &W,
    one: &W,
)
    requires
        BITS == 32 || BITS == 64,
        first + 8 <= old(regs)@.len(),
        old(reg_consts)@.len() == old(regs)@.len(),
        old(offsets)@.len() == old(regs)@.len(),
    ensures
        digested::<W, BITS>(
            digest@,
            first as int,
            *zero,
            *one,
            old(regs)@,
            final(regs)@,
            old(reg_consts)@,
            final(reg_consts)@,
            old(offsets)@,
            final(offsets)@,
        ),
{
    let bytes: usize = BITS / 8;
    let count: usize = 32 / bytes;
    let ghost regs0 = regs@;
    let ghost consts0 = reg_consts@;
    let ghost offs0 = offsets@;
    let len: usize = regs.len();
    proof {
        if BITS == 32 {
            assert(bytes == 4);
            assert(count == 8);
        } else {
            assert(bytes == 8);
            assert(count == 4);
        }
    }
    let mut k: usize = 0;
    while k < count
        invariant
            k <= count,
            BITS == 32 || BITS == 64,
            bytes == BITS / 8,
            count == 32int / (bytes as int),
            bytes * count == 32,
            count <= 8,
            len == regs0.len(),
            first + 8 <= len,
            regs@.len() == regs0.len(),
            reg_consts@.len() == regs0.len(),
            offsets@.len() == regs0.len(),
            consts0.len() == regs0.len(),
            offs0.len() == regs0.len(),
            forall|i: int|
                0 <= i < regs@.len() && !(first <= i < first + k) ==> (#[trigger] regs@[i])
                    == regs0[i],
            forall|i: int|
                0 <= i < reg_consts@.len() ==> (#[trigger] reg_consts@[i]) == if first <= i < first
                    + k {
                    Some(digest_word(digest@, i - first, bytes as int) as u64)
                } else {
                    consts0[i]
                },
            forall|i: int|
                0 <= i < offsets@.len() ==> (#[trigger] offsets@[i]) == if first <= i < first + k {
                    None
                } else {
                    offs0[i]
                },
            forall|i: int, j: int|
                first <= i < first + k && 0 <= j < BITS ==> cloned(
                    if crate::bits::bits_of(
                        digest_word(digest@, i - first, bytes as int),
                        BITS as nat,
                    )[j] {
                        *one
                    } else {
                        *zero
                    },
                    #[trigger] regs@[i]@[j],
                ),
        decreases count - k,
    {
        assert(bytes * k + bytes <= 32) by (nonlinear_arith)
            requires
                k + 1 <= count,
                bytes * count == 32,
        ;
        let value: u64 = crate::memory::number_from_bytes(digest, bytes * k, bytes);
        offsets[first + k] = None;
        reg_consts[first + k] = Some(value);
        regs[first + k] = crate::word::constant_word::<W, BITS>(zero, one, value);
        k = k + 1;
    }
}

/// Known words written to a register file agree with the wires beside them.
pub proof fn digest_agrees<Val: BitValue, C: ContextWithValue<Val> + ?Sized, const BITS: usize>(
    digest: Seq<u8>,
    first: int,
    zero: C::Wrapped,
    one: C::Wrapped,
    old_regs: Seq<[C::Wrapped; BITS]>,
    regs: Seq<[C::Wrapped; BITS]>,
    old_constants: Seq<Option<u64>>,
    constants: Seq<Option<u64>>,
    old_offsets: Seq<Option<i64>>,
    offsets: Seq<Option<i64>>,
) where C::Wrapped: Clone
    requires
        BITS == 32 || BITS == 64,
        digest.len() == 32,
        0 <= first,
        first + 8 <= regs.len(),
        constants.len() == regs.len(),
        meaningful::<Val, C>(zero, one),
        agree::<Val, C, BITS>(old_regs, old_constants),
        digested::<C::Wrapped, BITS>(
            digest,
            first,
            zero,
            one,
            old_regs,
            regs,
            old_constants,
            constants,
            old_offsets,
            offsets,
        ),
    ensures
        agree::<Val, C, BITS>(regs, constants),
{
    let bytes = BITS as int / 8;
    let count = 32int / bytes;
    if BITS == 32 {
        assert(bytes == 4);
        assert(count == 8) by (nonlinear_arith)
            requires
                bytes == 4,
                count == 32int / bytes,
        ;
    } else {
        assert(bytes == 8);
        assert(count == 4) by (nonlinear_arith)
            requires
                bytes == 8,
                count == 32int / bytes,
        ;
    }
    assert forall|i: int| 0 <= i < regs.len() implies ((#[trigger] constants[i]) matches Some(v)
        ==> spells::<Val, C>(regs[i]@, v)) by {
        if first <= i < first + count {
            let n = digest_word(digest, i - first, bytes);
            let part = digest.subrange(bytes * (i - first), bytes * (i - first) + bytes);
            assert(bytes * (i - first) + bytes <= 32) by (nonlinear_arith)
                requires
                    i - first + 1 <= count,
                    bytes * count == 32,
                    bytes > 0,
            ;
            assert(0 <= bytes * (i - first)) by (nonlinear_arith)
                requires
                    bytes > 0,
                    i >= first,
            ;
            crate::memory::le_num_bound(part);
            crate::memory::byte_powers();
            assert forall|j: int| 0 <= j < BITS implies C::denotes(#[trigger] regs[i]@[j]).truth()
                == crate::bits::bits_of((n as u64) as nat, BITS as nat)[j] by {
                assert(cloned(
                    if crate::bits::bits_of(n, BITS as nat)[j] {
                        one
                    } else {
                        zero
                    },
                    regs[i]@[j],
                ));
            }
        } else {
            assert(regs[i] == old_regs[i]);
            assert(constants[i] == old_constants[i]);
        }
    }
}

} // verus!
