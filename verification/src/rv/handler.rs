//! Handlers for the RISC-V machine: environment calls and call hooks.
use crate::callback::HashCallback;
use crate::context::{
    BitValue, ContextWithBitAnd, ContextWithBitOr, ContextWithBitXor, ContextWithStorage,
    ContextWithValue, Gate, HasError, StorageAddressBit,
};
use crate::handler::{write_digest, EcallOutcome, File};
use crate::thumb::handler::DefaultHandler;
use crate::word::ContextWithErtOps;
use vstd::prelude::*;

verus! {

/// The Boolean operations required to execute the supported RISC-V subset.
pub trait ContextWithRvOps<Val: BitValue>: ContextWithErtOps<Val> {

}

impl<Val: BitValue, T: ContextWithErtOps<Val> + ?Sized> ContextWithRvOps<Val> for T {

}

/// A call that a hook may intercept.
#[derive(Clone, Copy, Debug, Eq, PartialEq, Structural)]
#[allow(inconsistent_fields)]
pub enum CallEvent {
    /// A `JAL` that links.
    DirectCall {
        /// The address of the call.
        caller_pc: u64,
        /// Where the call goes.
        target: u64,
        /// Where the callee returns to.
        return_pc: u64,
    },
    /// A `JALR` that is not the conventional return.
    RegisterCall {
        /// The address of the call.
        caller_pc: u64,
        /// The register that holds the target.
        register: u8,
        /// The target, where it is known.
        target: Option<u64>,
        /// Where the callee returns to.
        return_pc: u64,
    },
}

/// What a hook decides about a call.
#[derive(Clone, Copy, Debug, Eq, PartialEq, Structural)]
pub enum CallAction {
    /// Make the call.
    Continue,
    /// Resume after the call at once, without entering the callee and
    /// without pushing a frame.
    ReturnNow,
    /// Make the call, but to this address.
    Divert(u64),
}

/// A register keeps its stack offset only where nothing was written to it.
pub open spec fn offsets_kept<W, const BITS: usize>(
    old_regs: Seq<[W; BITS]>,
    regs: Seq<[W; BITS]>,
    old_offsets: Seq<Option<i64>>,
    offsets: Seq<Option<i64>>,
) -> bool {
    forall|i: int|
        0 <= i < offsets.len() ==> ((#[trigger] offsets[i]) is Some ==> offsets[i] == old_offsets[i]
            && regs[i] == old_regs[i])
}

/// A handler for the environment calls of a machine with registers of `BITS`
/// bits, and for its calls.
///
/// `regs`/`reg_consts`/`offsets` are slices over the full register file at
/// the call. `zero`/`one` are the caller's symbolic Boolean constants.
/// Returning `Err` aborts execution with a caller-emitted error; return
/// [`EcallOutcome::Unexpected`] instead to reject just this particular call
/// without fabricating one.
///
/// The caller-balanced-stack requirement for a successful exit is enforced by
/// the machine, not by the handler.
pub trait RvHandler<Val: BitValue, const BITS: usize>: ContextWithErtOps<Val>
    + ContextWithStorage<Val> {
    /// Whether the callbacks inside the handler accept every argument.
    open spec fn callable() -> bool {
        true
    }

    /// Whether neither the handler's calls nor its hook ever fail.
    open spec fn willing() -> bool {
        false
    }

    /// What the handler's answer to an environment call may be: the register
    /// file it is given, its outcome, and the register file it leaves.
    open spec fn answers(
        before: File<<Self as ContextWithValue<Val>>::Wrapped, BITS>,
        zero: <Self as ContextWithValue<Val>>::Wrapped,
        one: <Self as ContextWithValue<Val>>::Wrapped,
        outcome: EcallOutcome,
        after: File<<Self as ContextWithValue<Val>>::Wrapped, BITS>,
    ) -> bool {
        true
    }

    /// What the hook may decide about a call, apart from making it as it
    /// stands.
    open spec fn hooks(
        event: CallEvent,
        before: File<<Self as ContextWithValue<Val>>::Wrapped, BITS>,
        zero: <Self as ContextWithValue<Val>>::Wrapped,
        one: <Self as ContextWithValue<Val>>::Wrapped,
        action: CallAction,
        after: File<<Self as ContextWithValue<Val>>::Wrapped, BITS>,
    ) -> bool {
        false
    }

    /// The errors that the handler may fail an environment call with.
    open spec fn fails(
        before: File<<Self as ContextWithValue<Val>>::Wrapped, BITS>,
        zero: <Self as ContextWithValue<Val>>::Wrapped,
        one: <Self as ContextWithValue<Val>>::Wrapped,
        error: Self::Error,
    ) -> bool {
        true
    }

    /// The errors that the hook may fail with.
    open spec fn hook_fails(
        event: CallEvent,
        before: File<<Self as ContextWithValue<Val>>::Wrapped, BITS>,
        zero: <Self as ContextWithValue<Val>>::Wrapped,
        one: <Self as ContextWithValue<Val>>::Wrapped,
        error: Self::Error,
    ) -> bool {
        true
    }

    /// Handle an environment call. Whatever the handler writes, a host-known
    /// value must stay the value that the wires beside it spell, and a
    /// register that it writes must lose its stack offset.
    fn ecall(
        &mut self,
        regs: &mut [[<Self as ContextWithValue<Val>>::Wrapped; BITS]],
        reg_consts: &mut [Option<u64>],
        offsets: &mut [Option<i64>],
        zero: &<Self as ContextWithValue<Val>>::Wrapped,
        one: &<Self as ContextWithValue<Val>>::Wrapped,
    ) -> (r: Result<EcallOutcome, Self::Error>) where
        <Self as ContextWithValue<Val>>::Wrapped: Clone,

        requires
            Self::callable(),
            BITS == 32 || BITS == 64,
            old(regs)@.len() == 32,
            old(reg_consts)@.len() == 32,
            old(offsets)@.len() == 32,
        ensures
            r matches Err(error) ==> Self::fails(
                File { regs: old(regs)@, constants: old(reg_consts)@, offsets: old(offsets)@ },
                *zero,
                *one,
                error,
            ),
            r matches Ok(outcome) ==> Self::answers(
                File { regs: old(regs)@, constants: old(reg_consts)@, offsets: old(offsets)@ },
                *zero,
                *one,
                outcome,
                File { regs: final(regs)@, constants: final(reg_consts)@, offsets: final(offsets)@ },
            ),
            Self::willing() ==> r is Ok,
            final(regs)@.len() == 32,
            final(reg_consts)@.len() == 32,
            final(offsets)@.len() == 32,
            r is Ok && crate::handler::meaningful::<Val, Self>(*zero, *one)
                && crate::handler::agree::<Val, Self, BITS>(old(regs)@, old(reg_consts)@)
                ==> crate::handler::agree::<Val, Self, BITS>(final(regs)@, final(reg_consts)@)
                && offsets_kept::<<Self as ContextWithValue<Val>>::Wrapped, BITS>(
                old(regs)@,
                final(regs)@,
                old(offsets)@,
                final(offsets)@,
            ),
    ;

    /// Look at a call before it is made. The hook may rewrite the register
    /// file, under the same rules as [`RvHandler::ecall`]. By default every
    /// call is made as it stands.
    fn call_hook(
        &mut self,
        event: CallEvent,
        regs: &mut [[<Self as ContextWithValue<Val>>::Wrapped; BITS]],
        reg_consts: &mut [Option<u64>],
        offsets: &mut [Option<i64>],
        zero: &<Self as ContextWithValue<Val>>::Wrapped,
        one: &<Self as ContextWithValue<Val>>::Wrapped,
    ) -> (r: Result<CallAction, Self::Error>) where
        <Self as ContextWithValue<Val>>::Wrapped: Clone,

        requires
            Self::callable(),
            BITS == 32 || BITS == 64,
            old(regs)@.len() == 32,
            old(reg_consts)@.len() == 32,
            old(offsets)@.len() == 32,
        ensures
            r matches Err(error) ==> Self::hook_fails(
                event,
                File { regs: old(regs)@, constants: old(reg_consts)@, offsets: old(offsets)@ },
                *zero,
                *one,
                error,
            ),
            r matches Ok(action) ==> (action == CallAction::Continue && final(regs)@ == old(regs)@
                && final(reg_consts)@ == old(reg_consts)@ && final(offsets)@ == old(offsets)@)
                || Self::hooks(
                event,
                File { regs: old(regs)@, constants: old(reg_consts)@, offsets: old(offsets)@ },
                *zero,
                *one,
                action,
                File { regs: final(regs)@, constants: final(reg_consts)@, offsets: final(offsets)@ },
            ),
            Self::willing() ==> r is Ok,
            final(regs)@.len() == 32,
            final(reg_consts)@.len() == 32,
            final(offsets)@.len() == 32,
            r is Ok && crate::handler::meaningful::<Val, Self>(*zero, *one)
                && crate::handler::agree::<Val, Self, BITS>(old(regs)@, old(reg_consts)@)
                ==> crate::handler::agree::<Val, Self, BITS>(final(regs)@, final(reg_consts)@)
                && offsets_kept::<<Self as ContextWithValue<Val>>::Wrapped, BITS>(
                old(regs)@,
                final(regs)@,
                old(offsets)@,
                final(offsets)@,
            ),
    {
        Ok(CallAction::Continue)
    }
}

/// A hook was told of a call and decided so: the call is made as it stands, or
/// what the handler says of its hook holds.
pub open spec fn decided<H: RvHandler<bool, BITS> + ?Sized, const BITS: usize>(
    event: CallEvent,
    before: File<<H as ContextWithValue<bool>>::Wrapped, BITS>,
    zero: <H as ContextWithValue<bool>>::Wrapped,
    one: <H as ContextWithValue<bool>>::Wrapped,
    action: CallAction,
    after: File<<H as ContextWithValue<bool>>::Wrapped, BITS>,
) -> bool {
    (action == CallAction::Continue && after == before) || H::hooks(
        event,
        before,
        zero,
        one,
        action,
        after,
    )
}

/// Neither the context nor the handler ever fails.
pub open spec fn unfailing<H: RvHandler<bool, BITS> + ?Sized, const BITS: usize>() -> bool {
    &&& crate::context::reliable::<H>()
    &&& H::willing()
}

/// An error of the context's operations, of the handler's environment call or
/// of its hook.
pub open spec fn stems<H: RvHandler<bool, BITS> + ?Sized, const BITS: usize>(
    error: H::Error,
) -> bool {
    ||| crate::context::erred::<H>(error)
    ||| exists|
        before: File<<H as ContextWithValue<bool>>::Wrapped, BITS>,
        zero: <H as ContextWithValue<bool>>::Wrapped,
        one: <H as ContextWithValue<bool>>::Wrapped,
    | #[trigger]
        H::fails(before, zero, one, error)
    ||| exists|
        event: CallEvent,
        before: File<<H as ContextWithValue<bool>>::Wrapped, BITS>,
        zero: <H as ContextWithValue<bool>>::Wrapped,
        one: <H as ContextWithValue<bool>>::Wrapped,
    | #[trigger]
        H::hook_fails(event, before, zero, one, error)
}

/// A handler for the environment-call convention: concrete `a0 = 0` calls the
/// `hash` callback on the words from `a1` up that hold 256 bits, and concrete
/// `a0` of all ones exits.
pub struct RvDefaultHandler<H> {
    /// The wrapped context and callback.
    pub inner: H,
}

impl<H: HasError> HasError for RvDefaultHandler<H> {
    type Error = H::Error;
}

impl<H: ContextWithValue<bool>> ContextWithValue<bool> for RvDefaultHandler<H> {
    type Wrapped = H::Wrapped;

    open spec fn lawful() -> bool {
        H::lawful()
    }

    open spec fn reliable() -> bool {
        H::reliable()
    }

    open spec fn errs(error: H::Error) -> bool {
        H::errs(error)
    }

    open spec fn denotes(w: H::Wrapped) -> bool {
        H::denotes(w)
    }

    open spec fn logs() -> bool {
        H::logs()
    }

    open spec fn gates(&self) -> Seq<Gate<H::Wrapped>> {
        self.inner.gates()
    }
}

impl<H: ContextWithBitAnd<bool>> ContextWithBitAnd<bool> for RvDefaultHandler<H> {
    fn bitand(&mut self, a: H::Wrapped, b: H::Wrapped) -> (r: Result<H::Wrapped, H::Error>) {
        self.inner.bitand(a, b)
    }

    fn bitand_assign(&mut self, a: &mut H::Wrapped, b: H::Wrapped) -> (r: Result<(), H::Error>) {
        self.inner.bitand_assign(a, b)
    }
}

impl<H: ContextWithBitOr<bool>> ContextWithBitOr<bool> for RvDefaultHandler<H> {
    fn bitor(&mut self, a: H::Wrapped, b: H::Wrapped) -> (r: Result<H::Wrapped, H::Error>) {
        self.inner.bitor(a, b)
    }

    fn bitor_assign(&mut self, a: &mut H::Wrapped, b: H::Wrapped) -> (r: Result<(), H::Error>) {
        self.inner.bitor_assign(a, b)
    }
}

impl<H: ContextWithBitXor<bool>> ContextWithBitXor<bool> for RvDefaultHandler<H> {
    fn bitxor(&mut self, a: H::Wrapped, b: H::Wrapped) -> (r: Result<H::Wrapped, H::Error>) {
        self.inner.bitxor(a, b)
    }

    fn bitxor_assign(&mut self, a: &mut H::Wrapped, b: H::Wrapped) -> (r: Result<(), H::Error>) {
        self.inner.bitxor_assign(a, b)
    }
}

impl<H: ContextWithStorage<bool>> ContextWithStorage<bool> for RvDefaultHandler<H> {
    type Storage = H::Storage;

    open spec fn tracks() -> bool {
        H::tracks()
    }

    open spec fn cells(storage: &H::Storage) -> Seq<bool> {
        H::cells(storage)
    }

    open spec fn takes(
        storage: &H::Storage,
        address: Seq<StorageAddressBit<<Self as ContextWithValue<bool>>::Wrapped>>,
    ) -> bool {
        H::takes(storage, address)
    }

    fn storage_read(
        &mut self,
        storage: &mut H::Storage,
        address: &[StorageAddressBit<<Self as ContextWithValue<bool>>::Wrapped>],
    ) -> (r: Result<<Self as ContextWithValue<bool>>::Wrapped, Self::Error>) {
        proof {
            assert(crate::context::address_bits::<Self>(address@)
                =~= crate::context::address_bits::<H>(address@));
        }
        self.inner.storage_read(storage, address)
    }

    fn storage_write(
        &mut self,
        storage: &mut H::Storage,
        address: &[StorageAddressBit<<Self as ContextWithValue<bool>>::Wrapped>],
        value: <Self as ContextWithValue<bool>>::Wrapped,
    ) -> (r: Result<(), Self::Error>) {
        proof {
            assert(crate::context::address_bits::<Self>(address@)
                =~= crate::context::address_bits::<H>(address@));
        }
        self.inner.storage_write(storage, address, value)
    }
}

/// The number whose `bits` bits are all set.
pub open spec fn all_ones(bits: int) -> u64 {
    if bits == 64 {
        u64::MAX
    } else {
        0xffff_ffff
    }
}

/// The registers from `a1` up that hold the 32 bytes of a hash call.
pub open spec fn payload<W, const BITS: usize>(regs: Seq<[W; BITS]>) -> Seq<[W; BITS]> {
    regs.subrange(
        11,
        if BITS == 32 {
            19
        } else {
            15
        },
    )
}

/// A hash call that was answered: the digest is in the registers from `a1` up.
pub open spec fn hash_left<C, F, W, E, const BITS: usize>(
    before: File<W, BITS>,
    zero: W,
    one: W,
    digest: [u8; 32],
    after: File<W, BITS>,
) -> bool where W: Clone, F: HashCallback<C, W, E, BITS> {
    &&& crate::thumb::handler::hashed::<C, F, W, E, BITS>(
        payload(before.regs),
        Ok::<[u8; 32], E>(digest),
    )
    &&& crate::handler::digested::<W, BITS>(
        digest@,
        11,
        zero,
        one,
        before.regs,
        after.regs,
        before.constants,
        after.constants,
        before.offsets,
        after.offsets,
    )
}

impl<C, F> RvDefaultHandler<DefaultHandler<C, F>> {
    /// A handler over a context and a hash callback.
    pub fn new<W, E, const BITS: usize>(context: C, hash: F) -> (r: Self) where
        C: ContextWithErtOps<bool> + ContextWithStorage<bool> + ContextWithValue<bool, Wrapped = W>
            + HasError<Error = E>,
        F: HashCallback<C, W, E, BITS>,
        W: Clone,

        ensures
            r.inner.context == context,
            r.inner.hash == hash,
            F::callable() ==> crate::rv::control::handles::<Self, BITS>(),
    {
        RvDefaultHandler { inner: DefaultHandler { context, hash } }
    }
}

impl<C, F, W, E, const BITS: usize> RvHandler<bool, BITS> for RvDefaultHandler<
    DefaultHandler<C, F>,
> where
    C: ContextWithErtOps<bool> + ContextWithStorage<bool> + ContextWithValue<bool, Wrapped = W>
        + HasError<Error = E>,
    F: HashCallback<C, W, E, BITS>,
    W: Clone,
 {
    /// A hash call goes on with the digest of some answer of the callback, all
    /// ones exit, and anything else is unexpected.
    open spec fn answers(
        before: File<W, BITS>,
        zero: W,
        one: W,
        outcome: EcallOutcome,
        after: File<W, BITS>,
    ) -> bool {
        if before.constants[10] == Some(0u64) {
            &&& outcome == EcallOutcome::Continue
            &&& exists|digest: [u8; 32]| #[trigger]
                hash_left::<C, F, W, E, BITS>(before, zero, one, digest, after)
        } else {
            &&& after == before
            &&& outcome == if before.constants[10] == Some(all_ones(BITS as int)) {
                EcallOutcome::Exit
            } else {
                EcallOutcome::Unexpected
            }
        }
    }

    /// Only the callback fails, on the words that it is given.
    open spec fn fails(before: File<W, BITS>, zero: W, one: W, error: E) -> bool {
        before.constants[10] == Some(0u64) && crate::thumb::handler::hashed::<C, F, W, E, BITS>(
            payload(before.regs),
            Err::<[u8; 32], E>(error),
        )
    }

    open spec fn hook_fails(
        event: CallEvent,
        before: File<W, BITS>,
        zero: W,
        one: W,
        error: E,
    ) -> bool {
        false
    }

    /// The callback takes every context and every few words.
    open spec fn callable() -> bool {
        F::callable()
    }

    /// No callback of type `F` fails.
    open spec fn willing() -> bool {
        forall|words: Seq<[W; BITS]>, r: Result<[u8; 32], E>| #[trigger]
            crate::thumb::handler::hashed::<C, F, W, E, BITS>(words, r) ==> r is Ok
    }

    fn ecall(
        &mut self,
        regs: &mut [[W; BITS]],
        reg_consts: &mut [Option<u64>],
        offsets: &mut [Option<i64>],
        zero: &W,
        one: &W,
    ) -> (r: Result<EcallOutcome, E>)
        ensures
            old(reg_consts)@[10] != Some(0u64) ==> {
                &&& final(regs)@ == old(regs)@
                &&& final(reg_consts)@ == old(reg_consts)@
                &&& final(offsets)@ == old(offsets)@
                &&& r == Ok::<EcallOutcome, E>(
                    if old(reg_consts)@[10] == Some(all_ones(BITS as int)) {
                        EcallOutcome::Exit
                    } else {
                        EcallOutcome::Unexpected
                    },
                )
            },
            old(reg_consts)@[10] == Some(0u64) ==> exists|answer: Result<[u8; 32], E>| #[trigger]
                crate::thumb::handler::hashed::<C, F, W, E, BITS>(payload(old(regs)@), answer)
                    && match answer {
                    Err(error) => r == Err::<EcallOutcome, E>(error),
                    Ok(digest) => r == Ok::<EcallOutcome, E>(EcallOutcome::Continue)
                        && crate::handler::digested::<W, BITS>(
                        digest@,
                        11,
                        *zero,
                        *one,
                        old(regs)@,
                        final(regs)@,
                        old(reg_consts)@,
                        final(reg_consts)@,
                        old(offsets)@,
                        final(offsets)@,
                    ),
                },
    {
        match reg_consts[10] {
            Some(0) => {
                let count: usize = if BITS == 32 {
                    8
                } else {
                    4
                };
                let words = vstd::slice::slice_subrange(&*regs, 11, 11 + count);
                let answer = self.inner.hash.digest(&mut self.inner.context, words);
                assert(crate::thumb::handler::hashed::<C, F, W, E, BITS>(
                    payload(old(regs)@),
                    answer,
                ));
                let digest = answer?;
                write_digest::<W, BITS>(&digest, 11, regs, reg_consts, offsets, zero, one);
                proof {
                    assert(hash_left::<C, F, W, E, BITS>(
                        File {
                            regs: old(regs)@,
                            constants: old(reg_consts)@,
                            offsets: old(offsets)@,
                        },
                        *zero,
                        *one,
                        digest,
                        File { regs: regs@, constants: reg_consts@, offsets: offsets@ },
                    ));
                    if crate::handler::meaningful::<bool, Self>(*zero, *one)
                        && crate::handler::agree::<bool, Self, BITS>(old(regs)@, old(reg_consts)@) {
                        crate::handler::digest_agrees::<bool, Self, BITS>(
                            digest@,
                            11,
                            *zero,
                            *one,
                            old(regs)@,
                            regs@,
                            old(reg_consts)@,
                            reg_consts@,
                            old(offsets)@,
                            offsets@,
                        );
                    }
                }
                Ok(EcallOutcome::Continue)
            },
            Some(value) => {
                let exit: u64 = if BITS == 64 {
                    u64::MAX
                } else {
                    0xffff_ffff
                };
                if value == exit {
                    Ok(EcallOutcome::Exit)
                } else {
                    Ok(EcallOutcome::Unexpected)
                }
            },
            None => Ok(EcallOutcome::Unexpected),
        }
    }
}

} // verus!
