//! Handlers for the Thumb machine: environment calls, call hooks, and the
//! virtual TrustZone-M policy.
use crate::callback::{HashCallback, PolicyCallback};
use crate::context::{
    BitValue, ContextWithBitAnd, ContextWithBitOr, ContextWithBitXor, ContextWithStorage,
    ContextWithValue, Gate, HasError, StorageAddressBit,
};
use crate::handler::{write_digest, EarlyExitLoopOptions, EcallOutcome, File, Handler};
use crate::word::ContextWithErtOps;
use vstd::prelude::*;

verus! {

/// Boolean operations required by the Thumb machine.
pub trait ContextWithArmv8mOps<Val: BitValue>: ContextWithErtOps<Val> + ContextWithStorage<Val> {

}

impl<
    Val: BitValue,
    T: ContextWithErtOps<Val> + ContextWithStorage<Val> + ?Sized,
> ContextWithArmv8mOps<
    Val,
> for T {

}

/// A [`Handler`] for the `SVC #0` convention: concrete `r0 = 0` calls the
/// `hash` callback on the eight words `r1` through `r8`, and concrete
/// `r0 = u32::MAX` exits.
pub struct DefaultHandler<C, F> {
    /// The Boolean context bit operations, and the hash callback's own
    /// concrete-type access, are both delegated to this context.
    pub context: C,
    /// The hash callback invoked for the hash `SVC #0`. Its first argument is
    /// the same context passed via `context`, letting a caller's closure use
    /// inherent/concrete methods beyond the three bit-op trait methods while
    /// computing a hash.
    pub hash: F,
}

impl<C: HasError, F> HasError for DefaultHandler<C, F> {
    type Error = C::Error;
}

impl<C: ContextWithValue<bool>, F> ContextWithValue<bool> for DefaultHandler<C, F> {
    type Wrapped = C::Wrapped;

    open spec fn lawful() -> bool {
        C::lawful()
    }

    open spec fn reliable() -> bool {
        C::reliable()
    }

    open spec fn errs(error: C::Error) -> bool {
        C::errs(error)
    }

    open spec fn denotes(w: C::Wrapped) -> bool {
        C::denotes(w)
    }

    open spec fn logs() -> bool {
        C::logs()
    }

    open spec fn gates(&self) -> Seq<Gate<C::Wrapped>> {
        self.context.gates()
    }
}

impl<C: ContextWithBitAnd<bool>, F> ContextWithBitAnd<bool> for DefaultHandler<C, F> {
    fn bitand(&mut self, a: C::Wrapped, b: C::Wrapped) -> (r: Result<C::Wrapped, C::Error>) {
        self.context.bitand(a, b)
    }

    fn bitand_assign(&mut self, a: &mut C::Wrapped, b: C::Wrapped) -> (r: Result<(), C::Error>) {
        self.context.bitand_assign(a, b)
    }
}

impl<C: ContextWithBitOr<bool>, F> ContextWithBitOr<bool> for DefaultHandler<C, F> {
    fn bitor(&mut self, a: C::Wrapped, b: C::Wrapped) -> (r: Result<C::Wrapped, C::Error>) {
        self.context.bitor(a, b)
    }

    fn bitor_assign(&mut self, a: &mut C::Wrapped, b: C::Wrapped) -> (r: Result<(), C::Error>) {
        self.context.bitor_assign(a, b)
    }
}

impl<C: ContextWithBitXor<bool>, F> ContextWithBitXor<bool> for DefaultHandler<C, F> {
    fn bitxor(&mut self, a: C::Wrapped, b: C::Wrapped) -> (r: Result<C::Wrapped, C::Error>) {
        self.context.bitxor(a, b)
    }

    fn bitxor_assign(&mut self, a: &mut C::Wrapped, b: C::Wrapped) -> (r: Result<(), C::Error>) {
        self.context.bitxor_assign(a, b)
    }
}

impl<C: ContextWithStorage<bool>, F> ContextWithStorage<bool> for DefaultHandler<C, F> {
    type Storage = C::Storage;

    open spec fn tracks() -> bool {
        C::tracks()
    }

    open spec fn cells(storage: &C::Storage) -> Seq<bool> {
        C::cells(storage)
    }

    open spec fn takes(
        storage: &C::Storage,
        address: Seq<StorageAddressBit<<Self as ContextWithValue<bool>>::Wrapped>>,
    ) -> bool {
        C::takes(storage, address)
    }

    fn storage_read(
        &mut self,
        storage: &mut C::Storage,
        address: &[StorageAddressBit<<Self as ContextWithValue<bool>>::Wrapped>],
    ) -> (r: Result<<Self as ContextWithValue<bool>>::Wrapped, Self::Error>) {
        proof {
            assert(crate::context::address_bits::<Self>(address@)
                =~= crate::context::address_bits::<C>(address@));
        }
        self.context.storage_read(storage, address)
    }

    fn storage_write(
        &mut self,
        storage: &mut C::Storage,
        address: &[StorageAddressBit<<Self as ContextWithValue<bool>>::Wrapped>],
        value: <Self as ContextWithValue<bool>>::Wrapped,
    ) -> (r: Result<(), Self::Error>) {
        proof {
            assert(crate::context::address_bits::<Self>(address@)
                =~= crate::context::address_bits::<C>(address@));
        }
        self.context.storage_write(storage, address, value)
    }
}

/// A hash callback of type `F` may give `answer` to `words`.
pub open spec fn hashed<
    C,
    F: HashCallback<C, W, E, BITS>,
    W,
    E,
    const BITS: usize,
>(words: Seq<[W; BITS]>, answer: Result<[u8; 32], E>) -> bool {
    F::gives(words, answer)
}

/// What a hash call leaves: a digest that some callback of type `F` gives for
/// the eight words after `r0`, in the registers that held them.
pub open spec fn hash_left<
    C,
    F: HashCallback<C, W, E, 32>,
    W: Clone,
    E,
>(before: File<W, 32>, zero: W, one: W, digest: [u8; 32], after: File<W, 32>) -> bool {
    &&& hashed::<C, F, W, E, 32>(before.regs.subrange(1, 9), Ok::<[u8; 32], E>(digest))
    &&& crate::handler::digested::<W, 32>(
        digest@,
        1,
        zero,
        one,
        before.regs,
        after.regs,
        before.constants,
        after.constants,
        before.offsets,
        after.offsets,
    )
}

impl<C, F> DefaultHandler<C, F> {
    /// A handler over a context and a hash callback.
    pub fn new<W, E>(context: C, hash: F) -> (r: Self) where
        C: ContextWithArmv8mOps<bool> + ContextWithValue<bool, Wrapped = W> + HasError<Error = E>,
        F: HashCallback<C, W, E, 32>,
        W: Clone,

        ensures
            r.context == context,
            r.hash == hash,
            F::callable() ==> <Self as Handler<bool>>::callable(),
    {
        DefaultHandler { context, hash }
    }
}

impl<C, F, W, E> Handler<bool> for DefaultHandler<C, F> where
    C: ContextWithArmv8mOps<bool> + ContextWithValue<bool, Wrapped = W> + HasError<Error = E>,
    F: HashCallback<C, W, E, 32>,
    W: Clone,
 {
    /// The callback takes every context and every eight words.
    open spec fn callable() -> bool {
        F::callable()
    }

    /// No callback of type `F` fails.
    open spec fn willing() -> bool {
        forall|words: Seq<[W; 32]>, r: Result<[u8; 32], E>| #[trigger]
            hashed::<C, F, W, E, 32>(words, r) ==> r is Ok
    }

    /// A concrete `r0` of zero hashes the eight words after it, one of all ones
    /// exits, and anything else is rejected.
    open spec fn answers(
        before: File<W, 32>,
        zero: W,
        one: W,
        outcome: EcallOutcome,
        after: File<W, 32>,
    ) -> bool {
        if before.constants[0] == Some(0u64) {
            outcome == EcallOutcome::Continue && exists|digest: [u8; 32]| #[trigger]
                hash_left::<C, F, W, E>(before, zero, one, digest, after)
        } else {
            after == before && outcome == if before.constants[0] == Some(0xffff_ffffu64) {
                EcallOutcome::Exit
            } else {
                EcallOutcome::Unexpected
            }
        }
    }

    /// Only the callback fails, on the eight words that it is given.
    open spec fn fails(before: File<W, 32>, zero: W, one: W, error: E) -> bool {
        before.constants[0] == Some(0u64) && hashed::<C, F, W, E, 32>(
            before.regs.subrange(1, 9),
            Err::<[u8; 32], E>(error),
        )
    }

    fn ecall(
        &mut self,
        regs: &mut [[W; 32]],
        reg_consts: &mut [Option<u64>],
        offsets: &mut [Option<i64>],
        zero: &W,
        one: &W,
    ) -> (r: Result<EcallOutcome, E>)
        ensures
            old(reg_consts)@[0] != Some(0u64) ==> {
                &&& final(regs)@ == old(regs)@
                &&& final(reg_consts)@ == old(reg_consts)@
                &&& final(offsets)@ == old(offsets)@
                &&& r == Ok::<EcallOutcome, E>(
                    if old(reg_consts)@[0] == Some(0xffff_ffffu64) {
                        EcallOutcome::Exit
                    } else {
                        EcallOutcome::Unexpected
                    },
                )
            },
            old(reg_consts)@[0] == Some(0u64) ==> exists|answer: Result<[u8; 32], E>| #[trigger]
                hashed::<C, F, W, E, 32>(old(regs)@.subrange(1, 9), answer) && match answer {
                    Err(error) => r == Err::<EcallOutcome, E>(error),
                    Ok(digest) => r == Ok::<EcallOutcome, E>(EcallOutcome::Continue)
                        && crate::handler::digested::<W, 32>(
                        digest@,
                        1,
                        *zero,
                        *one,
                        old(regs)@,
                        final(regs)@,
                        old(reg_consts)@,
                        final(reg_consts)@,
                        old(offsets)@,
                        final(offsets)@,
                    ),
                },
    {
        match reg_consts[0] {
            Some(0) => {
                let words = vstd::slice::slice_subrange(&*regs, 1, 9);
                let answer = self.hash.digest(&mut self.context, words);
                assert(hashed::<C, F, W, E, 32>(old(regs)@.subrange(1, 9), answer));
                let digest = answer?;
                assert(hashed::<C, F, W, E, 32>(
                    old(regs)@.subrange(1, 9),
                    Ok::<[u8; 32], E>(digest),
                ));
                write_digest::<W, 32>(&digest, 1, regs, reg_consts, offsets, zero, one);
                assert(hash_left::<C, F, W, E>(
                    File {
                        regs: old(regs)@,
                        constants: old(reg_consts)@,
                        offsets: old(offsets)@,
                    },
                    *zero,
                    *one,
                    digest,
                    File { regs: regs@, constants: reg_consts@, offsets: offsets@ },
                ));
                proof {
                    if crate::handler::meaningful::<bool, Self>(*zero, *one)
                        && crate::handler::agree::<bool, Self, 32>(
                        old(regs)@,
                        old(reg_consts)@,
                    ) {
                        crate::handler::digest_agrees::<bool, Self, 32>(
                            digest@,
                            1,
                            *zero,
                            *one,
                            old(regs)@,
                            regs@,
                            old(reg_consts)@,
                            reg_consts@,
                            old(offsets)@,
                            offsets@,
                        );
                    }
                }
                Ok(EcallOutcome::Continue)
            },
            Some(0xffff_ffff) => Ok(EcallOutcome::Exit),
            _ => Ok(EcallOutcome::Unexpected),
        }
    }
}

/// Narrow host-known values seen as wide ones.
pub open spec fn widen(constants: Seq<Option<u32>>) -> Seq<Option<u64>> {
    Seq::new(
        constants.len(),
        |i: int|
            match constants[i] {
                Some(v) => Some(v as u64),
                None => None,
            },
    )
}

/// A concrete, host-only virtual security state: mirrors real Armv8-M
/// TrustZone-M security states, but is a purely virtual/host-tracked concept
/// with no real hardware backing.
#[derive(Clone, Copy, Debug, Eq, PartialEq, Structural)]
pub enum SecurityState {
    /// The guest's current virtual state is Non-secure.
    NonSecure,
    /// The guest's current virtual state is Secure.
    Secure,
}

/// The virtual security attribution of an address: mirrors real SAU/IDAU
/// region classification. `NonSecureCallable` behaves as `Secure` for
/// fetch-permission purposes (only reachable from Non-secure state by
/// landing exactly on `SG`); the distinction exists for a caller's own
/// attribution policy to make (e.g. only NSC regions contain `SG` gateways).
#[derive(Clone, Copy, Debug, Eq, PartialEq, Structural)]
pub enum SecurityAttribute {
    /// The address is Non-secure.
    NonSecure,
    /// The address is Secure and Non-secure-callable (an `SG` gateway may
    /// live here).
    NonSecureCallable,
    /// The address is Secure and not Non-secure-callable.
    Secure,
}

/// A call that a hook may intercept. Addresses are even fetch addresses.
#[derive(Clone, Copy, Debug, Eq, PartialEq, Structural)]
#[allow(inconsistent_fields)]
pub enum ArmCallEvent {
    /// A direct `BL`.
    DirectCall {
        /// The address of the call.
        caller_pc: u32,
        /// Where the call goes.
        target: u32,
        /// Where the callee returns to.
        return_pc: u32,
    },
    /// A register call, `BLX`.
    RegisterCall {
        /// The address of the call.
        caller_pc: u32,
        /// The register that holds the target.
        register: u8,
        /// The target, where it is known.
        target: Option<u32>,
        /// Where the callee returns to.
        return_pc: u32,
    },
}

/// What a hook decides about a call.
#[derive(Clone, Copy, Debug, Eq, PartialEq, Structural)]
pub enum ArmCallAction {
    /// Make the call.
    Continue,
    /// Resume after the call at once, without entering the callee and
    /// without pushing a frame.
    ReturnNow,
    /// Make the call, but to this even fetch address.
    Divert(u32),
}

/// A register file as a call hook sees it.
pub struct HookFile<W> {
    pub regs: Seq<[W; 32]>,
    pub constants: Seq<Option<u32>>,
    pub offsets: Seq<Option<i32>>,
}

/// An Arm-specific [`Handler`] extension gating `SVC #0` and Secure/Non-secure
/// state transitions on the interpreter's tracked virtual security state
/// (see [`SecurityState`]) and a caller-supplied address attribution.
pub trait ArmHandler<Val: BitValue>: Handler<Val> + ContextWithStorage<Val> {
    /// Whether the policies inside the handler accept every argument.
    open spec fn policies_callable() -> bool {
        true
    }

    /// Whether an `SVC #0` reached while the CPU is in `state` may proceed
    /// to [`Handler::ecall`]. Called by the interpreter before dispatch;
    /// returning `false` rejects the call as if it were unrecognized.
    fn svc_permitted(&mut self, state: SecurityState) -> (r: bool)
        requires
            Self::policies_callable(),
    ;

    /// The virtual security attribution of `address` (see
    /// [`SecurityAttribute`]). Called by the interpreter on every fetch
    /// while the CPU is Non-secure, and by `SG`. A caller can pass a real
    /// host attribution map through unchanged, narrow it to a stricter
    /// policy, or supply an entirely synthetic map when there is no real
    /// hardware backing (e.g. a desktop/user-mode test).
    fn security_attribute(&mut self, address: u32) -> (r: SecurityAttribute)
        requires
            Self::policies_callable(),
    ;

    /// Whether the hook never fails.
    open spec fn hook_willing() -> bool {
        false
    }

    /// What the hook does, other than let a call be made as it stands: the event
    /// and the register file that it is given, the two constant wires, its
    /// decision, and the register file that it leaves.
    open spec fn hooks(
        event: ArmCallEvent,
        before: HookFile<<Self as ContextWithValue<Val>>::Wrapped>,
        zero: <Self as ContextWithValue<Val>>::Wrapped,
        one: <Self as ContextWithValue<Val>>::Wrapped,
        action: ArmCallAction,
        after: HookFile<<Self as ContextWithValue<Val>>::Wrapped>,
    ) -> bool {
        false
    }

    /// The errors that the hook may fail with: the event and the register file
    /// that it is given, the two constant wires, and the error.
    open spec fn hook_fails(
        event: ArmCallEvent,
        before: HookFile<<Self as ContextWithValue<Val>>::Wrapped>,
        zero: <Self as ContextWithValue<Val>>::Wrapped,
        one: <Self as ContextWithValue<Val>>::Wrapped,
        error: Self::Error,
    ) -> bool {
        true
    }

    /// Look at a call before it is made. The hook may rewrite the register
    /// file, under the same rule as [`Handler::ecall`]. By default every call
    /// is made as it stands.
    fn call_hook(
        &mut self,
        event: ArmCallEvent,
        regs: &mut [[<Self as ContextWithValue<Val>>::Wrapped; 32]],
        constants: &mut [Option<u32>],
        offsets: &mut [Option<i32>],
        zero: &<Self as ContextWithValue<Val>>::Wrapped,
        one: &<Self as ContextWithValue<Val>>::Wrapped,
    ) -> (r: Result<ArmCallAction, Self::Error>) where
        <Self as ContextWithValue<Val>>::Wrapped: Clone,

        requires
            Self::policies_callable(),
            old(regs)@.len() >= 16,
            old(constants)@.len() == old(regs)@.len(),
            old(offsets)@.len() == old(regs)@.len(),
        ensures
            Self::hook_willing() ==> r is Ok,
            r matches Err(error) ==> Self::hook_fails(
                event,
                HookFile {
                    regs: old(regs)@,
                    constants: old(constants)@,
                    offsets: old(offsets)@,
                },
                *zero,
                *one,
                error,
            ),
            r matches Ok(action) ==> (action == ArmCallAction::Continue && final(regs)@ == old(
                regs,
            )@ && final(constants)@ == old(constants)@ && final(offsets)@ == old(offsets)@)
                || Self::hooks(
                event,
                HookFile {
                    regs: old(regs)@,
                    constants: old(constants)@,
                    offsets: old(offsets)@,
                },
                *zero,
                *one,
                action,
                HookFile {
                    regs: final(regs)@,
                    constants: final(constants)@,
                    offsets: final(offsets)@,
                },
            ),
            final(regs)@.len() == old(regs)@.len(),
            final(constants)@.len() == old(constants)@.len(),
            final(offsets)@.len() == old(offsets)@.len(),
            r is Ok && crate::handler::meaningful::<Val, Self>(*zero, *one)
                && crate::handler::agree::<Val, Self, 32>(old(regs)@, widen(old(constants)@))
                ==> crate::handler::agree::<Val, Self, 32>(final(regs)@, widen(final(constants)@)),
    {
        Ok(ArmCallAction::Continue)
    }
}

/// What a hook decides: the call is made as it stands, or what the hook does.
pub open spec fn decided<Val: BitValue, H: ArmHandler<Val> + ?Sized>(
    event: ArmCallEvent,
    before: HookFile<<H as ContextWithValue<Val>>::Wrapped>,
    zero: <H as ContextWithValue<Val>>::Wrapped,
    one: <H as ContextWithValue<Val>>::Wrapped,
    action: ArmCallAction,
    after: HookFile<<H as ContextWithValue<Val>>::Wrapped>,
) -> bool {
    (action == ArmCallAction::Continue && after == before) || H::hooks(
        event,
        before,
        zero,
        one,
        action,
        after,
    )
}

/// Tunnels any [`Handler`] through as an [`ArmHandler`], adding both policy
/// closures (like [`DefaultHandler`]'s `hash` receiving `context`) as
/// closures that receive the wrapped `inner` handler directly.
pub struct ArmDefaultHandler<H, G, A> {
    /// The wrapped handler.
    pub inner: H,
    /// The `SVC #0` gate policy. Receives `inner` and the current
    /// [`SecurityState`]; `|_inner, _state| true` permits every call.
    pub svc_permitted: G,
    /// The address attribution policy. Receives `inner` and the address
    /// being classified.
    pub security_attribute: A,
}

impl<H: HasError, G, A> HasError for ArmDefaultHandler<H, G, A> {
    type Error = H::Error;
}

impl<H: ContextWithValue<bool>, G, A> ContextWithValue<bool> for ArmDefaultHandler<H, G, A> {
    type Wrapped = H::Wrapped;

    open spec fn lawful() -> bool {
        H::lawful()
    }

    open spec fn reliable() -> bool {
        H::reliable()
    }

    open spec fn errs(error: H::Error) -> bool {
        H::errs(error)
    }

    open spec fn denotes(w: H::Wrapped) -> bool {
        H::denotes(w)
    }

    open spec fn logs() -> bool {
        H::logs()
    }

    open spec fn gates(&self) -> Seq<Gate<H::Wrapped>> {
        self.inner.gates()
    }
}

impl<H: ContextWithBitAnd<bool>, G, A> ContextWithBitAnd<bool> for ArmDefaultHandler<H, G, A> {
    fn bitand(&mut self, a: H::Wrapped, b: H::Wrapped) -> (r: Result<H::Wrapped, H::Error>) {
        self.inner.bitand(a, b)
    }

    fn bitand_assign(&mut self, a: &mut H::Wrapped, b: H::Wrapped) -> (r: Result<(), H::Error>) {
        self.inner.bitand_assign(a, b)
    }
}

impl<H: ContextWithBitOr<bool>, G, A> ContextWithBitOr<bool> for ArmDefaultHandler<H, G, A> {
    fn bitor(&mut self, a: H::Wrapped, b: H::Wrapped) -> (r: Result<H::Wrapped, H::Error>) {
        self.inner.bitor(a, b)
    }

    fn bitor_assign(&mut self, a: &mut H::Wrapped, b: H::Wrapped) -> (r: Result<(), H::Error>) {
        self.inner.bitor_assign(a, b)
    }
}

impl<H: ContextWithBitXor<bool>, G, A> ContextWithBitXor<bool> for ArmDefaultHandler<H, G, A> {
    fn bitxor(&mut self, a: H::Wrapped, b: H::Wrapped) -> (r: Result<H::Wrapped, H::Error>) {
        self.inner.bitxor(a, b)
    }

    fn bitxor_assign(&mut self, a: &mut H::Wrapped, b: H::Wrapped) -> (r: Result<(), H::Error>) {
        self.inner.bitxor_assign(a, b)
    }
}

impl<H: ContextWithStorage<bool>, G, A> ContextWithStorage<bool> for ArmDefaultHandler<H, G, A> {
    type Storage = H::Storage;

    open spec fn tracks() -> bool {
        H::tracks()
    }

    open spec fn cells(storage: &H::Storage) -> Seq<bool> {
        H::cells(storage)
    }

    open spec fn takes(
        storage: &H::Storage,
        address: Seq<StorageAddressBit<<Self as ContextWithValue<bool>>::Wrapped>>,
    ) -> bool {
        H::takes(storage, address)
    }

    fn storage_read(
        &mut self,
        storage: &mut H::Storage,
        address: &[StorageAddressBit<<Self as ContextWithValue<bool>>::Wrapped>],
    ) -> (r: Result<<Self as ContextWithValue<bool>>::Wrapped, Self::Error>) {
        proof {
            assert(crate::context::address_bits::<Self>(address@)
                =~= crate::context::address_bits::<H>(address@));
        }
        self.inner.storage_read(storage, address)
    }

    fn storage_write(
        &mut self,
        storage: &mut H::Storage,
        address: &[StorageAddressBit<<Self as ContextWithValue<bool>>::Wrapped>],
        value: <Self as ContextWithValue<bool>>::Wrapped,
    ) -> (r: Result<(), Self::Error>) {
        proof {
            assert(crate::context::address_bits::<Self>(address@)
                =~= crate::context::address_bits::<H>(address@));
        }
        self.inner.storage_write(storage, address, value)
    }
}

impl<H: Handler<bool>, G, A> Handler<bool> for ArmDefaultHandler<H, G, A> {
    open spec fn callable() -> bool {
        H::callable()
    }

    open spec fn willing() -> bool {
        H::willing()
    }

    open spec fn answers(
        before: File<<H as ContextWithValue<bool>>::Wrapped, 32>,
        zero: <H as ContextWithValue<bool>>::Wrapped,
        one: <H as ContextWithValue<bool>>::Wrapped,
        outcome: EcallOutcome,
        after: File<<H as ContextWithValue<bool>>::Wrapped, 32>,
    ) -> bool {
        H::answers(before, zero, one, outcome, after)
    }

    open spec fn fails(
        before: File<<H as ContextWithValue<bool>>::Wrapped, 32>,
        zero: <H as ContextWithValue<bool>>::Wrapped,
        one: <H as ContextWithValue<bool>>::Wrapped,
        error: H::Error,
    ) -> bool {
        H::fails(before, zero, one, error)
    }

    open spec fn opts_in(options: EarlyExitLoopOptions) -> bool {
        H::opts_in(options)
    }

    fn ecall(
        &mut self,
        regs: &mut [[<H as ContextWithValue<bool>>::Wrapped; 32]],
        reg_consts: &mut [Option<u64>],
        offsets: &mut [Option<i64>],
        zero: &<H as ContextWithValue<bool>>::Wrapped,
        one: &<H as ContextWithValue<bool>>::Wrapped,
    ) -> (r: Result<EcallOutcome, H::Error>) where <H as ContextWithValue<bool>>::Wrapped: Clone {
        proof {
            if crate::handler::agree::<bool, Self, 32>(regs@, reg_consts@) {
                assert(crate::handler::agree::<bool, H, 32>(regs@, reg_consts@)) by {
                    assert forall|i: int| 0 <= i < regs@.len() implies ((#[trigger] reg_consts@[i]) matches Some(
                        v,
                    ) ==> crate::handler::spells::<bool, H>(regs@[i]@, v)) by {
                        if reg_consts@[i] is Some {
                            assert(crate::handler::spells::<bool, Self>(
                                regs@[i]@,
                                reg_consts@[i]->0,
                            ));
                        }
                    }
                }
            }
        }
        let r = self.inner.ecall(regs, reg_consts, offsets, zero, one);
        proof {
            if crate::handler::agree::<bool, H, 32>(regs@, reg_consts@) {
                assert(crate::handler::agree::<bool, Self, 32>(regs@, reg_consts@)) by {
                    assert forall|i: int| 0 <= i < regs@.len() implies ((#[trigger] reg_consts@[i]) matches Some(
                        v,
                    ) ==> crate::handler::spells::<bool, Self>(regs@[i]@, v)) by {
                        if reg_consts@[i] is Some {
                            assert(crate::handler::spells::<bool, H>(
                                regs@[i]@,
                                reg_consts@[i]->0,
                            ));
                        }
                    }
                }
            }
        }
        r
    }

    fn early_exit_loop_options(&self) -> (r: EarlyExitLoopOptions) {
        self.inner.early_exit_loop_options()
    }
}

impl<H, G, A> ArmDefaultHandler<H, G, A> where
    H: Handler<bool> + ContextWithStorage<bool>,
    G: PolicyCallback<H, SecurityState, bool>,
    A: PolicyCallback<H, u32, SecurityAttribute>,
 {
    /// A handler with its two policies.
    pub fn new(inner: H, svc_permitted: G, security_attribute: A) -> (r: Self)
        ensures
            r.inner == inner,
            r.svc_permitted == svc_permitted,
            r.security_attribute == security_attribute,
            H::callable() && G::callable() && A::callable()
                ==> crate::thumb::control::handles::<Self>(),
    {
        ArmDefaultHandler { inner, svc_permitted, security_attribute }
    }
}

impl<H, G, A> ArmHandler<bool> for ArmDefaultHandler<H, G, A> where
    H: Handler<bool> + ContextWithStorage<bool>,
    G: PolicyCallback<H, SecurityState, bool>,
    A: PolicyCallback<H, u32, SecurityAttribute>,
 {
    /// The policies take every handler and every question.
    open spec fn policies_callable() -> bool {
        G::callable() && A::callable()
    }

    /// Every call is made as it stands.
    open spec fn hook_willing() -> bool {
        true
    }

    open spec fn hook_fails(
        event: ArmCallEvent,
        before: HookFile<<H as ContextWithValue<bool>>::Wrapped>,
        zero: <H as ContextWithValue<bool>>::Wrapped,
        one: <H as ContextWithValue<bool>>::Wrapped,
        error: H::Error,
    ) -> bool {
        false
    }

    fn svc_permitted(&mut self, state: SecurityState) -> (r: bool)
        ensures
            G::gives(state, r),
    {
        self.svc_permitted.ask(&mut self.inner, state)
    }

    fn security_attribute(&mut self, address: u32) -> (r: SecurityAttribute)
        ensures
            A::gives(address, r),
    {
        self.security_attribute.ask(&mut self.inner, address)
    }
}

} // verus!
