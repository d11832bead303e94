//! The RV32 entry points over a caller's context, hash callback and stack.
use crate::callback::WordsCallback;
use crate::context::{
    ContextWithBitAnd, ContextWithBitOr, ContextWithBitXor, ContextWithStorage, ContextWithValue, Gate,
    HasError, StorageAddressBit,
};
use crate::handler::{EcallOutcome, File};
use crate::memory::{number_from_bytes, RawMemory};
use crate::rv::abi::{abi_stack_pointer, blank_results, call_function};
use crate::rv::control::{Answers, Reply};
use crate::rv::entry::run_buffers;
use crate::rv::handler::RvHandler;
use crate::rv::inst::{FetchError, RvOp};
use crate::rv::machine::{ErtError, Frame, Hart};
use crate::word::{constant_word, keep_word, ContextWithErtOps};
use vstd::prelude::*;

verus! {

/// A caller's context and hash callback, as a handler of environment calls:
/// concrete `a0 = 0` hashes the eight words `a1` through `s2`, and concrete
/// `a0 = 0xffff_ffff` exits.
pub struct HashHandler<'a, C: ?Sized, F: ?Sized> {
    pub context: &'a mut C,
    pub hash: &'a mut F,
}

impl<'a, C: HasError + ?Sized, F: ?Sized> HasError for HashHandler<'a, C, F> {
    type Error = C::Error;
}

impl<
    'a,
    C: ContextWithValue<bool> + ?Sized,
    F: ?Sized,
> ContextWithValue<bool> for HashHandler<'a, C, F> {
    type Wrapped = C::Wrapped;

    open spec fn lawful() -> bool {
        C::lawful()
    }

    open spec fn reliable() -> bool {
        C::reliable()
    }

    open spec fn errs(error: C::Error) -> bool {
        C::errs(error)
    }

    open spec fn denotes(w: C::Wrapped) -> bool {
        C::denotes(w)
    }

    open spec fn logs() -> bool {
        C::logs()
    }

    open spec fn gates(&self) -> Seq<Gate<C::Wrapped>> {
        self.context.gates()
    }
}

impl<
    'a,
    C: ContextWithBitAnd<bool> + ?Sized,
    F: ?Sized,
> ContextWithBitAnd<bool> for HashHandler<'a, C, F> {
    fn bitand(&mut self, a: C::Wrapped, b: C::Wrapped) -> (r: Result<C::Wrapped, C::Error>) {
        self.context.bitand(a, b)
    }

    fn bitand_assign(&mut self, a: &mut C::Wrapped, b: C::Wrapped) -> (r: Result<(), C::Error>) {
        self.context.bitand_assign(a, b)
    }
}

impl<
    'a,
    C: ContextWithBitOr<bool> + ?Sized,
    F: ?Sized,
> ContextWithBitOr<bool> for HashHandler<'a, C, F> {
    fn bitor(&mut self, a: C::Wrapped, b: C::Wrapped) -> (r: Result<C::Wrapped, C::Error>) {
        self.context.bitor(a, b)
    }

    fn bitor_assign(&mut self, a: &mut C::Wrapped, b: C::Wrapped) -> (r: Result<(), C::Error>) {
        self.context.bitor_assign(a, b)
    }
}

impl<
    'a,
    C: ContextWithBitXor<bool> + ?Sized,
    F: ?Sized,
> ContextWithBitXor<bool> for HashHandler<'a, C, F> {
    fn bitxor(&mut self, a: C::Wrapped, b: C::Wrapped) -> (r: Result<C::Wrapped, C::Error>) {
        self.context.bitxor(a, b)
    }

    fn bitxor_assign(&mut self, a: &mut C::Wrapped, b: C::Wrapped) -> (r: Result<(), C::Error>) {
        self.context.bitxor_assign(a, b)
    }
}

/// The cell that the host knows an address to name.
pub open spec fn public_index<W>(address: Seq<StorageAddressBit<W>>) -> nat {
    crate::bits::num(Seq::new(address.len(), |i: int| address[i].known == Some(true)))
}

/// The slice index that a public address names.
fn slice_index<W>(address: &[StorageAddressBit<W>]) -> (index: usize)
    requires
        public_index(address@) <= usize::MAX,
    ensures
        index == public_index(address@),
{
    let mut index: usize = 0;
    let mut at: usize = address.len();
    let ghost all = Seq::new(address@.len(), |i: int| address@[i].known == Some(true));
    proof {
        assert(all.subrange(all.len() as int, all.len() as int) =~= Seq::<bool>::empty());
        crate::bits::num_empty();
    }
    while at > 0
        invariant
            at <= address@.len(),
            all == Seq::new(address@.len(), |i: int| address@[i].known == Some(true)),
            crate::bits::num(all) <= usize::MAX,
            index == crate::bits::num(all.subrange(at as int, all.len() as int)),
        decreases at,
    {
        at = at - 1;
        let ghost rest = all.subrange(at + 1, all.len() as int);
        let ghost more = all.subrange(at as int, all.len() as int);
        proof {
            crate::bits::num_front(more);
            assert(more.subrange(1, more.len() as int) =~= rest);
            crate::bits::num_suffix(all, at as int);
        }
        let set = match address[at].known {
            Some(known) => known,
            None => false,
        };
        index = if set {
            2 * index + 1
        } else {
            2 * index
        };
    }
    proof {
        assert(all.subrange(0, all.len() as int) =~= all);
    }
    index
}

impl<'a, C, F, W> ContextWithStorage<bool> for HashHandler<'a, C, F> where
    C: ContextWithValue<bool, Wrapped = W> + ?Sized,
    F: ?Sized,
    W: Clone,
 {
    /// One Boolean wire per cell.
    type Storage = [W];

    /// The wires mean something of their own.
    open spec fn tracks() -> bool {
        crate::context::sound::<C>()
    }

    open spec fn cells(storage: &[W]) -> Seq<bool> {
        crate::context::bits::<C>(storage@)
    }

    /// The host knows the address.
    open spec fn takes(storage: &[W], address: Seq<StorageAddressBit<W>>) -> bool {
        &&& public_index(address) < storage@.len()
        &&& crate::context::sound::<C>() ==> crate::context::address_index::<Self>(address)
            == public_index(address)
    }

    fn storage_read(&mut self, storage: &mut [W], address: &[StorageAddressBit<W>]) -> (r: Result<
        W,
        C::Error,
    >) {
        let index: usize = slice_index(address);
        Ok(crate::context::keep::<C>(&storage[index]))
    }

    fn storage_write(
        &mut self,
        storage: &mut [W],
        address: &[StorageAddressBit<W>],
        value: W,
    ) -> (r: Result<(), C::Error>) {
        let index: usize = slice_index(address);
        storage[index] = value;
        proof {
            assert(crate::context::bits::<C>(storage@) =~= crate::context::bits::<C>(
                old(storage)@,
            ).update(index as int, crate::context::bit::<C>(value)));
        }
        Ok(())
    }
}

/// Word `k` of a hash: the low half of its eight-byte group `k`.
pub open spec fn group_word(digest: Seq<u8>, k: int) -> u64 {
    crate::memory::le_num(digest.subrange(8 * k, 8 * k + 4)) as u64
}

/// A register file after a hash went into `a1` through `a4`, one word of each
/// eight-byte group to a register.
pub open spec fn grouped<W: Clone>(
    digest: Seq<u8>,
    zero: W,
    one: W,
    old_regs: Seq<[W; 32]>,
    regs: Seq<[W; 32]>,
    old_constants: Seq<Option<u64>>,
    constants: Seq<Option<u64>>,
    old_offsets: Seq<Option<i64>>,
    offsets: Seq<Option<i64>>,
) -> bool {
    &&& regs.len() == 32
    &&& constants.len() == 32
    &&& offsets.len() == 32
    &&& forall|i: int|
        0 <= i < 32 && !(11 <= i < 15) ==> (#[trigger] regs[i]) == old_regs[i]
    &&& forall|i: int|
        0 <= i < 32 ==> (#[trigger] constants[i]) == if 11 <= i < 15 {
            Some(group_word(digest, i - 11))
        } else {
            old_constants[i]
        }
    &&& forall|i: int|
        0 <= i < 32 ==> (#[trigger] offsets[i]) == if 11 <= i < 15 {
            None
        } else {
            old_offsets[i]
        }
    &&& forall|i: int, j: int|
        11 <= i < 15 && 0 <= j < 32 ==> cloned(
            if crate::bits::bits_of(group_word(digest, i - 11) as nat, 32)[j] {
                one
            } else {
                zero
            },
            #[trigger] regs[i]@[j],
        )
}

/// Write a hash to `a1` through `a4`.
fn write_groups<W: Clone>(
    digest: &[u8; 32],
    regs: &mut [[W; 32]],
    reg_consts: &mut [Option<u64>],
    offsets: &mut [Option<i64>],
    zero: &W,
    one: &W,
)
    requires
        old(regs)@.len() == 32,
        old(reg_consts)@.len() == 32,
        old(offsets)@.len() == 32,
    ensures
        grouped::<W>(
            digest@,
            *zero,
            *one,
            old(regs)@,
            final(regs)@,
            old(reg_consts)@,
            final(reg_consts)@,
            old(offsets)@,
            final(offsets)@,
        ),
{
    let mut k: usize = 0;
    while k < 4
        invariant
            k <= 4,
            regs@.len() == 32,
            reg_consts@.len() == 32,
            offsets@.len() == 32,
            forall|i: int|
                0 <= i < 32 && !(11 <= i < 11 + k) ==> (#[trigger] regs@[i]) == old(regs)@[i],
            forall|i: int|
                0 <= i < 32 ==> (#[trigger] reg_consts@[i]) == if 11 <= i < 11 + k {
                    Some(group_word(digest@, i - 11))
                } else {
                    old(reg_consts)@[i]
                },
            forall|i: int|
                0 <= i < 32 ==> (#[trigger] offsets@[i]) == if 11 <= i < 11 + k {
                    None
                } else {
                    old(offsets)@[i]
                },
            forall|i: int, j: int|
                11 <= i < 11 + k && 0 <= j < 32 ==> cloned(
                    if crate::bits::bits_of(group_word(digest@, i - 11) as nat, 32)[j] {
                        *one
                    } else {
                        *zero
                    },
                    #[trigger] regs@[i]@[j],
                ),
        decreases 4 - k,
    {
        let value: u64 = number_from_bytes(digest, 8 * k, 4);
        offsets[11 + k] = None;
        reg_consts[11 + k] = Some(value);
        regs[11 + k] = constant_word::<W, 32>(zero, one, value);
        k = k + 1;
    }
}

/// A hash written to a register file agrees with the wires beside it.
proof fn groups_agree<C: ContextWithValue<bool> + ?Sized>(
    digest: Seq<u8>,
    zero: C::Wrapped,
    one: C::Wrapped,
    old_regs: Seq<[C::Wrapped; 32]>,
    regs: Seq<[C::Wrapped; 32]>,
    old_constants: Seq<Option<u64>>,
    constants: Seq<Option<u64>>,
    old_offsets: Seq<Option<i64>>,
    offsets: Seq<Option<i64>>,
) where C::Wrapped: Clone
    requires
        crate::handler::meaningful::<bool, C>(zero, one),
        crate::handler::agree::<bool, C, 32>(old_regs, old_constants),
        old_regs.len() == 32,
        grouped::<C::Wrapped>(
            digest,
            zero,
            one,
            old_regs,
            regs,
            old_constants,
            constants,
            old_offsets,
            offsets,
        ),
    ensures
        crate::handler::agree::<bool, C, 32>(regs, constants),
        crate::rv::handler::offsets_kept::<C::Wrapped, 32>(old_regs, regs, old_offsets, offsets),
{
    assert forall|i: int| 0 <= i < 32 implies ((#[trigger] constants[i]) matches Some(v)
        ==> crate::handler::spells::<bool, C>(regs[i]@, v)) by {
        if 11 <= i < 15 {
            let n = group_word(digest, i - 11);
            assert forall|j: int| 0 <= j < 32 implies C::denotes(#[trigger] regs[i]@[j])
                == crate::bits::bits_of(n as nat, 32)[j] by {
                assert(cloned(
                    if crate::bits::bits_of(n as nat, 32)[j] {
                        one
                    } else {
                        zero
                    },
                    regs[i]@[j],
                ));
            }
        } else {
            assert(regs[i] == old_regs[i]);
        }
    }
}

/// Some hash callback of type `F` gives `answer` to `words`.
pub open spec fn hashed<F: WordsCallback<W, E>, W, E>(
    words: Seq<[W; 32]>,
    answer: Result<[u8; 32], E>,
) -> bool {
    F::gives(words, answer)
}

/// A hash call that was answered: the digest is in the registers from `a1` up.
pub open spec fn hash_left<F, W, E>(
    before: File<W, 32>,
    zero: W,
    one: W,
    digest: [u8; 32],
    after: File<W, 32>,
) -> bool where F: WordsCallback<W, E>, W: Clone {
    &&& hashed::<F, W, E>(before.regs.subrange(11, 19), Ok::<[u8; 32], E>(digest))
    &&& grouped::<W>(
        digest@,
        zero,
        one,
        before.regs,
        after.regs,
        before.constants,
        after.constants,
        before.offsets,
        after.offsets,
    )
}

impl<'a, C, F, W, E> RvHandler<bool, 32> for HashHandler<'a, C, F> where
    C: ContextWithErtOps<bool> + ContextWithValue<bool, Wrapped = W> + HasError<Error = E>
        + ?Sized,
    F: WordsCallback<W, E>,
    W: Clone,
 {
    /// A hash call goes on with the digest of some answer of the callback, all
    /// ones exit, and anything else is unexpected.
    open spec fn answers(
        before: File<W, 32>,
        zero: W,
        one: W,
        outcome: EcallOutcome,
        after: File<W, 32>,
    ) -> bool {
        if before.constants[10] == Some(0u64) {
            &&& outcome == EcallOutcome::Continue
            &&& exists|digest: [u8; 32]| #[trigger]
                hash_left::<F, W, E>(before, zero, one, digest, after)
        } else {
            &&& after == before
            &&& outcome == if before.constants[10] == Some(0xffff_ffffu64) {
                EcallOutcome::Exit
            } else {
                EcallOutcome::Unexpected
            }
        }
    }

    /// Only the callback fails, on the eight words that it is given.
    open spec fn fails(before: File<W, 32>, zero: W, one: W, error: E) -> bool {
        before.constants[10] == Some(0u64) && hashed::<F, W, E>(
            before.regs.subrange(11, 19),
            Err::<[u8; 32], E>(error),
        )
    }

    open spec fn hook_fails(
        event: crate::rv::handler::CallEvent,
        before: File<W, 32>,
        zero: W,
        one: W,
        error: E,
    ) -> bool {
        false
    }

    /// The callback takes every few words.
    open spec fn callable() -> bool {
        F::callable()
    }

    /// No callback of type `F` fails.
    open spec fn willing() -> bool {
        forall|words: Seq<[W; 32]>, r: Result<[u8; 32], E>| #[trigger]
            hashed::<F, W, E>(words, r) ==> r is Ok
    }

    fn ecall(
        &mut self,
        regs: &mut [[W; 32]],
        reg_consts: &mut [Option<u64>],
        offsets: &mut [Option<i64>],
        zero: &W,
        one: &W,
    ) -> (r: Result<EcallOutcome, E>)
        ensures
            old(reg_consts)@[10] != Some(0u64) ==> {
                &&& final(regs)@ == old(regs)@
                &&& final(reg_consts)@ == old(reg_consts)@
                &&& final(offsets)@ == old(offsets)@
                &&& r == Ok::<EcallOutcome, E>(
                    if old(reg_consts)@[10] == Some(0xffff_ffffu64) {
                        EcallOutcome::Exit
                    } else {
                        EcallOutcome::Unexpected
                    },
                )
            },
            old(reg_consts)@[10] == Some(0u64) ==> exists|answer: Result<[u8; 32], E>| #[trigger]
                hashed::<F, W, E>(old(regs)@.subrange(11, 19), answer) && match answer {
                    Err(error) => r == Err::<EcallOutcome, E>(error),
                    Ok(digest) => r == Ok::<EcallOutcome, E>(EcallOutcome::Continue) && grouped::<W>(
                        digest@,
                        *zero,
                        *one,
                        old(regs)@,
                        final(regs)@,
                        old(reg_consts)@,
                        final(reg_consts)@,
                        old(offsets)@,
                        final(offsets)@,
                    ),
                },
    {
        match reg_consts[10] {
            Some(0) => {
                let words = vstd::slice::slice_subrange(&*regs, 11, 19);
                let answer = self.hash.digest(words);
                assert(hashed::<F, W, E>(old(regs)@.subrange(11, 19), answer));
                let digest = answer?;
                write_groups::<W>(&digest, regs, reg_consts, offsets, zero, one);
                proof {
                    assert(hash_left::<F, W, E>(
                        File {
                            regs: old(regs)@,
                            constants: old(reg_consts)@,
                            offsets: old(offsets)@,
                        },
                        *zero,
                        *one,
                        digest,
                        File { regs: regs@, constants: reg_consts@, offsets: offsets@ },
                    ));
                    if crate::handler::meaningful::<bool, Self>(*zero, *one)
                        && crate::handler::agree::<bool, Self, 32>(old(regs)@, old(reg_consts)@) {
                        groups_agree::<Self>(
                            digest@,
                            *zero,
                            *one,
                            old(regs)@,
                            regs@,
                            old(reg_consts)@,
                            reg_consts@,
                            old(offsets)@,
                            offsets@,
                        );
                    }
                }
                Ok(EcallOutcome::Continue)
            },
            Some(0xffff_ffff) => Ok(EcallOutcome::Exit),
            _ => Ok(EcallOutcome::Unexpected),
        }
    }
}

/// Wide host-known values seen as narrow ones.
pub open spec fn narrowed(constants: Seq<Option<u64>>) -> Seq<Option<u32>> {
    Seq::new(
        constants.len(),
        |i: int|
            match constants[i] {
                Some(v) => Some((v % 0x1_0000_0000) as u32),
                None => None,
            },
    )
}

fn widen_constants(constants: &[Option<u32>; 32]) -> (r: [Option<u64>; 32])
    ensures
        r@ == crate::thumb::handler::widen(constants@),
{
    let mut r: [Option<u64>; 32] = [None; 32];
    let mut i: usize = 0;
    while i < 32
        invariant
            i <= 32,
            forall|j: int|
                0 <= j < i ==> (#[trigger] r@[j]) == match constants@[j] {
                    Some(v) => Some(v as u64),
                    None => None,
                },
        decreases 32 - i,
    {
        r[i] = match constants[i] {
            Some(v) => Some(v as u64),
            None => None,
        };
        i = i + 1;
    }
    assert(r@ =~= crate::thumb::handler::widen(constants@));
    r
}

fn narrow_constants(constants: &[Option<u64>; 32]) -> (r: [Option<u32>; 32])
    ensures
        r@ == narrowed(constants@),
{
    let mut r: [Option<u32>; 32] = [None; 32];
    let mut i: usize = 0;
    while i < 32
        invariant
            i <= 32,
            forall|j: int|
                0 <= j < i ==> (#[trigger] r@[j]) == match constants@[j] {
                    Some(v) => Some((v % 0x1_0000_0000) as u32),
                    None => None,
                },
        decreases 32 - i,
    {
        r[i] = match constants[i] {
            Some(v) => Some((v % 0x1_0000_0000) as u32),
            None => None,
        };
        i = i + 1;
    }
    assert(r@ =~= narrowed(constants@));
    r
}

/// Narrow host-known values that are what the wires beside them spell.
pub open spec fn consistent<C: ContextWithValue<bool> + ?Sized>(
    regs: Seq<[C::Wrapped; 32]>,
    constants: Seq<Option<u32>>,
) -> bool {
    crate::rv::machine::constants_agree::<C, 32>(regs, crate::thumb::handler::widen(constants))
}

/// Wide values of a register file that agrees are their narrow ones.
proof fn narrow_round_trip<C: ContextWithValue<bool> + ?Sized>(
    regs: Seq<[C::Wrapped; 32]>,
    constants: Seq<Option<u64>>,
)
    requires
        constants.len() == 32,
        crate::rv::machine::constants_agree::<C, 32>(regs, constants),
    ensures
        crate::thumb::handler::widen(narrowed(constants)) == constants,
        consistent::<C>(regs, narrowed(constants)),
        crate::thumb::machine::present(narrowed(constants)) == crate::thumb::machine::present(
            constants,
        ),
{
    assert(crate::thumb::handler::widen(narrowed(constants)) =~= constants) by {
        assert forall|i: int| 0 <= i < 32 implies crate::thumb::handler::widen(
            narrowed(constants),
        )[i] == constants[i] by {
            if let Some(v) = constants[i] {
                assert(crate::wide::fits(v, 32));
            }
        }
    }
    assert(crate::thumb::machine::present(narrowed(constants)) =~= crate::thumb::machine::present(
        constants,
    ));
}

/// The caller's buffers hold the state in which a program exited.
pub open spec fn left_behind<C: ContextWithValue<bool> + ?Sized>(
    regs: Seq<[C::Wrapped; 32]>,
    constants: Seq<Option<u32>>,
    rstack: Seq<u32>,
    cells: Seq<bool>,
    end: crate::rv::machine::Step,
) -> bool {
    match end {
        crate::rv::machine::Step::Exit { hart, cells: c } => {
            &&& hart.regs == crate::rv::machine::words::<C, 32>(regs)
            &&& hart.known == crate::thumb::machine::present(constants)
            &&& rstack == crate::rv::entry::held::<u32>(hart.rstack)
            &&& c == cells
            &&& consistent::<C>(regs, constants)
        },
        _ => false,
    }
}

/// A run on the caller's buffers ended where its steps lead, and left the state
/// in which it exited, where it did.
pub open spec fn ran_to<C, F, W, E>(
    r: Result<(), ErtError<E>>,
    regs: Seq<[W; 32]>,
    constants: Seq<Option<u32>>,
    rstack: Seq<u32>,
    cells_after: Seq<bool>,
    answers: Seq<Answers>,
    start: Hart,
    cells: Seq<bool>,
    frame: Frame<'_>,
) -> bool where
    C: ContextWithErtOps<bool> + ContextWithValue<bool, Wrapped = W> + HasError<Error = E>
        + ?Sized,
    F: WordsCallback<W, E>,
    W: Clone,
 {
    &&& crate::rv::control::ended::<HashHandler<'_, C, F>, 32, ()>(
        r,
        start,
        cells,
        frame,
        answers,
    )
    &&& r is Ok ==> left_behind::<C>(
        regs,
        constants,
        rstack,
        cells_after,
        crate::rv::control::runs(start, cells, frame, answers),
    )
}

/// Neither the context nor any hash callback of type `F` ever fails.
pub open spec fn unfailing<
    C: ContextWithValue<bool> + ?Sized,
    F: WordsCallback<W, E>,
    W,
    E,
>() -> bool {
    &&& crate::context::reliable::<C>()
    &&& forall|words: Seq<[W; 32]>, r: Result<[u8; 32], E>| #[trigger]
        hashed::<F, W, E>(words, r) ==> r is Ok
}

/// A symbolic stack of whole bytes that 32-bit addresses reach.
pub open spec fn stack_ok(bits: int) -> bool {
    bits % 8 == 0 && bits / 8 <= u32::MAX
}

/// A program in `mem` over a symbolic stack of `bits` bits.
pub open spec fn frame_over<'a>(mem: &'a [u8], bits: int, stack_top: u64) -> Frame<'a> {
    Frame {
        mem: RawMemory { bytes: mem, detect: None },
        storage_bits: bits,
        stack_top,
        bits: 32,
        active: true,
        plain: true,
    }
}

/// Execute a symbolic RV32 instruction image until the supported exit `ECALL`.
///
/// The interpreter resets `x0` and derives `sp` at each instruction. It accepts
/// only the supported subset: aligned instructions of four bytes, and `JALR`
/// only in its return form. An exit is `ECALL` with concrete
/// `a0 = 0xffff_ffff`, and a hash call is `ECALL` with concrete `a0 = 0`.
/// `vstack` is the symbolic stack, one Boolean wire per bit.
pub fn ert_emit<W, E, C, F>(
    t: &mut C,
    hash: &mut F,
    mem: &[u8],
    rstack: &mut [u32],
    vstack: &mut [W],
    pc: u32,
    regs: &mut [[W; 32]; 32],
    reg_consts: &mut [Option<u32>; 32],
    zero: W,
    one: W,
) -> (r: Result<(), ErtError<E>>) where
    W: Clone,
    C: ContextWithErtOps<bool> + ContextWithValue<bool, Wrapped = W> + HasError<Error = E>
        + ?Sized,
    F: WordsCallback<W, E>,

    requires
        F::callable(),
        crate::context::sound::<C>() ==> crate::word::constants::<C>(zero, one),
    ensures
        crate::context::sound::<C>() && consistent::<C>(old(regs)@, old(reg_consts)@) && unfailing::<C, F, W, E>()
            ==> !(r matches Err(ErtError::Emitted(_))),
        final(rstack)@.len() == old(rstack)@.len(),
        !stack_ok(old(vstack)@.len() as int) ==> {
            &&& r matches Err(ErtError::Unexpected)
            &&& final(regs)@ == old(regs)@
            &&& final(reg_consts)@ == old(reg_consts)@
            &&& final(rstack)@ == old(rstack)@
            &&& crate::word::untouched::<C>(old(t), final(t))
            &&& final(vstack)@ == old(vstack)@
        },
        crate::context::sound::<C>() && stack_ok(old(vstack)@.len() as int) && consistent::<C>(
            old(regs)@,
            old(reg_consts)@,
        ) ==> exists|answers: Seq<Answers>|
            #[trigger] ran_to::<C, F, W, E>(
                r,
                final(regs)@,
                final(reg_consts)@,
                final(rstack)@,
                crate::context::bits::<C>(final(vstack)@),
                answers,
                crate::rv::entry::initial(
                    crate::rv::machine::words::<C, 32>(old(regs)@),
                    crate::thumb::machine::present(old(reg_consts)@),
                    crate::rv::entry::addresses(old(rstack)@),
                    pc as u64,
                    (old(vstack)@.len() / 8) as u64,
                ),
                crate::context::bits::<C>(old(vstack)@),
                frame_over(mem, old(vstack)@.len() as int, (old(vstack)@.len() / 8) as u64),
            ),
{
    let bits: usize = vstack.len();
    if bits % 8 != 0 || (bits / 8) as u64 > 0xffff_ffff {
        return Err(ErtError::Unexpected);
    }
    let mut constants = widen_constants(reg_consts);
    let mut handler = HashHandler { context: t, hash };
    let ghost given = constants@;
    let ghost start = crate::rv::entry::initial(
        crate::rv::machine::words::<C, 32>(regs@),
        crate::thumb::machine::present(given),
        crate::rv::entry::addresses(rstack@),
        pc as u64,
        (bits / 8) as u64,
    );
    let ghost cells = crate::context::bits::<C>(vstack@);
    let ghost frame = frame_over(mem, bits as int, (bits / 8) as u64);
    let ghost good = crate::context::sound::<C>() && consistent::<C>(regs@, reg_consts@);
    proof {
        assert(crate::thumb::machine::present(given) =~= crate::thumb::machine::present(
            reg_consts@,
        ));
        same_context::<C, F>(regs@, given);
    }
    proof {
        stack_reaches::<C, F, W>(&*vstack, zero, one);
    }
    let r = run_buffers::<W, E, HashHandler<'_, C, F>, 32, u32>(
        &mut handler,
        vstack,
        bits,
        RawMemory::from_slice(mem),
        rstack,
        pc as u64,
        regs,
        &mut constants,
        zero,
        one,
        (bits / 8) as u64,
        true,
    );
    *reg_consts = narrow_constants(&constants);
    proof {
        if good {
            let answers = choose|answers: Seq<Answers>| #[trigger]
                crate::rv::entry::ran_to::<HashHandler<'_, C, F>, 32, u32>(
                    r,
                    regs@,
                    constants@,
                    rstack@,
                    crate::context::bits::<C>(vstack@),
                    answers,
                    start,
                    cells,
                    frame,
                );
            same_context::<C, F>(regs@, constants@);
            if r is Ok {
                narrow_round_trip::<C>(regs@, constants@);
            }
            assert(ran_to::<C, F, W, E>(
                r,
                regs@,
                reg_consts@,
                rstack@,
                crate::context::bits::<C>(vstack@),
                answers,
                start,
                cells,
                frame,
            ));
        }
    }
    r
}

/// Every cell of the symbolic stack can be reached.
proof fn stack_reaches<'a, C, F, W>(stack: &[W], zero: W, one: W) where
    C: ContextWithValue<bool, Wrapped = W> + ?Sized,
    F: ?Sized,
    W: Clone,

    requires
        stack@.len() <= usize::MAX,
        crate::context::sound::<C>() ==> crate::word::constants::<C>(zero, one),
    ensures
        crate::storage::reachable::<HashHandler<'a, C, F>>(
            stack,
            stack@.len() as int,
            zero,
            one,
        ),
{
    if crate::context::sound::<C>() {
        assert(crate::word::constants::<HashHandler<'a, C, F>>(zero, one)) by {
            assert forall|a: W, b: W| #[trigger] cloned(a, b) implies crate::context::bit::<
                HashHandler<'a, C, F>,
            >(a) == crate::context::bit::<HashHandler<'a, C, F>>(b) by {
                assert(crate::context::bit::<C>(a) == crate::context::bit::<C>(b));
            }
        }
    }
    assert forall|address: Seq<StorageAddressBit<W>>, cell: int|
        0 <= cell < stack@.len() && #[trigger] crate::storage::names::<HashHandler<'a, C, F>>(
            address,
            cell,
        ) implies <HashHandler<'a, C, F> as ContextWithStorage<bool>>::takes(stack, address) by {
        let width = usize::BITS as nat;
        assert(Seq::new(address.len(), |i: int| address[i].known == Some(true))
            =~= crate::bits::bits_of(cell as nat, width));
        crate::bits::num_bits_of(cell as nat, width);
        vstd::arithmetic::power2::lemma2_to64();
        vstd::arithmetic::power2::lemma2_to64_rest();
        vstd::arithmetic::div_mod::lemma_small_mod(
            cell as nat,
            vstd::arithmetic::power2::pow2(width),
        );
    }
}

/// A handler over a context reads its wires as the context does.
proof fn same_context<C: ContextWithValue<bool> + ?Sized, F: ?Sized>(
    regs: Seq<[C::Wrapped; 32]>,
    constants: Seq<Option<u64>>,
)
    requires
        regs.len() == 32,
    ensures
        crate::rv::machine::words::<HashHandler<'_, C, F>, 32>(regs)
            == crate::rv::machine::words::<C, 32>(regs),
        crate::rv::machine::constants_agree::<HashHandler<'_, C, F>, 32>(regs, constants)
            == crate::rv::machine::constants_agree::<C, 32>(regs, constants),
{
    assert forall|i: int| 0 <= i < 32 implies crate::context::bits::<HashHandler<'_, C, F>>(
        #[trigger] regs[i]@,
    ) == crate::context::bits::<C>(regs[i]@) by {
        assert(crate::context::bits::<HashHandler<'_, C, F>>(regs[i]@) =~= crate::context::bits::<
            C,
        >(regs[i]@));
    }
    assert(crate::rv::machine::words::<HashHandler<'_, C, F>, 32>(regs)
        =~= crate::rv::machine::words::<C, 32>(regs));
}

/// Arguments with wide host-known values.
pub open spec fn wide_args<W>(args: Seq<([W; 32], Option<u32>)>) -> Seq<([W; 32], Option<u64>)> {
    Seq::new(
        args.len(),
        |i: int|
            (
                args[i].0,
                match args[i].1 {
                    Some(v) => Some(v as u64),
                    None => None,
                },
            ),
    )
}

/// Copy arguments with wide host-known values.
fn widen_args<C: ContextWithValue<bool> + ?Sized>(args: &[([C::Wrapped; 32], Option<u32>)]) -> (r:
    Vec<([C::Wrapped; 32], Option<u64>)>) where C::Wrapped: Clone
    ensures
        r@.len() == args@.len(),
        crate::rv::abi::arg_constants(r@) == crate::rv::abi::arg_constants(wide_args(args@)),
        crate::context::sound::<C>() ==> {
            &&& crate::rv::abi::arg_words::<C, 32>(r@) == crate::rv::abi::arg_words::<C, 32>(
                wide_args(args@),
            )
            &&& crate::rv::abi::args_agree::<C, 32>(wide_args(args@))
                ==> crate::rv::abi::args_agree::<C, 32>(r@)
        },
{
    let mut r: Vec<([C::Wrapped; 32], Option<u64>)> = Vec::new();
    let ghost wanted = wide_args(args@);
    let mut i: usize = 0;
    while i < args.len()
        invariant
            i <= args@.len(),
            wanted == wide_args(args@),
            r@.len() == i,
            forall|j: int| 0 <= j < i ==> (#[trigger] r@[j]).1 == wanted[j].1,
            crate::context::sound::<C>() ==> forall|j: int|
                0 <= j < i ==> crate::context::bits::<C>((#[trigger] r@[j]).0@)
                    == crate::context::bits::<C>(wanted[j].0@),
        decreases args@.len() - i,
    {
        let word = keep_word::<C, 32>(&args[i].0);
        let value = match args[i].1 {
            Some(v) => Some(v as u64),
            None => None,
        };
        r.push((word, value));
        i = i + 1;
    }
    proof {
        assert(crate::rv::abi::arg_constants(r@) =~= crate::rv::abi::arg_constants(wanted));
        if crate::context::sound::<C>() {
            assert(crate::rv::abi::arg_words::<C, 32>(r@) =~= crate::rv::abi::arg_words::<C, 32>(
                wanted,
            ));
            if crate::rv::abi::args_agree::<C, 32>(wanted) {
                assert forall|j: int| 0 <= j < r@.len() implies ((#[trigger] r@[j]).1 matches Some(
                    v,
                ) ==> crate::wide::fits(v, 32) && crate::context::bits::<C>(r@[j].0@)
                    == crate::rv::machine::spelled(v, 32)) by {
                    assert(wanted[j].1 == r@[j].1);
                }
            }
        }
    }
    r
}

/// What a called function returns, with narrow host-known values.
pub open spec fn returned<C: ContextWithValue<bool> + ?Sized>(
    results: Seq<([C::Wrapped; 32], Option<u32>)>,
    sp: u64,
    end: crate::rv::machine::Step,
) -> bool {
    match end {
        crate::rv::machine::Step::Exit { hart, cells } => forall|i: int|
            0 <= i < results.len() ==> {
                &&& crate::context::bits::<C>((#[trigger] results[i]).0@)
                    == crate::rv::abi::abi_result(hart.regs, cells, sp, i, 32)
                &&& (results[i].1 is Some) == (i < 8 && hart.known[10 + i])
                &&& results[i].1 matches Some(v) ==> crate::context::bits::<C>(results[i].0@)
                    == crate::rv::machine::spelled(v as u64, 32)
            },
        _ => false,
    }
}

/// A call ended where the steps of the called function lead: it returned its
/// results and left the state in which it exited in the caller's buffers, or it
/// failed.
pub open spec fn called_on<C, F, W, E>(
    r: Result<Seq<([W; 32], Option<u32>)>, ErtError<E>>,
    regs: Seq<[W; 32]>,
    constants: Seq<Option<u32>>,
    rstack: Seq<u32>,
    cells_after: Seq<bool>,
    start: Hart,
    cells: Seq<bool>,
    frame: Frame<'_>,
    answers: Seq<Answers>,
) -> bool where
    C: ContextWithErtOps<bool> + ContextWithValue<bool, Wrapped = W> + HasError<Error = E>
        + ?Sized,
    F: WordsCallback<W, E>,
    W: Clone,
 {
    let end = crate::rv::control::runs(start, cells, frame, answers);
    match r {
        Ok(results) => {
            &&& crate::rv::control::sincere::<HashHandler<'_, C, F>, 32>(
                start,
                cells,
                frame,
                answers,
            )
            &&& returned::<C>(results, frame.stack_top, end)
            &&& left_behind::<C>(regs, constants, rstack, cells_after, end)
        },
        Err(error) => crate::rv::abi::fell::<HashHandler<'_, C, F>, 32>(
            error,
            start,
            cells,
            frame,
            answers,
        ),
    }
}

/// Results with narrow host-known values.
pub fn narrow_results<C: ContextWithErtOps<bool> + ?Sized, const M: usize>(
    wide: &[([C::Wrapped; 32], Option<u64>); M],
    zero: &C::Wrapped,
) -> (r: [([C::Wrapped; 32], Option<u32>); M]) where C::Wrapped: Clone
    ensures
        forall|i: int|
            0 <= i < M ==> (#[trigger] r@[i]).1 == match wide@[i].1 {
                Some(v) => Some((v % 0x1_0000_0000) as u32),
                None => None,
            },
        crate::context::sound::<C>() ==> forall|i: int|
            0 <= i < M ==> crate::context::bits::<C>((#[trigger] r@[i]).0@)
                == crate::context::bits::<C>(wide@[i].0@),
{
    let mut r = blank_results::<C::Wrapped, u32, 32, M>(zero);
    let mut i: usize = 0;
    while i < M
        invariant
            i <= M,
            forall|j: int|
                0 <= j < i ==> (#[trigger] r@[j]).1 == match wide@[j].1 {
                    Some(v) => Some((v % 0x1_0000_0000) as u32),
                    None => None,
                },
            crate::context::sound::<C>() ==> forall|j: int|
                0 <= j < i ==> crate::context::bits::<C>((#[trigger] r@[j]).0@)
                    == crate::context::bits::<C>(wide@[j].0@),
        decreases M - i,
    {
        let value = match wide[i].1 {
            Some(v) => Some((v % 0x1_0000_0000) as u32),
            None => None,
        };
        r[i] = (keep_word::<C, 32>(&wide[i].0), value);
        i = i + 1;
    }
    r
}

/// Invoke a symbolic RV32 function using the RISC-V argument and result ABI.
///
/// The first eight arguments and results use `a0` through `a7`; further values
/// are placed in or read from the symbolic stack. `args` carries both the
/// symbolic word and, when known, its concrete value.
pub fn ert_func<W, E, const N: usize, const M: usize, C, F>(
    t: &mut C,
    hash: &mut F,
    mem: &[u8],
    rstack: &mut [u32],
    vstack: &mut [W],
    pc: u32,
    regs: &mut [[W; 32]; 32],
    reg_consts: &mut [Option<u32>; 32],
    zero: W,
    one: W,
    args: [([W; 32], Option<u32>); N],
) -> (r: Result<[([W; 32], Option<u32>); M], ErtError<E>>) where
    W: Clone,
    C: ContextWithErtOps<bool> + ContextWithValue<bool, Wrapped = W> + HasError<Error = E>
        + ?Sized,
    F: WordsCallback<W, E>,

    requires
        F::callable(),
        crate::context::sound::<C>() ==> crate::word::constants::<C>(zero, one),
    ensures
        crate::context::sound::<C>() && consistent::<C>(old(regs)@, old(reg_consts)@) && crate::rv::abi::args_agree::<
            C,
            32,
        >(wide_args(args@)) && unfailing::<C, F, W, E>() ==> !(r matches Err(ErtError::Emitted(_))),
        ({
            let values = crate::rv::abi::larger(N as int, M as int);
            match crate::rv::abi::abi_top(old(vstack)@.len() as int, values, 32) {
                None => {
                    &&& r matches Err(ErtError::Unexpected)
                    &&& final(regs)@ == old(regs)@
                    &&& final(reg_consts)@ == old(reg_consts)@
                    &&& final(rstack)@ == old(rstack)@
                    &&& crate::word::untouched::<C>(old(t), final(t))
                    &&& final(vstack)@ == old(vstack)@
                },
                Some(sp) => crate::context::sound::<C>() && consistent::<C>(old(regs)@, old(reg_consts)@)
                    && crate::rv::abi::args_agree::<C, 32>(wide_args(args@)) ==> exists|
                    answers: Seq<Answers>,
                |
                    #[trigger] called_on::<C, F, W, E>(
                        crate::rv::abi::result_seq(r),
                        final(regs)@,
                        final(reg_consts)@,
                        final(rstack)@,
                        crate::context::bits::<C>(final(vstack)@),
                        start_of::<C>(
                            old(regs)@,
                            old(reg_consts)@,
                            crate::rv::entry::addresses(old(rstack)@),
                            wide_args(args@),
                            pc as u64,
                            sp,
                        ),
                        crate::rv::abi::placed_cells(
                            crate::context::bits::<C>(old(vstack)@),
                            sp,
                            crate::rv::abi::arg_words::<C, 32>(wide_args(args@)),
                            N as int,
                            32,
                        ),
                        frame_over(mem, old(vstack)@.len() as int, sp),
                        answers,
                    ),
            }
        }),
{
    let bits: usize = vstack.len();
    let values: usize = if N > M {
        N
    } else {
        M
    };
    if abi_stack_pointer::<32>(bits, values).is_none() {
        return Err(ErtError::Unexpected);
    }
    let mut constants = widen_constants(reg_consts);
    let wide = widen_args::<C>(&args);
    let ghost given = wide_args(args@);
    let ghost old_regs = regs@;
    let ghost old_constants = constants@;
    let ghost old_stack = rstack@;
    let ghost old_cells = crate::context::bits::<C>(vstack@);
    let ghost good = crate::context::sound::<C>() && consistent::<C>(regs@, reg_consts@)
        && crate::rv::abi::args_agree::<C, 32>(given);
    let kept_zero = crate::context::keep::<C>(&zero);
    let mut handler = HashHandler { context: t, hash };
    proof {
        same_context::<C, F>(regs@, constants@);
        same_arguments::<C, F>(wide@);
    }
    proof {
        stack_reaches::<C, F, W>(&*vstack, zero, one);
    }
    let ran = call_function::<W, E, HashHandler<'_, C, F>, 32, M, u32>(
        &mut handler,
        vstack,
        bits,
        RawMemory::from_slice(mem),
        rstack,
        pc as u64,
        regs,
        &mut constants,
        zero,
        one,
        wide.as_slice(),
        true,
    );
    *reg_consts = narrow_constants(&constants);
    let ghost whole = ran;
    let r = match ran {
        Ok(results) => Ok(narrow_results::<C, M>(&results, &kept_zero)),
        Err(error) => Err(error),
    };
    proof {
        if let Some(sp) = crate::rv::abi::abi_top(
            bits as int,
            crate::rv::abi::larger(N as int, M as int),
            32,
        ) {
            if good {
                let frame = frame_over(mem, bits as int, sp);
                let start = start_of::<C>(
                    old_regs,
                    old(reg_consts)@,
                    crate::rv::entry::addresses(old_stack),
                    given,
                    pc as u64,
                    sp,
                );
                let cells = crate::rv::abi::placed_cells(
                    old_cells,
                    sp,
                    crate::rv::abi::arg_words::<C, 32>(given),
                    N as int,
                    32,
                );
                assert(start == crate::rv::abi::called::<HashHandler<'_, C, F>, 32>(
                    old_regs,
                    old_constants,
                    crate::rv::entry::addresses(old_stack),
                    wide@,
                    pc as u64,
                    sp,
                ));
                let answers = choose|answers: Seq<Answers>| #[trigger]
                    crate::rv::abi::called_on::<HashHandler<'_, C, F>, 32, u32>(
                        crate::rv::abi::result_seq(whole),
                        regs@,
                        constants@,
                        rstack@,
                        crate::context::bits::<C>(vstack@),
                        start,
                        cells,
                        frame,
                        answers,
                    );
                let end = crate::rv::control::runs(start, cells, frame, answers);
                same_context::<C, F>(regs@, constants@);
                if r is Ok {
                    narrow_round_trip::<C>(regs@, constants@);
                }
                assert(called_on::<C, F, W, E>(
                    crate::rv::abi::result_seq(r),
                    regs@,
                    reg_consts@,
                    rstack@,
                    crate::context::bits::<C>(vstack@),
                    start,
                    cells,
                    frame,
                    answers,
                )) by {
                    if let Ok(results) = r {
                        let before = whole->Ok_0;
                        let hart = end->Exit_hart;
                        assert forall|i: int| 0 <= i < M implies {
                            &&& crate::context::bits::<C>((#[trigger] results@[i]).0@)
                                == crate::rv::abi::abi_result(hart.regs, end->Exit_cells, sp, i, 32)
                            &&& (results@[i].1 is Some) == (i < 8 && hart.known[10 + i])
                            &&& results@[i].1 matches Some(v) ==> crate::context::bits::<C>(
                                results@[i].0@,
                            ) == crate::rv::machine::spelled(v as u64, 32)
                        } by {
                            same_word::<C, F>(before@[i].0@);
                        }
                    }
                }
            }
        }
    }
    r
}

/// The state in which a called function starts.
pub open spec fn start_of<C: ContextWithValue<bool> + ?Sized>(
    regs: Seq<[C::Wrapped; 32]>,
    constants: Seq<Option<u32>>,
    rstack: Seq<u64>,
    args: Seq<([C::Wrapped; 32], Option<u64>)>,
    pc: u64,
    sp: u64,
) -> crate::rv::machine::Hart {
    crate::rv::entry::initial(
        crate::rv::abi::placed_regs(
            crate::rv::machine::words::<C, 32>(regs),
            crate::rv::abi::arg_words::<C, 32>(args),
            args.len() as int,
        ),
        crate::thumb::machine::present(
            crate::rv::abi::placed_constants(
                crate::thumb::handler::widen(constants),
                crate::rv::abi::arg_constants(args),
                args.len() as int,
            ),
        ),
        rstack,
        pc,
        sp,
    )
}

/// A handler over a context reads a word as the context does.
proof fn same_word<C: ContextWithValue<bool> + ?Sized, F: ?Sized>(word: Seq<C::Wrapped>)
    ensures
        crate::context::bits::<HashHandler<'_, C, F>>(word) == crate::context::bits::<C>(word),
{
    assert(crate::context::bits::<HashHandler<'_, C, F>>(word) =~= crate::context::bits::<C>(word));
}

/// A handler over a context reads arguments as the context does.
proof fn same_arguments<C: ContextWithValue<bool> + ?Sized, F: ?Sized>(
    args: Seq<([C::Wrapped; 32], Option<u64>)>,
)
    ensures
        crate::rv::abi::arg_words::<HashHandler<'_, C, F>, 32>(args) == crate::rv::abi::arg_words::<
            C,
            32,
        >(args),
        crate::rv::abi::args_agree::<HashHandler<'_, C, F>, 32>(args)
            == crate::rv::abi::args_agree::<C, 32>(args),
{
    assert forall|i: int| 0 <= i < args.len() implies crate::context::bits::<
        HashHandler<'_, C, F>,
    >((#[trigger] args[i]).0@) == crate::context::bits::<C>(args[i].0@) by {
        same_word::<C, F>(args[i].0@);
    }
    assert(crate::rv::abi::arg_words::<HashHandler<'_, C, F>, 32>(args)
        =~= crate::rv::abi::arg_words::<C, 32>(args));
}

/// Copy arguments with wide host-known values, as an array.
pub fn widen_array<C: ContextWithValue<bool> + ?Sized, const N: usize>(
    args: &[([C::Wrapped; 32], Option<u32>); N],
    zero: &C::Wrapped,
) -> (r: [([C::Wrapped; 32], Option<u64>); N]) where C::Wrapped: Clone
    ensures
        crate::rv::abi::arg_constants(r@) == crate::rv::abi::arg_constants(wide_args(args@)),
        crate::context::sound::<C>() ==> {
            &&& crate::rv::abi::arg_words::<C, 32>(r@) == crate::rv::abi::arg_words::<C, 32>(
                wide_args(args@),
            )
            &&& crate::rv::abi::args_agree::<C, 32>(wide_args(args@))
                ==> crate::rv::abi::args_agree::<C, 32>(r@)
        },
{
    let wide = widen_args::<C>(args);
    let mut r = blank_results::<C::Wrapped, u64, 32, N>(zero);
    let mut i: usize = 0;
    while i < N
        invariant
            i <= N,
            wide@.len() == N,
            forall|j: int| 0 <= j < i ==> (#[trigger] r@[j]).1 == wide@[j].1,
            crate::context::sound::<C>() ==> forall|j: int|
                0 <= j < i ==> crate::context::bits::<C>((#[trigger] r@[j]).0@)
                    == crate::context::bits::<C>(wide@[j].0@),
        decreases N - i,
    {
        r[i] = (keep_word::<C, 32>(&wide[i].0), wide[i].1);
        i = i + 1;
    }
    proof {
        assert(crate::rv::abi::arg_constants(r@) =~= crate::rv::abi::arg_constants(wide@));
        if crate::context::sound::<C>() {
            assert(crate::rv::abi::arg_words::<C, 32>(r@) =~= crate::rv::abi::arg_words::<C, 32>(
                wide@,
            ));
            if crate::rv::abi::args_agree::<C, 32>(wide@) {
                assert forall|j: int| 0 <= j < N implies ((#[trigger] r@[j]).1 matches Some(v)
                    ==> crate::wide::fits(v, 32) && crate::context::bits::<C>(r@[j].0@)
                    == crate::rv::machine::spelled(v, 32)) by {
                    assert(wide@[j].1 == r@[j].1);
                }
            }
        }
    }
    r
}

/// The facade's calls go by `a0` alone: zero hashes and goes on, all ones exit
/// and leave the registers as they are, and anything else is refused.
pub proof fn call_goes_by_a0<'a, C, F, W, E>(h: Hart, outcome: EcallOutcome, reply: Reply) where
    C: ContextWithErtOps<bool> + ContextWithValue<bool, Wrapped = W> + HasError<Error = E>
        + ?Sized,
    F: WordsCallback<W, E>,
    W: Clone,

    requires
        h.known.len() == 32,
        crate::rv::control::called::<HashHandler<'a, C, F>, 32>(h, outcome, reply),
    ensures
        outcome == if h.value(10) == Some(0u64) {
            EcallOutcome::Continue
        } else if h.value(10) == Some(0xffff_ffffu64) {
            EcallOutcome::Exit
        } else {
            EcallOutcome::Unexpected
        },
        outcome == EcallOutcome::Exit ==> h.replied(reply) == h,
{
    let (before, zero, one, after) = choose|
        before: File<W, 32>,
        zero: W,
        one: W,
        after: File<W, 32>,
    |
        #[trigger] <HashHandler<'a, C, F> as RvHandler<bool, 32>>::answers(
            before,
            zero,
            one,
            outcome,
            after,
        ) && crate::rv::control::handed::<HashHandler<'a, C, F>, 32>(before, h) && reply
            == crate::rv::control::reply_of::<HashHandler<'a, C, F>, 32>(
            after.regs,
            after.constants,
            after.offsets,
        );
    assert(before.constants[10] == h.value(10));
    if outcome == EcallOutcome::Exit {
        assert(reply.known =~= h.known);
    }
}

/// An `ECALL` with concrete `a0 = 0xffff_ffff` and a balanced stack exits, in
/// the state in which it was made.
pub proof fn exit_call_exits<'a, C, F, W, E>(
    h: Hart,
    cells: Seq<bool>,
    frame: Frame<'_>,
    answers: Answers,
    len: u64,
) where
    C: ContextWithErtOps<bool> + ContextWithValue<bool, Wrapped = W> + HasError<Error = E>
        + ?Sized,
    F: WordsCallback<W, E>,
    W: Clone,

    requires
        frame.bits == 32,
        crate::rv::control::honest::<HashHandler<'a, C, F>, 32>(h, frame, answers),
        h.at_start(frame).fetched(frame) == Ok::<(RvOp, u64), FetchError>((RvOp::Ecall, len)),
        h.at_start(frame).reset(32).known.len() == 32,
        h.at_start(frame).reset(32).value(10) == Some(0xffff_ffffu64),
        h.sp == frame.stack_top,
    ensures
        h.step(cells, frame, answers) == (crate::rv::machine::Step::Exit {
            hart: h.at_start(frame).reset(32),
            cells,
        }),
{
    call_goes_by_a0::<C, F, W, E>(
        h.at_start(frame).reset(32),
        answers.outcome,
        answers.ecall,
    );
}

} // verus!
