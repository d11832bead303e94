//! Execution contexts: who carries out Boolean and arithmetic operations on
//! wires, and what a wire means.
//!
//! A context decides how a value is represented (its `Wrapped` wire) and how
//! an operation on wires is carried out: natively, as an emitted gate, as a
//! share. Every context trait has two forms. The plain one takes the context
//! by `&mut self`; the `ByRef` one takes it by `&self`, and makes the plain
//! one available on a shared reference and on [`SharedContext`].
use crate::word::BitOp;
use vstd::prelude::*;
use vstd::std_specs::ops::*;

verus! {

/// A sink for values.
pub trait Pusher<T> {
    /// Whether [`Pusher::pushed`] records every push on this type of sink.
    open spec fn records() -> bool {
        false
    }

    /// What the sink has taken so far, oldest first.
    open spec fn pushed(&self) -> Seq<T> {
        Seq::empty()
    }

    fn push(&mut self, x: T)
        ensures
            Self::records() ==> (*final(self)).pushed() == (*old(self)).pushed().push(x),
    ;
}

/// Shared-reference variant of [`Pusher`].
///
/// Types that can accept values without exclusive access implement this
/// subtrait; [`Pusher`] is then implemented for `&Self`.
pub trait PusherByRef<T>: Pusher<T> {
    fn push_by_ref(&self, x: T);
}

impl<T, P: Pusher<T> + ?Sized> Pusher<T> for &mut P {
    open spec fn records() -> bool {
        P::records()
    }

    open spec fn pushed(&self) -> Seq<T> {
        (**self).pushed()
    }

    fn push(&mut self, x: T) {
        (**self).push(x);
    }
}

impl<T, P: PusherByRef<T> + ?Sized> PusherByRef<T> for &mut P {
    fn push_by_ref(&self, x: T) {
        (**self).push_by_ref(x);
    }
}

impl<T, P: PusherByRef<T> + ?Sized> Pusher<T> for &P {
    /// A push through a shared reference leaves no trace in the reference.
    open spec fn records() -> bool {
        false
    }

    open spec fn pushed(&self) -> Seq<T> {
        (**self).pushed()
    }

    fn push(&mut self, x: T) {
        (**self).push_by_ref(x);
    }
}

impl<T, P: PusherByRef<T> + ?Sized> PusherByRef<T> for &P {
    fn push_by_ref(&self, x: T) {
        (**self).push_by_ref(x);
    }
}

/// An element of the two-element field.
#[derive(Clone, Copy, Debug, PartialEq, Eq, Structural)]
pub struct Bit(pub bool);

impl core::ops::Add for Bit {
    type Output = Bit;

    fn add(self, rhs: Bit) -> Bit {
        Bit(self.0 ^ rhs.0)
    }
}

impl vstd::std_specs::ops::AddSpecImpl for Bit {
    open spec fn obeys_add_spec() -> bool {
        true
    }

    open spec fn add_req(self, rhs: Bit) -> bool {
        true
    }

    open spec fn add_spec(self, rhs: Bit) -> Bit {
        Bit(self.0 ^ rhs.0)
    }
}

impl core::ops::Sub for Bit {
    type Output = Bit;

    fn sub(self, rhs: Bit) -> Bit {
        Bit(self.0 ^ rhs.0)
    }
}

impl vstd::std_specs::ops::SubSpecImpl for Bit {
    open spec fn obeys_sub_spec() -> bool {
        true
    }

    open spec fn sub_req(self, rhs: Bit) -> bool {
        true
    }

    open spec fn sub_spec(self, rhs: Bit) -> Bit {
        Bit(self.0 ^ rhs.0)
    }
}

impl core::ops::Mul for Bit {
    type Output = Bit;

    fn mul(self, rhs: Bit) -> Bit {
        Bit(self.0 && rhs.0)
    }
}

impl vstd::std_specs::ops::MulSpecImpl for Bit {
    open spec fn obeys_mul_spec() -> bool {
        true
    }

    open spec fn mul_req(self, rhs: Bit) -> bool {
        true
    }

    open spec fn mul_spec(self, rhs: Bit) -> Bit {
        Bit(self.0 && rhs.0)
    }
}

/// The error type of a context.
pub trait HasError {
    type Error;
}

impl HasError for () {
    type Error = core::convert::Infallible;
}

impl<C: HasError + ?Sized> HasError for &C {
    type Error = C::Error;
}

impl<C: HasError + ?Sized> HasError for &mut C {
    type Error = C::Error;
}

/// A bitwise operation that a context carried out: its kind, its two inputs
/// and its output.
pub struct Gate<W> {
    pub kind: BitOp,
    pub left: W,
    pub right: W,
    pub out: W,
}

/// A context that represents values of type `Val` by wires.
pub trait ContextWithValue<Val>: HasError {
    /// The wire that stands for a value.
    type Wrapped;

    /// Whether a wire has a meaning of its own, [`ContextWithValue::denotes`],
    /// that every operation of the context respects. A context whose wires
    /// mean something only together with the state of the context answers no,
    /// and then promises nothing about values.
    open spec fn lawful() -> bool {
        false
    }

    /// Whether every operation of the context succeeds.
    open spec fn reliable() -> bool {
        false
    }

    /// The errors that an operation of the context may fail with.
    open spec fn errs(error: Self::Error) -> bool {
        true
    }

    /// The value that a wire stands for.
    open spec fn denotes(w: Self::Wrapped) -> Val {
        arbitrary()
    }

    /// Whether [`ContextWithValue::gates`] records every bitwise operation of
    /// the context.
    open spec fn logs() -> bool {
        false
    }

    /// The bitwise operations carried out so far, oldest first.
    open spec fn gates(&self) -> Seq<Gate<Self::Wrapped>> {
        Seq::empty()
    }
}

impl<Val, C: ContextWithValue<Val> + ?Sized> ContextWithValue<Val> for &C {
    type Wrapped = C::Wrapped;

    open spec fn lawful() -> bool {
        C::lawful()
    }

    open spec fn reliable() -> bool {
        C::reliable()
    }

    open spec fn errs(error: C::Error) -> bool {
        C::errs(error)
    }

    open spec fn denotes(w: C::Wrapped) -> Val {
        C::denotes(w)
    }
}

impl<Val, C: ContextWithValue<Val> + ?Sized> ContextWithValue<Val> for &mut C {
    type Wrapped = C::Wrapped;

    open spec fn logs() -> bool {
        C::logs()
    }

    open spec fn gates(&self) -> Seq<Gate<C::Wrapped>> {
        (**self).gates()
    }

    open spec fn lawful() -> bool {
        C::lawful()
    }

    open spec fn reliable() -> bool {
        C::reliable()
    }

    open spec fn errs(error: C::Error) -> bool {
        C::errs(error)
    }

    open spec fn denotes(w: C::Wrapped) -> Val {
        C::denotes(w)
    }
}

impl<Val> ContextWithValue<Val> for () {
    type Wrapped = Val;

    open spec fn lawful() -> bool {
        true
    }

    open spec fn reliable() -> bool {
        true
    }

    open spec fn errs(error: core::convert::Infallible) -> bool {
        false
    }

    open spec fn denotes(w: Val) -> Val {
        w
    }
}

/// The truth value of a Boolean wire of `C`.
pub open spec fn bit<C: ContextWithValue<bool> + ?Sized>(w: C::Wrapped) -> bool {
    C::denotes(w)
}

/// The truth values of a little-endian word of wires.
pub open spec fn bits<C: ContextWithValue<bool> + ?Sized>(w: Seq<C::Wrapped>) -> Seq<bool> {
    Seq::new(w.len(), |i: int| bit::<C>(w[i]))
}

/// A Boolean context whose wires have a meaning that cloning a wire keeps.
pub open spec fn sound<C: ContextWithValue<bool> + ?Sized>() -> bool where C::Wrapped: Clone {
    &&& C::lawful()
    &&& forall|a: C::Wrapped, b: C::Wrapped| #[trigger]
        cloned(a, b) ==> bit::<C>(a) == bit::<C>(b)
}

/// A Boolean context that never fails.
pub open spec fn reliable<C: ContextWithValue<bool> + ?Sized>() -> bool {
    C::reliable()
}

/// An error that a Boolean operation of the context may fail with.
pub open spec fn erred<C: ContextWithValue<bool> + ?Sized>(error: C::Error) -> bool {
    C::errs(error)
}

/// The kinds of some gates, in order.
pub open spec fn kinds<W>(gates: Seq<Gate<W>>) -> Seq<BitOp> {
    Seq::new(gates.len(), |i: int| gates[i].kind)
}

/// On a context that logs its gates, these came on top, in this order.
pub open spec fn asked<C: ContextWithValue<bool> + ?Sized>(
    before: &C,
    after: &C,
    more: Seq<BitOp>,
) -> bool {
    C::logs() ==> kinds(after.gates()) == kinds(before.gates()) + more
}

/// One more gate is asked for.
pub proof fn asked_more<W>(
    first: Seq<Gate<W>>,
    was: Seq<Gate<W>>,
    now: Seq<Gate<W>>,
    gate: Gate<W>,
    more: Seq<BitOp>,
)
    requires
        kinds(was) == kinds(first) + more,
        now == was.push(gate),
    ensures
        kinds(now) == kinds(first) + more.push(gate.kind),
{
    assert(kinds(now) =~= kinds(was).push(gate.kind));
    assert((kinds(first) + more).push(gate.kind) =~= kinds(first) + more.push(gate.kind));
}

/// Nothing was asked for.
pub proof fn asked_nothing<C: ContextWithValue<bool> + ?Sized>(context: &C)
    ensures
        asked::<C>(context, context, Seq::empty()),
{
    if C::logs() {
        assert(kinds(context.gates()) + Seq::<BitOp>::empty() =~= kinds(context.gates()));
    }
}

/// One more of the same kind.
pub proof fn repeated_more(kind: BitOp, count: nat)
    ensures
        repeated(kind, count).push(kind) == repeated(kind, count + 1),
{
    assert(repeated(kind, count).push(kind) =~= repeated(kind, count + 1));
}

/// As many gates of one kind.
pub open spec fn repeated(kind: BitOp, count: nat) -> Seq<BitOp> {
    Seq::new(count, |i: int| kind)
}

/// Clone a Boolean wire.
pub fn keep<C: ContextWithValue<bool> + ?Sized>(w: &C::Wrapped) -> (r: C::Wrapped) where
    C::Wrapped: Clone,

    ensures
        cloned(*w, r),
        sound::<C>() ==> bit::<C>(r) == bit::<C>(*w),
{
    let r = w.clone();
    assert(cloned(*w, r));
    r
}

/// Plaintext bits are sound wires.
pub proof fn plaintext_is_sound()
    ensures
        sound::<()>(),
        reliable::<()>(),
{
}

/// A Boolean wire used as one little-endian bit of a symbolic storage address.
///
/// `known` is deliberately only a fact about the wire, rather than a second
/// representation of it.  Contexts which can exploit public address bits (for
/// example a dense MUX-tree implementation) may use it to avoid unnecessary
/// work, while authenticated storage backends can consume `wire` directly.
#[derive(Clone, Debug, Eq, PartialEq)]
pub struct StorageAddressBit<W> {
    pub wire: W,
    pub known: Option<bool>,
}

/// The truth values of the wires of an address.
pub open spec fn address_bits<C: ContextWithValue<bool> + ?Sized>(
    address: Seq<StorageAddressBit<C::Wrapped>>,
) -> Seq<bool> {
    Seq::new(address.len(), |i: int| bit::<C>(address[i].wire))
}

/// The cell that an address names.
pub open spec fn address_index<C: ContextWithValue<bool> + ?Sized>(
    address: Seq<StorageAddressBit<C::Wrapped>>,
) -> nat {
    crate::bits::num(address_bits::<C>(address))
}

/// A context which can access caller-owned symbolic storage.
///
/// Storage is intentionally an associated type rather than state owned by the
/// context.  This lets one execution context work with several independent
/// storage namespaces, and lets capable contexts replace a MUX-tree lowering
/// with a native authenticated implementation.  Addresses are provided least
/// significant bit first.
pub trait ContextWithStorage<Val>: ContextWithValue<bool> + ContextWithValue<Val> {
    type Storage: ?Sized;

    /// Whether [`ContextWithStorage::cells`] shows what a store holds. Not so
    /// for a store that changes behind a shared reference.
    open spec fn tracks() -> bool {
        false
    }

    /// What the cells of a store hold.
    open spec fn cells(storage: &Self::Storage) -> Seq<Val> {
        Seq::empty()
    }

    /// Whether a store has a cell at an address.
    open spec fn takes(
        storage: &Self::Storage,
        address: Seq<StorageAddressBit<<Self as ContextWithValue<bool>>::Wrapped>>,
    ) -> bool {
        Self::tracks() ==> address_index::<Self>(address) < Self::cells(storage).len()
    }

    fn storage_read(
        &mut self,
        storage: &mut Self::Storage,
        address: &[StorageAddressBit<<Self as ContextWithValue<bool>>::Wrapped>],
    ) -> (r: Result<<Self as ContextWithValue<Val>>::Wrapped, Self::Error>)
        requires
            Self::takes(old(storage), address@),
        ensures
            forall|a: Seq<StorageAddressBit<<Self as ContextWithValue<bool>>::Wrapped>>|
                Self::takes(old(storage), a) ==> #[trigger] Self::takes(final(storage), a),
            Self::tracks() ==> Self::cells(final(storage)) == Self::cells(old(storage)),
            Self::tracks() && <Self as ContextWithValue<Val>>::lawful() ==> (r matches Ok(w) ==>
                <Self as ContextWithValue<Val>>::denotes(w) == Self::cells(old(storage))[
                address_index::<Self>(address@) as int]),
            <Self as ContextWithValue<Val>>::reliable() ==> r is Ok,
            r matches Err(error) ==> <Self as ContextWithValue<Val>>::errs(error),
    ;

    fn storage_write(
        &mut self,
        storage: &mut Self::Storage,
        address: &[StorageAddressBit<<Self as ContextWithValue<bool>>::Wrapped>],
        value: <Self as ContextWithValue<Val>>::Wrapped,
    ) -> (r: Result<(), Self::Error>)
        requires
            Self::takes(old(storage), address@),
        ensures
            forall|a: Seq<StorageAddressBit<<Self as ContextWithValue<bool>>::Wrapped>>|
                Self::takes(old(storage), a) ==> #[trigger] Self::takes(final(storage), a),
            Self::tracks() ==> Self::cells(final(storage)).len() == Self::cells(old(storage)).len(),
            Self::tracks() && <Self as ContextWithValue<Val>>::lawful() && r is Ok ==> Self::cells(
                final(storage),
            ) == Self::cells(old(storage)).update(
                address_index::<Self>(address@) as int,
                <Self as ContextWithValue<Val>>::denotes(value),
            ),
            <Self as ContextWithValue<Val>>::reliable() ==> r is Ok,
            r matches Err(error) ==> <Self as ContextWithValue<Val>>::errs(error),
    ;
}

/// Shared-reference variant of [`ContextWithStorage`].
///
/// Storage methods take `&Self::Storage` so an interior-mutable (locked)
/// store can be shared across compatible circuits. [`SharedContext`] remaps
/// the associated storage type to `&'a C::Storage` so existing `&mut Storage`
/// interpreter signatures can hold a unique binding to that shared reference.
pub trait ContextWithStorageByRef<Val>: ContextWithStorage<Val> {
    fn storage_read_by_ref(
        &self,
        storage: &Self::Storage,
        address: &[StorageAddressBit<<Self as ContextWithValue<bool>>::Wrapped>],
    ) -> (r: Result<<Self as ContextWithValue<Val>>::Wrapped, Self::Error>)
        ensures
            <Self as ContextWithValue<Val>>::reliable() ==> r is Ok,
            r matches Err(error) ==> <Self as ContextWithValue<Val>>::errs(error),
    ;

    fn storage_write_by_ref(
        &self,
        storage: &Self::Storage,
        address: &[StorageAddressBit<<Self as ContextWithValue<bool>>::Wrapped>],
        value: <Self as ContextWithValue<Val>>::Wrapped,
    ) -> (r: Result<(), Self::Error>)
        ensures
            <Self as ContextWithValue<Val>>::reliable() ==> r is Ok,
            r matches Err(error) ==> <Self as ContextWithValue<Val>>::errs(error),
    ;
}

impl<Val, C: ContextWithStorage<Val> + ?Sized> ContextWithStorage<Val> for &mut C {
    type Storage = C::Storage;

    open spec fn tracks() -> bool {
        C::tracks()
    }

    open spec fn cells(storage: &C::Storage) -> Seq<Val> {
        C::cells(storage)
    }

    open spec fn takes(
        storage: &C::Storage,
        address: Seq<StorageAddressBit<<Self as ContextWithValue<bool>>::Wrapped>>,
    ) -> bool {
        C::takes(storage, address)
    }

    fn storage_read(
        &mut self,
        storage: &mut Self::Storage,
        address: &[StorageAddressBit<<Self as ContextWithValue<bool>>::Wrapped>],
    ) -> (r: Result<<Self as ContextWithValue<Val>>::Wrapped, Self::Error>) {
        proof {
            assert(address_bits::<Self>(address@) =~= address_bits::<C>(address@));
        }
        (**self).storage_read(storage, address)
    }

    fn storage_write(
        &mut self,
        storage: &mut Self::Storage,
        address: &[StorageAddressBit<<Self as ContextWithValue<bool>>::Wrapped>],
        value: <Self as ContextWithValue<Val>>::Wrapped,
    ) -> (r: Result<(), Self::Error>) {
        proof {
            assert(address_bits::<Self>(address@) =~= address_bits::<C>(address@));
        }
        (**self).storage_write(storage, address, value)
    }
}

impl<Val, C: ContextWithStorageByRef<Val> + ?Sized> ContextWithStorageByRef<Val> for &mut C {
    fn storage_read_by_ref(
        &self,
        storage: &Self::Storage,
        address: &[StorageAddressBit<<Self as ContextWithValue<bool>>::Wrapped>],
    ) -> (r: Result<<Self as ContextWithValue<Val>>::Wrapped, Self::Error>) {
        (**self).storage_read_by_ref(storage, address)
    }

    fn storage_write_by_ref(
        &self,
        storage: &Self::Storage,
        address: &[StorageAddressBit<<Self as ContextWithValue<bool>>::Wrapped>],
        value: <Self as ContextWithValue<Val>>::Wrapped,
    ) -> (r: Result<(), Self::Error>) {
        (**self).storage_write_by_ref(storage, address, value)
    }
}

impl<Val, C: ContextWithStorageByRef<Val> + ?Sized> ContextWithStorage<Val> for &C {
    type Storage = C::Storage;

    open spec fn tracks() -> bool {
        false
    }

    open spec fn cells(storage: &C::Storage) -> Seq<Val> {
        C::cells(storage)
    }

    fn storage_read(
        &mut self,
        storage: &mut Self::Storage,
        address: &[StorageAddressBit<<Self as ContextWithValue<bool>>::Wrapped>],
    ) -> (r: Result<<Self as ContextWithValue<Val>>::Wrapped, Self::Error>) {
        (**self).storage_read_by_ref(storage, address)
    }

    fn storage_write(
        &mut self,
        storage: &mut Self::Storage,
        address: &[StorageAddressBit<<Self as ContextWithValue<bool>>::Wrapped>],
        value: <Self as ContextWithValue<Val>>::Wrapped,
    ) -> (r: Result<(), Self::Error>) {
        (**self).storage_write_by_ref(storage, address, value)
    }
}

impl<Val, C: ContextWithStorageByRef<Val> + ?Sized> ContextWithStorageByRef<Val> for &C {
    fn storage_read_by_ref(
        &self,
        storage: &Self::Storage,
        address: &[StorageAddressBit<<Self as ContextWithValue<bool>>::Wrapped>],
    ) -> (r: Result<<Self as ContextWithValue<Val>>::Wrapped, Self::Error>) {
        (**self).storage_read_by_ref(storage, address)
    }

    fn storage_write_by_ref(
        &self,
        storage: &Self::Storage,
        address: &[StorageAddressBit<<Self as ContextWithValue<bool>>::Wrapped>],
        value: <Self as ContextWithValue<Val>>::Wrapped,
    ) -> (r: Result<(), Self::Error>) {
        (**self).storage_write_by_ref(storage, address, value)
    }
}

/// A context that can bring a value in as a wire.
pub trait ContextWithCreate<Val>: ContextWithValue<Val> {
    fn create(&mut self, val: Val) -> (r: Result<Self::Wrapped, Self::Error>)
        ensures
            Self::lawful() ==> (r matches Ok(w) ==> Self::denotes(w) == val),
            Self::reliable() ==> r is Ok,
            r matches Err(error) ==> Self::errs(error),
    ;
}

/// Shared-reference variant of [`ContextWithCreate`].
pub trait ContextWithCreateByRef<Val>: ContextWithCreate<Val> {
    fn create_by_ref(&self, val: Val) -> (r: Result<Self::Wrapped, Self::Error>)
        ensures
            Self::lawful() ==> (r matches Ok(w) ==> Self::denotes(w) == val),
            Self::reliable() ==> r is Ok,
            r matches Err(error) ==> Self::errs(error),
    ;
}

impl<Val, C: ContextWithCreate<Val> + ?Sized> ContextWithCreate<Val> for &mut C {
    fn create(&mut self, val: Val) -> (r: Result<Self::Wrapped, Self::Error>) {
        (**self).create(val)
    }
}

impl<Val, C: ContextWithCreateByRef<Val> + ?Sized> ContextWithCreateByRef<Val> for &mut C {
    fn create_by_ref(&self, val: Val) -> (r: Result<Self::Wrapped, Self::Error>) {
        (**self).create_by_ref(val)
    }
}

impl<Val, C: ContextWithCreateByRef<Val> + ?Sized> ContextWithCreate<Val> for &C {
    fn create(&mut self, val: Val) -> (r: Result<Self::Wrapped, Self::Error>) {
        (**self).create_by_ref(val)
    }
}

impl<Val, C: ContextWithCreateByRef<Val> + ?Sized> ContextWithCreateByRef<Val> for &C {
    fn create_by_ref(&self, val: Val) -> (r: Result<Self::Wrapped, Self::Error>) {
        (**self).create_by_ref(val)
    }
}

impl<Val> ContextWithCreate<Val> for () {
    fn create(&mut self, val: Val) -> (r: Result<Self::Wrapped, Self::Error>) {
        Ok(val)
    }
}

impl<Val> ContextWithCreateByRef<Val> for () {
    fn create_by_ref(&self, val: Val) -> (r: Result<Self::Wrapped, Self::Error>) {
        Ok(val)
    }
}

/// Plaintext dense storage for the native Boolean test host.
///
/// Symbolic addresses are concrete `bool`s in this host, so they resolve to
/// an ordinary little-endian slice index. The index must lie in the slice.
impl ContextWithStorage<bool> for () {
    type Storage = [bool];

    open spec fn tracks() -> bool {
        true
    }

    open spec fn cells(storage: &[bool]) -> Seq<bool> {
        storage@
    }

    fn storage_read(
        &mut self,
        storage: &mut [bool],
        address: &[StorageAddressBit<bool>],
    ) -> (r: Result<bool, Self::Error>) {
        Ok(storage[concrete_storage_index(address)])
    }

    fn storage_write(
        &mut self,
        storage: &mut [bool],
        address: &[StorageAddressBit<bool>],
        value: bool,
    ) -> (r: Result<(), Self::Error>) {
        let index: usize = concrete_storage_index(address);
        storage[index] = value;
        Ok(())
    }
}

/// The slice index that a plaintext address names.
pub fn concrete_storage_index(address: &[StorageAddressBit<bool>]) -> (index: usize)
    requires
        address_index::<()>(address@) <= usize::MAX,
    ensures
        index == address_index::<()>(address@),
{
    let mut index: usize = 0;
    let mut at: usize = address.len();
    let ghost all = address_bits::<()>(address@);
    proof {
        assert(all.subrange(all.len() as int, all.len() as int) =~= Seq::<bool>::empty());
        crate::bits::num_empty();
    }
    while at > 0
        invariant
            at <= address@.len(),
            all == address_bits::<()>(address@),
            crate::bits::num(all) <= usize::MAX,
            index == crate::bits::num(all.subrange(at as int, all.len() as int)),
        decreases at,
    {
        at = at - 1;
        let ghost rest = all.subrange(at + 1, all.len() as int);
        let ghost more = all.subrange(at as int, all.len() as int);
        proof {
            crate::bits::num_front(more);
            assert(more.subrange(1, more.len() as int) =~= rest);
            crate::bits::num_suffix(all, at as int);
        }
        index = if address[at].wire {
            2 * index + 1
        } else {
            2 * index
        };
    }
    proof {
        assert(all.subrange(0, all.len() as int) =~= all);
    }
    index
}

/// Interpreter adapter that remaps [`ContextWithStorage::Storage`] to a
/// shared reference.
///
/// Gate operations forward through the inner context's `*ByRef` traits.
/// Storage methods take `&mut &'a C::Storage`, so each caller can own a
/// unique binding to the same locked store.
#[derive(Clone, Copy, Debug)]
pub struct SharedContext<'a, C: ?Sized>(pub &'a C);

impl<C: HasError + ?Sized> HasError for SharedContext<'_, C> {
    type Error = C::Error;
}

impl<Val, C: ContextWithValue<Val> + ?Sized> ContextWithValue<Val> for SharedContext<'_, C> {
    type Wrapped = C::Wrapped;

    open spec fn lawful() -> bool {
        C::lawful()
    }

    open spec fn reliable() -> bool {
        C::reliable()
    }

    open spec fn errs(error: C::Error) -> bool {
        C::errs(error)
    }

    open spec fn denotes(w: C::Wrapped) -> Val {
        C::denotes(w)
    }
}

impl<'a, Val, C> ContextWithStorage<Val> for SharedContext<'a, C> where
    C: ContextWithStorageByRef<Val> + ?Sized,
    C::Storage: 'a,
 {
    type Storage = &'a C::Storage;

    open spec fn tracks() -> bool {
        false
    }

    open spec fn cells(storage: &&'a C::Storage) -> Seq<Val> {
        C::cells(*storage)
    }

    fn storage_read(
        &mut self,
        storage: &mut Self::Storage,
        address: &[StorageAddressBit<<Self as ContextWithValue<bool>>::Wrapped>],
    ) -> (r: Result<<Self as ContextWithValue<Val>>::Wrapped, Self::Error>) {
        self.0.storage_read_by_ref(storage, address)
    }

    fn storage_write(
        &mut self,
        storage: &mut Self::Storage,
        address: &[StorageAddressBit<<Self as ContextWithValue<bool>>::Wrapped>],
        value: <Self as ContextWithValue<Val>>::Wrapped,
    ) -> (r: Result<(), Self::Error>) {
        self.0.storage_write_by_ref(storage, address, value)
    }
}

impl<'a, Val, C> ContextWithStorageByRef<Val> for SharedContext<'a, C> where
    C: ContextWithStorageByRef<Val> + ?Sized,
    C::Storage: 'a,
 {
    fn storage_read_by_ref(
        &self,
        storage: &Self::Storage,
        address: &[StorageAddressBit<<Self as ContextWithValue<bool>>::Wrapped>],
    ) -> (r: Result<<Self as ContextWithValue<Val>>::Wrapped, Self::Error>) {
        self.0.storage_read_by_ref(storage, address)
    }

    fn storage_write_by_ref(
        &self,
        storage: &Self::Storage,
        address: &[StorageAddressBit<<Self as ContextWithValue<bool>>::Wrapped>],
        value: <Self as ContextWithValue<Val>>::Wrapped,
    ) -> (r: Result<(), Self::Error>) {
        self.0.storage_write_by_ref(storage, address, value)
    }
}

impl<Val, C: ContextWithCreateByRef<Val> + ?Sized> ContextWithCreate<Val> for SharedContext<'_, C> {
    fn create(&mut self, val: Val) -> (r: Result<Self::Wrapped, Self::Error>) {
        self.0.create_by_ref(val)
    }
}

impl<
    Val,
    C: ContextWithCreateByRef<Val> + ?Sized,
> ContextWithCreateByRef<Val> for SharedContext<'_, C> {
    fn create_by_ref(&self, val: Val) -> (r: Result<Self::Wrapped, Self::Error>) {
        self.0.create_by_ref(val)
    }
}

/// A context that can add two values.
pub trait ContextWithAdd<Val: core::ops::Add<Val, Output = Val>>: ContextWithValue<Val> {
    fn add(&mut self, a: Self::Wrapped, b: Self::Wrapped) -> (r: Result<Self::Wrapped, Self::Error>)
        requires
            Self::lawful() ==> Self::denotes(a).add_req(Self::denotes(b)),
        ensures
            Self::lawful() && Val::obeys_add_spec() ==> (r matches Ok(w) ==> Self::denotes(w)
                == Self::denotes(a).add_spec(Self::denotes(b))),
            Self::reliable() ==> r is Ok,
            r matches Err(error) ==> Self::errs(error),
    ;

    fn add_assign(&mut self, a: &mut Self::Wrapped, b: Self::Wrapped) -> (r: Result<(), Self::Error>)
        requires
            Self::lawful() ==> Self::denotes(*old(a)).add_req(Self::denotes(b)),
        ensures
            Self::lawful() && Val::obeys_add_spec() && r is Ok ==> Self::denotes(*final(a))
                == Self::denotes(*old(a)).add_spec(Self::denotes(b)),
            Self::reliable() ==> r is Ok,
            r matches Err(error) ==> Self::errs(error),
    ;
}

/// Shared-reference variant of [`ContextWithAdd`].
pub trait ContextWithAddByRef<Val: core::ops::Add<Val, Output = Val>>: ContextWithAdd<Val> {
    fn add_by_ref(
        &self,
        a: Self::Wrapped,
        b: Self::Wrapped,
    ) -> (r: Result<Self::Wrapped, Self::Error>)
        requires
            Self::lawful() ==> Self::denotes(a).add_req(Self::denotes(b)),
        ensures
            Self::lawful() && Val::obeys_add_spec() ==> (r matches Ok(w) ==> Self::denotes(w)
                == Self::denotes(a).add_spec(Self::denotes(b))),
            Self::reliable() ==> r is Ok,
            r matches Err(error) ==> Self::errs(error),
    ;

    fn add_assign_by_ref(
        &self,
        a: &mut Self::Wrapped,
        b: Self::Wrapped,
    ) -> (r: Result<(), Self::Error>)
        requires
            Self::lawful() ==> Self::denotes(*old(a)).add_req(Self::denotes(b)),
        ensures
            Self::lawful() && Val::obeys_add_spec() && r is Ok ==> Self::denotes(*final(a))
                == Self::denotes(*old(a)).add_spec(Self::denotes(b)),
            Self::reliable() ==> r is Ok,
            r matches Err(error) ==> Self::errs(error),
    ;
}

impl<Val: Copy + core::ops::Add<Val, Output = Val>> ContextWithAdd<Val> for () {
    fn add(&mut self, a: Self::Wrapped, b: Self::Wrapped) -> (r: Result<Self::Wrapped, Self::Error>) {
        Ok(a + b)
    }

    fn add_assign(
        &mut self,
        a: &mut Self::Wrapped,
        b: Self::Wrapped,
    ) -> (r: Result<(), Self::Error>) {
        *a = *a + b;
        Ok(())
    }
}

impl<Val: Copy + core::ops::Add<Val, Output = Val>> ContextWithAddByRef<Val> for () {
    fn add_by_ref(
        &self,
        a: Self::Wrapped,
        b: Self::Wrapped,
    ) -> (r: Result<Self::Wrapped, Self::Error>) {
        Ok(a + b)
    }

    fn add_assign_by_ref(
        &self,
        a: &mut Self::Wrapped,
        b: Self::Wrapped,
    ) -> (r: Result<(), Self::Error>) {
        *a = *a + b;
        Ok(())
    }
}

impl<
    Val: core::ops::Add<Val, Output = Val>,
    C: ContextWithAdd<Val> + ?Sized,
> ContextWithAdd<Val> for &mut C {
    fn add(&mut self, a: Self::Wrapped, b: Self::Wrapped) -> (r: Result<Self::Wrapped, Self::Error>) {
        (**self).add(a, b)
    }

    fn add_assign(
        &mut self,
        a: &mut Self::Wrapped,
        b: Self::Wrapped,
    ) -> (r: Result<(), Self::Error>) {
        (**self).add_assign(a, b)
    }
}

impl<
    Val: core::ops::Add<Val, Output = Val>,
    C: ContextWithAddByRef<Val> + ?Sized,
> ContextWithAddByRef<Val> for &mut C {
    fn add_by_ref(
        &self,
        a: Self::Wrapped,
        b: Self::Wrapped,
    ) -> (r: Result<Self::Wrapped, Self::Error>) {
        (**self).add_by_ref(a, b)
    }

    fn add_assign_by_ref(
        &self,
        a: &mut Self::Wrapped,
        b: Self::Wrapped,
    ) -> (r: Result<(), Self::Error>) {
        (**self).add_assign_by_ref(a, b)
    }
}

impl<
    Val: core::ops::Add<Val, Output = Val>,
    C: ContextWithAddByRef<Val> + ?Sized,
> ContextWithAdd<Val> for &C {
    fn add(&mut self, a: Self::Wrapped, b: Self::Wrapped) -> (r: Result<Self::Wrapped, Self::Error>) {
        (**self).add_by_ref(a, b)
    }

    fn add_assign(
        &mut self,
        a: &mut Self::Wrapped,
        b: Self::Wrapped,
    ) -> (r: Result<(), Self::Error>) {
        (**self).add_assign_by_ref(a, b)
    }
}

impl<
    Val: core::ops::Add<Val, Output = Val>,
    C: ContextWithAddByRef<Val> + ?Sized,
> ContextWithAddByRef<Val> for &C {
    fn add_by_ref(
        &self,
        a: Self::Wrapped,
        b: Self::Wrapped,
    ) -> (r: Result<Self::Wrapped, Self::Error>) {
        (**self).add_by_ref(a, b)
    }

    fn add_assign_by_ref(
        &self,
        a: &mut Self::Wrapped,
        b: Self::Wrapped,
    ) -> (r: Result<(), Self::Error>) {
        (**self).add_assign_by_ref(a, b)
    }
}

impl<
    Val: core::ops::Add<Val, Output = Val>,
    C: ContextWithAddByRef<Val> + ?Sized,
> ContextWithAdd<Val> for SharedContext<'_, C> {
    fn add(&mut self, a: Self::Wrapped, b: Self::Wrapped) -> (r: Result<Self::Wrapped, Self::Error>) {
        self.0.add_by_ref(a, b)
    }

    fn add_assign(
        &mut self,
        a: &mut Self::Wrapped,
        b: Self::Wrapped,
    ) -> (r: Result<(), Self::Error>) {
        self.0.add_assign_by_ref(a, b)
    }
}

impl<
    Val: core::ops::Add<Val, Output = Val>,
    C: ContextWithAddByRef<Val> + ?Sized,
> ContextWithAddByRef<Val> for SharedContext<'_, C> {
    fn add_by_ref(
        &self,
        a: Self::Wrapped,
        b: Self::Wrapped,
    ) -> (r: Result<Self::Wrapped, Self::Error>) {
        self.0.add_by_ref(a, b)
    }

    fn add_assign_by_ref(
        &self,
        a: &mut Self::Wrapped,
        b: Self::Wrapped,
    ) -> (r: Result<(), Self::Error>) {
        self.0.add_assign_by_ref(a, b)
    }
}

/// A context that can subtract two values.
pub trait ContextWithSub<Val: core::ops::Sub<Val, Output = Val>>: ContextWithValue<Val> {
    fn sub(&mut self, a: Self::Wrapped, b: Self::Wrapped) -> (r: Result<Self::Wrapped, Self::Error>)
        requires
            Self::lawful() ==> Self::denotes(a).sub_req(Self::denotes(b)),
        ensures
            Self::lawful() && Val::obeys_sub_spec() ==> (r matches Ok(w) ==> Self::denotes(w)
                == Self::denotes(a).sub_spec(Self::denotes(b))),
            Self::reliable() ==> r is Ok,
            r matches Err(error) ==> Self::errs(error),
    ;

    fn sub_assign(&mut self, a: &mut Self::Wrapped, b: Self::Wrapped) -> (r: Result<(), Self::Error>)
        requires
            Self::lawful() ==> Self::denotes(*old(a)).sub_req(Self::denotes(b)),
        ensures
            Self::lawful() && Val::obeys_sub_spec() && r is Ok ==> Self::denotes(*final(a))
                == Self::denotes(*old(a)).sub_spec(Self::denotes(b)),
            Self::reliable() ==> r is Ok,
            r matches Err(error) ==> Self::errs(error),
    ;
}

/// Shared-reference variant of [`ContextWithSub`].
pub trait ContextWithSubByRef<Val: core::ops::Sub<Val, Output = Val>>: ContextWithSub<Val> {
    fn sub_by_ref(
        &self,
        a: Self::Wrapped,
        b: Self::Wrapped,
    ) -> (r: Result<Self::Wrapped, Self::Error>)
        requires
            Self::lawful() ==> Self::denotes(a).sub_req(Self::denotes(b)),
        ensures
            Self::lawful() && Val::obeys_sub_spec() ==> (r matches Ok(w) ==> Self::denotes(w)
                == Self::denotes(a).sub_spec(Self::denotes(b))),
            Self::reliable() ==> r is Ok,
            r matches Err(error) ==> Self::errs(error),
    ;

    fn sub_assign_by_ref(
        &self,
        a: &mut Self::Wrapped,
        b: Self::Wrapped,
    ) -> (r: Result<(), Self::Error>)
        requires
            Self::lawful() ==> Self::denotes(*old(a)).sub_req(Self::denotes(b)),
        ensures
            Self::lawful() && Val::obeys_sub_spec() && r is Ok ==> Self::denotes(*final(a))
                == Self::denotes(*old(a)).sub_spec(Self::denotes(b)),
            Self::reliable() ==> r is Ok,
            r matches Err(error) ==> Self::errs(error),
    ;
}

impl<Val: Copy + core::ops::Sub<Val, Output = Val>> ContextWithSub<Val> for () {
    fn sub(&mut self, a: Self::Wrapped, b: Self::Wrapped) -> (r: Result<Self::Wrapped, Self::Error>) {
        Ok(a - b)
    }

    fn sub_assign(
        &mut self,
        a: &mut Self::Wrapped,
        b: Self::Wrapped,
    ) -> (r: Result<(), Self::Error>) {
        *a = *a - b;
        Ok(())
    }
}

impl<Val: Copy + core::ops::Sub<Val, Output = Val>> ContextWithSubByRef<Val> for () {
    fn sub_by_ref(
        &self,
        a: Self::Wrapped,
        b: Self::Wrapped,
    ) -> (r: Result<Self::Wrapped, Self::Error>) {
        Ok(a - b)
    }

    fn sub_assign_by_ref(
        &self,
        a: &mut Self::Wrapped,
        b: Self::Wrapped,
    ) -> (r: Result<(), Self::Error>) {
        *a = *a - b;
        Ok(())
    }
}

impl<
    Val: core::ops::Sub<Val, Output = Val>,
    C: ContextWithSub<Val> + ?Sized,
> ContextWithSub<Val> for &mut C {
    fn sub(&mut self, a: Self::Wrapped, b: Self::Wrapped) -> (r: Result<Self::Wrapped, Self::Error>) {
        (**self).sub(a, b)
    }

    fn sub_assign(
        &mut self,
        a: &mut Self::Wrapped,
        b: Self::Wrapped,
    ) -> (r: Result<(), Self::Error>) {
        (**self).sub_assign(a, b)
    }
}

impl<
    Val: core::ops::Sub<Val, Output = Val>,
    C: ContextWithSubByRef<Val> + ?Sized,
> ContextWithSubByRef<Val> for &mut C {
    fn sub_by_ref(
        &self,
        a: Self::Wrapped,
        b: Self::Wrapped,
    ) -> (r: Result<Self::Wrapped, Self::Error>) {
        (**self).sub_by_ref(a, b)
    }

    fn sub_assign_by_ref(
        &self,
        a: &mut Self::Wrapped,
        b: Self::Wrapped,
    ) -> (r: Result<(), Self::Error>) {
        (**self).sub_assign_by_ref(a, b)
    }
}

impl<
    Val: core::ops::Sub<Val, Output = Val>,
    C: ContextWithSubByRef<Val> + ?Sized,
> ContextWithSub<Val> for &C {
    fn sub(&mut self, a: Self::Wrapped, b: Self::Wrapped) -> (r: Result<Self::Wrapped, Self::Error>) {
        (**self).sub_by_ref(a, b)
    }

    fn sub_assign(
        &mut self,
        a: &mut Self::Wrapped,
        b: Self::Wrapped,
    ) -> (r: Result<(), Self::Error>) {
        (**self).sub_assign_by_ref(a, b)
    }
}

impl<
    Val: core::ops::Sub<Val, Output = Val>,
    C: ContextWithSubByRef<Val> + ?Sized,
> ContextWithSubByRef<Val> for &C {
    fn sub_by_ref(
        &self,
        a: Self::Wrapped,
        b: Self::Wrapped,
    ) -> (r: Result<Self::Wrapped, Self::Error>) {
        (**self).sub_by_ref(a, b)
    }

    fn sub_assign_by_ref(
        &self,
        a: &mut Self::Wrapped,
        b: Self::Wrapped,
    ) -> (r: Result<(), Self::Error>) {
        (**self).sub_assign_by_ref(a, b)
    }
}

impl<
    Val: core::ops::Sub<Val, Output = Val>,
    C: ContextWithSubByRef<Val> + ?Sized,
> ContextWithSub<Val> for SharedContext<'_, C> {
    fn sub(&mut self, a: Self::Wrapped, b: Self::Wrapped) -> (r: Result<Self::Wrapped, Self::Error>) {
        self.0.sub_by_ref(a, b)
    }

    fn sub_assign(
        &mut self,
        a: &mut Self::Wrapped,
        b: Self::Wrapped,
    ) -> (r: Result<(), Self::Error>) {
        self.0.sub_assign_by_ref(a, b)
    }
}

impl<
    Val: core::ops::Sub<Val, Output = Val>,
    C: ContextWithSubByRef<Val> + ?Sized,
> ContextWithSubByRef<Val> for SharedContext<'_, C> {
    fn sub_by_ref(
        &self,
        a: Self::Wrapped,
        b: Self::Wrapped,
    ) -> (r: Result<Self::Wrapped, Self::Error>) {
        self.0.sub_by_ref(a, b)
    }

    fn sub_assign_by_ref(
        &self,
        a: &mut Self::Wrapped,
        b: Self::Wrapped,
    ) -> (r: Result<(), Self::Error>) {
        self.0.sub_assign_by_ref(a, b)
    }
}

/// A context that can multiply two values.
pub trait ContextWithMul<Val: core::ops::Mul<Val, Output = Val>>: ContextWithValue<Val> {
    fn mul(&mut self, a: Self::Wrapped, b: Self::Wrapped) -> (r: Result<Self::Wrapped, Self::Error>)
        requires
            Self::lawful() ==> Self::denotes(a).mul_req(Self::denotes(b)),
        ensures
            Self::lawful() && Val::obeys_mul_spec() ==> (r matches Ok(w) ==> Self::denotes(w)
                == Self::denotes(a).mul_spec(Self::denotes(b))),
            Self::reliable() ==> r is Ok,
            r matches Err(error) ==> Self::errs(error),
    ;

    fn mul_assign(&mut self, a: &mut Self::Wrapped, b: Self::Wrapped) -> (r: Result<(), Self::Error>)
        requires
            Self::lawful() ==> Self::denotes(*old(a)).mul_req(Self::denotes(b)),
        ensures
            Self::lawful() && Val::obeys_mul_spec() && r is Ok ==> Self::denotes(*final(a))
                == Self::denotes(*old(a)).mul_spec(Self::denotes(b)),
            Self::reliable() ==> r is Ok,
            r matches Err(error) ==> Self::errs(error),
    ;
}

/// Shared-reference variant of [`ContextWithMul`].
pub trait ContextWithMulByRef<Val: core::ops::Mul<Val, Output = Val>>: ContextWithMul<Val> {
    fn mul_by_ref(
        &self,
        a: Self::Wrapped,
        b: Self::Wrapped,
    ) -> (r: Result<Self::Wrapped, Self::Error>)
        requires
            Self::lawful() ==> Self::denotes(a).mul_req(Self::denotes(b)),
        ensures
            Self::lawful() && Val::obeys_mul_spec() ==> (r matches Ok(w) ==> Self::denotes(w)
                == Self::denotes(a).mul_spec(Self::denotes(b))),
            Self::reliable() ==> r is Ok,
            r matches Err(error) ==> Self::errs(error),
    ;

    fn mul_assign_by_ref(
        &self,
        a: &mut Self::Wrapped,
        b: Self::Wrapped,
    ) -> (r: Result<(), Self::Error>)
        requires
            Self::lawful() ==> Self::denotes(*old(a)).mul_req(Self::denotes(b)),
        ensures
            Self::lawful() && Val::obeys_mul_spec() && r is Ok ==> Self::denotes(*final(a))
                == Self::denotes(*old(a)).mul_spec(Self::denotes(b)),
            Self::reliable() ==> r is Ok,
            r matches Err(error) ==> Self::errs(error),
    ;
}

impl<Val: Copy + core::ops::Mul<Val, Output = Val>> ContextWithMul<Val> for () {
    fn mul(&mut self, a: Self::Wrapped, b: Self::Wrapped) -> (r: Result<Self::Wrapped, Self::Error>) {
        Ok(a * b)
    }

    fn mul_assign(
        &mut self,
        a: &mut Self::Wrapped,
        b: Self::Wrapped,
    ) -> (r: Result<(), Self::Error>) {
        *a = *a * b;
        Ok(())
    }
}

impl<Val: Copy + core::ops::Mul<Val, Output = Val>> ContextWithMulByRef<Val> for () {
    fn mul_by_ref(
        &self,
        a: Self::Wrapped,
        b: Self::Wrapped,
    ) -> (r: Result<Self::Wrapped, Self::Error>) {
        Ok(a * b)
    }

    fn mul_assign_by_ref(
        &self,
        a: &mut Self::Wrapped,
        b: Self::Wrapped,
    ) -> (r: Result<(), Self::Error>) {
        *a = *a * b;
        Ok(())
    }
}

impl<
    Val: core::ops::Mul<Val, Output = Val>,
    C: ContextWithMul<Val> + ?Sized,
> ContextWithMul<Val> for &mut C {
    fn mul(&mut self, a: Self::Wrapped, b: Self::Wrapped) -> (r: Result<Self::Wrapped, Self::Error>) {
        (**self).mul(a, b)
    }

    fn mul_assign(
        &mut self,
        a: &mut Self::Wrapped,
        b: Self::Wrapped,
    ) -> (r: Result<(), Self::Error>) {
        (**self).mul_assign(a, b)
    }
}

impl<
    Val: core::ops::Mul<Val, Output = Val>,
    C: ContextWithMulByRef<Val> + ?Sized,
> ContextWithMulByRef<Val> for &mut C {
    fn mul_by_ref(
        &self,
        a: Self::Wrapped,
        b: Self::Wrapped,
    ) -> (r: Result<Self::Wrapped, Self::Error>) {
        (**self).mul_by_ref(a, b)
    }

    fn mul_assign_by_ref(
        &self,
        a: &mut Self::Wrapped,
        b: Self::Wrapped,
    ) -> (r: Result<(), Self::Error>) {
        (**self).mul_assign_by_ref(a, b)
    }
}

impl<
    Val: core::ops::Mul<Val, Output = Val>,
    C: ContextWithMulByRef<Val> + ?Sized,
> ContextWithMul<Val> for &C {
    fn mul(&mut self, a: Self::Wrapped, b: Self::Wrapped) -> (r: Result<Self::Wrapped, Self::Error>) {
        (**self).mul_by_ref(a, b)
    }

    fn mul_assign(
        &mut self,
        a: &mut Self::Wrapped,
        b: Self::Wrapped,
    ) -> (r: Result<(), Self::Error>) {
        (**self).mul_assign_by_ref(a, b)
    }
}

impl<
    Val: core::ops::Mul<Val, Output = Val>,
    C: ContextWithMulByRef<Val> + ?Sized,
> ContextWithMulByRef<Val> for &C {
    fn mul_by_ref(
        &self,
        a: Self::Wrapped,
        b: Self::Wrapped,
    ) -> (r: Result<Self::Wrapped, Self::Error>) {
        (**self).mul_by_ref(a, b)
    }

    fn mul_assign_by_ref(
        &self,
        a: &mut Self::Wrapped,
        b: Self::Wrapped,
    ) -> (r: Result<(), Self::Error>) {
        (**self).mul_assign_by_ref(a, b)
    }
}

impl<
    Val: core::ops::Mul<Val, Output = Val>,
    C: ContextWithMulByRef<Val> + ?Sized,
> ContextWithMul<Val> for SharedContext<'_, C> {
    fn mul(&mut self, a: Self::Wrapped, b: Self::Wrapped) -> (r: Result<Self::Wrapped, Self::Error>) {
        self.0.mul_by_ref(a, b)
    }

    fn mul_assign(
        &mut self,
        a: &mut Self::Wrapped,
        b: Self::Wrapped,
    ) -> (r: Result<(), Self::Error>) {
        self.0.mul_assign_by_ref(a, b)
    }
}

impl<
    Val: core::ops::Mul<Val, Output = Val>,
    C: ContextWithMulByRef<Val> + ?Sized,
> ContextWithMulByRef<Val> for SharedContext<'_, C> {
    fn mul_by_ref(
        &self,
        a: Self::Wrapped,
        b: Self::Wrapped,
    ) -> (r: Result<Self::Wrapped, Self::Error>) {
        self.0.mul_by_ref(a, b)
    }

    fn mul_assign_by_ref(
        &self,
        a: &mut Self::Wrapped,
        b: Self::Wrapped,
    ) -> (r: Result<(), Self::Error>) {
        self.0.mul_assign_by_ref(a, b)
    }
}

/// A context that can divide two values.
pub trait ContextWithDiv<Val: core::ops::Div<Val, Output = Val>>: ContextWithValue<Val> {
    fn div(&mut self, a: Self::Wrapped, b: Self::Wrapped) -> (r: Result<Self::Wrapped, Self::Error>)
        requires
            Self::lawful() ==> Self::denotes(a).div_req(Self::denotes(b)),
        ensures
            Self::lawful() && Val::obeys_div_spec() ==> (r matches Ok(w) ==> Self::denotes(w)
                == Self::denotes(a).div_spec(Self::denotes(b))),
            Self::reliable() ==> r is Ok,
            r matches Err(error) ==> Self::errs(error),
    ;

    fn div_assign(&mut self, a: &mut Self::Wrapped, b: Self::Wrapped) -> (r: Result<(), Self::Error>)
        requires
            Self::lawful() ==> Self::denotes(*old(a)).div_req(Self::denotes(b)),
        ensures
            Self::lawful() && Val::obeys_div_spec() && r is Ok ==> Self::denotes(*final(a))
                == Self::denotes(*old(a)).div_spec(Self::denotes(b)),
            Self::reliable() ==> r is Ok,
            r matches Err(error) ==> Self::errs(error),
    ;
}

/// Shared-reference variant of [`ContextWithDiv`].
pub trait ContextWithDivByRef<Val: core::ops::Div<Val, Output = Val>>: ContextWithDiv<Val> {
    fn div_by_ref(
        &self,
        a: Self::Wrapped,
        b: Self::Wrapped,
    ) -> (r: Result<Self::Wrapped, Self::Error>)
        requires
            Self::lawful() ==> Self::denotes(a).div_req(Self::denotes(b)),
        ensures
            Self::lawful() && Val::obeys_div_spec() ==> (r matches Ok(w) ==> Self::denotes(w)
                == Self::denotes(a).div_spec(Self::denotes(b))),
            Self::reliable() ==> r is Ok,
            r matches Err(error) ==> Self::errs(error),
    ;

    fn div_assign_by_ref(
        &self,
        a: &mut Self::Wrapped,
        b: Self::Wrapped,
    ) -> (r: Result<(), Self::Error>)
        requires
            Self::lawful() ==> Self::denotes(*old(a)).div_req(Self::denotes(b)),
        ensures
            Self::lawful() && Val::obeys_div_spec() && r is Ok ==> Self::denotes(*final(a))
                == Self::denotes(*old(a)).div_spec(Self::denotes(b)),
            Self::reliable() ==> r is Ok,
            r matches Err(error) ==> Self::errs(error),
    ;
}

impl<Val: Copy + core::ops::Div<Val, Output = Val>> ContextWithDiv<Val> for () {
    fn div(&mut self, a: Self::Wrapped, b: Self::Wrapped) -> (r: Result<Self::Wrapped, Self::Error>) {
        Ok(a / b)
    }

    fn div_assign(
        &mut self,
        a: &mut Self::Wrapped,
        b: Self::Wrapped,
    ) -> (r: Result<(), Self::Error>) {
        *a = *a / b;
        Ok(())
    }
}

impl<Val: Copy + core::ops::Div<Val, Output = Val>> ContextWithDivByRef<Val> for () {
    fn div_by_ref(
        &self,
        a: Self::Wrapped,
        b: Self::Wrapped,
    ) -> (r: Result<Self::Wrapped, Self::Error>) {
        Ok(a / b)
    }

    fn div_assign_by_ref(
        &self,
        a: &mut Self::Wrapped,
        b: Self::Wrapped,
    ) -> (r: Result<(), Self::Error>) {
        *a = *a / b;
        Ok(())
    }
}

impl<
    Val: core::ops::Div<Val, Output = Val>,
    C: ContextWithDiv<Val> + ?Sized,
> ContextWithDiv<Val> for &mut C {
    fn div(&mut self, a: Self::Wrapped, b: Self::Wrapped) -> (r: Result<Self::Wrapped, Self::Error>) {
        (**self).div(a, b)
    }

    fn div_assign(
        &mut self,
        a: &mut Self::Wrapped,
        b: Self::Wrapped,
    ) -> (r: Result<(), Self::Error>) {
        (**self).div_assign(a, b)
    }
}

impl<
    Val: core::ops::Div<Val, Output = Val>,
    C: ContextWithDivByRef<Val> + ?Sized,
> ContextWithDivByRef<Val> for &mut C {
    fn div_by_ref(
        &self,
        a: Self::Wrapped,
        b: Self::Wrapped,
    ) -> (r: Result<Self::Wrapped, Self::Error>) {
        (**self).div_by_ref(a, b)
    }

    fn div_assign_by_ref(
        &self,
        a: &mut Self::Wrapped,
        b: Self::Wrapped,
    ) -> (r: Result<(), Self::Error>) {
        (**self).div_assign_by_ref(a, b)
    }
}

impl<
    Val: core::ops::Div<Val, Output = Val>,
    C: ContextWithDivByRef<Val> + ?Sized,
> ContextWithDiv<Val> for &C {
    fn div(&mut self, a: Self::Wrapped, b: Self::Wrapped) -> (r: Result<Self::Wrapped, Self::Error>) {
        (**self).div_by_ref(a, b)
    }

    fn div_assign(
        &mut self,
        a: &mut Self::Wrapped,
        b: Self::Wrapped,
    ) -> (r: Result<(), Self::Error>) {
        (**self).div_assign_by_ref(a, b)
    }
}

impl<
    Val: core::ops::Div<Val, Output = Val>,
    C: ContextWithDivByRef<Val> + ?Sized,
> ContextWithDivByRef<Val> for &C {
    fn div_by_ref(
        &self,
        a: Self::Wrapped,
        b: Self::Wrapped,
    ) -> (r: Result<Self::Wrapped, Self::Error>) {
        (**self).div_by_ref(a, b)
    }

    fn div_assign_by_ref(
        &self,
        a: &mut Self::Wrapped,
        b: Self::Wrapped,
    ) -> (r: Result<(), Self::Error>) {
        (**self).div_assign_by_ref(a, b)
    }
}

impl<
    Val: core::ops::Div<Val, Output = Val>,
    C: ContextWithDivByRef<Val> + ?Sized,
> ContextWithDiv<Val> for SharedContext<'_, C> {
    fn div(&mut self, a: Self::Wrapped, b: Self::Wrapped) -> (r: Result<Self::Wrapped, Self::Error>) {
        self.0.div_by_ref(a, b)
    }

    fn div_assign(
        &mut self,
        a: &mut Self::Wrapped,
        b: Self::Wrapped,
    ) -> (r: Result<(), Self::Error>) {
        self.0.div_assign_by_ref(a, b)
    }
}

impl<
    Val: core::ops::Div<Val, Output = Val>,
    C: ContextWithDivByRef<Val> + ?Sized,
> ContextWithDivByRef<Val> for SharedContext<'_, C> {
    fn div_by_ref(
        &self,
        a: Self::Wrapped,
        b: Self::Wrapped,
    ) -> (r: Result<Self::Wrapped, Self::Error>) {
        self.0.div_by_ref(a, b)
    }

    fn div_assign_by_ref(
        &self,
        a: &mut Self::Wrapped,
        b: Self::Wrapped,
    ) -> (r: Result<(), Self::Error>) {
        self.0.div_assign_by_ref(a, b)
    }
}

/// Values that gates conjoin, disjoin and exclusive-or.
pub trait BitValue: Copy {
    /// Whether any bit of the value is set.
    spec fn truth(self) -> bool;

    spec fn and_value(self, rhs: Self) -> Self;

    spec fn or_value(self, rhs: Self) -> Self;

    spec fn xor_value(self, rhs: Self) -> Self;

    fn and_of(self, rhs: Self) -> (r: Self)
        ensures
            r == self.and_value(rhs),
    ;

    fn or_of(self, rhs: Self) -> (r: Self)
        ensures
            r == self.or_value(rhs),
    ;

    fn xor_of(self, rhs: Self) -> (r: Self)
        ensures
            r == self.xor_value(rhs),
    ;
}

impl BitValue for bool {
    open spec fn truth(self) -> bool {
        self
    }

    open spec fn and_value(self, rhs: bool) -> bool {
        self && rhs
    }

    open spec fn or_value(self, rhs: bool) -> bool {
        self || rhs
    }

    open spec fn xor_value(self, rhs: bool) -> bool {
        self ^ rhs
    }

    fn and_of(self, rhs: bool) -> (r: bool) {
        self && rhs
    }

    fn or_of(self, rhs: bool) -> (r: bool) {
        self || rhs
    }

    fn xor_of(self, rhs: bool) -> (r: bool) {
        self ^ rhs
    }
}

impl BitValue for u8 {
    open spec fn truth(self) -> bool {
        self != 0
    }

    open spec fn and_value(self, rhs: u8) -> u8 {
        self & rhs
    }

    open spec fn or_value(self, rhs: u8) -> u8 {
        self | rhs
    }

    open spec fn xor_value(self, rhs: u8) -> u8 {
        self ^ rhs
    }

    fn and_of(self, rhs: u8) -> (r: u8) {
        self & rhs
    }

    fn or_of(self, rhs: u8) -> (r: u8) {
        self | rhs
    }

    fn xor_of(self, rhs: u8) -> (r: u8) {
        self ^ rhs
    }
}

impl BitValue for u16 {
    open spec fn truth(self) -> bool {
        self != 0
    }

    open spec fn and_value(self, rhs: u16) -> u16 {
        self & rhs
    }

    open spec fn or_value(self, rhs: u16) -> u16 {
        self | rhs
    }

    open spec fn xor_value(self, rhs: u16) -> u16 {
        self ^ rhs
    }

    fn and_of(self, rhs: u16) -> (r: u16) {
        self & rhs
    }

    fn or_of(self, rhs: u16) -> (r: u16) {
        self | rhs
    }

    fn xor_of(self, rhs: u16) -> (r: u16) {
        self ^ rhs
    }
}

impl BitValue for u32 {
    open spec fn truth(self) -> bool {
        self != 0
    }

    open spec fn and_value(self, rhs: u32) -> u32 {
        self & rhs
    }

    open spec fn or_value(self, rhs: u32) -> u32 {
        self | rhs
    }

    open spec fn xor_value(self, rhs: u32) -> u32 {
        self ^ rhs
    }

    fn and_of(self, rhs: u32) -> (r: u32) {
        self & rhs
    }

    fn or_of(self, rhs: u32) -> (r: u32) {
        self | rhs
    }

    fn xor_of(self, rhs: u32) -> (r: u32) {
        self ^ rhs
    }
}

impl BitValue for u64 {
    open spec fn truth(self) -> bool {
        self != 0
    }

    open spec fn and_value(self, rhs: u64) -> u64 {
        self & rhs
    }

    open spec fn or_value(self, rhs: u64) -> u64 {
        self | rhs
    }

    open spec fn xor_value(self, rhs: u64) -> u64 {
        self ^ rhs
    }

    fn and_of(self, rhs: u64) -> (r: u64) {
        self & rhs
    }

    fn or_of(self, rhs: u64) -> (r: u64) {
        self | rhs
    }

    fn xor_of(self, rhs: u64) -> (r: u64) {
        self ^ rhs
    }
}

impl BitValue for usize {
    open spec fn truth(self) -> bool {
        self != 0
    }

    open spec fn and_value(self, rhs: usize) -> usize {
        self & rhs
    }

    open spec fn or_value(self, rhs: usize) -> usize {
        self | rhs
    }

    open spec fn xor_value(self, rhs: usize) -> usize {
        self ^ rhs
    }

    fn and_of(self, rhs: usize) -> (r: usize) {
        self & rhs
    }

    fn or_of(self, rhs: usize) -> (r: usize) {
        self | rhs
    }

    fn xor_of(self, rhs: usize) -> (r: usize) {
        self ^ rhs
    }
}

/// A context that can conjoin two values.
pub trait ContextWithBitAnd<Val: BitValue>: ContextWithValue<Val> {
    fn bitand(
        &mut self,
        a: Self::Wrapped,
        b: Self::Wrapped,
    ) -> (r: Result<Self::Wrapped, Self::Error>)
        ensures
            Self::logs() ==> (r matches Ok(w) ==> (*final(self)).gates() == (*old(self)).gates().push(
                Gate { kind: BitOp::And, left: a, right: b, out: w },
            )),
            Self::lawful() ==> (r matches Ok(w) ==> Self::denotes(w) == Self::denotes(a).and_value(
                Self::denotes(b),
            )),
            Self::reliable() ==> r is Ok,
            r matches Err(error) ==> Self::errs(error),
    ;

    fn bitand_assign(
        &mut self,
        a: &mut Self::Wrapped,
        b: Self::Wrapped,
    ) -> (r: Result<(), Self::Error>)
        ensures
            Self::logs() && r is Ok ==> (*final(self)).gates() == (*old(self)).gates().push(
                Gate { kind: BitOp::And, left: *old(a), right: b, out: *final(a) },
            ),
            Self::lawful() && r is Ok ==> Self::denotes(*final(a)) == Self::denotes(*old(a)).and_value(
                Self::denotes(b),
            ),
            Self::reliable() ==> r is Ok,
            r matches Err(error) ==> Self::errs(error),
    ;
}

/// Shared-reference variant of [`ContextWithBitAnd`].
pub trait ContextWithBitAndByRef<Val: BitValue>: ContextWithBitAnd<Val> {
    fn bitand_by_ref(
        &self,
        a: Self::Wrapped,
        b: Self::Wrapped,
    ) -> (r: Result<Self::Wrapped, Self::Error>)
        ensures
            Self::lawful() ==> (r matches Ok(w) ==> Self::denotes(w) == Self::denotes(a).and_value(
                Self::denotes(b),
            )),
            Self::reliable() ==> r is Ok,
            r matches Err(error) ==> Self::errs(error),
    ;

    fn bitand_assign_by_ref(
        &self,
        a: &mut Self::Wrapped,
        b: Self::Wrapped,
    ) -> (r: Result<(), Self::Error>)
        ensures
            Self::lawful() && r is Ok ==> Self::denotes(*final(a)) == Self::denotes(*old(a)).and_value(
                Self::denotes(b),
            ),
            Self::reliable() ==> r is Ok,
            r matches Err(error) ==> Self::errs(error),
    ;
}

impl<Val: BitValue> ContextWithBitAnd<Val> for () {
    fn bitand(
        &mut self,
        a: Self::Wrapped,
        b: Self::Wrapped,
    ) -> (r: Result<Self::Wrapped, Self::Error>) {
        Ok(a.and_of(b))
    }

    fn bitand_assign(
        &mut self,
        a: &mut Self::Wrapped,
        b: Self::Wrapped,
    ) -> (r: Result<(), Self::Error>) {
        *a = (*a).and_of(b);
        Ok(())
    }
}

impl<Val: BitValue> ContextWithBitAndByRef<Val> for () {
    fn bitand_by_ref(
        &self,
        a: Self::Wrapped,
        b: Self::Wrapped,
    ) -> (r: Result<Self::Wrapped, Self::Error>) {
        Ok(a.and_of(b))
    }

    fn bitand_assign_by_ref(
        &self,
        a: &mut Self::Wrapped,
        b: Self::Wrapped,
    ) -> (r: Result<(), Self::Error>) {
        *a = (*a).and_of(b);
        Ok(())
    }
}

impl<Val: BitValue, C: ContextWithBitAnd<Val> + ?Sized> ContextWithBitAnd<Val> for &mut C {
    fn bitand(
        &mut self,
        a: Self::Wrapped,
        b: Self::Wrapped,
    ) -> (r: Result<Self::Wrapped, Self::Error>) {
        (**self).bitand(a, b)
    }

    fn bitand_assign(
        &mut self,
        a: &mut Self::Wrapped,
        b: Self::Wrapped,
    ) -> (r: Result<(), Self::Error>) {
        (**self).bitand_assign(a, b)
    }
}

impl<Val: BitValue, C: ContextWithBitAndByRef<Val> + ?Sized> ContextWithBitAndByRef<Val> for &mut C {
    fn bitand_by_ref(
        &self,
        a: Self::Wrapped,
        b: Self::Wrapped,
    ) -> (r: Result<Self::Wrapped, Self::Error>) {
        (**self).bitand_by_ref(a, b)
    }

    fn bitand_assign_by_ref(
        &self,
        a: &mut Self::Wrapped,
        b: Self::Wrapped,
    ) -> (r: Result<(), Self::Error>) {
        (**self).bitand_assign_by_ref(a, b)
    }
}

impl<Val: BitValue, C: ContextWithBitAndByRef<Val> + ?Sized> ContextWithBitAnd<Val> for &C {
    fn bitand(
        &mut self,
        a: Self::Wrapped,
        b: Self::Wrapped,
    ) -> (r: Result<Self::Wrapped, Self::Error>) {
        (**self).bitand_by_ref(a, b)
    }

    fn bitand_assign(
        &mut self,
        a: &mut Self::Wrapped,
        b: Self::Wrapped,
    ) -> (r: Result<(), Self::Error>) {
        (**self).bitand_assign_by_ref(a, b)
    }
}

impl<Val: BitValue, C: ContextWithBitAndByRef<Val> + ?Sized> ContextWithBitAndByRef<Val> for &C {
    fn bitand_by_ref(
        &self,
        a: Self::Wrapped,
        b: Self::Wrapped,
    ) -> (r: Result<Self::Wrapped, Self::Error>) {
        (**self).bitand_by_ref(a, b)
    }

    fn bitand_assign_by_ref(
        &self,
        a: &mut Self::Wrapped,
        b: Self::Wrapped,
    ) -> (r: Result<(), Self::Error>) {
        (**self).bitand_assign_by_ref(a, b)
    }
}

impl<
    Val: BitValue,
    C: ContextWithBitAndByRef<Val> + ?Sized,
> ContextWithBitAnd<Val> for SharedContext<'_, C> {
    fn bitand(
        &mut self,
        a: Self::Wrapped,
        b: Self::Wrapped,
    ) -> (r: Result<Self::Wrapped, Self::Error>) {
        self.0.bitand_by_ref(a, b)
    }

    fn bitand_assign(
        &mut self,
        a: &mut Self::Wrapped,
        b: Self::Wrapped,
    ) -> (r: Result<(), Self::Error>) {
        self.0.bitand_assign_by_ref(a, b)
    }
}

impl<
    Val: BitValue,
    C: ContextWithBitAndByRef<Val> + ?Sized,
> ContextWithBitAndByRef<Val> for SharedContext<'_, C> {
    fn bitand_by_ref(
        &self,
        a: Self::Wrapped,
        b: Self::Wrapped,
    ) -> (r: Result<Self::Wrapped, Self::Error>) {
        self.0.bitand_by_ref(a, b)
    }

    fn bitand_assign_by_ref(
        &self,
        a: &mut Self::Wrapped,
        b: Self::Wrapped,
    ) -> (r: Result<(), Self::Error>) {
        self.0.bitand_assign_by_ref(a, b)
    }
}

/// A context that can disjoin two values.
pub trait ContextWithBitOr<Val: BitValue>: ContextWithValue<Val> {
    fn bitor(&mut self, a: Self::Wrapped, b: Self::Wrapped) -> (r: Result<Self::Wrapped, Self::Error>)
        ensures
            Self::logs() ==> (r matches Ok(w) ==> (*final(self)).gates() == (*old(self)).gates().push(
                Gate { kind: BitOp::Or, left: a, right: b, out: w },
            )),
            Self::lawful() ==> (r matches Ok(w) ==> Self::denotes(w) == Self::denotes(a).or_value(
                Self::denotes(b),
            )),
            Self::reliable() ==> r is Ok,
            r matches Err(error) ==> Self::errs(error),
    ;

    fn bitor_assign(
        &mut self,
        a: &mut Self::Wrapped,
        b: Self::Wrapped,
    ) -> (r: Result<(), Self::Error>)
        ensures
            Self::logs() && r is Ok ==> (*final(self)).gates() == (*old(self)).gates().push(
                Gate { kind: BitOp::Or, left: *old(a), right: b, out: *final(a) },
            ),
            Self::lawful() && r is Ok ==> Self::denotes(*final(a)) == Self::denotes(*old(a)).or_value(
                Self::denotes(b),
            ),
            Self::reliable() ==> r is Ok,
            r matches Err(error) ==> Self::errs(error),
    ;
}

/// Shared-reference variant of [`ContextWithBitOr`].
pub trait ContextWithBitOrByRef<Val: BitValue>: ContextWithBitOr<Val> {
    fn bitor_by_ref(
        &self,
        a: Self::Wrapped,
        b: Self::Wrapped,
    ) -> (r: Result<Self::Wrapped, Self::Error>)
        ensures
            Self::lawful() ==> (r matches Ok(w) ==> Self::denotes(w) == Self::denotes(a).or_value(
                Self::denotes(b),
            )),
            Self::reliable() ==> r is Ok,
            r matches Err(error) ==> Self::errs(error),
    ;

    fn bitor_assign_by_ref(
        &self,
        a: &mut Self::Wrapped,
        b: Self::Wrapped,
    ) -> (r: Result<(), Self::Error>)
        ensures
            Self::lawful() && r is Ok ==> Self::denotes(*final(a)) == Self::denotes(*old(a)).or_value(
                Self::denotes(b),
            ),
            Self::reliable() ==> r is Ok,
            r matches Err(error) ==> Self::errs(error),
    ;
}

impl<Val: BitValue> ContextWithBitOr<Val> for () {
    fn bitor(
        &mut self,
        a: Self::Wrapped,
        b: Self::Wrapped,
    ) -> (r: Result<Self::Wrapped, Self::Error>) {
        Ok(a.or_of(b))
    }

    fn bitor_assign(
        &mut self,
        a: &mut Self::Wrapped,
        b: Self::Wrapped,
    ) -> (r: Result<(), Self::Error>) {
        *a = (*a).or_of(b);
        Ok(())
    }
}

impl<Val: BitValue> ContextWithBitOrByRef<Val> for () {
    fn bitor_by_ref(
        &self,
        a: Self::Wrapped,
        b: Self::Wrapped,
    ) -> (r: Result<Self::Wrapped, Self::Error>) {
        Ok(a.or_of(b))
    }

    fn bitor_assign_by_ref(
        &self,
        a: &mut Self::Wrapped,
        b: Self::Wrapped,
    ) -> (r: Result<(), Self::Error>) {
        *a = (*a).or_of(b);
        Ok(())
    }
}

impl<Val: BitValue, C: ContextWithBitOr<Val> + ?Sized> ContextWithBitOr<Val> for &mut C {
    fn bitor(
        &mut self,
        a: Self::Wrapped,
        b: Self::Wrapped,
    ) -> (r: Result<Self::Wrapped, Self::Error>) {
        (**self).bitor(a, b)
    }

    fn bitor_assign(
        &mut self,
        a: &mut Self::Wrapped,
        b: Self::Wrapped,
    ) -> (r: Result<(), Self::Error>) {
        (**self).bitor_assign(a, b)
    }
}

impl<Val: BitValue, C: ContextWithBitOrByRef<Val> + ?Sized> ContextWithBitOrByRef<Val> for &mut C {
    fn bitor_by_ref(
        &self,
        a: Self::Wrapped,
        b: Self::Wrapped,
    ) -> (r: Result<Self::Wrapped, Self::Error>) {
        (**self).bitor_by_ref(a, b)
    }

    fn bitor_assign_by_ref(
        &self,
        a: &mut Self::Wrapped,
        b: Self::Wrapped,
    ) -> (r: Result<(), Self::Error>) {
        (**self).bitor_assign_by_ref(a, b)
    }
}

impl<Val: BitValue, C: ContextWithBitOrByRef<Val> + ?Sized> ContextWithBitOr<Val> for &C {
    fn bitor(
        &mut self,
        a: Self::Wrapped,
        b: Self::Wrapped,
    ) -> (r: Result<Self::Wrapped, Self::Error>) {
        (**self).bitor_by_ref(a, b)
    }

    fn bitor_assign(
        &mut self,
        a: &mut Self::Wrapped,
        b: Self::Wrapped,
    ) -> (r: Result<(), Self::Error>) {
        (**self).bitor_assign_by_ref(a, b)
    }
}

impl<Val: BitValue, C: ContextWithBitOrByRef<Val> + ?Sized> ContextWithBitOrByRef<Val> for &C {
    fn bitor_by_ref(
        &self,
        a: Self::Wrapped,
        b: Self::Wrapped,
    ) -> (r: Result<Self::Wrapped, Self::Error>) {
        (**self).bitor_by_ref(a, b)
    }

    fn bitor_assign_by_ref(
        &self,
        a: &mut Self::Wrapped,
        b: Self::Wrapped,
    ) -> (r: Result<(), Self::Error>) {
        (**self).bitor_assign_by_ref(a, b)
    }
}

impl<
    Val: BitValue,
    C: ContextWithBitOrByRef<Val> + ?Sized,
> ContextWithBitOr<Val> for SharedContext<'_, C> {
    fn bitor(
        &mut self,
        a: Self::Wrapped,
        b: Self::Wrapped,
    ) -> (r: Result<Self::Wrapped, Self::Error>) {
        self.0.bitor_by_ref(a, b)
    }

    fn bitor_assign(
        &mut self,
        a: &mut Self::Wrapped,
        b: Self::Wrapped,
    ) -> (r: Result<(), Self::Error>) {
        self.0.bitor_assign_by_ref(a, b)
    }
}

impl<
    Val: BitValue,
    C: ContextWithBitOrByRef<Val> + ?Sized,
> ContextWithBitOrByRef<Val> for SharedContext<'_, C> {
    fn bitor_by_ref(
        &self,
        a: Self::Wrapped,
        b: Self::Wrapped,
    ) -> (r: Result<Self::Wrapped, Self::Error>) {
        self.0.bitor_by_ref(a, b)
    }

    fn bitor_assign_by_ref(
        &self,
        a: &mut Self::Wrapped,
        b: Self::Wrapped,
    ) -> (r: Result<(), Self::Error>) {
        self.0.bitor_assign_by_ref(a, b)
    }
}

/// A context that can exclusive-or two values.
pub trait ContextWithBitXor<Val: BitValue>: ContextWithValue<Val> {
    fn bitxor(
        &mut self,
        a: Self::Wrapped,
        b: Self::Wrapped,
    ) -> (r: Result<Self::Wrapped, Self::Error>)
        ensures
            Self::logs() ==> (r matches Ok(w) ==> (*final(self)).gates() == (*old(self)).gates().push(
                Gate { kind: BitOp::Xor, left: a, right: b, out: w },
            )),
            Self::lawful() ==> (r matches Ok(w) ==> Self::denotes(w) == Self::denotes(a).xor_value(
                Self::denotes(b),
            )),
            Self::reliable() ==> r is Ok,
            r matches Err(error) ==> Self::errs(error),
    ;

    fn bitxor_assign(
        &mut self,
        a: &mut Self::Wrapped,
        b: Self::Wrapped,
    ) -> (r: Result<(), Self::Error>)
        ensures
            Self::logs() && r is Ok ==> (*final(self)).gates() == (*old(self)).gates().push(
                Gate { kind: BitOp::Xor, left: *old(a), right: b, out: *final(a) },
            ),
            Self::lawful() && r is Ok ==> Self::denotes(*final(a)) == Self::denotes(*old(a)).xor_value(
                Self::denotes(b),
            ),
            Self::reliable() ==> r is Ok,
            r matches Err(error) ==> Self::errs(error),
    ;
}

/// Shared-reference variant of [`ContextWithBitXor`].
pub trait ContextWithBitXorByRef<Val: BitValue>: ContextWithBitXor<Val> {
    fn bitxor_by_ref(
        &self,
        a: Self::Wrapped,
        b: Self::Wrapped,
    ) -> (r: Result<Self::Wrapped, Self::Error>)
        ensures
            Self::lawful() ==> (r matches Ok(w) ==> Self::denotes(w) == Self::denotes(a).xor_value(
                Self::denotes(b),
            )),
            Self::reliable() ==> r is Ok,
            r matches Err(error) ==> Self::errs(error),
    ;

    fn bitxor_assign_by_ref(
        &self,
        a: &mut Self::Wrapped,
        b: Self::Wrapped,
    ) -> (r: Result<(), Self::Error>)
        ensures
            Self::lawful() && r is Ok ==> Self::denotes(*final(a)) == Self::denotes(*old(a)).xor_value(
                Self::denotes(b),
            ),
            Self::reliable() ==> r is Ok,
            r matches Err(error) ==> Self::errs(error),
    ;
}

impl<Val: BitValue> ContextWithBitXor<Val> for () {
    fn bitxor(
        &mut self,
        a: Self::Wrapped,
        b: Self::Wrapped,
    ) -> (r: Result<Self::Wrapped, Self::Error>) {
        Ok(a.xor_of(b))
    }

    fn bitxor_assign(
        &mut self,
        a: &mut Self::Wrapped,
        b: Self::Wrapped,
    ) -> (r: Result<(), Self::Error>) {
        *a = (*a).xor_of(b);
        Ok(())
    }
}

impl<Val: BitValue> ContextWithBitXorByRef<Val> for () {
    fn bitxor_by_ref(
        &self,
        a: Self::Wrapped,
        b: Self::Wrapped,
    ) -> (r: Result<Self::Wrapped, Self::Error>) {
        Ok(a.xor_of(b))
    }

    fn bitxor_assign_by_ref(
        &self,
        a: &mut Self::Wrapped,
        b: Self::Wrapped,
    ) -> (r: Result<(), Self::Error>) {
        *a = (*a).xor_of(b);
        Ok(())
    }
}

impl<Val: BitValue, C: ContextWithBitXor<Val> + ?Sized> ContextWithBitXor<Val> for &mut C {
    fn bitxor(
        &mut self,
        a: Self::Wrapped,
        b: Self::Wrapped,
    ) -> (r: Result<Self::Wrapped, Self::Error>) {
        (**self).bitxor(a, b)
    }

    fn bitxor_assign(
        &mut self,
        a: &mut Self::Wrapped,
        b: Self::Wrapped,
    ) -> (r: Result<(), Self::Error>) {
        (**self).bitxor_assign(a, b)
    }
}

impl<Val: BitValue, C: ContextWithBitXorByRef<Val> + ?Sized> ContextWithBitXorByRef<Val> for &mut C {
    fn bitxor_by_ref(
        &self,
        a: Self::Wrapped,
        b: Self::Wrapped,
    ) -> (r: Result<Self::Wrapped, Self::Error>) {
        (**self).bitxor_by_ref(a, b)
    }

    fn bitxor_assign_by_ref(
        &self,
        a: &mut Self::Wrapped,
        b: Self::Wrapped,
    ) -> (r: Result<(), Self::Error>) {
        (**self).bitxor_assign_by_ref(a, b)
    }
}

impl<Val: BitValue, C: ContextWithBitXorByRef<Val> + ?Sized> ContextWithBitXor<Val> for &C {
    fn bitxor(
        &mut self,
        a: Self::Wrapped,
        b: Self::Wrapped,
    ) -> (r: Result<Self::Wrapped, Self::Error>) {
        (**self).bitxor_by_ref(a, b)
    }

    fn bitxor_assign(
        &mut self,
        a: &mut Self::Wrapped,
        b: Self::Wrapped,
    ) -> (r: Result<(), Self::Error>) {
        (**self).bitxor_assign_by_ref(a, b)
    }
}

impl<Val: BitValue, C: ContextWithBitXorByRef<Val> + ?Sized> ContextWithBitXorByRef<Val> for &C {
    fn bitxor_by_ref(
        &self,
        a: Self::Wrapped,
        b: Self::Wrapped,
    ) -> (r: Result<Self::Wrapped, Self::Error>) {
        (**self).bitxor_by_ref(a, b)
    }

    fn bitxor_assign_by_ref(
        &self,
        a: &mut Self::Wrapped,
        b: Self::Wrapped,
    ) -> (r: Result<(), Self::Error>) {
        (**self).bitxor_assign_by_ref(a, b)
    }
}

impl<
    Val: BitValue,
    C: ContextWithBitXorByRef<Val> + ?Sized,
> ContextWithBitXor<Val> for SharedContext<'_, C> {
    fn bitxor(
        &mut self,
        a: Self::Wrapped,
        b: Self::Wrapped,
    ) -> (r: Result<Self::Wrapped, Self::Error>) {
        self.0.bitxor_by_ref(a, b)
    }

    fn bitxor_assign(
        &mut self,
        a: &mut Self::Wrapped,
        b: Self::Wrapped,
    ) -> (r: Result<(), Self::Error>) {
        self.0.bitxor_assign_by_ref(a, b)
    }
}

impl<
    Val: BitValue,
    C: ContextWithBitXorByRef<Val> + ?Sized,
> ContextWithBitXorByRef<Val> for SharedContext<'_, C> {
    fn bitxor_by_ref(
        &self,
        a: Self::Wrapped,
        b: Self::Wrapped,
    ) -> (r: Result<Self::Wrapped, Self::Error>) {
        self.0.bitxor_by_ref(a, b)
    }

    fn bitxor_assign_by_ref(
        &self,
        a: &mut Self::Wrapped,
        b: Self::Wrapped,
    ) -> (r: Result<(), Self::Error>) {
        self.0.bitxor_assign_by_ref(a, b)
    }
}

/// A context that can choose between two values by a Boolean wire.
pub trait ContextWithMux<Val>: ContextWithValue<bool> + ContextWithValue<Val> {
    fn mux(
        &mut self,
        cond: <Self as ContextWithValue<bool>>::Wrapped,
        then: <Self as ContextWithValue<Val>>::Wrapped,
        otherwise: <Self as ContextWithValue<Val>>::Wrapped,
    ) -> (r: Result<<Self as ContextWithValue<Val>>::Wrapped, Self::Error>)
        ensures
            <Self as ContextWithValue<bool>>::lawful() && <Self as ContextWithValue<Val>>::lawful() ==> (
            r matches Ok(w) ==> <Self as ContextWithValue<Val>>::denotes(w) == if bit::<Self>(cond) {
                <Self as ContextWithValue<Val>>::denotes(then)
            } else {
                <Self as ContextWithValue<Val>>::denotes(otherwise)
            }),
            <Self as ContextWithValue<Val>>::reliable() ==> r is Ok,
            r matches Err(error) ==> <Self as ContextWithValue<Val>>::errs(error),
    ;
}

/// Shared-reference variant of [`ContextWithMux`].
pub trait ContextWithMuxByRef<Val>: ContextWithMux<Val> {
    fn mux_by_ref(
        &self,
        cond: <Self as ContextWithValue<bool>>::Wrapped,
        then: <Self as ContextWithValue<Val>>::Wrapped,
        otherwise: <Self as ContextWithValue<Val>>::Wrapped,
    ) -> (r: Result<<Self as ContextWithValue<Val>>::Wrapped, Self::Error>)
        ensures
            <Self as ContextWithValue<bool>>::lawful() && <Self as ContextWithValue<Val>>::lawful() ==> (
            r matches Ok(w) ==> <Self as ContextWithValue<Val>>::denotes(w) == if bit::<Self>(cond) {
                <Self as ContextWithValue<Val>>::denotes(then)
            } else {
                <Self as ContextWithValue<Val>>::denotes(otherwise)
            }),
            <Self as ContextWithValue<Val>>::reliable() ==> r is Ok,
            r matches Err(error) ==> <Self as ContextWithValue<Val>>::errs(error),
    ;
}

impl<Val> ContextWithMux<Val> for () {
    fn mux(
        &mut self,
        cond: <Self as ContextWithValue<bool>>::Wrapped,
        then: <Self as ContextWithValue<Val>>::Wrapped,
        otherwise: <Self as ContextWithValue<Val>>::Wrapped,
    ) -> (r: Result<<Self as ContextWithValue<Val>>::Wrapped, Self::Error>) {
        Ok(
            if cond {
                then
            } else {
                otherwise
            },
        )
    }
}

impl<Val> ContextWithMuxByRef<Val> for () {
    fn mux_by_ref(
        &self,
        cond: <Self as ContextWithValue<bool>>::Wrapped,
        then: <Self as ContextWithValue<Val>>::Wrapped,
        otherwise: <Self as ContextWithValue<Val>>::Wrapped,
    ) -> (r: Result<<Self as ContextWithValue<Val>>::Wrapped, Self::Error>) {
        Ok(
            if cond {
                then
            } else {
                otherwise
            },
        )
    }
}

impl<Val, C: ContextWithMux<Val> + ?Sized> ContextWithMux<Val> for &mut C {
    fn mux(
        &mut self,
        cond: <Self as ContextWithValue<bool>>::Wrapped,
        then: <Self as ContextWithValue<Val>>::Wrapped,
        otherwise: <Self as ContextWithValue<Val>>::Wrapped,
    ) -> (r: Result<<Self as ContextWithValue<Val>>::Wrapped, Self::Error>) {
        (**self).mux(cond, then, otherwise)
    }
}

impl<Val, C: ContextWithMuxByRef<Val> + ?Sized> ContextWithMuxByRef<Val> for &mut C {
    fn mux_by_ref(
        &self,
        cond: <Self as ContextWithValue<bool>>::Wrapped,
        then: <Self as ContextWithValue<Val>>::Wrapped,
        otherwise: <Self as ContextWithValue<Val>>::Wrapped,
    ) -> (r: Result<<Self as ContextWithValue<Val>>::Wrapped, Self::Error>) {
        (**self).mux_by_ref(cond, then, otherwise)
    }
}

impl<Val, C: ContextWithMuxByRef<Val> + ?Sized> ContextWithMux<Val> for &C {
    fn mux(
        &mut self,
        cond: <Self as ContextWithValue<bool>>::Wrapped,
        then: <Self as ContextWithValue<Val>>::Wrapped,
        otherwise: <Self as ContextWithValue<Val>>::Wrapped,
    ) -> (r: Result<<Self as ContextWithValue<Val>>::Wrapped, Self::Error>) {
        (**self).mux_by_ref(cond, then, otherwise)
    }
}

impl<Val, C: ContextWithMuxByRef<Val> + ?Sized> ContextWithMuxByRef<Val> for &C {
    fn mux_by_ref(
        &self,
        cond: <Self as ContextWithValue<bool>>::Wrapped,
        then: <Self as ContextWithValue<Val>>::Wrapped,
        otherwise: <Self as ContextWithValue<Val>>::Wrapped,
    ) -> (r: Result<<Self as ContextWithValue<Val>>::Wrapped, Self::Error>) {
        (**self).mux_by_ref(cond, then, otherwise)
    }
}

impl<Val, C: ContextWithMuxByRef<Val> + ?Sized> ContextWithMux<Val> for SharedContext<'_, C> {
    fn mux(
        &mut self,
        cond: <Self as ContextWithValue<bool>>::Wrapped,
        then: <Self as ContextWithValue<Val>>::Wrapped,
        otherwise: <Self as ContextWithValue<Val>>::Wrapped,
    ) -> (r: Result<<Self as ContextWithValue<Val>>::Wrapped, Self::Error>) {
        self.0.mux_by_ref(cond, then, otherwise)
    }
}

impl<Val, C: ContextWithMuxByRef<Val> + ?Sized> ContextWithMuxByRef<Val> for SharedContext<'_, C> {
    fn mux_by_ref(
        &self,
        cond: <Self as ContextWithValue<bool>>::Wrapped,
        then: <Self as ContextWithValue<Val>>::Wrapped,
        otherwise: <Self as ContextWithValue<Val>>::Wrapped,
    ) -> (r: Result<<Self as ContextWithValue<Val>>::Wrapped, Self::Error>) {
        self.0.mux_by_ref(cond, then, otherwise)
    }
}

} // verus!
