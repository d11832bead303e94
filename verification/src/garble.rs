//! A garbler: wires are labels, sums are free, and a product sends a table.
use crate::context::{
    Bit, ContextWithAdd, ContextWithMul, ContextWithSub, ContextWithValue, HasError, Pusher,
};
use crate::runtime::sha256;
use vstd::prelude::*;

verus! {

/// The exclusive-or of two labels, byte by byte.
pub open spec fn xor_label(a: Seq<u8>, b: Seq<u8>) -> Seq<u8> {
    Seq::new(a.len(), |i: int| a[i] ^ b[i])
}

/// The lowest bit of a label.
pub open spec fn colour(label: Seq<u8>) -> bool {
    label[0] % 2 == 1
}

/// Row `i` of a product's table: the fresh label, offset by `delta` where both
/// operands are set for the colours that `i` stands for.
pub open spec fn table_row(
    i: int,
    fresh: Seq<u8>,
    a: Seq<u8>,
    b: Seq<u8>,
    delta: Seq<u8>,
) -> Seq<u8> {
    let left = ((i % 2 == 1) != colour(a)) != colour(delta);
    let right = (((i / 2) % 2 == 1) != colour(b)) != colour(delta);
    if left && right {
        xor_label(fresh, delta)
    } else {
        fresh
    }
}

/// The exclusive-or of a label and the bytes of another.
pub fn xor<const N: usize>(a: &[u8; N], b: &[u8]) -> (r: [u8; N])
    requires
        N <= b@.len(),
    ensures
        r@ == xor_label(a@, b@),
{
    let mut r: [u8; N] = *a;
    let mut i: usize = 0;
    while i < N
        invariant
            i <= N <= b@.len(),
            forall|j: int|
                0 <= j < N ==> (#[trigger] r@[j]) == if j < i {
                    a@[j] ^ b@[j]
                } else {
                    a@[j]
                },
        decreases N - i,
    {
        r[i] = r[i] ^ b[i];
        i = i + 1;
    }
    assert(r@ =~= xor_label(a@, b@));
    r
}

/// The table of a product.
pub fn garble_rows<const N: usize>(
    fresh: &[u8; N],
    a: &[u8; N],
    b: &[u8; N],
    delta: &[u8],
) -> (r: [[u8;
    N]; 4])
    requires
        1 <= N <= delta@.len(),
    ensures
        forall|i: int|
            0 <= i < 4 ==> (#[trigger] r@[i])@ == table_row(i, fresh@, a@, b@, delta@),
{
    let set = xor::<N>(fresh, delta);
    let offset = delta[0] % 2 == 1;
    let left = (a[0] % 2 == 1) != offset;
    let right = (b[0] % 2 == 1) != offset;
    let mut r: [[u8; N]; 4] = [*fresh; 4];
    if left && right {
        r[0] = set;
    }
    if !left && right {
        r[1] = set;
    }
    if left && !right {
        r[2] = set;
    }
    if !left && !right {
        r[3] = set;
    }
    r
}

/// The first bytes of a digest, as a label.
pub fn label_of<const N: usize>(digest: &[u8]) -> (r: [u8; N])
    requires
        N <= digest@.len(),
    ensures
        r@ == digest@.take(N as int),
{
    let mut r: [u8; N] = [0u8; N];
    let mut i: usize = 0;
    while i < N
        invariant
            i <= N <= digest@.len(),
            forall|j: int| 0 <= j < i ==> r@[j] == digest@[j],
        decreases N - i,
    {
        r[i] = digest[i];
        i = i + 1;
    }
    assert(r@ =~= digest@.take(N as int));
    r
}

/// The offset between the two labels of a wire, for labels of `N` bytes.
pub struct Offset<const N: usize> {
    delta: [u8; 32],
}

impl<const N: usize> Offset<N> {
    /// A label is not empty, and a digest holds one.
    #[verifier::type_invariant]
    spec fn fits(self) -> bool {
        1 <= N <= 32
    }

    /// The bytes of the offset.
    pub closed spec fn bytes(&self) -> Seq<u8> {
        self.delta@
    }

    pub fn new(delta: [u8; 32]) -> (r: Self)
        requires
            1 <= N <= 32,
        ensures
            r.bytes() == delta@,
    {
        Offset { delta }
    }

    /// The table of a product.
    fn rows(&self, fresh: &[u8; N], a: &[u8; N], b: &[u8; N]) -> (r: [[u8; N]; 4])
        ensures
            sends::<N>(r, fresh@, a@, b@, self.bytes()),
    {
        proof {
            use_type_invariant(self);
        }
        garble_rows::<N>(fresh, a, b, &self.delta)
    }

    /// A label from a digest.
    fn label(&self, digest: &[u8; 32]) -> (r: [u8; N])
        ensures
            r@ == digest@.take(N as int),
    {
        proof {
            use_type_invariant(self);
        }
        label_of::<N>(digest)
    }
}

/// A garbler over labels of `N` bytes. Fresh labels come from a seed that is
/// hashed with SHA-256 at every product; the tables go to a queue.
pub struct GC<Q, const N: usize> {
    pub queue: Q,
    pub seed: [u8; 32],
    pub delta: Offset<N>,
}

impl<Q, const N: usize> GC<Q, N> {
    /// The current seed.
    pub open spec fn seeded(&self) -> Seq<u8> {
        self.seed@
    }

    /// The offset between the two labels of a wire.
    pub open spec fn offset(&self) -> Seq<u8> {
        self.delta.bytes()
    }

    /// The queue that takes the tables.
    pub open spec fn sink(&self) -> Q {
        self.queue
    }

    pub fn new(queue: Q, seed: [u8; 32], delta: [u8; 32]) -> (r: Self)
        requires
            1 <= N <= 32,
        ensures
            r.seeded() == seed@,
            r.offset() == delta@,
            r.sink() == queue,
    {
        GC { queue, seed, delta: Offset::new(delta) }
    }
}

impl<Q, const N: usize> HasError for GC<Q, N> {
    type Error = core::convert::Infallible;
}

/// A label means a bit only together with its garbler's offset.
impl<Q, const N: usize> ContextWithValue<Bit> for GC<Q, N> {
    type Wrapped = [u8; N];

    open spec fn lawful() -> bool {
        false
    }

    open spec fn reliable() -> bool {
        true
    }

    open spec fn errs(error: core::convert::Infallible) -> bool {
        false
    }

    open spec fn denotes(w: [u8; N]) -> Bit {
        Bit(false)
    }
}

impl<Q, const N: usize> ContextWithAdd<Bit> for GC<Q, N> {
    fn add(&mut self, a: [u8; N], b: [u8; N]) -> (r: Result<[u8; N], core::convert::Infallible>)
        ensures
            r matches Ok(w) && w@ == xor_label(a@, b@),
            *final(self) == *old(self),
    {
        Ok(xor::<N>(&a, &b))
    }

    fn add_assign(&mut self, a: &mut [u8; N], b: [u8; N]) -> (r: Result<
        (),
        core::convert::Infallible,
    >)
        ensures
            final(a)@ == xor_label(old(a)@, b@),
            *final(self) == *old(self),
    {
        *a = xor::<N>(&*a, &b);
        Ok(())
    }
}

impl<Q, const N: usize> ContextWithSub<Bit> for GC<Q, N> {
    fn sub(&mut self, a: [u8; N], b: [u8; N]) -> (r: Result<[u8; N], core::convert::Infallible>)
        ensures
            r matches Ok(w) && w@ == xor_label(a@, b@),
            *final(self) == *old(self),
    {
        Ok(xor::<N>(&a, &b))
    }

    fn sub_assign(&mut self, a: &mut [u8; N], b: [u8; N]) -> (r: Result<
        (),
        core::convert::Infallible,
    >)
        ensures
            final(a)@ == xor_label(old(a)@, b@),
            *final(self) == *old(self),
    {
        *a = xor::<N>(&*a, &b);
        Ok(())
    }
}

/// A table of four labels says what a product sends.
pub open spec fn sends<const N: usize>(
    table: [[u8; N]; 4],
    fresh: Seq<u8>,
    a: Seq<u8>,
    b: Seq<u8>,
    delta: Seq<u8>,
) -> bool {
    forall|i: int| 0 <= i < 4 ==> (#[trigger] table@[i])@ == table_row(i, fresh, a, b, delta)
}

impl<Q: Pusher<[[u8; N]; 4]>, const N: usize> ContextWithMul<Bit> for GC<Q, N> {
    fn mul(&mut self, a: [u8; N], b: [u8; N]) -> (r: Result<[u8; N], core::convert::Infallible>)
        ensures
            final(self).seeded() == crate::runtime::sha256_of(old(self).seeded()),
            final(self).offset() == old(self).offset(),
            r matches Ok(w) && w@ == final(self).seeded().take(N as int),
            Q::records() ==> exists|table: [[u8; N]; 4]|
                final(self).sink().pushed() == old(self).sink().pushed().push(table) && #[trigger]
                sends::<N>(
                    table,
                    final(self).seeded().take(N as int),
                    a@,
                    b@,
                    old(self).offset(),
                ),
    {
        self.seed = sha256(&self.seed);
        let fresh = self.delta.label(&self.seed);
        let table = self.delta.rows(&fresh, &a, &b);
        self.queue.push(table);
        assert(sends::<N>(
            table,
            self.seeded().take(N as int),
            a@,
            b@,
            old(self).offset(),
        ));
        Ok(fresh)
    }

    fn mul_assign(&mut self, a: &mut [u8; N], b: [u8; N]) -> (r: Result<
        (),
        core::convert::Infallible,
    >)
        ensures
            final(self).seeded() == crate::runtime::sha256_of(old(self).seeded()),
            final(self).offset() == old(self).offset(),
            final(a)@ == final(self).seeded().take(N as int),
            Q::records() ==> exists|table: [[u8; N]; 4]|
                final(self).sink().pushed() == old(self).sink().pushed().push(table) && #[trigger]
                sends::<N>(
                    table,
                    final(self).seeded().take(N as int),
                    old(a)@,
                    b@,
                    old(self).offset(),
                ),
    {
        *a = self.mul(*a, b)?;
        Ok(())
    }
}


/// The label of a wire that is set or not.
pub open spec fn label_for(zero: Seq<u8>, set: bool, delta: Seq<u8>) -> Seq<u8> {
    if set {
        xor_label(zero, delta)
    } else {
        zero
    }
}

/// Sums are free: the exclusive-or of two wires' labels is the label of their
/// sum.
pub proof fn sums_are_free(a: Seq<u8>, b: Seq<u8>, x: bool, y: bool, delta: Seq<u8>)
    requires
        a.len() == b.len(),
        a.len() <= delta.len(),
    ensures
        xor_label(label_for(a, x, delta), label_for(b, y, delta)) == label_for(
            xor_label(a, b),
            x != y,
            delta,
        ),
{
    let sum = xor_label(label_for(a, x, delta), label_for(b, y, delta));
    let label = label_for(xor_label(a, b), x != y, delta);
    assert forall|i: int| 0 <= i < a.len() implies sum[i] == label[i] by {
        let (p, q, d) = (a[i], b[i], delta[i]);
        assert((p ^ d) ^ (q ^ d) == p ^ q && (p ^ d) ^ q == (p ^ q) ^ d && p ^ (q ^ d) == (p ^ q)
            ^ d) by (bit_vector);
    }
    assert(sum =~= label);
}

/// The row of a product's table for operands that are set or not.
pub open spec fn product_row(a: Seq<u8>, b: Seq<u8>, x: bool, y: bool, delta: Seq<u8>) -> int {
    let left = (x != colour(a)) != colour(delta);
    let right = (y != colour(b)) != colour(delta);
    (if left {
        1int
    } else {
        0
    }) + (if right {
        2int
    } else {
        0
    })
}

/// Every product is in its table: the row of two operands holds the label of
/// their product.
pub proof fn table_holds_every_product(
    fresh: Seq<u8>,
    a: Seq<u8>,
    b: Seq<u8>,
    delta: Seq<u8>,
    x: bool,
    y: bool,
)
    ensures
        0 <= product_row(a, b, x, y, delta) < 4,
        table_row(product_row(a, b, x, y, delta), fresh, a, b, delta) == label_for(
            fresh,
            x && y,
            delta,
        ),
{
}

} // verus!
