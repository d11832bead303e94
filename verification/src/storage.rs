//! Bit-addressed access to caller-owned symbolic storage.
//!
//! A machine's virtual stack is a store of one cell per bit. These functions
//! name a cell by its host-known number, and read and write it through a
//! [`ContextWithStorage`].
use crate::context::{ContextWithStorage, ContextWithValue, StorageAddressBit};
use vstd::arithmetic::power2::*;
use vstd::prelude::*;

verus! {

/// An address that the host knows to be that of a cell: one known bit per bit
/// of a host pointer.
pub open spec fn names<H: ContextWithStorage<bool> + ?Sized>(
    address: Seq<StorageAddressBit<<H as ContextWithValue<bool>>::Wrapped>>,
    cell: int,
) -> bool {
    &&& spells(address, cell)
    &&& H::tracks() ==> crate::context::address_index::<H>(address) == cell
}

/// The known bits of an address spell a number.
pub open spec fn spells<W>(address: Seq<StorageAddressBit<W>>, cell: int) -> bool {
    &&& address.len() == usize::BITS
    &&& forall|i: int|
        0 <= i < address.len() ==> (#[trigger] address[i]).known == Some(
            crate::bits::bits_of(cell as nat, usize::BITS as nat)[i],
        )
}

/// The address of cell `value`: one known bit per bit of a host pointer.
pub fn storage_address<H: ContextWithValue<bool> + ?Sized>(
    value: usize,
    zero: &H::Wrapped,
    one: &H::Wrapped,
) -> (r: Vec<StorageAddressBit<H::Wrapped>>) where H::Wrapped: Clone
    ensures
        spells(r@, value as int),
        crate::word::constants::<H>(*zero, *one) ==> {
            &&& crate::context::address_index::<H>(r@) == value
            &&& forall|i: int|
                0 <= i < r@.len() ==> (#[trigger] r@[i]).known == Some(
                    crate::context::bit::<H>(r@[i].wire),
                )
        },
{
    let width: u32 = usize::BITS;
    let wide: u64 = value as u64;
    let mut r: Vec<StorageAddressBit<H::Wrapped>> = Vec::new();
    let ghost expected = crate::bits::bits_of(value as nat, width as nat);
    let mut bit: u32 = 0;
    while bit < width
        invariant
            bit <= width,
            width == usize::BITS,
            wide == value,
            expected == crate::bits::bits_of(value as nat, width as nat),
            r@.len() == bit,
            forall|i: int| 0 <= i < bit ==> (#[trigger] r@[i]).known == Some(expected[i]),
            crate::word::constants::<H>(*zero, *one) ==> forall|i: int|
                0 <= i < bit ==> crate::context::bit::<H>((#[trigger] r@[i]).wire) == expected[i],
        decreases width - bit,
    {
        proof {
            crate::bits::shifted_bit(wide, bit as u64);
        }
        let known = (wide >> (bit as u64)) & 1 != 0;
        let wire = if known {
            crate::context::keep::<H>(one)
        } else {
            crate::context::keep::<H>(zero)
        };
        r.push(StorageAddressBit { wire, known: Some(known) });
        bit = bit + 1;
    }
    proof {
        if crate::word::constants::<H>(*zero, *one) {
            assert(crate::context::address_bits::<H>(r@) =~= expected);
            crate::bits::num_bits_of(value as nat, width as nat);
            lemma2_to64();
            lemma2_to64_rest();
            vstd::arithmetic::div_mod::lemma_small_mod(value as nat, pow2(width as nat));
        }
    }
    r
}

/// What [`read_bit`] and [`write_bit`] ask of the two constant wires and the
/// store.
pub open spec fn reachable<H: ContextWithStorage<bool> + ?Sized>(
    storage: &H::Storage,
    limit: int,
    zero: <H as ContextWithValue<bool>>::Wrapped,
    one: <H as ContextWithValue<bool>>::Wrapped,
) -> bool where <H as ContextWithValue<bool>>::Wrapped: Clone {
    &&& H::tracks() ==> {
        &&& crate::word::constants::<H>(zero, one)
        &&& limit <= H::cells(storage).len()
    }
    &&& forall|
        address: Seq<StorageAddressBit<<H as ContextWithValue<bool>>::Wrapped>>,
        cell: int,
    |
        0 <= cell < limit && #[trigger] names::<H>(address, cell) ==> H::takes(storage, address)
}

/// A store still has the cells that it had.
pub open spec fn keeps<H: ContextWithStorage<bool> + ?Sized>(
    before: &H::Storage,
    after: &H::Storage,
) -> bool {
    forall|address: Seq<StorageAddressBit<<H as ContextWithValue<bool>>::Wrapped>>|
        H::takes(before, address) ==> #[trigger] H::takes(after, address)
}

/// Read cell `bit`.
pub fn read_bit<H: ContextWithStorage<bool> + ?Sized>(
    t: &mut H,
    storage: &mut H::Storage,
    bit: usize,
    zero: &<H as ContextWithValue<bool>>::Wrapped,
    one: &<H as ContextWithValue<bool>>::Wrapped,
) -> (r: Result<<H as ContextWithValue<bool>>::Wrapped, H::Error>) where
    <H as ContextWithValue<bool>>::Wrapped: Clone,

    requires
        reachable::<H>(old(storage), bit + 1, *zero, *one),
    ensures
        keeps::<H>(old(storage), final(storage)),
        H::tracks() ==> {
            &&& H::cells(final(storage)) == H::cells(old(storage))
            &&& r matches Ok(w) ==> crate::context::bit::<H>(w) == H::cells(old(storage))[bit as int]
        },
        <H as ContextWithValue<bool>>::reliable() ==> r is Ok,
        r matches Err(error) ==> <H as ContextWithValue<bool>>::errs(error),
{
    let address = storage_address::<H>(bit, zero, one);
    assert(names::<H>(address@, bit as int));
    t.storage_read(storage, address.as_slice())
}

/// Write cell `bit`.
pub fn write_bit<H: ContextWithStorage<bool> + ?Sized>(
    t: &mut H,
    storage: &mut H::Storage,
    bit: usize,
    value: <H as ContextWithValue<bool>>::Wrapped,
    zero: &<H as ContextWithValue<bool>>::Wrapped,
    one: &<H as ContextWithValue<bool>>::Wrapped,
) -> (r: Result<(), H::Error>) where <H as ContextWithValue<bool>>::Wrapped: Clone
    requires
        reachable::<H>(old(storage), bit + 1, *zero, *one),
    ensures
        keeps::<H>(old(storage), final(storage)),
        H::tracks() ==> {
            &&& H::cells(final(storage)).len() == H::cells(old(storage)).len()
            &&& r is Ok ==> H::cells(final(storage)) == H::cells(old(storage)).update(
                bit as int,
                crate::context::bit::<H>(value),
            )
        },
        <H as ContextWithValue<bool>>::reliable() ==> r is Ok,
        r matches Err(error) ==> <H as ContextWithValue<bool>>::errs(error),
{
    let address = storage_address::<H>(bit, zero, one);
    assert(names::<H>(address@, bit as int));
    t.storage_write(storage, address.as_slice(), value)
}

/// Read `N` cells from `start` up as one word.
pub fn read_word<H: ContextWithStorage<bool> + ?Sized, const N: usize>(
    t: &mut H,
    storage: &mut H::Storage,
    start: usize,
    zero: &<H as ContextWithValue<bool>>::Wrapped,
    one: &<H as ContextWithValue<bool>>::Wrapped,
) -> (r: Result<[<H as ContextWithValue<bool>>::Wrapped; N], H::Error>) where
    <H as ContextWithValue<bool>>::Wrapped: Clone,

    requires
        start + N <= usize::MAX,
        reachable::<H>(old(storage), start + N, *zero, *one),
    ensures
        keeps::<H>(old(storage), final(storage)),
        H::tracks() ==> {
            &&& H::cells(final(storage)) == H::cells(old(storage))
            &&& r matches Ok(w) ==> crate::context::bits::<H>(w@) == H::cells(old(storage)).subrange(
                start as int,
                start + N,
            )
        },
        <H as ContextWithValue<bool>>::reliable() ==> r is Ok,
        r matches Err(error) ==> <H as ContextWithValue<bool>>::errs(error),
{
    let mut word = crate::word::fill::<<H as ContextWithValue<bool>>::Wrapped, N>(zero);
    let ghost cells = H::cells(storage);
    let mut i: usize = 0;
    while i < N
        invariant
            i <= N,
            start + N <= usize::MAX,
            reachable::<H>(storage, start + N, *zero, *one),
            keeps::<H>(old(storage), storage),
            cells == H::cells(old(storage)),
            H::tracks() ==> {
                &&& H::cells(storage) == cells
                &&& forall|j: int|
                    0 <= j < i ==> crate::context::bit::<H>(#[trigger] word@[j]) == cells[start + j]
            },
        decreases N - i,
    {
        word[i] = read_bit(t, storage, start + i, zero, one)?;
        i = i + 1;
    }
    proof {
        if H::tracks() {
            assert(crate::context::bits::<H>(word@) =~= cells.subrange(start as int, start + N));
        }
    }
    Ok(word)
}

/// The cells after a word is laid over them from `start` up.
pub open spec fn overwrite(cells: Seq<bool>, start: int, word: Seq<bool>) -> Seq<bool> {
    Seq::new(
        cells.len(),
        |i: int|
            if start <= i < start + word.len() {
                word[i - start]
            } else {
                cells[i]
            },
    )
}

/// Write the low `width` bits of a word to the cells from `start` up.
pub fn write_word<H: ContextWithStorage<bool> + ?Sized, const N: usize>(
    t: &mut H,
    storage: &mut H::Storage,
    start: usize,
    word: &[<H as ContextWithValue<bool>>::Wrapped; N],
    width: usize,
    zero: &<H as ContextWithValue<bool>>::Wrapped,
    one: &<H as ContextWithValue<bool>>::Wrapped,
) -> (r: Result<(), H::Error>) where <H as ContextWithValue<bool>>::Wrapped: Clone
    requires
        width <= N,
        start + width <= usize::MAX,
        reachable::<H>(old(storage), start + width, *zero, *one),
    ensures
        keeps::<H>(old(storage), final(storage)),
        H::tracks() ==> {
            &&& H::cells(final(storage)).len() == H::cells(old(storage)).len()
            &&& r is Ok ==> H::cells(final(storage)) == overwrite(
                H::cells(old(storage)),
                start as int,
                crate::context::bits::<H>(word@).take(width as int),
            )
        },
        <H as ContextWithValue<bool>>::reliable() ==> r is Ok,
        r matches Err(error) ==> <H as ContextWithValue<bool>>::errs(error),
{
    let ghost cells = H::cells(storage);
    let ghost bits = crate::context::bits::<H>(word@);
    let mut i: usize = 0;
    proof {
        if H::tracks() {
            assert(overwrite(cells, start as int, bits.take(0)) =~= cells);
        }
    }
    while i < width
        invariant
            i <= width <= N,
            start + width <= usize::MAX,
            bits == crate::context::bits::<H>(word@),
            reachable::<H>(storage, start + width, *zero, *one),
            keeps::<H>(old(storage), storage),
            cells == H::cells(old(storage)),
            H::tracks() ==> {
                &&& H::cells(storage).len() == cells.len()
                &&& H::cells(storage) == overwrite(cells, start as int, bits.take(i as int))
            },
        decreases width - i,
    {
        let wire = crate::context::keep::<H>(&word[i]);
        write_bit(t, storage, start + i, wire, zero, one)?;
        proof {
            if H::tracks() {
                assert(overwrite(cells, start as int, bits.take(i as int)).update(
                    start + i,
                    bits[i as int],
                ) =~= overwrite(cells, start as int, bits.take(i + 1)));
            }
        }
        i = i + 1;
    }
    Ok(())
}

/// A word written to the store is read back, and nothing outside it changes.
pub proof fn written_word_is_read_back(cells: Seq<bool>, start: int, word: Seq<bool>)
    requires
        0 <= start,
        start + word.len() <= cells.len(),
    ensures
        overwrite(cells, start, word).subrange(start, start + word.len()) == word,
        forall|i: int|
            0 <= i < cells.len() && !(start <= i < start + word.len()) ==> #[trigger] overwrite(
                cells,
                start,
                word,
            )[i] == cells[i],
{
    assert(overwrite(cells, start, word).subrange(start, start + word.len()) =~= word);
}

} // verus!
