//! Guest memory: a byte mapping whose base is guest address zero.
use vstd::prelude::*;

verus! {

/// Byte `i` of a little-endian word.
pub open spec fn le_byte(value: u32, i: int) -> u8 {
    if i == 0 {
        (value % 256) as u8
    } else if i == 1 {
        ((value / 256) % 256) as u8
    } else if i == 2 {
        ((value / 65536) % 256) as u8
    } else {
        (value / 16777216) as u8
    }
}

/// The four bytes of a word, least significant first.
pub open spec fn le_bytes(value: u32) -> Seq<u8> {
    Seq::new(4, |i: int| le_byte(value, i))
}

/// The number that bytes spell, least significant first.
pub open spec fn le_num(bytes: Seq<u8>) -> nat
    decreases bytes.len(),
{
    if bytes.len() == 0 {
        0
    } else {
        bytes[0] as nat + 256 * le_num(bytes.subrange(1, bytes.len() as int))
    }
}

/// Two bytes spell a halfword.
pub proof fn le_num_2(bytes: Seq<u8>)
    requires
        bytes.len() == 2,
    ensures
        le_num(bytes) == bytes[0] as nat + 256 * (bytes[1] as nat),
{
    let rest = bytes.subrange(1, 2);
    assert(rest.subrange(1, 1) =~= Seq::<u8>::empty());
    assert(le_num(rest) == rest[0] as nat + 256 * le_num(rest.subrange(1, 1)));
}

/// One byte spells itself.
pub proof fn le_num_1(bytes: Seq<u8>)
    requires
        bytes.len() == 1,
    ensures
        le_num(bytes) == bytes[0] as nat,
{
    assert(bytes.subrange(1, 1) =~= Seq::<u8>::empty());
    assert(le_num(bytes.subrange(1, 1)) == 0);
}

/// Four bytes spell a word.
pub proof fn le_num_4(bytes: Seq<u8>)
    requires
        bytes.len() == 4,
    ensures
        le_num(bytes) == bytes[0] as nat + 256 * (bytes[1] as nat) + 65536 * (bytes[2] as nat)
            + 16777216 * (bytes[3] as nat),
{
    let rest = bytes.subrange(1, 4);
    let tail = rest.subrange(1, 3);
    le_num_2(tail);
    assert(le_num(rest) == rest[0] as nat + 256 * le_num(tail));
}

/// The bytes of a word spell the word.
pub proof fn le_num_of_bytes(value: u32)
    ensures
        le_num(le_bytes(value)) == value,
{
    le_num_4(le_bytes(value));
}

/// A word read from four bytes.
pub fn word_from_bytes(bytes: [u8; 4]) -> (r: u32)
    ensures
        r == le_num(bytes@),
{
    proof {
        le_num_4(bytes@);
    }
    (bytes[0] as u32) + 256 * (bytes[1] as u32) + 65536 * (bytes[2] as u32) + 16777216 * (
    bytes[3] as u32)
}

/// The four bytes of a word.
pub fn bytes_from_word(value: u32) -> (r: [u8; 4])
    ensures
        r@ == le_bytes(value),
{
    word_overlay::<4>(value)
}

/// A halfword read from two bytes.
pub fn half_from_bytes(bytes: [u8; 2]) -> (r: u16)
    ensures
        r == le_num(bytes@),
{
    proof {
        le_num_2(bytes@);
    }
    (bytes[0] as u16) + 256 * (bytes[1] as u16)
}

/// A read-only byte mapping whose base is guest address zero, made with
/// [`RawMemory::from_slice`].
#[derive(Clone, Copy)]
pub struct RawMemory<'a> {
    pub bytes: &'a [u8],
    pub detect: Option<(u32, u32)>,
}

/// Whether a read meets the overlaid word.
pub open spec fn overlaid(detect: Option<(u32, u32)>, address: nat, n: nat) -> bool {
    match detect {
        Some((at, _)) => n == 4 && at == address,
        None => false,
    }
}

/// The overlaid word.
pub open spec fn overlay(detect: Option<(u32, u32)>) -> u32 {
    match detect {
        Some((_, value)) => value,
        None => 0,
    }
}

/// What a read of `n` bytes at `address` gives from `bytes`, with an optional
/// word laid over one address.
pub open spec fn read_bytes(
    bytes: Seq<u8>,
    detect: Option<(u32, u32)>,
    address: nat,
    n: nat,
) -> Option<Seq<u8>> {
    if n == 0 {
        None
    } else if overlaid(detect, address, n) {
        Some(le_bytes(overlay(detect)))
    } else if address + n <= bytes.len() {
        Some(bytes.subrange(address as int, (address + n) as int))
    } else {
        None
    }
}

impl<'a> RawMemory<'a> {
    /// The mapped bytes.
    pub open spec fn bytes(&self) -> Seq<u8> {
        self.bytes@
    }

    /// The overlaid word, and where it lies.
    pub open spec fn detect(&self) -> Option<(u32, u32)> {
        self.detect
    }

    /// What a read at a 32-bit address gives. The last byte must have a
    /// 32-bit address too.
    pub open spec fn reads(&self, address: u32, n: nat) -> Option<Seq<u8>> {
        if n == 0 || address + n - 1 > u32::MAX {
            None
        } else {
            read_bytes(self.bytes(), self.detect(), address as nat, n)
        }
    }

    /// What a read at a 64-bit address gives.
    pub open spec fn reads64(&self, address: u64, n: nat) -> Option<Seq<u8>> {
        if n == 0 || address + n - 1 > u64::MAX {
            None
        } else {
            read_bytes(self.bytes(), self.detect(), address as nat, n)
        }
    }

    /// Borrow `memory` as a bounded mapping rooted at guest address zero.
    pub fn from_slice(memory: &'a [u8]) -> (r: Self)
        ensures
            r == (RawMemory { bytes: memory, detect: None }),
    {
        RawMemory { bytes: memory, detect: None }
    }

    /// Borrow `memory` as a bounded mapping that can be written.
    pub fn from_mut_slice(memory: &'a mut [u8]) -> (r: RawMemoryMut<'a>)
        ensures
            r.bytes() == old(memory)@,
    {
        RawMemoryMut { bytes: memory }
    }

    /// Overlay a 4-byte little-endian word read at `address` with `value`, in
    /// place of the underlying backing bytes. This lets guest code that reads
    /// its real (e.g. zero-initialized) value when run natively detect
    /// whether it is running under this interpreter instead.
    pub fn with_ert_detect(self, address: u32, value: u32) -> (r: Self)
        ensures
            r.bytes() == self.bytes(),
            r.detect() == Some((address, value)),
    {
        RawMemory { bytes: self.bytes, detect: Some((address, value)) }
    }

    /// Read a fixed number of bytes, rejecting an overflowing or out-of-range
    /// address.
    pub fn read<const N: usize>(&self, address: u32) -> (r: Option<[u8; N]>)
        ensures
            r is Some == self.reads(address, N as nat) is Some,
            r matches Some(b) ==> Some(b@) == self.reads(address, N as nat),
    {
        if N == 0 || N - 1 > (u32::MAX - address) as usize {
            return None;
        }
        self.read64::<N>(address as u64)
    }

    /// Read a fixed number of bytes at a 64-bit address.
    pub fn read64<const N: usize>(&self, address: u64) -> (r: Option<[u8; N]>)
        ensures
            r is Some == self.reads64(address, N as nat) is Some,
            r matches Some(b) ==> Some(b@) == self.reads64(address, N as nat),
    {
        if N == 0 {
            return None;
        }
        if N == 4 {
            if let Some((at, value)) = self.detect {
                if address == at as u64 {
                    if 3 > u64::MAX - address {
                        return None;
                    }
                    let r = word_overlay::<N>(value);
                    return Some(r);
                }
            }
        }
        let len: usize = self.bytes.len();
        assert(len == self.bytes@.len());
        read_slice::<N>(self.bytes, address)
    }
}

impl<'a> From<&'a [u8]> for RawMemory<'a> {
    fn from(memory: &'a [u8]) -> (r: Self) {
        RawMemory::from_slice(memory)
    }
}

impl<'a> vstd::std_specs::convert::FromSpecImpl<&'a [u8]> for RawMemory<'a> {
    open spec fn obeys_from_spec() -> bool {
        true
    }

    open spec fn from_spec(memory: &'a [u8]) -> Self {
        RawMemory { bytes: memory, detect: None }
    }
}

fn word_overlay<const N: usize>(value: u32) -> (r: [u8; N])
    requires
        N == 4,
    ensures
        r@ == le_bytes(value),
{
    let mut r = [0u8; N];
    r[0] = (value % 256) as u8;
    r[1] = ((value / 256) % 256) as u8;
    r[2] = ((value / 65536) % 256) as u8;
    r[3] = (value / 16777216) as u8;
    assert(r@ =~= le_bytes(value));
    r
}

fn read_slice<const N: usize>(bytes: &[u8], address: u64) -> (r: Option<[u8; N]>)
    requires
        N > 0,
    ensures
        r is Some == (address + N <= bytes@.len()),
        r matches Some(b) ==> b@ == bytes@.subrange(address as int, address + N),
{
    let len: usize = bytes.len();
    if address > len as u64 || N > len - address as usize {
        return None;
    }
    let start: usize = address as usize;
    let mut r = [0u8; N];
    let mut i: usize = 0;
    while i < N
        invariant
            i <= N,
            len == bytes@.len(),
            start + N <= len,
            forall|j: int| 0 <= j < i ==> r@[j] == bytes@[start + j],
        decreases N - i,
    {
        r[i] = bytes[start + i];
        i = i + 1;
    }
    assert(r@ =~= bytes@.subrange(start as int, start + N));
    Some(r)
}

/// A writable byte mapping whose base is guest address zero.
pub struct RawMemoryMut<'a> {
    bytes: &'a mut [u8],
}

impl<'a> RawMemoryMut<'a> {
    /// The mapped bytes.
    pub closed spec fn bytes(&self) -> Seq<u8> {
        self.bytes@
    }

    /// Read a fixed number of bytes.
    pub fn read64<const N: usize>(&self, address: u64) -> (r: Option<[u8; N]>)
        ensures
            r is Some == (N > 0 && address + N <= self.bytes().len()),
            r matches Some(b) ==> b@ == self.bytes().subrange(address as int, address + N),
    {
        if N == 0 {
            return None;
        }
        read_slice::<N>(&*self.bytes, address)
    }

    /// Write bytes, rejecting an out-of-range address before any byte is
    /// changed.
    pub fn write64(&mut self, address: u64, data: &[u8]) -> (r: Option<()>)
        ensures
            r is Some == (address + data@.len() <= old(self).bytes().len()),
            final(self).bytes().len() == old(self).bytes().len(),
            r is None ==> final(self).bytes() == old(self).bytes(),
            r is Some ==> final(self).bytes() == Seq::new(
                old(self).bytes().len(),
                |i: int|
                    if address <= i < address + data@.len() {
                        data@[i - address]
                    } else {
                        old(self).bytes()[i]
                    },
            ),
    {
        let ghost before = self.bytes@;
        let len: usize = self.bytes.len();
        if address > len as u64 || data.len() > len - address as usize {
            return None;
        }
        let start: usize = address as usize;
        let mut i: usize = 0;
        while i < data.len()
            invariant
                i <= data@.len(),
                len == before.len(),
                start + data@.len() <= len,
                self.bytes@.len() == before.len(),
                forall|j: int|
                    0 <= j < before.len() ==> self.bytes@[j] == if start <= j < start + i {
                        data@[j - start]
                    } else {
                        before[j]
                    },
            decreases data@.len() - i,
        {
            self.bytes[start + i] = data[i];
            i = i + 1;
        }
        assert(self.bytes@ =~= Seq::new(
            before.len(),
            |i: int|
                if address <= i < address + data@.len() {
                    data@[i - address]
                } else {
                    before[i]
                },
        ));
        Some(())
    }
}

/// A write in range is read back: what [`RawMemoryMut::write64`] leaves at an
/// address is what [`RawMemoryMut::read64`] then finds there, and every byte
/// outside the written range is unchanged.
pub proof fn write_then_read(before: Seq<u8>, address: int, data: Seq<u8>, after: Seq<u8>)
    requires
        0 <= address,
        address + data.len() <= before.len(),
        after == Seq::new(
            before.len(),
            |i: int|
                if address <= i < address + data.len() {
                    data[i - address]
                } else {
                    before[i]
                },
        ),
    ensures
        after.subrange(address, address + data.len()) == data,
        after.subrange(0, address) == before.subrange(0, address),
        after.subrange(address + data.len(), before.len() as int) == before.subrange(
            address + data.len(),
            before.len() as int,
        ),
{
    assert(after.subrange(address, address + data.len()) =~= data);
    assert(after.subrange(0, address) =~= before.subrange(0, address));
    assert(after.subrange(address + data.len(), before.len() as int) =~= before.subrange(
        address + data.len(),
        before.len() as int,
    ));
}

/// A number below `256^n`.
pub open spec fn byte_power(n: nat) -> nat
    decreases n,
{
    if n == 0 {
        1
    } else {
        256 * byte_power((n - 1) as nat)
    }
}

pub proof fn byte_powers()
    ensures
        byte_power(0) == 1,
        byte_power(1) == 0x100,
        byte_power(2) == 0x1_0000,
        byte_power(3) == 0x100_0000,
        byte_power(4) == 0x1_0000_0000,
        byte_power(5) == 0x100_0000_0000,
        byte_power(6) == 0x1_0000_0000_0000,
        byte_power(7) == 0x100_0000_0000_0000,
        byte_power(8) == 0x1_0000_0000_0000_0000,
{
    reveal_with_fuel(byte_power, 9);
}

/// `n` bytes spell a number below `256^n`.
pub proof fn le_num_bound(bytes: Seq<u8>)
    ensures
        le_num(bytes) < byte_power(bytes.len()),
    decreases bytes.len(),
{
    if bytes.len() > 0 {
        le_num_bound(bytes.subrange(1, bytes.len() as int));
    }
}

/// The number that `n` bytes from `start` up spell.
pub fn number_from_bytes(bytes: &[u8], start: usize, n: usize) -> (r: u64)
    requires
        n <= 8,
        start + n <= bytes@.len(),
    ensures
        r == le_num(bytes@.subrange(start as int, start + n)),
{
    let mut r: u64 = 0;
    let mut i: usize = n;
    let len: usize = bytes.len();
    let ghost part = bytes@.subrange(start as int, start + n);
    proof {
        assert(part.subrange(n as int, n as int) =~= Seq::<u8>::empty());
        assert(le_num(part.subrange(n as int, n as int)) == 0);
    }
    while i > 0
        invariant
            i <= n <= 8,
            len == bytes@.len(),
            start + n <= len,
            part == bytes@.subrange(start as int, start + n),
            r == le_num(part.subrange(i as int, n as int)),
        decreases i,
    {
        proof {
            byte_powers();
            le_num_bound(part.subrange(i as int, n as int));
            let more = part.subrange(i - 1, n as int);
            assert(more.subrange(1, more.len() as int) =~= part.subrange(i as int, n as int));
            le_num_bound(more);
            assert(n - i == 0 || n - i == 1 || n - i == 2 || n - i == 3 || n - i == 4 || n - i == 5
                || n - i == 6 || n - i == 7);
        }
        i = i - 1;
        r = r * 256 + bytes[start + i] as u64;
    }
    proof {
        assert(part.subrange(0, n as int) =~= part);
    }
    r
}

} // verus!
