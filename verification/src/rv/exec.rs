//! What each operation does to the register file and the virtual stack.
use crate::context::{keep, ContextWithValue};
use crate::memory::{number_from_bytes, RawMemory};
use crate::rv::handler::RvHandler;
use crate::rv::machine::{emitted, ErtError, Frame, Hart, Machine};
use crate::storage;
use crate::wide::{extend_value, fold, shift_value, to_pattern, to_signed, truncate};
use crate::word::{add_bits, bitwise_word, invert_word, partial_bitwise_word, BitOp, Shift};
use vstd::prelude::*;

verus! {

/// Where an access goes.
pub enum Place {
    /// The virtual stack, at this byte.
    Stack(u64),
    /// The image, at this byte.
    Image(u64),
    /// An address that is neither.
    Unknown,
}

impl Hart {
    /// The place that an access through a register reaches.
    pub open spec fn place(self, base: int, offset: i64, bits: nat) -> Place {
        match self.offs[base] {
            Some(o) => Place::Stack(
                crate::wide::low(
                    crate::rv::machine::at(self.sp, o.wrapping_add(offset)),
                    bits,
                ),
            ),
            None => match self.value(base) {
                Some(c) => Place::Image(crate::wide::low(crate::rv::machine::at(c, offset), bits)),
                None => Place::Unknown,
            },
        }
    }

    /// `LUI` and `AUIPC`.
    pub open spec fn upper(
        self,
        dest: int,
        value: i64,
        pc_relative: bool,
        bits: nat,
    ) -> Option<Hart> {
        let full = if pc_relative {
            crate::rv::machine::at(self.pc, value)
        } else {
            crate::wide::pattern(value)
        };
        Some(self.write(dest, crate::rv::machine::spelled(full, bits), true, None))
    }

    /// `ADDI`. To the stack pointer's register it moves the stack pointer by the
    /// immediate, whatever the source.
    pub open spec fn add_immediate(self, dest: int, src: int, imm: i64, bits: nat) -> Option<Hart> {
        if dest == 2 {
            Some(
                self.adjust_sp(
                    crate::wide::low(crate::rv::machine::at(self.sp, imm), bits),
                    bits,
                ),
            )
        } else {
            Some(self.write(
                dest,
                crate::bits::add_of(
                    self.regs[src],
                    crate::rv::machine::spelled(crate::wide::pattern(imm), bits),
                    false,
                ),
                self.known[src],
                match self.offs[src] {
                    Some(o) => Some(o.wrapping_add(imm)),
                    None => None,
                },
            ))
        }
    }

    /// The stack distance of a sum: one operand is a stack address, the other
    /// a number that the host knows.
    pub open spec fn sum_offset(self, left: int, right: int) -> Option<i64> {
        match (self.value(left), self.offs[right]) {
            (Some(c), Some(o)) => Some(o.wrapping_add(crate::wide::signed_of(c))),
            _ => match (self.value(right), self.offs[left]) {
                (Some(c), Some(o)) => Some(o.wrapping_add(crate::wide::signed_of(c))),
                _ => None,
            },
        }
    }

    /// `ADD`.
    pub open spec fn add(self, dest: int, left: int, right: int, bits: nat) -> Option<Hart> {
        Some(self.write(
            dest,
            crate::bits::add_of(self.regs[left], self.regs[right], false),
            self.known[left] && self.known[right],
            self.sum_offset(left, right),
        ))
    }

    /// `SUB`. The distance of two stack addresses is known.
    pub open spec fn subtract(self, dest: int, left: int, right: int, bits: nat) -> Option<Hart> {
        Some(self.write(
            dest,
            crate::bits::sub_of(self.regs[left], self.regs[right]),
            (self.offs[left] is Some && self.offs[right] is Some) || (self.known[left]
                && self.known[right]),
            match (self.value(right), self.offs[left]) {
                (Some(c), Some(o)) => Some(o.wrapping_sub(crate::wide::signed_of(c))),
                _ => None,
            },
        ))
    }

    /// `AND`, `OR` and `XOR`.
    pub open spec fn bitwise(
        self,
        operation: BitOp,
        dest: int,
        left: int,
        right: int,
        bits: nat,
    ) -> Option<Hart> {
        Some(self.write(
            dest,
            crate::word::bitwise_bits(operation, self.regs[left], self.regs[right]),
            self.known[left] && self.known[right],
            None,
        ))
    }

    /// `ANDI`, `ORI` and `XORI`.
    pub open spec fn bitwise_immediate(
        self,
        operation: BitOp,
        dest: int,
        src: int,
        imm: i64,
        bits: nat,
    ) -> Option<Hart> {
        Some(self.write(
            dest,
            crate::word::bitwise_bits(
                operation,
                crate::rv::machine::spelled(crate::wide::pattern(imm), bits),
                self.regs[src],
            ),
            self.known[src],
            None,
        ))
    }

    /// `SLLI`, `SRLI` and `SRAI`.
    pub open spec fn shift(
        self,
        direction: Shift,
        dest: int,
        src: int,
        amount: i64,
        bits: nat,
    ) -> Option<Hart> {
        Some(self.write(
            dest,
            crate::word::shift_bits(self.regs[src], (amount as int % bits as int) as nat, direction),
            self.known[src],
            None,
        ))
    }

    /// A load. From the image the host knows what it loads.
    pub open spec fn load(
        self,
        cells: Seq<bool>,
        frame: Frame<'_>,
        dest: int,
        base: int,
        offset: i64,
        width: nat,
        signed: bool,
    ) -> Option<Hart> {
        if width > frame.bits {
            None
        } else {
            match self.place(base, offset, frame.bits) {
                Place::Stack(address) => match stack_range(address, width, frame.storage_bits) {
                    Some(start) => Some(self.write(
                        dest,
                        crate::wide::extended(
                            cells.subrange(start, start + width),
                            frame.bits,
                            signed,
                        ),
                        false,
                        None,
                    )),
                    None => None,
                },
                Place::Image(address) => match frame.mem.reads64(address, width / 8) {
                    Some(bytes) => Some(self.write(
                        dest,
                        crate::wide::extended(
                            crate::bits::bits_of(crate::memory::le_num(bytes), width),
                            frame.bits,
                            signed,
                        ),
                        true,
                        None,
                    )),
                    None => None,
                },
                Place::Unknown => None,
            }
        }
    }

    /// The cells after a store, where it is one to the virtual stack.
    pub open spec fn store(
        self,
        cells: Seq<bool>,
        frame: Frame<'_>,
        src: int,
        base: int,
        offset: i64,
        width: nat,
    ) -> Option<Seq<bool>> {
        if width > frame.bits {
            None
        } else {
            match self.place(base, offset, frame.bits) {
                Place::Stack(address) => match stack_range(address, width, frame.storage_bits) {
                    Some(start) => Some(
                        if frame.active {
                            storage::overwrite(cells, start, self.regs[src].take(width as int))
                        } else {
                            cells
                        },
                    ),
                    None => None,
                },
                _ => None,
            }
        }
    }
}

/// Where an access of `width` bits at a byte of the virtual stack starts, when
/// it lies in the store.
pub open spec fn stack_range(address: u64, width: nat, storage_bits: int) -> Option<int> {
    if 8 * address + width <= storage_bits {
        Some(8 * address as int)
    } else {
        None
    }
}

fn stack_bits(address: u64, width: usize, storage_bits: usize) -> (r: Option<usize>)
    ensures
        match r {
            Some(start) => stack_range(address, width as nat, storage_bits as int) == Some(
                start as int,
            ),
            None => stack_range(address, width as nat, storage_bits as int) is None,
        },
{
    if address > (storage_bits / 8) as u64 {
        return None;
    }
    let start: usize = address as usize * 8;
    if width > storage_bits - start {
        return None;
    }
    Some(start)
}

/// An access through a register that holds a stack address reaches the
/// address that its wires spell, moved by the offset.
pub proof fn stack_place_is_effective(h: Hart, base: int, offset: i64, bits: nat)
    requires
        bits == 32 || bits == 64,
        h.offs[base] matches Some(o) && h.regs[base] == crate::rv::machine::spelled(
            crate::rv::machine::at(h.sp, o),
            bits,
        ),
    ensures
        h.place(base, offset, bits) matches Place::Stack(address) && address == (crate::bits::num(
            h.regs[base],
        ) + offset) % (vstd::arithmetic::power2::pow2(bits) as int),
{
    let o = h.offs[base]->0;
    let start = crate::rv::machine::at(h.sp, o);
    let address = crate::rv::machine::at(h.sp, o.wrapping_add(offset));
    vstd::arithmetic::power2::lemma2_to64();
    crate::wide::low_spells(start, bits);
    assert(address == (start + offset) % 0x1_0000_0000_0000_0000);
    if bits == 32 {
        vstd::arithmetic::div_mod::lemma_mod_mod(
            start + offset,
            0x1_0000_0000,
            0x1_0000_0000,
        );
        vstd::arithmetic::div_mod::lemma_add_mod_noop(start as int, offset as int, 0x1_0000_0000);
        vstd::arithmetic::div_mod::lemma_add_mod_noop(
            start as int % 0x1_0000_0000,
            offset as int,
            0x1_0000_0000,
        );
        vstd::arithmetic::div_mod::lemma_mod_twice(start as int, 0x1_0000_0000);
    }
}

/// What an operation on registers did.
pub open spec fn computed<H: crate::word::ContextWithErtOps<bool> + ?Sized, const BITS: usize>(
    after: Machine<'_, H::Wrapped, BITS>,
    r: Result<(), ErtError<H::Error>>,
    expected: Option<Hart>,
) -> bool where H::Wrapped: Clone {
    match r {
        Ok(_) => crate::rv::machine::live::<H, BITS>(after) && expected == Some(
            crate::rv::machine::hart::<H, BITS>(after),
        ),
        Err(ErtError::Unexpected) => expected is None,
        Err(ErtError::Emitted(error)) => !crate::context::reliable::<H>()
            && crate::context::erred::<H>(error),
        Err(ErtError::Decode(_)) => false,
    }
}

/// The sum of a known number and a stack address is a stack address.
proof fn offset_sum(sp: u64, o: i64, c: u64, n: nat)
    requires
        n == 32 || n == 64,
    ensures
        crate::rv::machine::spelled(
            crate::rv::machine::at(sp, o.wrapping_add(crate::wide::signed_of(c))),
            n,
        ) == crate::bits::add_of(
            crate::rv::machine::spelled(c, n),
            crate::rv::machine::spelled(crate::rv::machine::at(sp, o), n),
            false,
        ),
        crate::rv::machine::spelled(
            crate::rv::machine::at(sp, o.wrapping_add(crate::wide::signed_of(c))),
            n,
        ) == crate::bits::add_of(
            crate::rv::machine::spelled(crate::rv::machine::at(sp, o), n),
            crate::rv::machine::spelled(c, n),
            false,
        ),
{
    let base = crate::rv::machine::at(sp, o);
    crate::wide::wrapping_sum_bits(c, base, n);
    crate::wide::wrapping_sum_bits(base, c, n);
    assert(crate::rv::machine::at(sp, o.wrapping_add(crate::wide::signed_of(c)))
        == base.wrapping_add(c));
}

/// A stack address moved by an immediate.
proof fn offset_immediate(sp: u64, o: i64, imm: i64, n: nat)
    requires
        n == 32 || n == 64,
    ensures
        crate::rv::machine::spelled(crate::rv::machine::at(sp, o.wrapping_add(imm)), n)
            == crate::bits::add_of(
            crate::rv::machine::spelled(crate::rv::machine::at(sp, o), n),
            crate::rv::machine::spelled(crate::wide::pattern(imm), n),
            false,
        ),
{
    let base = crate::rv::machine::at(sp, o);
    crate::wide::wrapping_sum_bits(base, crate::wide::pattern(imm), n);
    assert(crate::rv::machine::at(sp, o.wrapping_add(imm)) == base.wrapping_add(
        crate::wide::pattern(imm),
    ));
}

/// A stack address less a known number is a stack address, and the difference
/// of two is a known number.
proof fn offset_difference(sp: u64, o: i64, c: u64, p: i64, n: nat)
    requires
        n == 32 || n == 64,
    ensures
        crate::rv::machine::spelled(
            crate::rv::machine::at(sp, o.wrapping_sub(crate::wide::signed_of(c))),
            n,
        ) == crate::bits::sub_of(
            crate::rv::machine::spelled(crate::rv::machine::at(sp, o), n),
            crate::rv::machine::spelled(c, n),
        ),
        crate::rv::machine::spelled(crate::wide::pattern(o.wrapping_sub(p)), n)
            == crate::bits::sub_of(
            crate::rv::machine::spelled(crate::rv::machine::at(sp, o), n),
            crate::rv::machine::spelled(crate::rv::machine::at(sp, p), n),
        ),
{
    let base = crate::rv::machine::at(sp, o);
    let other = crate::rv::machine::at(sp, p);
    crate::wide::wrapping_difference_bits(base, c, n);
    crate::wide::wrapping_difference_bits(base, other, n);
    assert(crate::rv::machine::at(sp, o.wrapping_sub(crate::wide::signed_of(c)))
        == base.wrapping_sub(c));
    assert(crate::wide::pattern(o.wrapping_sub(p)) == base.wrapping_sub(other));
}

/// Read a number of `width` bits from the image.
fn load_number(mem: &RawMemory<'_>, address: u64, width: usize) -> (r: Option<u64>)
    requires
        width == 8 || width == 16 || width == 32 || width == 64,
    ensures
        match mem.reads64(address, width as nat / 8) {
            Some(bytes) => r == Some(crate::memory::le_num(bytes) as u64) && crate::memory::le_num(
                bytes,
            ) < vstd::arithmetic::power2::pow2(width as nat),
            None => r is None,
        },
{
    proof {
        vstd::arithmetic::power2::lemma2_to64();
        vstd::arithmetic::power2::lemma2_to64_rest();
        crate::memory::byte_powers();
        if let Some(bytes) = mem.reads64(address, width as nat / 8) {
            crate::memory::le_num_bound(bytes);
        }
    }
    if width == 8 {
        match mem.read64::<1>(address) {
            Some(bytes) => Some(whole::<1>(&bytes)),
            None => None,
        }
    } else if width == 16 {
        match mem.read64::<2>(address) {
            Some(bytes) => Some(whole::<2>(&bytes)),
            None => None,
        }
    } else if width == 32 {
        match mem.read64::<4>(address) {
            Some(bytes) => Some(whole::<4>(&bytes)),
            None => None,
        }
    } else {
        match mem.read64::<8>(address) {
            Some(bytes) => Some(whole::<8>(&bytes)),
            None => None,
        }
    }
}

/// The number of a few bytes.
fn whole<const N: usize>(bytes: &[u8; N]) -> (r: u64)
    requires
        N <= 8,
    ensures
        r == crate::memory::le_num(bytes@),
{
    let r: u64 = number_from_bytes(bytes, 0, N);
    assert(bytes@.subrange(0, N as int) =~= bytes@);
    r
}

impl<'m, W: Clone, const BITS: usize> Machine<'m, W, BITS> {
    /// `LUI` and `AUIPC`.
    pub fn upper<H>(&mut self, dest: u8, value: i64, pc_relative: bool) -> (r: Result<
        (),
        ErtError<H::Error>,
    >) where H: RvHandler<bool, BITS> + ContextWithValue<bool, Wrapped = W> + ?Sized
        requires
            dest < 32,
            crate::rv::machine::bounded(*old(self)),
        ensures
            crate::rv::machine::framed(*old(self), *final(self)),
            final(self).pc == old(self).pc,
            crate::rv::machine::live::<H, BITS>(*old(self)) ==> computed::<H, BITS>(
                *final(self),
                r,
                crate::rv::machine::hart::<H, BITS>(*old(self)).upper(
                    dest as int,
                    value,
                    pc_relative,
                    BITS as nat,
                ),
            ),
    {
        let full: u64 = if pc_relative {
            self.pc.wrapping_add(to_pattern(value))
        } else {
            to_pattern(value)
        };
        proof {
            crate::wide::low_spells(full, BITS as nat);
        }
        let word = self.word_from_constant::<H>(full);
        let known: u64 = truncate::<BITS>(full);
        self.write::<H>(dest, word, Some(known), None);
        Ok(())
    }

    /// `ADDI`.
    pub fn add_immediate<H>(&mut self, h: &mut H, dest: u8, src: u8, imm: i64) -> (r: Result<
        (),
        ErtError<H::Error>,
    >) where H: RvHandler<bool, BITS> + ContextWithValue<bool, Wrapped = W> + ?Sized
        requires
            dest < 32,
            src < 32,
            crate::rv::machine::bounded(*old(self)),
        ensures
            crate::rv::machine::framed(*old(self), *final(self)),
            final(self).pc == old(self).pc,
            crate::rv::machine::live::<H, BITS>(*old(self)) ==> computed::<H, BITS>(
                *final(self),
                r,
                crate::rv::machine::hart::<H, BITS>(*old(self)).add_immediate(
                    dest as int,
                    src as int,
                    imm,
                    BITS as nat,
                ),
            ),
    {
        let addend: u64 = to_pattern(imm);
        let operand = self.word_from_constant::<H>(addend);
        let carry = keep::<H>(&self.zero);
        let word = emitted(add_bits(h, &self.regs[src as usize], &operand, carry))?;
        let value = match self.constants[src as usize] {
            Some(known) => {
                proof {
                    crate::wide::wrapping_sum_bits(known, addend, BITS as nat);
                    crate::wide::low_spells(known.wrapping_add(addend), BITS as nat);
                }
                Some(truncate::<BITS>(known.wrapping_add(addend)))
            },
            None => None,
        };
        let offset = match self.offs[src as usize] {
            Some(o) => {
                proof {
                    offset_immediate(self.sp, o, imm, BITS as nat);
                }
                Some(o.wrapping_add(imm))
            },
            None => None,
        };
        if dest == 2 {
            self.adjust_sp::<H>(imm);
        } else {
            self.write::<H>(dest, word, value, offset);
        }
        Ok(())
    }

    /// `ADD`.
    pub fn add<H>(&mut self, h: &mut H, dest: u8, left: u8, right: u8) -> (r: Result<
        (),
        ErtError<H::Error>,
    >) where H: RvHandler<bool, BITS> + ContextWithValue<bool, Wrapped = W> + ?Sized
        requires
            dest < 32,
            left < 32,
            right < 32,
            crate::rv::machine::bounded(*old(self)),
        ensures
            crate::rv::machine::framed(*old(self), *final(self)),
            final(self).pc == old(self).pc,
            crate::rv::machine::live::<H, BITS>(*old(self)) ==> computed::<H, BITS>(
                *final(self),
                r,
                crate::rv::machine::hart::<H, BITS>(*old(self)).add(
                    dest as int,
                    left as int,
                    right as int,
                    BITS as nat,
                ),
            ),
    {
        proof {
            if crate::rv::machine::live::<H, BITS>(*self) {
                self.known_value::<H>(left as int);
                self.known_value::<H>(right as int);
            }
        }
        let carry = keep::<H>(&self.zero);
        let word = emitted(
            add_bits(h, &self.regs[left as usize], &self.regs[right as usize], carry),
        )?;
        let value = match (self.constants[left as usize], self.constants[right as usize]) {
            (Some(a), Some(b)) => {
                proof {
                    crate::wide::wrapping_sum_bits(a, b, BITS as nat);
                    crate::wide::low_spells(a.wrapping_add(b), BITS as nat);
                }
                Some(truncate::<BITS>(a.wrapping_add(b)))
            },
            _ => None,
        };
        let offset = match (self.constants[left as usize], self.offs[right as usize]) {
            (Some(c), Some(o)) => {
                proof {
                    offset_sum(self.sp, o, c, BITS as nat);
                }
                Some(o.wrapping_add(to_signed(c)))
            },
            _ => match (self.constants[right as usize], self.offs[left as usize]) {
                (Some(c), Some(o)) => {
                    proof {
                        offset_sum(self.sp, o, c, BITS as nat);
                    }
                    Some(o.wrapping_add(to_signed(c)))
                },
                _ => None,
            },
        };
        self.write::<H>(dest, word, value, offset);
        Ok(())
    }

    /// `SUB`.
    pub fn subtract<H>(&mut self, h: &mut H, dest: u8, left: u8, right: u8) -> (r: Result<
        (),
        ErtError<H::Error>,
    >) where H: RvHandler<bool, BITS> + ContextWithValue<bool, Wrapped = W> + ?Sized
        requires
            dest < 32,
            left < 32,
            right < 32,
            crate::rv::machine::bounded(*old(self)),
        ensures
            crate::rv::machine::framed(*old(self), *final(self)),
            final(self).pc == old(self).pc,
            crate::rv::machine::live::<H, BITS>(*old(self)) ==> computed::<H, BITS>(
                *final(self),
                r,
                crate::rv::machine::hart::<H, BITS>(*old(self)).subtract(
                    dest as int,
                    left as int,
                    right as int,
                    BITS as nat,
                ),
            ),
    {
        proof {
            if crate::rv::machine::live::<H, BITS>(*self) {
                self.known_value::<H>(left as int);
                self.known_value::<H>(right as int);
            }
        }
        let inverted = emitted(
            invert_word(h, &self.regs[right as usize], keep::<H>(&self.one)),
        )?;
        let carry = keep::<H>(&self.one);
        let word = emitted(add_bits(h, &self.regs[left as usize], &inverted, carry))?;
        let value = match (self.offs[left as usize], self.offs[right as usize]) {
            (Some(a), Some(b)) => {
                proof {
                    offset_difference(self.sp, a, 0, b, BITS as nat);
                    crate::wide::low_spells(
                        crate::wide::pattern(a.wrapping_sub(b)),
                        BITS as nat,
                    );
                }
                Some(truncate::<BITS>(to_pattern(a.wrapping_sub(b))))
            },
            _ => match (self.constants[left as usize], self.constants[right as usize]) {
                (Some(a), Some(b)) => {
                    proof {
                        crate::wide::wrapping_difference_bits(a, b, BITS as nat);
                        crate::wide::low_spells(a.wrapping_sub(b), BITS as nat);
                    }
                    Some(truncate::<BITS>(a.wrapping_sub(b)))
                },
                _ => None,
            },
        };
        let offset = match (self.constants[right as usize], self.offs[left as usize]) {
            (Some(c), Some(o)) => {
                proof {
                    offset_difference(self.sp, o, c, 0, BITS as nat);
                }
                Some(o.wrapping_sub(to_signed(c)))
            },
            _ => None,
        };
        self.write::<H>(dest, word, value, offset);
        Ok(())
    }

    /// `AND`, `OR` and `XOR`.
    pub fn bitwise<H>(
        &mut self,
        h: &mut H,
        operation: BitOp,
        dest: u8,
        left: u8,
        right: u8,
    ) -> (r: Result<(), ErtError<H::Error>>) where
        H: RvHandler<bool, BITS> + ContextWithValue<bool, Wrapped = W> + ?Sized,

        requires
            dest < 32,
            left < 32,
            right < 32,
            crate::rv::machine::bounded(*old(self)),
        ensures
            crate::rv::machine::framed(*old(self), *final(self)),
            final(self).pc == old(self).pc,
            crate::rv::machine::live::<H, BITS>(*old(self)) ==> computed::<H, BITS>(
                *final(self),
                r,
                crate::rv::machine::hart::<H, BITS>(*old(self)).bitwise(
                    operation,
                    dest as int,
                    left as int,
                    right as int,
                    BITS as nat,
                ),
            ),
    {
        let word = emitted(
            bitwise_word(h, &self.regs[left as usize], &self.regs[right as usize], operation),
        )?;
        let value = match (self.constants[left as usize], self.constants[right as usize]) {
            (Some(a), Some(b)) => {
                proof {
                    crate::wide::fold_bits(operation, a, b, BITS as nat);
                    crate::wide::low_spells(
                        crate::wide::fold_value(operation, a, b),
                        BITS as nat,
                    );
                }
                Some(truncate::<BITS>(fold(operation, a, b)))
            },
            _ => None,
        };
        self.write::<H>(dest, word, value, None);
        Ok(())
    }

    /// `ANDI`, `ORI` and `XORI`.
    pub fn bitwise_immediate<H>(
        &mut self,
        h: &mut H,
        operation: BitOp,
        dest: u8,
        src: u8,
        imm: i64,
    ) -> (r: Result<(), ErtError<H::Error>>) where
        H: RvHandler<bool, BITS> + ContextWithValue<bool, Wrapped = W> + ?Sized,

        requires
            dest < 32,
            src < 32,
            crate::rv::machine::bounded(*old(self)),
        ensures
            crate::rv::machine::framed(*old(self), *final(self)),
            final(self).pc == old(self).pc,
            crate::rv::machine::live::<H, BITS>(*old(self)) ==> computed::<H, BITS>(
                *final(self),
                r,
                crate::rv::machine::hart::<H, BITS>(*old(self)).bitwise_immediate(
                    operation,
                    dest as int,
                    src as int,
                    imm,
                    BITS as nat,
                ),
            ),
    {
        let mask: u64 = to_pattern(imm);
        let word = emitted(
            partial_bitwise_word(
                h,
                mask,
                &self.regs[src as usize],
                &self.zero,
                &self.one,
                operation,
            ),
        )?;
        let value = match self.constants[src as usize] {
            Some(known) => {
                proof {
                    crate::wide::fold_bits(operation, mask, known, BITS as nat);
                    crate::wide::low_spells(
                        crate::wide::fold_value(operation, mask, known),
                        BITS as nat,
                    );
                }
                Some(truncate::<BITS>(fold(operation, mask, known)))
            },
            None => None,
        };
        self.write::<H>(dest, word, value, None);
        Ok(())
    }

    /// `SLLI`, `SRLI` and `SRAI`.
    pub fn shift<H>(&mut self, direction: Shift, dest: u8, src: u8, amount: i64) -> (r: Result<
        (),
        ErtError<H::Error>,
    >) where H: RvHandler<bool, BITS> + ContextWithValue<bool, Wrapped = W> + ?Sized
        requires
            dest < 32,
            src < 32,
            direction != Shift::RotateRight,
            crate::rv::machine::bounded(*old(self)),
        ensures
            crate::rv::machine::framed(*old(self), *final(self)),
            final(self).pc == old(self).pc,
            crate::rv::machine::live::<H, BITS>(*old(self)) ==> computed::<H, BITS>(
                *final(self),
                r,
                crate::rv::machine::hart::<H, BITS>(*old(self)).shift(
                    direction,
                    dest as int,
                    src as int,
                    amount,
                    BITS as nat,
                ),
            ),
    {
        let places: u32 = if BITS == 32 {
            (to_pattern(amount) % 32) as u32
        } else {
            (to_pattern(amount) % 64) as u32
        };
        proof {
            // Both widths divide the range of a pattern.
            if BITS == 32 {
                assert(places == amount as int % 32);
            } else {
                assert(places == amount as int % 64);
            }
        }
        let word = crate::shift::shift_word::<H, BITS>(
            &self.regs[src as usize],
            places,
            direction,
            &self.zero,
        );
        let value = match self.constants[src as usize] {
            Some(known) => {
                proof {
                    crate::wide::low_spells(known, BITS as nat);
                }
                Some(shift_value::<BITS>(truncate::<BITS>(known), places, direction))
            },
            None => None,
        };
        self.write::<H>(dest, word, value, None);
        Ok(())
    }
}

/// Read `width` cells from `start` up, extended to a word.
fn read_extended<H, const BITS: usize>(
    h: &mut H,
    st: &mut H::Storage,
    start: usize,
    width: usize,
    signed: bool,
    zero: &<H as ContextWithValue<bool>>::Wrapped,
    one: &<H as ContextWithValue<bool>>::Wrapped,
) -> (r: Result<[<H as ContextWithValue<bool>>::Wrapped; BITS], H::Error>) where
    H: RvHandler<bool, BITS> + ?Sized,
    <H as ContextWithValue<bool>>::Wrapped: Clone,

    requires
        0 < width <= BITS,
        start + width <= usize::MAX,
        storage::reachable::<H>(old(st), start + width, *zero, *one),
    ensures
        storage::keeps::<H>(old(st), final(st)),
        H::tracks() ==> {
            &&& H::cells(final(st)) == H::cells(old(st))
            &&& r matches Ok(word) ==> crate::context::bits::<H>(word@) == crate::wide::extended(
                H::cells(old(st)).subrange(start as int, start + width),
                BITS as nat,
                signed,
            )
        },
        <H as ContextWithValue<bool>>::reliable() ==> r is Ok,
        r matches Err(error) ==> <H as ContextWithValue<bool>>::errs(error),
{
    let ghost cells = H::cells(st);
    let ghost part = cells.subrange(start as int, start + width);
    let mut word = crate::word::fill::<<H as ContextWithValue<bool>>::Wrapped, BITS>(zero);
    let mut i: usize = 0;
    while i < width
        invariant
            i <= width <= BITS,
            0 < width,
            start + width <= usize::MAX,
            cells == H::cells(old(st)),
            part == cells.subrange(start as int, start + width),
            storage::reachable::<H>(st, start + width, *zero, *one),
            storage::keeps::<H>(old(st), st),
            H::tracks() ==> {
                &&& H::cells(st) == cells
                &&& forall|j: int|
                    0 <= j < i ==> crate::context::bit::<H>(#[trigger] word@[j]) == part[j]
                &&& forall|j: int|
                    i <= j < BITS ==> !crate::context::bit::<H>(#[trigger] word@[j])
            },
        decreases width - i,
    {
        let wire = storage::read_bit(h, st, start + i, zero, one)?;
        word[i] = wire;
        i = i + 1;
    }
    if signed {
        let mut j: usize = width;
        while j < BITS
            invariant
                width <= j <= BITS,
                0 < width,
                cells.len() >= start + width || !H::tracks(),
                part == cells.subrange(start as int, start + width),
                H::tracks() ==> crate::context::sound::<H>(),
                H::tracks() ==> {
                    &&& forall|k: int|
                        0 <= k < width ==> crate::context::bit::<H>(#[trigger] word@[k]) == part[k]
                    &&& forall|k: int|
                        width <= k < j ==> crate::context::bit::<H>(#[trigger] word@[k])
                            == part.last()
                },
            decreases BITS - j,
        {
            let sign = keep::<H>(&word[width - 1]);
            word[j] = sign;
            j = j + 1;
        }
    }
    proof {
        if H::tracks() {
            assert(crate::context::bits::<H>(word@) =~= crate::wide::extended(
                part,
                BITS as nat,
                signed,
            ));
        }
    }
    Ok(word)
}

/// Write the low `width` bits of a word to the cells from `start` up, where
/// the predicate holds.
fn write_predicated<H, const BITS: usize>(
    h: &mut H,
    st: &mut H::Storage,
    start: usize,
    word: &[<H as ContextWithValue<bool>>::Wrapped; BITS],
    width: usize,
    predicate: &<H as ContextWithValue<bool>>::Wrapped,
    zero: &<H as ContextWithValue<bool>>::Wrapped,
    one: &<H as ContextWithValue<bool>>::Wrapped,
) -> (r: Result<(), H::Error>) where
    H: RvHandler<bool, BITS> + ?Sized,
    <H as ContextWithValue<bool>>::Wrapped: Clone,

    requires
        width <= BITS,
        start + width <= usize::MAX,
        storage::reachable::<H>(old(st), start + width, *zero, *one),
    ensures
        storage::keeps::<H>(old(st), final(st)),
        H::tracks() ==> {
            &&& H::cells(final(st)).len() == H::cells(old(st)).len()
            &&& r is Ok ==> H::cells(final(st)) == if crate::context::bit::<H>(*predicate) {
                storage::overwrite(
                    H::cells(old(st)),
                    start as int,
                    crate::context::bits::<H>(word@).take(width as int),
                )
            } else {
                H::cells(old(st))
            }
        },
        <H as ContextWithValue<bool>>::reliable() ==> r is Ok,
        r matches Err(error) ==> <H as ContextWithValue<bool>>::errs(error),
{
    let ghost cells = H::cells(st);
    let ghost bits = crate::context::bits::<H>(word@);
    let ghost on = crate::context::bit::<H>(*predicate);
    let mut i: usize = 0;
    proof {
        if H::tracks() {
            assert(storage::overwrite(cells, start as int, bits.take(0)) =~= cells);
        }
    }
    while i < width
        invariant
            i <= width <= BITS,
            start + width <= usize::MAX,
            bits == crate::context::bits::<H>(word@),
            on == crate::context::bit::<H>(*predicate),
            storage::reachable::<H>(st, start + width, *zero, *one),
            storage::keeps::<H>(old(st), st),
            cells == H::cells(old(st)),
            H::tracks() ==> {
                &&& H::cells(st).len() == cells.len()
                &&& H::cells(st) == if on {
                    storage::overwrite(cells, start as int, bits.take(i as int))
                } else {
                    cells
                }
            },
        decreases width - i,
    {
        // `held ^ (active & (value ^ held))`: an inactive candidate's store is
        // a no-op.
        let held = storage::read_bit(h, st, start + i, zero, one)?;
        let selected = crate::table::predicated_value(
            h,
            keep::<H>(predicate),
            keep::<H>(&word[i]),
            held,
        )?;
        storage::write_bit(h, st, start + i, selected, zero, one)?;
        proof {
            if H::tracks() {
                assert(storage::overwrite(cells, start as int, bits.take(i as int)).update(
                    start + i,
                    bits[i as int],
                ) =~= storage::overwrite(cells, start as int, bits.take(i + 1)));
                assert(cells.update(start + i, cells[start + i]) =~= cells);
                assert(bits[i as int] == crate::context::bit::<H>(word@[i as int]));
            }
        }
        i = i + 1;
    }
    Ok(())
}

impl<'m, W: Clone, const BITS: usize> Machine<'m, W, BITS> {
    /// The place that an access through a register reaches.
    fn load_address(&self, base: u8, offset: i64) -> (r: Place)
        requires
            base < 32,
            BITS == 32 || BITS == 64,
        ensures
            r == match self.offs@[base as int] {
                Some(o) => Place::Stack(
                    crate::wide::low(
                        crate::rv::machine::at(self.sp, o.wrapping_add(offset)),
                        BITS as nat,
                    ),
                ),
                None => match self.constants@[base as int] {
                    Some(c) => Place::Image(
                        crate::wide::low(crate::rv::machine::at(c, offset), BITS as nat),
                    ),
                    None => Place::Unknown,
                },
            },
    {
        match self.offs[base as usize] {
            Some(o) => Place::Stack(
                truncate::<BITS>(self.sp.wrapping_add(to_pattern(o.wrapping_add(offset)))),
            ),
            None => match self.constants[base as usize] {
                Some(c) => Place::Image(truncate::<BITS>(c.wrapping_add(to_pattern(offset)))),
                None => Place::Unknown,
            },
        }
    }

    /// Load from the virtual stack or the image.
    pub fn load<H>(
        &mut self,
        h: &mut H,
        st: &mut H::Storage,
        dest: u8,
        base: u8,
        offset: i64,
        width: usize,
        signed: bool,
    ) -> (r: Result<(), ErtError<H::Error>>) where
        H: RvHandler<bool, BITS> + ContextWithValue<bool, Wrapped = W> + ?Sized,

        requires
            dest < 32,
            base < 32,
            width == 8 || width == 16 || width == 32 || width == 64,
            crate::rv::machine::bounded(*old(self)),
            crate::rv::machine::ready::<H, BITS>(*old(self), old(st)),
        ensures
            crate::rv::machine::framed(*old(self), *final(self)),
            crate::rv::machine::ready::<H, BITS>(*final(self), final(st)),
            final(self).pc == old(self).pc,
            H::tracks() ==> H::cells(final(st)) == H::cells(old(st)),
            H::tracks() && crate::rv::machine::live::<H, BITS>(*old(self)) ==> computed::<H, BITS>(
                *final(self),
                r,
                crate::rv::machine::hart::<H, BITS>(*old(self)).load(
                    H::cells(old(st)),
                    crate::rv::machine::frame::<H, BITS>(*old(self)),
                    dest as int,
                    base as int,
                    offset,
                    width as nat,
                    signed,
                ),
            ),
    {
        if width > BITS {
            return Err(ErtError::Unexpected);
        }
        proof {
            if crate::rv::machine::live::<H, BITS>(*self) {
                self.known_value::<H>(base as int);
            }
        }
        match self.load_address(base, offset) {
            Place::Stack(address) => {
                let start: usize = match stack_bits(address, width, self.storage_bits) {
                    Some(start) => start,
                    None => return Err(ErtError::Unexpected),
                };
                let word = emitted(
                    read_extended::<H, BITS>(
                        h,
                        st,
                        start,
                        width,
                        signed,
                        &self.zero,
                        &self.one,
                    ),
                )?;
                self.write::<H>(dest, word, None, None);
                Ok(())
            },
            Place::Image(address) => {
                let number: u64 = match load_number(&self.mem, address, width) {
                    Some(number) => number,
                    None => return Err(ErtError::Unexpected),
                };
                proof {
                    vstd::arithmetic::power2::lemma2_to64();
                    vstd::arithmetic::power2::lemma2_to64_rest();
                    let bytes = self.mem.reads64(address, width as nat / 8)->0;
                    assert(number as nat == crate::memory::le_num(bytes));
                }
                let value: u64 = extend_value::<BITS>(number, width, signed);
                let word = self.word_from_constant::<H>(value);
                self.write::<H>(dest, word, Some(value), None);
                Ok(())
            },
            Place::Unknown => Err(ErtError::Unexpected),
        }
    }

    /// Store to the virtual stack, under the predicate where there is one.
    pub fn store<H>(
        &mut self,
        h: &mut H,
        st: &mut H::Storage,
        src: u8,
        base: u8,
        offset: i64,
        width: usize,
    ) -> (r: Result<(), ErtError<H::Error>>) where
        H: RvHandler<bool, BITS> + ContextWithValue<bool, Wrapped = W> + ?Sized,

        requires
            src < 32,
            base < 32,
            crate::rv::machine::bounded(*old(self)),
            crate::rv::machine::ready::<H, BITS>(*old(self), old(st)),
        ensures
            *final(self) == *old(self),
            crate::rv::machine::ready::<H, BITS>(*final(self), final(st)),
            H::tracks() && crate::rv::machine::live::<H, BITS>(*old(self)) ==> {
                let expected = crate::rv::machine::hart::<H, BITS>(*old(self)).store(
                    H::cells(old(st)),
                    crate::rv::machine::frame::<H, BITS>(*old(self)),
                    src as int,
                    base as int,
                    offset,
                    width as nat,
                );
                match r {
                    Ok(_) => expected == Some(H::cells(final(st))),
                    Err(ErtError::Unexpected) => expected is None,
                    Err(ErtError::Emitted(error)) => !crate::context::reliable::<H>()
                        && crate::context::erred::<H>(error),
                    Err(ErtError::Decode(_)) => false,
                }
            },
    {
        if width > BITS {
            return Err(ErtError::Unexpected);
        }
        let address: u64 = match self.load_address(base, offset) {
            Place::Stack(address) => address,
            _ => return Err(ErtError::Unexpected),
        };
        let start: usize = match stack_bits(address, width, self.storage_bits) {
            Some(start) => start,
            None => return Err(ErtError::Unexpected),
        };
        match &self.predicate {
            None => emitted(
                storage::write_word::<H, BITS>(
                    h,
                    st,
                    start,
                    &self.regs[src as usize],
                    width,
                    &self.zero,
                    &self.one,
                ),
            ),
            Some(predicate) => emitted(
                write_predicated::<H, BITS>(
                    h,
                    st,
                    start,
                    &self.regs[src as usize],
                    width,
                    predicate,
                    &self.zero,
                    &self.one,
                ),
            ),
        }
    }
}

} // verus!
