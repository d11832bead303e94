//! Loads and stores: the virtual stack, and concrete memory.
use crate::context::{keep, ContextWithStorage, ContextWithValue};
use crate::storage;
use crate::thumb::machine::{emitted, Cpu, ErtError, Flow, Machine, Step};
use crate::thumb::op::{LoadKind, PC, SP};
use crate::word::ContextWithErtOps;
use vstd::prelude::*;

verus! {

/// How many bits a load reads.
pub open spec fn load_bits(kind: LoadKind) -> nat {
    match kind {
        LoadKind::ByteSigned | LoadKind::ByteUnsigned => 8,
        LoadKind::HalfSigned | LoadKind::HalfUnsigned => 16,
        LoadKind::Word => 32,
    }
}

/// Whether a load extends the sign.
pub open spec fn load_signed(kind: LoadKind) -> bool {
    kind == LoadKind::ByteSigned || kind == LoadKind::HalfSigned
}

fn load_width(kind: LoadKind) -> (r: usize)
    ensures
        r == load_bits(kind),
{
    match kind {
        LoadKind::ByteSigned | LoadKind::ByteUnsigned => 8,
        LoadKind::HalfSigned | LoadKind::HalfUnsigned => 16,
        LoadKind::Word => 32,
    }
}

/// The word that a load makes of the bits from `start` up.
pub open spec fn extended(cells: Seq<bool>, start: int, kind: LoadKind) -> Seq<bool> {
    let width = load_bits(kind);
    Seq::new(
        32,
        |i: int|
            if i < width {
                cells[start + i]
            } else {
                load_signed(kind) && cells[start + width - 1]
            },
    )
}

/// The number that a load makes of memory at `address`.
pub open spec fn loaded(mem: crate::memory::RawMemory<'_>, address: u32, kind: LoadKind) -> Option<
    u32,
> {
    let width = load_bits(kind);
    match mem.reads(address, width / 8) {
        None => None,
        Some(bytes) => {
            let n = crate::memory::le_num(bytes);
            if kind == LoadKind::ByteSigned && n >= 0x80 {
                Some((n + 0xffff_ff00) as u32)
            } else if kind == LoadKind::HalfSigned && n >= 0x8000 {
                Some((n + 0xffff_0000) as u32)
            } else {
                Some(n as u32)
            }
        },
    }
}

/// Where an access `offset` bytes from the stack pointer starts, when it lies
/// in the store.
pub open spec fn stack_range(sp: u32, offset: i32, width: int, storage_bits: int) -> Option<int> {
    let start = 8 * (sp.wrapping_add_signed(offset) as int);
    if start + width <= storage_bits {
        Some(start)
    } else {
        None
    }
}

/// Register `register` is in a register list.
pub open spec fn listed(list: u16, register: int) -> bool {
    (list >> (register as u16)) & 1 != 0
}

/// How many registers below `k` are in a list.
pub open spec fn listed_below(list: u16, k: int) -> int
    decreases k,
{
    if k <= 0 {
        0
    } else {
        listed_below(list, k - 1) + if listed(list, k - 1) {
            1int
        } else {
            0
        }
    }
}

proof fn listed_bound(list: u16, k: int)
    requires
        0 <= k,
    ensures
        0 <= listed_below(list, k) <= k,
    decreases k,
{
    if k > 0 {
        listed_bound(list, k - 1);
    }
}

/// How many registers a list names.
fn count_registers(list: u16) -> (r: u32)
    ensures
        r == listed_below(list, 16),
        r <= 16,
{
    let mut count: u32 = 0;
    let mut register: u16 = 0;
    while register < 16
        invariant
            register <= 16,
            count == listed_below(list, register as int),
            count <= register,
        decreases 16 - register,
    {
        if (list >> register) & 1 != 0 {
            count = count + 1;
        }
        register = register + 1;
    }
    count
}

/// The offset of slot `slot` of a block that starts `base` bytes from the
/// stack pointer.
pub open spec fn slot_offset(base: i32, slot: int) -> i32 {
    base.wrapping_add((4 * slot) as i32)
}

impl Cpu {
    /// A load.
    pub open spec fn load(
        self,
        cells: Seq<bool>,
        mem: crate::memory::RawMemory<'_>,
        storage_bits: int,
        dest: int,
        base: int,
        offset: i32,
        kind: LoadKind,
    ) -> Option<Cpu> {
        if base == 15 {
            self.load_concrete(
                mem,
                dest,
                crate::thumb::decode::pc_aligned(self.pc).wrapping_add_signed(offset),
                kind,
            )
        } else {
            match self.offsets[base] {
                Some(from) => match stack_range(
                    self.sp,
                    from.wrapping_add(offset),
                    load_bits(kind) as int,
                    storage_bits,
                ) {
                    Some(start) => Some(self.write(dest, extended(cells, start, kind), false)),
                    None => None,
                },
                None => if self.known[base] {
                    self.load_concrete(
                        mem,
                        dest,
                        (crate::bits::num(self.regs[base]) as u32).wrapping_add_signed(offset),
                        kind,
                    )
                } else {
                    None
                },
            }
        }
    }

    /// A load from concrete memory.
    pub open spec fn load_concrete(
        self,
        mem: crate::memory::RawMemory<'_>,
        dest: int,
        address: u32,
        kind: LoadKind,
    ) -> Option<Cpu> {
        match loaded(mem, address, kind) {
            Some(value) => Some(self.write_constant(dest, value)),
            None => None,
        }
    }

    /// A store, always to the virtual stack.
    pub open spec fn store(
        self,
        cells: Seq<bool>,
        storage_bits: int,
        source: int,
        base: int,
        offset: i32,
        width: int,
    ) -> Option<Seq<bool>> {
        match self.offsets[base] {
            None => None,
            Some(from) => match stack_range(
                self.sp,
                from.wrapping_add(offset),
                width,
                storage_bits,
            ) {
                None => None,
                Some(start) => Some(
                    storage::overwrite(cells, start, self.regs[source].take(width)),
                ),
            },
        }
    }

    /// The byte offset of a register index.
    pub open spec fn index_offset(self, index: int, shift: u8) -> Option<i32> {
        if self.known[index] {
            Some((crate::bits::num(self.regs[index]) as u32).wrapping_shl(shift as u32) as i32)
        } else {
            None
        }
    }

    /// Store the listed registers from `register` up in ascending slots.
    pub open spec fn store_list(
        self,
        cells: Seq<bool>,
        storage_bits: int,
        list: u16,
        base: i32,
        register: int,
        slot: int,
    ) -> Option<Seq<bool>>
        decreases 16 - register,
    {
        if register >= 16 {
            Some(cells)
        } else if !listed(list, register) {
            self.store_list(cells, storage_bits, list, base, register + 1, slot)
        } else {
            match stack_range(self.sp, slot_offset(base, slot), 32, storage_bits) {
                None => None,
                Some(start) => self.store_list(
                    storage::overwrite(cells, start, self.regs[register]),
                    storage_bits,
                    list,
                    base,
                    register + 1,
                    slot + 1,
                ),
            }
        }
    }

    /// Load the listed registers from `register` up from ascending slots. A
    /// popped program counter is read but not kept: returns go by the control
    /// stack.
    pub open spec fn load_list(
        self,
        cells: Seq<bool>,
        storage_bits: int,
        list: u16,
        base: i32,
        register: int,
        slot: int,
        pop: bool,
    ) -> Option<Cpu>
        decreases 16 - register,
    {
        if register >= 16 {
            Some(self)
        } else if !listed(list, register) {
            self.load_list(cells, storage_bits, list, base, register + 1, slot, pop)
        } else {
            match stack_range(self.sp, slot_offset(base, slot), 32, storage_bits) {
                None => None,
                Some(start) => {
                    let next = if pop && register == 15 {
                        self
                    } else {
                        self.write(register, cells.subrange(start, start + 32), false)
                    };
                    next.load_list(
                        cells,
                        storage_bits,
                        list,
                        base,
                        register + 1,
                        slot + 1,
                        pop,
                    )
                },
            }
        }
    }

    /// The return address on top of the control stack, taken off it.
    pub open spec fn return_from_call(self) -> Option<(Cpu, u32)> {
        if self.rsp <= 0 {
            None
        } else {
            Some((Cpu { rsp: self.rsp - 1, ..self }, self.rstack[self.rsp - 1]))
        }
    }
}

/// A block load writes registers, and nothing else.
proof fn load_list_keeps(
    c: Cpu,
    cells: Seq<bool>,
    storage_bits: int,
    list: u16,
    base: i32,
    register: int,
    slot: int,
    pop: bool,
)
    ensures
        c.load_list(cells, storage_bits, list, base, register, slot, pop) matches Some(d) ==> d.pc
            == c.pc && d.sp == c.sp && d.rstack == c.rstack && d.rsp == c.rsp,
    decreases 16 - register,
{
    if register < 16 {
        if !listed(list, register) {
            load_list_keeps(c, cells, storage_bits, list, base, register + 1, slot, pop);
        } else {
            match stack_range(c.sp, slot_offset(base, slot), 32, storage_bits) {
                None => {},
                Some(start) => {
                    let next = if pop && register == 15 {
                        c
                    } else {
                        c.write(register, cells.subrange(start, start + 32), false)
                    };
                    load_list_keeps(
                        next,
                        cells,
                        storage_bits,
                        list,
                        base,
                        register + 1,
                        slot + 1,
                        pop,
                    );
                },
            }
        }
    }
}

/// A load or store that goes on to the next instruction, or is rejected.
pub open spec fn fall_through(cpu: Option<Cpu>, cells: Option<Seq<bool>>, pc: u32) -> Step {
    match (cpu, cells) {
        (Some(cpu), Some(cells)) => Step::Next { cpu, cells, pc },
        _ => Step::Unexpected,
    }
}

impl<'m, W: Clone> Machine<'m, W> {
    /// The distance of an address in a register from the stack pointer.
    pub fn stack_offset<E>(&self, base: u8, offset: i32) -> (r: Result<i32, ErtError<E>>)
        requires
            base < 16,
        ensures
            r == match self.offsets@[base as int] {
                Some(from) => Ok::<i32, ErtError<E>>(from.wrapping_add(offset)),
                None => Err(ErtError::Unexpected),
            },
    {
        match self.offsets[base as usize] {
            Some(base) => Ok(base.wrapping_add(offset)),
            None => Err(ErtError::Unexpected),
        }
    }

    /// A scaled register index, which must be known.
    pub fn indexed_offset<E>(&self, index: u8, shift: u8) -> (r: Result<i32, ErtError<E>>)
        requires
            index < 16,
        ensures
            r == match self.constants@[index as int] {
                Some(value) => Ok::<i32, ErtError<E>>(value.wrapping_shl(shift as u32) as i32),
                None => Err(ErtError::Unexpected),
            },
    {
        match self.constants[index as usize] {
            Some(value) => Ok(value.wrapping_shl(shift as u32) as i32),
            None => Err(ErtError::Unexpected),
        }
    }

    /// Where an access to the virtual stack starts.
    pub fn stack_bits<E>(&self, offset: i32, width: usize) -> (r: Result<usize, ErtError<E>>)
        requires
            width <= 32,
        ensures
            r == match stack_range(self.sp, offset, width as int, self.storage_bits as int) {
                Some(start) => Ok::<usize, ErtError<E>>(start as usize),
                None => Err(ErtError::Unexpected),
            },
            r matches Ok(start) ==> start + width <= self.storage_bits,
    {
        let address: u64 = self.sp.wrapping_add_signed(offset) as u64;
        if address * 8 + width as u64 > self.storage_bits as u64 {
            return Err(ErtError::Unexpected);
        }
        Ok((address * 8) as usize)
    }

    /// Read a word of the virtual stack.
    fn read_stack_word<H>(&self, h: &mut H, st: &mut H::Storage, start: usize) -> (r: Result<
        [W; 32],
        ErtError<H::Error>,
    >) where
        H: ContextWithErtOps<bool> + ContextWithStorage<bool> + ContextWithValue<bool, Wrapped = W>
            + ?Sized,

        requires
            start + 32 <= self.storage_bits,
            crate::thumb::machine::ready::<H>(*self, old(st)),
        ensures
            storage::keeps::<H>(old(st), final(st)),
            H::tracks() ==> {
                &&& H::cells(final(st)) == H::cells(old(st))
                &&& r matches Ok(w) ==> crate::context::bits::<H>(w@) == H::cells(old(st)).subrange(
                    start as int,
                    start + 32,
                )
            },
            r is Err ==> crate::thumb::flags::emits(r),
            crate::context::reliable::<H>() ==> r is Ok,
            r matches Err(ErtError::Emitted(error)) ==> crate::context::erred::<H>(error),
    {
        emitted(storage::read_word::<H, 32>(h, st, start, &self.zero, &self.one))
    }

    /// Write the low bits of a word to the virtual stack.
    fn write_stack_word<H>(
        &self,
        h: &mut H,
        st: &mut H::Storage,
        start: usize,
        register: usize,
        width: usize,
    ) -> (r: Result<(), ErtError<H::Error>>) where
        H: ContextWithErtOps<bool> + ContextWithStorage<bool> + ContextWithValue<bool, Wrapped = W>
            + ?Sized,

        requires
            register < 16,
            width <= 32,
            start + width <= self.storage_bits,
            crate::thumb::machine::ready::<H>(*self, old(st)),
        ensures
            crate::thumb::machine::ready::<H>(*self, final(st)),
            H::tracks() ==> (r is Ok ==> H::cells(final(st)) == storage::overwrite(
                H::cells(old(st)),
                start as int,
                crate::thumb::machine::cpu::<H>(*self).regs[register as int].take(width as int),
            )),
            r is Err ==> crate::thumb::flags::emits(r),
            crate::context::reliable::<H>() ==> r is Ok,
            r matches Err(ErtError::Emitted(error)) ==> crate::context::erred::<H>(error),
    {
        emitted(
            storage::write_word::<H, 32>(
                h,
                st,
                start,
                &self.regs[register],
                width,
                &self.zero,
                &self.one,
            ),
        )
    }

    /// Load from the virtual stack or from concrete memory.
    pub fn load<H>(
        &mut self,
        h: &mut H,
        st: &mut H::Storage,
        dest: u8,
        base: u8,
        offset: i32,
        kind: LoadKind,
        len: u32,
    ) -> (r: Result<Flow, ErtError<H::Error>>) where
        H: ContextWithErtOps<bool> + ContextWithStorage<bool> + ContextWithValue<bool, Wrapped = W>
            + ?Sized,

        requires
            dest < 16,
            base < 16,
            crate::thumb::machine::bounded(*old(self)),
            crate::thumb::machine::ready::<H>(*old(self), old(st)),
        ensures
            crate::thumb::machine::framed(*old(self), *final(self)),
            crate::thumb::machine::ready::<H>(*final(self), final(st)),
            H::tracks() && crate::thumb::machine::live::<H>(*old(self))
                ==> crate::thumb::machine::stepped::<H>(
                *final(self),
                H::cells(final(st)),
                r,
                fall_through(
                    crate::thumb::machine::cpu::<H>(*old(self)).load(
                        H::cells(old(st)),
                        old(self).mem,
                        old(self).storage_bits as int,
                        dest as int,
                        base as int,
                        offset,
                        kind,
                    ),
                    Some(H::cells(old(st))),
                    old(self).pc.wrapping_add(len),
                ),
            ),
            crate::context::reliable::<H>() ==> crate::thumb::flags::unemitted(r),
            r matches Err(ErtError::Emitted(error)) ==> crate::context::erred::<H>(error),
    {
        let ghost start_cpu = crate::thumb::machine::cpu::<H>(*self);
        if base == PC {
            let address: u32 = (self.pc.wrapping_add(4) & !3u32).wrapping_add_signed(offset);
            return self.load_concrete::<H>(dest, address, kind, len);
        }
        match self.offsets[base as usize] {
            Some(from) => {
                let width: usize = load_width(kind);
                let start: usize = self.stack_bits(from.wrapping_add(offset), width)?;
                let signed = match kind {
                    LoadKind::ByteSigned | LoadKind::HalfSigned => true,
                    _ => false,
                };
                let mut word = crate::word::fill::<W, 32>(&self.zero);
                let ghost cells = H::cells(st);
                let mut bit: usize = 0;
                while bit < 32
                    invariant
                        bit <= 32,
                        *self == *old(self),
                        start_cpu == crate::thumb::machine::cpu::<H>(*self),
                        width == load_bits(kind),
                        0 < width <= 32,
                        signed == load_signed(kind),
                        start + width <= self.storage_bits,
                        crate::thumb::machine::bounded(*self),
                        crate::thumb::machine::ready::<H>(*self, st),
                        cells == H::cells(old(st)),
                        H::tracks() ==> H::cells(st) == cells,
                        H::tracks() && crate::thumb::machine::live::<H>(*self) ==> forall|j: int|
                            0 <= j < bit ==> crate::context::bit::<H>(#[trigger] word@[j])
                                == extended(cells, start as int, kind)[j],
                    decreases 32 - bit,
                {
                    word[bit] = if bit < width {
                        emitted(
                            storage::read_bit(h, st, start + bit, &self.zero, &self.one),
                        )?
                    } else if signed {
                        emitted(
                            storage::read_bit(h, st, start + width - 1, &self.zero, &self.one),
                        )?
                    } else {
                        keep::<H>(&self.zero)
                    };
                    bit = bit + 1;
                }
                proof {
                    if H::tracks() && crate::thumb::machine::live::<H>(*self) {
                        assert(crate::context::bits::<H>(word@) =~= extended(
                            cells,
                            start as int,
                            kind,
                        ));
                    }
                }
                self.write::<H>(dest, word, None);
                Ok(self.next(len))
            },
            None => match self.constants[base as usize] {
                Some(value) => {
                    proof {
                        crate::concrete::word_num(value);
                    }
                    self.load_concrete::<H>(dest, value.wrapping_add_signed(offset), kind, len)
                },
                None => Err(ErtError::Unexpected),
            },
        }
    }

    /// Load a constant from concrete memory.
    fn load_concrete<H>(&mut self, dest: u8, address: u32, kind: LoadKind, len: u32) -> (r: Result<
        Flow,
        ErtError<H::Error>,
    >) where
        H: ContextWithErtOps<bool> + ContextWithStorage<bool> + ContextWithValue<bool, Wrapped = W>
            + ?Sized,

        requires
            dest < 16,
            crate::thumb::machine::bounded(*old(self)),
        ensures
            crate::thumb::machine::framed(*old(self), *final(self)),
            crate::thumb::machine::live::<H>(*old(self)) ==> crate::thumb::data::data_step::<H>(
                *old(self),
                *final(self),
                r,
                len,
                crate::thumb::machine::cpu::<H>(*old(self)).load_concrete(
                    old(self).mem,
                    dest as int,
                    address,
                    kind,
                ),
            ),
            !crate::thumb::flags::emits(r),
    {
        let value: u32 = match kind {
            LoadKind::ByteSigned | LoadKind::ByteUnsigned => {
                let bytes = match self.mem.read::<1>(address) {
                    Some(bytes) => bytes,
                    None => return Err(ErtError::Unexpected),
                };
                proof {
                    crate::memory::le_num_1(bytes@);
                }
                let n: u32 = bytes[0] as u32;
                if kind == LoadKind::ByteSigned && n >= 0x80 {
                    n + 0xffff_ff00
                } else {
                    n
                }
            },
            LoadKind::HalfSigned | LoadKind::HalfUnsigned => {
                let bytes = match self.mem.read::<2>(address) {
                    Some(bytes) => bytes,
                    None => return Err(ErtError::Unexpected),
                };
                let n: u32 = crate::memory::half_from_bytes(bytes) as u32;
                if kind == LoadKind::HalfSigned && n >= 0x8000 {
                    n + 0xffff_0000
                } else {
                    n
                }
            },
            LoadKind::Word => {
                let bytes = match self.mem.read::<4>(address) {
                    Some(bytes) => bytes,
                    None => return Err(ErtError::Unexpected),
                };
                crate::memory::word_from_bytes(bytes)
            },
        };
        self.write_constant::<H>(dest, value);
        Ok(self.next(len))
    }

    /// Store the low bits of a register to the virtual stack.
    pub fn store<H>(
        &mut self,
        h: &mut H,
        st: &mut H::Storage,
        source: u8,
        base: u8,
        offset: i32,
        width: usize,
        len: u32,
    ) -> (r: Result<Flow, ErtError<H::Error>>) where
        H: ContextWithErtOps<bool> + ContextWithStorage<bool> + ContextWithValue<bool, Wrapped = W>
            + ?Sized,

        requires
            source < 16,
            base < 16,
            width <= 32,
            crate::thumb::machine::bounded(*old(self)),
            crate::thumb::machine::ready::<H>(*old(self), old(st)),
        ensures
            *final(self) == *old(self),
            crate::thumb::machine::ready::<H>(*final(self), final(st)),
            H::tracks() && crate::thumb::machine::live::<H>(*old(self))
                ==> crate::thumb::machine::stepped::<H>(
                *final(self),
                H::cells(final(st)),
                r,
                fall_through(
                    Some(crate::thumb::machine::cpu::<H>(*old(self))),
                    crate::thumb::machine::cpu::<H>(*old(self)).store(
                        H::cells(old(st)),
                        old(self).storage_bits as int,
                        source as int,
                        base as int,
                        offset,
                        width as int,
                    ),
                    old(self).pc.wrapping_add(len),
                ),
            ),
            crate::context::reliable::<H>() ==> crate::thumb::flags::unemitted(r),
            r matches Err(ErtError::Emitted(error)) ==> crate::context::erred::<H>(error),
    {
        let offset: i32 = self.stack_offset(base, offset)?;
        let start: usize = self.stack_bits(offset, width)?;
        self.write_stack_word(h, st, start, source as usize, width)?;
        Ok(self.next(len))
    }

    /// Store the listed registers in ascending slots of a block.
    fn store_registers<H>(&self, h: &mut H, st: &mut H::Storage, list: u16, base: i32) -> (r: Result<
        (),
        ErtError<H::Error>,
    >) where
        H: ContextWithErtOps<bool> + ContextWithStorage<bool> + ContextWithValue<bool, Wrapped = W>
            + ?Sized,

        requires
            crate::thumb::machine::ready::<H>(*self, old(st)),
        ensures
            crate::thumb::machine::ready::<H>(*self, final(st)),
            H::tracks() ==> {
                let expected = crate::thumb::machine::cpu::<H>(*self).store_list(
                    H::cells(old(st)),
                    self.storage_bits as int,
                    list,
                    base,
                    0,
                    0,
                );
                match r {
                    Ok(_) => expected == Some(H::cells(final(st))),
                    Err(ErtError::Unexpected) => expected is None,
                    Err(ErtError::Decode(_)) => false,
                    Err(ErtError::Emitted(_)) => true,
                }
            },
            crate::context::reliable::<H>() ==> crate::thumb::flags::unemitted(r),
            r matches Err(ErtError::Emitted(error)) ==> crate::context::erred::<H>(error),
    {
        let ghost c = crate::thumb::machine::cpu::<H>(*self);
        let mut slot: i32 = 0;
        let mut register: u16 = 0;
        while register < 16
            invariant
                register <= 16,
                0 <= slot <= register,
                c == crate::thumb::machine::cpu::<H>(*self),
                crate::thumb::machine::ready::<H>(*self, st),
                H::tracks() ==> c.store_list(
                    H::cells(old(st)),
                    self.storage_bits as int,
                    list,
                    base,
                    0,
                    0,
                ) == c.store_list(
                    H::cells(st),
                    self.storage_bits as int,
                    list,
                    base,
                    register as int,
                    slot as int,
                ),
            decreases 16 - register,
        {
            if (list >> register) & 1 != 0 {
                let start: usize = self.stack_bits(base.wrapping_add(4 * slot), 32)?;
                self.write_stack_word(h, st, start, register as usize, 32)?;
                proof {
                    let w = c.regs[register as int];
                    assert(w.take(32) =~= w);
                }
                slot = slot + 1;
            }
            register = register + 1;
        }
        Ok(())
    }

    /// Load the listed registers from ascending slots of a block.
    fn load_registers<H>(
        &mut self,
        h: &mut H,
        st: &mut H::Storage,
        list: u16,
        base: i32,
        pop: bool,
    ) -> (r: Result<(), ErtError<H::Error>>) where
        H: ContextWithErtOps<bool> + ContextWithStorage<bool> + ContextWithValue<bool, Wrapped = W>
            + ?Sized,

        requires
            crate::thumb::machine::bounded(*old(self)),
            crate::thumb::machine::ready::<H>(*old(self), old(st)),
        ensures
            crate::thumb::machine::framed(*old(self), *final(self)),
            crate::thumb::machine::ready::<H>(*final(self), final(st)),
            H::tracks() ==> H::cells(final(st)) == H::cells(old(st)),
            H::tracks() && crate::thumb::machine::live::<H>(*old(self)) ==> {
                let expected = crate::thumb::machine::cpu::<H>(*old(self)).load_list(
                    H::cells(old(st)),
                    old(self).storage_bits as int,
                    list,
                    base,
                    0,
                    0,
                    pop,
                );
                match r {
                    Ok(_) => expected == Some(crate::thumb::machine::cpu::<H>(*final(self)))
                        && crate::thumb::machine::live::<H>(*final(self)),
                    Err(ErtError::Unexpected) => expected is None,
                    Err(ErtError::Decode(_)) => false,
                    Err(ErtError::Emitted(_)) => true,
                }
            },
            crate::context::reliable::<H>() ==> crate::thumb::flags::unemitted(r),
            r matches Err(ErtError::Emitted(error)) ==> crate::context::erred::<H>(error),
    {
        let mut slot: i32 = 0;
        let mut register: u16 = 0;
        while register < 16
            invariant
                register <= 16,
                0 <= slot <= register,
                crate::thumb::machine::framed(*old(self), *self),
                crate::thumb::machine::ready::<H>(*self, st),
                H::tracks() ==> H::cells(st) == H::cells(old(st)),
                H::tracks() && crate::thumb::machine::live::<H>(*old(self)) ==> {
                    &&& crate::thumb::machine::live::<H>(*self)
                    &&& crate::thumb::machine::cpu::<H>(*old(self)).load_list(
                        H::cells(old(st)),
                        old(self).storage_bits as int,
                        list,
                        base,
                        0,
                        0,
                        pop,
                    ) == crate::thumb::machine::cpu::<H>(*self).load_list(
                        H::cells(old(st)),
                        self.storage_bits as int,
                        list,
                        base,
                        register as int,
                        slot as int,
                        pop,
                    )
                },
            decreases 16 - register,
        {
            if (list >> register) & 1 != 0 {
                let start: usize = self.stack_bits(base.wrapping_add(4 * slot), 32)?;
                let word = self.read_stack_word(h, st, start)?;
                if !(pop && register == PC as u16) {
                    self.write::<H>(register as u8, word, None);
                }
                slot = slot + 1;
            }
            register = register + 1;
        }
        Ok(())
    }

    /// Push the listed registers.
    pub fn push<H>(&mut self, h: &mut H, st: &mut H::Storage, list: u16, len: u32) -> (r: Result<
        Flow,
        ErtError<H::Error>,
    >) where
        H: ContextWithErtOps<bool> + ContextWithStorage<bool> + ContextWithValue<bool, Wrapped = W>
            + ?Sized,

        requires
            crate::thumb::machine::bounded(*old(self)),
            crate::thumb::machine::ready::<H>(*old(self), old(st)),
        ensures
            crate::thumb::machine::framed(*old(self), *final(self)),
            crate::thumb::machine::ready::<H>(*final(self), final(st)),
            H::tracks() && crate::thumb::machine::live::<H>(*old(self))
                ==> crate::thumb::machine::stepped::<H>(
                *final(self),
                H::cells(final(st)),
                r,
                pushed(
                    crate::thumb::machine::cpu::<H>(*old(self)),
                    H::cells(old(st)),
                    old(self).storage_bits as int,
                    list,
                    len,
                ),
            ),
            crate::context::reliable::<H>() ==> crate::thumb::flags::unemitted(r),
            r matches Err(ErtError::Emitted(error)) ==> crate::context::erred::<H>(error),
    {
        let count: u32 = count_registers(list);
        if self.sp < count * 4 {
            return Err(ErtError::Unexpected);
        }
        let start: u32 = self.sp - count * 4;
        self.adjust_sp::<H>(start);
        self.store_registers(h, st, list, 0)?;
        Ok(self.next(len))
    }

    /// Pop the listed registers. A popped program counter returns from the
    /// current call.
    pub fn pop<H>(&mut self, h: &mut H, st: &mut H::Storage, list: u16, len: u32) -> (r: Result<
        Flow,
        ErtError<H::Error>,
    >) where
        H: ContextWithErtOps<bool> + ContextWithStorage<bool> + ContextWithValue<bool, Wrapped = W>
            + ?Sized,

        requires
            crate::thumb::machine::bounded(*old(self)),
            crate::thumb::machine::ready::<H>(*old(self), old(st)),
        ensures
            crate::thumb::machine::framed(*old(self), *final(self)),
            crate::thumb::machine::ready::<H>(*final(self), final(st)),
            H::tracks() && crate::thumb::machine::live::<H>(*old(self))
                ==> crate::thumb::machine::stepped::<H>(
                *final(self),
                H::cells(final(st)),
                r,
                popped(
                    crate::thumb::machine::cpu::<H>(*old(self)),
                    H::cells(old(st)),
                    old(self).storage_bits as int,
                    list,
                    len,
                ),
            ),
            crate::context::reliable::<H>() ==> crate::thumb::flags::unemitted(r),
            r matches Err(ErtError::Emitted(error)) ==> crate::context::erred::<H>(error),
    {
        let count: u32 = count_registers(list);
        proof {
            load_list_keeps(
                crate::thumb::machine::cpu::<H>(*self),
                H::cells(st),
                self.storage_bits as int,
                list,
                0,
                0,
                0,
                true,
            );
        }
        self.load_registers(h, st, list, 0, true)?;
        let sp: u32 = self.sp.wrapping_add(count * 4);
        self.adjust_sp::<H>(sp);
        if (list >> 15) & 1 != 0 {
            self.return_from_call::<H>()
        } else {
            Ok(self.next(len))
        }
    }

    /// Load a block of registers.
    pub fn load_multiple<H>(
        &mut self,
        h: &mut H,
        st: &mut H::Storage,
        base: u8,
        list: u16,
        write_back: bool,
        len: u32,
    ) -> (r: Result<Flow, ErtError<H::Error>>) where
        H: ContextWithErtOps<bool> + ContextWithStorage<bool> + ContextWithValue<bool, Wrapped = W>
            + ?Sized,

        requires
            base < 16,
            crate::thumb::machine::bounded(*old(self)),
            crate::thumb::machine::ready::<H>(*old(self), old(st)),
        ensures
            crate::thumb::machine::framed(*old(self), *final(self)),
            crate::thumb::machine::ready::<H>(*final(self), final(st)),
            H::tracks() && crate::thumb::machine::live::<H>(*old(self))
                ==> crate::thumb::machine::stepped::<H>(
                *final(self),
                H::cells(final(st)),
                r,
                block_loaded(
                    crate::thumb::machine::cpu::<H>(*old(self)),
                    H::cells(old(st)),
                    old(self).storage_bits as int,
                    base as int,
                    list,
                    write_back,
                    len,
                ),
            ),
            crate::context::reliable::<H>() ==> crate::thumb::flags::unemitted(r),
            r matches Err(ErtError::Emitted(error)) ==> crate::context::erred::<H>(error),
    {
        let from: i32 = self.stack_offset(base, 0)?;
        proof {
            load_list_keeps(
                crate::thumb::machine::cpu::<H>(*self),
                H::cells(st),
                self.storage_bits as int,
                list,
                from,
                0,
                0,
                false,
            );
        }
        self.load_registers(h, st, list, from, false)?;
        if write_back {
            if base != SP {
                return Err(ErtError::Unexpected);
            }
            let sp: u32 = self.sp.wrapping_add(count_registers(list) * 4);
            self.adjust_sp::<H>(sp);
        }
        Ok(self.next(len))
    }

    /// Store a block of registers.
    pub fn store_multiple<H>(
        &mut self,
        h: &mut H,
        st: &mut H::Storage,
        base: u8,
        list: u16,
        write_back: bool,
        len: u32,
    ) -> (r: Result<Flow, ErtError<H::Error>>) where
        H: ContextWithErtOps<bool> + ContextWithStorage<bool> + ContextWithValue<bool, Wrapped = W>
            + ?Sized,

        requires
            base < 16,
            crate::thumb::machine::bounded(*old(self)),
            crate::thumb::machine::ready::<H>(*old(self), old(st)),
        ensures
            crate::thumb::machine::framed(*old(self), *final(self)),
            crate::thumb::machine::ready::<H>(*final(self), final(st)),
            H::tracks() && crate::thumb::machine::live::<H>(*old(self))
                ==> crate::thumb::machine::stepped::<H>(
                *final(self),
                H::cells(final(st)),
                r,
                block_stored(
                    crate::thumb::machine::cpu::<H>(*old(self)),
                    H::cells(old(st)),
                    old(self).storage_bits as int,
                    base as int,
                    list,
                    write_back,
                    len,
                ),
            ),
            crate::context::reliable::<H>() ==> crate::thumb::flags::unemitted(r),
            r matches Err(ErtError::Emitted(error)) ==> crate::context::erred::<H>(error),
    {
        let from: i32 = self.stack_offset(base, 0)?;
        self.store_registers(h, st, list, from)?;
        if write_back {
            if base != SP {
                return Err(ErtError::Unexpected);
            }
            let sp: u32 = self.sp.wrapping_add(count_registers(list) * 4);
            self.adjust_sp::<H>(sp);
        }
        Ok(self.next(len))
    }

    /// Return to the address on top of the control stack.
    pub fn return_from_call<H>(&mut self) -> (r: Result<Flow, ErtError<H::Error>>) where
        H: ContextWithErtOps<bool> + ContextWithValue<bool, Wrapped = W> + ?Sized,

        requires
            crate::thumb::machine::bounded(*old(self)),
        ensures
            crate::thumb::machine::framed(*old(self), *final(self)),
            crate::thumb::machine::live::<H>(*old(self)) ==> match r {
                Ok(Flow::Next(pc)) => {
                    &&& crate::thumb::machine::live::<H>(*final(self))
                    &&& crate::thumb::machine::cpu::<H>(*old(self)).return_from_call() == Some(
                        (crate::thumb::machine::cpu::<H>(*final(self)), pc),
                    )
                },
                Err(ErtError::Unexpected) => crate::thumb::machine::cpu::<H>(
                    *old(self),
                ).return_from_call() is None,
                _ => false,
            },
            !crate::thumb::flags::emits(r),
    {
        if self.rsp == 0 {
            return Err(ErtError::Unexpected);
        }
        self.rsp = self.rsp - 1;
        Ok(Flow::Next(self.rstack[self.rsp]))
    }
}

/// What a push does.
pub open spec fn pushed(c: Cpu, cells: Seq<bool>, storage_bits: int, list: u16, len: u32) -> Step {
    let size = 4 * listed_below(list, 16);
    if c.sp < size {
        Step::Unexpected
    } else {
        let down = c.adjust_sp((c.sp - size) as u32);
        fall_through(
            Some(down),
            down.store_list(cells, storage_bits, list, 0, 0, 0),
            c.pc.wrapping_add(len),
        )
    }
}

/// What a pop does.
pub open spec fn popped(c: Cpu, cells: Seq<bool>, storage_bits: int, list: u16, len: u32) -> Step {
    let size = 4 * listed_below(list, 16);
    match c.load_list(cells, storage_bits, list, 0, 0, 0, true) {
        None => Step::Unexpected,
        Some(full) => {
            let up = full.adjust_sp(full.sp.wrapping_add(size as u32));
            if listed(list, 15) {
                match up.return_from_call() {
                    Some((cpu, pc)) => Step::Next { cpu, cells, pc },
                    None => Step::Unexpected,
                }
            } else {
                Step::Next { cpu: up, cells, pc: c.pc.wrapping_add(len) }
            }
        },
    }
}

/// What a load of a block does. Only a block at the stack pointer can be
/// written back.
pub open spec fn block_loaded(
    c: Cpu,
    cells: Seq<bool>,
    storage_bits: int,
    base: int,
    list: u16,
    write_back: bool,
    len: u32,
) -> Step {
    match c.offsets[base] {
        None => Step::Unexpected,
        Some(from) => match c.load_list(
            cells,
            storage_bits,
            list,
            from.wrapping_add(0),
            0,
            0,
            false,
        ) {
            None => Step::Unexpected,
            Some(full) => written_back(
                full,
                cells,
                base,
                list,
                write_back,
                c.pc.wrapping_add(len),
            ),
        },
    }
}

/// What a store of a block does.
pub open spec fn block_stored(
    c: Cpu,
    cells: Seq<bool>,
    storage_bits: int,
    base: int,
    list: u16,
    write_back: bool,
    len: u32,
) -> Step {
    match c.offsets[base] {
        None => Step::Unexpected,
        Some(from) => match c.store_list(cells, storage_bits, list, from.wrapping_add(0), 0, 0) {
            None => Step::Unexpected,
            Some(stored) => written_back(
                c,
                stored,
                base,
                list,
                write_back,
                c.pc.wrapping_add(len),
            ),
        },
    }
}

/// The base of a block moved past it.
pub open spec fn written_back(
    c: Cpu,
    cells: Seq<bool>,
    base: int,
    list: u16,
    write_back: bool,
    pc: u32,
) -> Step {
    if !write_back {
        Step::Next { cpu: c, cells, pc }
    } else if base != 13 {
        Step::Unexpected
    } else {
        Step::Next {
            cpu: c.adjust_sp(c.sp.wrapping_add((4 * listed_below(list, 16)) as u32)),
            cells,
            pc,
        }
    }
}

} // verus!
