//! What the loads and stores do, in numbers: the address they meet, and the
//! bits they move there.
use crate::thumb::control::Answers;
use crate::thumb::effects::{after, flags_stay, free, goes_on, only, two, value};
use crate::thumb::exec::Frame;
use crate::thumb::machine::{shaped, Cpu, Step};
use crate::thumb::op::{Decoded, LoadKind, Op};
use vstd::arithmetic::power2::*;
use vstd::prelude::*;

verus! {

/// The number of bytes, low byte first, as two's complement where `sign`.
pub open spec fn little(bytes: Seq<u8>, sign: bool) -> int {
    if bytes.len() == 1 {
        if sign && bytes[0] >= 0x80 {
            bytes[0] - 0x100
        } else {
            bytes[0] as int
        }
    } else if bytes.len() == 2 {
        let v = bytes[0] + 0x100 * bytes[1];
        if sign && v >= 0x8000 {
            v - 0x1_0000
        } else {
            v
        }
    } else {
        bytes[0] + 0x100 * bytes[1] + 0x1_0000 * bytes[2] + 0x100_0000 * bytes[3]
    }
}

/// The step loads `width` bytes of the image at `at` into register `d`, or is
/// refused where they are not mapped.
pub open spec fn reads_image(
    s: Step,
    c: Cpu,
    cells: Seq<bool>,
    frame: Frame<'_>,
    len: int,
    d: int,
    at: int,
    width: nat,
    sign: bool,
) -> bool {
    let n = after(s);
    match frame.mem.reads(at as u32, width) {
        None => s == Step::Unexpected,
        Some(bytes) => {
            &&& goes_on(s, c, cells, len)
            &&& only(c, n, d)
            &&& flags_stay(c, n)
            &&& n.known[d]
            &&& n.offsets[d] is None
            &&& value(n, d) == little(bytes, sign) % 0x1_0000_0000
        },
    }
}

/// The step loads `width` bytes at `offset` from register `base` into register
/// `d`: from the stack where the register points there, and else from the image
/// at the address that the host knows.
pub open spec fn loads(
    s: Step,
    c: Cpu,
    cells: Seq<bool>,
    frame: Frame<'_>,
    len: int,
    d: int,
    base: int,
    offset: int,
    width: nat,
    sign: bool,
) -> bool {
    let n = after(s);
    match c.offsets[base] {
        Some(from) => {
            let at = 8 * ((c.sp + from + offset) % 0x1_0000_0000);
            if at + 8 * width <= frame.storage_bits {
                &&& goes_on(s, c, cells, len)
                &&& only(c, n, d)
                &&& flags_stay(c, n)
                &&& !n.known[d]
                &&& n.offsets[d] is None
                &&& forall|i: int|
                    0 <= i < 32 ==> #[trigger] n.regs[d][i] == if i < 8 * width {
                        cells[at + i]
                    } else {
                        sign && cells[at + 8 * width - 1]
                    }
            } else {
                s == Step::Unexpected
            }
        },
        None => if c.known[base] {
            reads_image(
                s,
                c,
                cells,
                frame,
                len,
                d,
                (value(c, base) + offset) % 0x1_0000_0000,
                width,
                sign,
            )
        } else {
            s == Step::Unexpected
        },
    }
}

/// The cells after the low `8 * width` bits of `word` went to bit `at`.
pub open spec fn holds_word(
    cells: Seq<bool>,
    left: Seq<bool>,
    at: int,
    word: Seq<bool>,
    width: int,
) -> bool {
    &&& left.len() == cells.len()
    &&& forall|i: int|
        0 <= i < cells.len() ==> #[trigger] left[i] == if at <= i < at + 8 * width {
            word[i - at]
        } else {
            cells[i]
        }
}

/// The step stores the low `width` bytes of register `source` on the stack, at
/// `offset` from where register `base` points, and is refused where that is no
/// place of the stack.
pub open spec fn stores(
    s: Step,
    c: Cpu,
    cells: Seq<bool>,
    frame: Frame<'_>,
    len: int,
    source: int,
    base: int,
    offset: int,
    width: int,
) -> bool {
    match c.offsets[base] {
        None => s == Step::Unexpected,
        Some(from) => {
            let at = 8 * ((c.sp + from + offset) % 0x1_0000_0000);
            if at + 8 * width <= frame.storage_bits {
                &&& s matches Step::Next { cells: left, .. } && goes_on(s, c, left, len)
                    && holds_word(cells, left, at, c.regs[source], width)
                &&& only(c, after(s), 16)
                &&& flags_stay(c, after(s))
            } else {
                s == Step::Unexpected
            }
        },
    }
}

/// How many bytes a load reads.
pub open spec fn bytes_read(kind: LoadKind) -> nat {
    match kind {
        LoadKind::ByteSigned | LoadKind::ByteUnsigned => 1,
        LoadKind::HalfSigned | LoadKind::HalfUnsigned => 2,
        LoadKind::Word => 4,
    }
}

/// Whether it extends the sign of what it read.
pub open spec fn reads_signed(kind: LoadKind) -> bool {
    kind == LoadKind::ByteSigned || kind == LoadKind::HalfSigned
}

/// The number that a load makes of the image.
proof fn loaded_number(frame: Frame<'_>, at: u32, kind: LoadKind)
    ensures
        match frame.mem.reads(at, bytes_read(kind)) {
            None => crate::thumb::stack::loaded(frame.mem, at, kind) is None,
            Some(bytes) => crate::thumb::stack::loaded(frame.mem, at, kind) matches Some(v) && v
                == little(bytes, reads_signed(kind)) % 0x1_0000_0000,
        },
{
    match frame.mem.reads(at, bytes_read(kind)) {
        None => {},
        Some(bytes) => {
            crate::memory::le_num_bound(bytes);
            match kind {
                LoadKind::ByteSigned | LoadKind::ByteUnsigned => {
                    crate::memory::le_num_1(bytes);
                },
                LoadKind::HalfSigned | LoadKind::HalfUnsigned => {
                    crate::memory::le_num_2(bytes);
                },
                LoadKind::Word => {
                    crate::memory::le_num_4(bytes);
                },
            }
        },
    }
}

/// Where `pc` goes with the end of an instruction.
proof fn falls(pc: u32, len: u32)
    requires
        len == 2 || len == 4,
    ensures
        pc.wrapping_add(len) as int == (pc + len) % 0x1_0000_0000,
{
}

/// Where a signed distance from an address leads.
pub proof fn place(sp: u32, from: i32, offset: i32)
    ensures
        sp.wrapping_add_signed(from.wrapping_add(offset)) as int == (sp + from + offset) % 0x1_0000_0000,
        sp.wrapping_add_signed(offset) as int == (sp + offset) % 0x1_0000_0000,
{
    let w = from.wrapping_add(offset);
    assert(w == from + offset || w == from + offset - 0x1_0000_0000 || w == from + offset
        + 0x1_0000_0000);
    let t = sp.wrapping_add_signed(w);
    assert(t == sp + w || t == sp + w - 0x1_0000_0000 || t == sp + w + 0x1_0000_0000);
    let q = sp.wrapping_add_signed(offset);
    assert(q == sp + offset || q == sp + offset - 0x1_0000_0000 || q == sp + offset + 0x1_0000_0000);
}

proof fn congruent(a: int, x: int, y: int)
    requires
        (x - y) % 0x1_0000_0000 == 0,
    ensures
        (a + x) % 0x1_0000_0000 == (a + y) % 0x1_0000_0000,
{
}

/// A load or store that goes on, or is refused.
proof fn fell(
    c: Cpu,
    cells: Seq<bool>,
    frame: Frame<'_>,
    answers: Answers,
    d: Decoded,
    state: Option<Cpu>,
    left: Option<Seq<bool>>,
)
    requires
        free(c, answers),
        crate::thumb::early_exit::instruction_at(frame.mem, c.pc) == Ok::<
            Decoded,
            crate::thumb::early_exit::FetchError,
        >(d),
        d.len == 2 || d.len == 4,
        c.perform(cells, frame, d.operation, d.len, answers) == crate::thumb::stack::fall_through(
            state,
            left,
            c.pc.wrapping_add(d.len),
        ),
        state matches Some(n) ==> n.itstate == 0,
    ensures
        state is None || left is None ==> c.step(cells, frame, answers) == Step::Unexpected,
        state is Some && left is Some ==> goes_on(
            c.step(cells, frame, answers),
            c,
            left->0,
            d.len as int,
        ) && after(c.step(cells, frame, answers)) == (Cpu {
            pc: c.pc.wrapping_add(d.len),
            ..state->0
        }),
{
    crate::thumb::effects::performs(c, cells, frame, answers, d);
    falls(c.pc, d.len);
}

/// What a load does, once it is refused or its state is known.
pub open spec fn load_outcome(s: Step, c: Cpu, cells: Seq<bool>, len: u32, l: Option<Cpu>) -> bool {
    &&& l is None ==> s == Step::Unexpected
    &&& l matches Some(n) ==> goes_on(s, c, cells, len as int) && after(s) == (Cpu {
        pc: c.pc.wrapping_add(len),
        ..n
    })
}

/// A load by its outcome.
proof fn load_numbers(
    s: Step,
    c: Cpu,
    cells: Seq<bool>,
    frame: Frame<'_>,
    len: u32,
    dest: int,
    base: int,
    offset: i32,
    kind: LoadKind,
)
    requires
        shaped(c),
        0 <= dest < 16,
        0 <= base < 15,
        load_outcome(
            s,
            c,
            cells,
            len,
            c.load(cells, frame.mem, frame.storage_bits, dest, base, offset, kind),
        ),
    ensures
        loads(
            s,
            c,
            cells,
            frame,
            len as int,
            dest,
            base,
            offset as int,
            bytes_read(kind),
            reads_signed(kind),
        ),
{
    let l = c.load(cells, frame.mem, frame.storage_bits, dest, base, offset, kind);
    let width = crate::thumb::stack::load_bits(kind);
    assert(width == 8 * bytes_read(kind));
    match c.offsets[base] {
        Some(from) => {
            place(c.sp, from, offset);
            let at = 8 * ((c.sp + from + offset) % 0x1_0000_0000);
            if at + width <= frame.storage_bits {
                let w = crate::thumb::stack::extended(cells, at, kind);
                assert(l == Some(c.write(dest, w, false)));
                assert(after(s).regs[dest] == w);
            }
        },
        None => {
            if c.known[base] {
                crate::thumb::effects::word_facts(c.regs[base]);
                let v = crate::bits::num(c.regs[base]) as u32;
                place(v, 0, offset);
                let at = v.wrapping_add_signed(offset);
                loaded_number(frame, at, kind);
                match crate::thumb::stack::loaded(frame.mem, at, kind) {
                    Some(v) => {
                        crate::concrete::word_num(v);
                        assert(after(s).regs[dest] == crate::concrete::word(v));
                    },
                    None => {},
                }
            }
        },
    }
}

/// A load goes by the address it meets.
pub proof fn load_in_numbers(
    c: Cpu,
    cells: Seq<bool>,
    frame: Frame<'_>,
    answers: Answers,
    d: Decoded,
    dest: u8,
    base: u8,
    offset: i32,
    kind: LoadKind,
)
    requires
        free(c, answers),
        crate::thumb::early_exit::instruction_at(frame.mem, c.pc) == Ok::<
            Decoded,
            crate::thumb::early_exit::FetchError,
        >(d),
        d.len == 2 || d.len == 4,
        dest < 16,
        base < 15,
        d.operation == (Op::Load { dest, base, offset, kind }),
    ensures
        loads(
            c.step(cells, frame, answers),
            c,
            cells,
            frame,
            d.len as int,
            dest as int,
            base as int,
            offset as int,
            bytes_read(kind),
            reads_signed(kind),
        ),
{
    let l = c.load(cells, frame.mem, frame.storage_bits, dest as int, base as int, offset, kind);
    fell(c, cells, frame, answers, d, l, Some(cells));
    load_numbers(
        c.step(cells, frame, answers),
        c,
        cells,
        frame,
        d.len,
        dest as int,
        base as int,
        offset,
        kind,
    );
}

proof fn loads_alike(
    s: Step,
    c: Cpu,
    cells: Seq<bool>,
    frame: Frame<'_>,
    len: int,
    d: int,
    base: int,
    x: int,
    y: int,
    width: nat,
    sign: bool,
)
    requires
        (x - y) % 0x1_0000_0000 == 0,
        loads(s, c, cells, frame, len, d, base, x, width, sign),
    ensures
        loads(s, c, cells, frame, len, d, base, y, width, sign),
{
    congruent(value(c, base), x, y);
    match c.offsets[base] {
        Some(from) => {
            congruent(c.sp + from, x, y);
            assert((c.sp + from + x) % 0x1_0000_0000 == (c.sp + from + y) % 0x1_0000_0000);
        },
        None => {},
    }
}

proof fn stores_alike(
    s: Step,
    c: Cpu,
    cells: Seq<bool>,
    frame: Frame<'_>,
    len: int,
    source: int,
    base: int,
    x: int,
    y: int,
    width: int,
)
    requires
        (x - y) % 0x1_0000_0000 == 0,
        stores(s, c, cells, frame, len, source, base, x, width),
    ensures
        stores(s, c, cells, frame, len, source, base, y, width),
{
    match c.offsets[base] {
        Some(from) => {
            congruent(c.sp + from, x, y);
            assert((c.sp + from + x) % 0x1_0000_0000 == (c.sp + from + y) % 0x1_0000_0000);
        },
        None => {},
    }
}

/// A load with an index register, which the host must know.
pub proof fn indexed_load_in_numbers(
    c: Cpu,
    cells: Seq<bool>,
    frame: Frame<'_>,
    answers: Answers,
    d: Decoded,
    dest: u8,
    base: u8,
    index: u8,
    shift: u8,
    kind: LoadKind,
)
    requires
        free(c, answers),
        crate::thumb::early_exit::instruction_at(frame.mem, c.pc) == Ok::<
            Decoded,
            crate::thumb::early_exit::FetchError,
        >(d),
        d.len == 2 || d.len == 4,
        dest < 16,
        base < 15,
        index < 16,
        shift < 4,
        d.operation == (Op::LoadIndexed { dest, base, index, shift, kind }),
    ensures
        c.known[index as int] ==> loads(
            c.step(cells, frame, answers),
            c,
            cells,
            frame,
            d.len as int,
            dest as int,
            base as int,
            value(c, index as int) * pow2(shift as nat),
            bytes_read(kind),
            reads_signed(kind),
        ),
        !c.known[index as int] ==> c.step(cells, frame, answers) == Step::Unexpected,
{
    index_in_numbers(c, index as int, shift);
    if c.known[index as int] {
        let offset = c.index_offset(index as int, shift)->0;
        let l = c.load(cells, frame.mem, frame.storage_bits, dest as int, base as int, offset, kind);
        fell(c, cells, frame, answers, d, l, Some(cells));
        load_numbers(
            c.step(cells, frame, answers),
            c,
            cells,
            frame,
            d.len,
            dest as int,
            base as int,
            offset,
            kind,
        );
        let far = value(c, index as int) * pow2(shift as nat);
        loads_alike(
            c.step(cells, frame, answers),
            c,
            cells,
            frame,
            d.len as int,
            dest as int,
            base as int,
            offset as int,
            far,
            bytes_read(kind),
            reads_signed(kind),
        );
    } else {
        crate::thumb::effects::performs(c, cells, frame, answers, d);
    }
}

/// A load relative to the program counter counts from the word that holds the
/// address four bytes on.
pub proof fn literal_in_numbers(
    c: Cpu,
    cells: Seq<bool>,
    frame: Frame<'_>,
    answers: Answers,
    d: Decoded,
    dest: u8,
    offset: i32,
)
    requires
        free(c, answers),
        crate::thumb::early_exit::instruction_at(frame.mem, c.pc) == Ok::<
            Decoded,
            crate::thumb::early_exit::FetchError,
        >(d),
        d.len == 2 || d.len == 4,
        dest < 16,
        d.operation == (Op::Load { dest, base: 15, offset, kind: LoadKind::Word }),
    ensures
        ({
            let from = (c.pc + 4) % 0x1_0000_0000;
            reads_image(
                c.step(cells, frame, answers),
                c,
                cells,
                frame,
                d.len as int,
                dest as int,
                (from - from % 4 + offset) % 0x1_0000_0000,
                4,
                false,
            )
        }),
{
    aligned(c.pc);
    let l = c.load(cells, frame.mem, frame.storage_bits, dest as int, 15, offset, LoadKind::Word);
    fell(c, cells, frame, answers, d, l, Some(cells));
    place(crate::thumb::decode::pc_aligned(c.pc), 0, offset);
    let at = crate::thumb::decode::pc_aligned(c.pc).wrapping_add_signed(offset);
    loaded_number(frame, at, LoadKind::Word);
    match crate::thumb::stack::loaded(frame.mem, at, LoadKind::Word) {
        Some(v) => {
            crate::concrete::word_num(v);
            assert(after(c.step(cells, frame, answers)).regs[dest as int] == crate::concrete::word(v));
        },
        None => {},
    }
}

/// The word-aligned base of the forms relative to the program counter.
pub proof fn aligned(pc: u32)
    ensures
        ({
            let from = (pc + 4) % 0x1_0000_0000;
            &&& crate::thumb::decode::pc_base(pc) == from
            &&& crate::thumb::decode::pc_aligned(pc) == from - from % 4
        }),
{
    let from = crate::thumb::decode::pc_base(pc);
    word_forms(from);
}

/// A store by its outcome.
proof fn store_numbers(
    s: Step,
    c: Cpu,
    cells: Seq<bool>,
    frame: Frame<'_>,
    len: u32,
    source: int,
    base: int,
    offset: i32,
    width: int,
)
    requires
        shaped(c),
        0 <= source < 16,
        0 <= base < 16,
        width == 8 || width == 16 || width == 32,
        ({
            let l = c.store(cells, frame.storage_bits, source, base, offset, width);
            &&& l is None ==> s == Step::Unexpected
            &&& l matches Some(left) ==> goes_on(s, c, left, len as int) && after(s) == (Cpu {
                pc: c.pc.wrapping_add(len),
                ..c
            })
        }),
    ensures
        stores(s, c, cells, frame, len as int, source, base, offset as int, width / 8),
{
    match c.offsets[base] {
        Some(from) => {
            place(c.sp, from, offset);
        },
        None => {},
    }
}

/// A store goes by the place on the stack that it meets.
pub proof fn store_in_numbers(
    c: Cpu,
    cells: Seq<bool>,
    frame: Frame<'_>,
    answers: Answers,
    d: Decoded,
    source: u8,
    base: u8,
    offset: i32,
    width: usize,
)
    requires
        free(c, answers),
        crate::thumb::early_exit::instruction_at(frame.mem, c.pc) == Ok::<
            Decoded,
            crate::thumb::early_exit::FetchError,
        >(d),
        d.len == 2 || d.len == 4,
        source < 16,
        base < 16,
        width == 8 || width == 16 || width == 32,
        d.operation == (Op::Store { source, base, offset, width }),
    ensures
        stores(
            c.step(cells, frame, answers),
            c,
            cells,
            frame,
            d.len as int,
            source as int,
            base as int,
            offset as int,
            width as int / 8,
        ),
{
    let l = c.store(cells, frame.storage_bits, source as int, base as int, offset, width as int);
    fell(c, cells, frame, answers, d, Some(c), l);
    store_numbers(
        c.step(cells, frame, answers),
        c,
        cells,
        frame,
        d.len,
        source as int,
        base as int,
        offset,
        width as int,
    );
}

/// A store with an index register, which the host must know.
pub proof fn indexed_store_in_numbers(
    c: Cpu,
    cells: Seq<bool>,
    frame: Frame<'_>,
    answers: Answers,
    d: Decoded,
    source: u8,
    base: u8,
    index: u8,
    shift: u8,
    width: usize,
)
    requires
        free(c, answers),
        crate::thumb::early_exit::instruction_at(frame.mem, c.pc) == Ok::<
            Decoded,
            crate::thumb::early_exit::FetchError,
        >(d),
        d.len == 2 || d.len == 4,
        source < 16,
        base < 16,
        index < 16,
        shift < 4,
        width == 8 || width == 16 || width == 32,
        d.operation == (Op::StoreIndexed { source, base, index, shift, width }),
    ensures
        c.known[index as int] ==> stores(
            c.step(cells, frame, answers),
            c,
            cells,
            frame,
            d.len as int,
            source as int,
            base as int,
            value(c, index as int) * pow2(shift as nat),
            width as int / 8,
        ),
        !c.known[index as int] ==> c.step(cells, frame, answers) == Step::Unexpected,
{
    index_in_numbers(c, index as int, shift);
    if c.known[index as int] {
        let offset = c.index_offset(index as int, shift)->0;
        let l = c.store(cells, frame.storage_bits, source as int, base as int, offset, width as int);
        fell(c, cells, frame, answers, d, Some(c), l);
        store_numbers(
            c.step(cells, frame, answers),
            c,
            cells,
            frame,
            d.len,
            source as int,
            base as int,
            offset,
            width as int,
        );
        let far = value(c, index as int) * pow2(shift as nat);
        stores_alike(
            c.step(cells, frame, answers),
            c,
            cells,
            frame,
            d.len as int,
            source as int,
            base as int,
            offset as int,
            far,
            width as int / 8,
        );
    } else {
        crate::thumb::effects::performs(c, cells, frame, answers, d);
    }
}

/// An index counts as the number in its register, times a power of two; one
/// that the host does not know is refused.
pub proof fn index_in_numbers(c: Cpu, index: int, shift: u8)
    requires
        shaped(c),
        0 <= index < 16,
        shift < 4,
    ensures
        match c.index_offset(index, shift) {
            None => !c.known[index],
            Some(offset) => c.known[index] && (offset - value(c, index) * pow2(shift as nat))
                % 0x1_0000_0000 == 0,
        },
{
    crate::thumb::effects::word_facts(c.regs[index]);
    let v = value(c, index) as u32;
    let k = shift as u32;
    let r = v.wrapping_shl(k);
    lemma2_to64();
    assert(r == v << k);
    word_forms(v);
    word_forms(r);
    assert(pow2(0) == 1 && pow2(1) == 2 && pow2(2) == 4 && pow2(3) == 8);
    assert(shift == 0 || shift == 1 || shift == 2 || shift == 3);
}

/// Small shifts, alignment, and the signed reading of a 32-bit number.
pub proof fn word_forms(v: u32)
    ensures
        v << 0u32 == v,
        v << 1u32 == (2 * v) % 0x1_0000_0000,
        v << 2u32 == (4 * v) % 0x1_0000_0000,
        v << 3u32 == (8 * v) % 0x1_0000_0000,
        v & !3u32 == v - v % 4,
        v | 1 == v + 1 - v % 2,
        (v as i32) as int == two(v as int),
{
    assert(v << 0u32 == v && (v << 1u32) as u64 == (2 * (v as u64)) % 0x1_0000_0000 && (v << 2u32)
        as u64 == (4 * (v as u64)) % 0x1_0000_0000 && (v << 3u32) as u64 == (8 * (v as u64))
        % 0x1_0000_0000 && v & !3u32 == v - v % 4 && v | 1 == v + 1 - v % 2 && (v >= 0x8000_0000u32
        ==> ((v as i32) as i64) == (v as i64) - 0x1_0000_0000i64) && (v < 0x8000_0000u32 ==> ((v as i32)
        as i64) == v as i64)) by (bit_vector);
}

} // verus!
