//! Blocks of registers: which words a push, a pop or a block transfer moves, and
//! where on the stack each of them lies.
use crate::storage;
use crate::thumb::control::Answers;
use crate::thumb::effects::{after, flags_stay, free, goes_on, only, settled, stands, value};
use crate::thumb::exec::Frame;
use crate::thumb::machine::{shaped, Cpu, Step};
use crate::thumb::narrow::stack_moves;
use crate::thumb::op::{DecodeError, Decoded, Op};
use crate::thumb::stack::{listed, listed_below, slot_offset, stack_range};
use crate::thumb::wide::pair;
use vstd::prelude::*;

verus! {

/// How many of the first `k` registers a block has.
pub open spec fn among(l: Seq<bool>, k: int) -> int
    decreases k,
{
    if k <= 0 {
        0
    } else {
        among(l, k - 1) + if l[k - 1] {
            1int
        } else {
            0
        }
    }
}

/// The registers of a list, by its bits.
pub open spec fn members(list: u16) -> Seq<bool> {
    Seq::new(16, |r: int| (list >> (r as u16)) & 1 != 0)
}

proof fn among_counts(list: u16, k: int)
    requires
        k <= 16,
    ensures
        among(members(list), k) == listed_below(list, k),
    decreases k,
{
    if k > 0 {
        among_counts(list, k - 1);
    }
}

/// Counts grow.
proof fn among_grows(l: Seq<bool>, j: int, k: int)
    requires
        0 <= j <= k,
    ensures
        0 <= among(l, j) <= among(l, k) <= among(l, j) + (k - j),
    decreases k,
{
    if j < k {
        among_grows(l, j, k - 1);
    } else if j > 0 {
        among_grows(l, j - 1, j - 1);
    }
}

/// Where a slot lies.
proof fn slot_place(sp: u32, from: i32, slot: int, bits: int)
    requires
        0 <= slot < 16,
        0 <= sp + from,
        sp + from + 64 <= 0x1_0000_0000,
    ensures
        stack_range(sp, slot_offset(from, slot), 32, bits) == if 8 * (sp + from + 4 * slot) + 32 <= bits {
            Some(8 * (sp + from + 4 * slot))
        } else {
            None::<int>
        },
{
    let o = (4 * slot) as i32;
    crate::thumb::accesses::place(sp, from, o);
}

/// The registers of the block from `r` up lie in their slots, and nothing outside
/// the slots changed.
pub open spec fn laid(c: Cpu, cells: Seq<bool>, left: Seq<bool>, l: Seq<bool>, at: int, r: int) -> bool {
    &&& left.len() == cells.len()
    &&& forall|k: int, i: int|
        r <= k < 16 && l[k] && 0 <= i < 32 ==> left[8 * (at + 4 * among(l, k)) + i]
            == #[trigger] c.regs[k][i]
    &&& forall|j: int|
        0 <= j < cells.len() && (j < 8 * (at + 4 * among(l, r)) || j >= 8 * (at + 4 * among(l, 16)))
            ==> #[trigger] left[j] == cells[j]
}

proof fn stored_from(c: Cpu, cells: Seq<bool>, bits: int, list: u16, from: i32, r: int)
    requires
        shaped(c),
        0 <= r <= 16,
        0 <= c.sp + from,
        c.sp + from + 64 <= 0x1_0000_0000,
        bits <= cells.len(),
    ensures
        ({
            let l = members(list);
            let at = c.sp + from;
            match c.store_list(cells, bits, list, from, r, among(l, r)) {
                None => among(l, r) < among(l, 16) && 8 * (at + 4 * among(l, 16)) > bits,
                Some(left) => (among(l, r) == among(l, 16) || 8 * (at + 4 * among(l, 16)) <= bits) && laid(
                    c,
                    cells,
                    left,
                    l,
                    at,
                    r,
                ),
            }
        }),
    decreases 16 - r,
{
    let l = members(list);
    let at = c.sp + from;
    among_grows(l, 0, r);
    among_grows(l, r, 16);
    if r < 16 {
        among_grows(l, r + 1, 16);
        assert(l[r] == listed(list, r));
        if l[r] {
            let slot = among(l, r);
            slot_place(c.sp, from, slot, bits);
            if 8 * (at + 4 * slot) + 32 <= bits {
                let start = 8 * (at + 4 * slot);
                let next = storage::overwrite(cells, start, c.regs[r]);
                stored_from(c, next, bits, list, from, r + 1);
                match c.store_list(next, bits, list, from, r + 1, slot + 1) {
                    None => {},
                    Some(left) => {
                        assert forall|k: int, i: int|
                            r <= k < 16 && l[k] && 0 <= i < 32 implies left[8 * (at + 4 * among(l, k)) + i]
                            == #[trigger] c.regs[k][i] by {
                            if k == r {
                                assert(left[start + i] == next[start + i]);
                            }
                        }
                        assert forall|j: int|
                            0 <= j < cells.len() && (j < 8 * (at + 4 * among(l, r)) || j >= 8 * (at + 4
                                * among(l, 16))) implies #[trigger] left[j] == cells[j] by {
                            assert(left[j] == next[j]);
                        }
                    },
                }
            }
        } else {
            stored_from(c, cells, bits, list, from, r + 1);
            assert(among(l, r + 1) == among(l, r));
        }
    }
}

/// Register `k` holds its slot, where it is in the block and not below `r`, and
/// else what it held.
pub open spec fn refilled(
    c: Cpu,
    n: Cpu,
    cells: Seq<bool>,
    l: Seq<bool>,
    at: int,
    k: int,
    r: int,
    pop: bool,
) -> bool {
    let place = at + 4 * among(l, k);
    if r <= k && l[k] && !(pop && k == 15) {
        &&& n.regs[k] == cells.subrange(8 * place, 8 * place + 32)
        &&& !n.known[k]
        &&& n.offsets[k] is None
    } else {
        &&& n.regs[k] == c.regs[k]
        &&& n.known[k] == c.known[k]
        &&& n.offsets[k] == c.offsets[k]
    }
}

/// The registers of the block from `r` up hold their slots, and the others, the
/// flags and the rest are as they were. A popped program counter is not kept.
pub open spec fn fetched_block(
    c: Cpu,
    n: Cpu,
    cells: Seq<bool>,
    l: Seq<bool>,
    at: int,
    r: int,
    pop: bool,
) -> bool {
    &&& shaped(n)
    &&& forall|k: int| 0 <= k < 16 ==> #[trigger] refilled(c, n, cells, l, at, k, r, pop)
    &&& n.pc == c.pc
    &&& n.flags == c.flags
    &&& n.flags_known == c.flags_known
    &&& n.itstate == c.itstate
    &&& n.sp == c.sp
    &&& n.rstack == c.rstack
    &&& n.rsp == c.rsp
    &&& n.security == c.security
    &&& n.sites == c.sites
}

proof fn one_more(c: Cpu, next: Cpu, n: Cpu, cells: Seq<bool>, l: Seq<bool>, at: int, r: int, pop: bool)
    requires
        shaped(c),
        0 <= r < 16,
        l.len() == 16,
        fetched_block(next, n, cells, l, at, r + 1, pop),
        ({
            let place = 8 * (at + 4 * among(l, r));
            next == if l[r] && !(pop && r == 15) {
                c.write(r, cells.subrange(place, place + 32), false)
            } else {
                c
            }
        }),
    ensures
        fetched_block(c, n, cells, l, at, r, pop),
{
    assert forall|k: int| 0 <= k < 16 implies #[trigger] refilled(c, n, cells, l, at, k, r, pop) by {
        assert(refilled(next, n, cells, l, at, k, r + 1, pop));
    }
}

proof fn loaded_from(c: Cpu, cells: Seq<bool>, bits: int, list: u16, from: i32, r: int, pop: bool)
    requires
        shaped(c),
        0 <= r <= 16,
        0 <= c.sp + from,
        c.sp + from + 64 <= 0x1_0000_0000,
        bits <= cells.len(),
    ensures
        ({
            let l = members(list);
            let at = c.sp + from;
            match c.load_list(cells, bits, list, from, r, among(l, r), pop) {
                None => among(l, r) < among(l, 16) && 8 * (at + 4 * among(l, 16)) > bits,
                Some(n) => (among(l, r) == among(l, 16) || 8 * (at + 4 * among(l, 16)) <= bits)
                    && fetched_block(c, n, cells, l, at, r, pop),
            }
        }),
    decreases 16 - r,
{
    let l = members(list);
    let at = c.sp + from;
    among_grows(l, 0, r);
    among_grows(l, r, 16);
    if r < 16 {
        among_grows(l, r + 1, 16);
        assert(l[r] == listed(list, r));
        if l[r] {
            let slot = among(l, r);
            slot_place(c.sp, from, slot, bits);
            let start = 8 * (at + 4 * slot);
            if start + 32 <= bits {
                let next = if pop && r == 15 {
                    c
                } else {
                    c.write(r, cells.subrange(start, start + 32), false)
                };
                assert(shaped(next));
                loaded_from(next, cells, bits, list, from, r + 1, pop);
                let rest = next.load_list(cells, bits, list, from, r + 1, slot + 1, pop);
                assert(c.load_list(cells, bits, list, from, r, slot, pop) == rest);
                if rest is Some {
                    one_more(c, next, rest->0, cells, l, at, r, pop);
                }
            }
        } else {
            loaded_from(c, cells, bits, list, from, r + 1, pop);
            let slot = among(l, r);
            let rest = c.load_list(cells, bits, list, from, r + 1, slot, pop);
            assert(c.load_list(cells, bits, list, from, r, slot, pop) == rest);
            if rest is Some {
                one_more(c, c, rest->0, cells, l, at, r, pop);
            }
        }
    }
}

/// What a push of the registers `l` does: the stack pointer moves down by their
/// size, and they lie in ascending order from there.
pub open spec fn pushes(s: Step, c: Cpu, cells: Seq<bool>, frame: Frame<'_>, len: int, l: Seq<bool>) -> bool {
    let size = 4 * among(l, 16);
    let n = after(s);
    if c.sp < size || (size > 0 && 8 * c.sp > frame.storage_bits) {
        s == Step::Unexpected
    } else {
        &&& s matches Step::Next { cells: left, .. } && goes_on(s, c, left, len) && laid(
            n,
            cells,
            left,
            l,
            c.sp - size,
            0,
        )
        &&& stack_moves(c, n, -size)
        &&& flags_stay(c, n)
    }
}

proof fn push_in_numbers(c: Cpu, cells: Seq<bool>, frame: Frame<'_>, list: u16, len: u32)
    requires
        shaped(c),
        len == 2 || len == 4,
        c.sp + 64 <= 0x1_0000_0000,
        frame.storage_bits <= cells.len(),
    ensures
        ({
            let t = crate::thumb::stack::pushed(c, cells, frame.storage_bits, list, len);
            &&& crate::thumb::effects::calm(t) || c.itstate != 0
            &&& pushes(settled(t), c, cells, frame, len as int, members(list))
        }),
{
    let l = members(list);
    among_counts(list, 16);
    among_grows(l, 0, 16);
    let size = 4 * among(l, 16);
    if c.sp >= size {
        let sp = (c.sp - size) as u32;
        let down = c.adjust_sp(sp);
        let next = c.pc.wrapping_add(len);
        crate::thumb::narrow::moved_in_numbers(c, sp, -size, next);
        crate::thumb::narrow::moved_in_numbers(c, sp, -size, c.pc);
        assert(shaped(down));
        stored_from(down, cells, frame.storage_bits, list, 0, 0);
        match down.store_list(cells, frame.storage_bits, list, 0, 0, 0) {
            Some(left) => {
                let n = Cpu { pc: next, ..down };
                assert(laid(n, cells, left, l, c.sp - size, 0));
            },
            None => {},
        }
    }
}

/// What a pop of the registers `l` does: they take their words, in ascending
/// order from the stack pointer, which moves up by their size. A popped program
/// counter returns to the address on top of the control stack.
pub open spec fn pops(s: Step, c: Cpu, cells: Seq<bool>, frame: Frame<'_>, len: int, l: Seq<bool>) -> bool {
    let size = 4 * among(l, 16);
    let n = after(s);
    if (size > 0 && 8 * (c.sp + size) > frame.storage_bits) || (l[15] && c.rsp <= 0) {
        s == Step::Unexpected
    } else {
        &&& s matches Step::Next { cells: left, cpu, pc } && left == cells && cpu.pc == pc && pc as int
            == if l[15] {
            c.rstack[c.rsp - 1] as int
        } else {
            (c.pc + len) % 0x1_0000_0000
        }
        &&& n.rsp == if l[15] {
            c.rsp - 1
        } else {
            c.rsp
        }
        &&& n.rstack == c.rstack
        &&& n.sp as int == (c.sp + size) % 0x1_0000_0000
        &&& value(n, 13) == n.sp
        &&& forall|k: int|
            0 <= k < 15 && k != 13 ==> #[trigger] n.regs[k] == (if l[k] {
                cells.subrange(8 * (c.sp + 4 * among(l, k)), 8 * (c.sp + 4 * among(l, k)) + 32)
            } else {
                c.regs[k]
            }) && n.known[k] == (!l[k] && c.known[k])
        &&& flags_stay(c, n)
        &&& n.itstate == c.itstate
        &&& n.security == c.security
        &&& n.sites == c.sites
    }
}

#[verifier::rlimit(40)]
proof fn pop_in_numbers(c: Cpu, cells: Seq<bool>, frame: Frame<'_>, list: u16, len: u32)
    requires
        shaped(c),
        len == 2 || len == 4,
        c.sp + 64 <= 0x1_0000_0000,
        frame.storage_bits <= cells.len(),
    ensures
        ({
            let t = crate::thumb::stack::popped(c, cells, frame.storage_bits, list, len);
            &&& crate::thumb::effects::calm(t) || c.itstate != 0
            &&& pops(settled(t), c, cells, frame, len as int, members(list))
        }),
{
    let l = members(list);
    among_counts(list, 16);
    among_grows(l, 0, 16);
    let size = 4 * among(l, 16);
    loaded_from(c, cells, frame.storage_bits, list, 0, 0, true);
    assert(l[15] == listed(list, 15));
    match c.load_list(cells, frame.storage_bits, list, 0, 0, 0, true) {
        Some(full) => {
            let sp = full.sp.wrapping_add(size as u32);
            crate::thumb::narrow::moved_in_numbers(full, sp, size, full.pc);
            let up = full.adjust_sp(sp);
            assert(up.pc == full.pc);
            assert forall|k: int| 0 <= k < 15 && k != 13 implies #[trigger] up.regs[k] == (if l[k] {
                cells.subrange(8 * (c.sp + 4 * among(l, k)), 8 * (c.sp + 4 * among(l, k)) + 32)
            } else {
                c.regs[k]
            }) && up.known[k] == (!l[k] && c.known[k]) by {
                assert(refilled(c, full, cells, l, c.sp as int, k, 0, true));
            }
        },
        None => {},
    }
}

/// The registers that `PUSH` names: low ones, and the link register by its own
/// bit.
pub open spec fn pushed_by(x: u16) -> Seq<bool> {
    Seq::new(
        16,
        |r: int| (r < 8 && (x >> (r as u16)) & 1 != 0) || (r == 14 && (x >> 8) & 1 == 1),
    )
}

/// The registers that `POP` names: low ones, and the program counter by its own
/// bit.
pub open spec fn popped_by(x: u16) -> Seq<bool> {
    Seq::new(
        16,
        |r: int| (r < 8 && (x >> (r as u16)) & 1 != 0) || (r == 15 && (x >> 8) & 1 == 1),
    )
}

proof fn lists(x: u16, high: u16)
    requires
        high == 0 || high == 0x4000 || high == 0x8000,
    ensures
        high == (if (x >> 8) & 1 == 1 { 0x4000u16 } else { 0u16 }) ==> members((x & 255) | high)
            == pushed_by(x),
        high == (if (x >> 8) & 1 == 1 { 0x8000u16 } else { 0u16 }) ==> members((x & 255) | high)
            == popped_by(x),
{
    assert forall|r: u16| r < 16 implies #[trigger] (((x & 255) | high) >> r) & 1 != 0 <==> ((r < 8 && (x
        >> r) & 1 != 0) || (r == 14 && high == 0x4000) || (r == 15 && high == 0x8000)) by {
        assert(r < 16 && (high == 0 || high == 0x4000 || high == 0x8000) ==> ((((x & 255) | high) >> r) & 1
            != 0 <==> ((r < 8 && (x >> r) & 1 != 0) || (r == 14 && high == 0x4000) || (r == 15 && high
            == 0x8000)))) by (bit_vector);
    }
    let list = (x & 255) | high;
    assert forall|r: int| 0 <= r < 16 implies members(list)[r] == ((r < 8 && (x >> (r as u16)) & 1 != 0)
        || (r == 14 && high == 0x4000) || (r == 15 && high == 0x8000)) by {
        let k = r as u16;
        assert((((x & 255) | high) >> k) & 1 != 0 <==> ((k < 8 && (x >> k) & 1 != 0) || (k == 14 && high
            == 0x4000) || (k == 15 && high == 0x8000)));
    }
    if high == (if (x >> 8) & 1 == 1 { 0x4000u16 } else { 0u16 }) {
        assert(members(list) =~= pushed_by(x));
    }
    if high == (if (x >> 8) & 1 == 1 { 0x8000u16 } else { 0u16 }) {
        assert(members(list) =~= popped_by(x));
    }
}

proof fn pushes_decode(pc: u32, x: u16)
    requires
        x >> 9 == 0x5a || x >> 9 == 0x5e,
    ensures
        x >> 11 < 29,
        crate::thumb::decode::narrow_op(pc, x) matches Ok(d) && d.len == 2 && if x >> 9 == 0x5a {
            d.operation matches Op::Push { list } && members(list) == pushed_by(x)
        } else {
            d.operation matches Op::Pop { list } && members(list) == popped_by(x)
        },
{
    crate::thumb::narrow::control_fields(x);
    lists(x, 0);
    lists(x, 0x4000);
    lists(x, 0x8000);
}

/// `PUSH` and `POP`, of the low registers with the link register or with the
/// program counter.
pub proof fn pushes_and_pops(c: Cpu, cells: Seq<bool>, frame: Frame<'_>, answers: Answers, x: u16)
    requires
        free(c, answers),
        stands(frame, c.pc, x),
        c.sp + 64 <= 0x1_0000_0000,
        frame.storage_bits <= cells.len(),
        x >> 9 == 0x5a || x >> 9 == 0x5e,
    ensures
        x >> 9 == 0x5a ==> pushes(c.step(cells, frame, answers), c, cells, frame, 2, pushed_by(x)),
        x >> 9 == 0x5e ==> pops(c.step(cells, frame, answers), c, cells, frame, 2, popped_by(x)),
{
    pushes_decode(c.pc, x);
    crate::thumb::narrow::fetched(c, frame, x);
    let d = crate::thumb::decode::narrow_op(c.pc, x)->Ok_0;
    if x >> 9 == 0x5a {
        push_in_numbers(c, cells, frame, d.operation->Push_list, 2);
    } else {
        pop_in_numbers(c, cells, frame, d.operation->Pop_list, 2);
    }
    moves(c, cells, frame, answers, d);
}

/// A step at a load or store of a block.
pub proof fn moves(c: Cpu, cells: Seq<bool>, frame: Frame<'_>, answers: Answers, d: Decoded)
    requires
        free(c, answers),
        crate::thumb::early_exit::instruction_at(frame.mem, c.pc) == Ok::<
            Decoded,
            crate::thumb::early_exit::FetchError,
        >(d),
        crate::thumb::exec::class(d.operation) == crate::thumb::exec::Class::Memory,
        crate::thumb::effects::calm(c.access(cells, frame, d.operation, d.len)),
    ensures
        c.step(cells, frame, answers) == settled(c.access(cells, frame, d.operation, d.len)),
{
    crate::thumb::effects::performs(c, cells, frame, answers, d);
    assert(c.perform(cells, frame, d.operation, d.len, answers) == c.access(
        cells,
        frame,
        d.operation,
        d.len,
    ));
}

/// The short block transfers would write their base back, which only the stack
/// pointer may have done to it: they are refused.
pub proof fn short_blocks_are_refused(
    c: Cpu,
    cells: Seq<bool>,
    frame: Frame<'_>,
    answers: Answers,
    x: u16,
)
    requires
        free(c, answers),
        stands(frame, c.pc, x),
        x >> 11 == 24 || x >> 11 == 25,
    ensures
        c.step(cells, frame, answers) == Step::Unexpected,
{
    crate::thumb::narrow::memory_fields(x);
    crate::thumb::narrow::data_fields(x);
    crate::thumb::narrow::fetched(c, frame, x);
    let d = crate::thumb::decode::narrow_op(c.pc, x)->Ok_0;
    assert(c.access(cells, frame, d.operation, d.len) == Step::Unexpected);
    moves(c, cells, frame, answers, d);
}

proof fn wide_blocks_decode(pc: u32, f: u16, g: u16)
    requires
        f == 0xe92d || f == 0xe8bd || f >> 4 == 0xe88 || f >> 4 == 0xe89,
    ensures
        f >> 4 >= 0xe80,
        f & 15 < 16,
        crate::thumb::decode::wide_op(pc, f, g) == Ok::<Decoded, DecodeError>(
            Decoded {
                operation: if f == 0xe92d {
                    Op::Push { list: g }
                } else if f == 0xe8bd {
                    Op::Pop { list: g }
                } else if f >> 4 == 0xe88 {
                    Op::StoreMultiple { base: (f & 15) as u8, list: g, write_back: false }
                } else {
                    Op::LoadMultiple { base: (f & 15) as u8, list: g, write_back: false }
                },
                len: 4,
            },
        ),
{
    crate::thumb::wide::first_fields(f);
}

/// The wide `PUSH` and `POP`, of any registers.
pub proof fn wide_pushes_and_pops(
    c: Cpu,
    cells: Seq<bool>,
    frame: Frame<'_>,
    answers: Answers,
    f: u16,
    g: u16,
)
    requires
        free(c, answers),
        pair(frame, c.pc, f, g),
        c.sp + 64 <= 0x1_0000_0000,
        frame.storage_bits <= cells.len(),
        f == 0xe92d || f == 0xe8bd,
    ensures
        f == 0xe92d ==> pushes(c.step(cells, frame, answers), c, cells, frame, 4, members(g)),
        f == 0xe8bd ==> pops(c.step(cells, frame, answers), c, cells, frame, 4, members(g)),
{
    wide_blocks_decode(c.pc, f, g);
    crate::thumb::wide::fetched(c, frame, f, g);
    let d = crate::thumb::decode::wide_op(c.pc, f, g)->Ok_0;
    if f == 0xe92d {
        push_in_numbers(c, cells, frame, g, 4);
    } else {
        pop_in_numbers(c, cells, frame, g, 4);
    }
    moves(c, cells, frame, answers, d);
}

/// What a block transfer with the registers `l` does.
pub open spec fn transfers_block(
    s: Step,
    c: Cpu,
    cells: Seq<bool>,
    frame: Frame<'_>,
    base: int,
    l: Seq<bool>,
    store: bool,
) -> bool {
    let n = after(s);
    match c.offsets[base] {
        None => s == Step::Unexpected,
        Some(from) => {
            let at = c.sp + from;
            if among(l, 16) > 0 && 8 * (at + 4 * among(l, 16)) > frame.storage_bits {
                s == Step::Unexpected
            } else if store {
                &&& s matches Step::Next { cells: left, .. } && goes_on(s, c, left, 4) && laid(
                    c,
                    cells,
                    left,
                    l,
                    at,
                    0,
                )
                &&& only(c, n, 16)
                &&& flags_stay(c, n)
            } else {
                &&& goes_on(s, c, cells, 4)
                &&& fetched_block(c, (Cpu { pc: c.pc, ..n }), cells, l, at, 0, false)
            }
        },
    }
}

proof fn transfer_in_numbers(
    c: Cpu,
    cells: Seq<bool>,
    frame: Frame<'_>,
    base: u8,
    list: u16,
    store: bool,
)
    requires
        shaped(c),
        c.itstate == 0,
        base < 16,
        frame.storage_bits <= cells.len(),
        c.offsets[base as int] matches Some(from) ==> 0 <= c.sp + from && c.sp + from + 64
            <= 0x1_0000_0000,
    ensures
        ({
            let op = if store {
                Op::StoreMultiple { base, list, write_back: false }
            } else {
                Op::LoadMultiple { base, list, write_back: false }
            };
            let t = c.access(cells, frame, op, 4);
            &&& crate::thumb::effects::calm(t)
            &&& transfers_block(settled(t), c, cells, frame, base as int, members(list), store)
        }),
{
    among_grows(members(list), 0, 16);
    match c.offsets[base as int] {
        None => {},
        Some(from) => {
            assert(from.wrapping_add(0) == from);
            if store {
                stored_from(c, cells, frame.storage_bits, list, from, 0);
            } else {
                loaded_from(c, cells, frame.storage_bits, list, from, 0, false);
                match c.load_list(cells, frame.storage_bits, list, from, 0, 0, false) {
                    Some(full) => {
                        let pc = c.pc.wrapping_add(4);
                        assert((Cpu { pc: c.pc, ..(Cpu { pc, ..full }) }) == full);
                    },
                    None => {},
                }
            }
        },
    }
}

/// `STM` and `LDM` without write-back: the registers in ascending order from where
/// the base points on the stack.
pub proof fn block_transfers(
    c: Cpu,
    cells: Seq<bool>,
    frame: Frame<'_>,
    answers: Answers,
    f: u16,
    g: u16,
)
    requires
        free(c, answers),
        pair(frame, c.pc, f, g),
        f >> 4 == 0xe88 || f >> 4 == 0xe89,
        frame.storage_bits <= cells.len(),
        c.offsets[(f & 15) as int] matches Some(from) ==> 0 <= c.sp + from && c.sp + from + 64
            <= 0x1_0000_0000,
    ensures
        transfers_block(
            c.step(cells, frame, answers),
            c,
            cells,
            frame,
            (f & 15) as int,
            members(g),
            f >> 4 == 0xe88,
        ),
{
    wide_blocks_decode(c.pc, f, g);
    crate::thumb::wide::fetched(c, frame, f, g);
    let d = crate::thumb::decode::wide_op(c.pc, f, g)->Ok_0;
    assert(d.operation == if f >> 4 == 0xe88 {
        Op::StoreMultiple { base: (f & 15) as u8, list: g, write_back: false }
    } else {
        Op::LoadMultiple { base: (f & 15) as u8, list: g, write_back: false }
    }) by {
        crate::thumb::wide::first_fields(f);
    }
    transfer_in_numbers(c, cells, frame, (f & 15) as u8, g, f >> 4 == 0xe88);
    moves(c, cells, frame, answers, d);
}

} // verus!
