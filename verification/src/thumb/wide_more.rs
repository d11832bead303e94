//! The other thirty-two-bit encodings: loads and stores, products, branches, the
//! status register and the secure gateway.
use crate::thumb::accesses::{holds_word, loads, reads_image, stores};
use crate::thumb::control::Answers;
use crate::thumb::effects::{
    after, calm, flag_is, flags_stay, free, goes_on, only, settled, value,
};
use crate::thumb::exec::Frame;
use crate::thumb::handler::{ArmCallAction, SecurityAttribute, SecurityState};
use crate::thumb::jumps::{enters, jumps};
use crate::thumb::machine::{shaped, Cpu, Step};
use crate::thumb::op::{DecodeError, Decoded, LoadKind, Op};
use crate::thumb::wide::pair;
use vstd::arithmetic::power2::*;
use vstd::prelude::*;

verus! {

proof fn accesses_decode(pc: u32, f: u16, g: u16)
    requires
        f >> 4 == 0xf8d || f >> 4 == 0xf8c,
    ensures
        f >> 4 >= 0xe80,
        f & 15 < 16,
        g & 15 < 16,
        (g >> 8) & 15 < 16,
        (g >> 12) & 15 < 16,
        g & 0x0fff < 4096,
        crate::thumb::decode::wide_op(pc, f, g) == Ok::<Decoded, DecodeError>(Decoded { operation: if f >> 4 == 0xf8d {
                Op::Load {
                    dest: ((g >> 12) & 15) as u8,
                    base: (f & 15) as u8,
                    offset: (g & 0x0fff) as i32,
                    kind: LoadKind::Word,
                }
            } else {
                Op::Store {
                    source: ((g >> 12) & 15) as u8,
                    base: (f & 15) as u8,
                    offset: (g & 0x0fff) as i32,
                    width: 32,
                }
            }, len: 4 }),
{
    crate::thumb::wide::first_fields(f);
    crate::thumb::wide::second_fields(g);
}

/// `LDR` and `STR` with a twelve-bit offset.
pub proof fn far_accesses(
    c: Cpu,
    cells: Seq<bool>,
    frame: Frame<'_>,
    answers: Answers,
    f: u16,
    g: u16,
)
    requires
        free(c, answers),
        pair(frame, c.pc, f, g),
        f >> 4 == 0xf8d || f >> 4 == 0xf8c,
    ensures
        ({
            let s = c.step(cells, frame, answers);
            let t = ((g >> 12) & 15) as int;
            let base = (f & 15) as int;
            let far = (g & 0x0fff) as int;
            let from = (c.pc + 4) % 0x1_0000_0000;
            &&& f >> 4 == 0xf8d && base != 15 ==> loads(s, c, cells, frame, 4, t, base, far, 4, false)
            &&& f >> 4 == 0xf8d && base == 15 ==> reads_image(
                s,
                c,
                cells,
                frame,
                4,
                t,
                (from - from % 4 + far) % 0x1_0000_0000,
                4,
                false,
            )
            &&& f >> 4 == 0xf8c ==> stores(s, c, cells, frame, 4, t, base, far, 4)
        }),
{
    accesses_decode(c.pc, f, g);
    crate::thumb::wide::fetched(c, frame, f, g);
    let d = crate::thumb::decode::wide_op(c.pc, f, g)->Ok_0;
    let t = ((g >> 12) & 15) as u8;
    let base = (f & 15) as u8;
    let far = (g & 0x0fff) as i32;
    if f >> 4 == 0xf8c {
        crate::thumb::accesses::store_in_numbers(c, cells, frame, answers, d, t, base, far, 32);
    } else if base == 15 {
        crate::thumb::accesses::literal_in_numbers(c, cells, frame, answers, d, t, far);
    } else {
        crate::thumb::accesses::load_in_numbers(
            c,
            cells,
            frame,
            answers,
            d,
            t,
            base,
            far,
            LoadKind::Word,
        );
    }
}

proof fn indices_decode(pc: u32, f: u16, g: u16)
    requires
        f >> 4 == 0xf85 || f >> 4 == 0xf84,
        (g >> 6) & 63 == 0,
        f & 15 != 15,
    ensures
        f >> 4 >= 0xe80,
        f & 15 < 16,
        g & 15 < 16,
        (g >> 8) & 15 < 16,
        (g >> 12) & 15 < 16,
        (g >> 4) & 3 < 4,
        crate::thumb::decode::wide_op(pc, f, g) == Ok::<Decoded, DecodeError>(Decoded { operation: if f >> 4 == 0xf85 {
                Op::LoadIndexed {
                    dest: ((g >> 12) & 15) as u8,
                    base: (f & 15) as u8,
                    index: (g & 15) as u8,
                    shift: ((g >> 4) & 3) as u8,
                    kind: LoadKind::Word,
                }
            } else {
                Op::StoreIndexed {
                    source: ((g >> 12) & 15) as u8,
                    base: (f & 15) as u8,
                    index: (g & 15) as u8,
                    shift: ((g >> 4) & 3) as u8,
                    width: 32,
                }
            }, len: 4 }),
{
    crate::thumb::wide::first_fields(f);
    crate::thumb::wide::second_fields(g);
}

/// `LDR` and `STR` with an index register times a power of two.
pub proof fn scaled_accesses(
    c: Cpu,
    cells: Seq<bool>,
    frame: Frame<'_>,
    answers: Answers,
    f: u16,
    g: u16,
)
    requires
        free(c, answers),
        pair(frame, c.pc, f, g),
        f >> 4 == 0xf85 || f >> 4 == 0xf84,
        (g >> 6) & 63 == 0,
        f & 15 != 15,
    ensures
        ({
            let s = c.step(cells, frame, answers);
            let t = ((g >> 12) & 15) as int;
            let base = (f & 15) as int;
            let m = (g & 15) as int;
            let far = value(c, m) * pow2(((g >> 4) & 3) as nat);
            &&& !c.known[m] ==> s == Step::Unexpected
            &&& f >> 4 == 0xf85 && c.known[m] ==> loads(s, c, cells, frame, 4, t, base, far, 4, false)
            &&& f >> 4 == 0xf84 && c.known[m] ==> stores(s, c, cells, frame, 4, t, base, far, 4)
        }),
{
    indices_decode(c.pc, f, g);
    crate::thumb::wide::fetched(c, frame, f, g);
    let d = crate::thumb::decode::wide_op(c.pc, f, g)->Ok_0;
    let t = ((g >> 12) & 15) as u8;
    let base = (f & 15) as u8;
    let m = (g & 15) as u8;
    let k = ((g >> 4) & 3) as u8;
    if f >> 4 == 0xf84 {
        crate::thumb::accesses::indexed_store_in_numbers(c, cells, frame, answers, d, t, base, m, k, 32);
    } else {
        crate::thumb::accesses::indexed_load_in_numbers(
            c,
            cells,
            frame,
            answers,
            d,
            t,
            base,
            m,
            k,
            LoadKind::Word,
        );
    }
}

proof fn products_decode(pc: u32, f: u16, g: u16)
    requires
        f >> 4 == 0xfb0,
        (g >> 5) & 7 == 0,
    ensures
        f >> 4 >= 0xe80,
        f & 15 < 16,
        g & 15 < 16,
        (g >> 8) & 15 < 16,
        (g >> 12) & 15 < 16,
        crate::thumb::decode::wide_op(pc, f, g) == Ok::<Decoded, DecodeError>(Decoded { operation: Op::Multiply {
                dest: ((g >> 8) & 15) as u8,
                left: (f & 15) as u8,
                right: (g & 15) as u8,
                add: if (g >> 12) & 15 == 15 {
                    None
                } else {
                    Some(((g >> 12) & 15) as u8)
                },
                subtract: (g >> 4) & 1 == 1,
                set_flags: false,
            }, len: 4 }),
{
    crate::thumb::wide::first_fields(f);
    crate::thumb::wide::second_fields(g);
}

proof fn multiplied(x: Seq<bool>, y: Seq<bool>, a: Seq<bool>)
    requires
        x.len() == 32,
        y.len() == 32,
        a.len() == 32,
    ensures
        ({
            let p = crate::multiply::product_bits(crate::word::Product::Low, x, y);
            let v = crate::bits::num(x) * crate::bits::num(y);
            &&& p.len() == 32
            &&& crate::bits::num(p) == v % 0x1_0000_0000
            &&& crate::bits::num(crate::bits::add_of(p, a, false)) == (crate::bits::num(a) + v)
                % 0x1_0000_0000
            &&& crate::bits::num(crate::bits::sub_of(a, p)) == (crate::bits::num(a) - v) % 0x1_0000_0000
        }),
{
    let p = crate::multiply::product_bits(crate::word::Product::Low, x, y);
    let v = (crate::bits::num(x) * crate::bits::num(y)) as int;
    lemma2_to64();
    crate::bits::num_bits_of(v as nat, 32);
    crate::thumb::effects::sum_facts(p, a, false);
    crate::thumb::effects::difference_facts(a, p, true);
    reduced(crate::bits::num(a) as int, v);
}

proof fn reduced(a: int, v: int)
    ensures
        (a + v % 0x1_0000_0000) % 0x1_0000_0000 == (a + v) % 0x1_0000_0000,
        (v % 0x1_0000_0000 + a) % 0x1_0000_0000 == (a + v) % 0x1_0000_0000,
        (a - v % 0x1_0000_0000) % 0x1_0000_0000 == (a - v) % 0x1_0000_0000,
{
}

/// `MUL`, `MLA` and `MLS`: the low word of a product, of a sum with it, or of a
/// difference from it.
pub proof fn products(
    c: Cpu,
    cells: Seq<bool>,
    frame: Frame<'_>,
    answers: Answers,
    f: u16,
    g: u16,
)
    requires
        free(c, answers),
        pair(frame, c.pc, f, g),
        f >> 4 == 0xfb0,
        (g >> 5) & 7 == 0,
    ensures
        ({
            let s = c.step(cells, frame, answers);
            let n = after(s);
            let d = ((g >> 8) & 15) as int;
            let x = (f & 15) as int;
            let y = (g & 15) as int;
            let a = ((g >> 12) & 15) as int;
            let v = value(c, x) * value(c, y);
            &&& goes_on(s, c, cells, 4)
            &&& only(c, n, d)
            &&& flags_stay(c, n)
            &&& n.offsets[d] is None
            &&& n.known[d] == (c.known[x] && c.known[y] && (a == 15 || c.known[a]))
            &&& a == 15 ==> value(n, d) == v % 0x1_0000_0000
            &&& a != 15 && (g >> 4) & 1 == 0 ==> value(n, d) == (value(c, a) + v) % 0x1_0000_0000
            &&& a != 15 && (g >> 4) & 1 == 1 ==> value(n, d) == (value(c, a) - v) % 0x1_0000_0000
        }),
{
    products_decode(c.pc, f, g);
    crate::thumb::wide::second_fields(g);
    one_bit(g);
    crate::thumb::wide::fetched(c, frame, f, g);
    let d = crate::thumb::decode::wide_op(c.pc, f, g)->Ok_0;
    let x = (f & 15) as int;
    let y = (g & 15) as int;
    let a = ((g >> 12) & 15) as int;
    multiplied(c.regs[x], c.regs[y], c.regs[a]);
    crate::thumb::effects::computes(c, cells, frame, answers, d);
    let add = if a == 15 {
        None
    } else {
        Some(a as u8)
    };
    let fact = c.multiply(x, y, add, (g >> 4) & 1 == 1);
    assert(fact.word.len() == 32);
    assert(c.compute(d.operation) == Some(c.result(((g >> 8) & 15) as int, fact, false)));
}

proof fn long_products_decode(pc: u32, f: u16, g: u16)
    requires
        f >> 4 == 0xfba || f >> 4 == 0xfb8,
        (g >> 4) & 15 == 0,
    ensures
        f >> 4 >= 0xe80,
        f & 15 < 16,
        g & 15 < 16,
        (g >> 8) & 15 < 16,
        (g >> 12) & 15 < 16,
        crate::thumb::decode::wide_op(pc, f, g) == Ok::<Decoded, DecodeError>(Decoded { operation: Op::LongMultiply {
                dest_low: ((g >> 12) & 15) as u8,
                dest_high: ((g >> 8) & 15) as u8,
                left: (f & 15) as u8,
                right: (g & 15) as u8,
                signed: f >> 4 == 0xfb8,
            }, len: 4 }),
{
    crate::thumb::wide::first_fields(f);
    crate::thumb::wide::second_fields(g);
}

proof fn long_multiplied(x: Seq<bool>, y: Seq<bool>)
    requires
        x.len() == 32,
        y.len() == 32,
    ensures
        ({
            let low = crate::multiply::product_bits(crate::word::Product::Low, x, y);
            let high = crate::multiply::product_bits(crate::word::Product::HighUnsigned, x, y);
            let top = crate::multiply::product_bits(crate::word::Product::HighSigned, x, y);
            let v = crate::bits::num(x) * crate::bits::num(y);
            let w = crate::bits::signed(x) * crate::bits::signed(y);
            &&& low.len() == 32
            &&& high.len() == 32
            &&& top.len() == 32
            &&& crate::bits::num(low) == v % 0x1_0000_0000
            &&& crate::bits::num(high) == (v / 0x1_0000_0000) % 0x1_0000_0000
            &&& crate::bits::num(top) == (w / 0x1_0000_0000) % 0x1_0000_0000
        }),
{
    let v = (crate::bits::num(x) * crate::bits::num(y)) as int;
    let w = crate::bits::signed(x) * crate::bits::signed(y);
    lemma2_to64();
    crate::bits::num_bits_of(v as nat, 32);
    crate::bits::num_bits_of(((v / 0x1_0000_0000) % 0x1_0000_0000) as nat, 32);
    crate::bits::num_bits_of(((w / 0x1_0000_0000) % 0x1_0000_0000) as nat, 32);
}

/// `UMULL` and `SMULL`: both words of a product of two registers, the low one
/// first.
pub proof fn long_products(
    c: Cpu,
    cells: Seq<bool>,
    frame: Frame<'_>,
    answers: Answers,
    f: u16,
    g: u16,
)
    requires
        free(c, answers),
        pair(frame, c.pc, f, g),
        f >> 4 == 0xfba || f >> 4 == 0xfb8,
        (g >> 4) & 15 == 0,
        (g >> 12) & 15 != (g >> 8) & 15,
    ensures
        ({
            let s = c.step(cells, frame, answers);
            let n = after(s);
            let low = ((g >> 12) & 15) as int;
            let high = ((g >> 8) & 15) as int;
            let x = (f & 15) as int;
            let y = (g & 15) as int;
            let v = value(c, x) * value(c, y);
            let w = crate::bits::signed(c.regs[x]) * crate::bits::signed(c.regs[y]);
            &&& goes_on(s, c, cells, 4)
            &&& shaped(n)
            &&& flags_stay(c, n)
            &&& forall|i: int|
                0 <= i < 16 && i != low && i != high ==> #[trigger] n.regs[i] == c.regs[i] && n.known[i]
                    == c.known[i] && n.offsets[i] == c.offsets[i]
            &&& n.known[low] == (c.known[x] && c.known[y])
            &&& n.known[high] == n.known[low]
            &&& n.offsets[low] is None
            &&& n.offsets[high] is None
            &&& value(n, low) == v % 0x1_0000_0000
            &&& value(n, high) == ((if f >> 4 == 0xfb8 {
                w
            } else {
                v
            }) / 0x1_0000_0000) % 0x1_0000_0000
            &&& n.itstate == c.itstate
            &&& n.sp == c.sp
            &&& n.rstack == c.rstack
            &&& n.rsp == c.rsp
            &&& n.security == c.security
            &&& n.sites == c.sites
        }),
{
    long_products_decode(c.pc, f, g);
    crate::thumb::wide::fetched(c, frame, f, g);
    let d = crate::thumb::decode::wide_op(c.pc, f, g)->Ok_0;
    let x = (f & 15) as int;
    let y = (g & 15) as int;
    long_multiplied(c.regs[x], c.regs[y]);
    crate::thumb::effects::computes(c, cells, frame, answers, d);
    assert(c.compute(d.operation) == Some(
        c.long_multiply(((g >> 12) & 15) as int, ((g >> 8) & 15) as int, x, y, f >> 4 == 0xfb8),
    ));
}

/// The distance of `BL` and the wide `B`: two of its bits are told by whether they
/// agree with the sign.
pub open spec fn far(f: u16, g: u16) -> int {
    let sign = (f >> 10) & 1;
    2 * (g & 0x7ff) + 0x1000 * (f & 0x3ff) + (if (g >> 11) & 1 == sign {
        0x40_0000int
    } else {
        0
    }) + (if (g >> 13) & 1 == sign {
        0x80_0000int
    } else {
        0
    }) - 0x100_0000 * sign
}

proof fn far_in_numbers(f: u16, g: u16)
    ensures
        crate::thumb::decode::branch_offset(f, g) as int == far(f, g) % 0x1_0000_0000,
        -0x100_0000 <= far(f, g) < 0x100_0000,
        (g >> 4) & 1 < 2,
{
    let s = ((f >> 10) & 1) as u32;
    let j1 = ((g >> 13) & 1) as u32;
    let j2 = ((g >> 11) & 1) as u32;
    let a = (f as u32) & 0x03ff;
    let b = (g as u32) & 0x07ff;
    let i1: u32 = if j1 == s { 1 } else { 0 };
    let i2: u32 = if j2 == s { 1 } else { 0 };
    let v = (s << 24) | ((!(j1 ^ s) & 1) << 23) | ((!(j2 ^ s) & 1) << 22) | (a << 12) | (b << 1);
    assert((f & 0x3ff) as u32 == a && (g & 0x7ff) as u32 == b && a < 1024 && b < 2048 && s < 2 && j1 < 2
        && j2 < 2 && (g >> 4) & 1 < 2 && (s == 0 ==> (((v << 7u32) as i32) >> 7u32) as u32 == 2 * b
        + 0x1000 * a + 0x40_0000 * i2 + 0x80_0000 * i1) && (s == 1 ==> (((v << 7u32) as i32) >> 7u32)
        as u32 == 2 * b + 0x1000 * a + 0x40_0000 * i2 + 0x80_0000 * i1 + 0xff00_0000)) by (bit_vector)
        requires
            s == ((f >> 10) & 1) as u32,
            j1 == ((g >> 13) & 1) as u32,
            j2 == ((g >> 11) & 1) as u32,
            a == (f as u32) & 0x03ff,
            b == (g as u32) & 0x07ff,
            i1 == (if j1 == s { 1u32 } else { 0u32 }),
            i2 == (if j2 == s { 1u32 } else { 0u32 }),
            v == (s << 24) | ((!(j1 ^ s) & 1) << 23) | ((!(j2 ^ s) & 1) << 22) | (a << 12) | (b << 1),
    ;
}

proof fn one_bit(g: u16)
    ensures
        (g >> 4) & 1 == 0 || (g >> 4) & 1 == 1,
{
    far_in_numbers(0, g);
}

proof fn far_branches_decode(pc: u32, f: u16, g: u16)
    requires
        0xf00 <= f >> 4 && f >> 4 < 0xf80,
        (g >> 12) & 1 == 1,
        g >> 14 == 2 || g >> 14 == 3,
    ensures
        f >> 4 >= 0xe80,
        f & 15 < 16,
        g & 15 < 16,
        (g >> 8) & 15 < 16,
        (g >> 12) & 15 < 16,
        crate::thumb::decode::wide_op(pc, f, g) == Ok::<Decoded, DecodeError>(Decoded { operation: if g >> 14 == 3 {
                Op::Call { target: ((pc + 4 + far(f, g)) % 0x1_0000_0000) as u32 }
            } else {
                Op::Branch {
                    target: ((pc + 4 + far(f, g)) % 0x1_0000_0000) as u32,
                    condition: None,
                }
            }, len: 4 }),
{
    crate::thumb::wide::first_fields(f);
    crate::thumb::wide::second_fields(g);
    far_in_numbers(f, g);
}

proof fn far_outcome(c: Cpu, cells: Seq<bool>, frame: Frame<'_>, answers: Answers, to: u32, link: bool)
    requires
        free(c, answers),
        0 <= c.rsp,
        link ==> answers.action == ArmCallAction::Continue && answers.hook.regs.len() == 16
            && answers.hook.known.len() == 16 && answers.hook.offsets.len() == 16,
    ensures
        ({
            let op = if link {
                Op::Call { target: to }
            } else {
                Op::Branch { target: to, condition: None }
            };
            let t = c.transfer(cells, frame, op, 4, answers);
            let s = settled(t);
            &&& calm(t)
            &&& !link ==> jumps(s, c, cells, to as int)
            &&& link && c.rsp < c.rstack.len() ==> enters(
                s,
                c.replied(answers.hook),
                cells,
                to as int,
                (c.pc + 4) % 0x1_0000_0000,
            )
            &&& link && c.rsp >= c.rstack.len() ==> s == Step::Unexpected
        }),
{
    crate::thumb::jumps::linked(c.pc.wrapping_add(4));
}

/// `BL`, where the hook lets it go on, and the wide `B`.
pub proof fn far_branches(
    c: Cpu,
    cells: Seq<bool>,
    frame: Frame<'_>,
    answers: Answers,
    f: u16,
    g: u16,
)
    requires
        free(c, answers),
        pair(frame, c.pc, f, g),
        0xf00 <= f >> 4 && f >> 4 < 0xf80,
        (g >> 12) & 1 == 1,
        g >> 14 == 2 || g >> 14 == 3,
        0 <= c.rsp,
        g >> 14 == 3 ==> answers.action == ArmCallAction::Continue && answers.hook.regs.len() == 16
            && answers.hook.known.len() == 16 && answers.hook.offsets.len() == 16,
    ensures
        ({
            let s = c.step(cells, frame, answers);
            let to = (c.pc + 4 + far(f, g)) % 0x1_0000_0000;
            &&& g >> 14 == 2 ==> jumps(s, c, cells, to)
            &&& g >> 14 == 3 && c.rsp < c.rstack.len() ==> enters(
                s,
                c.replied(answers.hook),
                cells,
                to,
                (c.pc + 4) % 0x1_0000_0000,
            )
            &&& g >> 14 == 3 && c.rsp >= c.rstack.len() ==> s == Step::Unexpected
        }),
{
    far_branches_decode(c.pc, f, g);
    crate::thumb::wide::fetched(c, frame, f, g);
    let d = crate::thumb::decode::wide_op(c.pc, f, g)->Ok_0;
    let to = ((c.pc + 4 + far(f, g)) % 0x1_0000_0000) as u32;
    far_outcome(c, cells, frame, answers, to, g >> 14 == 3);
    crate::thumb::effects::transfers(c, cells, frame, answers, d);
}

/// What a store of two registers one behind the other does.
pub open spec fn stores_two(
    s: Step,
    c: Cpu,
    cells: Seq<bool>,
    frame: Frame<'_>,
    first: int,
    second: int,
    base: int,
    offset: int,
) -> bool {
    match c.offsets[base] {
        None => s == Step::Unexpected,
        Some(from) => {
            let at = 8 * ((c.sp + from + offset) % 0x1_0000_0000);
            let then = 8 * ((c.sp + from + offset + 4) % 0x1_0000_0000);
            if at + 32 <= frame.storage_bits && then + 32 <= frame.storage_bits {
                &&& s matches Step::Next { cells: left, .. } && goes_on(s, c, left, 4) && (exists|
                    half: Seq<bool>,
                | #[trigger]
                    holds_word(cells, half, at, c.regs[first], 4) && holds_word(
                        half,
                        left,
                        then,
                        c.regs[second],
                        4,
                    ))
                &&& only(c, after(s), 16)
                &&& flags_stay(c, after(s))
            } else {
                s == Step::Unexpected
            }
        },
    }
}

proof fn two_stored(c: Cpu, cells: Seq<bool>, frame: Frame<'_>, first: u8, second: u8, base: u8, offset: i32)
    requires
        shaped(c),
        c.itstate == 0,
        first < 16,
        second < 16,
        base < 16,
        0 <= offset < 1024,
    ensures
        ({
            let t = c.access(cells, frame, Op::StoreDouble { first, second, base, offset }, 4);
            &&& calm(t)
            &&& stores_two(
                settled(t),
                c,
                cells,
                frame,
                first as int,
                second as int,
                base as int,
                offset as int,
            )
        }),
{
    match c.offsets[base as int] {
        None => {},
        Some(from) => {
            let bits = frame.storage_bits;
            let more = (offset + 4) as i32;
            assert(offset.wrapping_add(4) == more);
            crate::thumb::accesses::place(c.sp, from, offset);
            crate::thumb::accesses::place(c.sp, from, more);
            let at = 8 * ((c.sp + from + offset) % 0x1_0000_0000);
            let half = crate::storage::overwrite(cells, at, c.regs[first as int]);
            assert(c.regs[first as int].take(32) =~= c.regs[first as int]);
            assert(c.regs[second as int].take(32) =~= c.regs[second as int]);
            assert(holds_word(cells, half, at, c.regs[first as int], 4));
            if at + 32 <= bits {
                assert(c.store(cells, bits, first as int, base as int, offset, 32) == Some(half));
                let then = 8 * ((c.sp + from + offset + 4) % 0x1_0000_0000);
                if then + 32 <= bits {
                    let left = crate::storage::overwrite(half, then, c.regs[second as int]);
                    assert(c.store(half, bits, second as int, base as int, more, 32) == Some(left));
                    assert(holds_word(half, left, then, c.regs[second as int], 4));
                }
            }
        },
    }
}

/// `STRD`: two registers in consecutive words.
pub proof fn double_stores(
    c: Cpu,
    cells: Seq<bool>,
    frame: Frame<'_>,
    answers: Answers,
    f: u16,
    g: u16,
)
    requires
        free(c, answers),
        pair(frame, c.pc, f, g),
        f >> 4 == 0xe9c,
    ensures
        stores_two(
            c.step(cells, frame, answers),
            c,
            cells,
            frame,
            ((g >> 12) & 15) as int,
            ((g >> 8) & 15) as int,
            (f & 15) as int,
            4 * (g & 255),
        ),
{
    crate::thumb::wide::first_fields(f);
    crate::thumb::wide::second_fields(g);
    crate::thumb::wide::fetched(c, frame, f, g);
    let d = crate::thumb::decode::wide_op(c.pc, f, g)->Ok_0;
    let first = ((g >> 12) & 15) as u8;
    let second = ((g >> 8) & 15) as u8;
    let base = (f & 15) as u8;
    let offset = (4 * (g & 255)) as i32;
    assert(d == Decoded { operation: Op::StoreDouble { first, second, base, offset }, len: 4 });
    two_stored(c, cells, frame, first, second, base, offset);
    crate::thumb::blocks::moves(c, cells, frame, answers, d);
}

/// `MRS` reads N, Z, C, V and Q into the top bits of a register, and `MSR` writes
/// them from there. Neither may name the stack pointer or a register above it.
pub proof fn status_transfers(
    c: Cpu,
    cells: Seq<bool>,
    frame: Frame<'_>,
    answers: Answers,
    f: u16,
    g: u16,
)
    requires
        free(c, answers),
        pair(frame, c.pc, f, g),
        (f == 0xf3ef && g >> 12 == 8 && g & 255 == 0) || (f >> 4 == 0xf38 && g == 0x8800),
    ensures
        ({
            let s = c.step(cells, frame, answers);
            let n = after(s);
            let r = if f == 0xf3ef {
                ((g >> 8) & 15) as int
            } else {
                (f & 15) as int
            };
            let all = c.flags_known[0] && c.flags_known[1] && c.flags_known[2] && c.flags_known[3]
                && c.flags_known[4];
            &&& r >= 13 ==> s == Step::Decode(DecodeError::Malformed((0x1_0000 * f + g) as u32))
            &&& r < 13 ==> goes_on(s, c, cells, 4)
            &&& r < 13 && f == 0xf3ef ==> {
                &&& only(c, n, r)
                &&& flags_stay(c, n)
                &&& n.offsets[r] is None
                &&& n.known[r] == all
                &&& forall|i: int|
                    0 <= i < 32 ==> #[trigger] n.regs[r][i] == if i < 27 {
                        false
                    } else {
                        c.flags[31 - i]
                    }
            }
            &&& r < 13 && f != 0xf3ef ==> {
                &&& only(c, n, 16)
                &&& forall|i: int| 0 <= i < 5 ==> #[trigger] flag_is(n, i, c.regs[r][31 - i], c.known[r])
            }
        }),
{
    crate::thumb::wide::first_fields(f);
    crate::thumb::wide::second_fields(g);
    crate::thumb::wide::immediate_fields(f, g);
    crate::thumb::wide::fetched(c, frame, f, g);
    let d = crate::thumb::decode::wide_op(c.pc, f, g)->Ok_0;
    let r = if f == 0xf3ef {
        ((g >> 8) & 15) as u8
    } else {
        (f & 15) as u8
    };
    if r < 13 {
        assert(crate::thumb::decode::wide_op(c.pc, f, g) == Ok::<Decoded, DecodeError>(
            Decoded {
                operation: if f == 0xf3ef {
                    Op::ReadApsr { dest: r }
                } else {
                    Op::WriteApsr { source: r }
                },
                len: 4,
            },
        ));
        crate::thumb::effects::computes(c, cells, frame, answers, d);
    } else {
        assert(crate::thumb::decode::wide_op(c.pc, f, g) == Err::<Decoded, DecodeError>(
            DecodeError::Malformed((0x1_0000 * f + g) as u32),
        ));
    }
}

/// `SG`: a Non-secure caller that lands on it in memory of the Secure world
/// becomes Secure, with a known link register made even. Elsewhere it does
/// nothing.
pub proof fn secure_gateways(
    c: Cpu,
    cells: Seq<bool>,
    frame: Frame<'_>,
    answers: Answers,
)
    requires
        shaped(c),
        c.itstate == 0,
        pair(frame, c.pc, 0xe97f, 0xe97f),
    ensures
        ({
            let s = c.step(cells, frame, answers);
            let n = after(s);
            let crosses = answers.attribute != SecurityAttribute::NonSecure && c.security
                == SecurityState::NonSecure;
            &&& goes_on(s, c, cells, 4)
            &&& flags_stay(c, n)
            &&& !crosses ==> only(c, n, 16)
            &&& crosses ==> {
                &&& n.security == SecurityState::Secure
                &&& only((Cpu { security: SecurityState::Secure, ..c }), n, 14)
                &&& c.known[14] ==> value(n, 14) == value(c, 14) - value(c, 14) % 2 && n.known[14]
                &&& !c.known[14] ==> n.regs[14] == c.regs[14] && !n.known[14]
            }
        }),
{
    crate::thumb::wide::first_fields(0xe97f);
    let f: u16 = 0xe97f;
    crate::thumb::wide::fetched(c, frame, f, f);
    crate::thumb::effects::word_facts(c.regs[14]);
    let v = value(c, 14);
    crate::concrete::word_num((v - v % 2) as u32);
}

} // verus!
