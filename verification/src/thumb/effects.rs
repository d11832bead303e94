//! What the data operations do, in numbers: sums and differences with their
//! flags, shifts with the bit they lose, products, and bits one by one.
use crate::thumb::control::Answers;
use crate::thumb::exec::Frame;
use crate::thumb::handler::{SecurityAttribute, SecurityState};
use crate::thumb::machine::{shaped, Cpu, Step};
use crate::thumb::op::{Arithmetic, Decoded, Operand, ShiftAmount};
use crate::word::Shift;
use vstd::arithmetic::power2::*;
use vstd::prelude::*;

verus! {

/// The number that register `r` spells.
pub open spec fn value(c: Cpu, r: int) -> int {
    crate::bits::num(c.regs[r]) as int
}

/// A 32-bit number read as two's complement.
pub open spec fn two(v: int) -> int {
    if v >= 0x8000_0000 {
        v - 0x1_0000_0000
    } else {
        v
    }
}

/// A number that a signed 32-bit word cannot hold.
pub open spec fn beyond(v: int) -> bool {
    v < -0x8000_0000 || v >= 0x8000_0000
}

/// The halfword `x` stands at `pc`, low byte first.
pub open spec fn stands(frame: Frame<'_>, pc: u32, x: u16) -> bool {
    frame.mem.reads(pc, 2) matches Some(bytes) && bytes.len() == 2 && x == bytes[0] + 256 * bytes[1]
}

/// A machine outside any conditional block that may fetch where it stands.
pub open spec fn free(c: Cpu, answers: Answers) -> bool {
    &&& shaped(c)
    &&& c.itstate == 0
    &&& c.security == SecurityState::NonSecure ==> answers.attribute == SecurityAttribute::NonSecure
}

/// The step goes on behind an instruction of `len` bytes and leaves memory.
pub open spec fn goes_on(s: Step, c: Cpu, cells: Seq<bool>, len: int) -> bool {
    s matches Step::Next { cpu, cells: left, pc } && left == cells && cpu.pc == pc && pc as int == (c.pc
        + len) % 0x1_0000_0000
}

/// The machine after a step that goes on.
pub open spec fn after(s: Step) -> Cpu {
    s->Next_cpu
}

/// Nothing but register `d`, the flags and the program counter differs.
pub open spec fn only(c: Cpu, d: Cpu, register: int) -> bool {
    &&& shaped(d)
    &&& forall|i: int|
        0 <= i < 16 && i != register ==> #[trigger] d.regs[i] == c.regs[i] && d.known[i]
            == c.known[i] && d.offsets[i] == c.offsets[i]
    &&& d.itstate == c.itstate
    &&& d.sp == c.sp
    &&& d.rstack == c.rstack
    &&& d.rsp == c.rsp
    &&& d.security == c.security
    &&& d.sites == c.sites
}

/// No flag differs.
pub open spec fn flags_stay(c: Cpu, d: Cpu) -> bool {
    d.flags == c.flags && d.flags_known == c.flags_known
}

/// Flag `i` is `bit`, and the host knows it where `known`.
pub open spec fn flag_is(d: Cpu, i: int, bit: bool, known: bool) -> bool {
    d.flags[i] == bit && d.flags_known[i] == known
}

/// Flag `i` is what it was.
pub open spec fn flag_stays(c: Cpu, d: Cpu, i: int) -> bool {
    flag_is(d, i, c.flags[i], c.flags_known[i])
}

/// N and Z tell of the number `v`.
pub open spec fn tells(d: Cpu, v: int, known: bool) -> bool {
    flag_is(d, 0, v >= 0x8000_0000, known) && flag_is(d, 1, v == 0, known)
}

/// The flags tell of the sum `a + b + carry`.
pub open spec fn tells_sum(c: Cpu, d: Cpu, a: int, b: int, carry: int, known: bool) -> bool {
    &&& tells(d, (a + b + carry) % 0x1_0000_0000, known)
    &&& flag_is(d, 2, a + b + carry >= 0x1_0000_0000, known)
    &&& flag_is(d, 3, beyond(two(a) + two(b) + carry), known)
    &&& flag_stays(c, d, 4)
}

/// The flags tell of the difference `a - b - borrow`; C says that nothing was
/// borrowed.
pub open spec fn tells_difference(c: Cpu, d: Cpu, a: int, b: int, borrow: int, known: bool) -> bool {
    &&& tells(d, (a - b - borrow) % 0x1_0000_0000, known)
    &&& flag_is(d, 2, a >= b + borrow, known)
    &&& flag_is(d, 3, beyond(two(a) - two(b) - borrow), known)
    &&& flag_stays(c, d, 4)
}

/// A word's number, its top bit and its complement.
pub proof fn word_facts(w: Seq<bool>)
    requires
        w.len() == 32,
    ensures
        0 <= crate::bits::num(w) < 0x1_0000_0000,
        w[31] == (crate::bits::num(w) >= 0x8000_0000),
        crate::bits::num(crate::bits::complement(w)) == 0xffff_ffff - crate::bits::num(w),
        crate::bits::signed(w) == two(crate::bits::num(w) as int),
{
    lemma2_to64();
    lemma2_to64_rest();
    crate::bits::num_bound(w);
    crate::number::top_bit(w);
    crate::bits::num_complement(w);
}

/// A word is the word of the number that it spells.
pub proof fn spelled_word(w: Seq<bool>, v: u32)
    requires
        w.len() == 32,
    ensures
        (w == crate::concrete::word(v)) == (crate::bits::num(w) == v),
{
    crate::concrete::word_num(v);
    if crate::bits::num(w) == v {
        crate::bits::num_injective(w, crate::concrete::word(v));
    }
}

/// A sum of words.
pub proof fn sum_facts(a: Seq<bool>, b: Seq<bool>, carry: bool)
    requires
        a.len() == 32,
        b.len() == 32,
    ensures
        ({
            let r = crate::bits::add_of(a, b, carry);
            let x = crate::bits::num(a) as int;
            let y = crate::bits::num(b) as int;
            let k: int = if carry { 1 } else { 0 };
            &&& r.len() == 32
            &&& crate::bits::num(r) == (x + y + k) % 0x1_0000_0000
            &&& r[31] == ((x + y + k) % 0x1_0000_0000 >= 0x8000_0000)
            &&& crate::bits::carry_of(a, b, carry) == (x + y + k >= 0x1_0000_0000)
            &&& crate::compare::add_overflows(a[31], b[31], r[31]) == beyond(two(x) + two(y) + k)
        }),
{
    lemma2_to64();
    lemma2_to64_rest();
    crate::number::sum(a, b, carry);
    word_facts(a);
    word_facts(b);
    word_facts(crate::bits::add_of(a, b, carry));
}

/// A difference of words, made by adding the complement.
pub proof fn difference_facts(a: Seq<bool>, b: Seq<bool>, carry: bool)
    requires
        a.len() == 32,
        b.len() == 32,
    ensures
        ({
            let r = crate::bits::add_of(a, crate::bits::complement(b), carry);
            let x = crate::bits::num(a) as int;
            let y = crate::bits::num(b) as int;
            let k: int = if carry { 0 } else { 1 };
            &&& r.len() == 32
            &&& crate::bits::num(r) == (x - y - k) % 0x1_0000_0000
            &&& r[31] == ((x - y - k) % 0x1_0000_0000 >= 0x8000_0000)
            &&& crate::bits::carry_of(a, crate::bits::complement(b), carry) == (x >= y + k)
            &&& crate::compare::subtract_overflows(a[31], b[31], r[31]) == beyond(two(x) - two(y) - k)
        }),
{
    lemma2_to64();
    lemma2_to64_rest();
    crate::number::sum(a, crate::bits::complement(b), carry);
    word_facts(a);
    word_facts(b);
    word_facts(crate::bits::add_of(a, crate::bits::complement(b), carry));
}

/// A step at a decoded instruction of a free machine performs it.
pub proof fn performs(c: Cpu, cells: Seq<bool>, frame: Frame<'_>, answers: Answers, d: Decoded)
    requires
        free(c, answers),
        crate::thumb::early_exit::instruction_at(frame.mem, c.pc) == Ok::<
            Decoded,
            crate::thumb::early_exit::FetchError,
        >(d),
    ensures
        match c.perform(cells, frame, d.operation, d.len, answers) {
            Step::Next { cpu, cells: left, pc } => cpu.itstate == 0 || d.operation is It ==> c.step(
                cells,
                frame,
                answers,
            ) == (Step::Next { cpu: Cpu { pc, ..cpu }, cells: left, pc }),
            Step::Exit { cpu, cells: left } => cpu.itstate == 0 ==> c.step(cells, frame, answers) == (
            Step::Exit { cpu, cells: left }),
            other => c.step(cells, frame, answers) == other,
        },
{
}

/// A step made with the program counter that it goes on at.
pub open spec fn settled(t: Step) -> Step {
    match t {
        Step::Next { cpu, cells, pc } => Step::Next { cpu: Cpu { pc, ..cpu }, cells, pc },
        other => other,
    }
}

/// A step that leaves the machine outside any conditional block.
pub open spec fn calm(t: Step) -> bool {
    match t {
        Step::Next { cpu, .. } => cpu.itstate == 0,
        Step::Exit { cpu, .. } => cpu.itstate == 0,
        _ => true,
    }
}

/// A step at a control transfer.
pub proof fn transfers(c: Cpu, cells: Seq<bool>, frame: Frame<'_>, answers: Answers, d: Decoded)
    requires
        free(c, answers),
        crate::thumb::early_exit::instruction_at(frame.mem, c.pc) == Ok::<
            Decoded,
            crate::thumb::early_exit::FetchError,
        >(d),
        crate::thumb::exec::class(d.operation) == crate::thumb::exec::Class::Control,
        calm(c.transfer(cells, frame, d.operation, d.len, answers)) || d.operation is It,
    ensures
        c.step(cells, frame, answers) == settled(
            c.transfer(cells, frame, d.operation, d.len, answers),
        ),
{
    performs(c, cells, frame, answers, d);
    assert(c.perform(cells, frame, d.operation, d.len, answers) == c.transfer(
        cells,
        frame,
        d.operation,
        d.len,
        answers,
    ));
}

/// A step at a register operation.
pub proof fn computes(c: Cpu, cells: Seq<bool>, frame: Frame<'_>, answers: Answers, d: Decoded)
    requires
        free(c, answers),
        crate::thumb::early_exit::instruction_at(frame.mem, c.pc) == Ok::<
            Decoded,
            crate::thumb::early_exit::FetchError,
        >(d),
        crate::thumb::exec::class(d.operation) == crate::thumb::exec::Class::Data,
        d.len == 2 || d.len == 4,
        c.compute(d.operation) matches Some(n) ==> n.itstate == 0,
    ensures
        match c.compute(d.operation) {
            None => c.step(cells, frame, answers) == Step::Unexpected,
            Some(n) => {
                &&& goes_on(c.step(cells, frame, answers), c, cells, d.len as int)
                &&& after(c.step(cells, frame, answers)) == (Cpu {
                    pc: c.pc.wrapping_add(d.len),
                    ..n
                })
            },
        },
{
    performs(c, cells, frame, answers, d);
    assert(c.perform(cells, frame, d.operation, d.len, answers) == crate::thumb::exec::data(
        c.compute(d.operation),
        cells,
        c.pc.wrapping_add(d.len),
    ));
    if c.pc + d.len > u32::MAX {
        assert((c.pc + d.len) % 0x1_0000_0000 == c.pc + d.len - 0x1_0000_0000);
    }
}

/// `r` is `w` shifted by `j` places: multiplied or divided by a power of two,
/// or turned.
pub open spec fn shifted(direction: Shift, w: Seq<bool>, r: Seq<bool>, j: int) -> bool {
    &&& r.len() == 32
    &&& match direction {
        Shift::Left => crate::bits::num(r) == if j < 32 {
            (crate::bits::num(w) * pow2(j as nat)) % 0x1_0000_0000
        } else {
            0
        },
        Shift::LogicalRight => crate::bits::num(r) == if j < 32 {
            crate::bits::num(w) / pow2(j as nat)
        } else {
            0
        },
        Shift::ArithmeticRight => two(crate::bits::num(r) as int) == if j < 32 {
            two(crate::bits::num(w) as int) / (pow2(j as nat) as int)
        } else if crate::bits::num(w) >= 0x8000_0000 {
            -1
        } else {
            0
        },
        Shift::RotateRight => forall|i: int| 0 <= i < 32 ==> #[trigger] r[i] == w[(i + j) % 32],
    }
}

/// The bit that a shift by `j > 0` places loses last.
pub open spec fn lost(direction: Shift, w: Seq<bool>, j: int) -> bool {
    match direction {
        Shift::Left => j <= 32 && w[32 - j],
        Shift::LogicalRight => j <= 32 && w[j - 1],
        Shift::ArithmeticRight => if j <= 32 {
            w[j - 1]
        } else {
            w[31]
        },
        Shift::RotateRight => w[(j - 1) % 32],
    }
}

proof fn capped(w: Seq<bool>, j: nat, k: nat, direction: Shift)
    requires
        w.len() == 32,
        direction != Shift::RotateRight ==> k == if j < 32 { j } else { 32 },
        direction == Shift::RotateRight ==> k == j || k == j % 32,
    ensures
        shifted(direction, w, crate::word::shift_bits(w, k, direction), j as int),
{
    let r = crate::word::shift_bits(w, k, direction);
    lemma2_to64();
    lemma2_to64_rest();
    word_facts(w);
    word_facts(r);
    match direction {
        Shift::Left => {
            crate::number::shifted_left(w, k);
            if k == 32 {
                crate::number::cleared(r);
            }
        },
        Shift::LogicalRight => {
            crate::number::shifted_right(w, k);
            if k == 32 {
                crate::number::cleared(r);
            }
        },
        Shift::ArithmeticRight => {
            crate::number::shifted_signed(w, k);
        },
        Shift::RotateRight => {
            assert forall|i: int| 0 <= i < 32 implies #[trigger] r[i] == w[(i + j) % 32] by {
                assert((i + k) % 32 == (i + j) % 32);
            }
        },
    }
}

/// How far a shift instruction shifts: an immediate, or the low byte of a
/// register.
pub open spec fn places(c: Cpu, amount: ShiftAmount) -> int {
    match amount {
        ShiftAmount::Immediate(n) => n as int,
        ShiftAmount::Register(r) => value(c, r as int) % 256,
    }
}

/// Whether the host knows how far.
pub open spec fn places_known(c: Cpu, amount: ShiftAmount) -> bool {
    match amount {
        ShiftAmount::Immediate(_) => true,
        ShiftAmount::Register(r) => c.known[r as int],
    }
}

/// A register shifted is its number multiplied or divided by a power of two.
pub proof fn shifted_in_numbers(c: Cpu, source: int, direction: Shift, amount: ShiftAmount)
    requires
        shaped(c),
        0 <= source < 16,
        crate::thumb::op::amount_ok(amount),
        direction == Shift::RotateRight ==> amount != ShiftAmount::Immediate(32),
    ensures
        shifted(
            direction,
            c.regs[source],
            c.shifted(source, direction, amount).word,
            places(c, amount),
        ),
        c.shifted(source, direction, amount).known == (c.known[source] && places_known(c, amount)),
{
    match amount {
        ShiftAmount::Immediate(n) => {
            capped(c.regs[source], n as nat, crate::shift::shift_amount(n, 32), direction);
        },
        ShiftAmount::Register(r) => {
            let v = crate::bits::num(c.regs[r as int]);
            assert((v % 256) % 32 == v % 32);
            capped(
                c.regs[source],
                v % 256,
                crate::arm_shift::arm_count(v, direction),
                direction,
            );
        },
    }
}

/// A shift instruction leaves the shifted number, and in C the bit lost last.
pub proof fn shift_in_numbers(
    c: Cpu,
    dest: int,
    source: int,
    direction: Shift,
    amount: ShiftAmount,
    set_flags: bool,
)
    requires
        shaped(c),
        0 <= dest < 16,
        0 <= source < 16,
        crate::thumb::op::amount_ok(amount),
        direction == Shift::RotateRight ==> amount != ShiftAmount::Immediate(32),
    ensures
        ({
            let n = c.shift(dest, source, direction, amount, set_flags);
            let j = places(c, amount);
            let known = c.known[source] && places_known(c, amount);
            &&& only(c, n, dest)
            &&& n.known[dest] == known
            &&& n.offsets[dest] is None
            &&& shifted(direction, c.regs[source], n.regs[dest], j)
            &&& !set_flags ==> flags_stay(c, n)
            &&& set_flags ==> {
                &&& tells(n, value(n, dest), known)
                &&& flag_stays(c, n, 3)
                &&& flag_stays(c, n, 4)
                &&& places_known(c, amount) && j == 0 ==> flag_stays(c, n, 2)
                &&& !(places_known(c, amount) && j == 0) ==> flag_is(
                    n,
                    2,
                    if j == 0 {
                        c.flags[2]
                    } else {
                        lost(direction, c.regs[source], j)
                    },
                    known,
                )
            }
        }),
{
    shifted_in_numbers(c, source, direction, amount);
    word_facts(c.shifted(source, direction, amount).word);
    let n = c.shift(dest, source, direction, amount, set_flags);
    assert(n.regs[dest] == c.shifted(source, direction, amount).word);
}

/// The distance from the stack pointer of a result that lies `change` bytes
/// from register `base`.
pub open spec fn keeps_distance(c: Cpu, n: Cpu, dest: int, base: int, change: int) -> bool {
    if base != dest && c.offsets[base] is Some {
        n.offsets[dest] is Some && (n.offsets[dest]->0 - c.offsets[base]->0 - change) % 0x1_0000_0000
            == 0
    } else {
        n.offsets[dest] is None
    }
}

/// An additive operation is a sum or a difference of numbers.
pub proof fn arithmetic_in_numbers(
    c: Cpu,
    kind: Arithmetic,
    dest: int,
    left: Operand,
    right: Operand,
    set_flags: bool,
)
    requires
        shaped(c),
        0 <= dest < 16,
        dest != 13,
        c.operand(left).word.len() == 32,
        c.operand(right).word.len() == 32,
    ensures
        c.arithmetic(kind, dest, left, right, set_flags) is Some,
        ({
            let n = c.arithmetic(kind, dest, left, right, set_flags)->0;
            let a = crate::bits::num(c.operand(left).word) as int;
            let b = crate::bits::num(c.operand(right).word) as int;
            let both = c.operand(left).known && c.operand(right).known;
            let k: int = if c.flags[2] { 1 } else { 0 };
            &&& only(c, n, dest)
            &&& !set_flags ==> flags_stay(c, n)
            &&& kind == Arithmetic::Add ==> value(n, dest) == (a + b) % 0x1_0000_0000
                && n.known[dest] == both && (set_flags ==> tells_sum(c, n, a, b, 0, both))
            &&& kind == Arithmetic::Sub ==> value(n, dest) == (a - b) % 0x1_0000_0000
                && n.known[dest] == both && (set_flags ==> tells_difference(c, n, a, b, 0, both))
            &&& kind == Arithmetic::ReverseSub ==> value(n, dest) == (b - a) % 0x1_0000_0000
                && n.known[dest] == both && (set_flags ==> tells_difference(c, n, b, a, 0, both))
            &&& kind == Arithmetic::AddCarry ==> value(n, dest) == (a + b + k) % 0x1_0000_0000
                && n.known[dest] == (both && c.flags_known[2]) && (set_flags ==> tells_sum(
                c,
                n,
                a,
                b,
                k,
                both && c.flags_known[2],
            ))
            &&& kind == Arithmetic::SubCarry ==> value(n, dest) == (a - b - (1 - k)) % 0x1_0000_0000
                && n.known[dest] == (both && c.flags_known[2]) && (set_flags ==> tells_difference(
                c,
                n,
                a,
                b,
                1 - k,
                both && c.flags_known[2],
            ))
        }),
{
    let l = c.operand(left).word;
    let r = c.operand(right).word;
    let n = c.arithmetic(kind, dest, left, right, set_flags)->0;
    let (result, carry, known) = c.sum(kind, c.operand(left), c.operand(right));
    assert(n.regs[dest] == result);
    match kind {
        Arithmetic::Add => {
            sum_facts(l, r, false);
        },
        Arithmetic::AddCarry => {
            sum_facts(l, r, c.flags[2]);
        },
        Arithmetic::Sub => {
            difference_facts(l, r, true);
        },
        Arithmetic::SubCarry => {
            difference_facts(l, r, c.flags[2]);
        },
        Arithmetic::ReverseSub => {
            difference_facts(r, l, true);
        },
    }
}

/// A sum or difference of a register and a constant lies that far from it on
/// the stack; any other additive result lies nowhere on it.
pub proof fn arithmetic_keeps_distance(
    c: Cpu,
    kind: Arithmetic,
    dest: int,
    left: Operand,
    right: Operand,
    set_flags: bool,
)
    requires
        shaped(c),
        0 <= dest < 16,
        dest != 13,
    ensures
        c.arithmetic(kind, dest, left, right, set_flags) is Some,
        ({
            let n = c.arithmetic(kind, dest, left, right, set_flags)->0;
            &&& left matches Operand::Register(r) ==> (right matches Operand::Immediate(v) ==> (kind
                == Arithmetic::Add && r < 16 && v < 0x8000_0000 ==> keeps_distance(
                c,
                n,
                dest,
                r as int,
                v as int,
            )))
            &&& left matches Operand::Register(r) ==> (right matches Operand::Immediate(v) ==> (kind
                == Arithmetic::Sub && r < 16 && v < 0x8000_0000 ==> keeps_distance(
                c,
                n,
                dest,
                r as int,
                -v,
            )))
            &&& !(right is Immediate) || (kind != Arithmetic::Add && kind != Arithmetic::Sub)
                ==> n.offsets[dest] is None
        }),
{
    let n = c.arithmetic(kind, dest, left, right, set_flags)->0;
    let (result, carry, known) = c.sum(kind, c.operand(left), c.operand(right));
    let stored = c.write(dest, result, known);
    assert(n.offsets[dest] == stored.moved_offset(kind, left, right));
}

/// A comparison sets the flags of a sum or of a difference, and nothing else.
pub proof fn compare_in_numbers(c: Cpu, left: Operand, right: Operand, sum: bool)
    requires
        shaped(c),
        c.operand(left).word.len() == 32,
        c.operand(right).word.len() == 32,
    ensures
        ({
            let n = c.compare(left, right, sum);
            let a = crate::bits::num(c.operand(left).word) as int;
            let b = crate::bits::num(c.operand(right).word) as int;
            let both = c.operand(left).known && c.operand(right).known;
            &&& only(c, n, 16)
            &&& sum ==> tells_sum(c, n, a, b, 0, both)
            &&& !sum ==> tells_difference(c, n, a, b, 0, both)
        }),
{
    sum_facts(c.operand(left).word, c.operand(right).word, false);
    difference_facts(c.operand(left).word, c.operand(right).word, true);
}

} // verus!
