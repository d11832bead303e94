//! What a prepared program computes, and that the calls it asks for compute it.
use crate::recompile::emit::PinnedAddresses;
use crate::recompile::meaning::{Owner, PinnedCall, Scope};
use crate::recompile::program::{
    PreparedLoop, PreparedOp, PreparedProgram, PreparedSlot, Statement, StatementRange,
};
use vstd::prelude::*;

verus! {

/// The bits of the scratch buffer, by their slots.
pub type Buffer = Map<u64, bool>;

/// The slot that an operation names at a row of the loops around it.
pub open spec fn slot_at(slot: PreparedSlot, scopes: Seq<Scope>) -> u64 {
    match slot {
        PreparedSlot::Static(index) => index.0 as u64,
        PreparedSlot::Table { depth, field } => {
            let Scope { l, row } = scopes[scopes.len() - 1 - depth];
            l.table@[row * l.fields_per_iteration + field] as u64
        },
    }
}

/// A slot that the caller fills.
pub open spec fn given(program: &PreparedProgram, slot: PreparedSlot) -> bool {
    match slot {
        PreparedSlot::Static(index) => program.inputs@.contains(index),
        PreparedSlot::Table { .. } => false,
    }
}

/// What an operation computes: its result goes to the slot that it names as its
/// output, unless the caller fills that slot.
pub open spec fn computes(
    program: &PreparedProgram,
    op: PreparedOp,
    scopes: Seq<Scope>,
    buffer: Buffer,
) -> Buffer {
    let at = |slot: PreparedSlot| buffer[slot_at(slot, scopes)];
    match op {
        PreparedOp::Create { value, out } => if given(program, out) {
            buffer
        } else {
            buffer.insert(slot_at(out, scopes), value)
        },
        PreparedOp::BitAnd { a, b, out } => if given(program, out) {
            buffer
        } else {
            buffer.insert(slot_at(out, scopes), at(a) && at(b))
        },
        PreparedOp::BitOr { a, b, out } => if given(program, out) {
            buffer
        } else {
            buffer.insert(slot_at(out, scopes), at(a) || at(b))
        },
        PreparedOp::BitXor { a, b, out } => if given(program, out) {
            buffer
        } else {
            buffer.insert(slot_at(out, scopes), at(a) != at(b))
        },
        PreparedOp::Mux { cond, then, otherwise, out } => if given(program, out) {
            buffer
        } else {
            buffer.insert(
                slot_at(out, scopes),
                if at(cond) {
                    at(then)
                } else {
                    at(otherwise)
                },
            )
        },
        _ => buffer,
    }
}

/// What the statements from `start` to `end` compute, one after the other.
/// `ordinal` is the number of the run of the loops among them.
pub open spec fn interprets(
    program: &PreparedProgram,
    start: int,
    end: int,
    scopes: Seq<Scope>,
    ordinal: int,
    buffer: Buffer,
) -> Buffer
    decreases u16::MAX - scopes.len(), end - start, 1int,
{
    if start >= end {
        buffer
    } else {
        let before = interprets(program, start, end - 1, scopes, ordinal, buffer);
        match program.statements@[end - 1] {
            Statement::Op(op) => computes(program, op, scopes, before),
            Statement::Loop(l) => interprets_rows(
                program,
                l,
                l.invocations@[ordinal].first_row as int,
                l.invocations@[ordinal].iterations as int,
                scopes,
                before,
            ),
        }
    }
}

/// What a loop computes over `n` rows from `first` on.
pub open spec fn interprets_rows(
    program: &PreparedProgram,
    l: PreparedLoop,
    first: int,
    n: int,
    scopes: Seq<Scope>,
    buffer: Buffer,
) -> Buffer
    decreases u16::MAX - scopes.len(), 0int, n,
{
    if n <= 0 || scopes.len() >= u16::MAX {
        buffer
    } else {
        interprets(
            program,
            l.body.start as int,
            l.body.end as int,
            scopes.push(Scope { l, row: first + n - 1 }),
            first + n - 1,
            interprets_rows(program, l, first, n - 1, scopes, buffer),
        )
    }
}

/// What a pinned function does to the buffer: `create(backend, buf, val, out)`,
/// `bitand(backend, buf, a, b, out)`, `bitor` and `bitxor` alike, and
/// `mux(backend, buf, cond, then, else, out)`.
pub open spec fn applies(pinned: PinnedAddresses, call: PinnedCall, buffer: Buffer) -> Buffer {
    let x = call.arguments;
    if call.target == pinned.create as u64 {
        buffer.insert(x[3], x[2] != 0)
    } else if call.target == pinned.bitand as u64 {
        buffer.insert(x[4], buffer[x[2]] && buffer[x[3]])
    } else if call.target == pinned.bitor as u64 {
        buffer.insert(x[4], buffer[x[2]] || buffer[x[3]])
    } else if call.target == pinned.bitxor as u64 {
        buffer.insert(x[4], buffer[x[2]] != buffer[x[3]])
    } else if call.target == pinned.mux as u64 {
        buffer.insert(
            x[5],
            if buffer[x[2]] {
                buffer[x[3]]
            } else {
                buffer[x[4]]
            },
        )
    } else {
        buffer
    }
}

/// What calls do, one after the other.
pub open spec fn performs(pinned: PinnedAddresses, calls: Seq<PinnedCall>, buffer: Buffer) -> Buffer
    decreases calls.len(),
{
    if calls.len() == 0 {
        buffer
    } else {
        applies(pinned, calls.last(), performs(pinned, calls.drop_last(), buffer))
    }
}

/// The pinned functions are five functions.
pub open spec fn five(pinned: PinnedAddresses) -> bool {
    &&& pinned.create != pinned.bitand
    &&& pinned.create != pinned.bitor
    &&& pinned.create != pinned.bitxor
    &&& pinned.create != pinned.mux
    &&& pinned.bitand != pinned.bitor
    &&& pinned.bitand != pinned.bitxor
    &&& pinned.bitand != pinned.mux
    &&& pinned.bitor != pinned.bitxor
    &&& pinned.bitor != pinned.mux
    &&& pinned.bitxor != pinned.mux
}

/// Whether an operation writes an input is whether the slot that it names as
/// its output is one; what it reads makes no difference.
pub proof fn inputs_are_outputs_of_none(program: &PreparedProgram, op: PreparedOp)
    ensures
        match op {
            PreparedOp::Create { out, .. } => program.writes_input_spec(op) == given(program, out),
            PreparedOp::BitAnd { out, .. } => program.writes_input_spec(op) == given(program, out),
            PreparedOp::BitOr { out, .. } => program.writes_input_spec(op) == given(program, out),
            PreparedOp::BitXor { out, .. } => program.writes_input_spec(op) == given(program, out),
            PreparedOp::Mux { out, .. } => program.writes_input_spec(op) == given(program, out),
            PreparedOp::External { out } => program.writes_input_spec(op) == given(program, out),
            PreparedOp::Storage { out } => program.writes_input_spec(op) == given(program, out),
        },
{
}

/// The call of an operation goes to the function of its name, with the backend,
/// the buffer, its operands in order and its output.
pub proof fn calls_name_their_operands(
    pinned: PinnedAddresses,
    owner: Owner,
    op: PreparedOp,
    scopes: Seq<Scope>,
)
    ensures
        ({
            let call = crate::recompile::meaning::call_of(pinned, owner, op, scopes);
            let at = |slot: PreparedSlot| slot_at(slot, scopes);
            let with = |x: Seq<u64>| call.arguments == seq![owner.backend, owner.buf] + x;
            match op {
                PreparedOp::Create { value, out } => call.target == pinned.create && with(
                    seq![
                        if value {
                            1u64
                        } else {
                            0u64
                        },
                        at(out),
                    ],
                ),
                PreparedOp::BitAnd { a, b, out } => call.target == pinned.bitand && with(
                    seq![at(a), at(b), at(out)],
                ),
                PreparedOp::BitOr { a, b, out } => call.target == pinned.bitor && with(
                    seq![at(a), at(b), at(out)],
                ),
                PreparedOp::BitXor { a, b, out } => call.target == pinned.bitxor && with(
                    seq![at(a), at(b), at(out)],
                ),
                PreparedOp::Mux { cond, then, otherwise, out } => call.target == pinned.mux && with(
                    seq![at(cond), at(then), at(otherwise), at(out)],
                ),
                _ => true,
            }
        }),
{
    let call = crate::recompile::meaning::call_of(pinned, owner, op, scopes);
    let at = |slot: PreparedSlot| slot_at(slot, scopes);
    let head = seq![owner.backend, owner.buf];
    match op {
        PreparedOp::Create { value, out } => {
            assert(call.arguments =~= head + seq![
                if value {
                    1u64
                } else {
                    0u64
                },
                at(out),
            ]);
        },
        PreparedOp::BitAnd { a, b, out } | PreparedOp::BitOr { a, b, out } | PreparedOp::BitXor {
            a,
            b,
            out,
        } => {
            assert(call.arguments =~= head + seq![at(a), at(b), at(out)]);
        },
        PreparedOp::Mux { cond, then, otherwise, out } => {
            assert(call.arguments =~= head + seq![at(cond), at(then), at(otherwise), at(out)]);
        },
        _ => {},
    }
}

/// The statements of a range need no runtime registry and no storage, unless
/// what they would write is an input.
pub open spec fn plain(program: &PreparedProgram, start: int, end: int, depth: int) -> bool
    decreases u16::MAX - depth,
{
    forall|i: int|
        start <= i < end ==> match #[trigger] program.statements@[i] {
            Statement::Op(op) => match op {
                PreparedOp::External { out } => given(program, out),
                PreparedOp::Storage { out } => given(program, out),
                _ => true,
            },
            Statement::Loop(l) => 0 <= depth < u16::MAX && plain(
                program,
                l.body.start as int,
                l.body.end as int,
                depth + 1,
            ),
        }
}

/// The calls that a program asks for compute what its operations say: called
/// with its pinned functions, the program leaves in every slot what the
/// operations that name it as their output compute, row by row of its loops,
/// and leaves the caller's slots alone.
pub proof fn calls_compute_the_program(
    program: &PreparedProgram,
    pinned: PinnedAddresses,
    owner: Owner,
    buffer: Buffer,
)
    requires
        five(pinned),
        plain(program, program.entry.start as int, program.entry.end as int, 0),
    ensures
        performs(pinned, program.calls(pinned, owner), buffer) == interprets(
            program,
            program.entry.start as int,
            program.entry.end as int,
            Seq::empty(),
            0,
            buffer,
        ),
{
    trace_computes(
        program,
        pinned,
        owner,
        program.entry.start as int,
        program.entry.end as int,
        Seq::empty(),
        0,
        buffer,
    );
}

/// Calls made in two parts.
proof fn performs_on(
    pinned: PinnedAddresses,
    a: Seq<PinnedCall>,
    b: Seq<PinnedCall>,
    buffer: Buffer,
)
    ensures
        performs(pinned, a + b, buffer) == performs(pinned, b, performs(pinned, a, buffer)),
    decreases b.len(),
{
    if b.len() == 0 {
        assert(a + b =~= a);
    } else {
        performs_on(pinned, a, b.drop_last(), buffer);
        assert((a + b).drop_last() =~= a + b.drop_last());
        assert((a + b).last() == b.last());
    }
}

proof fn trace_computes(
    program: &PreparedProgram,
    pinned: PinnedAddresses,
    owner: Owner,
    start: int,
    end: int,
    scopes: Seq<Scope>,
    ordinal: int,
    buffer: Buffer,
)
    requires
        five(pinned),
        plain(program, start, end, scopes.len() as int),
    ensures
        performs(
            pinned,
            program.trace(pinned, owner, start, end, scopes, ordinal),
            buffer,
        ) == interprets(program, start, end, scopes, ordinal, buffer),
    decreases u16::MAX - scopes.len(), end - start, 1int,
{
    if start < end {
        let front = program.trace(pinned, owner, start, end - 1, scopes, ordinal);
        trace_computes(program, pinned, owner, start, end - 1, scopes, ordinal, buffer);
        let before = interprets(program, start, end - 1, scopes, ordinal, buffer);
        match program.statements@[end - 1] {
            Statement::Op(op) => {
                inputs_are_outputs_of_none(program, op);
                calls_name_their_operands(pinned, owner, op, scopes);
                if program.writes_input_spec(op) {
                    assert(front + Seq::<PinnedCall>::empty() =~= front);
                } else {
                    let call = crate::recompile::meaning::call_of(pinned, owner, op, scopes);
                    let one = seq![call];
                    performs_on(pinned, front, one, buffer);
                    assert(one.drop_last() =~= Seq::<PinnedCall>::empty());
                    assert(performs(pinned, one, before) == applies(
                        pinned,
                        call,
                        performs(pinned, one.drop_last(), before),
                    ));
                }
            },
            Statement::Loop(l) => {
                let first = l.invocations@[ordinal].first_row as int;
                let n = l.invocations@[ordinal].iterations as int;
                let rows = program.rows_trace(pinned, owner, l, first, n, scopes);
                performs_on(pinned, front, rows, buffer);
                rows_compute(program, pinned, owner, l, first, n, scopes, before);
            },
        }
    }
}

proof fn rows_compute(
    program: &PreparedProgram,
    pinned: PinnedAddresses,
    owner: Owner,
    l: PreparedLoop,
    first: int,
    n: int,
    scopes: Seq<Scope>,
    buffer: Buffer,
)
    requires
        five(pinned),
        0 <= scopes.len() < u16::MAX,
        plain(program, l.body.start as int, l.body.end as int, (scopes.len() + 1) as int),
    ensures
        performs(pinned, program.rows_trace(pinned, owner, l, first, n, scopes), buffer)
            == interprets_rows(program, l, first, n, scopes, buffer),
    decreases u16::MAX - scopes.len(), 0int, n,
{
    if n > 0 {
        rows_compute(program, pinned, owner, l, first, n - 1, scopes, buffer);
        let inner = scopes.push(Scope { l, row: first + n - 1 });
        let front = program.rows_trace(pinned, owner, l, first, n - 1, scopes);
        let body = program.trace(
            pinned,
            owner,
            l.body.start as int,
            l.body.end as int,
            inner,
            first + n - 1,
        );
        performs_on(pinned, front, body, buffer);
        trace_computes(
            program,
            pinned,
            owner,
            l.body.start as int,
            l.body.end as int,
            inner,
            first + n - 1,
            interprets_rows(program, l, first, n - 1, scopes, buffer),
        );
    }
}

/// The operations among the statements of a range whose output the caller does
/// not fill.
pub open spec fn asked(program: &PreparedProgram, start: int, end: int) -> nat
    decreases end - start,
{
    if start >= end {
        0
    } else {
        asked(program, start, end - 1) + match program.statements@[end - 1] {
            Statement::Op(PreparedOp::Create { out, .. }) => one_unless(given(program, out)),
            Statement::Op(PreparedOp::BitAnd { out, .. }) => one_unless(given(program, out)),
            Statement::Op(PreparedOp::BitOr { out, .. }) => one_unless(given(program, out)),
            Statement::Op(PreparedOp::BitXor { out, .. }) => one_unless(given(program, out)),
            Statement::Op(PreparedOp::Mux { out, .. }) => one_unless(given(program, out)),
            Statement::Op(PreparedOp::External { out }) => one_unless(given(program, out)),
            Statement::Op(PreparedOp::Storage { out }) => one_unless(given(program, out)),
            Statement::Loop(_) => 0,
        }
    }
}

/// One, or nothing.
pub open spec fn one_unless(skip: bool) -> nat {
    if skip {
        0
    } else {
        1
    }
}

/// Straight-line code makes one call for each operation whose output the caller
/// does not fill, and none for the others.
pub proof fn straight_code_calls_once(
    program: &PreparedProgram,
    pinned: PinnedAddresses,
    owner: Owner,
    start: int,
    end: int,
    scopes: Seq<Scope>,
    ordinal: int,
)
    requires
        forall|i: int| start <= i < end ==> (#[trigger] program.statements@[i]) is Op,
    ensures
        program.trace(pinned, owner, start, end, scopes, ordinal).len() == asked(
            program,
            start,
            end,
        ),
    decreases end - start,
{
    if start < end {
        straight_code_calls_once(program, pinned, owner, start, end - 1, scopes, ordinal);
        if let Statement::Op(op) = program.statements@[end - 1] {
            inputs_are_outputs_of_none(program, op);
        }
    }
}

/// The slot of a table names one of the loops around it.
pub open spec fn inside(slot: PreparedSlot, depth: int) -> bool {
    slot matches PreparedSlot::Table { depth: d, .. } ==> d < depth
}

/// A program is accepted where its ranges lie among its statements, every slot
/// that an operation names is static or of a loop around it, and nothing needs a
/// runtime registry or storage; and only there.
pub proof fn accepted_programs(program: &PreparedProgram, range: StatementRange, depth: int)
    requires
        0 <= depth,
    ensures
        program.valid(range, depth) <==> {
            &&& range.start <= range.end <= program.statements@.len()
            &&& forall|i: int|
                range.start <= i < range.end ==> match #[trigger] program.statements@[i] {
                    Statement::Op(PreparedOp::Create { out, .. }) => inside(out, depth),
                    Statement::Op(PreparedOp::BitAnd { a, b, out }) => inside(a, depth) && inside(
                        b,
                        depth,
                    ) && inside(out, depth),
                    Statement::Op(PreparedOp::BitOr { a, b, out }) => inside(a, depth) && inside(
                        b,
                        depth,
                    ) && inside(out, depth),
                    Statement::Op(PreparedOp::BitXor { a, b, out }) => inside(a, depth) && inside(
                        b,
                        depth,
                    ) && inside(out, depth),
                    Statement::Op(PreparedOp::Mux { cond, then, otherwise, out }) => inside(
                        cond,
                        depth,
                    ) && inside(then, depth) && inside(otherwise, depth) && inside(out, depth),
                    Statement::Op(_) => false,
                    Statement::Loop(l) => depth < u16::MAX && program.valid(l.body, depth + 1),
                }
        },
{
}

} // verus!
