//! What a prepared program means, and that the emitted code does it.
use crate::recompile::emit::{
    Emitted, Insn, InvocationSource, PinnedAddresses, PreparedArgument, Table, TableData, ADDR_SCRATCH,
    FIELD_SCRATCH, FIRST_ARG, SLOT_SCRATCH, TABLE_OFFSET_SCRATCH,
};
use crate::recompile::machine::{one_step, parts_stand, run_on, Call, Processor, Setting};
use crate::recompile::program::{
    PreparedLoop, PreparedOp, PreparedProgram, PreparedSlot, Statement, StatementRange,
};
use vstd::prelude::*;

verus! {

/// A call that a program asks for: the function, and its arguments.
pub struct PinnedCall {
    pub target: u64,
    pub arguments: Seq<u64>,
}

/// A loop at one of its rows.
pub struct Scope {
    pub l: PreparedLoop,
    pub row: int,
}

/// The slot that a program means, inside `scopes`, the innermost last.
pub open spec fn slot_index(slot: PreparedSlot, scopes: Seq<Scope>) -> u64 {
    match slot {
        PreparedSlot::Static(index) => index.0 as u64,
        PreparedSlot::Table { depth, field } => {
            let scope = scopes[scopes.len() - 1 - depth];
            scope.l.table@[scope.row * scope.l.fields_per_iteration + field] as u64
        },
    }
}

/// The value of an argument.
pub open spec fn argument_value(argument: PreparedArgument, scopes: Seq<Scope>) -> u64 {
    match argument {
        PreparedArgument::Constant(value) => value,
        PreparedArgument::Slot(slot) => slot_index(slot, scopes),
    }
}

/// The backend and the buffer, which every call gets first.
pub struct Owner {
    pub backend: u64,
    pub buf: u64,
}

/// The call of an operation.
pub open spec fn call_of(
    pinned: PinnedAddresses,
    owner: Owner,
    op: PreparedOp,
    scopes: Seq<Scope>,
) -> PinnedCall {
    PinnedCall {
        target: crate::recompile::emit::address_of(pinned, op),
        arguments: seq![owner.backend, owner.buf] + crate::recompile::emit::arguments_of(
            op,
        ).map_values(|a: PreparedArgument| argument_value(a, scopes)),
    }
}

impl PreparedProgram {
    /// The calls that a range of statements asks for, one after the other.
    /// `ordinal` is the number of the invocation of the loops in the range.
    pub open spec fn trace(
        &self,
        pinned: PinnedAddresses,
        owner: Owner,
        start: int,
        end: int,
        scopes: Seq<Scope>,
        ordinal: int,
    ) -> Seq<PinnedCall>
        decreases u16::MAX - scopes.len(), end - start, 1int,
    {
        if start >= end {
            Seq::empty()
        } else {
            self.trace(pinned, owner, start, end - 1, scopes, ordinal)
                + match self.statements@[end - 1] {
                Statement::Op(op) => if self.writes_input_spec(op) {
                    Seq::empty()
                } else {
                    seq![call_of(pinned, owner, op, scopes)]
                },
                Statement::Loop(l) => self.rows_trace(
                    pinned,
                    owner,
                    l,
                    l.invocations@[ordinal].first_row as int,
                    l.invocations@[ordinal].iterations as int,
                    scopes,
                ),
            }
        }
    }

    /// The calls of a loop over `n` rows from `first` on.
    pub open spec fn rows_trace(
        &self,
        pinned: PinnedAddresses,
        owner: Owner,
        l: PreparedLoop,
        first: int,
        n: int,
        scopes: Seq<Scope>,
    ) -> Seq<PinnedCall>
        decreases u16::MAX - scopes.len(), 0int, n,
    {
        if n <= 0 || scopes.len() >= u16::MAX {
            Seq::empty()
        } else {
            self.rows_trace(pinned, owner, l, first, n - 1, scopes) + self.trace(
                pinned,
                owner,
                l.body.start as int,
                l.body.end as int,
                scopes.push(Scope { l, row: first + n - 1 }),
                first + n - 1,
            )
        }
    }

    /// The calls that a program asks for.
    pub open spec fn calls(&self, pinned: PinnedAddresses, owner: Owner) -> Seq<PinnedCall> {
        self.trace(
            pinned,
            owner,
            self.entry.start as int,
            self.entry.end as int,
            Seq::empty(),
            0,
        )
    }

    /// The tables hold what the statements of a range read, inside `loops`:
    /// each field is in its row, each row that a loop runs over is in its
    /// table, and each run of a loop has a descriptor.
    pub open spec fn covered(&self, range: StatementRange, loops: Seq<PreparedLoop>) -> bool
        decreases u16::MAX - loops.len(),
    {
        &&& range.start <= range.end <= self.statements@.len()
        &&& forall|i: int|
            range.start <= i < range.end ==> match #[trigger] self.statements@[i] {
                Statement::Op(op) => self.writes_input_spec(op) || op_covered(op, loops),
                Statement::Loop(l) => {
                    &&& loops.len() < u16::MAX
                    &&& rows_held(l)
                    &&& descriptors_held(l, loops)
                    &&& self.covered(l.body, loops.push(l))
                },
            }
    }
}

/// The slot of a table is a field of its rows.
pub open spec fn argument_covered(argument: PreparedArgument, loops: Seq<PreparedLoop>) -> bool {
    match argument {
        PreparedArgument::Slot(PreparedSlot::Table { depth, field }) => {
            &&& depth < loops.len()
            &&& field < loops[loops.len() - 1 - depth].fields_per_iteration
        },
        _ => true,
    }
}

/// An operation whose slots can be read.
pub open spec fn op_covered(op: PreparedOp, loops: Seq<PreparedLoop>) -> bool {
    &&& !(op is External)
    &&& !(op is Storage)
    &&& forall|k: int|
        0 <= k < crate::recompile::emit::arguments_of(op).len() ==> argument_covered(
            #[trigger] crate::recompile::emit::arguments_of(op)[k],
            loops,
        )
}

/// The rows that a loop runs over are in its table.
pub open spec fn rows_held(l: PreparedLoop) -> bool {
    forall|k: int|
        0 <= k < l.invocations@.len() ==> ((#[trigger] l.invocations@[k]).first_row
            + l.invocations@[k].iterations) * l.fields_per_iteration <= l.table@.len()
}

/// Each row of the loop around it has a descriptor; outside of loops, one run
/// has.
pub open spec fn descriptors_held(l: PreparedLoop, loops: Seq<PreparedLoop>) -> bool {
    if loops.len() == 0 {
        l.invocations@.len() > 0
    } else {
        forall|k: int|
            0 <= k < loops.last().invocations@.len() ==> (
            #[trigger] loops.last().invocations@[k]).first_row
                + loops.last().invocations@[k].iterations <= l.invocations@.len()
    }
}

/// A row that a loop runs over.
pub open spec fn visits(scope: Scope) -> bool {
    exists|k: int|
        0 <= k < scope.l.invocations@.len() && (#[trigger] scope.l.invocations@[k]).first_row
            <= scope.row < scope.l.invocations@[k].first_row + scope.l.invocations@[k].iterations
}

/// A call as made is the call asked for.
pub open spec fn makes(call: Call, asked: PinnedCall) -> bool {
    &&& call.target == asked.target
    &&& asked.arguments.len() <= call.x.len()
    &&& call.x.take(asked.arguments.len() as int) == asked.arguments
}

/// The calls made since are the calls asked for.
pub open spec fn made(before: Seq<Call>, after: Seq<Call>, asked: Seq<PinnedCall>) -> bool {
    &&& after.len() == before.len() + asked.len()
    &&& forall|i: int| 0 <= i < before.len() ==> #[trigger] after[i] == before[i]
    &&& forall|i: int|
        0 <= i < asked.len() ==> makes(after[before.len() + i], #[trigger] asked[i])
}

/// Calls made one after the other.
proof fn made_on(
    a: Seq<Call>,
    b: Seq<Call>,
    c: Seq<Call>,
    first: Seq<PinnedCall>,
    second: Seq<PinnedCall>,
)
    requires
        made(a, b, first),
        made(b, c, second),
    ensures
        made(a, c, first + second),
{
    assert forall|i: int| 0 <= i < (first + second).len() implies makes(
        c[a.len() + i],
        #[trigger] (first + second)[i],
    ) by {
        if i < first.len() {
            assert((first + second)[i] == first[i]);
            assert(c[a.len() + i] == b[a.len() + i]);
        } else {
            assert((first + second)[i] == second[i - first.len()]);
        }
    }
}

/// A table at its place.
pub open spec fn placed(s: Setting, label: usize, values: Seq<u32>) -> bool {
    forall|k: int|
        0 <= k < values.len() ==> (s.word)(
            crate::recompile::machine::wrap((s.place)(label) + 4 * k),
        ) == #[trigger] values[k]
}

/// Every table is at its place.
pub open spec fn all_placed(s: Setting, tables: Seq<Table>) -> bool {
    forall|i: int|
        0 <= i < tables.len() ==> placed(s, (#[trigger] tables[i]).table, tables[i].values)
}

/// Every label is where its branches find it.
pub open spec fn resolved(s: Setting) -> bool {
    forall|i: int|
        0 <= i < s.code.len() ==> match #[trigger] s.code[i] {
            Insn::Label(label) => crate::recompile::machine::position(s.code, label) == i,
            _ => true,
        }
}


/// Sums wrap once or twice alike.
proof fn wraps(a: int, b: int)
    ensures
        crate::recompile::machine::wrap(crate::recompile::machine::wrap(a) + b)
            == crate::recompile::machine::wrap(a + b),
        crate::recompile::machine::wrap(b + crate::recompile::machine::wrap(a))
            == crate::recompile::machine::wrap(a + b),
{
    let m: int = 0x1_0000_0000_0000_0000;
    vstd::arithmetic::div_mod::lemma_add_mod_noop(a, b, m);
    vstd::arithmetic::div_mod::lemma_add_mod_noop(a % m, b, m);
    vstd::arithmetic::div_mod::lemma_mod_twice(a, m);
}

/// All registers but some scratch ones, the stack and the calls are as before.
pub open spec fn only_scratch(p: Processor, t: Processor, dest: u8) -> bool {
    &&& t.x.len() == 31
    &&& forall|r: int|
        0 <= r < 31 && r != dest && !(ADDR_SCRATCH <= r <= FIELD_SCRATCH) ==> t.x[r] == p.x[r]
    &&& t.stack == p.stack
    &&& t.calls == p.calls
    &&& !t.returned
}

/// Where a field of a row is.
pub open spec fn field_address(base: u64, row: u64, fields: u64, field: int) -> u64 {
    crate::recompile::machine::wrap(base + 4 * (row * fields + field))
}

/// The code of a table access loads the field.
proof fn access_runs(
    p: Processor,
    s: Setting,
    base: u8,
    row: u8,
    fields: u8,
    field: u32,
    dest: u8,
) -> (n: nat)
    requires
        crate::recompile::machine::stands(
            s.code,
            p.at,
            crate::recompile::emit::table_access(base, row, fields, field, dest),
        ),
        !p.returned,
        p.x.len() == 31,
        base < 31,
        row < 31,
        fields < 31,
        dest < 31,
        base != SLOT_SCRATCH,
        base != FIELD_SCRATCH,
    ensures
        only_scratch(p, p.run(s, n), dest),
        p.run(s, n).at == p.at + crate::recompile::emit::table_access(
            base,
            row,
            fields,
            field,
            dest,
        ).len(),
        p.run(s, n).x[dest as int] == (s.word)(
            field_address(p.x[base as int], p.x[row as int], p.x[fields as int], field as int),
        ) as u64,
{
    let piece = crate::recompile::emit::table_access(base, row, fields, field, dest);
    let (b, w) = (p.x[base as int], p.x[row as int] * p.x[fields as int]);
    assert(p.run(s, 0) == p);
    one_step(p, s, 0, piece, p.at, 0);
    one_step(p, s, 1, piece, p.at, 1);
    one_step(p, s, 2, piece, p.at, 2);
    one_step(p, s, 3, piece, p.at, 3);
    let t1 = p.run(s, 1);
    let t2 = p.run(s, 2);
    let t3 = p.run(s, 3);
    let t4 = p.run(s, 4);
    assert(t4.x[SLOT_SCRATCH as int] == crate::recompile::machine::wrap(b + 4 * w)) by {
        let r1 = crate::recompile::machine::wrap(w);
        let r2 = crate::recompile::machine::wrap(r1 + r1);
        let r3 = crate::recompile::machine::wrap(r2 + r2);
        assert(t1.x[SLOT_SCRATCH as int] == r1);
        assert(t2.x[SLOT_SCRATCH as int] == r2);
        assert(t3.x[SLOT_SCRATCH as int] == r3);
        assert(t4.x[SLOT_SCRATCH as int] == crate::recompile::machine::wrap(r3 + b));
        wraps(w, r1 as int);
        wraps(w, w);
        assert(r2 == crate::recompile::machine::wrap(w + w));
        wraps(w + w, r2 as int);
        wraps(w + w, w + w);
        assert(r3 == crate::recompile::machine::wrap(4 * w));
        wraps(4 * w, b as int);
    }
    if field != 0 {
        one_step(p, s, 4, piece, p.at, 4);
        one_step(p, s, 5, piece, p.at, 5);
        one_step(p, s, 6, piece, p.at, 6);
        let t6 = p.run(s, 6);
        wraps(b + 4 * w, 4 * field as int);
        assert(t6.x[SLOT_SCRATCH as int] == field_address(
            p.x[base as int],
            p.x[row as int],
            p.x[fields as int],
            field as int,
        ));
        wraps(b + 4 * (w + field), 0);
        7
    } else {
        one_step(p, s, 4, piece, p.at, 4);
        wraps(b + 4 * w, 0);
        5
    }
}


/// The double word `k` above the stack pointer.
pub open spec fn above(stack: Seq<u64>, k: int) -> u64 {
    stack[stack.len() - 1 - k]
}

/// The scopes are where the code looks for them: the innermost in registers,
/// those around it in saved frames of six double words. `labels` are the
/// numbers of their tables.
pub open spec fn framed(
    x: Seq<u64>,
    stack: Seq<u64>,
    s: Setting,
    scopes: Seq<Scope>,
    labels: Seq<usize>,
) -> bool {
    let n = scopes.len();
    &&& labels.len() == n
    &&& forall|j: int|
        0 <= j < n ==> placed(s, #[trigger] labels[j], scopes[j].l.table@) && visits(scopes[j])
            && rows_held(scopes[j].l)
    &&& n > 0 ==> {
        &&& x[21] == (s.place)(labels[n - 1])
        &&& x[22] == scopes[n - 1].row
        &&& x[26] == scopes[n - 1].l.fields_per_iteration
        &&& stack.len() >= 6 * (n - 1)
    }
    &&& forall|j: int|
        0 <= j < n - 1 ==> saved_frame(stack, s, n - 1 - j, scopes[j], #[trigger] labels[j])
}

/// The frame that holds the scope `d` levels out.
pub open spec fn saved_frame(
    stack: Seq<u64>,
    s: Setting,
    d: int,
    scope: Scope,
    label: usize,
) -> bool {
    &&& above(stack, 6 * (d - 1) + 4) == (s.place)(label)
    &&& above(stack, 6 * (d - 1) + 5) == scope.row
    &&& above(stack, 6 * (d - 1) + 1) == scope.l.fields_per_iteration
}

/// A field of a row that a loop visits is in its table.
proof fn field_held(scope: Scope, field: int)
    requires
        visits(scope),
        rows_held(scope.l),
        0 <= field < scope.l.fields_per_iteration,
    ensures
        0 <= scope.row * scope.l.fields_per_iteration + field < scope.l.table@.len(),
        0 <= scope.row < 0x2_0000_0000,
{
    let k = choose|k: int|
        0 <= k < scope.l.invocations@.len() && (#[trigger] scope.l.invocations@[k]).first_row
            <= scope.row < scope.l.invocations@[k].first_row + scope.l.invocations@[k].iterations;
    let end = scope.l.invocations@[k].first_row + scope.l.invocations@[k].iterations;
    let f = scope.l.fields_per_iteration as int;
    let row = scope.row;
    assert(0 <= row * f && row * f + f <= end * f) by (nonlinear_arith)
        requires
            0 <= row < end,
            f >= 0,
    ;
}

/// The loops of scopes.
pub open spec fn loops_of(scopes: Seq<Scope>) -> Seq<PreparedLoop> {
    scopes.map_values(|scope: Scope| scope.l)
}

/// The code of a slot loads its index.
proof fn slot_runs(
    p: Processor,
    s: Setting,
    slot: PreparedSlot,
    dest: u8,
    scopes: Seq<Scope>,
    labels: Seq<usize>,
) -> (n: nat)
    requires
        crate::recompile::machine::stands(
            s.code,
            p.at,
            crate::recompile::emit::slot_code(slot, dest),
        ),
        !p.returned,
        p.x.len() == 31,
        dest < 9,
        framed(p.x, p.stack, s, scopes, labels),
        argument_covered(PreparedArgument::Slot(slot), loops_of(scopes)),
    ensures
        only_scratch(p, p.run(s, n), dest),
        p.run(s, n).at == p.at + crate::recompile::emit::slot_code(slot, dest).len(),
        p.run(s, n).x[dest as int] == slot_index(slot, scopes),
{
    let piece = crate::recompile::emit::slot_code(slot, dest);
    assert(p.run(s, 0) == p);
    match slot {
        PreparedSlot::Static(_) => {
            one_step(p, s, 0, piece, p.at, 0);
            1
        },
        PreparedSlot::Table { depth, field } => {
            let j = scopes.len() - 1 - depth;
            let scope = scopes[j];
            assert(loops_of(scopes)[j] == scope.l);
            let index = scope.row * scope.l.fields_per_iteration + field;
            assert(placed(s, labels[j], scope.l.table@));
            field_held(scope, field as int);
            assert(scope.l.table@[index] == scope.l.table@[index]);
            let f = scope.l.fields_per_iteration as u64;
            assert(field_address((s.place)(labels[j]), scope.row as u64, f, field as int)
                == crate::recompile::machine::wrap((s.place)(labels[j]) + 4 * index));
            if depth == 0 {
                access_runs(p, s, 21, 22, 26, field, dest)
            } else {
                let d = depth as int;
                let load = seq![
                    Insn::LoadStack { dest: ADDR_SCRATCH, disp: (48 * (d - 1) + 32) as u32 },
                    Insn::LoadStack {
                        dest: TABLE_OFFSET_SCRATCH,
                        disp: (48 * (d - 1) + 40) as u32,
                    },
                    Insn::LoadStack { dest: FIELD_SCRATCH, disp: (48 * (d - 1) + 8) as u32 },
                ];
                let access = crate::recompile::emit::table_access(9, 10, 12, field, dest);
                assert(piece == load + access);
                parts_stand(s.code, p.at, load, access);
                one_step(p, s, 0, load, p.at, 0);
                one_step(p, s, 1, load, p.at, 1);
                one_step(p, s, 2, load, p.at, 2);
                let t = p.run(s, 3);
                assert(saved_frame(p.stack, s, d, scope, labels[j]));
                assert(t.x[9] == above(p.stack, 6 * (d - 1) + 4));
                assert(t.x[10] == above(p.stack, 6 * (d - 1) + 5));
                assert(t.x[12] == above(p.stack, 6 * (d - 1) + 1));
                let m = access_runs(t, s, 9, 10, 12, field, dest);
                run_on(p, s, 3, m);
                3 + m
            }
        },
    }
}

/// The code of arguments puts them into the registers from X2 up.
proof fn arguments_run(
    p: Processor,
    s: Setting,
    arguments: Seq<PreparedArgument>,
    scopes: Seq<Scope>,
    labels: Seq<usize>,
) -> (n: nat)
    requires
        crate::recompile::machine::stands(
            s.code,
            p.at,
            crate::recompile::emit::arguments_code(arguments),
        ),
        !p.returned,
        p.x.len() == 31,
        arguments.len() <= 4,
        framed(p.x, p.stack, s, scopes, labels),
        forall|k: int|
            0 <= k < arguments.len() ==> argument_covered(
                #[trigger] arguments[k],
                loops_of(scopes),
            ),
    ensures
        ({
            let t = p.run(s, n);
            &&& t.at == p.at + crate::recompile::emit::arguments_code(arguments).len()
            &&& t.x.len() == 31
            &&& forall|r: int|
                0 <= r < 31 && !(2 <= r < 6) && !(ADDR_SCRATCH <= r <= FIELD_SCRATCH) ==> t.x[r]
                    == p.x[r]
            &&& forall|k: int|
                0 <= k < arguments.len() ==> t.x[FIRST_ARG + k] == argument_value(
                    #[trigger] arguments[k],
                    scopes,
                )
            &&& t.stack == p.stack
            &&& t.calls == p.calls
            &&& !t.returned
        }),
    decreases arguments.len(),
{
    assert(p.run(s, 0) == p);
    if arguments.len() == 0 {
        0
    } else {
        let before = arguments.drop_last();
        let last = arguments.last();
        let dest = (FIRST_ARG + arguments.len() - 1) as u8;
        let head = crate::recompile::emit::arguments_code(before);
        let tail = crate::recompile::emit::argument_code(last, dest);
        parts_stand(s.code, p.at, head, tail);
        assert forall|k: int| 0 <= k < before.len() implies argument_covered(
            #[trigger] before[k],
            loops_of(scopes),
        ) by {
            assert(before[k] == arguments[k]);
        }
        let m = arguments_run(p, s, before, scopes, labels);
        let t = p.run(s, m);
        assert(framed(t.x, t.stack, s, scopes, labels));
        assert(argument_covered(arguments[arguments.len() - 1], loops_of(scopes)));
        assert(t.run(s, 0) == t);
        let k: nat = match last {
            PreparedArgument::Constant(_) => {
                one_step(t, s, 0, tail, t.at, 0);
                1
            },
            PreparedArgument::Slot(slot) => slot_runs(t, s, slot, dest, scopes, labels),
        };
        run_on(p, s, m, k);
        assert forall|i: int| 0 <= i < arguments.len() implies p.run(s, m + k).x[FIRST_ARG + i]
            == argument_value(#[trigger] arguments[i], scopes) by {
            if i < before.len() {
                assert(before[i] == arguments[i]);
            }
        }
        m + k
    }
}

/// What a piece of code inside loops keeps: X19 to X29 and the stack.
pub open spec fn kept(p: Processor, t: Processor) -> bool {
    &&& t.x.len() == 31
    &&& forall|r: int| 19 <= r <= 29 ==> #[trigger] t.x[r] == p.x[r]
    &&& t.stack == p.stack
    &&& !t.returned
}

/// The code of a call makes it.
proof fn call_runs(
    p: Processor,
    s: Setting,
    pinned: PinnedAddresses,
    owner: Owner,
    op: PreparedOp,
    scopes: Seq<Scope>,
    labels: Seq<usize>,
) -> (n: nat)
    requires
        crate::recompile::machine::stands(
            s.code,
            p.at,
            crate::recompile::emit::call_code(
                crate::recompile::emit::address_of(pinned, op),
                crate::recompile::emit::arguments_of(op),
            ),
        ),
        !p.returned,
        p.x.len() == 31,
        p.x[19] == owner.backend,
        p.x[20] == owner.buf,
        framed(p.x, p.stack, s, scopes, labels),
        op_covered(op, loops_of(scopes)),
    ensures
        kept(p, p.run(s, n)),
        p.run(s, n).at == p.at + crate::recompile::emit::call_code(
            crate::recompile::emit::address_of(pinned, op),
            crate::recompile::emit::arguments_of(op),
        ).len(),
        made(p.calls, p.run(s, n).calls, seq![call_of(pinned, owner, op, scopes)]),
{
    let address = crate::recompile::emit::address_of(pinned, op);
    let arguments = crate::recompile::emit::arguments_of(op);
    let code = crate::recompile::emit::arguments_code(arguments);
    let head = seq![Insn::Move { dest: 0, src: 19 }, Insn::Move { dest: 1, src: 20 }];
    let tail = seq![
        Insn::MoveImmediate { dest: ADDR_SCRATCH, value: address },
        Insn::Call { target: ADDR_SCRATCH },
    ];
    parts_stand(s.code, p.at, head + code, tail);
    parts_stand(s.code, p.at, head, code);
    assert(p.run(s, 0) == p);
    one_step(p, s, 0, head, p.at, 0);
    let t1 = p.run(s, 1);
    assert(t1 == p.set(0, p.x[19]));
    one_step(p, s, 1, head, p.at, 1);
    let t = p.run(s, 2);
    assert(t == t1.set(1, t1.x[20]));
    assert(t.stack == p.stack && t.x[21] == p.x[21] && t.x[22] == p.x[22] && t.x[26] == p.x[26]);
    assert(framed(t.x, t.stack, s, scopes, labels));
    let m = arguments_run(t, s, arguments, scopes, labels);
    run_on(p, s, 2, m);
    let u = p.run(s, 2 + m);
    assert(u.run(s, 0) == u);
    let at = u.at;
    one_step(u, s, 0, tail, at, 0);
    let v = u.run(s, 1);
    one_step(u, s, 1, tail, at, 1);
    run_on(p, s, 2 + m, 2);
    let asked = call_of(pinned, owner, op, scopes);
    let values = arguments.map_values(|a: PreparedArgument| argument_value(a, scopes));
    assert(v.x.take(asked.arguments.len() as int) =~= asked.arguments) by {
        assert forall|i: int| 0 <= i < asked.arguments.len() implies v.x[i]
            == asked.arguments[i] by {
            if i >= 2 {
                assert(asked.arguments[i] == values[i - 2]);
                assert(values[i - 2] == argument_value(arguments[i - 2], scopes));
                assert(u.x[FIRST_ARG + (i - 2)] == argument_value(arguments[i - 2], scopes));
            }
        }
    }
    let end = p.run(s, 2 + m + 2);
    assert(end == u.run(s, 2));
    assert(end.calls == p.calls.push(Call { target: address, x: v.x }));
    2 + m + 2
}


/// What the code before a loop's body leaves: the state of the loop around is
/// saved, and that of this loop is in registers.
pub open spec fn entered(
    p: Processor,
    t: Processor,
    s: Setting,
    label: int,
    l: PreparedLoop,
    ordinal: int,
) -> bool {
    &&& t.x.len() == 31
    &&& t.at == p.at + 14
    &&& t.stack == p.stack.push(p.x[22]).push(p.x[21]).push(p.x[24]).push(p.x[23]).push(
        p.x[26],
    ).push(p.x[25])
    &&& t.x[19] == p.x[19]
    &&& t.x[20] == p.x[20]
    &&& t.x[21] == (s.place)(label as usize)
    &&& t.x[23] == 0
    &&& t.x[24] == l.invocations@[ordinal].iterations
    &&& t.x[25] == l.invocations@[ordinal].first_row
    &&& t.x[26] == l.fields_per_iteration
    &&& t.x[27] == p.x[27]
    &&& t.x[28] == p.x[28]
    &&& t.x[29] == p.x[29]
    &&& t.calls == p.calls
    &&& !t.returned
}

/// The number of the invocation is where the code looks for it.
pub open spec fn numbered(source: InvocationSource, scopes: Seq<Scope>, ordinal: int) -> bool {
    match source {
        InvocationSource::Constant(value) => scopes.len() == 0 && value == 0 && ordinal == 0,
        InvocationSource::ParentRow => scopes.len() > 0 && ordinal == scopes.last().row,
    }
}

/// The code before a loop's body enters the loop.
proof fn head_runs(
    p: Processor,
    s: Setting,
    l: PreparedLoop,
    source: InvocationSource,
    label: int,
    scopes: Seq<Scope>,
    labels: Seq<usize>,
    ordinal: int,
) -> (n: nat)
    requires
        crate::recompile::machine::stands(
            s.code,
            p.at,
            crate::recompile::emit::loop_head(l.fields_per_iteration, source, label),
        ),
        !p.returned,
        p.x.len() == 31,
        framed(p.x, p.stack, s, scopes, labels),
        numbered(source, scopes, ordinal),
        0 <= ordinal < l.invocations@.len(),
        placed(s, (label + 1) as usize, crate::recompile::emit::descriptors(l.invocations@)),
    ensures
        entered(p, p.run(s, n), s, label, l, ordinal),
{
    let piece = crate::recompile::emit::loop_head(l.fields_per_iteration, source, label);
    let base = (s.place)((label + 1) as usize);
    let words = crate::recompile::emit::descriptors(l.invocations@);
    assert(p.run(s, 0) == p);
    one_step(p, s, 0, piece, p.at, 0);
    one_step(p, s, 1, piece, p.at, 1);
    one_step(p, s, 2, piece, p.at, 2);
    let t3 = p.run(s, 3);
    assert(t3.x == p.x && t3.at == p.at + 3 && t3.calls == p.calls && !t3.returned);
    assert(t3.stack == p.stack.push(p.x[22]).push(p.x[21]).push(p.x[24]).push(p.x[23]).push(
        p.x[26],
    ).push(p.x[25]));
    one_step(p, s, 3, piece, p.at, 3);
    one_step(p, s, 4, piece, p.at, 4);
    one_step(p, s, 5, piece, p.at, 5);
    one_step(p, s, 6, piece, p.at, 6);
    let t7 = p.run(s, 7);
    assert(t7.x[ADDR_SCRATCH as int] == ordinal);
    assert(t7.x[TABLE_OFFSET_SCRATCH as int] == base);
    one_step(p, s, 7, piece, p.at, 7);
    one_step(p, s, 8, piece, p.at, 8);
    one_step(p, s, 9, piece, p.at, 9);
    one_step(p, s, 10, piece, p.at, 10);
    let t11 = p.run(s, 11);
    assert(t11.x[TABLE_OFFSET_SCRATCH as int] == crate::recompile::machine::wrap(
        base + 8 * ordinal,
    )) by {
        let r1 = crate::recompile::machine::wrap(ordinal + ordinal);
        let r2 = crate::recompile::machine::wrap(r1 + r1);
        let r3 = crate::recompile::machine::wrap(r2 + r2);
        assert(p.run(s, 8).x[ADDR_SCRATCH as int] == r1);
        assert(p.run(s, 9).x[ADDR_SCRATCH as int] == r2);
        assert(p.run(s, 10).x[ADDR_SCRATCH as int] == r3);
        assert(t11.x[TABLE_OFFSET_SCRATCH as int] == crate::recompile::machine::wrap(base + r3));
        wraps(2 * ordinal, r1 as int);
        wraps(2 * ordinal, 2 * ordinal);
        wraps(4 * ordinal, r2 as int);
        wraps(4 * ordinal, 4 * ordinal);
        wraps(8 * ordinal, base as int);
    }
    one_step(p, s, 11, piece, p.at, 11);
    one_step(p, s, 12, piece, p.at, 12);
    one_step(p, s, 13, piece, p.at, 13);
    wraps(base + 8 * ordinal, 0);
    wraps(base + 8 * ordinal, 4);
    assert(words[2 * ordinal] == l.invocations@[ordinal].first_row);
    assert(words[2 * ordinal + 1] == l.invocations@[ordinal].iterations);
    14
}

/// The scopes inside an entered loop at a row.
proof fn inner_framed(
    p: Processor,
    t: Processor,
    x: Seq<u64>,
    s: Setting,
    label: int,
    l: PreparedLoop,
    row: int,
    ordinal: int,
    scopes: Seq<Scope>,
    labels: Seq<usize>,
)
    requires
        framed(p.x, p.stack, s, scopes, labels),
        entered(p, t, s, label, l, ordinal),
        placed(s, label as usize, l.table@),
        rows_held(l),
        visits(Scope { l, row }),
        x[21] == t.x[21],
        x[22] == row,
        x[26] == t.x[26],
    ensures
        framed(x, t.stack, s, scopes.push(Scope { l, row }), labels.push(label as usize)),
{
    let inner = scopes.push(Scope { l, row });
    let inner_labels = labels.push(label as usize);
    let n = inner.len();
    assert forall|j: int| 0 <= j < n implies placed(s, #[trigger] inner_labels[j], inner[j].l.table@)
        && visits(inner[j]) && rows_held(inner[j].l) by {
        if j < scopes.len() {
            assert(inner_labels[j] == labels[j]);
            assert(inner[j] == scopes[j]);
        }
    }
    assert forall|j: int| 0 <= j < n - 1 implies saved_frame(
        t.stack,
        s,
        n - 1 - j,
        inner[j],
        #[trigger] inner_labels[j],
    ) by {
        assert(inner[j] == scopes[j]);
        assert(inner_labels[j] == labels[j]);
        if j < n - 2 {
            let d = n - 1 - j;
            assert(saved_frame(p.stack, s, d - 1, scopes[j], labels[j]));
            assert(above(t.stack, 6 * (d - 1) + 4) == above(p.stack, 6 * (d - 2) + 4));
            assert(above(t.stack, 6 * (d - 1) + 5) == above(p.stack, 6 * (d - 2) + 5));
            assert(above(t.stack, 6 * (d - 1) + 1) == above(p.stack, 6 * (d - 2) + 1));
        }
    }
}


/// A range takes labels from `next` up, and a longer one no fewer.
proof fn labels_grow(
    program: &PreparedProgram,
    pinned: PinnedAddresses,
    start: int,
    mid: int,
    end: int,
    depth: int,
    source: InvocationSource,
    next: int,
)
    requires
        start <= mid <= end,
    ensures
        next <= program.range_code(pinned, start, mid, depth, source, next).next
            <= program.range_code(pinned, start, end, depth, source, next).next,
    decreases u16::MAX - depth, end - start, 1int,
{
    if start < end {
        let before = program.range_code(pinned, start, end - 1, depth, source, next);
        if let Statement::Loop(l) = program.statements@[end - 1] {
            loop_labels_grow(program, pinned, l, depth, source, before.next);
        }
        if mid < end {
            labels_grow(program, pinned, start, mid, end - 1, depth, source, next);
        } else {
            labels_grow(program, pinned, start, mid - 1, mid - 1, depth, source, next);
        }
    }
}

/// A loop takes four labels and those of its body.
proof fn loop_labels_grow(
    program: &PreparedProgram,
    pinned: PinnedAddresses,
    l: PreparedLoop,
    depth: int,
    source: InvocationSource,
    next: int,
)
    ensures
        next <= program.loop_code(pinned, l, depth, source, next).next,
        depth < u16::MAX ==> next + 4 <= program.loop_code(pinned, l, depth, source, next).next,
    decreases u16::MAX - depth, 0int, 0int,
{
    if depth < u16::MAX {
        let (start, end) = (l.body.start as int, l.body.end as int);
        if start <= end {
            labels_grow(
                program,
                pinned,
                start,
                end,
                end,
                depth + 1,
                InvocationSource::ParentRow,
                next + 4,
            );
        }
    }
}

/// What a piece of code needs of where it runs, inside `scopes`.
pub open spec fn set_up(
    p: Processor,
    s: Setting,
    e: Emitted,
    owner: Owner,
    scopes: Seq<Scope>,
    labels: Seq<usize>,
) -> bool {
    &&& crate::recompile::machine::stands(s.code, p.at, e.code)
    &&& all_placed(s, e.tables)
    &&& resolved(s)
    &&& e.next <= usize::MAX
    &&& !p.returned
    &&& p.x.len() == 31
    &&& p.x[19] == owner.backend
    &&& p.x[20] == owner.buf
    &&& framed(p.x, p.stack, s, scopes, labels)
}

/// The state at the top of a loop with `k` iterations done.
pub open spec fn rows_done(t: Processor, u: Processor, k: int) -> bool {
    &&& u.x.len() == 31
    &&& u.at == t.at
    &&& u.stack == t.stack
    &&& u.x[23] == k
    &&& forall|r: int| 19 <= r <= 29 && r != 22 && r != 23 ==> #[trigger] u.x[r] == t.x[r]
    &&& !u.returned
}

/// The loop runs its body on row after row.
proof fn rows_run(
    program: &PreparedProgram,
    pinned: PinnedAddresses,
    owner: Owner,
    p: Processor,
    t: Processor,
    s: Setting,
    l: PreparedLoop,
    source: InvocationSource,
    next: int,
    scopes: Seq<Scope>,
    labels: Seq<usize>,
    ordinal: int,
    k: int,
) -> (n: nat)
    requires
        set_up(
            p,
            s,
            program.loop_code(pinned, l, scopes.len() as int, source, next),
            owner,
            scopes,
            labels,
        ),
        0 <= next,
        numbered(source, scopes, ordinal),
        0 <= ordinal < l.invocations@.len(),
        scopes.len() < u16::MAX,
        rows_held(l),
        program.covered(l.body, loops_of(scopes).push(l)),
        entered(p, t, s, next, l, ordinal),
        0 <= k <= l.invocations@[ordinal].iterations,
    ensures
        rows_done(t, t.run(s, n), k),
        made(
            t.calls,
            t.run(s, n).calls,
            program.rows_trace(
                pinned,
                owner,
                l,
                l.invocations@[ordinal].first_row as int,
                k,
                scopes,
            ),
        ),
    decreases u16::MAX - scopes.len(), 0int, k,
{
    assert(t.run(s, 0) == t);
    let first = l.invocations@[ordinal].first_row as int;
    if k == 0 {
        0
    } else {
        let n = rows_run(
            program,
            pinned,
            owner,
            p,
            t,
            s,
            l,
            source,
            next,
            scopes,
            labels,
            ordinal,
            k - 1,
        );
        let u = t.run(s, n);
        let row = first + k - 1;
        let inner = scopes.push(Scope { l, row });
        let inner_labels = labels.push(next as usize);
        let (start, end) = (l.body.start as int, l.body.end as int);
        let body = program.range_code(
            pinned,
            start,
            end,
            scopes.len() as int + 1,
            InvocationSource::ParentRow,
            next + 4,
        );
        let e = program.loop_code(pinned, l, scopes.len() as int, source, next);
        let head = crate::recompile::emit::loop_head(l.fields_per_iteration, source, next);
        let tail = crate::recompile::emit::loop_tail(next);
        parts_stand(s.code, p.at, head + body.code, tail);
        parts_stand(s.code, p.at, head, body.code);
        labels_grow(
            program,
            pinned,
            start,
            end,
            end,
            scopes.len() as int + 1,
            InvocationSource::ParentRow,
            next + 4,
        );
        // Into the body.
        assert(u.run(s, 0) == u);
        one_step(u, s, 0, head, p.at, 14);
        one_step(u, s, 1, head, p.at, 15);
        one_step(u, s, 2, head, p.at, 16);
        one_step(u, s, 3, head, p.at, 17);
        let v = u.run(s, 4);
        assert(v.x[22] == row);
        let here = Scope { l, row };
        assert(visits(here)) by {
            assert(here.l.invocations@[ordinal].first_row <= here.row
                < here.l.invocations@[ordinal].first_row
                + here.l.invocations@[ordinal].iterations);
        }
        assert(e.tables[body.tables.len() as int].values == l.table@);
        assert(e.tables[body.tables.len() as int].table == next as usize);
        assert(placed(s, next as usize, l.table@));
        assert(all_placed(s, body.tables)) by {
            assert forall|i: int| 0 <= i < body.tables.len() implies placed(
                s,
                (#[trigger] body.tables[i]).table,
                body.tables[i].values,
            ) by {
                assert(e.tables[i] == body.tables[i]);
            }
        }
        inner_framed(p, t, v.x, s, next, l, row, ordinal, scopes, labels);
        assert(loops_of(inner) =~= loops_of(scopes).push(l));
        let m = range_runs(
            program,
            pinned,
            owner,
            v,
            s,
            l.body,
            end,
            InvocationSource::ParentRow,
            next + 4,
            inner,
            inner_labels,
            row,
        );
        let w = v.run(s, m);
        // Back to the top.
        assert(w.run(s, 0) == w);
        one_step(w, s, 0, tail, w.at, 0);
        let w1 = w.run(s, 1);
        assert(w1 == w.set(23, crate::recompile::machine::wrap(w.x[23] + 1)));
        one_step(w, s, 1, tail, w.at, 1);
        let w2 = w.run(s, 2);
        assert(s.code[p.at + 14] == head[14]);
        assert(head[14] == Insn::Label((next + 2) as usize));
        assert(w2.at == p.at + 14);
        run_on(v, s, m, 2);
        run_on(u, s, 4, m + 2);
        run_on(t, s, n, 4 + (m + 2));
        made_on(
            t.calls,
            u.calls,
            w2.calls,
            program.rows_trace(pinned, owner, l, first, k - 1, scopes),
            program.trace(pinned, owner, start, end, inner, row),
        );
        n + (4 + (m + 2))
    }
}

/// The code of a loop makes the calls that the loop asks for.
proof fn loop_runs(
    program: &PreparedProgram,
    pinned: PinnedAddresses,
    owner: Owner,
    p: Processor,
    s: Setting,
    l: PreparedLoop,
    source: InvocationSource,
    next: int,
    scopes: Seq<Scope>,
    labels: Seq<usize>,
    ordinal: int,
) -> (n: nat)
    requires
        set_up(
            p,
            s,
            program.loop_code(pinned, l, scopes.len() as int, source, next),
            owner,
            scopes,
            labels,
        ),
        0 <= next,
        numbered(source, scopes, ordinal),
        scopes.len() < u16::MAX,
        rows_held(l),
        descriptors_held(l, loops_of(scopes)),
        program.covered(l.body, loops_of(scopes).push(l)),
    ensures
        kept(p, p.run(s, n)),
        p.run(s, n).at == p.at + program.loop_code(
            pinned,
            l,
            scopes.len() as int,
            source,
            next,
        ).code.len(),
        made(
            p.calls,
            p.run(s, n).calls,
            program.rows_trace(
                pinned,
                owner,
                l,
                l.invocations@[ordinal].first_row as int,
                l.invocations@[ordinal].iterations as int,
                scopes,
            ),
        ),
    decreases u16::MAX - scopes.len(), 0int, 0x1_0000_0000int,
{
    let (start, end) = (l.body.start as int, l.body.end as int);
    let body = program.range_code(
        pinned,
        start,
        end,
        scopes.len() as int + 1,
        InvocationSource::ParentRow,
        next + 4,
    );
    let e = program.loop_code(pinned, l, scopes.len() as int, source, next);
    let head = crate::recompile::emit::loop_head(l.fields_per_iteration, source, next);
    let tail = crate::recompile::emit::loop_tail(next);
    parts_stand(s.code, p.at, head + body.code, tail);
    parts_stand(s.code, p.at, head, body.code);
    labels_grow(
        program,
        pinned,
        start,
        end,
        end,
        scopes.len() as int + 1,
        InvocationSource::ParentRow,
        next + 4,
    );
    assert(0 <= ordinal < l.invocations@.len()) by {
        if scopes.len() > 0 {
            let around = scopes.last();
            assert(loops_of(scopes).last() == around.l);
            assert(placed(s, labels[scopes.len() - 1], around.l.table@) && visits(around));
            let k = choose|k: int|
                0 <= k < around.l.invocations@.len() && (
                #[trigger] around.l.invocations@[k]).first_row <= around.row
                    < around.l.invocations@[k].first_row + around.l.invocations@[k].iterations;
            assert(around.l.invocations@[k].first_row <= around.row);
        }
    }
    let descriptors = crate::recompile::emit::descriptors(l.invocations@);
    assert(e.tables[body.tables.len() as int + 1].values == descriptors);
    assert(placed(s, (next + 1) as usize, descriptors));
    let count = l.invocations@[ordinal].iterations as int;
    let m = head_runs(p, s, l, source, next, scopes, labels, ordinal);
    let t = p.run(s, m);
    let k = rows_run(
        program,
        pinned,
        owner,
        p,
        t,
        s,
        l,
        source,
        next,
        scopes,
        labels,
        ordinal,
        count,
    );
    let u = t.run(s, k);
    // Out of the loop.
    assert(u.run(s, 0) == u);
    one_step(u, s, 0, head, p.at, 14);
    one_step(u, s, 1, head, p.at, 15);
    one_step(u, s, 2, head, p.at, 16);
    let v = u.run(s, 3);
    let exit = p.at + head.len() + body.code.len() + 2;
    assert(s.code[exit] == tail[2]);
    assert(tail[2] == Insn::Label((next + 3) as usize));
    assert(v.at == exit);
    assert(v.run(s, 0) == v);
    let at = p.at + head.len() + body.code.len();
    one_step(v, s, 0, tail, at, 2);
    one_step(v, s, 1, tail, at, 3);
    let v2 = v.run(s, 2);
    assert(v2.x[25] == p.x[25] && v2.x[26] == p.x[26]);
    assert(v2.stack =~= p.stack.push(p.x[22]).push(p.x[21]).push(p.x[24]).push(p.x[23]));
    one_step(v, s, 2, tail, at, 4);
    let v3 = v.run(s, 3);
    assert(v3.x[23] == p.x[23] && v3.x[24] == p.x[24]);
    assert(v3.stack =~= p.stack.push(p.x[22]).push(p.x[21]));
    one_step(v, s, 3, tail, at, 5);
    let v4 = v.run(s, 4);
    assert(v4.stack =~= p.stack);
    run_on(u, s, 3, 4);
    run_on(t, s, k, 7);
    run_on(p, s, m, k + 7);
    let last = p.run(s, m + (k + 7));
    assert(last == v4);
    assert forall|r: int| 19 <= r <= 29 implies #[trigger] last.x[r] == p.x[r] by {
        assert(u.x[19] == t.x[19] && u.x[20] == t.x[20] && u.x[27] == t.x[27]);
        assert(u.x[28] == t.x[28] && u.x[29] == t.x[29]);
    }
    m + (k + 7)
}

/// The code of a range makes the calls that its statements ask for.
proof fn range_runs(
    program: &PreparedProgram,
    pinned: PinnedAddresses,
    owner: Owner,
    p: Processor,
    s: Setting,
    range: StatementRange,
    end: int,
    source: InvocationSource,
    next: int,
    scopes: Seq<Scope>,
    labels: Seq<usize>,
    ordinal: int,
) -> (n: nat)
    requires
        set_up(
            p,
            s,
            program.range_code(
                pinned,
                range.start as int,
                end,
                scopes.len() as int,
                source,
                next,
            ),
            owner,
            scopes,
            labels,
        ),
        0 <= next,
        numbered(source, scopes, ordinal),
        range.start <= end <= range.end,
        program.covered(range, loops_of(scopes)),
    ensures
        kept(p, p.run(s, n)),
        p.run(s, n).at == p.at + program.range_code(
            pinned,
            range.start as int,
            end,
            scopes.len() as int,
            source,
            next,
        ).code.len(),
        made(
            p.calls,
            p.run(s, n).calls,
            program.trace(pinned, owner, range.start as int, end, scopes, ordinal),
        ),
    decreases u16::MAX - scopes.len(), end - range.start, 0x1_0000_0001int,
{
    let start = range.start as int;
    let depth = scopes.len() as int;
    assert(p.run(s, 0) == p);
    if end <= start {
        0
    } else {
        let e = program.range_code(pinned, start, end, depth, source, next);
        let before = program.range_code(pinned, start, end - 1, depth, source, next);
        labels_grow(program, pinned, start, end - 1, end, depth, source, next);
        let statement = program.statements@[end - 1];
        let last = match statement {
            Statement::Op(op) => Emitted {
                code: if program.writes_input_spec(op) {
                    Seq::empty()
                } else {
                    crate::recompile::emit::call_code(
                        crate::recompile::emit::address_of(pinned, op),
                        crate::recompile::emit::arguments_of(op),
                    )
                },
                tables: Seq::empty(),
                next: before.next,
            },
            Statement::Loop(l) => program.loop_code(pinned, l, depth, source, before.next),
        };
        assert(e.code == before.code + last.code);
        assert(e.tables == before.tables + last.tables);
        parts_stand(s.code, p.at, before.code, last.code);
        assert forall|i: int| 0 <= i < before.tables.len() implies placed(
            s,
            (#[trigger] before.tables[i]).table,
            before.tables[i].values,
        ) by {
            assert(e.tables[i] == before.tables[i]);
        }
        assert forall|i: int| 0 <= i < last.tables.len() implies placed(
            s,
            (#[trigger] last.tables[i]).table,
            last.tables[i].values,
        ) by {
            assert(e.tables[before.tables.len() + i] == last.tables[i]);
        }
        let m = range_runs(
            program,
            pinned,
            owner,
            p,
            s,
            range,
            end - 1,
            source,
            next,
            scopes,
            labels,
            ordinal,
        );
        let t = p.run(s, m);
        assert(t.x[19] == p.x[19] && t.x[20] == p.x[20] && t.x[21] == p.x[21] && t.x[22] == p.x[22]
            && t.x[26] == p.x[26]);
        assert(framed(t.x, t.stack, s, scopes, labels));
        assert(t.run(s, 0) == t);
        let asked = program.trace(pinned, owner, start, end - 1, scopes, ordinal);
        match statement {
            Statement::Op(op) => {
                if program.writes_input_spec(op) {
                    assert(program.trace(pinned, owner, start, end, scopes, ordinal) =~= asked);
                    m
                } else {
                    let k = call_runs(t, s, pinned, owner, op, scopes, labels);
                    run_on(p, s, m, k);
                    made_on(
                        p.calls,
                        t.calls,
                        t.run(s, k).calls,
                        asked,
                        seq![call_of(pinned, owner, op, scopes)],
                    );
                    m + k
                }
            },
            Statement::Loop(l) => {
                let k = loop_runs(
                    program,
                    pinned,
                    owner,
                    t,
                    s,
                    l,
                    source,
                    before.next,
                    scopes,
                    labels,
                    ordinal,
                );
                run_on(p, s, m, k);
                made_on(
                    p.calls,
                    t.calls,
                    t.run(s, k).calls,
                    asked,
                    program.rows_trace(
                        pinned,
                        owner,
                        l,
                        l.invocations@[ordinal].first_row as int,
                        l.invocations@[ordinal].iterations as int,
                        scopes,
                    ),
                );
                m + k
            },
        }
    }
}


/// The labels of a piece of code are between two numbers, and each stands
/// once.
pub open spec fn labelled(code: Seq<Insn>, low: int, high: int) -> bool {
    &&& forall|i: int|
        0 <= i < code.len() ==> match #[trigger] code[i] {
            Insn::Label(label) => low <= label < high,
            _ => true,
        }
    &&& forall|i: int, j: int|
        0 <= i < code.len() && 0 <= j < code.len() && code[i] is Label && #[trigger] code[i]
            == #[trigger] code[j] ==> i == j
}

/// Pieces with labels from different ranges can be put together.
proof fn labelled_on(left: Seq<Insn>, right: Seq<Insn>, low: int, mid: int, high: int)
    requires
        labelled(left, low, mid),
        labelled(right, mid, high),
        low <= mid <= high,
    ensures
        labelled(left + right, low, high),
{
    let both = left + right;
    assert forall|i: int| 0 <= i < both.len() implies match #[trigger] both[i] {
        Insn::Label(label) => low <= label < high,
        _ => true,
    } by {
        if i < left.len() {
            assert(both[i] == left[i]);
        } else {
            assert(both[i] == right[i - left.len()]);
        }
    }
    assert forall|i: int, j: int|
        0 <= i < both.len() && 0 <= j < both.len() && both[i] is Label && #[trigger] both[i]
            == #[trigger] both[j] implies i == j by {
        let a = if i < left.len() {
            left[i]
        } else {
            right[i - left.len()]
        };
        let b = if j < left.len() {
            left[j]
        } else {
            right[j - left.len()]
        };
        assert(both[i] == a && both[j] == b);
    }
}

/// The code of a call has no labels.
proof fn call_unlabelled(address: u64, arguments: Seq<PreparedArgument>, at: int)
    ensures
        labelled(crate::recompile::emit::call_code(address, arguments), at, at),
{
    let code = crate::recompile::emit::arguments_code(arguments);
    let head = seq![Insn::Move { dest: 0, src: 19 }, Insn::Move { dest: 1, src: 20 }];
    let tail = seq![
        Insn::MoveImmediate { dest: ADDR_SCRATCH, value: address },
        Insn::Call { target: ADDR_SCRATCH },
    ];
    arguments_unlabelled(arguments, at);
    labelled_on(head, code, at, at, at);
    labelled_on(head + code, tail, at, at, at);
}

/// The code of arguments has no labels.
proof fn arguments_unlabelled(arguments: Seq<PreparedArgument>, at: int)
    ensures
        labelled(crate::recompile::emit::arguments_code(arguments), at, at),
    decreases arguments.len(),
{
    if arguments.len() > 0 {
        let before = arguments.drop_last();
        let dest = (FIRST_ARG + arguments.len() - 1) as u8;
        arguments_unlabelled(before, at);
        labelled_on(
            crate::recompile::emit::arguments_code(before),
            crate::recompile::emit::argument_code(arguments.last(), dest),
            at,
            at,
            at,
        );
    }
}

/// Every label of a range's code is its own.
proof fn range_labelled(
    program: &PreparedProgram,
    pinned: PinnedAddresses,
    start: int,
    end: int,
    depth: int,
    source: InvocationSource,
    next: int,
)
    requires
        0 <= next,
        program.range_code(pinned, start, end, depth, source, next).next <= usize::MAX,
    ensures
        next <= program.range_code(pinned, start, end, depth, source, next).next,
        labelled(
            program.range_code(pinned, start, end, depth, source, next).code,
            next,
            program.range_code(pinned, start, end, depth, source, next).next,
        ),
    decreases u16::MAX - depth, end - start, 1int,
{
    if start < end {
        let before = program.range_code(pinned, start, end - 1, depth, source, next);
        labels_grow(program, pinned, start, end - 1, end, depth, source, next);
        range_labelled(program, pinned, start, end - 1, depth, source, next);
        match program.statements@[end - 1] {
            Statement::Op(op) => {
                if program.writes_input_spec(op) {
                    labelled_on(before.code, Seq::empty(), next, before.next, before.next);
                } else {
                    let address = crate::recompile::emit::address_of(pinned, op);
                    let arguments = crate::recompile::emit::arguments_of(op);
                    call_unlabelled(address, arguments, before.next);
                    labelled_on(
                        before.code,
                        crate::recompile::emit::call_code(address, arguments),
                        next,
                        before.next,
                        before.next,
                    );
                }
            },
            Statement::Loop(l) => {
                loop_labelled(program, pinned, l, depth, source, before.next);
                let e = program.loop_code(pinned, l, depth, source, before.next);
                labelled_on(before.code, e.code, next, before.next, e.next);
            },
        }
    }
}

/// Every label of a loop's code is its own.
proof fn loop_labelled(
    program: &PreparedProgram,
    pinned: PinnedAddresses,
    l: PreparedLoop,
    depth: int,
    source: InvocationSource,
    next: int,
)
    requires
        0 <= next,
        program.loop_code(pinned, l, depth, source, next).next <= usize::MAX,
    ensures
        next <= program.loop_code(pinned, l, depth, source, next).next,
        labelled(
            program.loop_code(pinned, l, depth, source, next).code,
            next,
            program.loop_code(pinned, l, depth, source, next).next,
        ),
    decreases u16::MAX - depth, 0int, 0int,
{
    loop_labels_grow(program, pinned, l, depth, source, next);
    if depth < u16::MAX {
        let (start, end) = (l.body.start as int, l.body.end as int);
        let parent = InvocationSource::ParentRow;
        let body = program.range_code(pinned, start, end, depth + 1, parent, next + 4);
        range_labelled(program, pinned, start, end, depth + 1, parent, next + 4);
        let head = crate::recompile::emit::loop_head(l.fields_per_iteration, source, next);
        let tail = crate::recompile::emit::loop_tail(next);
        let e = program.loop_code(pinned, l, depth, source, next);
        assert(head[14] == Insn::Label((next + 2) as usize));
        assert forall|i: int| 0 <= i < head.len() && i != 14 implies !(
        #[trigger] head[i] is Label) by {}
        assert(tail[2] == Insn::Label((next + 3) as usize));
        assert forall|i: int| 0 <= i < tail.len() && i != 2 implies !(
        #[trigger] tail[i] is Label) by {}
        let (h, b) = (head.len() as int, body.code.len() as int);
        assert forall|i: int| 0 <= i < e.code.len() implies #[trigger] e.code[i] == (if i < h {
            head[i]
        } else if i < h + b {
            body.code[i - h]
        } else {
            tail[i - h - b]
        }) by {}
        assert forall|i: int| 0 <= i < e.code.len() implies match #[trigger] e.code[i] {
            Insn::Label(label) => next <= label < e.next,
            _ => true,
        } by {
            if h <= i < h + b {
                assert(e.code[i] == body.code[i - h]);
            }
        }
        assert forall|i: int, j: int|
            0 <= i < e.code.len() && 0 <= j < e.code.len() && e.code[i] is Label
                && #[trigger] e.code[i] == #[trigger] e.code[j] implies i == j by {
            if h <= i < h + b {
                assert(e.code[i] == body.code[i - h]);
            }
            if h <= j < h + b {
                assert(e.code[j] == body.code[j - h]);
            }
        }
    }
}

/// A function that has returned: every call was made that was asked for, the
/// registers that a callee preserves and the return address are as at entry,
/// and so is the stack.
pub open spec fn completed(p: Processor, t: Processor, asked: Seq<PinnedCall>) -> bool {
    &&& t.returned
    &&& made(p.calls, t.calls, asked)
    &&& forall|r: int| 19 <= r <= 30 ==> #[trigger] t.x[r] == p.x[r]
    &&& t.stack == p.stack
}

/// The emitted function performs the recorded trace: called with a backend and
/// a buffer, it makes exactly the calls that the program asks for, in order,
/// whatever its callees leave in their scratch registers, and returns with the
/// registers that it must preserve and the stack as it found them.
pub proof fn emitted_code_performs_the_trace(
    program: &PreparedProgram,
    pinned: PinnedAddresses,
    p: Processor,
    s: Setting,
)
    requires
        program.covered(program.entry, Seq::empty()),
        s.code == program.function_code(pinned).code,
        all_placed(s, program.function_code(pinned).tables),
        program.function_code(pinned).next <= usize::MAX,
        p.at == 0,
        !p.returned,
        p.x.len() == 31,
    ensures
        exists|n: nat| #[trigger]
            completed(
                p,
                p.run(s, n),
                program.calls(pinned, Owner { backend: p.x[0], buf: p.x[1] }),
            ),
{
    let owner = Owner { backend: p.x[0], buf: p.x[1] };
    let (start, end) = (program.entry.start as int, program.entry.end as int);
    let zero = InvocationSource::Constant(0);
    let body = program.range_code(pinned, start, end, 0, zero, 0);
    let prologue = crate::recompile::emit::prologue();
    let epilogue = crate::recompile::emit::epilogue();
    assert(resolved(s)) by {
        range_labelled(program, pinned, start, end, 0, zero, 0);
        labelled_on(prologue, body.code, 0, 0, body.next);
        labelled_on(prologue + body.code, epilogue, 0, body.next, body.next);
        assert forall|i: int| 0 <= i < s.code.len() implies match #[trigger] s.code[i] {
            Insn::Label(label) => crate::recompile::machine::position(s.code, label) == i,
            _ => true,
        } by {
            if let Insn::Label(label) = s.code[i] {
                let found = crate::recompile::machine::position(s.code, label);
                assert(0 <= found < s.code.len() && s.code[found] == Insn::Label(label));
            }
        }
    }
    assert(crate::recompile::machine::stands(s.code, 0, prologue + body.code + epilogue));
    parts_stand(s.code, 0, prologue + body.code, epilogue);
    parts_stand(s.code, 0, prologue, body.code);
    assert(p.run(s, 0) == p);
    one_step(p, s, 0, prologue, 0, 0);
    one_step(p, s, 1, prologue, 0, 1);
    one_step(p, s, 2, prologue, 0, 2);
    one_step(p, s, 3, prologue, 0, 3);
    one_step(p, s, 4, prologue, 0, 4);
    one_step(p, s, 5, prologue, 0, 5);
    one_step(p, s, 6, prologue, 0, 6);
    let t = p.run(s, 7);
    let saved = p.stack.push(p.x[20]).push(p.x[19]).push(p.x[22]).push(p.x[21]).push(
        p.x[24],
    ).push(p.x[23]).push(p.x[26]).push(p.x[25]).push(p.x[30]).push(p.x[29]);
    assert(t.stack == saved);
    assert(t.x == p.x.update(19, p.x[0]).update(20, p.x[1]));
    assert(loops_of(Seq::empty()) =~= Seq::<PreparedLoop>::empty());
    let m = range_runs(
        program,
        pinned,
        owner,
        t,
        s,
        program.entry,
        end,
        zero,
        0,
        Seq::empty(),
        Seq::empty(),
        0,
    );
    let u = t.run(s, m);
    assert(u.run(s, 0) == u);
    let at = u.at;
    one_step(u, s, 0, epilogue, at, 0);
    let u1 = u.run(s, 1);
    assert(u1.stack =~= saved.take(saved.len() - 2));
    one_step(u, s, 1, epilogue, at, 1);
    let u2 = u.run(s, 2);
    assert(u2.stack =~= saved.take(saved.len() - 4));
    one_step(u, s, 2, epilogue, at, 2);
    let u3 = u.run(s, 3);
    assert(u3.stack =~= saved.take(saved.len() - 6));
    one_step(u, s, 3, epilogue, at, 3);
    let u4 = u.run(s, 4);
    assert(u4.stack =~= saved.take(saved.len() - 8));
    one_step(u, s, 4, epilogue, at, 4);
    let u5 = u.run(s, 5);
    assert(u5.stack =~= p.stack);
    one_step(u, s, 5, epilogue, at, 5);
    run_on(t, s, m, 6);
    run_on(p, s, 7, m + 6);
    let last = p.run(s, 7 + (m + 6));
    assert(last == u.run(s, 6));
    assert forall|r: int| 19 <= r <= 30 implies #[trigger] last.x[r] == p.x[r] by {
        assert(u.x[27] == t.x[27] && u.x[28] == t.x[28]);
    }
    assert(completed(p, last, program.calls(pinned, owner)));
}

/// Where a linked artifact is loaded, its tables are at their places: an
/// instruction that asks for a table gets the address at which the table's
/// words are.
pub proof fn linked_tables_are_placed(
    code: Seq<u8>,
    tables: Seq<TableData>,
    asks: Seq<usize>,
    artifact: Seq<u8>,
    base: int,
    s: Setting,
)
    requires
        crate::recompile::link::linked(code, tables, asks, tables.len() as int, artifact),
        forall|at: int|
            0 <= at <= artifact.len() - 4 ==> (s.word)(
                crate::recompile::machine::wrap(base + at),
            ) == #[trigger] crate::recompile::link::word_at(artifact, at),
        forall|i: int|
            0 <= i < tables.len() ==> (s.place)((#[trigger] tables[i]).table)
                == crate::recompile::machine::wrap(
                base + asks[i] + crate::recompile::link::adr_reach(
                    crate::recompile::link::word_at(artifact, asks[i] as int),
                ),
            ),
    ensures
        all_placed(s, crate::recompile::emit::tables_of(tables)),
{
    let size = code.len() as int;
    let contents = crate::recompile::emit::tables_of(tables);
    assert forall|i: int| 0 <= i < contents.len() implies placed(
        s,
        (#[trigger] contents[i]).table,
        contents[i].values,
    ) by {
        let start = crate::recompile::link::table_start(size, tables, i);
        let values = tables[i].values@;
        assert(contents[i].values == values);
        assert((s.place)(tables[i].table) == crate::recompile::machine::wrap(base + start)) by {
            assert(asks[i] == asks[i]);
        }
        assert forall|k: int| 0 <= k < values.len() implies (s.word)(
            crate::recompile::machine::wrap((s.place)(tables[i].table) + 4 * k),
        ) == #[trigger] values[k] by {
            wraps(base + start, 4 * k);
            crate::recompile::link::table_inside(size, tables, i);
            assert(crate::recompile::link::word_at(artifact, start + 4 * k)
                == tables[i].values@[k]);
        }
    }
}

} // verus!
