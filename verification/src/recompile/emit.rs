//! Emission of instructions.
use crate::recompile::program::{
    Invocation, PreparedLoop, PreparedOp, PreparedProgram, PreparedSlot, Statement, StatementRange,
};
use vstd::prelude::*;

verus! {

/// The address of each pinned runtime function that the emitted code calls, by
/// exact name.
pub struct PinnedAddresses {
    /// `create(backend, buf, val, out)`.
    pub create: usize,
    /// `bitand(backend, buf, a, b, out)`.
    pub bitand: usize,
    /// `bitor(backend, buf, a, b, out)`.
    pub bitor: usize,
    /// `bitxor(backend, buf, a, b, out)`.
    pub bitxor: usize,
    /// `mux(backend, buf, cond, then, r#else, out)`.
    pub mux: usize,
}

/// X0: the function's own `backend` argument.
pub const BACKEND_ARG: u8 = 0;

/// X1: the function's own `buf` argument.
pub const BUF_ARG: u8 = 1;

/// X19: callee-saved copy of `backend`.
pub const BACKEND_SAVE: u8 = 19;

/// X20: callee-saved copy of `buf`.
pub const BUF_SAVE: u8 = 20;

/// X21: callee-saved current table base.
pub const TABLE_BASE_SAVE: u8 = 21;

/// X22: callee-saved current table row.
pub const ROW_SAVE: u8 = 22;

/// X23: current iteration number.
pub const LOOP_ITERATION_SAVE: u8 = 23;

/// X24: current invocation's trip count.
pub const LOOP_COUNT_SAVE: u8 = 24;

/// X25: current invocation's first row.
pub const LOOP_FIRST_ROW_SAVE: u8 = 25;

/// X26: callee-saved number of fields in a row.
pub const FIELDS_SAVE: u8 = 26;

/// X9: scratch for a pinned function's address.
pub const ADDR_SCRATCH: u8 = 9;

/// X10: scratch while loading a table field.
pub const TABLE_OFFSET_SCRATCH: u8 = 10;

/// X11: table row byte offset.
pub const SLOT_SCRATCH: u8 = 11;

/// X12: optional table field byte offset.
pub const FIELD_SCRATCH: u8 = 12;

/// X2: the first of the four op-specific arguments of a pinned function.
pub const FIRST_ARG: u8 = 2;

/// An AArch64 instruction, or a label among them. Registers are 64 bits wide
/// where nothing else is said.
#[derive(Clone, Copy, Debug, Eq, PartialEq, Structural)]
#[allow(inconsistent_fields)]
pub enum Insn {
    /// `stp first, second, [sp, #-16]!`.
    PushPair { first: u8, second: u8 },
    /// `ldp first, second, [sp], #16`.
    PopPair { first: u8, second: u8 },
    /// `mov dest, src`.
    Move { dest: u8, src: u8 },
    /// `dest` becomes `value`.
    MoveImmediate { dest: u8, value: u64 },
    /// `adr dest, table`: the address of a table of the artifact.
    TableAddress { dest: u8, table: usize },
    /// `add dest, left, right`.
    Add { dest: u8, left: u8, right: u8 },
    /// `add dest, left, #literal`.
    AddLiteral { dest: u8, left: u8, literal: u64 },
    /// `mul dest, left, right`.
    Multiply { dest: u8, left: u8, right: u8 },
    /// `ldr wdest, [base, #disp]`.
    LoadWord { dest: u8, base: u8, disp: u32 },
    /// `ldr dest, [sp, #disp]`.
    LoadStack { dest: u8, disp: u32 },
    /// A place to branch to.
    Label(usize),
    /// `cmp left, right`.
    Compare { left: u8, right: u8 },
    /// `b.hs label`.
    BranchHigherOrSame(usize),
    /// `b label`.
    Branch(usize),
    /// `blr target`.
    Call { target: u8 },
    Return,
}

/// Where the number of a loop's invocation comes from.
#[derive(Clone, Copy, Debug, Eq, PartialEq, Structural)]
pub enum InvocationSource {
    Constant(u64),
    ParentRow,
}

/// An argument of a pinned function.
#[derive(Clone, Copy, Debug, Eq, PartialEq, Structural)]
pub enum PreparedArgument {
    Constant(u64),
    Slot(PreparedSlot),
}

/// The pinned function of an operation.
pub open spec fn address_of(pinned: PinnedAddresses, op: PreparedOp) -> u64 {
    match op {
        PreparedOp::Create { .. } => pinned.create as u64,
        PreparedOp::BitAnd { .. } => pinned.bitand as u64,
        PreparedOp::BitOr { .. } => pinned.bitor as u64,
        PreparedOp::BitXor { .. } => pinned.bitxor as u64,
        PreparedOp::Mux { .. } => pinned.mux as u64,
        _ => 0,
    }
}

/// The arguments of an operation, after the backend and the buffer.
pub open spec fn arguments_of(op: PreparedOp) -> Seq<PreparedArgument> {
    match op {
        PreparedOp::Create { value, out } => seq![
            PreparedArgument::Constant(
                if value {
                    1
                } else {
                    0
                },
            ),
            PreparedArgument::Slot(out),
        ],
        PreparedOp::BitAnd { a, b, out } => seq![
            PreparedArgument::Slot(a),
            PreparedArgument::Slot(b),
            PreparedArgument::Slot(out),
        ],
        PreparedOp::BitOr { a, b, out } => seq![
            PreparedArgument::Slot(a),
            PreparedArgument::Slot(b),
            PreparedArgument::Slot(out),
        ],
        PreparedOp::BitXor { a, b, out } => seq![
            PreparedArgument::Slot(a),
            PreparedArgument::Slot(b),
            PreparedArgument::Slot(out),
        ],
        PreparedOp::Mux { cond, then, otherwise, out } => seq![
            PreparedArgument::Slot(cond),
            PreparedArgument::Slot(then),
            PreparedArgument::Slot(otherwise),
            PreparedArgument::Slot(out),
        ],
        _ => Seq::empty(),
    }
}

/// The code that loads field `field` of a row into `dest`: the row number
/// times the fields of a row, in words, past the base of the table.
pub open spec fn table_access(base: u8, row: u8, fields: u8, field: u32, dest: u8) -> Seq<Insn> {
    let address = seq![
        Insn::Multiply { dest: SLOT_SCRATCH, left: row, right: fields },
        Insn::Add { dest: SLOT_SCRATCH, left: SLOT_SCRATCH, right: SLOT_SCRATCH },
        Insn::Add { dest: SLOT_SCRATCH, left: SLOT_SCRATCH, right: SLOT_SCRATCH },
        Insn::Add { dest: SLOT_SCRATCH, left: SLOT_SCRATCH, right: base },
    ];
    let within = if field != 0 {
        seq![
            Insn::MoveImmediate { dest: FIELD_SCRATCH, value: (4 * field) as u64 },
            Insn::Add { dest: SLOT_SCRATCH, left: SLOT_SCRATCH, right: FIELD_SCRATCH },
        ]
    } else {
        Seq::empty()
    };
    address + within + seq![Insn::LoadWord { dest, base: SLOT_SCRATCH, disp: 0 }]
}

/// The code that puts a slot's index into `dest`. The table of the innermost
/// loop is in registers; those around it are in saved frames, 48 bytes apart.
pub open spec fn slot_code(slot: PreparedSlot, dest: u8) -> Seq<Insn> {
    match slot {
        PreparedSlot::Static(slot) => seq![Insn::MoveImmediate { dest, value: slot.0 as u64 }],
        PreparedSlot::Table { depth, field } => if depth == 0 {
            table_access(TABLE_BASE_SAVE, ROW_SAVE, FIELDS_SAVE, field, dest)
        } else {
            let frame = 48 * (depth - 1);
            seq![
                Insn::LoadStack { dest: ADDR_SCRATCH, disp: (frame + 32) as u32 },
                Insn::LoadStack { dest: TABLE_OFFSET_SCRATCH, disp: (frame + 40) as u32 },
                Insn::LoadStack { dest: FIELD_SCRATCH, disp: (frame + 8) as u32 },
            ] + table_access(ADDR_SCRATCH, TABLE_OFFSET_SCRATCH, FIELD_SCRATCH, field, dest)
        },
    }
}

/// The code that puts an argument into `dest`.
pub open spec fn argument_code(argument: PreparedArgument, dest: u8) -> Seq<Insn> {
    match argument {
        PreparedArgument::Constant(value) => seq![Insn::MoveImmediate { dest, value }],
        PreparedArgument::Slot(slot) => slot_code(slot, dest),
    }
}

/// The code that puts arguments into the registers from X2 up.
pub open spec fn arguments_code(arguments: Seq<PreparedArgument>) -> Seq<Insn>
    decreases arguments.len(),
{
    if arguments.len() == 0 {
        Seq::empty()
    } else {
        arguments_code(arguments.drop_last()) + argument_code(
            arguments.last(),
            (FIRST_ARG + arguments.len() - 1) as u8,
        )
    }
}

/// The code of a call.
pub open spec fn call_code(address: u64, arguments: Seq<PreparedArgument>) -> Seq<Insn> {
    seq![
        Insn::Move { dest: BACKEND_ARG, src: BACKEND_SAVE },
        Insn::Move { dest: BUF_ARG, src: BUF_SAVE },
    ] + arguments_code(arguments) + seq![
        Insn::MoveImmediate { dest: ADDR_SCRATCH, value: address },
        Insn::Call { target: ADDR_SCRATCH },
    ]
}


/// A table of the artifact, under the number by which the code asks for its
/// address.
#[derive(Clone, Debug)]
pub struct TableData {
    pub table: usize,
    pub values: Vec<u32>,
}

/// The contents of a table.
pub struct Table {
    pub table: usize,
    pub values: Seq<u32>,
}

/// What emission yields: code, tables, and the first label that is free.
pub struct Emitted {
    pub code: Seq<Insn>,
    pub tables: Seq<Table>,
    pub next: int,
}

/// The descriptors of a loop's runs, two words each.
pub open spec fn descriptors(invocations: Seq<Invocation>) -> Seq<u32> {
    Seq::new(
        2 * invocations.len(),
        |k: int|
            if k % 2 == 0 {
                invocations[k / 2].first_row
            } else {
                invocations[k / 2].iterations
            },
    )
}

/// The code that saves the loop state of the loop around this one.
pub open spec fn save_scope() -> Seq<Insn> {
    seq![
        Insn::PushPair { first: TABLE_BASE_SAVE, second: ROW_SAVE },
        Insn::PushPair { first: LOOP_ITERATION_SAVE, second: LOOP_COUNT_SAVE },
        Insn::PushPair { first: LOOP_FIRST_ROW_SAVE, second: FIELDS_SAVE },
    ]
}

/// The code that restores it.
pub open spec fn restore_scope() -> Seq<Insn> {
    seq![
        Insn::PopPair { first: LOOP_FIRST_ROW_SAVE, second: FIELDS_SAVE },
        Insn::PopPair { first: LOOP_ITERATION_SAVE, second: LOOP_COUNT_SAVE },
        Insn::PopPair { first: TABLE_BASE_SAVE, second: ROW_SAVE },
    ]
}

/// The code that puts the number of the invocation into X9.
pub open spec fn ordinal_code(source: InvocationSource) -> Insn {
    match source {
        InvocationSource::Constant(value) => Insn::MoveImmediate { dest: ADDR_SCRATCH, value },
        InvocationSource::ParentRow => Insn::Move { dest: ADDR_SCRATCH, src: ROW_SAVE },
    }
}

/// The code before a loop's body: find the table and the descriptor of this
/// run, eight bytes each, and start with iteration zero; leave at the count.
pub open spec fn loop_head(fields: u32, source: InvocationSource, label: int) -> Seq<Insn> {
    save_scope() + seq![
        Insn::TableAddress { dest: TABLE_BASE_SAVE, table: label as usize },
        Insn::MoveImmediate { dest: FIELDS_SAVE, value: fields as u64 },
        Insn::TableAddress { dest: TABLE_OFFSET_SCRATCH, table: (label + 1) as usize },
        ordinal_code(source),
        Insn::Add { dest: ADDR_SCRATCH, left: ADDR_SCRATCH, right: ADDR_SCRATCH },
        Insn::Add { dest: ADDR_SCRATCH, left: ADDR_SCRATCH, right: ADDR_SCRATCH },
        Insn::Add { dest: ADDR_SCRATCH, left: ADDR_SCRATCH, right: ADDR_SCRATCH },
        Insn::Add { dest: TABLE_OFFSET_SCRATCH, left: TABLE_OFFSET_SCRATCH, right: ADDR_SCRATCH },
        Insn::LoadWord { dest: LOOP_FIRST_ROW_SAVE, base: TABLE_OFFSET_SCRATCH, disp: 0 },
        Insn::LoadWord { dest: LOOP_COUNT_SAVE, base: TABLE_OFFSET_SCRATCH, disp: 4 },
        Insn::MoveImmediate { dest: LOOP_ITERATION_SAVE, value: 0 },
        Insn::Label((label + 2) as usize),
        Insn::Compare { left: LOOP_ITERATION_SAVE, right: LOOP_COUNT_SAVE },
        Insn::BranchHigherOrSame((label + 3) as usize),
        Insn::Add { dest: ROW_SAVE, left: LOOP_FIRST_ROW_SAVE, right: LOOP_ITERATION_SAVE },
    ]
}

/// The code after it.
pub open spec fn loop_tail(label: int) -> Seq<Insn> {
    seq![
        Insn::AddLiteral { dest: LOOP_ITERATION_SAVE, left: LOOP_ITERATION_SAVE, literal: 1 },
        Insn::Branch((label + 2) as usize),
        Insn::Label((label + 3) as usize),
    ] + restore_scope()
}

impl PreparedProgram {
    /// What a range of statements inside `depth` loops is lowered to.
    pub open spec fn range_code(
        &self,
        pinned: PinnedAddresses,
        start: int,
        end: int,
        depth: int,
        source: InvocationSource,
        next: int,
    ) -> Emitted
        decreases u16::MAX - depth, end - start, 1int,
    {
        if start >= end {
            (Emitted { code: Seq::empty(), tables: Seq::empty(), next })
        } else {
            let before = self.range_code(pinned, start, end - 1, depth, source, next);
            let last = match self.statements@[end - 1] {
                Statement::Op(op) => Emitted {
                    code: if self.writes_input_spec(op) {
                        Seq::empty()
                    } else {
                        call_code(address_of(pinned, op), arguments_of(op))
                    },
                    tables: Seq::empty(),
                    next: before.next,
                },
                Statement::Loop(l) => self.loop_code(pinned, l, depth, source, before.next),
            };
            (Emitted {
                code: before.code + last.code,
                tables: before.tables + last.tables,
                next: last.next,
            })
        }
    }

    /// What a loop is lowered to: one copy of its body, and its tables.
    pub open spec fn loop_code(
        &self,
        pinned: PinnedAddresses,
        l: PreparedLoop,
        depth: int,
        source: InvocationSource,
        next: int,
    ) -> Emitted
        decreases u16::MAX - depth, 0int, 0int,
    {
        if depth < u16::MAX {
            let body = self.range_code(
                pinned,
                l.body.start as int,
                l.body.end as int,
                depth + 1,
                InvocationSource::ParentRow,
                next + 4,
            );
            (Emitted {
                code: loop_head(l.fields_per_iteration, source, next) + body.code + loop_tail(next),
                tables: body.tables + seq![
                    (Table { table: next as usize, values: l.table@ }),
                    (Table { table: (next + 1) as usize, values: descriptors(l.invocations@) }),
                ],
                next: body.next,
            })
        } else {
            (Emitted { code: Seq::empty(), tables: Seq::empty(), next })
        }
    }
}

/// Code and tables under construction.
#[derive(Clone, Debug)]
pub struct Listing {
    pub code: Vec<Insn>,
    pub tables: Vec<TableData>,
    pub next_label: usize,
}

/// The contents of tables.
pub open spec fn tables_of(tables: Seq<TableData>) -> Seq<Table> {
    tables.map_values(|t: TableData| Table { table: t.table, values: t.values@ })
}

impl Listing {
    /// There are fewer labels than instructions: every loop emits more than it
    /// takes labels, and the prologue comes first.
    pub open spec fn wf(&self) -> bool {
        self.next_label + 4 <= self.code@.len()
    }

    /// What was emitted so far.
    pub open spec fn emitted(&self) -> Emitted {
        Emitted { code: self.code@, tables: tables_of(self.tables@), next: self.next_label as int }
    }

    /// Append instructions that leave tables and labels alone.
    pub open spec fn extends(&self, before: &Self, code: Seq<Insn>) -> bool {
        &&& self.code@ == before.code@ + code
        &&& self.tables@ == before.tables@
        &&& self.next_label == before.next_label
    }

    /// Load field `field` of a row of a table into `dest`.
    pub fn emit_table_access(&mut self, base: u8, row: u8, fields: u8, field: u32, dest: u8)
        ensures
            final(self).extends(old(self), table_access(base, row, fields, field, dest)),
    {
        self.code.push(Insn::Multiply { dest: SLOT_SCRATCH, left: row, right: fields });
        self.code.push(Insn::Add { dest: SLOT_SCRATCH, left: SLOT_SCRATCH, right: SLOT_SCRATCH });
        self.code.push(Insn::Add { dest: SLOT_SCRATCH, left: SLOT_SCRATCH, right: SLOT_SCRATCH });
        self.code.push(Insn::Add { dest: SLOT_SCRATCH, left: SLOT_SCRATCH, right: base });
        if field != 0 {
            self.code.push(Insn::MoveImmediate { dest: FIELD_SCRATCH, value: 4 * (field as u64) });
            self.code.push(
                Insn::Add { dest: SLOT_SCRATCH, left: SLOT_SCRATCH, right: FIELD_SCRATCH },
            );
        }
        self.code.push(Insn::LoadWord { dest, base: SLOT_SCRATCH, disp: 0 });
        assert(self.code@ =~= old(self).code@ + table_access(base, row, fields, field, dest));
    }

    /// Put a slot's index into `dest`.
    pub fn emit_prepared_slot(&mut self, slot: PreparedSlot, dest: u8)
        ensures
            final(self).extends(old(self), slot_code(slot, dest)),
    {
        match slot {
            PreparedSlot::Static(slot) => {
                self.code.push(Insn::MoveImmediate { dest, value: slot.0 as u64 });
            },
            PreparedSlot::Table { depth, field } => {
                if depth == 0 {
                    self.emit_table_access(TABLE_BASE_SAVE, ROW_SAVE, FIELDS_SAVE, field, dest);
                } else {
                    let frame: u32 = 48 * (depth as u32 - 1);
                    // The innermost saved frame stores the direct parent's table
                    // state at SP + 32 and SP + 40; each older parent adds 48.
                    self.code.push(Insn::LoadStack { dest: ADDR_SCRATCH, disp: frame + 32 });
                    self.code.push(
                        Insn::LoadStack { dest: TABLE_OFFSET_SCRATCH, disp: frame + 40 },
                    );
                    self.code.push(Insn::LoadStack { dest: FIELD_SCRATCH, disp: frame + 8 });
                    self.emit_table_access(
                        ADDR_SCRATCH,
                        TABLE_OFFSET_SCRATCH,
                        FIELD_SCRATCH,
                        field,
                        dest,
                    );
                }
            },
        }
        assert(self.code@ =~= old(self).code@ + slot_code(slot, dest));
    }

    /// Call the function at `address` with `arguments` after the backend and
    /// the buffer.
    pub fn emit_pinned_arguments(&mut self, address: usize, arguments: &[PreparedArgument])
        requires
            arguments@.len() <= 4,
        ensures
            final(self).extends(old(self), call_code(address as u64, arguments@)),
    {
        self.code.push(Insn::Move { dest: BACKEND_ARG, src: BACKEND_SAVE });
        self.code.push(Insn::Move { dest: BUF_ARG, src: BUF_SAVE });
        let ghost head = seq![
            Insn::Move { dest: BACKEND_ARG, src: BACKEND_SAVE },
            Insn::Move { dest: BUF_ARG, src: BUF_SAVE },
        ];
        assert(self.code@ =~= old(self).code@ + head + arguments_code(arguments@.take(0)));
        let mut i: usize = 0;
        while i < arguments.len()
            invariant
                i <= arguments@.len() <= 4,
                self.code@ == old(self).code@ + head + arguments_code(arguments@.take(i as int)),
                self.tables@ == old(self).tables@,
                self.next_label == old(self).next_label,
            decreases arguments@.len() - i,
        {
            let ghost before = self.code@;
            let dest: u8 = FIRST_ARG + i as u8;
            match arguments[i] {
                PreparedArgument::Constant(value) => {
                    self.code.push(Insn::MoveImmediate { dest, value });
                },
                PreparedArgument::Slot(slot) => self.emit_prepared_slot(slot, dest),
            }
            assert(self.code@ =~= before + argument_code(arguments@[i as int], dest));
            assert(arguments@.take(i + 1).drop_last() =~= arguments@.take(i as int));
            assert(self.code@ =~= old(self).code@ + head + arguments_code(arguments@.take(i + 1)));
            i = i + 1;
        }
        assert(arguments@.take(i as int) =~= arguments@);
        self.code.push(Insn::MoveImmediate { dest: ADDR_SCRATCH, value: address as u64 });
        self.code.push(Insn::Call { target: ADDR_SCRATCH });
        assert(self.code@ =~= old(self).code@ + call_code(address as u64, arguments@));
    }

    /// Call the pinned function of an operation.
    pub fn emit_prepared_call(&mut self, pinned: &PinnedAddresses, op: PreparedOp)
        requires
            !(op matches PreparedOp::External { .. }),
            !(op matches PreparedOp::Storage { .. }),
        ensures
            final(self).extends(old(self), call_code(address_of(*pinned, op), arguments_of(op))),
    {
        let address: usize;
        let arguments: Vec<PreparedArgument>;
        match op {
            PreparedOp::Create { value, out } => {
                address = pinned.create;
                let value: u64 = if value {
                    1
                } else {
                    0
                };
                arguments = vec![PreparedArgument::Constant(value), PreparedArgument::Slot(out)];
            },
            PreparedOp::BitAnd { a, b, out } => {
                address = pinned.bitand;
                arguments =
                vec![PreparedArgument::Slot(a), PreparedArgument::Slot(b),
                    PreparedArgument::Slot(out)];
            },
            PreparedOp::BitOr { a, b, out } => {
                address = pinned.bitor;
                arguments =
                vec![PreparedArgument::Slot(a), PreparedArgument::Slot(b),
                    PreparedArgument::Slot(out)];
            },
            PreparedOp::BitXor { a, b, out } => {
                address = pinned.bitxor;
                arguments =
                vec![PreparedArgument::Slot(a), PreparedArgument::Slot(b),
                    PreparedArgument::Slot(out)];
            },
            PreparedOp::Mux { cond, then, otherwise, out } => {
                address = pinned.mux;
                arguments =
                vec![PreparedArgument::Slot(cond), PreparedArgument::Slot(then),
                    PreparedArgument::Slot(otherwise), PreparedArgument::Slot(out)];
            },
            _ => {
                return;
            },
        }
        assert(arguments@ =~= arguments_of(op));
        self.emit_pinned_arguments(address, arguments.as_slice());
    }

    /// The descriptors of a loop's runs, as words.
    fn descriptor_words(invocations: &Vec<Invocation>) -> (r: Vec<u32>)
        ensures
            r@ == descriptors(invocations@),
    {
        let mut words: Vec<u32> = Vec::new();
        let mut i: usize = 0;
        while i < invocations.len()
            invariant
                i <= invocations@.len(),
                words@ == descriptors(invocations@.take(i as int)),
            decreases invocations@.len() - i,
        {
            words.push(invocations[i].first_row);
            words.push(invocations[i].iterations);
            assert(words@ =~= descriptors(invocations@.take(i + 1)));
            i = i + 1;
        }
        assert(invocations@.take(i as int) =~= invocations@);
        words
    }

    /// Lower a loop: one copy of its body, run over the rows of this run's
    /// descriptor.
    pub fn emit_loop(
        &mut self,
        pinned: &PinnedAddresses,
        program: &PreparedProgram,
        loop_step: &PreparedLoop,
        active_depth: u16,
        invocation: InvocationSource,
    )
        requires
            old(self).wf(),
            active_depth < u16::MAX,
            program.valid(loop_step.body, active_depth + 1),
        ensures
            final(self).wf(),
            ({
                let added = program.loop_code(
                    *pinned,
                    *loop_step,
                    active_depth as int,
                    invocation,
                    old(self).next_label as int,
                );
                &&& final(self).code@ == old(self).code@ + added.code
                &&& tables_of(final(self).tables@) == tables_of(old(self).tables@) + added.tables
                &&& final(self).next_label == added.next
            }),
        decreases u16::MAX - active_depth, 0int, 0int,
    {
        assert(self.code.len() == self.code@.len());
        let table_label: usize = self.next_label;
        let invocations_label: usize = table_label + 1;
        let body_label: usize = table_label + 2;
        let exit_label: usize = table_label + 3;
        self.next_label = table_label + 4;
        // Keep every ancestor's active table scope live for nested statements.
        self.code.push(Insn::PushPair { first: TABLE_BASE_SAVE, second: ROW_SAVE });
        self.code.push(Insn::PushPair { first: LOOP_ITERATION_SAVE, second: LOOP_COUNT_SAVE });
        self.code.push(Insn::PushPair { first: LOOP_FIRST_ROW_SAVE, second: FIELDS_SAVE });
        self.code.push(Insn::TableAddress { dest: TABLE_BASE_SAVE, table: table_label });
        self.code.push(
            Insn::MoveImmediate {
                dest: FIELDS_SAVE,
                value: loop_step.fields_per_iteration as u64,
            },
        );
        self.code.push(
            Insn::TableAddress { dest: TABLE_OFFSET_SCRATCH, table: invocations_label },
        );
        match invocation {
            InvocationSource::Constant(value) => {
                self.code.push(Insn::MoveImmediate { dest: ADDR_SCRATCH, value });
            },
            InvocationSource::ParentRow => {
                self.code.push(Insn::Move { dest: ADDR_SCRATCH, src: ROW_SAVE });
            },
        }
        // Every descriptor is two words, so multiply the invocation ordinal by 8.
        self.code.push(Insn::Add { dest: ADDR_SCRATCH, left: ADDR_SCRATCH, right: ADDR_SCRATCH });
        self.code.push(Insn::Add { dest: ADDR_SCRATCH, left: ADDR_SCRATCH, right: ADDR_SCRATCH });
        self.code.push(Insn::Add { dest: ADDR_SCRATCH, left: ADDR_SCRATCH, right: ADDR_SCRATCH });
        self.code.push(
            Insn::Add {
                dest: TABLE_OFFSET_SCRATCH,
                left: TABLE_OFFSET_SCRATCH,
                right: ADDR_SCRATCH,
            },
        );
        self.code.push(
            Insn::LoadWord { dest: LOOP_FIRST_ROW_SAVE, base: TABLE_OFFSET_SCRATCH, disp: 0 },
        );
        self.code.push(
            Insn::LoadWord { dest: LOOP_COUNT_SAVE, base: TABLE_OFFSET_SCRATCH, disp: 4 },
        );
        self.code.push(Insn::MoveImmediate { dest: LOOP_ITERATION_SAVE, value: 0 });
        self.code.push(Insn::Label(body_label));
        self.code.push(Insn::Compare { left: LOOP_ITERATION_SAVE, right: LOOP_COUNT_SAVE });
        self.code.push(Insn::BranchHigherOrSame(exit_label));
        self.code.push(
            Insn::Add { dest: ROW_SAVE, left: LOOP_FIRST_ROW_SAVE, right: LOOP_ITERATION_SAVE },
        );
        assert(self.code@ =~= old(self).code@ + loop_head(
            loop_step.fields_per_iteration,
            invocation,
            table_label as int,
        ));
        self.emit_range(
            pinned,
            program,
            loop_step.body,
            active_depth + 1,
            InvocationSource::ParentRow,
        );
        self.code.push(
            Insn::AddLiteral { dest: LOOP_ITERATION_SAVE, left: LOOP_ITERATION_SAVE, literal: 1 },
        );
        self.code.push(Insn::Branch(body_label));
        self.code.push(Insn::Label(exit_label));
        self.code.push(Insn::PopPair { first: LOOP_FIRST_ROW_SAVE, second: FIELDS_SAVE });
        self.code.push(Insn::PopPair { first: LOOP_ITERATION_SAVE, second: LOOP_COUNT_SAVE });
        self.code.push(Insn::PopPair { first: TABLE_BASE_SAVE, second: ROW_SAVE });
        let ghost inner = self.tables@;
        let mut values: Vec<u32> = Vec::new();
        values.extend_from_slice(loop_step.table.as_slice());
        assert(values@ =~= loop_step.table@);
        self.tables.push(TableData { table: table_label, values });
        let words = Self::descriptor_words(&loop_step.invocations);
        self.tables.push(TableData { table: invocations_label, values: words });
        proof {
            let added = program.loop_code(
                *pinned,
                *loop_step,
                active_depth as int,
                invocation,
                table_label as int,
            );
            assert(self.code@ =~= old(self).code@ + added.code);
            assert(tables_of(self.tables@) =~= tables_of(inner) + seq![
                (Table { table: table_label, values: loop_step.table@ }),
                (Table {
                    table: invocations_label,
                    values: descriptors(loop_step.invocations@),
                }),
            ]);
            assert(tables_of(self.tables@) =~= tables_of(old(self).tables@) + added.tables);
        }
    }

    /// Lower a range of statements. Operations on inputs are left out: the
    /// caller fills those slots.
    pub fn emit_range(
        &mut self,
        pinned: &PinnedAddresses,
        program: &PreparedProgram,
        range: StatementRange,
        active_depth: u16,
        invocation: InvocationSource,
    )
        requires
            old(self).wf(),
            program.valid(range, active_depth as int),
        ensures
            final(self).wf(),
            ({
                let added = program.range_code(
                    *pinned,
                    range.start as int,
                    range.end as int,
                    active_depth as int,
                    invocation,
                    old(self).next_label as int,
                );
                &&& final(self).code@ == old(self).code@ + added.code
                &&& tables_of(final(self).tables@) == tables_of(old(self).tables@) + added.tables
                &&& final(self).next_label == added.next
            }),
        decreases u16::MAX - active_depth, 1int, 1int,
    {
        let mut i: usize = range.start as usize;
        proof {
            let none = program.range_code(
                *pinned,
                range.start as int,
                i as int,
                active_depth as int,
                invocation,
                old(self).next_label as int,
            );
            assert(self.code@ =~= old(self).code@ + none.code);
            assert(tables_of(self.tables@) =~= tables_of(old(self).tables@) + none.tables);
        }
        while i < range.end as usize
            invariant
                range.start <= i <= range.end <= program.statements@.len(),
                program.valid(range, active_depth as int),
                self.wf(),
                ({
                    let added = program.range_code(
                        *pinned,
                        range.start as int,
                        i as int,
                        active_depth as int,
                        invocation,
                        old(self).next_label as int,
                    );
                    &&& self.code@ == old(self).code@ + added.code
                    &&& tables_of(self.tables@) == tables_of(old(self).tables@) + added.tables
                    &&& self.next_label == added.next
                }),
            decreases range.end - i,
        {
            let ghost before = *self;
            match &program.statements[i] {
                Statement::Op(op) => {
                    if !program.writes_input(*op) {
                        self.emit_prepared_call(pinned, *op);
                    }
                },
                Statement::Loop(loop_step) => {
                    self.emit_loop(pinned, program, loop_step, active_depth, invocation);
                },
            }
            proof {
                let added = program.range_code(
                    *pinned,
                    range.start as int,
                    i + 1,
                    active_depth as int,
                    invocation,
                    old(self).next_label as int,
                );
                assert(self.code@ =~= old(self).code@ + added.code);
                assert(tables_of(self.tables@) =~= tables_of(old(self).tables@) + added.tables);
            }
            i = i + 1;
        }
    }
}

/// The code that saves what the function must give back, and keeps its two
/// arguments where calls leave them alone.
pub open spec fn prologue() -> Seq<Insn> {
    seq![
        Insn::PushPair { first: BACKEND_SAVE, second: BUF_SAVE },
        Insn::PushPair { first: TABLE_BASE_SAVE, second: ROW_SAVE },
        Insn::PushPair { first: LOOP_ITERATION_SAVE, second: LOOP_COUNT_SAVE },
        Insn::PushPair { first: LOOP_FIRST_ROW_SAVE, second: FIELDS_SAVE },
        Insn::PushPair { first: 29, second: 30 },
        Insn::Move { dest: BACKEND_SAVE, src: BACKEND_ARG },
        Insn::Move { dest: BUF_SAVE, src: BUF_ARG },
    ]
}

/// The code that restores it and returns.
pub open spec fn epilogue() -> Seq<Insn> {
    seq![
        Insn::PopPair { first: 29, second: 30 },
        Insn::PopPair { first: LOOP_FIRST_ROW_SAVE, second: FIELDS_SAVE },
        Insn::PopPair { first: LOOP_ITERATION_SAVE, second: LOOP_COUNT_SAVE },
        Insn::PopPair { first: TABLE_BASE_SAVE, second: ROW_SAVE },
        Insn::PopPair { first: BACKEND_SAVE, second: BUF_SAVE },
        Insn::Return,
    ]
}

impl PreparedProgram {
    /// The whole function that a program is lowered to.
    pub open spec fn function_code(&self, pinned: PinnedAddresses) -> Emitted {
        let body = self.range_code(
            pinned,
            self.entry.start as int,
            self.entry.end as int,
            0,
            InvocationSource::Constant(0),
            0,
        );
        Emitted { code: prologue() + body.code + epilogue(), ..body }
    }
}

/// Lower a prepared program to a listing: its instructions, and its tables in
/// the order in which they follow the return instruction.
///
/// Each loop obtains its table base with `ADR` and executes one copy of the
/// operation template per row, preserving the pinned-call convention.
pub fn compile_prepared_aarch64(program: &PreparedProgram, pinned: &PinnedAddresses) -> (r: Listing)
    requires
        program.valid(program.entry, 0),
    ensures
        r.emitted() == program.function_code(*pinned),
{
    let mut w = Listing { code: Vec::new(), tables: Vec::new(), next_label: 0 };
    w.code.push(Insn::PushPair { first: BACKEND_SAVE, second: BUF_SAVE });
    w.code.push(Insn::PushPair { first: TABLE_BASE_SAVE, second: ROW_SAVE });
    w.code.push(Insn::PushPair { first: LOOP_ITERATION_SAVE, second: LOOP_COUNT_SAVE });
    w.code.push(Insn::PushPair { first: LOOP_FIRST_ROW_SAVE, second: FIELDS_SAVE });
    w.code.push(Insn::PushPair { first: 29, second: 30 });
    w.code.push(Insn::Move { dest: BACKEND_SAVE, src: BACKEND_ARG });
    w.code.push(Insn::Move { dest: BUF_SAVE, src: BUF_ARG });
    assert(w.code@ =~= prologue());
    assert(tables_of(w.tables@) =~= Seq::empty());
    w.emit_range(pinned, program, program.entry, 0, InvocationSource::Constant(0));
    w.code.push(Insn::PopPair { first: 29, second: 30 });
    w.code.push(Insn::PopPair { first: LOOP_FIRST_ROW_SAVE, second: FIELDS_SAVE });
    w.code.push(Insn::PopPair { first: LOOP_ITERATION_SAVE, second: LOOP_COUNT_SAVE });
    w.code.push(Insn::PopPair { first: TABLE_BASE_SAVE, second: ROW_SAVE });
    w.code.push(Insn::PopPair { first: BACKEND_SAVE, second: BUF_SAVE });
    w.code.push(Insn::Return);
    assert(w.code@ =~= program.function_code(*pinned).code);
    assert(tables_of(w.tables@) =~= program.function_code(*pinned).tables);
    w
}

} // verus!
