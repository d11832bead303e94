//! Prepared programs: traces whose repetitions are loops over tables.
use vstd::prelude::*;

verus! {

/// A slot of the scratch buffer.
#[derive(Clone, Copy, Debug, Eq, PartialEq, Structural)]
pub struct Idx(pub u32);

/// A range of a program's statements.
#[derive(Clone, Copy, Debug, Eq, PartialEq, Structural)]
pub struct StatementRange {
    pub start: u32,
    pub end: u32,
}

/// A slot, given directly or by a field of the current row of a table.
#[derive(Clone, Copy, Debug, Eq, PartialEq, Structural)]
pub enum PreparedSlot {
    Static(Idx),
    /// The table of the loop `depth` levels out, zero being the innermost.
    Table { depth: u16, field: u32 },
}

/// One operation.
#[derive(Clone, Copy, Debug, Eq, PartialEq, Structural)]
#[allow(inconsistent_fields)]
pub enum PreparedOp {
    Create { value: bool, out: PreparedSlot },
    BitAnd { a: PreparedSlot, b: PreparedSlot, out: PreparedSlot },
    BitOr { a: PreparedSlot, b: PreparedSlot, out: PreparedSlot },
    BitXor { a: PreparedSlot, b: PreparedSlot, out: PreparedSlot },
    Mux { cond: PreparedSlot, then: PreparedSlot, otherwise: PreparedSlot, out: PreparedSlot },
    /// A call that only a runtime registry can make.
    External { out: PreparedSlot },
    /// An access to storage.
    Storage { out: PreparedSlot },
}

/// One entry of a loop: its first row and how many it runs over.
#[derive(Clone, Copy, Debug, Eq, PartialEq, Structural)]
pub struct Invocation {
    pub first_row: u32,
    pub iterations: u32,
}

/// A loop over the rows of a table.
#[derive(Clone, Debug)]
pub struct PreparedLoop {
    pub body: StatementRange,
    /// The rows, one after the other.
    pub table: Vec<u32>,
    pub fields_per_iteration: u32,
    /// What each run of the loop covers, by the row of the loop around it.
    pub invocations: Vec<Invocation>,
}

#[derive(Clone, Debug)]
pub enum Statement {
    Op(PreparedOp),
    Loop(PreparedLoop),
}

/// A trace whose repetitions are loops over tables.
#[derive(Clone, Debug)]
pub struct PreparedProgram {
    pub statements: Vec<Statement>,
    pub entry: StatementRange,
    /// The slots that the caller fills; nothing writes them.
    pub inputs: Vec<Idx>,
}

/// A slot of a table whose loop is active.
pub open spec fn slot_ok(slot: PreparedSlot, depth: int) -> bool {
    match slot {
        PreparedSlot::Static(_) => true,
        PreparedSlot::Table { depth: d, field: _ } => d < depth,
    }
}

/// An operation that code can be emitted for.
pub open spec fn op_ok(op: PreparedOp, depth: int) -> bool {
    match op {
        PreparedOp::Create { value: _, out } => slot_ok(out, depth),
        PreparedOp::BitAnd { a, b, out } => slot_ok(a, depth) && slot_ok(b, depth) && slot_ok(
            out,
            depth,
        ),
        PreparedOp::BitOr { a, b, out } => slot_ok(a, depth) && slot_ok(b, depth) && slot_ok(
            out,
            depth,
        ),
        PreparedOp::BitXor { a, b, out } => slot_ok(a, depth) && slot_ok(b, depth) && slot_ok(
            out,
            depth,
        ),
        PreparedOp::Mux { cond, then, otherwise, out } => slot_ok(cond, depth) && slot_ok(
            then,
            depth,
        ) && slot_ok(otherwise, depth) && slot_ok(out, depth),
        PreparedOp::External { out: _ } => false,
        PreparedOp::Storage { out: _ } => false,
    }
}

/// The slot that an operation writes.
pub open spec fn out_of(op: PreparedOp) -> PreparedSlot {
    match op {
        PreparedOp::Create { value: _, out } => out,
        PreparedOp::BitAnd { a: _, b: _, out } => out,
        PreparedOp::BitOr { a: _, b: _, out } => out,
        PreparedOp::BitXor { a: _, b: _, out } => out,
        PreparedOp::Mux { cond: _, then: _, otherwise: _, out } => out,
        PreparedOp::External { out } => out,
        PreparedOp::Storage { out } => out,
    }
}

impl PreparedProgram {
    /// A range of statements that code can be emitted for, inside `depth`
    /// loops: every index exists, every table slot names an active loop, and
    /// nothing needs a runtime registry or storage.
    pub open spec fn valid(&self, range: StatementRange, depth: int) -> bool
        decreases u16::MAX - depth,
    {
        &&& range.start <= range.end <= self.statements@.len()
        &&& forall|i: int|
            range.start <= i < range.end ==> match #[trigger] self.statements@[i] {
                Statement::Op(op) => op_ok(op, depth),
                Statement::Loop(l) => 0 <= depth < u16::MAX && self.valid(l.body, depth + 1),
            }
    }

    /// An operation that writes an input, whose value the caller supplies.
    pub open spec fn writes_input_spec(&self, op: PreparedOp) -> bool {
        out_of(op) matches PreparedSlot::Static(slot) && self.inputs@.contains(slot)
    }

    /// Whether an operation writes an input.
    pub fn writes_input(&self, op: PreparedOp) -> (r: bool)
        ensures
            r == self.writes_input_spec(op),
    {
        let out = match op {
            PreparedOp::Create { out, .. } => out,
            PreparedOp::BitAnd { out, .. } => out,
            PreparedOp::BitOr { out, .. } => out,
            PreparedOp::BitXor { out, .. } => out,
            PreparedOp::Mux { out, .. } => out,
            PreparedOp::External { out } => out,
            PreparedOp::Storage { out } => out,
        };
        match out {
            PreparedSlot::Static(slot) => {
                let mut i: usize = 0;
                while i < self.inputs.len()
                    invariant
                        i <= self.inputs@.len(),
                        out_of(op) == PreparedSlot::Static(slot),
                        forall|j: int| 0 <= j < i ==> self.inputs@[j] != slot,
                    decreases self.inputs@.len() - i,
                {
                    if self.inputs[i] == slot {
                        assert(self.inputs@.contains(slot)) by {
                            assert(self.inputs@[i as int] == slot);
                        }
                        return true;
                    }
                    i = i + 1;
                }
                false
            },
            PreparedSlot::Table { .. } => false,
        }
    }

    fn slot_valid(slot: PreparedSlot, depth: u16) -> (r: bool)
        ensures
            r == slot_ok(slot, depth as int),
    {
        match slot {
            PreparedSlot::Static(_) => true,
            PreparedSlot::Table { depth: d, .. } => d < depth,
        }
    }

    fn op_valid(op: PreparedOp, depth: u16) -> (r: bool)
        ensures
            r == op_ok(op, depth as int),
    {
        match op {
            PreparedOp::Create { out, .. } => Self::slot_valid(out, depth),
            PreparedOp::BitAnd { a, b, out } => Self::slot_valid(a, depth) && Self::slot_valid(
                b,
                depth,
            ) && Self::slot_valid(out, depth),
            PreparedOp::BitOr { a, b, out } => Self::slot_valid(a, depth) && Self::slot_valid(
                b,
                depth,
            ) && Self::slot_valid(out, depth),
            PreparedOp::BitXor { a, b, out } => Self::slot_valid(a, depth) && Self::slot_valid(
                b,
                depth,
            ) && Self::slot_valid(out, depth),
            PreparedOp::Mux { cond, then, otherwise, out } => Self::slot_valid(cond, depth)
                && Self::slot_valid(then, depth) && Self::slot_valid(otherwise, depth)
                && Self::slot_valid(out, depth),
            PreparedOp::External { .. } => false,
            PreparedOp::Storage { .. } => false,
        }
    }

    /// Check a range of statements.
    fn validate_range(&self, range: StatementRange, depth: u16) -> (r: bool)
        ensures
            r == self.valid(range, depth as int),
        decreases u16::MAX - depth,
    {
        if range.start > range.end || range.end as usize > self.statements.len() {
            return false;
        }
        let mut i: usize = range.start as usize;
        while i < range.end as usize
            invariant
                range.start <= i <= range.end <= self.statements@.len(),
                forall|j: int|
                    range.start <= j < i ==> match #[trigger] self.statements@[j] {
                        Statement::Op(op) => op_ok(op, depth as int),
                        Statement::Loop(l) => 0 <= depth < u16::MAX && self.valid(
                            l.body,
                            depth + 1,
                        ),
                    },
            decreases range.end - i,
        {
            let fine = match &self.statements[i] {
                Statement::Op(op) => Self::op_valid(*op, depth),
                Statement::Loop(l) => depth < u16::MAX && self.validate_range(l.body, depth + 1),
            };
            if !fine {
                assert(!(match self.statements@[i as int] {
                    Statement::Op(op) => op_ok(op, depth as int),
                    Statement::Loop(l) => 0 <= depth < u16::MAX && self.valid(l.body, depth + 1),
                }));
                return false;
            }
            i = i + 1;
        }
        true
    }

    /// Check the structural invariants that code emission relies on.
    pub fn validate(&self) -> (r: bool)
        ensures
            r == self.valid(self.entry, 0),
    {
        self.validate_range(self.entry, 0)
    }
}

} // verus!
