//! What the emitted instructions do.
use crate::recompile::emit::Insn;
use vstd::prelude::*;

verus! {

/// A number modulo the register size.
pub open spec fn wrap(v: int) -> u64 {
    (v % 0x1_0000_0000_0000_0000) as u64
}

/// A call as it was made: where to, and with what in the registers.
pub struct Call {
    pub target: u64,
    pub x: Seq<u64>,
}

/// A processor that runs emitted code.
pub struct Processor {
    /// X0 to X30.
    pub x: Seq<u64>,
    /// The double words on the stack, the one at SP last.
    pub stack: Seq<u64>,
    /// Whether the last comparison was higher or the same.
    pub higher: bool,
    /// The calls made so far.
    pub calls: Seq<Call>,
    /// The instruction that is next.
    pub at: int,
    /// Whether the function has returned.
    pub returned: bool,
}

/// What a callee leaves in the registers that it need not preserve.
pub struct Clobber {
    pub x: Seq<u64>,
    pub higher: bool,
}

/// Where code runs.
pub struct Setting {
    pub code: Seq<Insn>,
    /// The word at an address.
    pub word: spec_fn(u64) -> u32,
    /// The address of each table.
    pub place: spec_fn(usize) -> u64,
    /// What the `n`th callee leaves behind.
    pub callee: spec_fn(int) -> Clobber,
}

/// Where a label stands.
pub open spec fn position(code: Seq<Insn>, label: usize) -> int {
    choose|i: int| 0 <= i < code.len() && code[i] == Insn::Label(label)
}

impl Processor {
    /// On to the next instruction, with a register changed.
    pub open spec fn set(self, dest: u8, value: u64) -> Self {
        Processor { x: self.x.update(dest as int, value), at: self.at + 1, ..self }
    }

    /// After a call: X19 to X29 and the stack are as they were, as the
    /// procedure call standard has it.
    pub open spec fn called(self, target: u64, left: Clobber) -> Self {
        Processor {
            x: Seq::new(
                31,
                |r: int|
                    if 19 <= r <= 29 {
                        self.x[r]
                    } else {
                        left.x[r]
                    },
            ),
            higher: left.higher,
            calls: self.calls.push(Call { target, x: self.x }),
            at: self.at + 1,
            ..self
        }
    }

    /// What one instruction does.
    pub open spec fn execute(self, s: Setting, insn: Insn) -> Self {
        match insn {
            Insn::PushPair { first, second } => Processor {
                stack: self.stack.push(self.x[second as int]).push(self.x[first as int]),
                at: self.at + 1,
                ..self
            },
            Insn::PopPair { first, second } => Processor {
                x: self.x.update(first as int, self.stack[self.stack.len() - 1]).update(
                    second as int,
                    self.stack[self.stack.len() - 2],
                ),
                stack: self.stack.take(self.stack.len() - 2),
                at: self.at + 1,
                ..self
            },
            Insn::Move { dest, src } => self.set(dest, self.x[src as int]),
            Insn::MoveImmediate { dest, value } => self.set(dest, value),
            Insn::TableAddress { dest, table } => self.set(dest, (s.place)(table)),
            Insn::Add { dest, left, right } => self.set(
                dest,
                wrap(self.x[left as int] + self.x[right as int]),
            ),
            Insn::AddLiteral { dest, left, literal } => self.set(
                dest,
                wrap(self.x[left as int] + literal),
            ),
            Insn::Multiply { dest, left, right } => self.set(
                dest,
                wrap(self.x[left as int] * self.x[right as int]),
            ),
            Insn::LoadWord { dest, base, disp } => self.set(
                dest,
                (s.word)(wrap(self.x[base as int] + disp)) as u64,
            ),
            Insn::LoadStack { dest, disp } => self.set(
                dest,
                self.stack[self.stack.len() - 1 - disp / 8],
            ),
            Insn::Label(_) => Processor { at: self.at + 1, ..self },
            Insn::Compare { left, right } => Processor {
                higher: self.x[left as int] >= self.x[right as int],
                at: self.at + 1,
                ..self
            },
            Insn::BranchHigherOrSame(label) => Processor {
                at: if self.higher {
                    position(s.code, label)
                } else {
                    self.at + 1
                },
                ..self
            },
            Insn::Branch(label) => Processor { at: position(s.code, label), ..self },
            Insn::Call { target } => self.called(
                self.x[target as int],
                (s.callee)(self.calls.len() as int),
            ),
            Insn::Return => Processor { returned: true, ..self },
        }
    }

    /// One step, until the function has returned.
    pub open spec fn step(self, s: Setting) -> Self {
        if self.returned || !(0 <= self.at < s.code.len()) {
            self
        } else {
            self.execute(s, s.code[self.at])
        }
    }

    /// `n` steps.
    pub open spec fn run(self, s: Setting, n: nat) -> Self
        decreases n,
    {
        if n == 0 {
            self
        } else {
            self.run(s, (n - 1) as nat).step(s)
        }
    }
}

/// Steps add up.
pub proof fn run_on(p: Processor, s: Setting, m: nat, n: nat)
    ensures
        p.run(s, m).run(s, n) == p.run(s, m + n),
    decreases n,
{
    if n > 0 {
        run_on(p, s, m, (n - 1) as nat);
    }
}

/// A piece of code at its place.
pub open spec fn stands(code: Seq<Insn>, at: int, piece: Seq<Insn>) -> bool {
    &&& 0 <= at
    &&& at + piece.len() <= code.len()
    &&& forall|i: int| 0 <= i < piece.len() ==> code[at + i] == #[trigger] piece[i]
}

/// The parts of a piece stand one behind the other.
pub proof fn parts_stand(code: Seq<Insn>, at: int, left: Seq<Insn>, right: Seq<Insn>)
    requires
        stands(code, at, left + right),
    ensures
        stands(code, at, left),
        stands(code, at + left.len(), right),
{
    assert forall|i: int| 0 <= i < left.len() implies code[at + i] == #[trigger] left[i] by {
        assert((left + right)[i] == left[i]);
    }
    assert forall|i: int| 0 <= i < right.len() implies code[at + left.len() + i]
        == #[trigger] right[i] by {
        assert((left + right)[left.len() + i] == right[i]);
    }
}

/// One step over an instruction that stands at its place.
pub proof fn one_step(p: Processor, s: Setting, n: nat, piece: Seq<Insn>, at: int, k: int)
    requires
        stands(s.code, at, piece),
        0 <= k < piece.len(),
        p.run(s, n).at == at + k,
        !p.run(s, n).returned,
    ensures
        p.run(s, n + 1) == p.run(s, n).execute(s, piece[k]),
{
    assert(s.code[at + k] == piece[k]);
    assert(p.run(s, n + 1) == p.run(s, n).step(s));
}

} // verus!
