//! Static recognizer for secret-dependent early exits from loops (see
//! [`EarlyExitLoopOptions`](crate::handler::EarlyExitLoopOptions)).
//!
//! Only `CBZ`/`CBNZ` branches are recognized as early exits. The loop's own
//! back edge may be a `CBZ`/`CBNZ` or a conditional `B`. An `IT` instruction
//! anywhere in a scanned region is an unconditional rejection: this
//! recognizer does not model predication.
use crate::memory::{half_from_bytes, RawMemory};
use crate::thumb::decode::{decode16, decode32};
use crate::thumb::op::{Decoded, DecodeError, Op, Operand};
use vstd::prelude::*;

verus! {

/// Bound on how many `(register, constant)` writes the early-exit path may
/// perform before reaching the shared landing point.
pub const MAX_EXIT_WRITES: usize = 4;

/// Why an instruction cannot be had from memory.
#[derive(Clone, Copy, Debug, Eq, PartialEq, Structural)]
pub enum FetchError {
    /// The address is not mapped.
    Unmapped,
    /// The bytes there are no supported instruction.
    Decode(DecodeError),
}

/// The halfword at `pc`.
pub open spec fn half_at(mem: RawMemory<'_>, pc: u32) -> Option<u16> {
    match mem.reads(pc, 2) {
        Some(bytes) => Some(crate::memory::le_num(bytes) as u16),
        None => None,
    }
}

/// The instruction at `pc`.
pub open spec fn instruction_at(mem: RawMemory<'_>, pc: u32) -> Result<Decoded, FetchError> {
    match half_at(mem, pc) {
        None => Err(FetchError::Unmapped),
        Some(first) => if crate::thumb::decode::is_wide(first) {
            match half_at(mem, pc.wrapping_add(2)) {
                None => Err(FetchError::Decode(DecodeError::Truncated)),
                Some(second) => match crate::thumb::decode::wide_op(pc, first, second) {
                    Ok(d) => Ok(d),
                    Err(e) => Err(FetchError::Decode(e)),
                },
            }
        } else {
            match crate::thumb::decode::narrow_op(pc, first) {
                Ok(d) => Ok(d),
                Err(e) => Err(FetchError::Decode(e)),
            }
        },
    }
}

/// Fetch and decode the instruction at `pc`.
pub fn fetch(mem: &RawMemory<'_>, pc: u32) -> (r: Result<Decoded, FetchError>)
    ensures
        r == instruction_at(*mem, pc),
        r matches Ok(d) ==> crate::thumb::op::op_ok(d.operation) && (d.len == 2 || d.len == 4),
{
    let first: u16 = match mem.read::<2>(pc) {
        Some(bytes) => half_from_bytes(bytes),
        None => return Err(FetchError::Unmapped),
    };
    if first & 0xe000 == 0xe000 && first & 0x1800 != 0 {
        let second: u16 = match mem.read::<2>(pc.wrapping_add(2)) {
            Some(bytes) => half_from_bytes(bytes),
            None => return Err(FetchError::Decode(DecodeError::Truncated)),
        };
        match decode32(pc, first, second) {
            Ok(d) => Ok(d),
            Err(e) => Err(FetchError::Decode(e)),
        }
    } else {
        match decode16(pc, first) {
            Ok(d) => Ok(d),
            Err(e) => Err(FetchError::Decode(e)),
        }
    }
}

/// The operation at `pc` and its length, where there is one.
pub open spec fn op_at(mem: RawMemory<'_>, pc: u32) -> Option<(Op, u32)> {
    match instruction_at(mem, pc) {
        Ok(d) => Some((d.operation, d.len)),
        Err(_) => None,
    }
}

fn decode_at(mem: &RawMemory<'_>, pc: u32) -> (r: Option<(Op, u32)>)
    ensures
        r == op_at(*mem, pc),
        r matches Some((op, len)) ==> crate::thumb::op::op_ok(op),
{
    match fetch(mem, pc) {
        Ok(d) => Some((d.operation, d.len)),
        Err(_) => None,
    }
}

/// What the walk to a loop's latch does at one instruction.
#[derive(Clone, Copy, Debug, Eq, PartialEq, Structural)]
pub enum Walk {
    /// Go on there.
    On(u32),
    /// A conditional branch to there.
    Branch(u32),
    /// Nothing the idiom allows.
    Stop,
}

/// The walk past `op`, an operation of `len` bytes at `pc`: through straight
/// code and direct jumps, up to the first conditional branch.
pub open spec fn walk(op: Op, pc: u32, len: u32) -> Walk {
    match op {
        Op::It { condition: _, mask: _ } => Walk::Stop,
        Op::Branch { target, condition: None } => Walk::On(target),
        Op::Branch { target, condition: Some(_) } => Walk::Branch(target),
        Op::CompareBranch { register: _, nonzero: _, target } => Walk::Branch(target),
        Op::BranchRegister { register: _ } => Walk::Stop,
        Op::BranchExchangeNonSecure { register: _, link: _ } => Walk::Stop,
        Op::CallRegister { register: _ } => Walk::Stop,
        Op::SecureGateway => Walk::Stop,
        _ => Walk::On(pc.wrapping_add(len)),
    }
}

fn walk_past(op: Op, pc: u32, len: u32) -> (r: Walk)
    ensures
        r == walk(op, pc, len),
{
    match op {
        Op::It { .. } => Walk::Stop,
        Op::Branch { target, condition: None } => Walk::On(target),
        Op::Branch { target, condition: Some(_) } => Walk::Branch(target),
        Op::CompareBranch { target, .. } => Walk::Branch(target),
        Op::BranchRegister { .. } => Walk::Stop,
        Op::BranchExchangeNonSecure { .. } => Walk::Stop,
        Op::CallRegister { .. } => Walk::Stop,
        Op::SecureGateway => Walk::Stop,
        _ => Walk::On(pc.wrapping_add(len)),
    }
}

/// Where a loop that goes on at `pc` leaves its latch: the first conditional
/// branch from there on must be a backward edge that encloses `branch_pc`,
/// and lie within `budget` instructions; the address after it is the loop's
/// natural exit.
pub open spec fn natural_exit(mem: RawMemory<'_>, pc: u32, branch_pc: u32, budget: nat) -> Option<u32>
    decreases budget,
{
    if budget == 0 {
        None
    } else {
        match op_at(mem, pc) {
            None => None,
            Some((op, len)) => match walk(op, pc, len) {
                Walk::Stop => None,
                Walk::On(next) => natural_exit(mem, next, branch_pc, (budget - 1) as nat),
                Walk::Branch(target) => if target < pc && target <= branch_pc {
                    Some(pc.wrapping_add(len))
                } else {
                    None
                },
            },
        }
    }
}

/// Walk forward from `start`, proving it reaches a backward branch (the
/// enclosing loop's latch) that encloses `branch_pc`, without passing
/// through an `IT` block, another candidate branch, or any indirect control
/// transfer. Returns that latch's not-taken (natural exit) successor
/// address.
///
/// The latch may be a `CBZ`/`CBNZ` or a conditional `B`. It is not itself
/// something this recognizer resolves: it is expected to resolve through the
/// interpreter's concrete-flags branch handling at run time.
fn resolve_continue(mem: &RawMemory<'_>, start: u32, branch_pc: u32, budget: u16) -> (r: Option<u32>)
    ensures
        r == natural_exit(*mem, start, branch_pc, budget as nat),
{
    let mut pc: u32 = start;
    let mut left: u16 = budget;
    while left > 0
        invariant
            natural_exit(*mem, start, branch_pc, budget as nat) == natural_exit(
                *mem,
                pc,
                branch_pc,
                left as nat,
            ),
        decreases left,
    {
        left = left - 1;
        let (op, len) = match decode_at(mem, pc) {
            Some(found) => found,
            None => return None,
        };
        match walk_past(op, pc, len) {
            Walk::Stop => return None,
            Walk::On(next) => {
                pc = next;
            },
            Walk::Branch(target) => {
                // A forward edge would be a second real branch on this path,
                // which the idiom does not allow.
                if target >= pc || target > branch_pc {
                    return None;
                }
                return Some(pc.wrapping_add(len));
            },
        }
    }
    None
}

/// The end of a chain of unconditional jumps.
pub open spec fn landing(mem: RawMemory<'_>, pc: u32, budget: nat) -> Option<u32>
    decreases budget,
{
    if budget == 0 {
        None
    } else {
        match op_at(mem, pc) {
            None => None,
            Some((Op::Branch { target, condition: None }, _)) => landing(
                mem,
                target,
                (budget - 1) as nat,
            ),
            Some(_) => Some(pc),
        }
    }
}

/// Walk forward from `natural_exit` through only unconditional `B` jumps,
/// stopping at the first instruction that isn't one. This is the loop's
/// natural-exit merge point, computed without chasing constant writes: the
/// natural-exit path always executes for real and must not be confused with
/// shared epilogue code that happens to also start with a `MOV rd, #imm`.
fn resolve_natural_landing(mem: &RawMemory<'_>, natural_exit: u32, budget: u16) -> (r: Option<u32>)
    ensures
        r == landing(*mem, natural_exit, budget as nat),
{
    let mut pc: u32 = natural_exit;
    let mut left: u16 = budget;
    while left > 0
        invariant
            landing(*mem, natural_exit, budget as nat) == landing(*mem, pc, left as nat),
        decreases left,
    {
        left = left - 1;
        let (op, _len) = match decode_at(mem, pc) {
            Some(found) => found,
            None => return None,
        };
        match op {
            Op::Branch { target, condition: None } => {
                pc = target;
            },
            _ => return Some(pc),
        }
    }
    None
}

/// The constant writes on the way from `pc` to `merge`, when there is nothing
/// else on it than such writes and unconditional jumps.
pub open spec fn exit_writes(
    mem: RawMemory<'_>,
    pc: u32,
    merge: u32,
    budget: nat,
    done: Seq<(u8, u32)>,
) -> Option<Seq<(u8, u32)>>
    decreases budget,
{
    if pc == merge {
        Some(done)
    } else if budget == 0 {
        None
    } else {
        match op_at(mem, pc) {
            Some((Op::Branch { target, condition: None }, _)) => exit_writes(
                mem,
                target,
                merge,
                (budget - 1) as nat,
                done,
            ),
            Some(
                (Op::Move { dest, source: Operand::Immediate(value), set_flags: false }, len),
            ) => if done.len() >= 4 {
                None
            } else {
                exit_writes(
                    mem,
                    pc.wrapping_add(len),
                    merge,
                    (budget - 1) as nat,
                    done.push((dest, value)),
                )
            },
            _ => None,
        }
    }
}

/// Up to [`MAX_EXIT_WRITES`] constant writes.
#[derive(Clone, Copy, Debug)]
pub struct ExitLanding {
    pub writes: [(u8, u32); 4],
    pub write_count: usize,
}

impl ExitLanding {
    /// The writes, in order.
    pub open spec fn view(&self) -> Seq<(u8, u32)> {
        self.writes@.take(self.write_count as int)
    }

    /// No more writes than fit, each to a register that exists.
    pub open spec fn ok(&self) -> bool {
        &&& self.write_count <= 4
        &&& forall|i: int| 0 <= i < self.write_count ==> (#[trigger] self.writes@[i]).0 < 16
    }
}

/// Walk forward from `start` through only unconditional `B` jumps and
/// non-flag-setting `MOV rd, #imm` constant writes, requiring that walk to
/// land *exactly* on `merge` before consuming any instruction at or past
/// it. A flag-setting `MOVS` is deliberately excluded: its flags are an
/// observable side effect this recognizer does not replay.
fn resolve_exit_landing(mem: &RawMemory<'_>, start: u32, merge: u32, budget: u16) -> (r: Option<
    ExitLanding,
>)
    ensures
        r is Some == exit_writes(*mem, start, merge, budget as nat, seq![]) is Some,
        r matches Some(l) ==> l.ok() && Some(l@) == exit_writes(
            *mem,
            start,
            merge,
            budget as nat,
            seq![],
        ),
{
    let mut pc: u32 = start;
    let mut left: u16 = budget;
    let mut found = ExitLanding { writes: [(0u8, 0u32); 4], write_count: 0 };
    assert(found@ =~= seq![]);
    loop
        invariant
            found.ok(),
            exit_writes(*mem, start, merge, budget as nat, seq![]) == exit_writes(
                *mem,
                pc,
                merge,
                left as nat,
                found@,
            ),
        decreases left,
    {
        if pc == merge {
            return Some(found);
        }
        if left == 0 {
            return None;
        }
        left = left - 1;
        let (op, len) = match decode_at(mem, pc) {
            Some(next) => next,
            None => return None,
        };
        match op {
            Op::Branch { target, condition: None } => {
                pc = target;
            },
            Op::Move { dest, source: Operand::Immediate(value), set_flags: false } => {
                if found.write_count >= MAX_EXIT_WRITES {
                    return None;
                }
                let ghost before = found@;
                found.writes[found.write_count] = (dest, value);
                found.write_count = found.write_count + 1;
                assert(found@ =~= before.push((dest, value)));
                pc = pc.wrapping_add(len);
            },
            _ => return None,
        }
    }
}

/// A `CBZ`/`CBNZ` recognized as a secret-dependent early exit from a
/// concrete-bounded loop, along with everything needed to replay it.
#[derive(Clone, Copy, Debug)]
pub struct RecognizedSite {
    pub branch_pc: u32,
    pub register: u8,
    /// The recognized branch's own `nonzero` flag (`true` for `CBNZ`).
    pub nonzero: bool,
    /// `true` when the register being nonzero/zero (per `nonzero`) means
    /// "take the early exit"; `false` when it means "keep looping".
    pub exit_when_taken: bool,
    /// Where control always goes instead of exiting.
    pub continue_target: u32,
    /// What the exit path writes.
    pub exit: ExitLanding,
}

/// What a recognized site means, with its writes as a sequence.
pub struct Site {
    pub branch_pc: u32,
    pub register: u8,
    pub nonzero: bool,
    pub exit_when_taken: bool,
    pub continue_target: u32,
    pub writes: Seq<(u8, u32)>,
}

impl RecognizedSite {
    pub open spec fn view(&self) -> Site {
        Site {
            branch_pc: self.branch_pc,
            register: self.register,
            nonzero: self.nonzero,
            exit_when_taken: self.exit_when_taken,
            continue_target: self.continue_target,
            writes: self.exit@,
        }
    }

    /// The registers that a site names exist.
    pub open spec fn ok(&self) -> bool {
        self.register < 16 && self.exit.ok()
    }
}

/// The loop goes on at `on` and exits at `out`: both meet at the loop's
/// natural landing, and only constants are written on the way out.
pub open spec fn exit_site(
    mem: RawMemory<'_>,
    branch_pc: u32,
    on: u32,
    out: u32,
    budget: nat,
) -> Option<Seq<(u8, u32)>> {
    match natural_exit(mem, on, branch_pc, budget) {
        None => None,
        Some(natural) => match landing(mem, natural, budget) {
            None => None,
            Some(merge) => exit_writes(mem, out, merge, budget, seq![]),
        },
    }
}

/// What the recognizer finds at a `CBZ`/`CBNZ`: first the reading in which
/// the branch keeps looping, then the one in which it exits.
pub open spec fn recognized(
    mem: RawMemory<'_>,
    branch_pc: u32,
    register: u8,
    nonzero: bool,
    len: u32,
    taken: u32,
    budget: nat,
) -> Option<Site> {
    let fallthrough = branch_pc.wrapping_add(len);
    match exit_site(mem, branch_pc, taken, fallthrough, budget) {
        Some(writes) => Some(
            Site {
                branch_pc,
                register,
                nonzero,
                exit_when_taken: false,
                continue_target: taken,
                writes,
            },
        ),
        None => match exit_site(mem, branch_pc, fallthrough, taken, budget) {
            Some(writes) => Some(
                Site {
                    branch_pc,
                    register,
                    nonzero,
                    exit_when_taken: true,
                    continue_target: fallthrough,
                    writes,
                },
            ),
            None => None,
        },
    }
}

fn recognize_exit(mem: &RawMemory<'_>, branch_pc: u32, on: u32, out: u32, budget: u16) -> (r: Option<
    ExitLanding,
>)
    ensures
        r is Some == exit_site(*mem, branch_pc, on, out, budget as nat) is Some,
        r matches Some(l) ==> l.ok() && Some(l@) == exit_site(
            *mem,
            branch_pc,
            on,
            out,
            budget as nat,
        ),
{
    let natural: u32 = match resolve_continue(mem, on, branch_pc, budget) {
        Some(pc) => pc,
        None => return None,
    };
    let merge: u32 = match resolve_natural_landing(mem, natural, budget) {
        Some(pc) => pc,
        None => return None,
    };
    resolve_exit_landing(mem, out, merge, budget)
}

/// Attempt to recognize `branch_pc` (a `CBZ`/`CBNZ` that could not be
/// resolved concretely) as a secret-dependent early exit from a
/// concrete-bounded loop.
pub fn recognize(
    mem: &RawMemory<'_>,
    branch_pc: u32,
    register: u8,
    nonzero: bool,
    len: u32,
    taken_target: u32,
    max_lookahead: u16,
) -> (r: Option<RecognizedSite>)
    requires
        register < 16,
    ensures
        r is Some == recognized(
            *mem,
            branch_pc,
            register,
            nonzero,
            len,
            taken_target,
            max_lookahead as nat,
        ) is Some,
        r matches Some(site) ==> site.ok() && Some(site@) == recognized(
            *mem,
            branch_pc,
            register,
            nonzero,
            len,
            taken_target,
            max_lookahead as nat,
        ),
{
    let fallthrough: u32 = branch_pc.wrapping_add(len);
    if let Some(exit) = recognize_exit(mem, branch_pc, taken_target, fallthrough, max_lookahead) {
        return Some(
            RecognizedSite {
                branch_pc,
                register,
                nonzero,
                exit_when_taken: false,
                continue_target: taken_target,
                exit,
            },
        );
    }
    if let Some(exit) = recognize_exit(mem, branch_pc, fallthrough, taken_target, max_lookahead) {
        return Some(
            RecognizedSite {
                branch_pc,
                register,
                nonzero,
                exit_when_taken: true,
                continue_target: fallthrough,
                exit,
            },
        );
    }
    None
}

} // verus!
