//! Loop bodies: execution up to a branch that the host cannot decide.
use crate::compare::{nonzero_word, zero_word};
use crate::context::ContextWithValue;
use crate::thumb::control::Answers;
use crate::thumb::early_exit::FetchError;
use crate::thumb::exec::Frame;
use crate::thumb::handler::ArmHandler;
use crate::thumb::machine::{emitted, Cpu, ErtError, Flow, Machine, Step};
use crate::thumb::op::{DecodeError, Decoded, Op};
use vstd::prelude::*;

verus! {

/// The symbolic control-flow boundary reached by one Thumb body.
#[derive(Clone)]
pub enum ThumbBoundary<W> {
    /// A conditional branch whose condition is represented by `condition`.
    Branch {
        /// The branch condition, true for the taken target.
        condition: W,
        /// Normalized even taken target.
        taken: u32,
        /// Normalized even fall-through target.
        fallthrough: u32,
    },
    /// The guest exited through `SVC #0`.
    Exit,
}

impl<W> ThumbBoundary<W> {
    /// Return the concrete successor fetch addresses in architectural order.
    ///
    /// The condition wire is intentionally not inspected here; the caller
    /// feeds it into its state/virtual-IP mux while retaining this stable
    /// taken-then-fallthrough ordering.
    pub fn successors(&self) -> (r: Option<[u32; 2]>)
        ensures
            match *self {
                ThumbBoundary::Branch { condition: _, taken, fallthrough } => r matches Some(s)
                    && s@ == seq![taken, fallthrough],
                ThumbBoundary::Exit => r is None,
            },
    {
        match self {
            ThumbBoundary::Branch { taken, fallthrough, .. } => {
                let r: [u32; 2] = [*taken, *fallthrough];
                assert(r@ =~= seq![*taken, *fallthrough]);
                Some(r)
            },
            ThumbBoundary::Exit => None,
        }
    }
}

/// A branch that the host cannot decide: whether it is taken, and its two
/// targets.
pub struct Fork {
    pub taken: bool,
    pub target: u32,
    pub fallthrough: u32,
}

/// What closes a body at the instruction that comes next.
pub enum Closing {
    /// Nothing: it is executed.
    Open,
    /// A branch that the host cannot decide.
    Fork(Fork),
    /// A condition code that no condition has.
    Invalid,
}

impl Cpu {
    /// Whether the instruction at the program counter closes the body.
    pub open spec fn closing(self, frame: Frame<'_>) -> Closing {
        match crate::thumb::early_exit::instruction_at(frame.mem, self.pc) {
            Ok(d) => match d.operation {
                Op::Branch { target, condition: Some(code) } => match
                    crate::thumb::flags::condition_known(self, code) {
                    None => Closing::Invalid,
                    Some(Some(_)) => Closing::Open,
                    Some(None) => Closing::Fork(
                        Fork {
                            taken: crate::thumb::flags::condition_holds(self, code),
                            target,
                            fallthrough: self.pc.wrapping_add(d.len),
                        },
                    ),
                },
                Op::CompareBranch { register, nonzero, target } => if self.known[register as int] {
                    Closing::Open
                } else {
                    Closing::Fork(
                        Fork {
                            taken: (crate::bits::num(self.regs[register as int]) != 0) == nonzero,
                            target,
                            fallthrough: self.pc.wrapping_add(d.len),
                        },
                    )
                },
                _ => Closing::Open,
            },
            Err(_) => Closing::Open,
        }
    }
}

/// The steps of a body: one per answer, until one is the last or the next
/// instruction closes the body.
pub open spec fn body_runs(c: Cpu, cells: Seq<bool>, frame: Frame<'_>, answers: Seq<Answers>) -> Step
    decreases answers.len(),
{
    if answers.len() == 0 {
        Step::Next { cpu: c, cells, pc: c.pc }
    } else {
        match body_runs(c, cells, frame, answers.drop_last()) {
            Step::Next { cpu, cells, pc } => if cpu.closing(frame) is Open {
                cpu.step(cells, frame, answers.last())
            } else {
                Step::Next { cpu, cells, pc }
            },
            other => other,
        }
    }
}

/// Every answer of a body is one that the handler gave in the state of its
/// step.
pub open spec fn body_sincere<H: ArmHandler<bool> + ?Sized>(
    c: Cpu,
    cells: Seq<bool>,
    frame: Frame<'_>,
    answers: Seq<Answers>,
) -> bool
    decreases answers.len(),
{
    answers.len() == 0 || (body_sincere::<H>(c, cells, frame, answers.drop_last()) && match body_runs(
        c,
        cells,
        frame,
        answers.drop_last(),
    ) {
        Step::Next { cpu, cells: _, pc: _ } => cpu.closing(frame) is Open
            ==> crate::thumb::exec::honest::<H>(cpu, frame, answers.last()),
        _ => true,
    })
}

/// What a body ends in.
pub enum BodyEnd {
    /// A branch that the host cannot decide, in this state.
    Fork { cpu: Cpu, cells: Seq<bool>, fork: Fork },
    /// The exit, in this state.
    Exit { cpu: Cpu, cells: Seq<bool> },
    /// Something outside the supported subset.
    Unexpected,
    /// A malformed instruction.
    Decode(DecodeError),
    /// More instructions than a body may have.
    Endless,
    /// The steps given do not reach an end.
    Unfinished,
}

/// The end of a body that takes these steps.
pub open spec fn body_end(
    c: Cpu,
    cells: Seq<bool>,
    frame: Frame<'_>,
    answers: Seq<Answers>,
) -> BodyEnd {
    match body_runs(c, cells, frame, answers) {
        Step::Next { cpu, cells, pc: _ } => match cpu.closing(frame) {
            Closing::Fork(fork) => BodyEnd::Fork { cpu, cells, fork },
            Closing::Invalid => BodyEnd::Unexpected,
            Closing::Open => if answers.len() == u64::MAX {
                BodyEnd::Endless
            } else {
                BodyEnd::Unfinished
            },
        },
        Step::Exit { cpu, cells } => BodyEnd::Exit { cpu, cells },
        Step::Unexpected => BodyEnd::Unexpected,
        Step::Decode(e) => BodyEnd::Decode(e),
    }
}

/// What a body did is what its steps lead to.
pub open spec fn body_did<H: ArmHandler<bool> + ?Sized>(
    after: Machine<'_, <H as ContextWithValue<bool>>::Wrapped>,
    cells_after: Seq<bool>,
    r: Result<ThumbBoundary<<H as ContextWithValue<bool>>::Wrapped>, ErtError<H::Error>>,
    end: BodyEnd,
) -> bool where <H as ContextWithValue<bool>>::Wrapped: Clone {
    match r {
        Ok(ThumbBoundary::Branch { condition, taken, fallthrough }) => {
            &&& crate::thumb::machine::live::<H>(after)
            &&& end == (BodyEnd::Fork {
                cpu: crate::thumb::machine::cpu::<H>(after),
                cells: cells_after,
                fork: Fork {
                    taken: crate::context::bit::<H>(condition),
                    target: taken,
                    fallthrough,
                },
            })
        },
        Ok(ThumbBoundary::Exit) => {
            &&& crate::thumb::machine::live::<H>(after)
            &&& end == (BodyEnd::Exit {
                cpu: crate::thumb::machine::cpu::<H>(after),
                cells: cells_after,
            })
        },
        Err(ErtError::Unexpected) => end is Unexpected || end is Endless,
        Err(ErtError::Decode(e)) => end == BodyEnd::Decode(e),
        Err(ErtError::Emitted(_)) => true,
    }
}

/// Lower the condition of an instruction that closes a body. Anything else
/// gives nothing.
fn close<W, H>(machine: &mut Machine<'_, W>, h: &mut H) -> (r: Result<
    Option<ThumbBoundary<W>>,
    ErtError<H::Error>,
>) where W: Clone, H: ArmHandler<bool> + ContextWithValue<bool, Wrapped = W> + ?Sized
    requires
        crate::thumb::machine::bounded(*old(machine)),
    ensures
        crate::thumb::control::unfailing::<H>() ==> crate::thumb::flags::unemitted(r),
        r matches Err(ErtError::Emitted(error)) ==> crate::thumb::control::stems::<H>(error),
        crate::thumb::machine::framed(*old(machine), *final(machine)),
        crate::thumb::machine::live::<H>(*old(machine)) ==> match r {
            Ok(closed) => {
                &&& crate::thumb::machine::live::<H>(*final(machine))
                &&& crate::thumb::machine::cpu::<H>(*final(machine)) == crate::thumb::machine::cpu::<
                    H,
                >(*old(machine))
                &&& closed matches Some(boundary) ==> (boundary matches ThumbBoundary::Branch {
                    condition,
                    taken,
                    fallthrough,
                } && crate::thumb::machine::cpu::<H>(*old(machine)).closing(
                    crate::thumb::exec::frame(*old(machine)),
                ) == Closing::Fork(
                    Fork { taken: crate::context::bit::<H>(condition), target: taken, fallthrough },
                ))
                &&& closed is None ==> crate::thumb::machine::cpu::<H>(*old(machine)).closing(
                    crate::thumb::exec::frame(*old(machine)),
                ) is Open
            },
            Err(ErtError::Unexpected) => {
                let c = crate::thumb::machine::cpu::<H>(*old(machine));
                let f = crate::thumb::exec::frame(*old(machine));
                ||| c.closing(f) is Invalid
                ||| c.closing(f) is Open && crate::thumb::early_exit::instruction_at(f.mem, c.pc)
                    == Err::<Decoded, FetchError>(FetchError::Unmapped)
            },
            Err(ErtError::Decode(e)) => {
                let c = crate::thumb::machine::cpu::<H>(*old(machine));
                let f = crate::thumb::exec::frame(*old(machine));
                &&& c.closing(f) is Open
                &&& crate::thumb::early_exit::instruction_at(f.mem, c.pc) == Err::<Decoded, FetchError>(
                    FetchError::Decode(e),
                )
            },
            Err(ErtError::Emitted(_)) => true,
        },
{
    proof {
        if crate::thumb::machine::live::<H>(*machine) {
            machine.known_flags::<H>();
        }
    }
    let decoded = machine.decode()?;
    if let Some((target, Some(code))) = decoded.operation.branch_info() {
        if machine.condition_value(code)?.is_none() {
            let fallthrough: u32 = machine.pc.wrapping_add(decoded.len);
            let condition = machine.condition_wire(h, code)?;
            return Ok(Some(ThumbBoundary::Branch { condition, taken: target, fallthrough }));
        }
    }
    if let Some((register, nonzero, target)) = decoded.operation.compare_branch_info() {
        if machine.constants[register as usize].is_none() {
            let fallthrough: u32 = machine.pc.wrapping_add(decoded.len);
            let condition = if nonzero {
                emitted(nonzero_word(h, &machine.regs[register as usize]))?
            } else {
                emitted(zero_word(h, &machine.regs[register as usize], &machine.one))?
            };
            return Ok(Some(ThumbBoundary::Branch { condition, taken: target, fallthrough }));
        }
    }
    Ok(None)
}

/// Execute one body.
///
/// Concrete branches, calls, returns, and IT-predicated instructions continue
/// inline exactly through [`Machine::execute_decoded`]. A conditional `B` or
/// `CBZ`/`CBNZ` whose condition cannot be decided from the machine's concrete
/// metadata closes the body and returns a symbolic boundary. The machine's
/// `pc` remains at the boundary instruction; callers choose the next virtual
/// candidate and snapshot/fold policy.
#[verifier::rlimit(40)]
#[verifier::spinoff_prover]
pub fn execute_body<W, H>(machine: &mut Machine<'_, W>, h: &mut H, st: &mut H::Storage) -> (r: Result<
    ThumbBoundary<W>,
    ErtError<H::Error>,
>) where W: Clone, H: ArmHandler<bool> + ContextWithValue<bool, Wrapped = W> + ?Sized
    requires
        crate::thumb::control::handles::<H>(),
        crate::thumb::machine::bounded(*old(machine)),
        crate::thumb::machine::ready::<H>(*old(machine), old(st)),
    ensures
        crate::thumb::control::unfailing::<H>() ==> crate::thumb::flags::unemitted(r),
        r matches Err(ErtError::Emitted(error)) ==> crate::thumb::control::stems::<H>(error),
        crate::thumb::machine::framed(*old(machine), *final(machine)),
        crate::thumb::machine::ready::<H>(*final(machine), final(st)),
        H::tracks() && crate::thumb::machine::live::<H>(*old(machine)) ==> exists|
            answers: Seq<Answers>,
        |
            body_did::<H>(
                *final(machine),
                H::cells(final(st)),
                r,
                #[trigger] body_end(
                    crate::thumb::machine::cpu::<H>(*old(machine)),
                    H::cells(old(st)),
                    crate::thumb::exec::frame(*old(machine)),
                    answers,
                ),
            ) && (crate::thumb::flags::unemitted(r) ==> body_sincere::<H>(
                crate::thumb::machine::cpu::<H>(*old(machine)),
                H::cells(old(st)),
                crate::thumb::exec::frame(*old(machine)),
                answers,
            )),
{
    let ghost start = crate::thumb::machine::cpu::<H>(*machine);
    let ghost first = H::cells(st);
    let ghost frame = crate::thumb::exec::frame(*machine);
    let ghost mut past: Seq<Answers> = Seq::empty();
    let mut left: u64 = u64::MAX;
    loop
        invariant
            crate::thumb::control::handles::<H>(),
            past.len() + left == u64::MAX,
            start == crate::thumb::machine::cpu::<H>(*old(machine)),
            first == H::cells(old(st)),
            frame == crate::thumb::exec::frame(*old(machine)),
            crate::thumb::machine::framed(*old(machine), *machine),
            crate::thumb::machine::ready::<H>(*machine, st),
            H::tracks() && crate::thumb::machine::live::<H>(*old(machine)) ==> {
                &&& crate::thumb::machine::live::<H>(*machine)
                &&& body_sincere::<H>(start, first, frame, past)
                &&& body_runs(start, first, frame, past) == (Step::Next {
                    cpu: crate::thumb::machine::cpu::<H>(*machine),
                    cells: H::cells(st),
                    pc: machine.pc,
                })
            },
        decreases left,
    {
        let ghost here = *machine;
        let mut answers: Ghost<Answers> = Ghost(arbitrary());
        let ghost more = past.push(answers@);
        match close(machine, h) {
            Ok(Some(boundary)) => {
                proof {
                    if H::tracks() && crate::thumb::machine::live::<H>(*old(machine)) {
                        assert(body_did::<H>(
                            *machine,
                            H::cells(st),
                            Ok(boundary),
                            body_end(start, first, frame, past),
                        ));
                    }
                }
                return Ok(boundary);
            },
            Ok(None) => {},
            Err(error) => {
                proof {
                    if H::tracks() && crate::thumb::machine::live::<H>(*old(machine)) {
                        if crate::thumb::machine::cpu::<H>(here).closing(frame) is Invalid {
                            assert(body_did::<H>(
                                *machine,
                                H::cells(st),
                                Err(error),
                                body_end(start, first, frame, past),
                            ));
                        } else {
                            assert(more.drop_last() =~= past);
                            assert(body_did::<H>(
                                *machine,
                                H::cells(st),
                                Err(error),
                                body_end(start, first, frame, more),
                            ));
                        }
                    }
                }
                return Err(error);
            },
        }
        if left == 0 {
            proof {
                if H::tracks() && crate::thumb::machine::live::<H>(*old(machine)) {
                    assert(body_did::<H>(
                        *machine,
                        H::cells(st),
                        Err(ErtError::Unexpected),
                        body_end(start, first, frame, past),
                    ));
                }
            }
            return Err(ErtError::Unexpected);
        }
        let stepped = machine.step(h, st, &mut answers);
        proof {
            let taken = past.push(answers@);
            assert(taken.drop_last() =~= past);
            past = taken;
        }
        left = left - 1;
        match stepped {
            Ok(Flow::Next(_)) => {},
            Ok(Flow::Exit) => {
                proof {
                    if H::tracks() && crate::thumb::machine::live::<H>(*old(machine)) {
                        assert(body_did::<H>(
                            *machine,
                            H::cells(st),
                            Ok(ThumbBoundary::Exit),
                            body_end(start, first, frame, past),
                        ));
                    }
                }
                return Ok(ThumbBoundary::Exit);
            },
            Err(error) => {
                proof {
                    if H::tracks() && crate::thumb::machine::live::<H>(*old(machine)) {
                        assert(body_did::<H>(
                            *machine,
                            H::cells(st),
                            Err(error),
                            body_end(start, first, frame, past),
                        ));
                    }
                }
                return Err(error);
            },
        }
    }
}

} // verus!
