//! Generations: every live candidate's body, folded under its activity.
use crate::compare::{compare_word, ComparePredicate};
use crate::context::{keep, ContextWithValue, HasError};
use crate::memory::RawMemory;
use crate::storage;
use crate::table::{predicated_value, CandidateTable};
use crate::thumb::body::{execute_body, BodyEnd, Fork, ThumbBoundary};
use crate::thumb::control::Answers;
use crate::thumb::entry::{copy_stack, own_stack};
use crate::thumb::exec::Frame;
use crate::thumb::flags::lower_wire;
use crate::thumb::handler::{ArmHandler, SecurityState};
use crate::thumb::machine::{emitted, keep_wire, Cpu, ErtError, Flag, FlagWire, Machine};
use crate::thumb::op::DecodeError;
use crate::thumb::snapshot::{
    fold_flags, fold_registers, keep_file, merge_agreement, ThumbAgreement, ThumbSnapshot,
};
use crate::word::{fill, keep_word, known_word, select_word, ContextWithErtOps};
use vstd::prelude::*;

verus! {

/// Lower the flags of a machine.
fn lower_flags<W, H>(machine: &mut Machine<'_, W>, h: &mut H) -> (r: Result<
    (),
    ErtError<H::Error>,
>) where W: Clone, H: ContextWithErtOps<bool> + ContextWithValue<bool, Wrapped = W> + ?Sized
    requires
        crate::thumb::machine::bounded(*old(machine)),
    ensures
        crate::context::reliable::<H>() ==> r is Ok,
        r matches Err(ErtError::Emitted(error)) ==> crate::context::erred::<H>(error),
        crate::thumb::machine::framed(*old(machine), *final(machine)),
        crate::thumb::machine::live::<H>(*old(machine)) && r is Ok ==> {
            &&& crate::thumb::machine::live::<H>(*final(machine))
            &&& crate::thumb::machine::cpu::<H>(*final(machine)) == crate::thumb::machine::cpu::<H>(
                *old(machine),
            )
        },
        r is Ok ==> crate::thumb::snapshot::lowered(final(machine).flags@),
        r is Err ==> crate::thumb::flags::emits(r),
{
    machine.materialize_flag(h, 0)?;
    machine.materialize_flag(h, 1)?;
    machine.materialize_flag(h, 2)?;
    machine.materialize_flag(h, 3)?;
    machine.materialize_flag(h, 4)?;
    Ok(())
}

/// The state in which a snapshot's body starts, over a control stack.
pub open spec fn resumed(s: Cpu, rstack: Seq<u32>) -> Cpu {
    Cpu { rstack: s.rstack + rstack.skip(s.rsp), ..s }
}

/// What the execution of a snapshot gives.
pub open spec fn snapshot_did<H: ArmHandler<bool> + ?Sized, const FRAMES: usize>(
    r: Result<
        (
            ThumbBoundary<<H as ContextWithValue<bool>>::Wrapped>,
            ThumbSnapshot<<H as ContextWithValue<bool>>::Wrapped, FRAMES>,
        ),
        ErtError<H::Error>,
    >,
    stack_top: u32,
    rstack: Seq<u32>,
    cells: Seq<bool>,
    end: BodyEnd,
) -> bool where <H as ContextWithValue<bool>>::Wrapped: Clone {
    match r {
        Ok((boundary, updated)) => {
            &&& updated.stack_top == stack_top
            &&& match (boundary, end) {
                (
                    ThumbBoundary::Branch { condition, taken, fallthrough },
                    BodyEnd::Fork { cpu, cells: c, fork },
                ) => {
                    &&& captured::<H, FRAMES>(updated, cpu, rstack)
                    &&& c == cells
                    &&& fork == (Fork {
                        taken: crate::context::bit::<H>(condition),
                        target: taken,
                        fallthrough,
                    })
                },
                (ThumbBoundary::Exit, BodyEnd::Exit { cpu, cells: c }) => {
                    &&& captured::<H, FRAMES>(updated, cpu, rstack)
                    &&& c == cells
                },
                _ => false,
            }
        },
        Err(ErtError::Unexpected) => match end {
            BodyEnd::Unexpected => true,
            BodyEnd::Endless => true,
            BodyEnd::Fork { cpu, cells: _, fork: _ } => cpu.rsp > FRAMES,
            BodyEnd::Exit { cpu, cells: _ } => cpu.rsp > FRAMES,
            _ => false,
        },
        Err(ErtError::Decode(e)) => end == BodyEnd::Decode(e),
        Err(ErtError::Emitted(_)) => true,
    }
}

/// A snapshot of a state, with its flags lowered and the free part of its
/// return addresses clear.
pub open spec fn captured<H: ArmHandler<bool> + ?Sized, const FRAMES: usize>(
    s: ThumbSnapshot<<H as ContextWithValue<bool>>::Wrapped, FRAMES>,
    cpu: Cpu,
    rstack: Seq<u32>,
) -> bool where <H as ContextWithValue<bool>>::Wrapped: Clone {
    &&& s.wf()
    &&& crate::thumb::snapshot::snapshot_cpu::<H, FRAMES>(s) == crate::thumb::snapshot::reduced(cpu)
    &&& crate::thumb::snapshot::faithful::<H, FRAMES>(s)
    &&& crate::thumb::snapshot::lowered(s.flags@)
    &&& forall|i: int| s.rsp <= i < FRAMES ==> s.rstack@[i] == 0
    &&& rstack == cpu.rstack
}

/// A machine in the state of a snapshot.
fn resume<'m, H, W, const FRAMES: usize>(
    storage_bits: usize,
    mem: RawMemory<'m>,
    rstack: &[u32],
    snapshot: &ThumbSnapshot<W, FRAMES>,
    zero: W,
    one: W,
) -> (r: Machine<'m, W>) where
    H: ContextWithErtOps<bool> + ContextWithValue<bool, Wrapped = W> + ?Sized,
    W: Clone,

    requires
        snapshot.wf(),
        snapshot.rsp <= rstack@.len(),
    ensures
        crate::thumb::machine::bounded(r),
        crate::thumb::exec::frame(r) == (Frame {
            mem,
            storage_bits: storage_bits as int,
            stack_top: snapshot.stack_top,
        }),
        r.storage_bits == storage_bits,
        r.zero == zero,
        r.one == one,
        r.rstack@.len() == rstack@.len(),
        crate::word::constants::<H>(zero, one) && crate::thumb::snapshot::faithful::<H, FRAMES>(
            *snapshot,
        ) ==> {
            &&& crate::thumb::machine::live::<H>(r)
            &&& crate::thumb::machine::cpu::<H>(r) == resumed(
                crate::thumb::snapshot::snapshot_cpu::<H, FRAMES>(*snapshot),
                rstack@,
            )
        },
{
    let held = own_stack(rstack);
    let kept = keep_file::<H>(&snapshot.regs);
    let mut machine = Machine::new::<H>(
        mem,
        held,
        storage_bits,
        snapshot.pc,
        kept,
        snapshot.constants,
        zero,
        one,
        snapshot.sp,
    );
    let _ = snapshot.restore::<H>(&mut machine);
    proof {
        if crate::context::sound::<H>() {
            let c = crate::thumb::machine::cpu::<H>(machine);
            let s = crate::thumb::snapshot::snapshot_cpu::<H, FRAMES>(*snapshot);
            assert(crate::thumb::snapshot::reduced(c) == s);
            assert(c.sites =~= crate::thumb::snapshot::unrecognized());
            assert(c.rstack =~= resumed(s, rstack@).rstack);
        }
    }
    machine
}

/// Lower a machine's flags after a body and take its snapshot.
fn conclude<H, W, E, const FRAMES: usize>(
    handler: &mut H,
    machine: Machine<'_, W>,
    body: Result<ThumbBoundary<W>, ErtError<E>>,
    Ghost(cells): Ghost<Seq<bool>>,
    Ghost(end): Ghost<BodyEnd>,
) -> (r: Result<(ThumbBoundary<W>, ThumbSnapshot<W, FRAMES>), ErtError<E>>) where
    H: ArmHandler<bool> + ContextWithValue<bool, Wrapped = W> + HasError<Error = E> + ?Sized,
    W: Clone,

    requires
        crate::thumb::machine::bounded(machine),
    ensures
        crate::context::reliable::<H>() && crate::thumb::flags::unemitted(body)
            ==> crate::thumb::flags::unemitted(r),
        crate::thumb::flags::unemitted(r) ==> crate::thumb::flags::unemitted(body),
        r matches Err(ErtError::Emitted(error)) ==> crate::context::erred::<H>(error) || (
        body matches Err(ErtError::Emitted(e)) && e == error),
        crate::thumb::body::body_did::<H>(machine, cells, body, end)
            ==> snapshot_did::<H, FRAMES>(r, machine.stack_top, machine.rstack@, cells, end),
{
    let mut machine = machine;
    let boundary = match body {
        Ok(boundary) => boundary,
        Err(error) => return Err(error),
    };
    lower_flags(&mut machine, handler)?;
    match ThumbSnapshot::<W, FRAMES>::capture::<H>(&machine) {
        Ok(updated) => Ok((boundary, updated)),
        Err(_) => Err(ErtError::Unexpected),
    }
}

/// Execute one Thumb body from a caller-owned snapshot and return the updated
/// snapshot alongside its symbolic control-flow boundary.
///
/// Storage, the Boolean handler, return-stack backing, and all symbolic wires
/// stay caller owned. The flags of the updated snapshot are lowered.
#[verifier::rlimit(40)]
#[verifier::spinoff_prover]
pub fn execute_snapshot<H, W, E, const FRAMES: usize>(
    handler: &mut H,
    storage: &mut H::Storage,
    storage_bits: usize,
    mem: RawMemory<'_>,
    rstack: &mut [u32],
    snapshot: ThumbSnapshot<W, FRAMES>,
    zero: W,
    one: W,
) -> (r: Result<(ThumbBoundary<W>, ThumbSnapshot<W, FRAMES>), ErtError<E>>) where
    H: ArmHandler<bool> + ContextWithValue<bool, Wrapped = W> + HasError<Error = E> + ?Sized,
    W: Clone,

    requires
        crate::thumb::control::handles::<H>(),
        storage::reachable::<H>(old(storage), storage_bits as int, zero, one),
        snapshot.wf(),
    ensures
        crate::thumb::control::unfailing::<H>() ==> crate::thumb::flags::unemitted(r),
        r matches Err(ErtError::Emitted(error)) ==> crate::thumb::control::stems::<H>(error),
        storage::reachable::<H>(final(storage), storage_bits as int, zero, one),
        final(rstack)@.len() == old(rstack)@.len(),
        snapshot.rsp > old(rstack)@.len() ==> r == Err::<
            (ThumbBoundary<W>, ThumbSnapshot<W, FRAMES>),
            ErtError<E>,
        >(ErtError::Unexpected) && final(rstack)@ == old(rstack)@,
        H::tracks() && crate::thumb::snapshot::faithful::<H, FRAMES>(snapshot) && snapshot.rsp
            <= old(rstack)@.len() ==> exists|answers: Seq<Answers>|
            snapshot_did::<H, FRAMES>(
                r,
                snapshot.stack_top,
                final(rstack)@,
                H::cells(final(storage)),
                #[trigger] crate::thumb::body::body_end(
                    resumed(
                        crate::thumb::snapshot::snapshot_cpu::<H, FRAMES>(snapshot),
                        old(rstack)@,
                    ),
                    H::cells(old(storage)),
                    Frame { mem, storage_bits: storage_bits as int, stack_top: snapshot.stack_top },
                    answers,
                ),
            ) && (crate::thumb::flags::unemitted(r) ==> crate::thumb::body::body_sincere::<H>(
                    resumed(
                        crate::thumb::snapshot::snapshot_cpu::<H, FRAMES>(snapshot),
                        old(rstack)@,
                    ),
                    H::cells(old(storage)),
                    Frame { mem, storage_bits: storage_bits as int, stack_top: snapshot.stack_top },
                    answers,
                )),
{
    if snapshot.rsp > rstack.len() {
        return Err(ErtError::Unexpected);
    }
    let mut machine = resume::<H, W, FRAMES>(storage_bits, mem, rstack, &snapshot, zero, one);
    let ghost start = crate::thumb::machine::cpu::<H>(machine);
    let ghost frame = crate::thumb::exec::frame(machine);
    let ghost cells = H::cells(storage);
    let body = execute_body(&mut machine, handler, storage);
    copy_stack(&machine.rstack, rstack);
    let ghost answers = choose|answers: Seq<Answers>|
        crate::thumb::body::body_did::<H>(
            machine,
            H::cells(storage),
            body,
            #[trigger] crate::thumb::body::body_end(start, cells, frame, answers),
        ) && (crate::thumb::flags::unemitted(body) ==> crate::thumb::body::body_sincere::<H>(
            start,
            cells,
            frame,
            answers,
        ));
    conclude::<H, W, E, FRAMES>(
        handler,
        machine,
        body,
        Ghost(H::cells(storage)),
        Ghost(crate::thumb::body::body_end(start, cells, frame, answers)),
    )
}

/// What only the host knows of a state.
pub struct Agreed {
    pub sp: u32,
    pub rsp: int,
    pub rstack: Seq<u32>,
    pub itstate: u8,
    pub security: SecurityState,
}

/// What only the host knows of this state.
pub open spec fn agreed_of(c: Cpu) -> Agreed {
    Agreed {
        sp: c.sp,
        rsp: c.rsp,
        rstack: c.rstack.take(c.rsp),
        itstate: c.itstate,
        security: c.security,
    }
}

/// Where both are known and the same.
pub open spec fn both_known<T>(
    a_known: Seq<bool>,
    a: Seq<T>,
    b_known: Seq<bool>,
    b: Seq<T>,
) -> Seq<bool> {
    Seq::new(b.len(), |i: int| a_known[i] && b_known[i] && a[i] == b[i])
}

/// A body's state folded into an accumulator: the wires of the body where it
/// is active, and of what the host knows only what both say.
pub open spec fn folded(active: bool, body: Cpu, held: Cpu) -> Cpu {
    Cpu {
        regs: crate::thumb::snapshot::chosen(active, body.regs, held.regs),
        known: both_known(body.known, body.regs, held.known, held.regs),
        offsets: crate::thumb::snapshot::common(body.offsets, held.offsets),
        flags: crate::thumb::snapshot::chosen(active, body.flags, held.flags),
        flags_known: both_known(body.flags_known, body.flags, held.flags_known, held.flags),
        ..held
    }
}

/// A generation in progress.
pub struct Fold {
    /// The state accumulated so far.
    pub state: Cpu,
    /// What the bodies so far agreed on.
    pub agreed: Option<Agreed>,
    /// The next virtual instruction pointer.
    pub next_ip: Seq<bool>,
    /// Whether the active body exited.
    pub done: bool,
    /// Whether any body exited.
    pub exited: bool,
    /// The next candidates.
    pub successors: Seq<u32>,
    /// The storage cells.
    pub cells: Seq<bool>,
    /// The control stack.
    pub rstack: Seq<u32>,
}

/// What every body of a generation shares.
pub struct Common<'m> {
    /// The state in which each starts, but for its address.
    pub base: Cpu,
    /// The virtual instruction pointer.
    pub ip: Seq<bool>,
    pub frame: Frame<'m>,
    /// How many return addresses a snapshot holds.
    pub frames: int,
    /// How many candidates the next generation may have.
    pub room: int,
}

/// A generation, as far as it came.
pub enum Generation {
    Going(Fold),
    Unexpected,
    Decode(DecodeError),
    Unfinished,
}

impl Fold {
    /// The end of one candidate's body.
    pub open spec fn body(
        self,
        common: Common<'_>,
        candidate: u32,
        answers: Seq<Answers>,
    ) -> BodyEnd {
        crate::thumb::body::body_end(
            resumed(Cpu { pc: candidate, ..common.base }, self.rstack),
            self.cells,
            common.frame,
            answers,
        )
    }

    /// The answers of one candidate's body are those that the handler gave.
    pub open spec fn sincere<H: ArmHandler<bool> + ?Sized>(
        self,
        common: Common<'_>,
        candidate: u32,
        answers: Seq<Answers>,
    ) -> bool {
        common.base.rsp > self.rstack.len() || crate::thumb::body::body_sincere::<H>(
            resumed(Cpu { pc: candidate, ..common.base }, self.rstack),
            self.cells,
            common.frame,
            answers,
        )
    }

    /// The fold of a body that reached a fork, or else the exit.
    pub open spec fn fold(
        self,
        common: Common<'_>,
        candidate: u32,
        cpu: Cpu,
        cells: Seq<bool>,
        fork: Option<Fork>,
    ) -> Fold {
        let active = common.ip == crate::concrete::word(candidate);
        Fold {
            state: folded(active, crate::thumb::snapshot::reduced(cpu), self.state),
            agreed: Some(agreed_of(cpu)),
            next_ip: match fork {
                Some(f) if active => crate::concrete::word(
                    if f.taken {
                        f.target
                    } else {
                        f.fallthrough
                    },
                ),
                _ => self.next_ip,
            },
            done: if active {
                fork is None
            } else {
                self.done
            },
            exited: self.exited || fork is None,
            successors: match fork {
                Some(f) => crate::table::appended(
                    crate::table::appended(self.successors, f.target),
                    f.fallthrough,
                ),
                None => self.successors,
            },
            cells,
            rstack: cpu.rstack,
        }
    }

    /// The fold of a body, where it fits and agrees with those before it.
    pub open spec fn settle(
        self,
        common: Common<'_>,
        candidate: u32,
        cpu: Cpu,
        cells: Seq<bool>,
        fork: Option<Fork>,
    ) -> Generation {
        let next = self.fold(common, candidate, cpu, cells, fork);
        if cpu.rsp > common.frames || (self.agreed is Some && self.agreed != next.agreed)
            || next.successors.len() > common.room {
            Generation::Unexpected
        } else {
            Generation::Going(next)
        }
    }

    /// One candidate's body.
    pub open spec fn visit(
        self,
        common: Common<'_>,
        candidate: u32,
        answers: Seq<Answers>,
    ) -> Generation {
        if common.base.rsp > self.rstack.len() {
            Generation::Unexpected
        } else {
            match self.body(common, candidate, answers) {
                BodyEnd::Fork { cpu, cells, fork } => self.settle(
                    common,
                    candidate,
                    cpu,
                    cells,
                    Some(fork),
                ),
                BodyEnd::Exit { cpu, cells } => self.settle(common, candidate, cpu, cells, None),
                BodyEnd::Unexpected => Generation::Unexpected,
                BodyEnd::Endless => Generation::Unexpected,
                BodyEnd::Decode(e) => Generation::Decode(e),
                BodyEnd::Unfinished => Generation::Unfinished,
            }
        }
    }
}

/// The bodies of the first candidates, one per visit, in order.
pub open spec fn generation(
    start: Fold,
    common: Common<'_>,
    candidates: Seq<u32>,
    visits: Seq<Seq<Answers>>,
) -> Generation
    decreases visits.len(),
{
    if visits.len() == 0 {
        Generation::Going(start)
    } else {
        match generation(start, common, candidates, visits.drop_last()) {
            Generation::Going(fold) => fold.visit(
                common,
                candidates[visits.len() - 1],
                visits.last(),
            ),
            other => other,
        }
    }
}

/// Every answer of every visit is one that the handler gave in the state of
/// its step.
pub open spec fn generation_sincere<H: ArmHandler<bool> + ?Sized>(
    start: Fold,
    common: Common<'_>,
    candidates: Seq<u32>,
    visits: Seq<Seq<Answers>>,
) -> bool
    decreases visits.len(),
{
    visits.len() == 0 || (generation_sincere::<H>(start, common, candidates, visits.drop_last())
        && match generation(start, common, candidates, visits.drop_last()) {
        Generation::Going(fold) => fold.sincere::<H>(
            common,
            candidates[visits.len() - 1],
            visits.last(),
        ),
        _ => true,
    })
}

/// The accumulated state with what the bodies agreed on.
pub open spec fn settled(fold: Fold) -> Cpu {
    match fold.agreed {
        None => fold.state,
        Some(a) => Cpu {
            sp: a.sp,
            rsp: a.rsp,
            rstack: a.rstack,
            itstate: a.itstate,
            security: a.security,
            ..fold.state
        },
    }
}

/// Fixed-capacity Thumb candidate body driver.
///
/// It owns the current symbolic snapshot and folds each body's wire-backed
/// registers and flags, while concrete SP/rstack/ITSTATE/TrustZone state is
/// checked for agreement.
pub struct ThumbGenerationDriver<'a, W, const FRAMES: usize> {
    pub storage_bits: usize,
    pub mem: RawMemory<'a>,
    pub zero: W,
    pub one: W,
    pub base: ThumbSnapshot<W, FRAMES>,
    pub accumulator: ThumbSnapshot<W, FRAMES>,
    pub agreement: Option<ThumbAgreement<FRAMES>>,
    pub any_exit: bool,
    pub vip: [W; 32],
    pub next_vip: [W; 32],
    pub done: W,
}

/// What a driver has folded.
pub open spec fn driver_fold<H: ArmHandler<bool> + ?Sized, const FRAMES: usize>(
    d: ThumbGenerationDriver<'_, <H as ContextWithValue<bool>>::Wrapped, FRAMES>,
    successors: Seq<u32>,
    cells: Seq<bool>,
    rstack: Seq<u32>,
) -> Fold {
    Fold {
        state: crate::thumb::snapshot::snapshot_cpu::<H, FRAMES>(d.accumulator),
        agreed: match d.agreement {
            Some(a) => Some(
                Agreed {
                    sp: a.sp,
                    rsp: a.rstack_depth as int,
                    rstack: a.rstack@.take(a.rstack_depth as int),
                    itstate: a.itstate,
                    security: a.security_state,
                },
            ),
            None => None,
        },
        next_ip: crate::context::bits::<H>(d.next_vip@),
        done: crate::context::bit::<H>(d.done),
        exited: d.any_exit,
        successors,
        cells,
        rstack,
    }
}

/// What the bodies of a driver's generation share.
pub open spec fn driver_common<'a, H: ArmHandler<bool> + ?Sized, const FRAMES: usize>(
    d: ThumbGenerationDriver<'a, <H as ContextWithValue<bool>>::Wrapped, FRAMES>,
    room: int,
) -> Common<'a> {
    Common {
        base: crate::thumb::snapshot::snapshot_cpu::<H, FRAMES>(d.base),
        ip: crate::context::bits::<H>(d.vip@),
        frame: Frame {
            mem: d.mem,
            storage_bits: d.storage_bits as int,
            stack_top: d.base.stack_top,
        },
        frames: FRAMES as int,
        room,
    }
}

/// A driver's snapshots are sound, lowered and of one machine.
pub open spec fn driver_ok<H: ArmHandler<bool> + ?Sized, const FRAMES: usize>(
    d: ThumbGenerationDriver<'_, <H as ContextWithValue<bool>>::Wrapped, FRAMES>,
) -> bool {
    &&& crate::thumb::snapshot::faithful::<H, FRAMES>(d.base)
    &&& crate::thumb::snapshot::faithful::<H, FRAMES>(d.accumulator)
    &&& crate::thumb::snapshot::lowered(d.accumulator.flags@)
    &&& d.agreement matches Some(a) ==> clear_above(a)
}

/// The return addresses above the depth are clear.
pub open spec fn clear_above<const FRAMES: usize>(a: ThumbAgreement<FRAMES>) -> bool {
    &&& a.rstack_depth <= FRAMES
    &&& forall|i: int| a.rstack_depth <= i < FRAMES ==> a.rstack@[i] == 0
}

/// What the host still knows after a fold is what both know alike.
proof fn folded_knowledge<H: ArmHandler<bool> + ?Sized, const FRAMES: usize>(
    body: ThumbSnapshot<<H as ContextWithValue<bool>>::Wrapped, FRAMES>,
    held: ThumbSnapshot<<H as ContextWithValue<bool>>::Wrapped, FRAMES>,
)
    requires
        crate::thumb::snapshot::faithful::<H, FRAMES>(body),
        crate::thumb::snapshot::faithful::<H, FRAMES>(held),
    ensures
        crate::thumb::machine::present(
            crate::thumb::snapshot::common(body.constants@, held.constants@),
        ) == both_known(
            crate::thumb::machine::present(body.constants@),
            crate::thumb::machine::words::<H>(body.regs@),
            crate::thumb::machine::present(held.constants@),
            crate::thumb::machine::words::<H>(held.regs@),
        ),
{
    let a = crate::thumb::machine::present(
        crate::thumb::snapshot::common(body.constants@, held.constants@),
    );
    let b = both_known(
        crate::thumb::machine::present(body.constants@),
        crate::thumb::machine::words::<H>(body.regs@),
        crate::thumb::machine::present(held.constants@),
        crate::thumb::machine::words::<H>(held.regs@),
    );
    assert forall|i: int| 0 <= i < 16 implies a[i] == b[i] by {
        let x = body.constants@[i];
        let y = held.constants@[i];
        if x is Some && y is Some {
            if crate::concrete::word(x->0) == crate::concrete::word(y->0) {
                crate::concrete::word_injective(x->0, y->0);
            }
        }
    }
    assert(a =~= b);
}

/// Two states of the host are the same exactly if what they say is.
proof fn agreement_is_agreed<const FRAMES: usize>(
    a: ThumbAgreement<FRAMES>,
    b: ThumbAgreement<FRAMES>,
)
    requires
        clear_above(a),
        clear_above(b),
    ensures
        a.same(b) <==> a.sp == b.sp && a.rstack_depth == b.rstack_depth && a.rstack@.take(
            a.rstack_depth as int,
        ) == b.rstack@.take(b.rstack_depth as int) && a.itstate == b.itstate && a.security_state
            == b.security_state,
{
    if a.rstack_depth == b.rstack_depth && a.rstack@.take(a.rstack_depth as int) == b.rstack@.take(
        b.rstack_depth as int,
    ) {
        assert forall|i: int| 0 <= i < FRAMES implies a.rstack@[i] == b.rstack@[i] by {
            if i < a.rstack_depth {
                assert(a.rstack@.take(a.rstack_depth as int)[i] == a.rstack@[i]);
                assert(b.rstack@.take(b.rstack_depth as int)[i] == b.rstack@[i]);
            }
        }
        assert(a.rstack@ =~= b.rstack@);
    }
}

/// Lower the flags of a snapshot.
fn lower_snapshot<H, W, const FRAMES: usize>(
    h: &mut H,
    s: &mut ThumbSnapshot<W, FRAMES>,
    zero: &W,
    one: &W,
) -> (r: Result<(), H::Error>) where
    H: ContextWithErtOps<bool> + ContextWithValue<bool, Wrapped = W> + ?Sized,
    W: Clone,

    ensures
        crate::context::reliable::<H>() ==> r is Ok,
        r matches Err(error) ==> crate::context::erred::<H>(error),
        *final(s) == (ThumbSnapshot { flags: final(s).flags, ..*old(s) }),
        r is Ok ==> crate::thumb::snapshot::lowered(final(s).flags@),
        r is Ok && crate::word::constants::<H>(*zero, *one) ==> {
            &&& crate::thumb::snapshot::snapshot_cpu::<H, FRAMES>(*final(s))
                == crate::thumb::snapshot::snapshot_cpu::<H, FRAMES>(*old(s))
            &&& crate::thumb::snapshot::faithful::<H, FRAMES>(*old(s))
                ==> crate::thumb::snapshot::faithful::<H, FRAMES>(*final(s))
        },
{
    let mut index: usize = 0;
    while index < 5
        invariant
            index <= 5,
            *s == (ThumbSnapshot { flags: s.flags, ..*old(s) }),
            forall|i: int| 0 <= i < index ==> (#[trigger] s.flags@[i]).wire is Direct,
            forall|i: int| 0 <= i < 5 ==> (#[trigger] s.flags@[i]).value == old(s).flags@[i].value,
            crate::word::constants::<H>(*zero, *one) ==> forall|i: int|
                0 <= i < 5 ==> crate::thumb::machine::wire_bit::<H>((#[trigger] s.flags@[i]).wire)
                    == crate::thumb::machine::wire_bit::<H>(old(s).flags@[i].wire),
        decreases 5 - index,
    {
        let kept = keep_wire::<H>(&s.flags[index].wire);
        let wire = lower_wire(h, kept, zero, one)?;
        let value = s.flags[index].value;
        s.flags[index] = Flag { wire: FlagWire::Direct(wire), value };
        index = index + 1;
    }
    proof {
        if crate::word::constants::<H>(*zero, *one) {
            let a = crate::thumb::snapshot::snapshot_cpu::<H, FRAMES>(*s);
            let b = crate::thumb::snapshot::snapshot_cpu::<H, FRAMES>(*old(s));
            assert(a.flags =~= b.flags);
            assert(a.flags_known =~= b.flags_known);
        }
    }
    Ok(())
}

/// What one visit did.
pub open spec fn visited<H: ArmHandler<bool> + ?Sized, const FRAMES: usize>(
    after: ThumbGenerationDriver<'_, <H as ContextWithValue<bool>>::Wrapped, FRAMES>,
    r: Result<Option<[u32; 2]>, ErtError<H::Error>>,
    successors: Seq<u32>,
    cells: Seq<bool>,
    rstack: Seq<u32>,
    expected: Generation,
) -> bool {
    match r {
        Ok(found) => {
            &&& driver_ok::<H, FRAMES>(after)
            &&& expected == Generation::Going(
                driver_fold::<H, FRAMES>(after, joined(successors, found), cells, rstack),
            )
        },
        Err(ErtError::Unexpected) => expected is Unexpected,
        Err(ErtError::Decode(e)) => expected == Generation::Decode(e),
        Err(ErtError::Emitted(_)) => true,
    }
}

/// The next candidates with a fork's two targets.
pub open spec fn joined(successors: Seq<u32>, found: Option<[u32; 2]>) -> Seq<u32> {
    match found {
        Some(pair) => crate::table::appended(
            crate::table::appended(successors, pair@[0]),
            pair@[1],
        ),
        None => successors,
    }
}

impl<'a, W: Clone, const FRAMES: usize> ThumbGenerationDriver<'a, W, FRAMES> {
    /// Create a driver from the common state at the beginning of a generation.
    pub fn new<H>(
        storage_bits: usize,
        mem: RawMemory<'a>,
        base: ThumbSnapshot<W, FRAMES>,
        zero: W,
        one: W,
        vip: [W; 32],
    ) -> (r: Self) where
        H: ArmHandler<bool> + ContextWithValue<bool, Wrapped = W> + ?Sized,

        ensures
            r.storage_bits == storage_bits,
            r.mem == mem,
            r.base == base,
            r.zero == zero,
            r.one == one,
            r.vip == vip,
            r.accumulator.stack_top == base.stack_top,
            r.accumulator.rsp == base.rsp,
            r.agreement is None,
            !r.any_exit,
            crate::thumb::snapshot::lowered(base.flags@) ==> crate::thumb::snapshot::lowered(
                r.accumulator.flags@,
            ),
            crate::word::constants::<H>(zero, one) ==> {
                &&& crate::thumb::snapshot::snapshot_cpu::<H, FRAMES>(r.accumulator)
                    == crate::thumb::snapshot::snapshot_cpu::<H, FRAMES>(base)
                &&& crate::thumb::snapshot::faithful::<H, FRAMES>(base)
                    ==> crate::thumb::snapshot::faithful::<H, FRAMES>(r.accumulator)
                &&& crate::context::bits::<H>(r.next_vip@) == crate::context::bits::<H>(vip@)
                &&& !crate::context::bit::<H>(r.done)
            },
    {
        let accumulator = base.keep::<H>();
        let next_vip = keep_word::<H, 32>(&vip);
        let done = keep::<H>(&zero);
        ThumbGenerationDriver {
            storage_bits,
            mem,
            zero,
            one,
            base,
            accumulator,
            agreement: None,
            any_exit: false,
            vip,
            next_vip,
            done,
        }
    }

    /// What a visit leaves alone.
    pub open spec fn same_generation(self, before: Self) -> bool {
        &&& self.storage_bits == before.storage_bits
        &&& self.mem == before.mem
        &&& self.zero == before.zero
        &&& self.one == before.one
        &&& self.base == before.base
        &&& self.vip == before.vip
        &&& self.accumulator.stack_top == before.accumulator.stack_top
    }

    /// Fold an updated snapshot.
    fn absorb<H>(
        &mut self,
        handler: &mut H,
        candidate: u32,
        boundary: ThumbBoundary<W>,
        updated: ThumbSnapshot<W, FRAMES>,
        Ghost(cpu): Ghost<Cpu>,
        Ghost(fork): Ghost<Option<Fork>>,
        Ghost(successors): Ghost<Seq<u32>>,
        Ghost(cells): Ghost<Seq<bool>>,
        Ghost(rstack): Ghost<Seq<u32>>,
        Ghost(common): Ghost<Common<'_>>,
        Ghost(before): Ghost<Fold>,
    ) -> (r: Result<Option<[u32; 2]>, ErtError<H::Error>>) where
        H: ArmHandler<bool> + ContextWithValue<bool, Wrapped = W> + ?Sized,

        ensures
            crate::thumb::control::unfailing::<H>() ==> crate::thumb::flags::unemitted(r),
            r matches Err(ErtError::Emitted(error)) ==> crate::thumb::control::stems::<H>(error),
            final(self).same_generation(*old(self)),
            crate::word::constants::<H>(old(self).zero, old(self).one) && driver_ok::<H, FRAMES>(
                *old(self),
            ) && captured::<H, FRAMES>(updated, cpu, rstack) && forked::<H>(boundary, fork)
                && common == driver_common::<H, FRAMES>(*old(self), common.room) && before
                == driver_fold::<H, FRAMES>(*old(self), successors, before.cells, before.rstack)
                && common.room >= successors.len() + 2 ==> visited::<H, FRAMES>(
                *final(self),
                r,
                successors,
                cells,
                rstack,
                before.settle(common, candidate, cpu, cells, fork),
            ),
    {
        let ghost pre = *self;
        let ghost good = crate::word::constants::<H>(self.zero, self.one) && driver_ok::<H, FRAMES>(
            *self,
        ) && captured::<H, FRAMES>(updated, cpu, rstack) && forked::<H>(boundary, fork) && common
            == driver_common::<H, FRAMES>(*self, common.room) && before == driver_fold::<H, FRAMES>(
            *self,
            successors,
            before.cells,
            before.rstack,
        ) && common.room >= successors.len() + 2;
        let ghost active_bit = common.ip == crate::concrete::word(candidate);
        let candidate_word = known_word::<H, 32>(&self.zero, &self.one, candidate as u64);
        let active = emitted(
            compare_word(handler, &self.vip, &candidate_word, ComparePredicate::Eq, &self.one),
        )?;
        let agreement = updated.agreement();
        proof {
            if good {
                assert(crate::thumb::snapshot::snapshot_cpu::<H, FRAMES>(updated)
                    == crate::thumb::snapshot::reduced(cpu));
                assert(clear_above(agreement));
                if let Some(a) = self.agreement {
                    agreement_is_agreed(a, agreement);
                }
            }
        }
        if merge_agreement(&mut self.agreement, agreement).is_err() {
            return Err(ErtError::Unexpected);
        }
        emitted(
            fold_registers(handler, keep::<H>(&active), &updated, &mut self.accumulator),
        )?;
        let ghost half = self.accumulator;
        emitted(
            fold_flags(
                handler,
                keep::<H>(&active),
                &updated,
                &mut self.accumulator,
                &self.zero,
                &self.one,
            ),
        )?;
        proof {
            if good {
                folded_knowledge::<H, FRAMES>(updated, pre.accumulator);
                let now = crate::thumb::snapshot::snapshot_cpu::<H, FRAMES>(self.accumulator);
                let expected = folded(active_bit, crate::thumb::snapshot::reduced(cpu), before.state);
                let other = crate::thumb::snapshot::snapshot_cpu::<H, FRAMES>(updated);
                assert forall|i: int| 0 <= i < 5 implies {
                    &&& now.flags[i] == expected.flags[i]
                    &&& now.flags_known[i] == expected.flags_known[i]
                    &&& self.accumulator.flags@[i].value matches Some(v) ==> now.flags[i] == v
                } by {
                    assert(pre.accumulator.flags@[i].wire is Direct);
                    assert(updated.flags@[i].wire is Direct);
                    assert(half.flags@[i] == pre.accumulator.flags@[i]);
                    assert(self.accumulator.flags@[i].wire is Direct);
                    assert(other.flags[i] == crate::thumb::machine::wire_bit::<H>(
                        updated.flags@[i].wire,
                    ));
                    assert(before.state.flags[i] == crate::thumb::machine::wire_bit::<H>(
                        pre.accumulator.flags@[i].wire,
                    ));
                }
                assert(now.flags =~= expected.flags);
                assert(now.flags_known =~= expected.flags_known);
                assert(now.regs == expected.regs);
                assert(now.known == expected.known);
                assert(now.offsets == expected.offsets);
                assert(now == expected);
                assert forall|i: int| 0 <= i < 5 implies ((#[trigger] self.accumulator.flags@[i]).value
                    matches Some(v) ==> crate::thumb::machine::wire_bit::<H>(
                    self.accumulator.flags@[i].wire,
                ) == v) by {
                    assert(now.flags[i] == crate::thumb::machine::wire_bit::<H>(
                        self.accumulator.flags@[i].wire,
                    ));
                }
                assert(crate::thumb::snapshot::faithful::<H, FRAMES>(half));
                assert forall|i: int| 0 <= i < 16 implies ((#[trigger] self.accumulator.constants@[i])
                    matches Some(v) ==> crate::context::bits::<H>(self.accumulator.regs@[i]@)
                    == crate::concrete::word(v)) by {
                    assert(half.constants@[i] == self.accumulator.constants@[i]);
                }
            }
        }
        let (found, finished) = match boundary {
            ThumbBoundary::Branch { condition, taken, fallthrough } => {
                let taken_word = known_word::<H, 32>(&self.zero, &self.one, taken as u64);
                let fallthrough_word = known_word::<H, 32>(
                    &self.zero,
                    &self.one,
                    fallthrough as u64,
                );
                let target = emitted(
                    select_word(handler, condition, &taken_word, &fallthrough_word),
                )?;
                let next = emitted(
                    select_word(handler, keep::<H>(&active), &target, &self.next_vip),
                )?;
                self.next_vip = next;
                let pair: [u32; 2] = [taken, fallthrough];
                (Some(pair), keep::<H>(&self.zero))
            },
            ThumbBoundary::Exit => {
                self.any_exit = true;
                (None, keep::<H>(&self.one))
            },
        };
        let held = keep::<H>(&self.done);
        let done = emitted(predicated_value(handler, active, finished, held))?;
        self.done = done;
        Ok(found)
    }

    /// Execute the body at `candidate` and fold it. The result holds the two
    /// successors of a body that ended in a branch.
    pub fn execute<H>(
        &mut self,
        handler: &mut H,
        storage: &mut H::Storage,
        rstack: &mut [u32],
        candidate: u32,
        Ghost(successors): Ghost<Seq<u32>>,
    ) -> (r: Result<Option<[u32; 2]>, ErtError<H::Error>>) where
        H: ArmHandler<bool> + ContextWithValue<bool, Wrapped = W> + ?Sized,

        requires
            crate::thumb::control::handles::<H>(),
            storage::reachable::<H>(
                old(storage),
                old(self).storage_bits as int,
                old(self).zero,
                old(self).one,
            ),
            old(self).base.wf(),
        ensures
            crate::thumb::control::unfailing::<H>() ==> crate::thumb::flags::unemitted(r),
            r matches Err(ErtError::Emitted(error)) ==> crate::thumb::control::stems::<H>(error),
            final(self).same_generation(*old(self)),
            storage::reachable::<H>(
                final(storage),
                old(self).storage_bits as int,
                old(self).zero,
                old(self).one,
            ),
            final(rstack)@.len() == old(rstack)@.len(),
            H::tracks() && driver_ok::<H, FRAMES>(*old(self)) ==> exists|answers: Seq<Answers>|
                visited::<H, FRAMES>(
                    *final(self),
                    r,
                    successors,
                    H::cells(final(storage)),
                    final(rstack)@,
                    #[trigger] driver_fold::<H, FRAMES>(
                        *old(self),
                        successors,
                        H::cells(old(storage)),
                        old(rstack)@,
                    ).visit(
                        driver_common::<H, FRAMES>(*old(self), successors.len() as int + 2),
                        candidate,
                        answers,
                    ),
                ) && (crate::thumb::flags::unemitted(r) ==> driver_fold::<H, FRAMES>(
                        *old(self),
                        successors,
                        H::cells(old(storage)),
                        old(rstack)@,
                    ).sincere::<H>(
                        driver_common::<H, FRAMES>(*old(self), successors.len() as int + 2),
                        candidate,
                        answers,
                    )),
    {
        let ghost common = driver_common::<H, FRAMES>(*self, successors.len() as int + 2);
        let ghost before = driver_fold::<H, FRAMES>(
            *self,
            successors,
            H::cells(storage),
            rstack@,
        );
        let mut body = self.base.keep::<H>();
        let ghost kept = body;
        body.pc = candidate;
        let ghost start = crate::thumb::snapshot::snapshot_cpu::<H, FRAMES>(body);
        proof {
            if H::tracks() {
                assert(start == (Cpu { pc: candidate, ..common.base }));
            }
            if H::tracks() && driver_ok::<H, FRAMES>(*self) {
                assert(crate::thumb::snapshot::faithful::<H, FRAMES>(kept));
                assert(crate::thumb::snapshot::faithful::<H, FRAMES>(body));
            }
        }
        let zero = keep::<H>(&self.zero);
        let one = keep::<H>(&self.one);
        let ghost stack = rstack@;
        let done = execute_snapshot(
            handler,
            storage,
            self.storage_bits,
            self.mem,
            rstack,
            body,
            zero,
            one,
        );
        let ghost answers = choose|answers: Seq<Answers>|
            snapshot_did::<H, FRAMES>(
                done,
                body.stack_top,
                rstack@,
                H::cells(storage),
                #[trigger] crate::thumb::body::body_end(
                    resumed(start, stack),
                    before.cells,
                    common.frame,
                    answers,
                ),
            ) && (crate::thumb::flags::unemitted(done) ==> crate::thumb::body::body_sincere::<H>(
                    resumed(start, stack),
                    before.cells,
                    common.frame,
                    answers,
                ));
        let ghost end = before.body(common, candidate, answers);
        let ghost expected = before.visit(common, candidate, answers);
        let (boundary, updated) = match done {
            Ok(pair) => pair,
            Err(error) => {
                proof {
                    if H::tracks() && driver_ok::<H, FRAMES>(*self) {
                        assert(visited::<H, FRAMES>(
                            *self,
                            Err(error),
                            successors,
                            H::cells(storage),
                            rstack@,
                            expected,
                        ));
                    }
                }
                return Err(error);
            },
        };
        let ghost (cpu, fork) = match end {
            BodyEnd::Fork { cpu, cells: _, fork } => (cpu, Some(fork)),
            BodyEnd::Exit { cpu, cells: _ } => (cpu, None),
            _ => (arbitrary(), None),
        };
        let ghost cells = H::cells(storage);
        self.absorb(
            handler,
            candidate,
            boundary,
            updated,
            Ghost(cpu),
            Ghost(fork),
            Ghost(successors),
            Ghost(cells),
            Ghost(rstack@),
            Ghost(common),
            Ghost(before),
        )
    }
}

/// A boundary says what a fork does; the exit is none.
pub open spec fn forked<H: ArmHandler<bool> + ?Sized>(
    boundary: ThumbBoundary<<H as ContextWithValue<bool>>::Wrapped>,
    fork: Option<Fork>,
) -> bool {
    fork == match boundary {
        ThumbBoundary::Branch { condition, taken, fallthrough } => Some(
            Fork { taken: crate::context::bit::<H>(condition), target: taken, fallthrough },
        ),
        ThumbBoundary::Exit => None,
    }
}

/// How a generation ended.
pub open spec fn generated<H: ArmHandler<bool> + ?Sized, const FRAMES: usize>(
    after: ThumbGenerationDriver<'_, <H as ContextWithValue<bool>>::Wrapped, FRAMES>,
    r: Result<(), ErtError<H::Error>>,
    successors: Seq<u32>,
    cells: Seq<bool>,
    rstack: Seq<u32>,
    complete: bool,
    end: Generation,
) -> bool {
    match r {
        Ok(_) => {
            &&& driver_ok::<H, FRAMES>(after)
            &&& complete
            &&& end == Generation::Going(
                driver_fold::<H, FRAMES>(after, successors, cells, rstack),
            )
        },
        Err(ErtError::Unexpected) => end is Unexpected,
        Err(ErtError::Decode(e)) => end == Generation::Decode(e),
        Err(ErtError::Emitted(_)) => true,
    }
}

/// A visit with less room goes on where the successors still fit.
proof fn room_matters(
    fold: Fold,
    common: Common<'_>,
    room: int,
    candidate: u32,
    answers: Seq<Answers>,
)
    requires
        common.room >= fold.successors.len() + 2,
    ensures
        match fold.visit(common, candidate, answers) {
            Generation::Going(next) => fold.visit(
                (Common { room, ..common }),
                candidate,
                answers,
            ) == if next.successors.len() > room {
                Generation::Unexpected
            } else {
                Generation::Going(next)
            },
            other => fold.visit((Common { room, ..common }), candidate, answers) == other,
        },
{
    let tight = Common { room, ..common };
    assert(fold.body(common, candidate, answers) == fold.body(tight, candidate, answers));
    match fold.body(common, candidate, answers) {
        BodyEnd::Fork { cpu, cells, fork } => {
            assert(fold.fold(common, candidate, cpu, cells, Some(fork)) == fold.fold(
                tight,
                candidate,
                cpu,
                cells,
                Some(fork),
            ));
        },
        BodyEnd::Exit { cpu, cells } => {
            assert(fold.fold(common, candidate, cpu, cells, None) == fold.fold(
                tight,
                candidate,
                cpu,
                cells,
                None,
            ));
        },
        _ => {},
    }
}

/// Visit every candidate of a table, and make their successors its next
/// generation.
fn drive<'a, H, W, const FRAMES: usize>(
    table: &mut CandidateTable<'_, u32>,
    driver: &mut ThumbGenerationDriver<'a, W, FRAMES>,
    handler: &mut H,
    storage: &mut H::Storage,
    rstack: &mut [u32],
) -> (r: Result<(), ErtError<H::Error>>) where
    H: ArmHandler<bool> + ContextWithValue<bool, Wrapped = W> + ?Sized,
    W: Clone,

    requires
        crate::thumb::control::handles::<H>(),
        storage::reachable::<H>(
            old(storage),
            old(driver).storage_bits as int,
            old(driver).zero,
            old(driver).one,
        ),
        old(driver).base.wf(),
        old(table).wf(),
    ensures
        crate::thumb::control::unfailing::<H>() ==> crate::thumb::flags::unemitted(r),
        r matches Err(ErtError::Emitted(error)) ==> crate::thumb::control::stems::<H>(error),
        final(table).wf(),
        final(table).capacity() == old(table).capacity(),
        r is Err ==> final(table).candidates() == old(table).candidates(),
        final(driver).same_generation(*old(driver)),
        storage::reachable::<H>(
            final(storage),
            old(driver).storage_bits as int,
            old(driver).zero,
            old(driver).one,
        ),
        final(rstack)@.len() == old(rstack)@.len(),
        H::tracks() && driver_ok::<H, FRAMES>(*old(driver)) ==> exists|
            visits: Seq<Seq<Answers>>,
        |
            visits.len() <= old(table).candidates().len() && generated::<H, FRAMES>(
                *final(driver),
                r,
                final(table).candidates(),
                H::cells(final(storage)),
                final(rstack)@,
                visits.len() == old(table).candidates().len(),
                #[trigger] generation(
                    driver_fold::<H, FRAMES>(
                        *old(driver),
                        Seq::empty(),
                        H::cells(old(storage)),
                        old(rstack)@,
                    ),
                    driver_common::<H, FRAMES>(*old(driver), old(table).room()),
                    old(table).candidates(),
                    visits,
                ),
            ) && (crate::thumb::flags::unemitted(r) ==> generation_sincere::<H>(
                    driver_fold::<H, FRAMES>(
                        *old(driver),
                        Seq::empty(),
                        H::cells(old(storage)),
                        old(rstack)@,
                    ),
                    driver_common::<H, FRAMES>(*old(driver), old(table).room()),
                    old(table).candidates(),
                    visits,
                )),
{
    let ghost first = driver_fold::<H, FRAMES>(
        *driver,
        Seq::empty(),
        H::cells(storage),
        rstack@,
    );
    let ghost common = driver_common::<H, FRAMES>(*driver, table.room());
    let ghost candidates = table.candidates();
    let ghost good = H::tracks() && driver_ok::<H, FRAMES>(*driver);
    let ghost mut visits: Seq<Seq<Answers>> = Seq::empty();
    let count: usize = table.len();
    let mut next_len: usize = 0;
    let mut i: usize = 0;
    assert(table.upcoming(0) =~= Seq::empty());
    while i < count
        invariant
            crate::thumb::control::handles::<H>(),
            storage::reachable::<H>(
                storage,
                driver.storage_bits as int,
                driver.zero,
                driver.one,
            ),
            driver.base.wf(),
            driver.same_generation(*old(driver)),
            table.wf(),
            table.capacity() == old(table).capacity(),
            table.room() == old(table).room(),
            table.candidates() == candidates,
            candidates == old(table).candidates(),
            count == candidates.len(),
            i <= count,
            next_len <= table.room(),
            visits.len() == i,
            rstack@.len() == old(rstack)@.len(),
            good == (H::tracks() && driver_ok::<H, FRAMES>(*old(driver))),
            first == driver_fold::<H, FRAMES>(
                *old(driver),
                Seq::empty(),
                H::cells(old(storage)),
                old(rstack)@,
            ),
            common == driver_common::<H, FRAMES>(*old(driver), old(table).room()),
            good ==> {
                &&& driver_ok::<H, FRAMES>(*driver)
                &&& generation_sincere::<H>(first, common, candidates, visits)
                &&& generation(first, common, candidates, visits) == Generation::Going(
                    driver_fold::<H, FRAMES>(
                        *driver,
                        table.upcoming(next_len as int),
                        H::cells(storage),
                        rstack@,
                    ),
                )
            },
        decreases count - i,
    {
        let candidate: u32 = table.current()[i];
        let ghost so_far = table.upcoming(next_len as int);
        let ghost fold = driver_fold::<H, FRAMES>(*driver, so_far, H::cells(storage), rstack@);
        let ghost ample = driver_common::<H, FRAMES>(*driver, so_far.len() as int + 2);
        let ghost past = visits;
        let done = driver.execute(handler, storage, rstack, candidate, Ghost(so_far));
        let ghost answers = choose|answers: Seq<Answers>|
            visited::<H, FRAMES>(
                *driver,
                done,
                so_far,
                H::cells(storage),
                rstack@,
                #[trigger] fold.visit(ample, candidate, answers),
            ) && (crate::thumb::flags::unemitted(done) ==> fold.sincere::<H>(
                ample,
                candidate,
                answers,
            ));
        proof {
            visits = past.push(answers);
            assert(visits.drop_last() =~= past);
            if good {
                room_matters(fold, ample, common.room, candidate, answers);
                assert((Common { room: common.room, ..ample }) == common);
            }
        }
        let found = match done {
            Ok(found) => found,
            Err(error) => {
                proof {
                    if good {
                        assert(generated::<H, FRAMES>(
                            *driver,
                            Err(error),
                            table.candidates(),
                            H::cells(storage),
                            rstack@,
                            false,
                            generation(first, common, candidates, visits),
                        ));
                    }
                }
                return Err(error);
            },
        };
        if let Some(pair) = found {
            let appended = match table.append_next(next_len, pair[0]) {
                Ok(len) => table.append_next(len, pair[1]),
                Err(error) => Err(error),
            };
            match appended {
                Ok(len) => {
                    next_len = len;
                },
                Err(_) => {
                    proof {
                        if good {
                            assert(generated::<H, FRAMES>(
                                *driver,
                                Err(ErtError::Unexpected),
                                table.candidates(),
                                H::cells(storage),
                                rstack@,
                                false,
                                generation(first, common, candidates, visits),
                            ));
                        }
                    }
                    return Err(ErtError::Unexpected);
                },
            }
        }
        i = i + 1;
    }
    let ghost last = table.upcoming(next_len as int);
    let _ = table.finish_next(next_len);
    proof {
        if good {
            assert(generated::<H, FRAMES>(
                *driver,
                Ok(()),
                table.candidates(),
                H::cells(storage),
                rstack@,
                true,
                generation(first, common, candidates, visits),
            ));
        }
    }
    Ok(())
}

impl<'a, W: Clone, const FRAMES: usize> ThumbGenerationDriver<'a, W, FRAMES> {
    /// Finish the generation and return its folded snapshot: the accumulated
    /// wires, and the concrete state that every body agreed on.
    pub fn finish(self) -> (r: ThumbSnapshot<W, FRAMES>)
        ensures
            r == match self.agreement {
                Some(a) => ThumbSnapshot {
                    sp: a.sp,
                    rsp: a.rstack_depth,
                    rstack: a.rstack,
                    itstate: a.itstate,
                    security_state: a.security_state,
                    ..self.accumulator
                },
                None => self.accumulator,
            },
    {
        let mut r = self.accumulator;
        if let Some(agreement) = self.agreement {
            r.sp = agreement.sp;
            r.rsp = agreement.rstack_depth;
            r.rstack = agreement.rstack;
            r.itstate = agreement.itstate;
            r.security_state = agreement.security_state;
        }
        r
    }
}

/// A finished snapshot holds what its driver settled on.
proof fn finished<H: ArmHandler<bool> + ?Sized, const FRAMES: usize>(
    d: ThumbGenerationDriver<'_, <H as ContextWithValue<bool>>::Wrapped, FRAMES>,
    r: ThumbSnapshot<<H as ContextWithValue<bool>>::Wrapped, FRAMES>,
    fold: Fold,
)
    requires
        driver_ok::<H, FRAMES>(d),
        r == (match d.agreement {
            Some(a) => ThumbSnapshot {
                sp: a.sp,
                rsp: a.rstack_depth,
                rstack: a.rstack,
                itstate: a.itstate,
                security_state: a.security_state,
                ..d.accumulator
            },
            None => d.accumulator,
        }),
        fold == driver_fold::<H, FRAMES>(d, fold.successors, fold.cells, fold.rstack),
    ensures
        crate::thumb::snapshot::snapshot_cpu::<H, FRAMES>(r) == settled(fold),
        crate::thumb::snapshot::faithful::<H, FRAMES>(r),
{
    assert forall|i: int| 0 <= i < 16 implies ((#[trigger] r.constants@[i]) matches Some(v)
        ==> crate::context::bits::<H>(r.regs@[i]@) == crate::concrete::word(v)) by {
        assert(r.constants@[i] == d.accumulator.constants@[i]);
    }
    assert forall|i: int| 0 <= i < 5 implies ((#[trigger] r.flags@[i]).value matches Some(b)
        ==> crate::thumb::machine::wire_bit::<H>(r.flags@[i].wire) == b) by {
        assert(r.flags@[i] == d.accumulator.flags@[i]);
    }
}

/// The generation that a driver starts.
pub open spec fn started<H: ArmHandler<bool> + ?Sized, const FRAMES: usize>(
    d: ThumbGenerationDriver<'_, <H as ContextWithValue<bool>>::Wrapped, FRAMES>,
    cells: Seq<bool>,
    rstack: Seq<u32>,
    room: int,
    candidates: Seq<u32>,
    visits: Seq<Seq<Answers>>,
) -> Generation {
    generation(
        driver_fold::<H, FRAMES>(d, Seq::empty(), cells, rstack),
        driver_common::<H, FRAMES>(d, room),
        candidates,
        visits,
    )
}

/// The answers of the generation that a driver starts are the handler's own.
pub open spec fn started_sincere<H: ArmHandler<bool> + ?Sized, const FRAMES: usize>(
    d: ThumbGenerationDriver<'_, <H as ContextWithValue<bool>>::Wrapped, FRAMES>,
    cells: Seq<bool>,
    rstack: Seq<u32>,
    room: int,
    candidates: Seq<u32>,
    visits: Seq<Seq<Answers>>,
) -> bool {
    generation_sincere::<H>(
        driver_fold::<H, FRAMES>(d, Seq::empty(), cells, rstack),
        driver_common::<H, FRAMES>(d, room),
        candidates,
        visits,
    )
}

/// A driver that has not visited a candidate yet, over sound snapshots.
pub open spec fn fresh<H: ArmHandler<bool> + ?Sized, const FRAMES: usize>(
    d: ThumbGenerationDriver<'_, <H as ContextWithValue<bool>>::Wrapped, FRAMES>,
) -> bool {
    &&& crate::thumb::snapshot::faithful::<H, FRAMES>(d.base)
    &&& crate::thumb::snapshot::faithful::<H, FRAMES>(d.accumulator)
    &&& d.agreement is None
}

/// Lower the accumulator of a fresh driver, then visit every candidate.
fn lower_and_drive<'a, H, W, const FRAMES: usize>(
    table: &mut CandidateTable<'_, u32>,
    driver: &mut ThumbGenerationDriver<'a, W, FRAMES>,
    handler: &mut H,
    storage: &mut H::Storage,
    rstack: &mut [u32],
) -> (r: Result<(), ErtError<H::Error>>) where
    H: ArmHandler<bool> + ContextWithValue<bool, Wrapped = W> + ?Sized,
    W: Clone,

    requires
        crate::thumb::control::handles::<H>(),
        storage::reachable::<H>(
            old(storage),
            old(driver).storage_bits as int,
            old(driver).zero,
            old(driver).one,
        ),
        old(driver).base.wf(),
        old(table).wf(),
    ensures
        crate::thumb::control::unfailing::<H>() ==> crate::thumb::flags::unemitted(r),
        r matches Err(ErtError::Emitted(error)) ==> crate::thumb::control::stems::<H>(error),
        final(table).wf(),
        final(table).capacity() == old(table).capacity(),
        r is Err ==> final(table).candidates() == old(table).candidates(),
        final(driver).same_generation(*old(driver)),
        storage::reachable::<H>(
            final(storage),
            old(driver).storage_bits as int,
            old(driver).zero,
            old(driver).one,
        ),
        final(rstack)@.len() == old(rstack)@.len(),
        H::tracks() && fresh::<H, FRAMES>(*old(driver)) ==> exists|visits: Seq<Seq<Answers>>|
            visits.len() <= old(table).candidates().len() && generated::<H, FRAMES>(
                *final(driver),
                r,
                final(table).candidates(),
                H::cells(final(storage)),
                final(rstack)@,
                visits.len() == old(table).candidates().len(),
                #[trigger] started::<H, FRAMES>(
                    *old(driver),
                    H::cells(old(storage)),
                    old(rstack)@,
                    old(table).room(),
                    old(table).candidates(),
                    visits,
                ),
            ) && (crate::thumb::flags::unemitted(r) ==> started_sincere::<H, FRAMES>(
                    *old(driver),
                    H::cells(old(storage)),
                    old(rstack)@,
                    old(table).room(),
                    old(table).candidates(),
                    visits,
                )),
{
    let ghost good = H::tracks() && fresh::<H, FRAMES>(*driver);
    let ghost given = *driver;
    let ghost cells = H::cells(storage);
    let ghost stack = rstack@;
    let ghost candidates = table.candidates();
    let ghost room = table.room();
    let lowered = lower_snapshot::<H, W, FRAMES>(
        handler,
        &mut driver.accumulator,
        &driver.zero,
        &driver.one,
    );
    if let Err(error) = lowered {
        proof {
            let none: Seq<Seq<Answers>> = Seq::empty();
            let end = started::<H, FRAMES>(given, cells, stack, room, candidates, none);
            assert(generated::<H, FRAMES>(
                *driver,
                Err(ErtError::Emitted(error)),
                candidates,
                cells,
                stack,
                none.len() == candidates.len(),
                end,
            ));
        }
        return Err(ErtError::Emitted(error));
    }
    let ghost ready = *driver;
    let r = drive(table, driver, handler, storage, rstack);
    proof {
        if good {
            assert(driver_ok::<H, FRAMES>(ready));
            assert(driver_fold::<H, FRAMES>(ready, Seq::empty(), cells, stack) == driver_fold::<
                H,
                FRAMES,
            >(given, Seq::empty(), cells, stack));
            let visits = choose|visits: Seq<Seq<Answers>>|
                visits.len() <= candidates.len() && generated::<H, FRAMES>(
                    *driver,
                    r,
                    table.candidates(),
                    H::cells(storage),
                    rstack@,
                    visits.len() == candidates.len(),
                    #[trigger] generation(
                        driver_fold::<H, FRAMES>(ready, Seq::empty(), cells, stack),
                        driver_common::<H, FRAMES>(ready, room),
                        candidates,
                        visits,
                    ),
                ) && (crate::thumb::flags::unemitted(r) ==> generation_sincere::<H>(
                        driver_fold::<H, FRAMES>(ready, Seq::empty(), cells, stack),
                        driver_common::<H, FRAMES>(ready, room),
                        candidates,
                        visits,
                    ));
            let end = started::<H, FRAMES>(given, cells, stack, room, candidates, visits);
            assert(generated::<H, FRAMES>(
                *driver,
                r,
                table.candidates(),
                H::cells(storage),
                rstack@,
                visits.len() == candidates.len(),
                end,
            ));
        }
    }
    r
}

/// What a generation gave back.
pub open spec fn stepped<H: ArmHandler<bool> + ?Sized, const FRAMES: usize>(
    r: Result<
        ThumbStep<<H as ContextWithValue<bool>>::Wrapped, FRAMES>,
        ErtError<H::Error>,
    >,
    stack_top: u32,
    successors: Seq<u32>,
    cells: Seq<bool>,
    rstack: Seq<u32>,
    complete: bool,
    end: Generation,
) -> bool {
    match r {
        Ok(step) => match end {
            Generation::Going(fold) => {
                &&& complete
                &&& crate::thumb::snapshot::snapshot_cpu::<H, FRAMES>(step.snapshot) == settled(
                    fold,
                )
                &&& crate::thumb::snapshot::faithful::<H, FRAMES>(step.snapshot)
                &&& step.snapshot.stack_top == stack_top
                &&& crate::context::bits::<H>(step.virtual_ip@) == fold.next_ip
                &&& crate::context::bit::<H>(step.done) == fold.done
                &&& step.exited == fold.exited
                &&& successors == fold.successors
                &&& cells == fold.cells
                &&& rstack == fold.rstack
            },
            _ => false,
        },
        Err(ErtError::Unexpected) => end is Unexpected,
        Err(ErtError::Decode(e)) => end == Generation::Decode(e),
        Err(ErtError::Emitted(_)) => true,
    }
}

/// What one generation hands to the next.
pub struct ThumbStep<W, const FRAMES: usize> {
    /// The folded state.
    pub snapshot: ThumbSnapshot<W, FRAMES>,
    /// The virtual instruction pointer of the next generation.
    pub virtual_ip: [W; 32],
    /// Whether the program has exited.
    pub done: W,
    /// Whether any body of the generation exited.
    pub exited: bool,
}

/// Execute one candidate generation with the Thumb adapter, and hand back
/// everything that the next one needs.
///
/// Candidate iteration, successor deduplication, and fixed-capacity overflow
/// handling are the table's. Storage is shared by the bodies: each sees and
/// leaves the cells of the one before it.
fn run_driver<'a, H, W, E, const FRAMES: usize>(
    table: &mut CandidateTable<'_, u32>,
    driver: ThumbGenerationDriver<'a, W, FRAMES>,
    handler: &mut H,
    storage: &mut H::Storage,
    rstack: &mut [u32],
) -> (r: Result<ThumbStep<W, FRAMES>, ErtError<E>>) where
    H: ArmHandler<bool> + ContextWithValue<bool, Wrapped = W> + HasError<Error = E> + ?Sized,
    W: Clone,

    requires
        crate::thumb::control::handles::<H>(),
        storage::reachable::<H>(
            old(storage),
            driver.storage_bits as int,
            driver.zero,
            driver.one,
        ),
        driver.base.wf(),
        old(table).wf(),
    ensures
        crate::thumb::control::unfailing::<H>() ==> crate::thumb::flags::unemitted(r),
        r matches Err(ErtError::Emitted(error)) ==> crate::thumb::control::stems::<H>(error),
        final(table).wf(),
        final(table).capacity() == old(table).capacity(),
        r is Err ==> final(table).candidates() == old(table).candidates(),
        storage::reachable::<H>(
            final(storage),
            driver.storage_bits as int,
            driver.zero,
            driver.one,
        ),
        final(rstack)@.len() == old(rstack)@.len(),
        H::tracks() && fresh::<H, FRAMES>(driver) ==> exists|visits: Seq<Seq<Answers>>|
            visits.len() <= old(table).candidates().len() && stepped::<H, FRAMES>(
                r,
                driver.accumulator.stack_top,
                final(table).candidates(),
                H::cells(final(storage)),
                final(rstack)@,
                visits.len() == old(table).candidates().len(),
                #[trigger] started::<H, FRAMES>(
                    driver,
                    H::cells(old(storage)),
                    old(rstack)@,
                    old(table).room(),
                    old(table).candidates(),
                    visits,
                ),
            ) && (crate::thumb::flags::unemitted(r) ==> started_sincere::<H, FRAMES>(
                    driver,
                    H::cells(old(storage)),
                    old(rstack)@,
                    old(table).room(),
                    old(table).candidates(),
                    visits,
                )),
{
    let ghost good = H::tracks() && fresh::<H, FRAMES>(driver);
    let ghost given = driver;
    let ghost cells = H::cells(storage);
    let ghost stack = rstack@;
    let ghost candidates = table.candidates();
    let ghost room = table.room();
    let mut driver = driver;
    let r = lower_and_drive(table, &mut driver, handler, storage, rstack);
    let ghost visits = choose|visits: Seq<Seq<Answers>>|
        visits.len() <= candidates.len() && generated::<H, FRAMES>(
            driver,
            r,
            table.candidates(),
            H::cells(storage),
            rstack@,
            visits.len() == candidates.len(),
            #[trigger] started::<H, FRAMES>(given, cells, stack, room, candidates, visits),
        ) && (crate::thumb::flags::unemitted(r) ==> started_sincere::<H, FRAMES>(
            given,
            cells,
            stack,
            room,
            candidates,
            visits,
        ));
    let ghost end = started::<H, FRAMES>(given, cells, stack, room, candidates, visits);
    if let Err(error) = r {
        proof {
            if good {
                assert(stepped::<H, FRAMES>(
                    Err(error),
                    given.accumulator.stack_top,
                    table.candidates(),
                    H::cells(storage),
                    rstack@,
                    visits.len() == candidates.len(),
                    end,
                ));
            }
        }
        return Err(error);
    }
    let ghost last = driver;
    let virtual_ip = keep_word::<H, 32>(&driver.next_vip);
    let done = keep::<H>(&driver.done);
    let exited = driver.any_exit;
    let snapshot = driver.finish();
    let step = ThumbStep { snapshot, virtual_ip, done, exited };
    proof {
        if good {
            let fold = driver_fold::<H, FRAMES>(
                last,
                table.candidates(),
                H::cells(storage),
                rstack@,
            );
            finished::<H, FRAMES>(last, snapshot, fold);
            assert(stepped::<H, FRAMES>(
                Ok(step),
                given.accumulator.stack_top,
                table.candidates(),
                H::cells(storage),
                rstack@,
                visits.len() == candidates.len(),
                end,
            ));
        }
    }
    Ok(step)
}

/// Execute one shared candidate generation with the Thumb adapter.
///
/// Candidate iteration, successor deduplication, and fixed-capacity overflow
/// handling are the table's; the returned snapshot is the adapter's folded
/// state after every body has completed.
pub fn run_generation<'a, H, W, E, const FRAMES: usize>(
    table: &mut CandidateTable<'_, u32>,
    driver: ThumbGenerationDriver<'a, W, FRAMES>,
    handler: &mut H,
    storage: &mut H::Storage,
    rstack: &mut [u32],
) -> (r: Result<ThumbSnapshot<W, FRAMES>, ErtError<E>>) where
    H: ArmHandler<bool> + ContextWithValue<bool, Wrapped = W> + HasError<Error = E> + ?Sized,
    W: Clone,

    requires
        crate::thumb::control::handles::<H>(),
        storage::reachable::<H>(
            old(storage),
            driver.storage_bits as int,
            driver.zero,
            driver.one,
        ),
        driver.base.wf(),
        old(table).wf(),
    ensures
        crate::thumb::control::unfailing::<H>() ==> crate::thumb::flags::unemitted(r),
        r matches Err(ErtError::Emitted(error)) ==> crate::thumb::control::stems::<H>(error),
        final(table).wf(),
        final(table).capacity() == old(table).capacity(),
        r is Err ==> final(table).candidates() == old(table).candidates(),
        storage::reachable::<H>(
            final(storage),
            driver.storage_bits as int,
            driver.zero,
            driver.one,
        ),
        final(rstack)@.len() == old(rstack)@.len(),
        H::tracks() && fresh::<H, FRAMES>(driver) ==> exists|
            visits: Seq<Seq<Answers>>,
            virtual_ip: [W; 32],
            done: W,
            exited: bool,
        |
            visits.len() <= old(table).candidates().len() && stepped::<H, FRAMES>(
                #[trigger] with_snapshot(r, virtual_ip, done, exited),
                driver.accumulator.stack_top,
                final(table).candidates(),
                H::cells(final(storage)),
                final(rstack)@,
                visits.len() == old(table).candidates().len(),
                #[trigger] started::<H, FRAMES>(
                    driver,
                    H::cells(old(storage)),
                    old(rstack)@,
                    old(table).room(),
                    old(table).candidates(),
                    visits,
                ),
            ) && (crate::thumb::flags::unemitted(r) ==> started_sincere::<H, FRAMES>(
                    driver,
                    H::cells(old(storage)),
                    old(rstack)@,
                    old(table).room(),
                    old(table).candidates(),
                    visits,
                )),
{
    let ghost cells = H::cells(storage);
    let ghost stack = rstack@;
    let ghost candidates = table.candidates();
    let ghost room = table.room();
    let ran = run_driver(table, driver, handler, storage, rstack);
    let ghost visits = choose|visits: Seq<Seq<Answers>>|
        visits.len() <= candidates.len() && stepped::<H, FRAMES>(
            ran,
            driver.accumulator.stack_top,
            table.candidates(),
            H::cells(storage),
            rstack@,
            visits.len() == candidates.len(),
            #[trigger] started::<H, FRAMES>(driver, cells, stack, room, candidates, visits),
        ) && (crate::thumb::flags::unemitted(ran) ==> started_sincere::<H, FRAMES>(
            driver,
            cells,
            stack,
            room,
            candidates,
            visits,
        ));
    let ghost whole = ran;
    let r = match ran {
        Ok(step) => Ok(step.snapshot),
        Err(error) => Err(error),
    };
    proof {
        if H::tracks() && fresh::<H, FRAMES>(driver) {
            let (virtual_ip, done, exited) = match whole {
                Ok(step) => (step.virtual_ip, step.done, step.exited),
                Err(_) => (driver.vip, driver.done, false),
            };
            assert(with_snapshot(r, virtual_ip, done, exited) == whole);
            assert(stepped::<H, FRAMES>(
                with_snapshot(r, virtual_ip, done, exited),
                driver.accumulator.stack_top,
                table.candidates(),
                H::cells(storage),
                rstack@,
                visits.len() == candidates.len(),
                started::<H, FRAMES>(driver, cells, stack, room, candidates, visits),
            ));
        }
    }
    r
}

/// A snapshot and the rest of a step.
pub open spec fn with_snapshot<W, E, const FRAMES: usize>(
    r: Result<ThumbSnapshot<W, FRAMES>, E>,
    virtual_ip: [W; 32],
    done: W,
    exited: bool,
) -> Result<ThumbStep<W, FRAMES>, E> {
    match r {
        Ok(snapshot) => Ok(ThumbStep { snapshot, virtual_ip, done, exited }),
        Err(error) => Err(error),
    }
}

/// Where a generation starts.
pub open spec fn opening(
    base: Cpu,
    ip: Seq<bool>,
    done: bool,
    cells: Seq<bool>,
    rstack: Seq<u32>,
) -> Fold {
    Fold {
        state: base,
        agreed: None,
        next_ip: ip,
        done,
        exited: false,
        successors: Seq::empty(),
        cells,
        rstack,
    }
}

/// Execute one generation: every live candidate's body from the state of
/// `snapshot`, folded under the candidate that `virtual_ip` names. `done`
/// carries over wherever no body of this generation is active.
pub fn step<H, W, E, const FRAMES: usize>(
    handler: &mut H,
    storage: &mut H::Storage,
    storage_bits: usize,
    mem: RawMemory<'_>,
    rstack: &mut [u32],
    candidates: &mut CandidateTable<'_, u32>,
    snapshot: ThumbSnapshot<W, FRAMES>,
    virtual_ip: [W; 32],
    done: W,
    zero: W,
    one: W,
) -> (r: Result<ThumbStep<W, FRAMES>, ErtError<E>>) where
    H: ArmHandler<bool> + ContextWithValue<bool, Wrapped = W> + HasError<Error = E> + ?Sized,
    W: Clone,

    requires
        crate::thumb::control::handles::<H>(),
        storage::reachable::<H>(old(storage), storage_bits as int, zero, one),
        snapshot.wf(),
        old(candidates).wf(),
    ensures
        crate::thumb::control::unfailing::<H>() ==> crate::thumb::flags::unemitted(r),
        r matches Err(ErtError::Emitted(error)) ==> crate::thumb::control::stems::<H>(error),
        final(candidates).wf(),
        final(candidates).capacity() == old(candidates).capacity(),
        r is Err ==> final(candidates).candidates() == old(candidates).candidates(),
        storage::reachable::<H>(final(storage), storage_bits as int, zero, one),
        final(rstack)@.len() == old(rstack)@.len(),
        H::tracks() && crate::thumb::snapshot::faithful::<H, FRAMES>(snapshot) ==> exists|
            visits: Seq<Seq<Answers>>,
        |
            visits.len() <= old(candidates).candidates().len() && stepped::<H, FRAMES>(
                r,
                snapshot.stack_top,
                final(candidates).candidates(),
                H::cells(final(storage)),
                final(rstack)@,
                visits.len() == old(candidates).candidates().len(),
                #[trigger] generation(
                    opening(
                        crate::thumb::snapshot::snapshot_cpu::<H, FRAMES>(snapshot),
                        crate::context::bits::<H>(virtual_ip@),
                        crate::context::bit::<H>(done),
                        H::cells(old(storage)),
                        old(rstack)@,
                    ),
                    Common {
                        base: crate::thumb::snapshot::snapshot_cpu::<H, FRAMES>(snapshot),
                        ip: crate::context::bits::<H>(virtual_ip@),
                        frame: Frame {
                            mem,
                            storage_bits: storage_bits as int,
                            stack_top: snapshot.stack_top,
                        },
                        frames: FRAMES as int,
                        room: old(candidates).room(),
                    },
                    old(candidates).candidates(),
                    visits,
                ),
            ) && (crate::thumb::flags::unemitted(r) ==> generation_sincere::<H>(
                    opening(
                        crate::thumb::snapshot::snapshot_cpu::<H, FRAMES>(snapshot),
                        crate::context::bits::<H>(virtual_ip@),
                        crate::context::bit::<H>(done),
                        H::cells(old(storage)),
                        old(rstack)@,
                    ),
                    Common {
                        base: crate::thumb::snapshot::snapshot_cpu::<H, FRAMES>(snapshot),
                        ip: crate::context::bits::<H>(virtual_ip@),
                        frame: Frame {
                            mem,
                            storage_bits: storage_bits as int,
                            stack_top: snapshot.stack_top,
                        },
                        frames: FRAMES as int,
                        room: old(candidates).room(),
                    },
                    old(candidates).candidates(),
                    visits,
                )),
{
    let mut driver = ThumbGenerationDriver::new::<H>(
        storage_bits,
        mem,
        snapshot,
        zero,
        one,
        virtual_ip,
    );
    driver.done = done;
    let ghost given = driver;
    let ghost cells = H::cells(storage);
    let ghost stack = rstack@;
    let ghost live = candidates.candidates();
    let ghost room = candidates.room();
    let r = run_driver(candidates, driver, handler, storage, rstack);
    proof {
        if H::tracks() && crate::thumb::snapshot::faithful::<H, FRAMES>(snapshot) {
            let visits = choose|visits: Seq<Seq<Answers>>|
                visits.len() <= live.len() && stepped::<H, FRAMES>(
                    r,
                    given.accumulator.stack_top,
                    candidates.candidates(),
                    H::cells(storage),
                    rstack@,
                    visits.len() == live.len(),
                    #[trigger] started::<H, FRAMES>(given, cells, stack, room, live, visits),
                ) && (crate::thumb::flags::unemitted(r) ==> started_sincere::<H, FRAMES>(
                    given,
                    cells,
                    stack,
                    room,
                    live,
                    visits,
                ));
            let base = crate::thumb::snapshot::snapshot_cpu::<H, FRAMES>(snapshot);
            let first = opening(
                base,
                crate::context::bits::<H>(virtual_ip@),
                crate::context::bit::<H>(done),
                cells,
                stack,
            );
            assert(driver_fold::<H, FRAMES>(given, Seq::empty(), cells, stack) == first);
            let common = Common {
                base,
                ip: crate::context::bits::<H>(virtual_ip@),
                frame: Frame {
                    mem,
                    storage_bits: storage_bits as int,
                    stack_top: snapshot.stack_top,
                },
                frames: FRAMES as int,
                room,
            };
            assert(driver_common::<H, FRAMES>(given, room) == common);
            assert(started::<H, FRAMES>(given, cells, stack, room, live, visits) == generation(
                first,
                common,
                live,
                visits,
            ));
        }
    }
    r
}

/// The state in which a looped program starts: clear registers of which the
/// host knows nothing, an empty return stack and the stack pointer at the top
/// of the virtual stack. The caller then sets what it wants to hand over.
pub fn initial_snapshot<H, W, E, const FRAMES: usize>(
    handler: &mut H,
    storage: &mut H::Storage,
    storage_bits: usize,
    mem: RawMemory<'_>,
    rstack: &mut [u32],
    pc: u32,
    zero: W,
    one: W,
) -> (r: Result<ThumbSnapshot<W, FRAMES>, ErtError<E>>) where
    H: ArmHandler<bool> + ContextWithValue<bool, Wrapped = W> + HasError<Error = E> + ?Sized,
    W: Clone,

    ensures
        crate::thumb::control::unfailing::<H>() ==> crate::thumb::flags::unemitted(r),
        r matches Err(ErtError::Emitted(error)) ==> crate::thumb::control::stems::<H>(error),
        crate::word::untouched::<H>(old(handler), final(handler)),
        H::cells(final(storage)) == H::cells(old(storage)),
        final(rstack)@ == old(rstack)@,
        match r {
            Ok(s) => {
                &&& crate::thumb::entry::top_of_stack(storage_bits as int) == Some(s.stack_top)
                &&& pc % 2 == 1
                &&& s.wf()
                &&& crate::word::constants::<H>(zero, one) ==> {
                    &&& crate::thumb::snapshot::faithful::<H, FRAMES>(s)
                    &&& crate::thumb::snapshot::snapshot_cpu::<H, FRAMES>(s)
                        == crate::thumb::entry::initial(
                        Seq::new(16, |i: int| crate::concrete::word(0)),
                        Seq::new(16, |i: int| false),
                        Seq::empty(),
                        (pc - 1) as u32,
                        s.stack_top,
                    )
                }
            },
            Err(e) => {
                &&& crate::thumb::entry::top_of_stack(storage_bits as int) is None || pc % 2 == 0
                &&& e == ErtError::<E>::Unexpected
            },
        },
{
    if storage_bits % 64 != 0 || pc % 2 == 0 {
        return Err(ErtError::Unexpected);
    }
    let bytes: usize = storage_bits / 8;
    if bytes as u64 > u32::MAX as u64 {
        return Err(ErtError::Unexpected);
    }
    let sp: u32 = bytes as u32;
    let clear = known_word::<H, 32>(&zero, &one, 0);
    let mut regs = fill::<[W; 32], 16>(&clear);
    let mut i: usize = 0;
    while i < 16
        invariant
            i <= 16,
            crate::context::sound::<H>() ==> forall|j: int|
                0 <= j < i ==> crate::context::bits::<H>(#[trigger] regs@[j]@)
                    == crate::context::bits::<H>(clear@),
        decreases 16 - i,
    {
        regs[i] = keep_word::<H, 32>(&clear);
        i = i + 1;
    }
    let stack: Vec<u32> = Vec::new();
    let unknown: [Option<u32>; 16] = [None; 16];
    let machine = Machine::new::<H>(
        mem,
        stack,
        storage_bits,
        pc - 1,
        regs,
        unknown,
        zero,
        one,
        sp,
    );
    proof {
        if crate::word::constants::<H>(zero, one) {
            let file = Seq::new(16, |i: int| crate::concrete::word(0));
            assert(crate::thumb::machine::words::<H>(regs@) =~= file);
            assert(crate::thumb::machine::present(unknown@) =~= Seq::new(16, |i: int| false));
            assert(crate::thumb::entry::consistent::<H>(regs@, unknown@));
            let c = crate::thumb::machine::cpu::<H>(machine);
            assert(c.rstack.take(0) =~= Seq::empty());
            assert(crate::thumb::snapshot::reduced(c).sites =~= c.sites);
        }
    }
    match ThumbSnapshot::<W, FRAMES>::capture::<H>(&machine) {
        Ok(snapshot) => Ok(snapshot),
        Err(_) => Err(ErtError::Unexpected),
    }
}

/// The wires of a generation are those of the body at the virtual instruction
/// pointer: its registers, its flags, where it goes next and whether it
/// exited.
#[verifier::rlimit(40)]
#[verifier::spinoff_prover]
pub proof fn active_body_decides(
    start: Fold,
    common: Common<'_>,
    candidates: Seq<u32>,
    visits: Seq<Seq<Answers>>,
    k: int,
)
    requires
        0 <= k < visits.len() <= candidates.len(),
        candidates.no_duplicates(),
        common.ip == crate::concrete::word(candidates[k]),
        generation(start, common, candidates, visits) is Going,
    ensures
        ({
            let fold = generation(start, common, candidates, visits)->Going_0;
            let before = generation(start, common, candidates, visits.take(k))->Going_0;
            match before.body(common, candidates[k], visits[k]) {
                BodyEnd::Fork { cpu, cells: _, fork } => {
                    &&& fold.state.regs == cpu.regs
                    &&& fold.state.flags == cpu.flags
                    &&& fold.next_ip == crate::concrete::word(
                        if fork.taken {
                            fork.target
                        } else {
                            fork.fallthrough
                        },
                    )
                    &&& !fold.done
                },
                BodyEnd::Exit { cpu, cells: _ } => {
                    &&& fold.state.regs == cpu.regs
                    &&& fold.state.flags == cpu.flags
                    &&& fold.done
                },
                _ => false,
            }
        }),
    decreases visits.len(),
{
    let front = visits.drop_last();
    let last = visits.len() - 1;
    assert(generation(start, common, candidates, front) is Going);
    if k == last {
        assert(front =~= visits.take(k));
    } else {
        active_body_decides(start, common, candidates, front, k);
        assert(front.take(k) =~= visits.take(k));
        assert(candidates[k] != candidates[last]);
        if crate::concrete::word(candidates[k]) == crate::concrete::word(candidates[last]) {
            crate::concrete::word_injective(candidates[k], candidates[last]);
        }
    }
}

/// A generation none of whose candidates the virtual instruction pointer
/// names leaves every wire as it was.
pub proof fn inactive_bodies_change_nothing(
    start: Fold,
    common: Common<'_>,
    candidates: Seq<u32>,
    visits: Seq<Seq<Answers>>,
)
    requires
        visits.len() <= candidates.len(),
        forall|i: int|
            0 <= i < visits.len() ==> common.ip != crate::concrete::word(#[trigger] candidates[i]),
        generation(start, common, candidates, visits) is Going,
    ensures
        ({
            let fold = generation(start, common, candidates, visits)->Going_0;
            &&& fold.state.regs == start.state.regs
            &&& fold.state.flags == start.state.flags
            &&& fold.next_ip == start.next_ip
            &&& fold.done == start.done
        }),
    decreases visits.len(),
{
    if visits.len() > 0 {
        inactive_bodies_change_nothing(start, common, candidates, visits.drop_last());
        assert(common.ip != crate::concrete::word(candidates[visits.len() - 1]));
    }
}


/// Candidates of which the virtual instruction pointer names one, unless the
/// active path has exited.
pub open spec fn on_course(ip: Seq<bool>, done: bool, candidates: Seq<u32>) -> bool {
    &&& candidates.no_duplicates()
    &&& done || exists|k: int|
        0 <= k < candidates.len() && ip == crate::concrete::word(#[trigger] candidates[k])
}

/// What a visit adds, and that it adds nothing twice.
proof fn visit_adds(fold: Fold, common: Common<'_>, candidate: u32, answers: Seq<Answers>, c: u32)
    requires
        fold.successors.no_duplicates(),
        fold.visit(common, candidate, answers) is Going,
    ensures
        ({
            let next = fold.visit(common, candidate, answers)->Going_0;
            &&& next.successors.no_duplicates()
            &&& fold.successors.contains(c) ==> next.successors.contains(c)
            &&& fold.body(common, candidate, answers) matches BodyEnd::Fork {
                cpu: _,
                cells: _,
                fork,
            } ==> next.successors.contains(fork.target) && next.successors.contains(fork.fallthrough)
        }),
{
    if let BodyEnd::Fork { cpu: _, cells: _, fork } = fold.body(common, candidate, answers) {
        let one = crate::table::appended(fold.successors, fork.target);
        let two = crate::table::appended(one, fork.fallthrough);
        appended_holds(fold.successors, fork.target, c);
        appended_holds(fold.successors, fork.target, fork.target);
        appended_holds(one, fork.fallthrough, c);
        appended_holds(one, fork.fallthrough, fork.target);
        appended_holds(one, fork.fallthrough, fork.fallthrough);
        assert(fold.visit(common, candidate, answers)->Going_0.successors == two);
    }
}

/// Appending keeps what is there, adds the candidate, and repeats nothing.
proof fn appended_holds(next: Seq<u32>, candidate: u32, c: u32)
    requires
        next.no_duplicates(),
    ensures
        crate::table::appended(next, candidate).no_duplicates(),
        crate::table::appended(next, candidate).contains(candidate),
        next.contains(c) ==> crate::table::appended(next, candidate).contains(c),
{
    if !next.contains(candidate) {
        let more = next.push(candidate);
        assert(more[next.len() as int] == candidate);
        if next.contains(c) {
            let i = choose|i: int| 0 <= i < next.len() && next[i] == c;
            assert(more[i] == c);
        }
    }
}

/// The candidates found so far are distinct, and those of an earlier visit
/// stay.
proof fn generation_keeps(
    start: Fold,
    common: Common<'_>,
    candidates: Seq<u32>,
    visits: Seq<Seq<Answers>>,
    k: int,
    c: u32,
)
    requires
        start.successors.no_duplicates(),
        0 <= k <= visits.len(),
        generation(start, common, candidates, visits) is Going,
    ensures
        generation(start, common, candidates, visits)->Going_0.successors.no_duplicates(),
        generation(start, common, candidates, visits.take(k)) is Going,
        generation(start, common, candidates, visits.take(k))->Going_0.successors.contains(c)
            ==> generation(start, common, candidates, visits)->Going_0.successors.contains(c),
    decreases visits.len(),
{
    if visits.len() == 0 {
        assert(visits.take(k) =~= visits);
    } else {
        let front = visits.drop_last();
        let fold = generation(start, common, candidates, front)->Going_0;
        if k == visits.len() {
            assert(visits.take(k) =~= visits);
            generation_keeps(start, common, candidates, front, k - 1, c);
        } else {
            assert(front.take(k) =~= visits.take(k));
            generation_keeps(start, common, candidates, front, k, c);
        }
        visit_adds(fold, common, candidates[visits.len() - 1], visits.last(), c);
    }
}

/// The virtual instruction pointer stays on course: after every generation it
/// names one of the candidates of the next, until the active path exits.
pub proof fn virtual_ip_stays_on_course(
    start: Fold,
    common: Common<'_>,
    candidates: Seq<u32>,
    visits: Seq<Seq<Answers>>,
)
    requires
        start.successors.len() == 0,
        start.next_ip == common.ip,
        on_course(common.ip, start.done, candidates),
        visits.len() == candidates.len(),
        generation(start, common, candidates, visits) is Going,
    ensures
        ({
            let fold = generation(start, common, candidates, visits)->Going_0;
            on_course(fold.next_ip, fold.done, fold.successors)
        }),
{
    let fold = generation(start, common, candidates, visits)->Going_0;
    generation_keeps(start, common, candidates, visits, visits.len() as int, 0);
    if exists|k: int|
        0 <= k < candidates.len() && common.ip == crate::concrete::word(#[trigger] candidates[k]) {
        let k = choose|k: int|
            0 <= k < candidates.len() && common.ip == crate::concrete::word(
                #[trigger] candidates[k],
            );
        active_body_decides(start, common, candidates, visits, k);
        generation_keeps(start, common, candidates, visits, k, 0);
        generation_keeps(start, common, candidates, visits, k + 1, 0);
        let before = generation(start, common, candidates, visits.take(k))->Going_0;
        assert(visits.take(k + 1).drop_last() =~= visits.take(k));
        generation_keeps(
            start,
            common,
            candidates,
            visits.take(k + 1),
            k,
            0,
        );
        assert(visits.take(k + 1).take(k) =~= visits.take(k));
        generation_keeps(start, common, candidates, visits.take(k), k, 0);
        visit_adds(before, common, candidates[k], visits[k], 0);
        if let BodyEnd::Fork { cpu: _, cells: _, fork } = before.body(
            common,
            candidates[k],
            visits[k],
        ) {
            let next = if fork.taken {
                fork.target
            } else {
                fork.fallthrough
            };
            generation_keeps(start, common, candidates, visits, k + 1, next);
            let j = choose|j: int| 0 <= j < fold.successors.len() && fold.successors[j] == next;
            assert(fold.next_ip == crate::concrete::word(fold.successors[j]));
        }
    } else {
        inactive_bodies_change_nothing(start, common, candidates, visits);
    }
}

} // verus!
