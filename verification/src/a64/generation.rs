//! Boundary snapshots, concrete agreement, predicated folding, and the
//! generations of the AArch64 loop.
use crate::a64::body::{
    execute_body, Aarch64Boundary, Aarch64DriveError, Aarch64FoldError, Body, Crossing, WireValue,
};
use crate::a64::decode::DecodeError;
use crate::a64::state::{Core, State};
use crate::compare::{compare_word, ComparePredicate};
use crate::context::{keep, ContextWithValue};
use crate::memory::RawMemory;
use crate::table::{predicated_value, CandidateTable, DriveError, TableError};
use crate::word::{constant_word, dup, fill, keep_word, known_word, select_word, ContextWithErtOps};
use vstd::prelude::*;

verus! {

/// A symbolic A64 loop-boundary snapshot.
#[derive(Clone)]
pub struct Aarch64Snapshot<W> {
    /// Full facade state, including GPRs, SP, NZCV, and done.
    pub state: State<W>,
    /// Concrete fetch address at the boundary.
    pub pc: u64,
}

/// Wire by wire clones.
pub open spec fn cloned_word<W: Clone>(from: Seq<W>, to: Seq<W>) -> bool {
    from.len() == to.len() && forall|i: int|
        0 <= i < from.len() ==> cloned(from[i], #[trigger] to[i])
}

/// A copy of a state: what the host knows is the same, and the wires are
/// clones.
pub open spec fn copied<W: Clone>(from: State<W>, to: State<W>) -> bool {
    &&& forall|i: int| 0 <= i < 31 ==> cloned_word(from.regs@[i]@, #[trigger] to.regs@[i]@)
    &&& to.constants == from.constants
    &&& to.sp == from.sp
    &&& cloned_word(from.sp_word@, to.sp_word@)
    &&& cloned_word(from.nzcv@, to.nzcv@)
    &&& to.nzcv_constants == from.nzcv_constants
    &&& cloned(from.done, to.done)
}

/// A copy means what it was copied from.
pub proof fn copy_means<C: ContextWithValue<bool> + ?Sized>(
    from: State<C::Wrapped>,
    to: State<C::Wrapped>,
) where C::Wrapped: Clone
    requires
        crate::context::sound::<C>(),
        copied(from, to),
    ensures
        crate::a64::state::meaning::<C>(to) == crate::a64::state::meaning::<C>(from),
        crate::a64::state::agreeing::<C>(from) ==> crate::a64::state::agreeing::<C>(to),
{
    let a = crate::a64::state::meaning::<C>(from);
    let b = crate::a64::state::meaning::<C>(to);
    assert forall|i: int| 0 <= i < 31 implies crate::context::bits::<C>(#[trigger] to.regs@[i]@)
        == crate::context::bits::<C>(from.regs@[i]@) by {
        assert(cloned_word(from.regs@[i]@, to.regs@[i]@));
        assert(crate::context::bits::<C>(to.regs@[i]@) =~= crate::context::bits::<C>(
            from.regs@[i]@,
        ));
    }
    assert(b.regs =~= a.regs);
    assert(b.sp_word =~= a.sp_word);
    assert(b.nzcv =~= a.nzcv);
    assert(b =~= a);
}

fn copy_word<W: Clone, const N: usize>(word: &[W; N]) -> (r: [W; N])
    ensures
        cloned_word(word@, r@),
{
    word.clone()
}

/// Copy a state.
fn copy_state<W: Clone>(state: &State<W>) -> (r: State<W>)
    ensures
        copied(*state, r),
{
    let mut regs = fill::<[W; 64], 31>(&state.regs[0]);
    let mut i: usize = 0;
    while i < 31
        invariant
            i <= 31,
            forall|j: int| 0 <= j < i ==> cloned_word(state.regs@[j]@, #[trigger] regs@[j]@),
        decreases 31 - i,
    {
        regs[i] = copy_word::<W, 64>(&state.regs[i]);
        i = i + 1;
    }
    State {
        regs,
        constants: state.constants,
        sp: state.sp,
        sp_word: copy_word::<W, 64>(&state.sp_word),
        nzcv: copy_word::<W, 4>(&state.nzcv),
        nzcv_constants: state.nzcv_constants,
        done: dup(&state.done),
    }
}

/// Capture a boundary snapshot.
pub fn capture<W: Clone>(state: &State<W>, pc: u64) -> (r: Aarch64Snapshot<W>)
    ensures
        copied(*state, r.state),
        r.pc == pc,
{
    Aarch64Snapshot { state: copy_state(state), pc }
}

/// Restore a boundary snapshot into `state`.
pub fn restore<W: Clone>(snapshot: &Aarch64Snapshot<W>, state: &mut State<W>)
    ensures
        copied(snapshot.state, *final(state)),
{
    *state = copy_state(&snapshot.state);
}

/// A state folded into an accumulated one: the wires of the candidate where
/// it is active, and of what the host knows only what both say.
pub open spec fn folded(active: bool, candidate: Core, held: Core) -> Core {
    Core {
        regs: crate::thumb::snapshot::chosen(active, candidate.regs, held.regs),
        known: crate::thumb::generation::both_known(
            candidate.known,
            candidate.regs,
            held.known,
            held.regs,
        ),
        sp: held.sp,
        sp_word: crate::thumb::snapshot::chosen(active, candidate.sp_word, held.sp_word),
        nzcv: crate::thumb::snapshot::chosen(active, candidate.nzcv, held.nzcv),
        nzcv_known: crate::thumb::snapshot::common(candidate.nzcv_known, held.nzcv_known),
        done: if active {
            candidate.done
        } else {
            held.done
        },
    }
}

fn folding<T, E>(r: Result<T, E>) -> (q: Result<T, Aarch64FoldError<E>>)
    ensures
        r matches Ok(v) ==> q == Ok::<T, Aarch64FoldError<E>>(v),
        r matches Err(e) ==> q == Err::<T, Aarch64FoldError<E>>(Aarch64FoldError::Context(e)),
{
    match r {
        Ok(v) => Ok(v),
        Err(e) => Err(Aarch64FoldError::Context(e)),
    }
}

/// Fold the registers and what the host knows of them.
fn fold_registers<C, W>(
    context: &mut C,
    active: &W,
    candidate: &State<W>,
    accumulated: &mut State<W>,
) -> (r: Result<(), C::Error>) where C: ContextWithErtOps<bool, Wrapped = W> + ?Sized, W: Clone
    ensures
        *final(accumulated) == (State {
            regs: final(accumulated).regs,
            constants: final(accumulated).constants,
            ..*old(accumulated)
        }),
        r is Ok ==> final(accumulated).constants@ == crate::thumb::snapshot::common(
            candidate.constants@,
            old(accumulated).constants@,
        ),
        crate::context::sound::<C>() && r is Ok ==> {
            &&& crate::a64::state::words::<C>(final(accumulated).regs@)
                == crate::thumb::snapshot::chosen(
                crate::context::bit::<C>(*active),
                crate::a64::state::words::<C>(candidate.regs@),
                crate::a64::state::words::<C>(old(accumulated).regs@),
            )
            &&& crate::a64::state::agreeing::<C>(*candidate) && crate::a64::state::agreeing::<C>(
                *old(accumulated),
            ) ==> crate::a64::state::agreeing::<C>(*final(accumulated))
        },
        crate::context::reliable::<C>() ==> r is Ok,
        r matches Err(error) ==> crate::context::erred::<C>(error),
{
    let ghost on = crate::context::bit::<C>(*active);
    let mut register: usize = 0;
    while register < 31
        invariant
            register <= 31,
            on == crate::context::bit::<C>(*active),
            *accumulated == (State {
                regs: accumulated.regs,
                constants: accumulated.constants,
                ..*old(accumulated)
            }),
            forall|j: int|
                0 <= j < 31 ==> (#[trigger] accumulated.constants@[j]) == if j < register
                    && candidate.constants@[j] != old(accumulated).constants@[j] {
                    None
                } else {
                    old(accumulated).constants@[j]
                },
            crate::context::sound::<C>() ==> forall|j: int|
                0 <= j < 31 ==> crate::context::bits::<C>(#[trigger] accumulated.regs@[j]@) == if j
                    < register && on {
                    crate::context::bits::<C>(candidate.regs@[j]@)
                } else {
                    crate::context::bits::<C>(old(accumulated).regs@[j]@)
                },
        decreases 31 - register,
    {
        let word = select_word(
            context,
            keep::<C>(active),
            &candidate.regs[register],
            &accumulated.regs[register],
        )?;
        accumulated.regs[register] = word;
        if accumulated.constants[register] != candidate.constants[register] {
            accumulated.constants[register] = None;
        }
        register = register + 1;
    }
    proof {
        assert(accumulated.constants@ =~= crate::thumb::snapshot::common(
            candidate.constants@,
            old(accumulated).constants@,
        ));
        if crate::context::sound::<C>() {
            assert(crate::a64::state::words::<C>(accumulated.regs@)
                =~= crate::thumb::snapshot::chosen(
                on,
                crate::a64::state::words::<C>(candidate.regs@),
                crate::a64::state::words::<C>(old(accumulated).regs@),
            ));
            if crate::a64::state::agreeing::<C>(*candidate) && crate::a64::state::agreeing::<C>(
                *old(accumulated),
            ) {
                assert forall|i: int| 0 <= i < 31 implies ((#[trigger] accumulated.constants@[i])
                    matches Some(v) ==> crate::context::bits::<C>(accumulated.regs@[i]@)
                    == crate::a64::state::dword(v)) by {
                    assert(candidate.constants@[i] == old(accumulated).constants@[i]
                        || accumulated.constants@[i] is None);
                }
            }
        }
    }
    Ok(())
}

/// Fold the four flags.
fn fold_nzcv<C, W>(
    context: &mut C,
    active: &W,
    candidate: &State<W>,
    accumulated: &mut State<W>,
) -> (r: Result<(), C::Error>) where C: ContextWithErtOps<bool, Wrapped = W> + ?Sized, W: Clone
    ensures
        *final(accumulated) == (State {
            nzcv: final(accumulated).nzcv,
            nzcv_constants: final(accumulated).nzcv_constants,
            ..*old(accumulated)
        }),
        r is Ok ==> final(accumulated).nzcv_constants@ == crate::thumb::snapshot::common(
            candidate.nzcv_constants@,
            old(accumulated).nzcv_constants@,
        ),
        crate::context::sound::<C>() && r is Ok ==> crate::context::bits::<C>(
            final(accumulated).nzcv@,
        ) == crate::thumb::snapshot::chosen(
            crate::context::bit::<C>(*active),
            crate::context::bits::<C>(candidate.nzcv@),
            crate::context::bits::<C>(old(accumulated).nzcv@),
        ),
        crate::context::reliable::<C>() ==> r is Ok,
        r matches Err(error) ==> crate::context::erred::<C>(error),
{
    let word = select_word(context, keep::<C>(active), &candidate.nzcv, &accumulated.nzcv)?;
    accumulated.nzcv = word;
    let mut flag: usize = 0;
    while flag < 4
        invariant
            flag <= 4,
            *accumulated == (State {
                nzcv: word,
                nzcv_constants: accumulated.nzcv_constants,
                ..*old(accumulated)
            }),
            forall|j: int|
                0 <= j < 4 ==> (#[trigger] accumulated.nzcv_constants@[j]) == if j < flag
                    && candidate.nzcv_constants@[j] != old(accumulated).nzcv_constants@[j] {
                    None
                } else {
                    old(accumulated).nzcv_constants@[j]
                },
        decreases 4 - flag,
    {
        if accumulated.nzcv_constants[flag] != candidate.nzcv_constants[flag] {
            accumulated.nzcv_constants[flag] = None;
        }
        flag = flag + 1;
    }
    assert(accumulated.nzcv_constants@ =~= crate::thumb::snapshot::common(
        candidate.nzcv_constants@,
        old(accumulated).nzcv_constants@,
    ));
    Ok(())
}

/// What the host still knows after a fold is what both know alike.
proof fn folded_knowledge<C: ContextWithValue<bool> + ?Sized>(
    body: State<C::Wrapped>,
    held: State<C::Wrapped>,
)
    requires
        crate::a64::state::agreeing::<C>(body),
        crate::a64::state::agreeing::<C>(held),
    ensures
        crate::thumb::machine::present(
            crate::thumb::snapshot::common(body.constants@, held.constants@),
        ) == crate::thumb::generation::both_known(
            crate::thumb::machine::present(body.constants@),
            crate::a64::state::words::<C>(body.regs@),
            crate::thumb::machine::present(held.constants@),
            crate::a64::state::words::<C>(held.regs@),
        ),
{
    let a = crate::thumb::machine::present(
        crate::thumb::snapshot::common(body.constants@, held.constants@),
    );
    let b = crate::thumb::generation::both_known(
        crate::thumb::machine::present(body.constants@),
        crate::a64::state::words::<C>(body.regs@),
        crate::thumb::machine::present(held.constants@),
        crate::a64::state::words::<C>(held.regs@),
    );
    assert forall|i: int| 0 <= i < 31 implies a[i] == b[i] by {
        let x = body.constants@[i];
        let y = held.constants@[i];
        if x is Some && y is Some {
            if crate::a64::state::dword(x->0) == crate::a64::state::dword(y->0) {
                crate::wide::spelled_injective(x->0, y->0);
            }
        }
    }
    assert(a =~= b);
}

/// Fold an executed candidate body into an accumulated state under `active`.
///
/// Concrete metadata survives only when both sides agree; disagreement makes
/// that fact unknown rather than choosing a host-side value.
pub fn fold_snapshot<C, W>(
    context: &mut C,
    active: &W,
    candidate: &Aarch64Snapshot<W>,
    accumulated: &mut Aarch64Snapshot<W>,
    _zero: &W,
) -> (r: Result<(), Aarch64FoldError<C::Error>>) where
    C: ContextWithErtOps<bool, Wrapped = W> + ?Sized,
    W: Clone,

    ensures
        final(accumulated).pc == old(accumulated).pc,
        r == Err::<(), Aarch64FoldError<C::Error>>(Aarch64FoldError::ConcreteStateDivergence) <==> old(
            accumulated,
        ).state.sp != candidate.state.sp,
        old(accumulated).state.sp != candidate.state.sp ==> *final(accumulated) == *old(
            accumulated,
        ),
        r is Ok ==> {
            &&& final(accumulated).state.sp == old(accumulated).state.sp
            &&& final(accumulated).state.constants@ == crate::thumb::snapshot::common(
                candidate.state.constants@,
                old(accumulated).state.constants@,
            )
        },
        crate::context::sound::<C>() && crate::a64::state::agreeing::<C>(candidate.state)
            && crate::a64::state::agreeing::<C>(old(accumulated).state) && r is Ok ==> {
            &&& crate::a64::state::agreeing::<C>(final(accumulated).state)
            &&& crate::a64::state::meaning::<C>(final(accumulated).state) == folded(
                crate::context::bit::<C>(*active),
                crate::a64::state::meaning::<C>(candidate.state),
                crate::a64::state::meaning::<C>(old(accumulated).state),
            )
        },
        crate::context::reliable::<C>() && old(accumulated).state.sp == candidate.state.sp ==> r
            is Ok,
{
    if accumulated.state.sp != candidate.state.sp {
        return Err(Aarch64FoldError::ConcreteStateDivergence);
    }
    let ghost held = accumulated.state;
    folding(fold_registers(context, active, &candidate.state, &mut accumulated.state))?;
    let ghost after_registers = accumulated.state;
    let word = folding(
        select_word(
            context,
            keep::<C>(active),
            &candidate.state.sp_word,
            &accumulated.state.sp_word,
        ),
    )?;
    accumulated.state.sp_word = word;
    folding(fold_nzcv(context, active, &candidate.state, &mut accumulated.state))?;
    let kept = keep::<C>(&accumulated.state.done);
    let done = folding(
        predicated_value(
            context,
            keep::<C>(active),
            keep::<C>(&candidate.state.done),
            kept,
        ),
    )?;
    accumulated.state.done = done;
    proof {
        if crate::context::sound::<C>() && crate::a64::state::agreeing::<C>(candidate.state)
            && crate::a64::state::agreeing::<C>(held) {
            folded_knowledge::<C>(candidate.state, held);
            assert(crate::a64::state::agreeing::<C>(after_registers));
            assert(accumulated.state.constants == after_registers.constants);
            assert(accumulated.state.regs == after_registers.regs);
            assert(crate::a64::state::agreeing::<C>(accumulated.state));
            let now = crate::a64::state::meaning::<C>(accumulated.state);
            let expected = folded(
                crate::context::bit::<C>(*active),
                crate::a64::state::meaning::<C>(candidate.state),
                crate::a64::state::meaning::<C>(held),
            );
            assert(now =~= expected);
        }
    }
    Ok(())
}

/// The result of one A64 generation.
#[derive(Clone)]
pub struct Aarch64Step<W> {
    /// Folded architectural state for the next generation.
    pub snapshot: Aarch64Snapshot<W>,
    /// Symbolic virtual instruction pointer for the next generation.
    pub virtual_ip: [W; 64],
    /// Accumulated symbolic completion wire.
    pub done: W,
    /// Whether any represented body exited.
    pub exited: bool,
}

/// Build the initial A64 loop snapshot and virtual-IP word.
pub fn initial_step<W: Clone>(state: State<W>, entry: u64, zero: &W, one: &W) -> (r: Result<
    Aarch64Step<W>,
    DecodeError,
>)
    ensures
        r is Err <==> entry % 4 != 0,
        r matches Err(e) ==> e == DecodeError::Malformed(0),
        r matches Ok(step) ==> {
            &&& copied(state, step.snapshot.state)
            &&& step.snapshot.pc == entry
            &&& cloned(*zero, step.done)
            &&& !step.exited
            &&& forall|i: int|
                0 <= i < 64 ==> cloned(
                    if crate::a64::state::dword(entry)[i] {
                        *one
                    } else {
                        *zero
                    },
                    #[trigger] step.virtual_ip@[i],
                )
        },
{
    if entry % 4 != 0 {
        return Err(DecodeError::Malformed(0));
    }
    Ok(
        Aarch64Step {
            snapshot: capture(&state, entry),
            virtual_ip: constant_word::<W, 64>(zero, one, entry),
            done: dup(zero),
            exited: false,
        },
    )
}

/// A generation in progress.
pub struct Fold {
    /// The state accumulated from the bodies that went on, and its address.
    pub state: Option<(Core, u64)>,
    /// The next virtual instruction pointer.
    pub next_ip: Seq<bool>,
    /// Whether the active body exited.
    pub done: bool,
    /// Whether any body exited.
    pub exited: bool,
    /// The next candidates.
    pub successors: Seq<u64>,
}

/// What every body of a generation shares.
pub struct Common<'m> {
    /// The state in which each starts.
    pub base: Core,
    /// The virtual instruction pointer.
    pub ip: Seq<bool>,
    pub mem: RawMemory<'m>,
    /// How many candidates the next generation may have.
    pub room: int,
}

/// A generation, as far as it came.
pub enum Generation {
    Going(Fold),
    /// Nothing is mapped at an address.
    Memory(u64),
    /// A word is not executed.
    Decode(DecodeError),
    /// The stack pointers of two bodies differ.
    Diverged,
    /// The next generation does not fit.
    Full,
}

impl Fold {
    /// The fold of a body that went on.
    pub open spec fn go_on(
        self,
        common: Common<'_>,
        candidate: u64,
        core: Core,
        next: u64,
        taken: u64,
        fallthrough: u64,
    ) -> Generation {
        let active = common.ip == crate::a64::state::dword(candidate);
        let first = crate::table::appended(self.successors, taken);
        let successors = if fallthrough == taken {
            first
        } else {
            crate::table::appended(first, fallthrough)
        };
        let pc = if taken == fallthrough {
            taken
        } else {
            candidate
        };
        if self.state matches Some(held) && held.0.sp != core.sp {
            Generation::Diverged
        } else if successors.len() > common.room {
            Generation::Full
        } else {
            Generation::Going(
                Fold {
                    state: match self.state {
                        None => Some((core, pc)),
                        Some(held) => Some((folded(active, core, held.0), held.1)),
                    },
                    next_ip: if active {
                        crate::a64::state::dword(next)
                    } else {
                        self.next_ip
                    },
                    successors,
                    ..self
                },
            )
        }
    }

    /// One candidate's body. `unknown` says whether a bit that a `TBZ` or
    /// `TBNZ` at its end tests is a wire that the host does not know.
    pub open spec fn visit(self, common: Common<'_>, candidate: u64, unknown: bool) -> Generation {
        match end_of(common.base, candidate, common.mem, unknown) {
            End::Memory(at) => Generation::Memory(at),
            End::Decode(e) => Generation::Decode(e),
            End::Exit => Generation::Going(
                Fold {
                    done: common.ip == crate::a64::state::dword(candidate) || self.done,
                    exited: true,
                    ..self
                },
            ),
            End::On { core, next, taken, fallthrough } => self.go_on(
                common,
                candidate,
                core,
                next,
                taken,
                fallthrough,
            ),
        }
    }
}

/// The end of a body.
pub enum End {
    /// It goes on at `next`, in this state, and has these two successors.
    On { core: Core, next: u64, taken: u64, fallthrough: u64 },
    Exit,
    Memory(u64),
    Decode(DecodeError),
}

/// The end of the body at `candidate`.
#[verifier::opaque]
pub open spec fn end_of(base: Core, candidate: u64, mem: RawMemory<'_>, unknown: bool) -> End {
    match crate::a64::body::body(base, candidate, mem) {
        Body::Memory(at) => End::Memory(at),
        Body::Decode(e) => End::Decode(e),
        Body::Exit { core: _ } => End::Exit,
        Body::Jump { core, next } => End::On { core, next, taken: next, fallthrough: next },
        Body::Branch { core, pc, raw } => match crate::a64::body::crossing(
            core,
            pc,
            raw,
            symbolic(core, raw, unknown),
        ) {
            Crossing::At { next, taken, fallthrough } => End::On { core, next, taken, fallthrough },
            Crossing::Error(e) => End::Decode(e),
        },
    }
}

/// What a body did, by its end.
spec fn ended<C: ContextWithErtOps<bool> + ?Sized>(
    after: State<C::Wrapped>,
    r: Result<Aarch64Boundary<C::Wrapped>, Aarch64DriveError<C::Error>>,
    end: End,
) -> bool where C::Wrapped: WireValue + Clone {
    match r {
        Ok(Aarch64Boundary::SymbolicBranch { next, taken, fallthrough }) => {
            &&& crate::a64::state::agreeing::<C>(after)
            &&& end matches End::On { core, next: n, taken: t, fallthrough: f } && core
                == crate::a64::state::meaning::<C>(after) && t == taken && f == fallthrough
                && crate::context::bits::<C>(next@) == crate::a64::state::dword(n)
        },
        Ok(Aarch64Boundary::Exit) => end is Exit,
        Err(Aarch64DriveError::Decode(e)) => end == End::Decode(e) || (e is Unsupported
            && !crate::context::reliable::<C>()),
        Err(Aarch64DriveError::Memory(at)) => end == End::Memory(at),
        Err(Aarch64DriveError::SymbolicNextPc) => !crate::a64::body::transparent::<C::Wrapped>(),
        Err(Aarch64DriveError::Context(_)) => !crate::context::reliable::<C>(),
        Err(_) => false,
    }
}

/// Whether the bit that a `TBZ` or `TBNZ` tests is a wire that the host does
/// not know.
spec fn tests_unknown<W: WireValue>(s: State<W>, raw: u32) -> bool {
    crate::a64::decode::field(raw, 0, 5) < 31 && s.regs@[crate::a64::decode::field(
        raw,
        0,
        5,
    ) as int]@[crate::a64::state::test_position(raw)].known() is None
}

/// Execute a body from a copy of a state.
fn run_body<C, W>(
    context: &mut C,
    initial: &State<W>,
    candidate: u64,
    memory: RawMemory<'_>,
    zero: &W,
    one: &W,
) -> (r: (State<W>, Result<Aarch64Boundary<W>, Aarch64DriveError<C::Error>>)) where
    C: ContextWithErtOps<bool, Wrapped = W> + ?Sized,
    W: WireValue + Clone,

    ensures
        crate::word::constants::<C>(*zero, *one) && crate::a64::body::honest::<C>()
            && crate::a64::state::agreeing::<C>(*initial) ==> exists|unknown: bool|
            (crate::a64::body::transparent::<W>() ==> !unknown) && ended::<C>(
                r.0,
                r.1,
                #[trigger] end_of(
                    crate::a64::state::meaning::<C>(*initial),
                    candidate,
                    memory,
                    unknown,
                ),
            ),
{
    let mut state = copy_state(initial);
    proof {
        if crate::context::sound::<C>() {
            copy_means::<C>(*initial, state);
        }
    }
    let r = execute_body(context, &mut state, candidate, memory, zero, one);
    proof {
        if crate::word::constants::<C>(*zero, *one) && crate::a64::body::honest::<C>()
            && crate::a64::state::agreeing::<C>(*initial) {
            let base = crate::a64::state::meaning::<C>(*initial);
            let whole = crate::a64::body::body(base, candidate, memory);
            let unknown = match whole {
                Body::Branch { core: _, pc: _, raw } => tests_unknown(state, raw),
                _ => false,
            };
            lands::<C>(state, r, base, candidate, memory, unknown);
        }
    }
    (state, r)
}

/// What a body did, by its instructions, is what it did by its end.
proof fn lands<C: ContextWithErtOps<bool> + ?Sized>(
    after: State<C::Wrapped>,
    r: Result<Aarch64Boundary<C::Wrapped>, Aarch64DriveError<C::Error>>,
    base: Core,
    candidate: u64,
    mem: RawMemory<'_>,
    unknown: bool,
) where C::Wrapped: WireValue + Clone
    requires
        crate::a64::body::body_did::<C>(
            after,
            r,
            crate::a64::body::body(base, candidate, mem),
        ),
        unknown == match crate::a64::body::body(base, candidate, mem) {
            Body::Branch { core: _, pc: _, raw } => tests_unknown(after, raw),
            _ => false,
        },
    ensures
        ended::<C>(after, r, end_of(base, candidate, mem, unknown)),
{
    reveal(end_of);
    vstd::arithmetic::power2::lemma2_to64();
    match crate::a64::body::body(base, candidate, mem) {
        Body::Branch { core, pc: _, raw } => {
            assert(crate::a64::decode::field(raw, 0, 5) < 32);
            if core == crate::a64::state::meaning::<C>(after) {
                assert(crate::a64::body::on_wires(after, raw) == symbolic(core, raw, unknown));
            }
        },
        _ => {},
    }
}

/// Whether a conditional branch depends on wires that the host does not know.
pub open spec fn symbolic(core: Core, raw: u32, unknown: bool) -> bool {
    let register = crate::a64::decode::field(raw, 0, 5) as int;
    if register == 31 {
        false
    } else if crate::a64::state::compares(raw) {
        !core.known[register]
    } else {
        unknown
    }
}

/// The bodies of the first candidates, one per visit, in order.
pub open spec fn generation(
    start: Fold,
    common: Common<'_>,
    candidates: Seq<u64>,
    visits: Seq<bool>,
) -> Generation
    decreases visits.len(),
{
    if visits.len() == 0 {
        Generation::Going(start)
    } else {
        match generation(start, common, candidates, visits.drop_last()) {
            Generation::Going(fold) => fold.visit(
                common,
                candidates[visits.len() - 1],
                visits.last(),
            ),
            other => other,
        }
    }
}

/// Where every wire is known, none is unknown.
pub open spec fn plausible<W: WireValue>(visits: Seq<bool>) -> bool {
    crate::a64::body::transparent::<W>() ==> forall|i: int|
        0 <= i < visits.len() ==> !#[trigger] visits[i]
}

/// What the bodies visited so far left.
struct Aarch64GenerationDriver<W> {
    accumulated: Option<Aarch64Snapshot<W>>,
    next_virtual_ip: [W; 64],
    done: W,
    exited: bool,
}

/// What a driver has folded.
spec fn driver_fold<C: ContextWithValue<bool> + ?Sized>(
    d: Aarch64GenerationDriver<C::Wrapped>,
    successors: Seq<u64>,
) -> Fold {
    Fold {
        state: match d.accumulated {
            Some(s) => Some((crate::a64::state::meaning::<C>(s.state), s.pc)),
            None => None,
        },
        next_ip: crate::context::bits::<C>(d.next_virtual_ip@),
        done: crate::context::bit::<C>(d.done),
        exited: d.exited,
        successors,
    }
}

spec fn driver_ok<C: ContextWithValue<bool> + ?Sized>(
    d: Aarch64GenerationDriver<C::Wrapped>,
) -> bool {
    d.accumulated matches Some(s) ==> crate::a64::state::agreeing::<C>(s.state)
}

/// How a generation failed.
pub open spec fn failed<C: ContextWithErtOps<bool> + ?Sized>(
    e: Aarch64DriveError<C::Error>,
    end: Generation,
) -> bool where C::Wrapped: WireValue + Clone {
    match e {
        Aarch64DriveError::Decode(e) => end == Generation::Decode(e) || (e is Unsupported
            && !crate::context::reliable::<C>()),
        Aarch64DriveError::Memory(at) => end == Generation::Memory(at),
        Aarch64DriveError::SymbolicNextPc => !crate::a64::body::transparent::<C::Wrapped>(),
        Aarch64DriveError::Context(_) => !crate::context::reliable::<C>(),
        Aarch64DriveError::Fold(Aarch64FoldError::ConcreteStateDivergence) => end is Diverged,
        Aarch64DriveError::Fold(Aarch64FoldError::Context(_)) => !crate::context::reliable::<C>(),
        Aarch64DriveError::NoSurvivingCandidates => false,
    }
}

/// What one visit did. The targets of a body that went on are still to be
/// made candidates.
spec fn visited<C: ContextWithErtOps<bool> + ?Sized>(
    after: Aarch64GenerationDriver<C::Wrapped>,
    r: Result<Option<(u64, u64)>, Aarch64DriveError<C::Error>>,
    successors: Seq<u64>,
    end: Generation,
) -> bool where C::Wrapped: WireValue + Clone {
    match r {
        Ok(found) => driver_ok::<C>(after) && end == Generation::Going(
            driver_fold::<C>(after, joined(successors, found)),
        ),
        Err(e) => failed::<C>(e, end),
    }
}

/// The next candidates with a branch's targets.
pub open spec fn joined(successors: Seq<u64>, found: Option<(u64, u64)>) -> Seq<u64> {
    match found {
        None => successors,
        Some((taken, fallthrough)) => if fallthrough == taken {
            crate::table::appended(successors, taken)
        } else {
            crate::table::appended(crate::table::appended(successors, taken), fallthrough)
        },
    }
}

impl<W: WireValue + Clone> Aarch64GenerationDriver<W> {
    /// Fold a body that went on.
    fn absorb<C: ContextWithErtOps<bool, Wrapped = W> + ?Sized>(
        &mut self,
        context: &mut C,
        active: W,
        snapshot: Aarch64Snapshot<W>,
        next: [W; 64],
        zero: &W,
        Ghost(common): Ghost<Common<'_>>,
        Ghost(candidate): Ghost<u64>,
        Ghost(target): Ghost<u64>,
        Ghost(taken): Ghost<u64>,
        Ghost(fallthrough): Ghost<u64>,
        Ghost(successors): Ghost<Seq<u64>>,
    ) -> (r: Result<(), Aarch64DriveError<C::Error>>)
        ensures
            crate::context::sound::<C>() && driver_ok::<C>(*old(self))
                && crate::a64::state::agreeing::<C>(snapshot.state) && crate::context::bits::<C>(
                next@,
            ) == crate::a64::state::dword(target) && crate::context::bit::<C>(active) == (common.ip
                == crate::a64::state::dword(candidate)) && snapshot.pc == (if taken == fallthrough {
                taken
            } else {
                candidate
            }) && common.room >= successors.len() + 2 ==> ({
                let end = driver_fold::<C>(*old(self), successors).go_on(
                    common,
                    candidate,
                    crate::a64::state::meaning::<C>(snapshot.state),
                    target,
                    taken,
                    fallthrough,
                );
                match r {
                    Ok(_) => driver_ok::<C>(*final(self)) && end == Generation::Going(
                        driver_fold::<C>(
                            *final(self),
                            joined(successors, Some((taken, fallthrough))),
                        ),
                    ),
                    Err(e) => failed::<C>(e, end),
                }
            }),
    {
        match &mut self.accumulated {
            Some(accumulated) => {
                match fold_snapshot(context, &active, &snapshot, accumulated, zero) {
                    Ok(_) => {},
                    Err(error) => return Err(Aarch64DriveError::Fold(error)),
                }
            },
            None => {
                self.accumulated = Some(snapshot);
            },
        }
        match select_word(context, active, &next, &self.next_virtual_ip) {
            Ok(word) => {
                self.next_virtual_ip = word;
            },
            Err(error) => return Err(Aarch64DriveError::Context(error)),
        }
        Ok(())
    }

    /// Execute the body at `candidate` and fold it. The result holds the
    /// targets of a body that went on.
    fn execute<C: ContextWithErtOps<bool, Wrapped = W> + ?Sized>(
        &mut self,
        context: &mut C,
        initial: &Aarch64Snapshot<W>,
        virtual_ip: &[W; 64],
        memory: RawMemory<'_>,
        candidate: u64,
        zero: &W,
        one: &W,
        Ghost(successors): Ghost<Seq<u64>>,
    ) -> (r: Result<Option<(u64, u64)>, Aarch64DriveError<C::Error>>)
        ensures
            crate::word::constants::<C>(*zero, *one) && crate::a64::body::honest::<C>()
                && driver_ok::<C>(*old(self)) && crate::a64::state::agreeing::<C>(initial.state)
                ==> exists|unknown: bool|
                (crate::a64::body::transparent::<W>() ==> !unknown) && visited::<C>(
                    *final(self),
                    r,
                    successors,
                    #[trigger] driver_fold::<C>(*old(self), successors).visit(
                        Common {
                            base: crate::a64::state::meaning::<C>(initial.state),
                            ip: crate::context::bits::<C>(virtual_ip@),
                            mem: memory,
                            room: successors.len() as int + 2,
                        },
                        candidate,
                        unknown,
                    ),
                ),
    {
        let ghost good = crate::word::constants::<C>(*zero, *one)
            && crate::a64::body::honest::<C>() && driver_ok::<C>(*self)
            && crate::a64::state::agreeing::<C>(initial.state);
        let ghost common = Common {
            base: crate::a64::state::meaning::<C>(initial.state),
            ip: crate::context::bits::<C>(virtual_ip@),
            mem: memory,
            room: successors.len() as int + 2,
        };
        let ghost before = driver_fold::<C>(*self, successors);
        let (state, executed) = run_body(context, &initial.state, candidate, memory, zero, one);
        let ghost unknown = choose|unknown: bool|
            (crate::a64::body::transparent::<W>() ==> !unknown) && ended::<C>(
                state,
                executed,
                #[trigger] end_of(common.base, candidate, memory, unknown),
            );
        let ghost end = before.visit(common, candidate, unknown);
        let boundary = match executed {
            Ok(boundary) => boundary,
            Err(error) => {
                proof {
                    if good {
                        assert(visited::<C>(*self, Err(error), successors, end));
                    }
                }
                return Err(error);
            },
        };
        let here = known_word::<C, 64>(zero, one, candidate);
        let active = match compare_word(context, virtual_ip, &here, ComparePredicate::Eq, one) {
            Ok(active) => active,
            Err(error) => {
                proof {
                    if good {
                        assert(visited::<C>(
                            *self,
                            Err(Aarch64DriveError::Context(error)),
                            successors,
                            end,
                        ));
                    }
                }
                return Err(Aarch64DriveError::Context(error));
            },
        };
        match boundary {
            Aarch64Boundary::SymbolicBranch { next, taken, fallthrough } => {
                let pc: u64 = if taken == fallthrough {
                    taken
                } else {
                    candidate
                };
                let ghost target = match end_of(common.base, candidate, memory, unknown) {
                    End::On { core: _, next, taken: _, fallthrough: _ } => next,
                    _ => 0,
                };
                let snapshot = Aarch64Snapshot { state, pc };
                let absorbed = self.absorb(
                    context,
                    active,
                    snapshot,
                    next,
                    zero,
                    Ghost(common),
                    Ghost(candidate),
                    Ghost(target),
                    Ghost(taken),
                    Ghost(fallthrough),
                    Ghost(successors),
                );
                let r = match absorbed {
                    Ok(_) => Ok(Some((taken, fallthrough))),
                    Err(error) => Err(error),
                };
                proof {
                    if good {
                        assert(visited::<C>(*self, r, successors, end));
                    }
                }
                r
            },
            Aarch64Boundary::Exit => {
                self.exited = true;
                let held = keep::<C>(&self.done);
                match predicated_value(context, active, keep::<C>(one), held) {
                    Ok(done) => {
                        self.done = done;
                        proof {
                            if good {
                                assert(visited::<C>(*self, Ok(None), successors, end));
                            }
                        }
                        Ok(None)
                    },
                    Err(error) => {
                        proof {
                            if good {
                                assert(visited::<C>(
                                    *self,
                                    Err(Aarch64DriveError::Context(error)),
                                    successors,
                                    end,
                                ));
                            }
                        }
                        Err(Aarch64DriveError::Context(error))
                    },
                }
            },
        }
    }
}

/// A visit with less room goes on where the successors still fit.
proof fn room_matters(fold: Fold, common: Common<'_>, room: int, candidate: u64, unknown: bool)
    requires
        common.room >= fold.successors.len() + 2,
        fold.successors.len() <= room,
    ensures
        match fold.visit(common, candidate, unknown) {
            Generation::Going(next) => fold.visit(
                (Common { room, ..common }),
                candidate,
                unknown,
            ) == if next.successors.len() > room {
                Generation::Full
            } else {
                Generation::Going(next)
            },
            other => fold.visit((Common { room, ..common }), candidate, unknown) == other,
        },
{
}

/// How a generation ended.
pub open spec fn generated<C: ContextWithErtOps<bool> + ?Sized>(
    r: Result<
        (Aarch64Snapshot<C::Wrapped>, [C::Wrapped; 64], C::Wrapped, bool),
        DriveError<Aarch64DriveError<C::Error>>,
    >,
    before: Seq<u64>,
    after: Seq<u64>,
    complete: bool,
    end: Generation,
) -> bool where C::Wrapped: WireValue + Clone {
    match r {
        Ok((snapshot, virtual_ip, done, exited)) => {
            &&& crate::a64::state::agreeing::<C>(snapshot.state)
            &&& complete
            &&& end == Generation::Going(
                Fold {
                    state: Some((crate::a64::state::meaning::<C>(snapshot.state), snapshot.pc)),
                    next_ip: crate::context::bits::<C>(virtual_ip@),
                    done: crate::context::bit::<C>(done),
                    exited,
                    successors: after,
                },
            )
        },
        Err(DriveError::Driver(Aarch64DriveError::NoSurvivingCandidates)) => {
            &&& complete
            &&& end matches Generation::Going(fold) && fold.state is None && fold.successors
                == after
        },
        Err(DriveError::Driver(e)) => after == before && failed::<C>(e, end),
        Err(DriveError::Table(e)) => after == before && e == TableError::Capacity && end is Full,
    }
}

/// Where a generation starts.
pub open spec fn opening(ip: Seq<bool>) -> Fold {
    Fold { state: None, next_ip: ip, done: false, exited: false, successors: Seq::empty() }
}

/// Execute one candidate generation through the fixed-capacity table.
///
/// Each candidate body starts from `snapshot` and stops at the next
/// control-flow boundary or SVC exit. Concrete successors are appended in
/// stable order. Exited bodies leave no successor and predicate the
/// accumulated done wire.
pub fn run_generation<C, W>(
    context: &mut C,
    table: &mut CandidateTable<'_, u64>,
    snapshot: &Aarch64Snapshot<W>,
    virtual_ip: &[W; 64],
    memory: RawMemory<'_>,
    zero: &W,
    one: &W,
) -> (r: Result<
    (Aarch64Snapshot<W>, [W; 64], W, bool),
    DriveError<Aarch64DriveError<C::Error>>,
>) where C: ContextWithErtOps<bool, Wrapped = W> + ?Sized, W: WireValue + Clone
    requires
        old(table).wf(),
    ensures
        final(table).wf(),
        final(table).capacity() == old(table).capacity(),
        crate::word::constants::<C>(*zero, *one) && crate::a64::body::honest::<C>()
            && crate::a64::state::agreeing::<C>(snapshot.state) ==> exists|visits: Seq<bool>|
            visits.len() <= old(table).candidates().len() && plausible::<W>(visits)
                && generated::<C>(
                r,
                old(table).candidates(),
                final(table).candidates(),
                visits.len() == old(table).candidates().len(),
                #[trigger] generation(
                    opening(crate::context::bits::<C>(virtual_ip@)),
                    Common {
                        base: crate::a64::state::meaning::<C>(snapshot.state),
                        ip: crate::context::bits::<C>(virtual_ip@),
                        mem: memory,
                        room: old(table).room(),
                    },
                    old(table).candidates(),
                    visits,
                ),
            ),
{
    let mut driver = Aarch64GenerationDriver {
        accumulated: None,
        next_virtual_ip: keep_word::<C, 64>(virtual_ip),
        done: keep::<C>(zero),
        exited: false,
    };
    let ghost good = crate::word::constants::<C>(*zero, *one) && crate::a64::body::honest::<C>()
        && crate::a64::state::agreeing::<C>(snapshot.state);
    let ghost first = opening(crate::context::bits::<C>(virtual_ip@));
    let ghost common = Common {
        base: crate::a64::state::meaning::<C>(snapshot.state),
        ip: crate::context::bits::<C>(virtual_ip@),
        mem: memory,
        room: table.room(),
    };
    let ghost candidates = table.candidates();
    let ghost mut visits: Seq<bool> = Seq::empty();
    let count: usize = table.len();
    let mut next_len: usize = 0;
    let mut i: usize = 0;
    assert(table.upcoming(0) =~= Seq::empty());
    while i < count
        invariant
            table.wf(),
            table.capacity() == old(table).capacity(),
            table.room() == old(table).room(),
            table.candidates() == candidates,
            candidates == old(table).candidates(),
            count == candidates.len(),
            i <= count,
            next_len <= table.room(),
            visits.len() == i,
            plausible::<W>(visits),
            good == (crate::word::constants::<C>(*zero, *one) && crate::a64::body::honest::<C>()
                && crate::a64::state::agreeing::<C>(snapshot.state)),
            first == opening(crate::context::bits::<C>(virtual_ip@)),
            common == (Common {
                base: crate::a64::state::meaning::<C>(snapshot.state),
                ip: crate::context::bits::<C>(virtual_ip@),
                mem: memory,
                room: old(table).room(),
            }),
            good ==> {
                &&& driver_ok::<C>(driver)
                &&& generation(first, common, candidates, visits) == Generation::Going(
                    driver_fold::<C>(driver, table.upcoming(next_len as int)),
                )
            },
        decreases count - i,
    {
        let candidate: u64 = table.current()[i];
        let ghost so_far = table.upcoming(next_len as int);
        let ghost fold = driver_fold::<C>(driver, so_far);
        let ghost ample = Common { room: so_far.len() as int + 2, ..common };
        let ghost past = visits;
        let done = driver.execute(
            context,
            snapshot,
            virtual_ip,
            memory,
            candidate,
            zero,
            one,
            Ghost(so_far),
        );
        let ghost unknown = if good {
            choose|unknown: bool|
                (crate::a64::body::transparent::<W>() ==> !unknown) && visited::<C>(
                    driver,
                    done,
                    so_far,
                    #[trigger] fold.visit(ample, candidate, unknown),
                )
        } else {
            false
        };
        proof {
            visits = past.push(unknown);
            assert(visits.drop_last() =~= past);
            if good {
                room_matters(fold, ample, common.room, candidate, unknown);
                assert((Common { room: common.room, ..ample }) == common);
            }
        }
        let found = match done {
            Ok(found) => found,
            Err(error) => {
                proof {
                    if good {
                        assert(generated::<C>(
                            Err(DriveError::Driver(error)),
                            candidates,
                            table.candidates(),
                            visits.len() == candidates.len(),
                            generation(first, common, candidates, visits),
                        ));
                    }
                }
                return Err(DriveError::Driver(error));
            },
        };
        if let Some((taken, fallthrough)) = found {
            let appended = match table.append_next(next_len, taken) {
                Ok(len) => if fallthrough != taken {
                    table.append_next(len, fallthrough)
                } else {
                    Ok(len)
                },
                Err(error) => Err(error),
            };
            match appended {
                Ok(len) => {
                    next_len = len;
                },
                Err(error) => {
                    proof {
                        if good {
                            assert(generated::<C>(
                                Err(DriveError::Table(error)),
                                candidates,
                                table.candidates(),
                                visits.len() == candidates.len(),
                                generation(first, common, candidates, visits),
                            ));
                        }
                    }
                    return Err(DriveError::Table(error));
                },
            }
        }
        i = i + 1;
    }
    let _ = table.finish_next(next_len);
    let ghost end = generation(first, common, candidates, visits);
    let r = match driver.accumulated {
        Some(accumulated) => Ok(
            (accumulated, driver.next_virtual_ip, driver.done, driver.exited),
        ),
        None => Err(DriveError::Driver(Aarch64DriveError::NoSurvivingCandidates)),
    };
    proof {
        if good {
            assert(generated::<C>(r, candidates, table.candidates(), true, end));
        }
    }
    r
}

/// Execute one AArch64 loop generation.
///
/// The caller owns the candidate table. A prior `done` wire is carried into
/// the generation and joined with exits from active candidate bodies.
pub fn step<C, W>(
    context: &mut C,
    table: &mut CandidateTable<'_, u64>,
    previous: Aarch64Step<W>,
    memory: RawMemory<'_>,
    zero: &W,
    one: &W,
) -> (r: Result<Aarch64Step<W>, DriveError<Aarch64DriveError<C::Error>>>) where
    C: ContextWithErtOps<bool, Wrapped = W> + ?Sized,
    W: WireValue + Clone,

    requires
        old(table).wf(),
    ensures
        final(table).wf(),
        final(table).capacity() == old(table).capacity(),
        crate::word::constants::<C>(*zero, *one) && crate::a64::body::honest::<C>()
            && crate::a64::state::agreeing::<C>(previous.snapshot.state) ==> exists|
            visits: Seq<bool>,
        |
            visits.len() <= old(table).candidates().len() && plausible::<W>(visits)
                && stepped::<C>(
                r,
                previous,
                old(table).candidates(),
                final(table).candidates(),
                visits.len() == old(table).candidates().len(),
                #[trigger] generation(
                    opening(crate::context::bits::<C>(previous.virtual_ip@)),
                    Common {
                        base: crate::a64::state::meaning::<C>(previous.snapshot.state),
                        ip: crate::context::bits::<C>(previous.virtual_ip@),
                        mem: memory,
                        room: old(table).room(),
                    },
                    old(table).candidates(),
                    visits,
                ),
            ),
{
    let ghost given = table.candidates();
    let ghost room = table.room();
    let ghost first = opening(crate::context::bits::<C>(previous.virtual_ip@));
    let ghost common = Common {
        base: crate::a64::state::meaning::<C>(previous.snapshot.state),
        ip: crate::context::bits::<C>(previous.virtual_ip@),
        mem: memory,
        room,
    };
    let ghost good = crate::word::constants::<C>(*zero, *one) && crate::a64::body::honest::<C>()
        && crate::a64::state::agreeing::<C>(previous.snapshot.state);
    let ran = run_generation(
        context,
        table,
        &previous.snapshot,
        &previous.virtual_ip,
        memory,
        zero,
        one,
    );
    let ghost visits = choose|visits: Seq<bool>|
        visits.len() <= given.len() && plausible::<W>(visits) && generated::<C>(
            ran,
            given,
            table.candidates(),
            visits.len() == given.len(),
            #[trigger] generation(first, common, given, visits),
        );
    let ghost end = generation(first, common, given, visits);
    let (snapshot, virtual_ip, generation_done, exited) = match ran {
        Ok(parts) => parts,
        Err(error) => {
            proof {
                if good {
                    assert(stepped::<C>(
                        Err(error),
                        previous,
                        given,
                        table.candidates(),
                        visits.len() == given.len(),
                        end,
                    ));
                }
            }
            return Err(error);
        },
    };
    match predicated_value(context, keep::<C>(&previous.done), keep::<C>(one), generation_done) {
        Ok(done) => {
            let step = Aarch64Step {
                snapshot,
                virtual_ip,
                done,
                exited: exited || previous.exited,
            };
            proof {
                if good {
                    assert(stepped::<C>(
                        Ok(step),
                        previous,
                        given,
                        table.candidates(),
                        visits.len() == given.len(),
                        end,
                    ));
                }
            }
            Ok(step)
        },
        Err(error) => {
            proof {
                if good {
                    assert(stepped::<C>(
                        Err(DriveError::Driver(Aarch64DriveError::Context(error))),
                        previous,
                        given,
                        table.candidates(),
                        visits.len() == given.len(),
                        end,
                    ));
                }
            }
            Err(DriveError::Driver(Aarch64DriveError::Context(error)))
        },
    }
}

/// What a step hands to the next.
pub open spec fn stepped<C: ContextWithErtOps<bool> + ?Sized>(
    r: Result<Aarch64Step<C::Wrapped>, DriveError<Aarch64DriveError<C::Error>>>,
    previous: Aarch64Step<C::Wrapped>,
    before: Seq<u64>,
    after: Seq<u64>,
    complete: bool,
    end: Generation,
) -> bool where C::Wrapped: WireValue + Clone {
    match r {
        Ok(step) => {
            &&& crate::a64::state::agreeing::<C>(step.snapshot.state)
            &&& complete
            &&& end matches Generation::Going(fold) && {
                &&& fold.state == Some(
                    (crate::a64::state::meaning::<C>(step.snapshot.state), step.snapshot.pc),
                )
                &&& fold.next_ip == crate::context::bits::<C>(step.virtual_ip@)
                &&& crate::context::bit::<C>(step.done) == (crate::context::bit::<C>(previous.done)
                    || fold.done)
                &&& step.exited == (fold.exited || previous.exited)
                &&& fold.successors == after
            }
        },
        Err(DriveError::Driver(Aarch64DriveError::NoSurvivingCandidates)) => {
            &&& complete
            &&& end matches Generation::Going(fold) && fold.state is None && fold.successors
                == after
        },
        Err(DriveError::Driver(Aarch64DriveError::Context(_))) => !crate::context::reliable::<C>(),
        Err(DriveError::Driver(e)) => after == before && failed::<C>(e, end),
        Err(DriveError::Table(e)) => after == before && e == TableError::Capacity && end is Full,
    }
}

/// The wires of a generation are those of the body at the virtual instruction
/// pointer: the state it leaves, where it goes next, or that it exited.
pub proof fn active_body_decides(
    start: Fold,
    common: Common<'_>,
    candidates: Seq<u64>,
    visits: Seq<bool>,
    k: int,
)
    requires
        0 <= k < visits.len() <= candidates.len(),
        candidates.no_duplicates(),
        common.ip == crate::a64::state::dword(candidates[k]),
        generation(start, common, candidates, visits) is Going,
    ensures
        ({
            let fold = generation(start, common, candidates, visits)->Going_0;
            match end_of(common.base, candidates[k], common.mem, visits[k]) {
                End::On { core, next, taken: _, fallthrough: _ } => {
                    &&& fold.state matches Some(held) && held.0.regs == core.regs && held.0.sp_word
                        == core.sp_word && held.0.nzcv == core.nzcv
                    &&& fold.next_ip == crate::a64::state::dword(next)
                    &&& fold.done == start.done
                },
                End::Exit => fold.done && fold.next_ip == start.next_ip,
                _ => false,
            }
        }),
    decreases visits.len(),
{
    let front = visits.drop_last();
    let last = visits.len() - 1;
    assert(generation(start, common, candidates, front) is Going);
    if k == last {
        assert forall|i: int| 0 <= i < front.len() implies common.ip != crate::a64::state::dword(
            #[trigger] candidates[i],
        ) by {
            if crate::a64::state::dword(candidates[k]) == crate::a64::state::dword(candidates[i]) {
                crate::wide::spelled_injective(candidates[k], candidates[i]);
            }
        }
        inactive_bodies_change_nothing(start, common, candidates, front);
    } else {
        active_body_decides(start, common, candidates, front, k);
        assert(candidates[k] != candidates[last]);
        if crate::a64::state::dword(candidates[k]) == crate::a64::state::dword(candidates[last]) {
            crate::wide::spelled_injective(candidates[k], candidates[last]);
        }
    }
}

/// A generation none of whose candidates the virtual instruction pointer
/// names leaves that pointer and the done wire as they were.
pub proof fn inactive_bodies_change_nothing(
    start: Fold,
    common: Common<'_>,
    candidates: Seq<u64>,
    visits: Seq<bool>,
)
    requires
        visits.len() <= candidates.len(),
        forall|i: int|
            0 <= i < visits.len() ==> common.ip != crate::a64::state::dword(
                #[trigger] candidates[i],
            ),
        generation(start, common, candidates, visits) is Going,
    ensures
        ({
            let fold = generation(start, common, candidates, visits)->Going_0;
            &&& fold.next_ip == start.next_ip
            &&& fold.done == start.done
        }),
    decreases visits.len(),
{
    if visits.len() > 0 {
        inactive_bodies_change_nothing(start, common, candidates, visits.drop_last());
        assert(common.ip != crate::a64::state::dword(candidates[visits.len() - 1]));
    }
}

} // verus!
