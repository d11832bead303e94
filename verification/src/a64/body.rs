//! Loop bodies: execution up to a branch or the exit.
use crate::a64::decode::{compare_branch_offset, extract, recognize, test_branch_offset, DecodeError};
use crate::a64::state::{
    compare_condition, step_recognized, Core, Effect, Flow, State,
};
use crate::context::{keep, ContextWithValue};
use crate::memory::{word_from_bytes, RawMemory};
use crate::word::{known_word, select_word, ContextWithErtOps};
use vstd::prelude::*;

verus! {

/// A Boolean wire that may carry a host-known concrete value.
pub trait WireValue: Sized {
    /// What the host knows of the wire.
    spec fn known(self) -> Option<bool>;

    /// Return the host-known Boolean value, if this wire is concrete.
    fn concrete(self) -> (r: Option<bool>)
        ensures
            r == self.known(),
    ;
}

impl WireValue for bool {
    open spec fn known(self) -> Option<bool> {
        Some(self)
    }

    fn concrete(self) -> (r: Option<bool>) {
        Some(self)
    }
}

/// What the host knows of a wire is what the wire means, and a clone is known
/// alike.
pub open spec fn honest<C: ContextWithValue<bool> + ?Sized>() -> bool where
    C::Wrapped: WireValue + Clone,
 {
    &&& forall|w: C::Wrapped|
        (#[trigger] w.known()) matches Some(b) ==> crate::context::bit::<C>(w) == b
    &&& forall|w: C::Wrapped, v: C::Wrapped| #[trigger] cloned(w, v) ==> v.known() == w.known()
}

/// Every wire is known.
pub open spec fn transparent<W: WireValue>() -> bool {
    forall|w: W| (#[trigger] w.known()) is Some
}

/// The number of a word all of whose wires are known.
fn concrete_next<C, W>(word: &[W; 64]) -> (r: Option<u64>) where
    C: ContextWithValue<bool, Wrapped = W> + ?Sized,
    W: WireValue + Clone,

    ensures
        honest::<C>() ==> (r is Some <==> forall|j: int|
            0 <= j < 64 ==> (#[trigger] word@[j]).known() is Some),
        honest::<C>() ==> (r matches Some(v) ==> crate::context::bits::<C>(word@)
            == crate::a64::state::dword(v)),
{
    let ghost all = crate::context::bits::<C>(word@);
    let mut value: u64 = 0;
    let mut weight: u64 = 1;
    let mut bit: usize = 0;
    proof {
        vstd::arithmetic::power2::lemma2_to64();
        assert(all.take(0) =~= Seq::<bool>::empty());
    }
    while bit < 64
        invariant
            bit <= 64,
            all == crate::context::bits::<C>(word@),
            bit < 64 ==> weight == vstd::arithmetic::power2::pow2(bit as nat),
            honest::<C>() ==> {
                &&& value == crate::bits::num(all.take(bit as int))
                &&& forall|j: int| 0 <= j < bit ==> (#[trigger] word@[j]).known() is Some
            },
            value < vstd::arithmetic::power2::pow2(bit as nat),
        decreases 64 - bit,
    {
        proof {
            vstd::arithmetic::power2::lemma2_to64();
            vstd::arithmetic::power2::lemma_pow2_unfold((bit + 1) as nat);
            if bit < 63 {
                vstd::arithmetic::power2::lemma_pow2_strictly_increases((bit + 1) as nat, 64);
            }
            crate::bits::num_step(all, bit as int);
        }
        let kept = word[bit].clone();
        match kept.concrete() {
            Some(set) => {
                proof {
                    if honest::<C>() {
                        assert(cloned(word@[bit as int], kept));
                        assert(all[bit as int] == crate::context::bit::<C>(word@[bit as int]));
                    }
                }
                if set {
                    value = value + weight;
                }
            },
            None => {
                assert(cloned(word@[bit as int], kept));
                return None;
            },
        }
        if bit < 63 {
            weight = weight * 2;
        }
        bit = bit + 1;
    }
    proof {
        if honest::<C>() {
            assert(all.take(64) =~= all);
            crate::bits::bits_of_num(all);
        }
    }
    Some(value)
}

/// The instruction word at an address.
pub open spec fn fetched(mem: RawMemory<'_>, pc: u64) -> Option<u32> {
    match mem.reads64(pc, 4) {
        Some(bytes) => Some(crate::memory::le_num(bytes) as u32),
        None => None,
    }
}

/// Fetch the instruction word at an address. One at the very end of the
/// address space cannot be mapped.
pub fn fetch(mem: &RawMemory<'_>, pc: u64) -> (r: Option<u32>)
    ensures
        r == fetched(*mem, pc),
        r is Some ==> pc < 0xffff_ffff_ffff_fffc,
{
    let len: usize = mem.bytes.len();
    match mem.read64::<4>(pc) {
        Some(bytes) => Some(word_from_bytes(bytes)),
        None => None,
    }
}

/// Where a body comes to.
pub enum Body {
    /// A `CBZ`, `CBNZ`, `TBZ` or `TBNZ`, in this state, not executed.
    Branch { core: Core, pc: u64, raw: u32 },
    /// The target of a `B` or `BL`, in this state.
    Jump { core: Core, next: u64 },
    /// The exit, in this state.
    Exit { core: Core },
    /// An address where nothing is mapped.
    Memory(u64),
    /// A word that is not executed.
    Decode(DecodeError),
}

/// The body that starts at `pc`: straight-line instructions up to the first
/// that is none.
#[verifier::opaque]
pub open spec fn body(core: Core, pc: u64, mem: RawMemory<'_>) -> Body
    decreases u64::MAX - pc,
{
    match fetched(mem, pc) {
        None => Body::Memory(pc),
        Some(raw) => if crate::a64::state::conditional(raw) {
            Body::Branch { core, pc, raw }
        } else {
            match core.step(pc, raw, crate::a64::decode::recognized(raw)) {
                Effect::Error(e) => Body::Decode(e),
                Effect::Exit { core } => Body::Exit { core },
                Effect::Next { core, next } => if crate::a64::state::jumps(raw) {
                    Body::Jump { core, next }
                } else if next > pc {
                    body(core, next, mem)
                } else {
                    Body::Memory(next)
                },
            }
        },
    }
}

/// Where a branch leads: the next address, and the two addresses that are
/// taken for its successors.
pub enum Crossing {
    At { next: u64, taken: u64, fallthrough: u64 },
    Error(DecodeError),
}

/// The byte offset in a conditional branch.
pub open spec fn offset_of(raw: u32) -> int {
    if crate::a64::state::compares(raw) {
        4 * crate::a64::decode::signed_field(raw, 5, 19)
    } else {
        4 * crate::a64::decode::signed_field(raw, 5, 14)
    }
}

/// Whether the condition of a conditional branch holds.
pub open spec fn condition_holds(core: Core, raw: u32) -> bool {
    let register = crate::a64::decode::field(raw, 0, 5) as u8;
    let nonzero = crate::a64::decode::field(raw, 24, 1) == 1;
    if crate::a64::state::compares(raw) {
        (crate::bits::num(
            crate::a64::state::narrowed(
                core.read(register),
                crate::a64::decode::field(raw, 31, 1) == 1,
            ),
        ) != 0) == nonzero
    } else {
        core.read(register)[crate::a64::state::test_position(raw)] == nonzero
    }
}

/// A conditional branch on wires selects between its target and the next
/// instruction. One that the host can resolve is executed first, and the
/// successors lie behind where it went.
pub open spec fn crossing(core: Core, pc: u64, raw: u32, symbolic: bool) -> Crossing {
    if symbolic {
        let taken = crate::a64::decode::at_distance(pc, offset_of(raw));
        let fallthrough = pc.wrapping_add(4);
        Crossing::At {
            next: if condition_holds(core, raw) {
                taken
            } else {
                fallthrough
            },
            taken,
            fallthrough,
        }
    } else {
        match core.step(pc, raw, crate::a64::decode::recognized(raw)) {
            Effect::Next { core: _, next } => Crossing::At {
                next,
                taken: crate::a64::decode::at_distance(next, offset_of(raw)),
                fallthrough: next.wrapping_add(4),
            },
            Effect::Exit { core: _ } => Crossing::Error(DecodeError::Unsupported(raw)),
            Effect::Error(e) => Crossing::Error(e),
        }
    }
}

/// Whether a conditional branch depends on a wire that the host does not
/// know.
pub open spec fn on_wires<W: WireValue>(s: State<W>, raw: u32) -> bool {
    let register = crate::a64::decode::field(raw, 0, 5) as int;
    if register == 31 {
        false
    } else if crate::a64::state::compares(raw) {
        s.constants@[register] is None
    } else {
        s.regs@[register]@[crate::a64::state::test_position(raw)].known() is None
    }
}

/// The boundary reached by an A64 candidate body.
#[derive(Clone)]
pub enum Aarch64Boundary<W> {
    /// The body stopped at a symbolic next-PC word.
    SymbolicBranch {
        /// Symbolic selected next-PC word.
        next: [W; 64],
        /// Concrete taken target.
        taken: u64,
        /// Concrete fallthrough target.
        fallthrough: u64,
    },
    /// The body reached the declared SVC exit.
    Exit,
}

/// A fold failed, either because a context gate failed or concrete A64 state
/// diverged across candidates.
#[derive(Clone, Copy, Debug, Eq, PartialEq)]
pub enum Aarch64FoldError<E> {
    /// The Boolean context rejected a folding gate.
    Context(E),
    /// Concrete SP diverged between live candidate bodies.
    ConcreteStateDivergence,
}

/// A candidate body could not execute or fold under A64 loop rules.
#[derive(Clone, Copy, Debug, Eq, PartialEq)]
pub enum Aarch64DriveError<E> {
    /// Instruction decode/execution failed.
    Decode(DecodeError),
    /// The candidate instruction was unmapped.
    Memory(u64),
    /// The facade produced a symbolic next-PC outside a higher-level dispatch
    /// mechanism; the adapter is concrete-control only.
    SymbolicNextPc,
    /// A Boolean folding/dispatch gate failed.
    Context(E),
    /// Folding candidate state failed.
    Fold(Aarch64FoldError<E>),
    /// Every candidate in the generation exited; there is no live state to fold.
    NoSurvivingCandidates,
}

/// A boundary leads where a crossing does.
pub open spec fn leads<C: ContextWithErtOps<bool> + ?Sized>(
    next: [C::Wrapped; 64],
    taken: u64,
    fallthrough: u64,
    c: Crossing,
) -> bool {
    c matches Crossing::At { next: n, taken: t, fallthrough: f } && taken == t && fallthrough == f
        && crate::context::bits::<C>(next@) == crate::a64::state::dword(n)
}

/// What a body did is what its instructions lead to.
pub open spec fn body_did<C: ContextWithErtOps<bool> + ?Sized>(
    after: State<C::Wrapped>,
    r: Result<Aarch64Boundary<C::Wrapped>, Aarch64DriveError<C::Error>>,
    expected: Body,
) -> bool where C::Wrapped: WireValue + Clone {
    match r {
        Ok(Aarch64Boundary::SymbolicBranch { next, taken, fallthrough }) => {
            &&& crate::a64::state::agreeing::<C>(after)
            &&& match expected {
                Body::Branch { core, pc, raw } => core == crate::a64::state::meaning::<C>(after)
                    && leads::<C>(
                    next,
                    taken,
                    fallthrough,
                    crossing(core, pc, raw, on_wires(after, raw)),
                ),
                Body::Jump { core, next: n } => core == crate::a64::state::meaning::<C>(after)
                    && leads::<C>(
                    next,
                    taken,
                    fallthrough,
                    Crossing::At { next: n, taken: n, fallthrough: n },
                ),
                _ => false,
            }
        },
        Ok(Aarch64Boundary::Exit) => {
            &&& crate::a64::state::agreeing::<C>(after)
            &&& expected == (Body::Exit { core: crate::a64::state::meaning::<C>(after) })
        },
        Err(Aarch64DriveError::Decode(e)) => {
            ||| expected == Body::Decode(e)
            ||| expected matches Body::Branch { core, pc, raw } && crossing(core, pc, raw, false)
                == Crossing::Error(e) && !on_wires(after, raw) && core
                == crate::a64::state::meaning::<C>(after)
            ||| e is Unsupported && !crate::context::reliable::<C>()
        },
        Err(Aarch64DriveError::Memory(at)) => expected == Body::Memory(at),
        Err(Aarch64DriveError::SymbolicNextPc) => !transparent::<C::Wrapped>(),
        Err(Aarch64DriveError::Context(_)) => !crate::context::reliable::<C>(),
        Err(_) => false,
    }
}

/// A symbolic conditional branch: its condition on wires, and the select of
/// the next address. Anything that the host can resolve gives nothing.
fn symbolic_branch_boundary<C, W>(
    context: &mut C,
    state: &State<W>,
    pc: u64,
    raw: u32,
    zero: &W,
    one: &W,
) -> (r: Result<Option<Aarch64Boundary<W>>, C::Error>) where
    C: ContextWithErtOps<bool, Wrapped = W> + ?Sized,
    W: WireValue + Clone,

    ensures
        honest::<C>() ==> (r matches Ok(found) ==> (found is Some) == (
        crate::a64::state::conditional(raw) && on_wires(*state, raw))),
        crate::word::constants::<C>(*zero, *one) && honest::<C>() ==> (r matches Ok(
            Some(boundary),
        ) ==> (boundary matches Aarch64Boundary::SymbolicBranch { next, taken, fallthrough }
            && leads::<C>(
            next,
            taken,
            fallthrough,
            crossing(crate::a64::state::meaning::<C>(*state), pc, raw, true),
        ))),
        crate::context::reliable::<C>() ==> r is Ok,
        r matches Err(error) ==> crate::context::erred::<C>(error),
{
    proof {
        vstd::arithmetic::power2::lemma2_to64();
    }
    let compares = raw & 0x7e00_0000 == 0x3400_0000;
    if !compares && raw & 0x7e00_0000 != 0x3600_0000 {
        return Ok(None);
    }
    let fallthrough: u64 = pc.wrapping_add(4);
    let register: u32 = extract(raw, 0, 5);
    let nonzero = extract(raw, 24, 1) == 1;
    if register == 31 {
        return Ok(None);
    }
    let (condition, taken) = if compares {
        if state.constants[register as usize].is_some() {
            return Ok(None);
        }
        let width64 = extract(raw, 31, 1) == 1;
        let condition = compare_condition(
            context,
            state,
            register as u8,
            nonzero,
            width64,
            zero,
            one,
        )?;
        (condition, pc.wrapping_add_signed(compare_branch_offset(raw)))
    } else {
        let bit: usize = (extract(raw, 31, 1) * 32 + extract(raw, 19, 5)) as usize;
        let tested = keep::<C>(&state.regs[register as usize][bit]);
        let asked = state.regs[register as usize][bit].clone();
        proof {
            assert(cloned(state.regs@[register as int]@[bit as int], asked));
        }
        if asked.concrete().is_some() {
            return Ok(None);
        }
        proof {
            let word = crate::a64::state::meaning::<C>(*state).regs[register as int];
            assert(word[bit as int] == crate::context::bit::<C>(
                state.regs@[register as int]@[bit as int],
            ));
        }
        let condition = if nonzero {
            tested
        } else {
            context.bitxor(tested, keep::<C>(one))?
        };
        (condition, pc.wrapping_add_signed(test_branch_offset(raw)))
    };
    let taken_word = known_word::<C, 64>(zero, one, taken);
    let fallthrough_word = known_word::<C, 64>(zero, one, fallthrough);
    let next = select_word(context, condition, &taken_word, &fallthrough_word)?;
    Ok(Some(Aarch64Boundary::SymbolicBranch { next, taken, fallthrough }))
}

/// What one instruction of a body led to.
enum Progress<W> {
    /// The boundary.
    Boundary(Aarch64Boundary<W>),
    /// The next instruction of the body.
    Next(u64),
}

/// A conditional branch that the host resolved, or a jump, where `next` is
/// its target.
fn resolved_boundary<W>(raw: u32, word: [W; 64], next: u64) -> (r: Result<
    Aarch64Boundary<W>,
    [W; 64],
>)
    ensures
        match r {
            Ok(Aarch64Boundary::SymbolicBranch { next: w, taken, fallthrough }) => {
                &&& w == word
                &&& crate::a64::state::conditional(raw) || crate::a64::state::jumps(raw)
                &&& taken == if crate::a64::state::conditional(raw) {
                    crate::a64::decode::at_distance(next, offset_of(raw))
                } else {
                    next
                }
                &&& fallthrough == if crate::a64::state::conditional(raw) {
                    next.wrapping_add(4)
                } else {
                    next
                }
            },
            Ok(Aarch64Boundary::Exit) => false,
            Err(w) => w == word && !crate::a64::state::conditional(raw)
                && !crate::a64::state::jumps(raw),
        },
{
    if raw & 0x7e00_0000 == 0x3600_0000 {
        assert(!crate::a64::state::compares(raw));
        return Ok(
            Aarch64Boundary::SymbolicBranch {
                next: word,
                taken: next.wrapping_add_signed(test_branch_offset(raw)),
                fallthrough: next.wrapping_add(4),
            },
        );
    }
    if raw & 0x7e00_0000 == 0x3400_0000 {
        return Ok(
            Aarch64Boundary::SymbolicBranch {
                next: word,
                taken: next.wrapping_add_signed(compare_branch_offset(raw)),
                fallthrough: next.wrapping_add(4),
            },
        );
    }
    if raw & 0x7c00_0000 == 0x1400_0000 {
        return Ok(Aarch64Boundary::SymbolicBranch { next: word, taken: next, fallthrough: next });
    }
    Err(word)
}

/// Execute one instruction of a body that is not a branch on wires.
fn resolve<C, W>(
    context: &mut C,
    state: &mut State<W>,
    pc: u64,
    raw: u32,
    memory: RawMemory<'_>,
    zero: &W,
    one: &W,
) -> (r: Result<Progress<W>, Aarch64DriveError<C::Error>>) where
    C: ContextWithErtOps<bool, Wrapped = W> + ?Sized,
    W: WireValue + Clone,

    requires
        fetched(memory, pc) == Some(raw),
    ensures
        crate::word::constants::<C>(*zero, *one) && honest::<C>()
            && crate::a64::state::agreeing::<C>(*old(state)) && !(crate::a64::state::conditional(raw)
            && on_wires(*old(state), raw)) ==> progressed::<C>(
            *final(state),
            r,
            pc,
            memory,
            body(crate::a64::state::meaning::<C>(*old(state)), pc, memory),
        ),
        r matches Ok(Progress::Next(n)) ==> n > pc,
{
    let ghost good = crate::word::constants::<C>(*zero, *one) && honest::<C>()
        && crate::a64::state::agreeing::<C>(*state) && !(crate::a64::state::conditional(raw)
        && on_wires(*state, raw));
    let ghost before = crate::a64::state::meaning::<C>(*state);
    proof {
        reveal(body);
    }
    let recognized = recognize(raw);
    let ghost effect = before.step(pc, raw, recognized);
    let flow = match step_recognized(context, state, pc, raw, recognized, zero, one) {
        Ok(flow) => flow,
        Err(error) => {
            proof {
                if good {
                    state_kept(before, pc, raw, recognized);
                }
            }
            return Err(Aarch64DriveError::Decode(error));
        },
    };
    let word = match flow {
        Flow::Next(word) => word,
        Flow::Exit => {
            proof {
                if good {
                    state_kept(before, pc, raw, recognized);
                }
            }
            return Ok(Progress::Boundary(Aarch64Boundary::Exit));
        },
    };
    let next: u64 = match concrete_next::<C, W>(&word) {
        Some(next) => next,
        None => return Err(Aarch64DriveError::SymbolicNextPc),
    };
    proof {
        if good {
            match effect {
                Effect::Next { core: _, next: n } => {
                    crate::wide::spelled_injective(n, next);
                    state_kept(before, pc, raw, recognized);
                },
                _ => {},
            }
        }
    }
    match resolved_boundary(raw, word, next) {
        Ok(boundary) => Ok(Progress::Boundary(boundary)),
        Err(_) => if next > pc {
            Ok(Progress::Next(next))
        } else {
            Err(Aarch64DriveError::Memory(next))
        },
    }
}

/// A conditional branch changes no state and does not exit.
proof fn state_kept(core: Core, pc: u64, raw: u32, recognized: bool)
    ensures
        crate::a64::state::conditional(raw) ==> match core.step(pc, raw, recognized) {
            Effect::Next { core: c, next: _ } => c == core,
            Effect::Exit { core: _ } => false,
            Effect::Error(_) => true,
        },
{
    crate::a64::state::conditional_forms(pc, raw, recognized);
}

/// What one instruction of a body did.
spec fn progressed<C: ContextWithErtOps<bool> + ?Sized>(
    after: State<C::Wrapped>,
    r: Result<Progress<C::Wrapped>, Aarch64DriveError<C::Error>>,
    pc: u64,
    memory: RawMemory<'_>,
    expected: Body,
) -> bool where C::Wrapped: WireValue + Clone {
    match r {
        Ok(Progress::Boundary(boundary)) => body_did::<C>(after, Ok(boundary), expected),
        Ok(Progress::Next(n)) => crate::a64::state::agreeing::<C>(after) && expected == body(
            crate::a64::state::meaning::<C>(after),
            n,
            memory,
        ),
        Err(error) => body_did::<C>(after, Err(error), expected),
    }
}

/// Execute a straight-line A64 candidate body until a branch or exit.
///
/// Ordinary flow advances to a concrete next PC, while a branch stops the
/// body. The boundary reports concrete taken and fallthrough targets in stable
/// order.
pub fn execute_body<C, W>(
    context: &mut C,
    state: &mut State<W>,
    entry: u64,
    memory: RawMemory<'_>,
    zero: &W,
    one: &W,
) -> (r: Result<Aarch64Boundary<W>, Aarch64DriveError<C::Error>>) where
    C: ContextWithErtOps<bool, Wrapped = W> + ?Sized,
    W: WireValue + Clone,

    ensures
        crate::word::constants::<C>(*zero, *one) && honest::<C>()
            && crate::a64::state::agreeing::<C>(*old(state)) ==> body_did::<C>(
            *final(state),
            r,
            body(crate::a64::state::meaning::<C>(*old(state)), entry, memory),
        ),
{
    let ghost good = crate::word::constants::<C>(*zero, *one) && honest::<C>()
        && crate::a64::state::agreeing::<C>(*state);
    let ghost whole = body(crate::a64::state::meaning::<C>(*state), entry, memory);
    let mut pc: u64 = entry;
    loop
        invariant
            good == (crate::word::constants::<C>(*zero, *one) && honest::<C>()
                && crate::a64::state::agreeing::<C>(*old(state))),
            whole == body(crate::a64::state::meaning::<C>(*old(state)), entry, memory),
            good ==> {
                &&& crate::a64::state::agreeing::<C>(*state)
                &&& whole == body(crate::a64::state::meaning::<C>(*state), pc, memory)
            },
        decreases u64::MAX - pc,
    {
        proof {
            reveal(body);
        }
        let raw: u32 = match fetch(&memory, pc) {
            Some(raw) => raw,
            None => return Err(Aarch64DriveError::Memory(pc)),
        };
        match symbolic_branch_boundary(context, state, pc, raw, zero, one) {
            Ok(Some(boundary)) => return Ok(boundary),
            Ok(None) => {},
            Err(error) => return Err(Aarch64DriveError::Context(error)),
        }
        match resolve(context, state, pc, raw, memory, zero, one) {
            Ok(Progress::Boundary(boundary)) => return Ok(boundary),
            Ok(Progress::Next(next)) => {
                pc = next;
            },
            Err(error) => return Err(error),
        }
    }
}

} // verus!
