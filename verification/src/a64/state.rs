//! The symbolic A64 state and what one instruction does to it.
use crate::a64::decode::{decode_recognized, recognize, DecodeError, Instruction};
use crate::compare::{nonzero_word, zero_word};
use crate::context::{keep, ContextWithValue};
use crate::word::{
    add_bits, constant_word, fill, invert_word, keep_word, known_word, select_word,
    ContextWithErtOps,
};
use vstd::prelude::*;

verus! {

/// A symbolic A64 state with 31 GPRs and separate SP.
///
/// Encoding register 31 is resolved by each semantic form: it is XZR in the
/// supported control forms and never aliases `sp` here. The concrete metadata
/// is intentionally retained beside every symbolic word for fail-closed
/// branch/address decisions.
#[derive(Clone)]
pub struct State<W> {
    /// `x0` through `x30`; x31 is not representable here.
    pub regs: [[W; 64]; 31],
    /// Known concrete values for `x0` through `x30`.
    pub constants: [Option<u64>; 31],
    /// Architectural stack pointer, where the host knows it, distinct from
    /// x31/XZR.
    pub sp: Option<u64>,
    /// The wires of the stack pointer.
    pub sp_word: [W; 64],
    /// The N, Z, C and V wires.
    pub nzcv: [W; 4],
    /// What the host knows of N, Z, C and V.
    pub nzcv_constants: [Option<bool>; 4],
    /// Symbolic done wire.
    pub done: W,
}

/// A symbolic A64 control-flow result.
#[derive(Clone, Debug, Eq, PartialEq)]
pub enum Flow<W> {
    /// Continue at this next virtual instruction pointer.
    Next([W; 64]),
    /// The bare-metal `SVC #0` exit completed.
    Exit,
}

/// The bits of a 64-bit number.
pub open spec fn dword(v: u64) -> Seq<bool> {
    crate::bits::bits_of(v as nat, 64)
}

/// What a state means.
#[verifier::ext_equal]
pub struct Core {
    /// Thirty-one words of sixty-four bits.
    pub regs: Seq<Seq<bool>>,
    /// Which registers the host knows.
    pub known: Seq<bool>,
    pub sp: Option<u64>,
    pub sp_word: Seq<bool>,
    pub nzcv: Seq<bool>,
    pub nzcv_known: Seq<Option<bool>>,
    pub done: bool,
}

/// The words of a register file.
pub open spec fn words<C: ContextWithValue<bool> + ?Sized>(regs: Seq<[C::Wrapped; 64]>) -> Seq<
    Seq<bool>,
> {
    Seq::new(regs.len(), |i: int| crate::context::bits::<C>(regs[i]@))
}

/// The meaning of a state over the wires of `C`.
pub open spec fn meaning<C: ContextWithValue<bool> + ?Sized>(s: State<C::Wrapped>) -> Core {
    Core {
        regs: words::<C>(s.regs@),
        known: crate::thumb::machine::present(s.constants@),
        sp: s.sp,
        sp_word: crate::context::bits::<C>(s.sp_word@),
        nzcv: crate::context::bits::<C>(s.nzcv@),
        nzcv_known: s.nzcv_constants@,
        done: crate::context::bit::<C>(s.done),
    }
}

/// Every host-known register is what the wires beside it spell.
pub open spec fn agreeing<C: ContextWithValue<bool> + ?Sized>(s: State<C::Wrapped>) -> bool {
    forall|i: int|
        0 <= i < 31 ==> ((#[trigger] s.constants@[i]) matches Some(v) ==> crate::context::bits::<C>(
            s.regs@[i]@,
        ) == dword(v))
}

impl Core {
    pub open spec fn write(self, register: int, word: Seq<bool>, known: bool) -> Core {
        Core {
            regs: self.regs.update(register, word),
            known: self.known.update(register, known),
            ..self
        }
    }
}

/// A word cut to 32 bits and extended with zeros, for the W form.
pub open spec fn narrowed(word: Seq<bool>, width64: bool) -> Seq<bool> {
    if width64 {
        word
    } else {
        Seq::new(64, |i: int| i < 32 && word[i])
    }
}

/// The word that `MOVZ` or `MOVK` leaves.
pub open spec fn moved(
    previous: Seq<bool>,
    immediate: u64,
    shift: u32,
    keep: bool,
    width64: bool,
) -> Seq<bool> {
    narrowed(
        Seq::new(
            64,
            |i: int|
                if shift <= i < shift + 16 {
                    crate::bits::bits_of(immediate as nat, 16)[i - shift]
                } else {
                    keep && previous[i]
                },
        ),
        width64,
    )
}

/// What one instruction does.
pub enum Effect {
    /// It leaves this state and goes on at `next`.
    Next { core: Core, next: u64 },
    /// It exits in this state.
    Exit { core: Core },
    Error(DecodeError),
}

impl Core {
    /// The register that a control form reads, of which 31 is zero.
    pub open spec fn read(self, register: u8) -> Seq<bool> {
        if register == 31 {
            dword(0)
        } else {
            self.regs[register as int]
        }
    }

    /// What an audited form does.
    pub open spec fn perform(self, instruction: Instruction, pc: u64, raw: u32) -> Effect {
        let after = pc.wrapping_add(4);
        match instruction {
            Instruction::Branch { target } => Effect::Next { core: self, next: target },
            Instruction::BranchLink { target } => Effect::Next {
                core: self.write(30, dword(after), true),
                next: target,
            },
            Instruction::CompareBranch { register, nonzero, width64, target } => Effect::Next {
                core: self,
                next: if (crate::bits::num(narrowed(self.read(register), width64)) != 0)
                    == nonzero {
                    target
                } else {
                    after
                },
            },
            Instruction::TestBranch { register, bit, nonzero, target } => Effect::Next {
                core: self,
                next: if self.read(register)[bit as int] == nonzero {
                    target
                } else {
                    after
                },
            },
            Instruction::MoveWide { dest, immediate, shift, keep, width64 } => Effect::Next {
                core: self.write(
                    dest as int,
                    moved(self.regs[dest as int], immediate, shift, keep, width64),
                    !keep || self.known[dest as int],
                ),
                next: after,
            },
            Instruction::AddImmediate { dest, source, immediate, subtract, width64 } => {
                let left = self.regs[source as int];
                let right = dword(immediate);
                let total = if subtract {
                    crate::bits::sub_of(left, right)
                } else {
                    crate::bits::add_of(left, right, false)
                };
                Effect::Next {
                    core: self.write(
                        dest as int,
                        narrowed(total, width64),
                        self.known[source as int],
                    ),
                    next: after,
                }
            },
            Instruction::SupervisorCall => Effect::Exit { core: self },
            // The state has no evaluated NZCV, and a register target is no
            // constant.
            Instruction::ConditionalBranch { condition: _, target: _ } => Effect::Error(
                DecodeError::Unsupported(raw),
            ),
            Instruction::BranchRegister { register: _ } => Effect::Error(
                DecodeError::Unsupported(raw),
            ),
            Instruction::BranchLinkRegister { register: _ } => Effect::Error(
                DecodeError::Unsupported(raw),
            ),
            Instruction::Return => Effect::Error(DecodeError::Unsupported(raw)),
        }
    }

    /// What the word at `pc` does, given whether `disarm64` decodes it. `NOP`
    /// has no decoded form, and no effect.
    pub open spec fn step(self, pc: u64, raw: u32, recognized: bool) -> Effect {
        if raw == NOP && pc % 4 == 0 && recognized {
            Effect::Next { core: self, next: pc.wrapping_add(4) }
        } else {
            match crate::a64::decode::decoded(pc, raw, recognized) {
                Ok(instruction) => self.perform(instruction, pc, raw),
                Err(e) => Effect::Error(e),
            }
        }
    }
}

/// `CBZ` and `CBNZ`.
pub open spec fn compares(raw: u32) -> bool {
    crate::a64::decode::fits(raw, 0x7e00_0000, 0x3400_0000)
}

/// `TBZ` and `TBNZ`.
pub open spec fn tests(raw: u32) -> bool {
    crate::a64::decode::fits(raw, 0x7e00_0000, 0x3600_0000)
}

/// `B` and `BL`.
pub open spec fn jumps(raw: u32) -> bool {
    crate::a64::decode::fits(raw, 0x7c00_0000, 0x1400_0000)
}

/// The forms whose next address is computed on wires.
pub open spec fn conditional(raw: u32) -> bool {
    compares(raw) || tests(raw)
}

/// `NOP`.
pub const NOP: u32 = 0xd503_201f;

/// Registers that an encoding can name.
pub open spec fn instruction_ok(i: Instruction) -> bool {
    match i {
        Instruction::CompareBranch { register, .. } => register < 32,
        Instruction::TestBranch { register, bit, .. } => register < 32 && bit < 64,
        Instruction::MoveWide { dest, immediate, shift, width64: _, keep: _ } => dest < 31 && immediate
            < 0x1_0000 && (shift == 0 || shift == 16 || shift == 32 || shift == 48),
        Instruction::AddImmediate { dest, source, .. } => dest < 31 && source < 31,
        _ => true,
    }
}

/// Every decoded form names registers that exist.
pub proof fn decoded_is_ok(pc: u64, raw: u32, recognized: bool)
    ensures
        crate::a64::decode::decoded(pc, raw, recognized) matches Ok(i) ==> instruction_ok(i),
{
    vstd::arithmetic::power2::lemma2_to64();
}

/// The masks of the conditional branches meet no other form.
pub proof fn conditional_forms(pc: u64, raw: u32, recognized: bool)
    ensures
        conditional(raw) ==> raw != NOP && match crate::a64::decode::decoded(pc, raw, recognized) {
            Ok(Instruction::CompareBranch { .. }) => true,
            Ok(Instruction::TestBranch { .. }) => true,
            Ok(_) => false,
            Err(_) => true,
        },
{
    assert(raw & 0x7e00_0000 == 0x3400_0000 || raw & 0x7e00_0000 == 0x3600_0000 ==> raw
        != 0xd503_201f && raw & 0x7f80_0000 != 0x5280_0000 && raw & 0x7f80_0000 != 0x7280_0000 && raw
        & 0x1f00_0000 != 0x1100_0000 && raw & 0x7c00_0000 != 0x1400_0000 && raw & 0xff00_0010
        != 0x5400_0000) by (bit_vector);
}

/// Construct the initial state with all GPRs and done set to `zero`.
pub fn initial_state<W: Clone>(zero: W) -> (r: State<W>)
    ensures
        r.sp == Some(0u64),
        forall|i: int| 0 <= i < 31 ==> (#[trigger] r.constants@[i]) is None,
        forall|i: int| 0 <= i < 4 ==> (#[trigger] r.nzcv_constants@[i]) is None,
        r.done == zero,
        forall|i: int, j: int|
            0 <= i < 31 && 0 <= j < 64 ==> cloned(zero, #[trigger] r.regs@[i]@[j]),
        forall|j: int| 0 <= j < 64 ==> cloned(zero, #[trigger] r.sp_word@[j]),
        forall|j: int| 0 <= j < 4 ==> cloned(zero, #[trigger] r.nzcv@[j]),
{
    let mut regs = fill::<[W; 64], 31>(&fill::<W, 64>(&zero));
    let mut i: usize = 0;
    while i < 31
        invariant
            i <= 31,
            forall|k: int, j: int|
                0 <= k < i && 0 <= j < 64 ==> cloned(zero, #[trigger] regs@[k]@[j]),
        decreases 31 - i,
    {
        regs[i] = fill::<W, 64>(&zero);
        i = i + 1;
    }
    State {
        regs,
        constants: [None; 31],
        sp: Some(0),
        sp_word: fill::<W, 64>(&zero),
        nzcv: fill::<W, 4>(&zero),
        nzcv_constants: [None; 4],
        done: zero,
    }
}

/// The initial state means zero everywhere.
pub proof fn initial_core<C: ContextWithValue<bool> + ?Sized>(
    zero: C::Wrapped,
    s: State<C::Wrapped>,
) where C::Wrapped: Clone
    requires
        crate::context::sound::<C>(),
        !crate::context::bit::<C>(zero),
        forall|i: int, j: int|
            0 <= i < 31 && 0 <= j < 64 ==> cloned(zero, #[trigger] s.regs@[i]@[j]),
    ensures
        forall|i: int| 0 <= i < 31 ==> meaning::<C>(s).regs[i] == dword(0),
{
    crate::wide::zero_bits(64);
    assert forall|i: int| 0 <= i < 31 implies meaning::<C>(s).regs[i] == dword(0) by {
        assert forall|j: int| 0 <= j < 64 implies meaning::<C>(s).regs[i][j] == dword(0)[j] by {
            assert(cloned(zero, s.regs@[i]@[j]));
        }
        assert(meaning::<C>(s).regs[i] =~= dword(0));
    }
}

/// A state in which a program starts: the stack pointer at `stack`, sixteen-byte
/// aligned, and up to eight arguments in `x0` on. An argument whose value the
/// host does not know is left to the caller to fill in.
pub fn initial_state_with_arguments<W: Clone>(
    zero: W,
    one: &W,
    stack: u64,
    arguments: &[Option<u64>],
) -> (r: Result<State<W>, DecodeError>)
    ensures
        r is Err <==> stack % 16 != 0 || arguments@.len() > 8,
        r matches Err(e) ==> e == DecodeError::Malformed(0),
        r matches Ok(s) ==> {
            &&& s.sp == Some(stack)
            &&& forall|i: int|
                0 <= i < 31 ==> (#[trigger] s.constants@[i]) == if i < arguments@.len() {
                    arguments@[i]
                } else {
                    None
                }
            &&& forall|i: int| 0 <= i < 4 ==> (#[trigger] s.nzcv_constants@[i]) is None
            &&& forall|i: int, j: int|
                0 <= i < 31 && 0 <= j < 64 ==> cloned(
                    if i < arguments@.len() && arguments@[i] is Some && dword(
                        arguments@[i]->0,
                    )[j] {
                        *one
                    } else {
                        zero
                    },
                    #[trigger] s.regs@[i]@[j],
                )
            &&& forall|j: int|
                0 <= j < 64 ==> cloned(
                    if dword(stack)[j] {
                        *one
                    } else {
                        zero
                    },
                    #[trigger] s.sp_word@[j],
                )
        },
{
    if stack % 16 != 0 || arguments.len() > 8 {
        return Err(DecodeError::Malformed(0));
    }
    let sp_word = constant_word::<W, 64>(&zero, one, stack);
    let mut state = initial_state(zero);
    state.sp = Some(stack);
    state.sp_word = sp_word;
    let mut i: usize = 0;
    while i < arguments.len()
        invariant
            i <= arguments@.len() <= 8,
            state.sp == Some(stack),
            forall|k: int|
                0 <= k < 31 ==> (#[trigger] state.constants@[k]) == if k < i {
                    arguments@[k]
                } else {
                    None
                },
            forall|k: int| 0 <= k < 4 ==> (#[trigger] state.nzcv_constants@[k]) is None,
            forall|k: int, j: int|
                0 <= k < 31 && 0 <= j < 64 ==> cloned(
                    if k < i && arguments@[k] is Some && dword(arguments@[k]->0)[j] {
                        *one
                    } else {
                        zero
                    },
                    #[trigger] state.regs@[k]@[j],
                ),
            state.sp_word == sp_word,
            state.done == zero,
        decreases arguments@.len() - i,
    {
        if let Some(value) = arguments[i] {
            // `done` is the zero wire.
            let word = constant_word::<W, 64>(&state.done, one, value);
            state.regs[i] = word;
            state.constants[i] = Some(value);
        }
        i = i + 1;
    }
    Ok(state)
}

/// What an instruction did is `expected`. An error of the context may come in
/// the way; it is reported like a form that is not supported, and then
/// nothing is said of the state.
pub open spec fn stepped<C: ContextWithErtOps<bool> + ?Sized>(
    after: State<C::Wrapped>,
    r: Result<Flow<C::Wrapped>, DecodeError>,
    raw: u32,
    expected: Effect,
) -> bool where C::Wrapped: Clone {
    match r {
        Ok(Flow::Next(word)) => agreeing::<C>(after) && (expected matches Effect::Next {
            core,
            next,
        } && core == meaning::<C>(after) && crate::context::bits::<C>(word@) == dword(next)),
        Ok(Flow::Exit) => agreeing::<C>(after) && expected == (Effect::Exit {
            core: meaning::<C>(after),
        }),
        Err(e) => expected == Effect::Error(e) || (e == DecodeError::Unsupported(raw)
            && !crate::context::reliable::<C>()),
    }
}

/// Errors of the context become a form that is not supported.
fn gated<T, E>(r: Result<T, E>, raw: u32) -> (q: Result<T, DecodeError>)
    ensures
        r matches Ok(v) ==> q == Ok::<T, DecodeError>(v),
        r is Err ==> q == Err::<T, DecodeError>(DecodeError::Unsupported(raw)),
{
    match r {
        Ok(v) => Ok(v),
        Err(_) => Err(DecodeError::Unsupported(raw)),
    }
}

/// Cut a word to its W form.
fn narrow<C: ContextWithValue<bool> + ?Sized>(
    word: &[C::Wrapped; 64],
    width64: bool,
    zero: &C::Wrapped,
) -> (r: [C::Wrapped; 64]) where C::Wrapped: Clone
    ensures
        crate::context::sound::<C>() && !crate::context::bit::<C>(*zero)
            ==> crate::context::bits::<C>(r@) == narrowed(
            crate::context::bits::<C>(word@),
            width64,
        ),
{
    let mut r = keep_word::<C, 64>(word);
    proof {
        if crate::context::sound::<C>() {
            assert forall|j: int| 0 <= j < 64 implies crate::context::bit::<C>(#[trigger] r@[j])
                == crate::context::bit::<C>(word@[j]) by {
                assert(crate::context::bits::<C>(r@)[j] == crate::context::bits::<C>(word@)[j]);
            }
        }
    }
    if !width64 {
        let mut bit: usize = 32;
        while bit < 64
            invariant
                32 <= bit <= 64,
                crate::context::sound::<C>() && !crate::context::bit::<C>(*zero) ==> forall|j: int|
                    0 <= j < 64 ==> crate::context::bit::<C>(#[trigger] r@[j]) == ((j < 32 || j
                        >= bit) && crate::context::bit::<C>(word@[j])),
            decreases 64 - bit,
        {
            r[bit] = keep::<C>(zero);
            bit = bit + 1;
        }
    }
    proof {
        if crate::context::sound::<C>() && !crate::context::bit::<C>(*zero) {
            assert(crate::context::bits::<C>(r@) =~= narrowed(
                crate::context::bits::<C>(word@),
                width64,
            ));
        }
    }
    r
}

/// A number cut to its W form.
fn narrow_value(value: u64, width64: bool) -> (r: u64)
    ensures
        dword(r) == narrowed(dword(value), width64),
{
    if width64 {
        value
    } else {
        let r: u64 = value % 0x1_0000_0000;
        proof {
            vstd::arithmetic::power2::lemma2_to64();
            let full = narrowed(dword(value), false);
            crate::wide::low_bits(value as nat, 32, 64);
            crate::bits::num_bits_of(value as nat, 32);
            crate::wide::spelled(r as nat, 64);
            low_number(full, 32);
            assert(full.take(32) =~= crate::bits::bits_of(value as nat, 32));
            crate::bits::num_injective(dword(r), full);
        }
        r
    }
}

/// A word whose bits above `k` are clear is the number of its low `k` bits.
proof fn low_number(b: Seq<bool>, k: int)
    requires
        0 <= k <= b.len(),
        forall|i: int| k <= i < b.len() ==> !b[i],
    ensures
        crate::bits::num(b) == crate::bits::num(b.take(k)),
    decreases b.len() - k,
{
    if k == b.len() {
        assert(b.take(k) =~= b);
    } else {
        low_number(b, k + 1);
        crate::bits::num_step(b, k);
    }
}

/// A word with sixteen of its bits replaced.
pub open spec fn inserted(previous: Seq<bool>, immediate: u64, shift: u32) -> Seq<bool> {
    Seq::new(
        64,
        |i: int|
            if shift <= i < shift + 16 {
                crate::bits::bits_of(immediate as nat, 16)[i - shift]
            } else {
                previous[i]
            },
    )
}

/// A number with sixteen of its bits replaced.
fn insert_value(previous: u64, immediate: u64, shift: u32) -> (r: u64)
    requires
        immediate < 0x1_0000,
        shift == 0 || shift == 16 || shift == 32 || shift == 48,
    ensures
        dword(r) == inserted(dword(previous), immediate, shift),
{
    let mask: u64 = 0xffffu64 << shift;
    let r: u64 = (previous & !mask) | (immediate << shift);
    proof {
        let at = shift as u64;
        assert forall|i: int| 0 <= i < 64 implies dword(r)[i] == inserted(
            dword(previous),
            immediate,
            shift,
        )[i] by {
            let k = i as u64;
            crate::bits::shifted_bit(r, k);
            crate::bits::shifted_bit(previous, k);
            let d = if at <= k {
                (k - at) as u64
            } else {
                0u64
            };
            crate::bits::shifted_bit(immediate, d);
            assert(((r >> k) & 1 == 1) == (if at <= k && k < at + 16 {
                (immediate >> d) & 1 == 1
            } else {
                (previous >> k) & 1 == 1
            })) by (bit_vector)
                requires
                    k < 64,
                    at == shift as u64,
                    shift == 0 || shift == 16 || shift == 32 || shift == 48,
                    immediate < 0x1_0000,
                    mask == 0xffffu64 << shift,
                    r == (previous & !mask) | (immediate << shift),
                    at <= k ==> d == k - at,
            ;
        }
        assert(dword(r) =~= inserted(dword(previous), immediate, shift));
    }
    r
}

/// A symbolic word with sixteen of its bits replaced.
fn insert_word<C: ContextWithValue<bool> + ?Sized>(
    previous: &[C::Wrapped; 64],
    immediate: u64,
    shift: u32,
    zero: &C::Wrapped,
    one: &C::Wrapped,
) -> (r: [C::Wrapped; 64]) where C::Wrapped: Clone
    requires
        shift <= 48,
    ensures
        crate::word::constants::<C>(*zero, *one) ==> crate::context::bits::<C>(r@) == inserted(
            crate::context::bits::<C>(previous@),
            immediate,
            shift,
        ),
{
    let field = known_word::<C, 16>(zero, one, immediate);
    let mut r = keep_word::<C, 64>(previous);
    proof {
        if crate::context::sound::<C>() {
            assert forall|j: int| 0 <= j < 64 implies crate::context::bit::<C>(#[trigger] r@[j])
                == crate::context::bit::<C>(previous@[j]) by {
                assert(crate::context::bits::<C>(r@)[j] == crate::context::bits::<C>(
                    previous@,
                )[j]);
            }
        }
    }
    let ghost payload = crate::bits::bits_of(immediate as nat, 16);
    let mut bit: usize = 0;
    while bit < 16
        invariant
            bit <= 16,
            shift <= 48,
            crate::word::constants::<C>(*zero, *one) ==> {
                &&& crate::context::bits::<C>(field@) == payload
                &&& forall|j: int|
                    0 <= j < 64 ==> crate::context::bit::<C>(#[trigger] r@[j]) == if shift <= j
                        < shift + bit {
                        payload[j - shift]
                    } else {
                        crate::context::bit::<C>(previous@[j])
                    }
            },
        decreases 16 - bit,
    {
        r[shift as usize + bit] = keep::<C>(&field[bit]);
        proof {
            if crate::word::constants::<C>(*zero, *one) {
                assert(crate::context::bits::<C>(field@)[bit as int] == crate::context::bit::<C>(
                    field@[bit as int],
                ));
            }
        }
        bit = bit + 1;
    }
    proof {
        if crate::word::constants::<C>(*zero, *one) {
            assert(crate::context::bits::<C>(r@) =~= inserted(
                crate::context::bits::<C>(previous@),
                immediate,
                shift,
            ));
        }
    }
    r
}

impl<W: Clone> State<W> {
    /// Write a register.
    fn write<C: ContextWithValue<bool, Wrapped = W> + ?Sized>(
        &mut self,
        register: u8,
        word: [W; 64],
        value: Option<u64>,
    )
        requires
            register < 31,
        ensures
            meaning::<C>(*final(self)) == meaning::<C>(*old(self)).write(
                register as int,
                crate::context::bits::<C>(word@),
                value is Some,
            ),
            agreeing::<C>(*old(self)) && (value matches Some(v) ==> crate::context::bits::<C>(word@)
                == dword(v)) ==> agreeing::<C>(*final(self)),
    {
        self.regs[register as usize] = word;
        self.constants[register as usize] = value;
        proof {
            let after = meaning::<C>(*self);
            let expected = meaning::<C>(*old(self)).write(
                register as int,
                crate::context::bits::<C>(word@),
                value is Some,
            );
            assert(after.regs =~= expected.regs);
            assert(after.known =~= expected.known);
        }
    }

    /// `MOVZ` and `MOVK`.
    fn move_wide<C: ContextWithValue<bool, Wrapped = W> + ?Sized>(
        &mut self,
        dest: u8,
        immediate: u64,
        shift: u32,
        keep: bool,
        width64: bool,
        zero: &W,
        one: &W,
    )
        requires
            dest < 31,
            immediate < 0x1_0000,
            shift == 0 || shift == 16 || shift == 32 || shift == 48,
        ensures
            crate::word::constants::<C>(*zero, *one) && agreeing::<C>(*old(self)) ==> {
                &&& agreeing::<C>(*final(self))
                &&& meaning::<C>(*final(self)) == meaning::<C>(*old(self)).write(
                    dest as int,
                    moved(
                        meaning::<C>(*old(self)).regs[dest as int],
                        immediate,
                        shift,
                        keep,
                        width64,
                    ),
                    !keep || meaning::<C>(*old(self)).known[dest as int],
                )
            },
    {
        let previous = if keep {
            keep_word::<C, 64>(&self.regs[dest as usize])
        } else {
            known_word::<C, 64>(zero, one, 0)
        };
        let known = if keep {
            self.constants[dest as usize]
        } else {
            Some(0)
        };
        let full = insert_word::<C>(&previous, immediate, shift, zero, one);
        let word = narrow::<C>(&full, width64, zero);
        let value = match known {
            Some(before) => Some(narrow_value(insert_value(before, immediate, shift), width64)),
            None => None,
        };
        proof {
            if crate::word::constants::<C>(*zero, *one) && agreeing::<C>(*self) {
                let before = meaning::<C>(*self).regs[dest as int];
                crate::wide::zero_bits(64);
                assert(inserted(crate::context::bits::<C>(previous@), immediate, shift) =~= Seq::new(
                    64,
                    |i: int|
                        if shift <= i < shift + 16 {
                            crate::bits::bits_of(immediate as nat, 16)[i - shift]
                        } else {
                            keep && before[i]
                        },
                ));
            }
        }
        self.write::<C>(dest, word, value);
    }

    /// `ADD` and `SUB` immediate.
    fn add_immediate<C: ContextWithErtOps<bool, Wrapped = W> + ?Sized>(
        &mut self,
        context: &mut C,
        dest: u8,
        source: u8,
        immediate: u64,
        subtract: bool,
        width64: bool,
        zero: &W,
        one: &W,
    ) -> (r: Result<(), C::Error>)
        requires
            dest < 31,
            source < 31,
        ensures
            crate::word::constants::<C>(*zero, *one) && agreeing::<C>(*old(self)) && r is Ok ==> {
                let left = meaning::<C>(*old(self)).regs[source as int];
                let right = dword(immediate);
                let total = if subtract {
                    crate::bits::sub_of(left, right)
                } else {
                    crate::bits::add_of(left, right, false)
                };
                &&& agreeing::<C>(*final(self))
                &&& meaning::<C>(*final(self)) == meaning::<C>(*old(self)).write(
                    dest as int,
                    narrowed(total, width64),
                    meaning::<C>(*old(self)).known[source as int],
                )
            },
            r is Err ==> *final(self) == *old(self),
            crate::context::reliable::<C>() ==> r is Ok,
            r matches Err(error) ==> crate::context::erred::<C>(error),
    {
        let operand = known_word::<C, 64>(zero, one, immediate);
        let total = if subtract {
            let inverted = invert_word(context, &operand, keep::<C>(one))?;
            add_bits(context, &self.regs[source as usize], &inverted, keep::<C>(one))?
        } else {
            add_bits(context, &self.regs[source as usize], &operand, keep::<C>(zero))?
        };
        let word = narrow::<C>(&total, width64, zero);
        let value = match self.constants[source as usize] {
            Some(known) => {
                proof {
                    crate::wide::wrapping_difference_bits(known, immediate, 64);
                    crate::wide::wrapping_sum_bits(known, immediate, 64);
                }
                Some(
                    narrow_value(
                        if subtract {
                            known.wrapping_sub(immediate)
                        } else {
                            known.wrapping_add(immediate)
                        },
                        width64,
                    ),
                )
            },
            None => None,
        };
        self.write::<C>(dest, word, value);
        Ok(())
    }
}

/// The wire that says whether a compare-and-branch is taken.
pub fn compare_condition<C, W>(
    context: &mut C,
    state: &State<W>,
    register: u8,
    nonzero: bool,
    width64: bool,
    zero: &W,
    one: &W,
) -> (r: Result<W, C::Error>) where C: ContextWithErtOps<bool, Wrapped = W> + ?Sized, W: Clone
    requires
        register < 31,
    ensures
        crate::word::constants::<C>(*zero, *one) ==> (r matches Ok(w) ==> crate::context::bit::<C>(w)
            == ((crate::bits::num(
            narrowed(meaning::<C>(*state).regs[register as int], width64),
        ) != 0) == nonzero)),
        crate::context::reliable::<C>() ==> r is Ok,
        r matches Err(error) ==> crate::context::erred::<C>(error),
{
    let word = narrow::<C>(&state.regs[register as usize], width64, zero);
    if nonzero {
        nonzero_word(context, &word)
    } else {
        zero_word(context, &word, one)
    }
}

/// The bit that a `TBZ` or `TBNZ` tests.
pub open spec fn test_position(raw: u32) -> int {
    32 * crate::a64::decode::field(raw, 31, 1) + crate::a64::decode::field(raw, 19, 5)
}

/// Execute the audited subset over a symbolic state, given whether `disarm64`
/// decodes the word.
pub fn step_recognized<C, W>(
    context: &mut C,
    state: &mut State<W>,
    pc: u64,
    raw: u32,
    recognized: bool,
    zero: &W,
    one: &W,
) -> (r: Result<Flow<W>, DecodeError>) where
    C: ContextWithErtOps<bool, Wrapped = W> + ?Sized,
    W: Clone,

    ensures
        crate::word::constants::<C>(*zero, *one) && agreeing::<C>(*old(state)) ==> stepped::<C>(
            *final(state),
            r,
            raw,
            meaning::<C>(*old(state)).step(pc, raw, recognized),
        ),
        !conditional(raw) ==> (r matches Ok(Flow::Next(word)) ==> crate::word::baked(
            word@,
            *zero,
            *one,
        )),
        conditional(raw) || r is Err ==> *final(state) == *old(state),
{
    let next: u64 = pc.wrapping_add(4);
    if raw == NOP && pc % 4 == 0 && recognized {
        return Ok(Flow::Next(known_word::<C, 64>(zero, one, next)));
    }
    let ghost given = *state;
    proof {
        decoded_is_ok(pc, raw, recognized);
        conditional_forms(pc, raw, recognized);
        assert(meaning::<C>(*state).known.len() == 31);
    }
    let instruction = decode_recognized(pc, raw, recognized)?;
    match instruction {
        Instruction::Branch { target } => Ok(Flow::Next(known_word::<C, 64>(zero, one, target))),
        Instruction::BranchLink { target } => {
            let link = known_word::<C, 64>(zero, one, next);
            state.write::<C>(30, link, Some(next));
            Ok(Flow::Next(known_word::<C, 64>(zero, one, target)))
        },
        Instruction::CompareBranch { register, nonzero, width64, target } => {
            if register == 31 {
                // x31 is XZR for CBZ/CBNZ, never SP: CBZ is therefore always
                // taken and CBNZ always falls through.
                proof {
                    crate::wide::zero_bits(64);
                    crate::bits::num_zero(narrowed(dword(0), width64));
                }
                let chosen: u64 = if nonzero {
                    next
                } else {
                    target
                };
                return Ok(Flow::Next(known_word::<C, 64>(zero, one, chosen)));
            }
            let condition = gated(
                compare_condition(context, state, register, nonzero, width64, zero, one),
                raw,
            )?;
            let taken = known_word::<C, 64>(zero, one, target);
            let fallthrough = known_word::<C, 64>(zero, one, next);
            let word = gated(select_word(context, condition, &taken, &fallthrough), raw)?;
            Ok(Flow::Next(word))
        },
        Instruction::TestBranch { register, bit, nonzero, target } => {
            if register == 31 {
                proof {
                    crate::wide::zero_bits(64);
                }
                let chosen: u64 = if nonzero {
                    next
                } else {
                    target
                };
                return Ok(Flow::Next(known_word::<C, 64>(zero, one, chosen)));
            }
            let tested = keep::<C>(&state.regs[register as usize][bit as usize]);
            let on_set: u64 = if nonzero {
                target
            } else {
                next
            };
            let on_clear: u64 = if nonzero {
                next
            } else {
                target
            };
            let set_word = known_word::<C, 64>(zero, one, on_set);
            let clear_word = known_word::<C, 64>(zero, one, on_clear);
            let word = gated(select_word(context, tested, &set_word, &clear_word), raw)?;
            Ok(Flow::Next(word))
        },
        Instruction::MoveWide { dest, immediate, shift, keep, width64 } => {
            state.move_wide::<C>(dest, immediate, shift, keep, width64, zero, one);
            Ok(Flow::Next(known_word::<C, 64>(zero, one, next)))
        },
        Instruction::AddImmediate { dest, source, immediate, subtract, width64 } => {
            gated(
                state.add_immediate(
                    context,
                    dest,
                    source,
                    immediate,
                    subtract,
                    width64,
                    zero,
                    one,
                ),
                raw,
            )?;
            Ok(Flow::Next(known_word::<C, 64>(zero, one, next)))
        },
        Instruction::SupervisorCall => Ok(Flow::Exit),
        Instruction::ConditionalBranch { .. }
        | Instruction::BranchRegister { .. }
        | Instruction::BranchLinkRegister { .. }
        | Instruction::Return => Err(DecodeError::Unsupported(raw)),
    }
}

/// Execute the audited subset over a symbolic state.
///
/// Direct control uses constant targets; conditional forms emit a 64-bit
/// virtual-IP select. `CBZ`/`CBNZ` and `TBZ`/`TBNZ` only read `x0..x30`; `x31`
/// remains XZR.
pub fn step<C, W>(
    context: &mut C,
    state: &mut State<W>,
    pc: u64,
    raw: u32,
    zero: &W,
    one: &W,
) -> (r: Result<Flow<W>, DecodeError>) where
    C: ContextWithErtOps<bool, Wrapped = W> + ?Sized,
    W: Clone,

    ensures
        crate::word::constants::<C>(*zero, *one) && agreeing::<C>(*old(state)) ==> stepped::<C>(
            *final(state),
            r,
            raw,
            meaning::<C>(*old(state)).step(pc, raw, crate::a64::decode::recognized(raw)),
        ),
        !conditional(raw) ==> (r matches Ok(Flow::Next(word)) ==> crate::word::baked(
            word@,
            *zero,
            *one,
        )),
        conditional(raw) || r is Err ==> *final(state) == *old(state),
{
    let recognized = recognize(raw);
    step_recognized(context, state, pc, raw, recognized, zero, one)
}

} // verus!
