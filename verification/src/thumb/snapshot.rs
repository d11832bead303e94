//! Loop-adapter state: snapshots, agreement of what only the host knows, and
//! the folding of what wires carry.
use crate::context::{keep, ContextWithValue};
use crate::table::predicated_value;
use crate::thumb::flags::lower_wire;
use crate::thumb::handler::SecurityState;
use crate::thumb::machine::{keep_wire, Cpu, Flag, FlagWire, Machine};
use crate::word::{fill, keep_word, select_word, ContextWithErtOps};
use vstd::prelude::*;

verus! {

/// A snapshot could not fit in the caller-provided fixed return-frame array.
#[derive(Clone, Copy, Debug, Eq, PartialEq, Structural)]
pub enum ThumbSnapshotError {
    /// The machine's return-stack depth exceeds the fixed snapshot capacity.
    ReturnStackCapacity,
}

/// The complete Thumb state that crosses a loop-body boundary.
///
/// Register wires and NZCVQ flags remain symbolic values, while the concrete
/// metadata and virtual-machine fields are retained exactly. Wire-backed
/// portions are selected under candidate activity; the fields represented by
/// [`ThumbAgreement`] must agree.
#[derive(Clone)]
pub struct ThumbSnapshot<W, const FRAMES: usize> {
    /// General-purpose register wires, including `r13`'s mirrored SP word.
    pub regs: [[W; 32]; 16],
    /// Per-register known concrete values.
    pub constants: [Option<u32>; 16],
    /// Per-register stack-relative offset metadata.
    pub offsets: [Option<i32>; 16],
    /// Symbolic NZCVQ flags.
    pub flags: [Flag<W>; 5],
    /// Normalized even Thumb fetch PC.
    pub pc: u32,
    /// Concrete architectural stack pointer.
    pub sp: u32,
    /// Entry stack pointer required at an exit boundary.
    pub stack_top: u32,
    /// Private return-stack depth.
    pub rsp: usize,
    /// Private return addresses through `rsp`.
    pub rstack: [u32; FRAMES],
    /// Thumb predication state.
    pub itstate: u8,
    /// Virtual TrustZone-M state.
    pub security_state: SecurityState,
}

/// A state without what a snapshot leaves out: the free part of the control
/// stack and the recognized loops.
pub open spec fn reduced(c: Cpu) -> Cpu {
    Cpu { rstack: c.rstack.take(c.rsp), sites: unrecognized(), ..c }
}

/// No recognized loops.
pub open spec fn unrecognized() -> Seq<Option<crate::thumb::early_exit::Site>> {
    Seq::new(8, |i: int| None)
}

/// The meaning of a snapshot over the wires of `H`.
pub open spec fn snapshot_cpu<H: ContextWithValue<bool> + ?Sized, const FRAMES: usize>(
    s: ThumbSnapshot<H::Wrapped, FRAMES>,
) -> Cpu {
    Cpu {
        pc: s.pc,
        regs: crate::thumb::machine::words::<H>(s.regs@),
        known: crate::thumb::machine::present(s.constants@),
        offsets: s.offsets@,
        flags: crate::thumb::machine::flag_bits::<H>(s.flags@),
        flags_known: crate::thumb::machine::flags_present(s.flags@),
        itstate: s.itstate,
        sp: s.sp,
        rstack: s.rstack@.take(s.rsp as int),
        rsp: s.rsp as int,
        security: s.security_state,
        sites: unrecognized(),
    }
}

/// Every host-known register and flag of a snapshot is what the wires beside
/// it say.
pub open spec fn faithful<H: ContextWithValue<bool> + ?Sized, const FRAMES: usize>(
    s: ThumbSnapshot<H::Wrapped, FRAMES>,
) -> bool {
    &&& forall|i: int|
        0 <= i < 16 ==> ((#[trigger] s.constants@[i]) matches Some(v) ==> crate::context::bits::<H>(
            s.regs@[i]@,
        ) == crate::concrete::word(v))
    &&& forall|i: int|
        0 <= i < 5 ==> ((#[trigger] s.flags@[i]).value matches Some(b)
            ==> crate::thumb::machine::wire_bit::<H>(s.flags@[i].wire) == b)
}

/// Every flag is carried in the same way, with the same value where it is
/// known.
pub open spec fn flags_cloned<W: Clone>(flags: Seq<Flag<W>>, copy: Seq<Flag<W>>) -> bool {
    copy.len() == flags.len() && forall|i: int|
        0 <= i < flags.len() ==> (#[trigger] copy[i]).value == flags[i].value
            && crate::thumb::machine::wire_cloned(flags[i].wire, copy[i].wire)
}

/// Every wire of a register file is a clone.
pub open spec fn file_cloned<W: Clone>(regs: Seq<[W; 32]>, copy: Seq<[W; 32]>) -> bool {
    copy.len() == regs.len() && forall|i: int|
        0 <= i < regs.len() ==> crate::word::word_cloned(regs[i]@, (#[trigger] copy[i])@)
}

/// A snapshot and a machine hold the same host state, field by field.
pub open spec fn same_host<W, const FRAMES: usize>(
    s: ThumbSnapshot<W, FRAMES>,
    m: Machine<'_, W>,
) -> bool {
    &&& s.constants == m.constants
    &&& s.offsets == m.offsets
    &&& s.pc == m.pc
    &&& s.sp == m.sp
    &&& s.stack_top == m.stack_top
    &&& s.rsp == m.rsp
    &&& s.rstack@.take(s.rsp as int) == m.rstack@.take(m.rsp as int)
    &&& s.itstate == m.itstate
    &&& s.security_state == m.security_state
}

/// Clone the five flags.
pub fn keep_flags<H: ContextWithErtOps<bool> + ?Sized>(flags: &[Flag<H::Wrapped>; 5]) -> (r: [Flag<
    H::Wrapped,
>; 5]) where H::Wrapped: Clone
    ensures
        crate::context::sound::<H>() ==> crate::thumb::machine::flag_bits::<H>(r@)
            == crate::thumb::machine::flag_bits::<H>(flags@),
        forall|i: int| 0 <= i < 5 ==> (#[trigger] r@[i]).value == flags@[i].value,
        forall|i: int|
            0 <= i < 5 ==> ((#[trigger] r@[i]).wire is Direct) == (flags@[i].wire is Direct),
        flags_cloned(flags@, r@),
{
    let r: [Flag<H::Wrapped>; 5] = [
        Flag { wire: keep_wire::<H>(&flags[0].wire), value: flags[0].value },
        Flag { wire: keep_wire::<H>(&flags[1].wire), value: flags[1].value },
        Flag { wire: keep_wire::<H>(&flags[2].wire), value: flags[2].value },
        Flag { wire: keep_wire::<H>(&flags[3].wire), value: flags[3].value },
        Flag { wire: keep_wire::<H>(&flags[4].wire), value: flags[4].value },
    ];
    proof {
        if crate::context::sound::<H>() {
            assert(crate::thumb::machine::flag_bits::<H>(r@)
                =~= crate::thumb::machine::flag_bits::<H>(flags@));
        }
    }
    r
}

/// Clone a register file.
pub fn keep_file<H: ContextWithValue<bool> + ?Sized>(
    regs: &[[H::Wrapped; 32]; 16],
) -> (r: [[H::Wrapped;
    32]; 16]) where H::Wrapped: Clone
    ensures
        crate::context::sound::<H>() ==> crate::thumb::machine::words::<H>(r@)
            == crate::thumb::machine::words::<H>(regs@),
        file_cloned(regs@, r@),
{
    let mut r = fill::<[H::Wrapped; 32], 16>(&regs[0]);
    let mut i: usize = 0;
    while i < 16
        invariant
            i <= 16,
            crate::context::sound::<H>() ==> forall|j: int|
                0 <= j < i ==> crate::context::bits::<H>(#[trigger] r@[j]@)
                    == crate::context::bits::<H>(regs@[j]@),
            forall|j: int| 0 <= j < i ==> crate::word::word_cloned(regs@[j]@, (#[trigger] r@[j])@),
        decreases 16 - i,
    {
        r[i] = keep_word::<H, 32>(&regs[i]);
        i = i + 1;
    }
    proof {
        if crate::context::sound::<H>() {
            assert(crate::thumb::machine::words::<H>(r@) =~= crate::thumb::machine::words::<H>(
                regs@,
            ));
        }
    }
    r
}

impl<W: Clone, const FRAMES: usize> ThumbSnapshot<W, FRAMES> {
    /// The return addresses of a snapshot fit its array.
    pub open spec fn wf(&self) -> bool {
        self.rsp <= FRAMES
    }

    /// Clone a snapshot.
    pub fn keep<H>(&self) -> (r: Self) where
        H: ContextWithErtOps<bool> + ContextWithValue<bool, Wrapped = W> + ?Sized,

        ensures
            crate::context::sound::<H>() ==> {
                &&& snapshot_cpu::<H, FRAMES>(r) == snapshot_cpu::<H, FRAMES>(*self)
                &&& faithful::<H, FRAMES>(*self) ==> faithful::<H, FRAMES>(r)
            },
            r.constants == self.constants,
            r.offsets == self.offsets,
            r.rsp == self.rsp,
            r.rstack == self.rstack,
            r.stack_top == self.stack_top,
            r.pc == self.pc,
            r.sp == self.sp,
            forall|i: int| 0 <= i < 5 ==> (#[trigger] r.flags@[i]).value == self.flags@[i].value,
            lowered(self.flags@) ==> lowered(r.flags@),
    {
        let r = ThumbSnapshot {
            regs: keep_file::<H>(&self.regs),
            constants: self.constants,
            offsets: self.offsets,
            flags: keep_flags::<H>(&self.flags),
            pc: self.pc,
            sp: self.sp,
            stack_top: self.stack_top,
            rsp: self.rsp,
            rstack: self.rstack,
            itstate: self.itstate,
            security_state: self.security_state,
        };
        proof {
            if crate::context::sound::<H>() {
                let a = snapshot_cpu::<H, FRAMES>(r);
                let b = snapshot_cpu::<H, FRAMES>(*self);
                assert(a.flags_known =~= b.flags_known);
                kept_is_faithful::<H, FRAMES>(*self, r);
            }
        }
        r
    }

    /// Capture a machine state using caller-owned fixed return-frame capacity.
    pub fn capture<H>(machine: &Machine<'_, W>) -> (r: Result<Self, ThumbSnapshotError>) where
        H: ContextWithErtOps<bool> + ContextWithValue<bool, Wrapped = W> + ?Sized,

        ensures
            r is Err <==> machine.rsp > FRAMES || machine.rsp > machine.rstack@.len(),
            r matches Ok(s) ==> {
                &&& s.wf()
                &&& same_host(s, *machine)
                &&& file_cloned(machine.regs@, s.regs@)
                &&& flags_cloned(machine.flags@, s.flags@)
                &&& forall|i: int| machine.rsp <= i < FRAMES ==> s.rstack@[i] == 0
                &&& lowered(machine.flags@) ==> lowered(s.flags@)
                &&& crate::context::sound::<H>() ==> {
                    &&& snapshot_cpu::<H, FRAMES>(s) == reduced(
                        crate::thumb::machine::cpu::<H>(*machine),
                    )
                    &&& crate::thumb::machine::agreeing::<H>(*machine) ==> faithful::<H, FRAMES>(s)
                }
            },
    {
        if machine.rsp > FRAMES || machine.rsp > machine.rstack.len() {
            return Err(ThumbSnapshotError::ReturnStackCapacity);
        }
        let mut rstack = fill::<u32, FRAMES>(&0);
        let mut i: usize = 0;
        while i < machine.rsp
            invariant
                i <= machine.rsp <= FRAMES,
                machine.rsp <= machine.rstack@.len(),
                forall|j: int| 0 <= j < i ==> rstack@[j] == machine.rstack@[j],
                forall|j: int| machine.rsp <= j < FRAMES ==> rstack@[j] == 0,
            decreases machine.rsp - i,
        {
            rstack[i] = machine.rstack[i];
            i = i + 1;
        }
        let r = ThumbSnapshot {
            regs: keep_file::<H>(&machine.regs),
            constants: machine.constants,
            offsets: machine.offsets,
            flags: keep_flags::<H>(&machine.flags),
            pc: machine.pc,
            sp: machine.sp,
            stack_top: machine.stack_top,
            rsp: machine.rsp,
            rstack,
            itstate: machine.itstate,
            security_state: machine.security_state,
        };
        proof {
            assert(r.rstack@.take(r.rsp as int) =~= machine.rstack@.take(machine.rsp as int));
            if crate::context::sound::<H>() {
                let a = snapshot_cpu::<H, FRAMES>(r);
                let b = reduced(crate::thumb::machine::cpu::<H>(*machine));
                assert(a.flags_known =~= b.flags_known);
                assert(a.rstack =~= b.rstack);
                assert(a.regs == b.regs);
                assert(a.flags == b.flags);
                if crate::thumb::machine::agreeing::<H>(*machine) {
                    assert forall|i: int| 0 <= i < 16 implies ((#[trigger] r.constants@[i])
                        matches Some(v) ==> crate::context::bits::<H>(r.regs@[i]@)
                        == crate::concrete::word(v)) by {
                        assert(r.constants@[i] == machine.constants@[i]);
                        assert(a.regs[i] == b.regs[i]);
                    }
                    assert forall|i: int| 0 <= i < 5 implies ((#[trigger] r.flags@[i]).value
                        matches Some(v) ==> crate::thumb::machine::wire_bit::<H>(r.flags@[i].wire)
                        == v) by {
                        assert(machine.flags@[i].value == r.flags@[i].value);
                        assert(a.flags[i] == b.flags[i]);
                    }
                }
            }
        }
        Ok(r)
    }

    /// Restore this state into a machine using the same fixed return-frame
    /// capacity check as [`Self::capture`].
    pub fn restore<H>(&self, machine: &mut Machine<'_, W>) -> (r: Result<
        (),
        ThumbSnapshotError,
    >) where H: ContextWithErtOps<bool> + ContextWithValue<bool, Wrapped = W> + ?Sized
        requires
            crate::thumb::machine::bounded(*old(machine)),
        ensures
            r is Err <==> self.rsp > FRAMES || self.rsp > old(machine).rstack@.len(),
            r is Err ==> *final(machine) == *old(machine),
            crate::thumb::machine::bounded(*final(machine)),
            final(machine).mem == old(machine).mem,
            final(machine).storage_bits == old(machine).storage_bits,
            final(machine).zero == old(machine).zero,
            final(machine).one == old(machine).one,
            final(machine).loop_sites == old(machine).loop_sites,
            r is Ok ==> {
                &&& same_host(*self, *final(machine))
                &&& file_cloned(self.regs@, final(machine).regs@)
                &&& flags_cloned(self.flags@, final(machine).flags@)
                &&& final(machine).rstack@ == self.rstack@.take(self.rsp as int) + old(
                    machine,
                ).rstack@.skip(self.rsp as int)
                &&& crate::context::sound::<H>() ==> {
                    &&& reduced(crate::thumb::machine::cpu::<H>(*final(machine)))
                        == snapshot_cpu::<H, FRAMES>(*self)
                    &&& faithful::<H, FRAMES>(*self) ==> crate::thumb::machine::agreeing::<H>(
                        *final(machine),
                    )
                }
            },
    {
        if self.rsp > FRAMES || self.rsp > machine.rstack.len() {
            return Err(ThumbSnapshotError::ReturnStackCapacity);
        }
        let ghost stack = machine.rstack@;
        machine.regs = keep_file::<H>(&self.regs);
        machine.constants = self.constants;
        machine.offsets = self.offsets;
        machine.flags = keep_flags::<H>(&self.flags);
        machine.pc = self.pc;
        machine.sp = self.sp;
        machine.stack_top = self.stack_top;
        machine.rsp = self.rsp;
        machine.itstate = self.itstate;
        machine.security_state = self.security_state;
        let ghost set = *machine;
        let mut i: usize = 0;
        while i < self.rsp
            invariant
                i <= self.rsp <= FRAMES,
                self.rsp <= machine.rstack@.len() == stack.len(),
                *machine == (Machine { rstack: machine.rstack, ..set }),
                forall|j: int| 0 <= j < i ==> machine.rstack@[j] == self.rstack@[j],
                forall|j: int| i <= j < stack.len() ==> machine.rstack@[j] == stack[j],
            decreases self.rsp - i,
        {
            machine.rstack[i] = self.rstack[i];
            i = i + 1;
        }
        proof {
            assert(machine.rstack@ =~= self.rstack@.take(self.rsp as int) + stack.skip(
                self.rsp as int,
            ));
            assert(machine.rstack@.take(machine.rsp as int) =~= self.rstack@.take(self.rsp as int));
            if crate::context::sound::<H>() {
                let a = reduced(crate::thumb::machine::cpu::<H>(*machine));
                let b = snapshot_cpu::<H, FRAMES>(*self);
                assert(a.flags_known =~= b.flags_known);
                assert(a.rstack =~= b.rstack);
                assert(a.regs == b.regs);
                assert(a.flags == b.flags);
                if faithful::<H, FRAMES>(*self) {
                    assert forall|i: int| 0 <= i < 16 implies ((#[trigger] machine.constants@[i])
                        matches Some(v) ==> crate::context::bits::<H>(machine.regs@[i]@)
                        == crate::concrete::word(v)) by {
                        assert(self.constants@[i] == machine.constants@[i]);
                        assert(a.regs[i] == b.regs[i]);
                    }
                    assert forall|i: int| 0 <= i < 5 implies ((#[trigger] machine.flags@[i]).value
                        matches Some(v) ==> crate::thumb::machine::wire_bit::<H>(
                        machine.flags@[i].wire,
                    ) == v) by {
                        assert(machine.flags@[i].value == self.flags@[i].value);
                        assert(a.flags[i] == b.flags[i]);
                    }
                }
            }
        }
        Ok(())
    }

    /// The concrete-only state that must agree before symbolic data folding.
    pub fn agreement(&self) -> (r: ThumbAgreement<FRAMES>)
        ensures
            r == agreement_of(*self),
    {
        ThumbAgreement {
            sp: self.sp,
            rstack_depth: self.rsp,
            rstack: self.rstack,
            itstate: self.itstate,
            security_state: self.security_state,
        }
    }
}

/// A wire that is the clone of a clone.
pub open spec fn cloned_twice<W: Clone>(wire: W, copy: W) -> bool {
    exists|between: W| #[trigger] cloned(wire, between) && cloned(between, copy)
}

/// A snapshot that a machine was restored from comes back when it is captured
/// again: every host field as it was, every flag value, and the wires cloned
/// once more.
pub proof fn captured_is_restored<W: Clone, const FRAMES: usize>(
    s: ThumbSnapshot<W, FRAMES>,
    m: Machine<'_, W>,
    back: ThumbSnapshot<W, FRAMES>,
)
    requires
        same_host(s, m),
        file_cloned(s.regs@, m.regs@),
        flags_cloned(s.flags@, m.flags@),
        same_host(back, m),
        file_cloned(m.regs@, back.regs@),
        flags_cloned(m.flags@, back.flags@),
    ensures
        back.constants == s.constants,
        back.offsets == s.offsets,
        back.pc == s.pc,
        back.sp == s.sp,
        back.stack_top == s.stack_top,
        back.rsp == s.rsp,
        back.rstack@.take(back.rsp as int) == s.rstack@.take(s.rsp as int),
        back.itstate == s.itstate,
        back.security_state == s.security_state,
        forall|i: int|
            0 <= i < 5 ==> (#[trigger] back.flags@[i]).value == s.flags@[i].value && exists|
                between: FlagWire<W>,
            |
                #[trigger] crate::thumb::machine::wire_cloned(s.flags@[i].wire, between)
                    && crate::thumb::machine::wire_cloned(between, back.flags@[i].wire),
        forall|i: int, j: int|
            0 <= i < 16 && 0 <= j < 32 ==> #[trigger] cloned_twice(
                s.regs@[i]@[j],
                back.regs@[i]@[j],
            ),
{
    assert forall|i: int| 0 <= i < 5 implies (#[trigger] back.flags@[i]).value == s.flags@[i].value
        && exists|between: FlagWire<W>|
        #[trigger] crate::thumb::machine::wire_cloned(s.flags@[i].wire, between)
            && crate::thumb::machine::wire_cloned(between, back.flags@[i].wire) by {
        assert(m.flags@[i].value == s.flags@[i].value);
        assert(crate::thumb::machine::wire_cloned(s.flags@[i].wire, m.flags@[i].wire));
    }
    assert forall|i: int, j: int| 0 <= i < 16 && 0 <= j < 32 implies #[trigger] cloned_twice(
        s.regs@[i]@[j],
        back.regs@[i]@[j],
    ) by {
        assert(crate::word::word_cloned(s.regs@[i]@, m.regs@[i]@));
        assert(crate::word::word_cloned(m.regs@[i]@, back.regs@[i]@));
        assert(cloned(s.regs@[i]@[j], m.regs@[i]@[j]));
    }
}

/// The concrete-only state of a snapshot.
pub open spec fn agreement_of<W, const FRAMES: usize>(s: ThumbSnapshot<W, FRAMES>) -> ThumbAgreement<
    FRAMES,
> {
    ThumbAgreement {
        sp: s.sp,
        rstack_depth: s.rsp,
        rstack: s.rstack,
        itstate: s.itstate,
        security_state: s.security_state,
    }
}

/// Every flag is one wire.
pub open spec fn lowered<W>(flags: Seq<Flag<W>>) -> bool {
    forall|i: int| 0 <= i < flags.len() ==> (#[trigger] flags[i]).wire is Direct
}

proof fn kept_is_faithful<H: ContextWithValue<bool> + ?Sized, const FRAMES: usize>(
    before: ThumbSnapshot<H::Wrapped, FRAMES>,
    after: ThumbSnapshot<H::Wrapped, FRAMES>,
)
    requires
        snapshot_cpu::<H, FRAMES>(before) == snapshot_cpu::<H, FRAMES>(after),
        before.constants == after.constants,
        forall|i: int| 0 <= i < 5 ==> (#[trigger] after.flags@[i]).value == before.flags@[i].value,
    ensures
        faithful::<H, FRAMES>(before) ==> faithful::<H, FRAMES>(after),
{
    let a = snapshot_cpu::<H, FRAMES>(before);
    let b = snapshot_cpu::<H, FRAMES>(after);
    assert(forall|i: int|
        0 <= i < 16 ==> crate::context::bits::<H>(#[trigger] before.regs@[i]@) == a.regs[i]);
    assert(forall|i: int|
        0 <= i < 16 ==> crate::context::bits::<H>(#[trigger] after.regs@[i]@) == b.regs[i]);
    assert(forall|i: int|
        0 <= i < 5 ==> crate::thumb::machine::wire_bit::<H>((#[trigger] before.flags@[i]).wire)
            == a.flags[i]);
    assert(forall|i: int|
        0 <= i < 5 ==> crate::thumb::machine::wire_bit::<H>((#[trigger] after.flags@[i]).wire)
            == b.flags[i]);
}

/// Select wire-backed state under `active`, leaving concrete metadata to the
/// explicit agreement check.
///
/// This is the same gate form as predicated storage writes:
/// `held ^ (active & (value ^ held))`.
pub fn select_wire<C, W>(context: &mut C, active: W, value: W, held: W) -> (r: Result<
    W,
    C::Error,
>) where C: ContextWithErtOps<bool, Wrapped = W> + ?Sized, W: Clone
    ensures
        crate::context::sound::<C>() ==> (r matches Ok(w) ==> crate::context::bit::<C>(w) == if
            crate::context::bit::<C>(active) {
            crate::context::bit::<C>(value)
        } else {
            crate::context::bit::<C>(held)
        }),
        C::logs() ==> (r matches Ok(w) ==> crate::table::select_gates::<C>(
            (*old(context)).gates(),
            (*final(context)).gates(),
            active,
            value,
            held,
            w,
        )),
        crate::context::reliable::<C>() ==> r is Ok,
        r matches Err(error) ==> crate::context::erred::<C>(error),
{
    predicated_value(context, active, value, held)
}

/// The words of whichever register file is active.
pub open spec fn chosen<T>(active: bool, candidate: Seq<T>, held: Seq<T>) -> Seq<T> {
    if active {
        candidate
    } else {
        held
    }
}

/// What both say, and nothing where they differ.
pub open spec fn common<T>(a: Seq<Option<T>>, b: Seq<Option<T>>) -> Seq<Option<T>> {
    Seq::new(
        b.len(),
        |i: int|
            if a[i] == b[i] {
                b[i]
            } else {
                None
            },
    )
}

/// Fold the wire-backed register file from `candidate` into `accumulator`
/// under `active`.
///
/// The caller must first call [`merge_agreement`] for both snapshots.
/// Constants and stack offsets survive only where every folded body agrees;
/// divergent metadata becomes unknown. The flags are folded by
/// [`fold_flags`].
pub fn fold_registers<C, W, const FRAMES: usize>(
    context: &mut C,
    active: W,
    candidate: &ThumbSnapshot<W, FRAMES>,
    accumulator: &mut ThumbSnapshot<W, FRAMES>,
) -> (r: Result<(), C::Error>) where C: ContextWithErtOps<bool, Wrapped = W> + ?Sized, W: Clone
    ensures
        *final(accumulator) == (ThumbSnapshot {
            regs: final(accumulator).regs,
            constants: final(accumulator).constants,
            offsets: final(accumulator).offsets,
            ..*old(accumulator)
        }),
        r is Ok ==> {
            &&& final(accumulator).constants@ == common(
                candidate.constants@,
                old(accumulator).constants@,
            )
            &&& final(accumulator).offsets@ == common(
                candidate.offsets@,
                old(accumulator).offsets@,
            )
        },
        crate::context::sound::<C>() && r is Ok ==> {
            &&& crate::thumb::machine::words::<C>(final(accumulator).regs@) == chosen(
                crate::context::bit::<C>(active),
                crate::thumb::machine::words::<C>(candidate.regs@),
                crate::thumb::machine::words::<C>(old(accumulator).regs@),
            )
            &&& faithful::<C, FRAMES>(*candidate) && faithful::<C, FRAMES>(*old(accumulator))
                ==> faithful::<C, FRAMES>(*final(accumulator))
        },
        crate::context::reliable::<C>() ==> r is Ok,
        r matches Err(error) ==> crate::context::erred::<C>(error),
{
    let ghost on = crate::context::bit::<C>(active);
    let mut register: usize = 0;
    while register < 16
        invariant
            register <= 16,
            on == crate::context::bit::<C>(active),
            *accumulator == (ThumbSnapshot {
                regs: accumulator.regs,
                constants: accumulator.constants,
                offsets: accumulator.offsets,
                ..*old(accumulator)
            }),
            forall|j: int|
                0 <= j < 16 ==> (#[trigger] accumulator.constants@[j]) == if j < register
                    && candidate.constants@[j] != old(accumulator).constants@[j] {
                    None
                } else {
                    old(accumulator).constants@[j]
                },
            forall|j: int|
                0 <= j < 16 ==> (#[trigger] accumulator.offsets@[j]) == if j < register
                    && candidate.offsets@[j] != old(accumulator).offsets@[j] {
                    None
                } else {
                    old(accumulator).offsets@[j]
                },
            crate::context::sound::<C>() ==> forall|j: int|
                0 <= j < 16 ==> crate::context::bits::<C>(#[trigger] accumulator.regs@[j]@) == if j
                    < register && on {
                    crate::context::bits::<C>(candidate.regs@[j]@)
                } else {
                    crate::context::bits::<C>(old(accumulator).regs@[j]@)
                },
        decreases 16 - register,
    {
        let word = select_word(
            context,
            keep::<C>(&active),
            &candidate.regs[register],
            &accumulator.regs[register],
        )?;
        accumulator.regs[register] = word;
        if candidate.constants[register] != accumulator.constants[register] {
            accumulator.constants[register] = None;
        }
        if candidate.offsets[register] != accumulator.offsets[register] {
            accumulator.offsets[register] = None;
        }
        register = register + 1;
    }
    proof {
        assert(accumulator.constants@ =~= common(candidate.constants@, old(accumulator).constants@));
        assert(accumulator.offsets@ =~= common(candidate.offsets@, old(accumulator).offsets@));
        if crate::context::sound::<C>() {
            assert(crate::thumb::machine::words::<C>(accumulator.regs@) =~= chosen(
                on,
                crate::thumb::machine::words::<C>(candidate.regs@),
                crate::thumb::machine::words::<C>(old(accumulator).regs@),
            ));
            if faithful::<C, FRAMES>(*candidate) && faithful::<C, FRAMES>(*old(accumulator)) {
                assert forall|i: int| 0 <= i < 16 implies ((#[trigger] accumulator.constants@[i])
                    matches Some(v) ==> crate::context::bits::<C>(accumulator.regs@[i]@)
                    == crate::concrete::word(v)) by {
                    assert(candidate.constants@[i] == old(accumulator).constants@[i]
                        || accumulator.constants@[i] is None);
                }
            }
        }
    }
    Ok(())
}

/// What the fold of a flag leaves.
pub open spec fn folded_flag<C: ContextWithErtOps<bool> + ?Sized>(
    active: bool,
    candidate: Flag<C::Wrapped>,
    held: Flag<C::Wrapped>,
    after: Flag<C::Wrapped>,
) -> bool {
    &&& after.wire is Direct
    &&& crate::thumb::machine::wire_bit::<C>(after.wire) == if active {
        crate::thumb::machine::wire_bit::<C>(candidate.wire)
    } else {
        crate::thumb::machine::wire_bit::<C>(held.wire)
    }
}

/// Materialize and fold the five architectural NZCVQ wires.
///
/// A lazy flag recipe of either snapshot is lowered to one wire, over the two
/// constant wires, before the fold. Every flag is selected under `active`; what
/// the host knows of it survives only where both agree.
pub fn fold_flags<C, W, const FRAMES: usize>(
    context: &mut C,
    active: W,
    candidate: &ThumbSnapshot<W, FRAMES>,
    accumulator: &mut ThumbSnapshot<W, FRAMES>,
    zero: &W,
    one: &W,
) -> (r: Result<(), C::Error>) where C: ContextWithErtOps<bool, Wrapped = W> + ?Sized, W: Clone
    ensures
        *final(accumulator) == (ThumbSnapshot {
            flags: final(accumulator).flags,
            ..*old(accumulator)
        }),
        r is Ok ==> forall|i: int|
            0 <= i < 5 ==> {
                let before = old(accumulator).flags@[i];
                let other = candidate.flags@[i];
                let after = #[trigger] final(accumulator).flags@[i];
                &&& after.wire is Direct
                &&& after.value == if before.value == other.value {
                    before.value
                } else {
                    None
                }
                &&& crate::word::constants::<C>(*zero, *one) ==> folded_flag::<C>(
                    crate::context::bit::<C>(active),
                    other,
                    before,
                    after,
                )
            },
        crate::context::reliable::<C>() ==> r is Ok,
        r matches Err(error) ==> crate::context::erred::<C>(error),
{
    let mut index: usize = 0;
    while index < 5
        invariant
            index <= 5,
            *accumulator == (ThumbSnapshot { flags: accumulator.flags, ..*old(accumulator) }),
            forall|i: int|
                index <= i < 5 ==> #[trigger] accumulator.flags@[i] == old(accumulator).flags@[i],
            forall|i: int|
                0 <= i < index ==> {
                    let before = old(accumulator).flags@[i];
                    let other = candidate.flags@[i];
                    let after = #[trigger] accumulator.flags@[i];
                    &&& after.wire is Direct
                    &&& after.value == if before.value == other.value {
                        before.value
                    } else {
                        None
                    }
                    &&& crate::word::constants::<C>(*zero, *one) ==> folded_flag::<C>(
                        crate::context::bit::<C>(active),
                        other,
                        before,
                        after,
                    )
                },
        decreases 5 - index,
    {
        let given = lower_wire(
            context,
            keep_wire::<C>(&candidate.flags[index].wire),
            zero,
            one,
        )?;
        let held = lower_wire(
            context,
            keep_wire::<C>(&accumulator.flags[index].wire),
            zero,
            one,
        )?;
        let wire = select_wire(context, keep::<C>(&active), given, held)?;
        let value = if candidate.flags[index].value == accumulator.flags[index].value {
            accumulator.flags[index].value
        } else {
            None
        };
        accumulator.flags[index] = Flag { wire: FlagWire::Direct(wire), value };
        index = index + 1;
    }
    Ok(())
}

/// The concrete-only state that every candidate of a generation must share.
#[derive(Clone, Copy, Debug, Eq, PartialEq)]
pub struct ThumbAgreement<const FRAMES: usize> {
    /// Concrete architectural stack pointer.
    pub sp: u32,
    /// Depth of the interpreter's private return stack.
    pub rstack_depth: usize,
    /// In-flight private return addresses above the boundary's base depth.
    pub rstack: [u32; FRAMES],
    /// Thumb ITSTATE after the body.
    pub itstate: u8,
    /// Virtual TrustZone-M state after the body.
    pub security_state: SecurityState,
}

impl<const FRAMES: usize> ThumbAgreement<FRAMES> {
    /// The same state.
    pub open spec fn same(self, other: Self) -> bool {
        &&& self.sp == other.sp
        &&& self.rstack_depth == other.rstack_depth
        &&& self.rstack@ == other.rstack@
        &&& self.itstate == other.itstate
        &&& self.security_state == other.security_state
    }

    fn matches(&self, other: &Self) -> (r: bool)
        ensures
            r == self.same(*other),
    {
        if self.sp != other.sp || self.rstack_depth != other.rstack_depth || self.itstate
            != other.itstate || self.security_state != other.security_state {
            return false;
        }
        let mut i: usize = 0;
        while i < FRAMES
            invariant
                i <= FRAMES,
                forall|j: int| 0 <= j < i ==> self.rstack@[j] == other.rstack@[j],
            decreases FRAMES - i,
        {
            if self.rstack[i] != other.rstack[i] {
                return false;
            }
            i = i + 1;
        }
        assert(self.rstack@ =~= other.rstack@);
        true
    }
}

/// A candidate state did not satisfy the merge contract.
#[derive(Clone, Copy, Debug, Eq, PartialEq, Structural)]
pub enum ThumbMergeError {
    /// Candidate states disagree on concrete-only architectural state.
    ConcreteStateDivergence,
}

/// Merge `candidate` into the prior agreement.
///
/// The first candidate establishes the agreement. Subsequent candidates must
/// compare equal, otherwise the adapter fails closed rather than treating a
/// host-only state component as a symbolic value.
pub fn merge_agreement<const FRAMES: usize>(
    agreement: &mut Option<ThumbAgreement<FRAMES>>,
    candidate: ThumbAgreement<FRAMES>,
) -> (r: Result<(), ThumbMergeError>)
    ensures
        match *old(agreement) {
            None => r is Ok && *final(agreement) == Some(candidate),
            Some(previous) => *final(agreement) == *old(agreement) && (r is Ok <==> previous.same(
                candidate,
            )),
        },
{
    match *agreement {
        Some(previous) => {
            if previous.matches(&candidate) {
                Ok(())
            } else {
                Err(ThumbMergeError::ConcreteStateDivergence)
            }
        },
        None => {
            *agreement = Some(candidate);
            Ok(())
        },
    }
}

} // verus!
