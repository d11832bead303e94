//! Canned replacements for Arm call hooks.
//!
//! Replacements intentionally affect registers only: a storage-mutating
//! replacement needs a separately designed, policy-safe storage capability.
use crate::thumb::handler::{ArmCallAction, ArmCallEvent};
use crate::word::constant_word;
use std::collections::BTreeMap;
use vstd::prelude::*;

verus! {

/// A canned replacement for a direct Arm call.
#[derive(Clone, Copy, Debug, Eq, PartialEq, Structural)]
pub enum ArmCallReplacement {
    /// Continue after the call without changing registers.
    NoOp,
    /// Write `r0` through `r3` then continue after the call.
    ReturnConstants {
        /// The `r0` result.
        r0: u32,
        /// The `r1` result.
        r1: u32,
        /// The `r2` result.
        r2: u32,
        /// The `r3` result.
        r3: u32,
    },
}

/// A map from normalized direct-call target PCs to canned replacements.
#[derive(Clone, Debug)]
pub struct ArmCallRegistry {
    replacements: BTreeMap<u32, ArmCallReplacement>,
}

impl ArmCallRegistry {
    /// The replacement registered at each target.
    pub closed spec fn view(&self) -> Map<u32, ArmCallReplacement> {
        self.replacements@
    }

    /// Construct an empty registry.
    pub fn new() -> (r: Self)
        ensures
            r@ == Map::<u32, ArmCallReplacement>::empty(),
    {
        ArmCallRegistry { replacements: BTreeMap::new() }
    }

    /// Register `replacement` at the normalized direct `BL` target, returning
    /// the old entry when present.
    pub fn insert(&mut self, target: u32, replacement: ArmCallReplacement) -> (r: Option<
        ArmCallReplacement,
    >)
        ensures
            final(self)@ == old(self)@.insert(target, replacement),
            r == if old(self)@.contains_key(target) {
                Some(old(self)@[target])
            } else {
                None
            },
    {
        self.replacements.insert(target, replacement)
    }

    /// Look up a replacement for a direct `BL`. Register calls deliberately
    /// have no registry target and therefore never match.
    pub fn lookup(&self, event: &ArmCallEvent) -> (r: Option<ArmCallReplacement>)
        ensures
            r == match *event {
                ArmCallEvent::DirectCall { caller_pc: _, target, return_pc: _ } => if self@.contains_key(
                    target,
                ) {
                    Some(self@[target])
                } else {
                    None
                },
                _ => None,
            },
    {
        match *event {
            ArmCallEvent::DirectCall { caller_pc: _, target, return_pc: _ } => {
                match self.replacements.get(&target) {
                    Some(replacement) => Some(*replacement),
                    None => None,
                }
            },
            _ => None,
        }
    }
}

impl Default for ArmCallRegistry {
    fn default() -> (r: Self)
        ensures
            r@ == Map::<u32, ArmCallReplacement>::empty(),
    {
        ArmCallRegistry::new()
    }
}

/// The word that a replacement returns in a register, where it returns one.
pub open spec fn replaced(replacement: ArmCallReplacement, register: int) -> Option<u32> {
    match replacement {
        ArmCallReplacement::NoOp => None,
        ArmCallReplacement::ReturnConstants { r0, r1, r2, r3 } => if register == 0 {
            Some(r0)
        } else if register == 1 {
            Some(r1)
        } else if register == 2 {
            Some(r2)
        } else if register == 3 {
            Some(r3)
        } else {
            None
        },
    }
}

/// Apply a replacement to an Arm register view and return its hook action.
///
/// Values are written as caller-owned symbolic constants, hence a recording
/// context observes no hidden work. Callers needing outputs derived from
/// symbolic inputs must create them through their context before calling this.
pub fn apply_replacement<W: Clone>(
    replacement: ArmCallReplacement,
    regs: &mut [[W; 32]],
    constants: &mut [Option<u32>],
    offsets: &mut [Option<i32>],
    zero: &W,
    one: &W,
) -> (r: ArmCallAction)
    requires
        old(regs)@.len() >= 4,
        old(constants)@.len() >= 4,
        old(offsets)@.len() >= 4,
    ensures
        r == ArmCallAction::ReturnNow,
        final(regs)@.len() == old(regs)@.len(),
        final(constants)@.len() == old(constants)@.len(),
        final(offsets)@.len() == old(offsets)@.len(),
        forall|i: int|
            0 <= i < final(constants)@.len() ==> (#[trigger] final(constants)@[i]) == if replaced(
                replacement,
                i,
            ) is Some {
                replaced(replacement, i)
            } else {
                old(constants)@[i]
            },
        forall|i: int|
            0 <= i < final(offsets)@.len() ==> (#[trigger] final(offsets)@[i]) == if replaced(
                replacement,
                i,
            ) is Some {
                None
            } else {
                old(offsets)@[i]
            },
        forall|i: int|
            0 <= i < final(regs)@.len() && replaced(replacement, i) is None ==> (
            #[trigger] final(regs)@[i]) == old(regs)@[i],
        forall|i: int, j: int|
            0 <= i < 4 && 0 <= j < 32 && replaced(replacement, i) is Some ==> cloned(
                if crate::concrete::word(replaced(replacement, i)->0)[j] {
                    *one
                } else {
                    *zero
                },
                #[trigger] final(regs)@[i]@[j],
            ),
{
    match replacement {
        ArmCallReplacement::NoOp => ArmCallAction::ReturnNow,
        ArmCallReplacement::ReturnConstants { r0, r1, r2, r3 } => {
            constants[0] = Some(r0);
            constants[1] = Some(r1);
            constants[2] = Some(r2);
            constants[3] = Some(r3);
            offsets[0] = None;
            offsets[1] = None;
            offsets[2] = None;
            offsets[3] = None;
            regs[0] = constant_word::<W, 32>(zero, one, r0 as u64);
            regs[1] = constant_word::<W, 32>(zero, one, r1 as u64);
            regs[2] = constant_word::<W, 32>(zero, one, r2 as u64);
            regs[3] = constant_word::<W, 32>(zero, one, r3 as u64);
            ArmCallAction::ReturnNow
        },
    }
}

/// Returned constants go to the first four registers, in order, and to no other;
/// a replacement that does nothing returns none.
pub proof fn constants_go_to_their_registers(r0: u32, r1: u32, r2: u32, r3: u32, register: int)
    ensures
        ({
            let constants = ArmCallReplacement::ReturnConstants { r0, r1, r2, r3 };
            &&& 0 <= register < 4 ==> replaced(constants, register) == Some(
                seq![r0, r1, r2, r3][register],
            )
            &&& !(0 <= register < 4) ==> replaced(constants, register) is None
            &&& replaced(ArmCallReplacement::NoOp, register) is None
        }),
{
}

/// The last replacement registered at a target is the one found there, and
/// other targets keep theirs.
pub proof fn insert_then_lookup(
    registry: Map<u32, ArmCallReplacement>,
    target: u32,
    replacement: ArmCallReplacement,
    other: u32,
)
    ensures
        registry.insert(target, replacement).contains_key(target),
        registry.insert(target, replacement)[target] == replacement,
        other != target ==> registry.insert(target, replacement).contains_key(other)
            == registry.contains_key(other),
        other != target && registry.contains_key(other) ==> registry.insert(
            target,
            replacement,
        )[other] == registry[other],
{
}

} // verus!
