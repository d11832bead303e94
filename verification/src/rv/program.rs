//! A precomputed map of an RV64 image's control-flow boundaries.
use crate::explore::{explore, Found, Image, Walk};
use crate::memory::RawMemory;
use crate::rv::inst::{fetch_op, FetchError, RvOp};
use crate::rv::machine::RA;
use crate::wide::to_pattern;
use std::collections::BTreeMap;
use vstd::prelude::*;

verus! {

/// The declared, exhaustive target set of one bounded indirect `JALR`.
///
/// When the emulator meets a `JALR` (not the conventional return form) whose
/// base register is symbolic, it looks the instruction's address up in the
/// caller's declarations. A hit emits a constant-mux over `targets`, the
/// virtual IP's next candidates, instead of failing closed. The declaration
/// must be exhaustive: the mux's last leaf is the default, so an undeclared
/// reachable target would silently resolve to it. Targets are the base
/// addresses *before* the instruction's immediate offset is applied.
#[derive(Clone, Copy, Debug)]
pub struct IndirectTargets<'a> {
    /// The `JALR` instruction's address.
    pub pc: u64,
    /// Every base value the instruction may resolve to.
    pub targets: &'a [u64],
}

/// The first declaration of an indirect site, where there is one.
pub open spec fn declared(sites: Seq<IndirectTargets<'_>>, pc: u64) -> Option<Seq<u64>>
    decreases sites.len(),
{
    if sites.len() == 0 {
        None
    } else if sites[0].pc == pc {
        Some(sites[0].targets@)
    } else {
        declared(sites.skip(1), pc)
    }
}

/// The declaration of an indirect site.
pub fn find<'a>(sites: &'a [IndirectTargets<'a>], pc: u64) -> (r: Option<&'a [u64]>)
    ensures
        match r {
            Some(targets) => declared(sites@, pc) == Some(targets@),
            None => declared(sites@, pc) is None,
        },
{
    let mut i: usize = 0;
    assert(sites@.skip(0) =~= sites@);
    while i < sites.len()
        invariant
            i <= sites@.len(),
            declared(sites@, pc) == declared(sites@.skip(i as int), pc),
        decreases sites@.len() - i,
    {
        if sites[i].pc == pc {
            return Some(sites[i].targets);
        }
        assert(sites@.skip(i as int).skip(1) =~= sites@.skip(i + 1));
        i = i + 1;
    }
    None
}

/// Where a base value leads, once the offset is applied.
pub open spec fn resolved(target: u64, offset: i64, bits: nat) -> u64 {
    let full = crate::wide::low(crate::rv::machine::at(target, offset), bits);
    (full - full % 2) as u64
}

/// Where each base value leads.
pub open spec fn resolved_all(targets: Seq<u64>, offset: i64, bits: nat) -> Seq<u64> {
    Seq::new(targets.len(), |i: int| resolved(targets[i], offset, bits))
}

/// Where each base value leads.
pub fn resolve_all<const BITS: usize>(targets: &[u64], offset: i64) -> (r: Vec<u64>)
    requires
        BITS == 32 || BITS == 64,
    ensures
        r@ == resolved_all(targets@, offset, BITS as nat),
{
    let mut r: Vec<u64> = Vec::new();
    let mut i: usize = 0;
    while i < targets.len()
        invariant
            BITS == 32 || BITS == 64,
            i <= targets@.len(),
            r@.len() == i,
            forall|j: int| 0 <= j < i ==> r@[j] == resolved(targets@[j], offset, BITS as nat),
        decreases targets@.len() - i,
    {
        let full: u64 = crate::wide::truncate::<BITS>(
            targets[i].wrapping_add(to_pattern(offset)),
        );
        r.push(full - full % 2);
        i = i + 1;
    }
    assert(r@ =~= resolved_all(targets@, offset, BITS as nat));
    r
}

/// An RV64 image and what is declared of it.
pub struct RvImage<'a> {
    pub memory: RawMemory<'a>,
    pub indirect: &'a [IndirectTargets<'a>],
}

/// The error of a walk, without the error of any context.
#[derive(Clone, Copy, Debug, Eq, PartialEq)]
pub enum ProgramError {
    /// Bytes that are no instruction.
    Decode(crate::rv::inst::DecodeError),
    /// The image is outside the supported subset, or has more boundaries than
    /// allowed.
    Unexpected,
}

/// A walk with more in front of it.
pub open spec fn behind(
    starts: Seq<u64>,
    indirect: Seq<u64>,
    rest: Result<Walk, ProgramError>,
) -> Result<Walk, ProgramError> {
    match rest {
        Ok(walk) => Ok(
            Walk { starts: starts + walk.starts, indirect: indirect + walk.indirect, ..walk },
        ),
        Err(e) => Err(e),
    }
}

impl<'a> RvImage<'a> {
    /// The walk from an address: code up to the first branch, jump, return or
    /// environment call. Calls are passed over, and their targets walked from
    /// too.
    pub open spec fn walk_from(self, pc: u64) -> Result<Walk, ProgramError>
        decreases u64::MAX - pc, 1int,
    {
        let none = crate::explore::nothing();
        match crate::rv::inst::op_at(self.memory, pc, true) {
            Err(FetchError::Unmapped) => Err(ProgramError::Unexpected),
            Err(FetchError::Decode(e)) => Err(ProgramError::Decode(e)),
            Ok((op, len)) => match op {
                RvOp::Branch { predicate: _, left: _, right: _, offset } => {
                    let taken = crate::rv::machine::at(pc, offset);
                    let fallthrough = pc.wrapping_add(len);
                    Ok(
                        Walk {
                            starts: seq![taken, fallthrough],
                            boundary: Some((pc, (taken, fallthrough))),
                            ..none
                        },
                    )
                },
                RvOp::Jump { dest, offset } => {
                    let target = crate::rv::machine::at(pc, offset);
                    if dest == 0 {
                        Ok(Walk { starts: seq![target], ..none })
                    } else {
                        behind(seq![target], Seq::empty(), self.walk_on(pc, len))
                    }
                },
                RvOp::JumpRegister { dest, base, offset } => if dest == 0 && base == RA && offset
                    == 0 {
                    Ok(none)
                } else {
                    match declared(self.indirect@, pc) {
                        None => Err(ProgramError::Unexpected),
                        Some(targets) => if targets.len() == 0 {
                            Err(ProgramError::Unexpected)
                        } else if dest == 0 {
                            Ok(
                                Walk {
                                    starts: resolved_all(targets, offset, 64),
                                    indirect: seq![pc],
                                    ..none
                                },
                            )
                        } else {
                            behind(
                                resolved_all(targets, offset, 64),
                                seq![pc],
                                self.walk_on(pc, len),
                            )
                        },
                    }
                },
                RvOp::Ecall => Ok(none),
                RvOp::Unsupported => Err(ProgramError::Unexpected),
                _ => self.walk_on(pc, len),
            },
        }
    }

    /// The walk from behind an instruction.
    pub open spec fn walk_on(self, pc: u64, len: u64) -> Result<Walk, ProgramError>
        decreases u64::MAX - pc, 0int,
    {
        if len > 0 && pc + len <= u64::MAX {
            self.walk_from((pc + len) as u64)
        } else {
            Ok(crate::explore::nothing())
        }
    }
}

/// The mapped addresses are those of the bytes.
proof fn mapped_bound(memory: RawMemory<'_>, starts: Set<u64>)
    requires
        starts.finite(),
        forall|s: u64| #[trigger] starts.contains(s) ==> memory.reads64(s, 2) is Some,
    ensures
        starts.len() <= memory.bytes().len(),
{
    let n = memory.bytes().len() as int;
    let f = |s: u64| s as int;
    let ints = starts.map(f);
    vstd::set_lib::lemma_int_range(0, n);
    assert(vstd::relations::injective_on(f, starts));
    vstd::set_lib::lemma_map_size(starts, ints, f);
    assert(ints.subset_of(vstd::set_lib::set_int_range(0, n))) by {
        assert forall|i: int| ints.contains(i) implies vstd::set_lib::set_int_range(0, n).contains(
            i,
        ) by {
            let s = choose|s: u64| starts.contains(s) && f(s) == i;
            assert(starts.contains(s));
        }
    }
    vstd::set_lib::lemma_len_subset(ints, vstd::set_lib::set_int_range(0, n));
}

impl<'a> Image for RvImage<'a> {
    type Error = ProgramError;

    open spec fn walk(self, start: u64) -> Result<Walk, ProgramError> {
        self.walk_from(start)
    }

    open spec fn crowded(self, pc: u64) -> ProgramError {
        ProgramError::Unexpected
    }

    open spec fn extent(self) -> nat {
        self.memory.bytes().len()
    }

    proof fn within_extent(self, starts: Set<u64>) {
        assert forall|s: u64| #[trigger] starts.contains(s) implies self.memory.reads64(
            s,
            2,
        ) is Some by {
            assert(self.walk(s) is Ok);
        }
        mapped_bound(self.memory, starts);
    }

    fn follow(&self, start: u64, found: &mut Found, max_boundaries: usize) -> (r: Result<
        (),
        ProgramError,
    >) {
        let ghost before = *found;
        let ghost mut starts: Seq<u64> = Seq::empty();
        let ghost mut indirect: Seq<u64> = Seq::empty();
        let mut pc: u64 = start;
        proof {
            match self.walk_from(pc) {
                Ok(walk) => {
                    assert(starts + walk.starts =~= walk.starts);
                    assert(indirect + walk.indirect =~= walk.indirect);
                },
                Err(_) => {},
            }
            assert(before.worklist@ + starts =~= before.worklist@);
            assert(before.indirect@ + indirect =~= before.indirect@);
        }
        loop
            invariant
                before == *old(found),
                self.walk(start) == behind(starts, indirect, self.walk_from(pc)),
                found.boundaries == before.boundaries,
                found.returns == before.returns,
                found.indirect@ == before.indirect@ + indirect,
                found.worklist@ == before.worklist@ + starts,
            decreases u64::MAX - pc,
        {
            let (op, len) = match fetch_op(&self.memory, pc, true) {
                Ok(pair) => pair,
                Err(FetchError::Unmapped) => return Err(ProgramError::Unexpected),
                Err(FetchError::Decode(e)) => return Err(ProgramError::Decode(e)),
            };
            match op {
                RvOp::Branch { offset, .. } => {
                    if !found.boundaries.contains_key(&pc) && found.boundaries.len()
                        >= max_boundaries {
                        return Err(ProgramError::Unexpected);
                    }
                    let taken: u64 = pc.wrapping_add(to_pattern(offset));
                    let fallthrough: u64 = pc.wrapping_add(len);
                    found.boundaries.insert(pc, (taken, fallthrough));
                    found.worklist.push(taken);
                    found.worklist.push(fallthrough);
                    proof {
                        let walk = self.walk(start)->Ok_0;
                        assert(found.worklist@ =~= before.worklist@ + walk.starts);
                        assert(found.indirect@ =~= before.indirect@ + walk.indirect);
                        assert(found.returns@ =~= before.returns@ + walk.returns);
                    }
                    return Ok(());
                },
                RvOp::Jump { dest, offset } => {
                    let target: u64 = pc.wrapping_add(to_pattern(offset));
                    found.worklist.push(target);
                    if dest == 0 {
                        proof {
                            let walk = self.walk(start)->Ok_0;
                            assert(found.worklist@ =~= before.worklist@ + walk.starts);
                            assert(found.indirect@ =~= before.indirect@ + walk.indirect);
                            assert(found.returns@ =~= before.returns@ + walk.returns);
                        }
                        return Ok(());
                    }
                    proof {
                        match self.walk_on(pc, len) {
                            Ok(walk) => {
                                assert(starts + (seq![target] + walk.starts) =~= (starts
                                    + seq![target]) + walk.starts);
                                assert(indirect + (Seq::<u64>::empty() + walk.indirect)
                                    =~= indirect + walk.indirect);
                            },
                            Err(_) => {},
                        }
                        assert(found.worklist@ =~= before.worklist@ + (starts + seq![target]));
                        starts = starts + seq![target];
                    }
                },
                RvOp::JumpRegister { dest, base, offset } => {
                    if dest == 0 && base == RA && offset == 0 {
                        proof {
                            let walk = self.walk(start)->Ok_0;
                            assert(found.worklist@ =~= before.worklist@ + walk.starts);
                            assert(found.indirect@ =~= before.indirect@ + walk.indirect);
                            assert(found.returns@ =~= before.returns@ + walk.returns);
                        }
                        return Ok(());
                    }
                    let targets = match find(self.indirect, pc) {
                        Some(targets) => targets,
                        None => return Err(ProgramError::Unexpected),
                    };
                    if targets.len() == 0 {
                        return Err(ProgramError::Unexpected);
                    }
                    let landings = resolve_all::<64>(targets, offset);
                    found.indirect.push(pc);
                    crate::a64::program::push_all(&mut found.worklist, landings.as_slice());
                    proof {
                        assert(found.worklist@ =~= before.worklist@ + (starts + landings@));
                        assert(found.indirect@ =~= before.indirect@ + (indirect + seq![pc]));
                    }
                    if dest == 0 {
                        proof {
                            let walk = self.walk(start)->Ok_0;
                            assert(found.worklist@ =~= before.worklist@ + walk.starts);
                            assert(found.indirect@ =~= before.indirect@ + walk.indirect);
                            assert(found.returns@ =~= before.returns@ + walk.returns);
                        }
                        return Ok(());
                    }
                    proof {
                        match self.walk_on(pc, len) {
                            Ok(walk) => {
                                assert(starts + (landings@ + walk.starts) =~= (starts + landings@)
                                    + walk.starts);
                                assert(indirect + (seq![pc] + walk.indirect) =~= (indirect
                                    + seq![pc]) + walk.indirect);
                            },
                            Err(_) => {},
                        }
                        starts = starts + landings@;
                        indirect = indirect + seq![pc];
                    }
                },
                RvOp::Ecall => {
                    proof {
                        let walk = self.walk(start)->Ok_0;
                        assert(found.worklist@ =~= before.worklist@ + walk.starts);
                        assert(found.indirect@ =~= before.indirect@ + walk.indirect);
                        assert(found.returns@ =~= before.returns@ + walk.returns);
                    }
                    return Ok(());
                },
                RvOp::Unsupported => return Err(ProgramError::Unexpected),
                _ => {},
            }
            pc = pc + len;
        }
    }
}

/// A precomputed, validated map of a guest image's control-flow boundaries.
///
/// Execution with it runs the identical live path: this is a cache and
/// consistency check, never a semantic change.
pub struct LoopedProgram {
    /// Every conditional-branch boundary: pc -> (taken, fallthrough).
    boundaries: BTreeMap<u64, (u64, u64)>,
    /// Every indirect `JALR` site that required a declaration.
    indirect_sites: Vec<u64>,
}

impl LoopedProgram {
    pub closed spec fn boundary_map(&self) -> Map<u64, (u64, u64)> {
        self.boundaries@
    }

    pub closed spec fn indirect_list(&self) -> Seq<u64> {
        self.indirect_sites@
    }

    /// Walk the image from `entry`, treating every conditional branch as a
    /// boundary with both successors live, every direct jump/call as
    /// fallthrough-plus-target, and every non-return `JALR` as requiring a
    /// declaration. Stops at returns and the exit `ECALL`. Fails closed on
    /// unmapped, undecodable or unsupported encodings, undeclared indirects, or
    /// more than `max_boundaries` boundaries.
    pub fn compile(
        mem: &RawMemory<'_>,
        entry: u64,
        indirect: &[IndirectTargets<'_>],
        max_boundaries: usize,
    ) -> (r: Result<Self, ProgramError>)
        ensures
            ({
                let image = RvImage { memory: *mem, indirect };
                match r {
                    Ok(program) => {
                        &&& program.boundary_map().len() <= max_boundaries
                        &&& forall|pc: u64| #[trigger]
                            program.boundary_map().contains_key(pc) <==> crate::rv::reach::linked(
                                image,
                                entry,
                                pc,
                            ) && exists|taken: u64, on: u64| #[trigger]
                                crate::rv::reach::branches_at(image, pc, taken, on)
                        &&& forall|pc: u64| #[trigger]
                            program.boundary_map().contains_key(pc)
                                ==> crate::rv::reach::branches_at(
                                image,
                                pc,
                                program.boundary_map()[pc].0,
                                program.boundary_map()[pc].1,
                            )
                        &&& exists|found: Found| #[trigger]
                            crate::explore::explored(image, entry, found)
                                && program.boundary_map() == found.boundaries@
                                && program.indirect_list() == found.indirect@
                    },
                    Err(e) => exists|s: u64| #[trigger]
                        crate::explore::reached(image, entry, s) && (image.walk(s) == Err::<
                            Walk,
                            ProgramError,
                        >(e) || (image.walk(s) matches Ok(walk) && walk.boundary matches Some(b)
                            && e == image.crowded(b.0) && exists|known: Map<u64, (u64, u64)>|
                         #[trigger]
                            crate::explore::grounded(image, entry, known) && known.dom().finite()
                                && known.len() > max_boundaries)),
                }
            }),
    {
        let image = RvImage { memory: *mem, indirect };
        let found = explore(&image, entry, max_boundaries)?;
        let size: usize = mem.bytes.len();
        proof {
            assert(crate::explore::explored(image, entry, found));
            assert(crate::rv::reach::small(image)) by {
                assert(image.memory.bytes().len() == size);
            }
            assert forall|pc: u64| #[trigger]
                found.boundaries@.contains_key(pc) <==> crate::rv::reach::linked(image, entry, pc)
                    && exists|taken: u64, on: u64| #[trigger]
                    crate::rv::reach::branches_at(image, pc, taken, on) by {
                crate::rv::reach::boundaries_are_the_reachable_branches(image, entry, found, pc);
            }
            assert forall|pc: u64| #[trigger]
                found.boundaries@.contains_key(pc) implies crate::rv::reach::branches_at(
                image,
                pc,
                found.boundaries@[pc].0,
                found.boundaries@[pc].1,
            ) by {
                crate::rv::reach::boundaries_are_the_reachable_branches(image, entry, found, pc);
            }
        }
        Ok(LoopedProgram { boundaries: found.boundaries, indirect_sites: found.indirect })
    }

    /// The branch-boundary map this program validated.
    pub fn boundaries(&self) -> (r: &BTreeMap<u64, (u64, u64)>)
        ensures
            r@ == self.boundary_map(),
    {
        &self.boundaries
    }

    /// Whether a conditional branch stands in the map as it is met.
    pub fn confirms_branch(&self, pc: u64, taken: u64, fallthrough: u64) -> (r: bool)
        ensures
            r == (self.boundary_map().contains_key(pc) && self.boundary_map()[pc] == (
                taken,
                fallthrough,
            )),
    {
        match self.boundaries.get(&pc) {
            Some(pair) => pair.0 == taken && pair.1 == fallthrough,
            None => false,
        }
    }

    /// Whether an indirect site stands in the map.
    pub fn confirms_indirect(&self, pc: u64) -> (r: bool)
        ensures
            r == self.indirect_list().contains(pc),
    {
        let mut i: usize = 0;
        while i < self.indirect_sites.len()
            invariant
                i <= self.indirect_sites@.len(),
                forall|j: int| 0 <= j < i ==> self.indirect_sites@[j] != pc,
            decreases self.indirect_sites@.len() - i,
        {
            if self.indirect_sites[i] == pc {
                assert(self.indirect_list()[i as int] == pc);
                return true;
            }
            i = i + 1;
        }
        false
    }
}

} // verus!
