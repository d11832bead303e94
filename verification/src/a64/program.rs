//! A precomputed map of an A64 image's control-flow boundaries.
use crate::a64::body::fetch;
use crate::a64::decode::{
    branch_offset, compare_branch_offset, extract, test_branch_offset, DecodeError,
};
use crate::explore::{explore, Found, Image, Walk};
use crate::memory::RawMemory;
use std::collections::BTreeMap;
use vstd::prelude::*;

verus! {

/// The declared, exhaustive target set of one indirect `BR`/`BLR`.
#[derive(Clone, Copy, Debug)]
pub struct Aarch64IndirectTargets<'a> {
    /// The instruction's address.
    pub pc: u64,
    /// Every address that it may go to.
    pub targets: &'a [u64],
}

/// The declared, exhaustive target set of one symbolic `RET`.
#[derive(Clone, Copy, Debug)]
pub struct Aarch64ReturnTargets<'a> {
    /// The instruction's address.
    pub pc: u64,
    /// Every address that it may return to.
    pub targets: &'a [u64],
}

/// An A64 image and what is declared of it.
pub struct A64Image<'a> {
    pub memory: RawMemory<'a>,
    pub indirect: &'a [Aarch64IndirectTargets<'a>],
    pub returns: &'a [Aarch64ReturnTargets<'a>],
}

/// What a word means to a walk.
pub enum Site {
    /// A conditional branch.
    Fork { taken: u64, fallthrough: u64 },
    /// A conditional branch that is always taken to fall through.
    Always,
    /// A `B` or `BL`.
    Jump(u64),
    /// A `BR`, or a `BLR`, behind which the walk goes on.
    Indirect { call: bool },
    Return,
    Exit,
    Straight,
}

/// The canonical `RET`.
pub const RET: u32 = 0xd65f_03c0;

/// `SVC #0`.
pub const SVC: u32 = 0xd400_0001;

/// The kind of a word at an address.
pub open spec fn site(pc: u64, raw: u32) -> Site {
    if crate::a64::decode::fits(raw, 0xfe00_0010, 0x5400_0000) {
        if crate::a64::decode::field(raw, 0, 4) == 14 {
            Site::Always
        } else {
            Site::Fork {
                taken: crate::a64::decode::relative(pc, raw, 5, 19),
                fallthrough: pc.wrapping_add(4),
            }
        }
    } else if crate::a64::state::compares(raw) {
        Site::Fork {
            taken: crate::a64::decode::relative(pc, raw, 5, 19),
            fallthrough: pc.wrapping_add(4),
        }
    } else if crate::a64::state::tests(raw) {
        Site::Fork {
            taken: crate::a64::decode::relative(pc, raw, 5, 14),
            fallthrough: pc.wrapping_add(4),
        }
    } else if crate::a64::state::jumps(raw) {
        Site::Jump(crate::a64::decode::relative(pc, raw, 0, 26))
    } else if crate::a64::decode::fits(raw, 0xffff_fc1f, 0xd61f_0000) {
        Site::Indirect { call: false }
    } else if crate::a64::decode::fits(raw, 0xffff_fc1f, 0xd63f_0000) {
        Site::Indirect { call: true }
    } else if raw == RET {
        Site::Return
    } else if raw == SVC {
        Site::Exit
    } else {
        Site::Straight
    }
}

/// The kind of a word at an address.
fn classify(pc: u64, raw: u32) -> (r: Site)
    ensures
        r == site(pc, raw),
{
    proof {
        vstd::arithmetic::power2::lemma2_to64();
    }
    if raw & 0xfe00_0010 == 0x5400_0000 {
        if extract(raw, 0, 4) == 14 {
            return Site::Always;
        }
        return Site::Fork {
            taken: pc.wrapping_add_signed(compare_branch_offset(raw)),
            fallthrough: pc.wrapping_add(4),
        };
    }
    if raw & 0x7e00_0000 == 0x3400_0000 {
        return Site::Fork {
            taken: pc.wrapping_add_signed(compare_branch_offset(raw)),
            fallthrough: pc.wrapping_add(4),
        };
    }
    if raw & 0x7e00_0000 == 0x3600_0000 {
        return Site::Fork {
            taken: pc.wrapping_add_signed(test_branch_offset(raw)),
            fallthrough: pc.wrapping_add(4),
        };
    }
    if raw & 0x7c00_0000 == 0x1400_0000 {
        return Site::Jump(pc.wrapping_add_signed(branch_offset(raw)));
    }
    if raw & 0xffff_fc1f == 0xd61f_0000 {
        return Site::Indirect { call: false };
    }
    if raw & 0xffff_fc1f == 0xd63f_0000 {
        return Site::Indirect { call: true };
    }
    if raw == RET {
        return Site::Return;
    }
    if raw == SVC {
        return Site::Exit;
    }
    Site::Straight
}

/// The first declaration of an indirect site, where there is one.
pub open spec fn declared(sites: Seq<Aarch64IndirectTargets<'_>>, pc: u64) -> Option<Seq<u64>>
    decreases sites.len(),
{
    if sites.len() == 0 {
        None
    } else if sites[0].pc == pc {
        Some(sites[0].targets@)
    } else {
        declared(sites.skip(1), pc)
    }
}

/// The first declaration of a return, where there is one.
pub open spec fn declared_return(sites: Seq<Aarch64ReturnTargets<'_>>, pc: u64) -> Option<Seq<u64>>
    decreases sites.len(),
{
    if sites.len() == 0 {
        None
    } else if sites[0].pc == pc {
        Some(sites[0].targets@)
    } else {
        declared_return(sites.skip(1), pc)
    }
}

fn find<'a>(sites: &'a [Aarch64IndirectTargets<'a>], pc: u64) -> (r: Option<&'a [u64]>)
    ensures
        match r {
            Some(targets) => declared(sites@, pc) == Some(targets@),
            None => declared(sites@, pc) is None,
        },
{
    let mut i: usize = 0;
    assert(sites@.skip(0) =~= sites@);
    while i < sites.len()
        invariant
            i <= sites@.len(),
            declared(sites@, pc) == declared(sites@.skip(i as int), pc),
        decreases sites@.len() - i,
    {
        if sites[i].pc == pc {
            return Some(sites[i].targets);
        }
        assert(sites@.skip(i as int).skip(1) =~= sites@.skip(i + 1));
        i = i + 1;
    }
    None
}

fn find_return<'a>(sites: &'a [Aarch64ReturnTargets<'a>], pc: u64) -> (r: Option<&'a [u64]>)
    ensures
        match r {
            Some(targets) => declared_return(sites@, pc) == Some(targets@),
            None => declared_return(sites@, pc) is None,
        },
{
    let mut i: usize = 0;
    assert(sites@.skip(0) =~= sites@);
    while i < sites.len()
        invariant
            i <= sites@.len(),
            declared_return(sites@, pc) == declared_return(sites@.skip(i as int), pc),
        decreases sites@.len() - i,
    {
        if sites[i].pc == pc {
            return Some(sites[i].targets);
        }
        assert(sites@.skip(i as int).skip(1) =~= sites@.skip(i + 1));
        i = i + 1;
    }
    None
}

/// A walk with more in front of it.
pub open spec fn behind(
    starts: Seq<u64>,
    indirect: Seq<u64>,
    rest: Result<Walk, DecodeError>,
) -> Result<
    Walk,
    DecodeError,
> {
    match rest {
        Ok(walk) => Ok(
            Walk { starts: starts + walk.starts, indirect: indirect + walk.indirect, ..walk },
        ),
        Err(e) => Err(e),
    }
}

impl<'a> A64Image<'a> {
    /// The walk from an address: straight-line code up to the first branch,
    /// return or exit. Declared indirect calls are passed over.
    pub open spec fn walk_from(self, pc: u64) -> Result<Walk, DecodeError>
        decreases u64::MAX - pc, 1int,
    {
        let none = crate::explore::nothing();
        match crate::a64::body::fetched(self.memory, pc) {
            None => Err(DecodeError::Memory(pc)),
            Some(raw) => match site(pc, raw) {
                Site::Fork { taken, fallthrough } => Ok(
                    Walk {
                        starts: seq![taken, fallthrough],
                        boundary: Some((pc, (taken, fallthrough))),
                        ..none
                    },
                ),
                Site::Jump(target) => Ok(Walk { starts: seq![target], ..none }),
                Site::Indirect { call } => match declared(self.indirect@, pc) {
                    None => Err(DecodeError::Unsupported(raw)),
                    Some(targets) => if targets.len() == 0 {
                        Err(DecodeError::Unsupported(raw))
                    } else if call {
                        behind(targets, seq![pc], self.walk_on(pc))
                    } else {
                        Ok(Walk { starts: targets, indirect: seq![pc], ..none })
                    },
                },
                Site::Return => match declared_return(self.returns@, pc) {
                    None => Ok(none),
                    Some(targets) => if targets.len() == 0 {
                        Err(DecodeError::Unsupported(raw))
                    } else {
                        Ok(Walk { starts: targets, returns: seq![pc], ..none })
                    },
                },
                Site::Exit => Ok(none),
                Site::Always => self.walk_on(pc),
                Site::Straight => self.walk_on(pc),
            },
        }
    }

    /// The walk from behind an instruction.
    pub open spec fn walk_on(self, pc: u64) -> Result<Walk, DecodeError>
        decreases u64::MAX - pc, 0int,
    {
        if pc <= u64::MAX - 4 {
            self.walk_from((pc + 4) as u64)
        } else {
            Ok(crate::explore::nothing())
        }
    }
}

/// An address at which a word is mapped.
spec fn mapped(memory: RawMemory<'_>, pc: u64) -> bool {
    crate::a64::body::fetched(memory, pc) is Some
}

/// The mapped addresses are those of the bytes and one more.
proof fn mapped_bound(memory: RawMemory<'_>, starts: Set<u64>)
    requires
        starts.finite(),
        forall|s: u64| #[trigger] starts.contains(s) ==> mapped(memory, s),
    ensures
        starts.len() <= memory.bytes().len() + 1,
{
    let laid = match memory.detect() {
        Some((at, _)) => at as u64,
        None => 0u64,
    };
    let rest = starts.remove(laid);
    let n = memory.bytes().len() as int;
    let f = |s: u64| s as int;
    let ints = rest.map(f);
    assert(vstd::set_lib::set_int_range(0, n).finite() && vstd::set_lib::set_int_range(0, n).len()
        == n) by {
        vstd::set_lib::lemma_int_range(0, n);
    }
    assert(vstd::relations::injective_on(f, rest));
    vstd::set_lib::lemma_map_size(rest, ints, f);
    assert(ints.subset_of(vstd::set_lib::set_int_range(0, n))) by {
        assert forall|i: int| ints.contains(i) implies vstd::set_lib::set_int_range(0, n).contains(
            i,
        ) by {
            let s = choose|s: u64| rest.contains(s) && f(s) == i;
            assert(starts.contains(s));
            assert(mapped(memory, s));
        }
    }
    vstd::set_lib::lemma_len_subset(ints, vstd::set_lib::set_int_range(0, n));
}

impl<'a> Image for A64Image<'a> {
    type Error = DecodeError;

    open spec fn walk(self, start: u64) -> Result<Walk, DecodeError> {
        self.walk_from(start)
    }

    open spec fn crowded(self, pc: u64) -> DecodeError {
        DecodeError::Malformed(crate::a64::body::fetched(self.memory, pc)->0)
    }

    open spec fn extent(self) -> nat {
        self.memory.bytes().len() + 1
    }

    proof fn within_extent(self, starts: Set<u64>) {
        assert forall|s: u64| #[trigger] starts.contains(s) implies mapped(self.memory, s) by {
            assert(self.walk(s) is Ok);
        }
        mapped_bound(self.memory, starts);
    }

    fn follow(&self, start: u64, found: &mut Found, max_boundaries: usize) -> (r: Result<
        (),
        DecodeError,
    >) {
        let ghost before = *found;
        let ghost mut starts: Seq<u64> = Seq::empty();
        let ghost mut indirect: Seq<u64> = Seq::empty();
        let mut pc: u64 = start;
        proof {
            assert(behind(starts, indirect, self.walk_from(pc)) == self.walk_from(pc)) by {
                match self.walk_from(pc) {
                    Ok(walk) => {
                        assert(starts + walk.starts =~= walk.starts);
                        assert(indirect + walk.indirect =~= walk.indirect);
                    },
                    Err(_) => {},
                }
            }
            assert(before.worklist@ + starts =~= before.worklist@);
            assert(before.indirect@ + indirect =~= before.indirect@);
        }
        loop
            invariant
                before == *old(found),
                self.walk(start) == behind(starts, indirect, self.walk_from(pc)),
                found.boundaries == before.boundaries,
                found.returns == before.returns,
                found.indirect@ == before.indirect@ + indirect,
                found.worklist@ == before.worklist@ + starts,
            decreases u64::MAX - pc,
        {
            let ghost none = crate::explore::nothing();
            let raw: u32 = match fetch(&self.memory, pc) {
                Some(raw) => raw,
                None => return Err(DecodeError::Memory(pc)),
            };
            match classify(pc, raw) {
                Site::Fork { taken, fallthrough } => {
                    if !found.boundaries.contains_key(&pc) && found.boundaries.len()
                        >= max_boundaries {
                        return Err(DecodeError::Malformed(raw));
                    }
                    found.boundaries.insert(pc, (taken, fallthrough));
                    found.worklist.push(taken);
                    found.worklist.push(fallthrough);
                    proof {
                        let walk = self.walk(start)->Ok_0;
                        assert(found.worklist@ =~= before.worklist@ + walk.starts);
                        assert(found.indirect@ =~= before.indirect@ + walk.indirect);
                        assert(found.returns@ =~= before.returns@ + walk.returns);
                    }
                    return Ok(());
                },
                Site::Jump(target) => {
                    found.worklist.push(target);
                    proof {
                        let walk = self.walk(start)->Ok_0;
                        assert(found.worklist@ =~= before.worklist@ + walk.starts);
                        assert(found.indirect@ =~= before.indirect@ + walk.indirect);
                        assert(found.returns@ =~= before.returns@ + walk.returns);
                    }
                    return Ok(());
                },
                Site::Indirect { call } => {
                    let targets = match find(self.indirect, pc) {
                        Some(targets) => targets,
                        None => return Err(DecodeError::Unsupported(raw)),
                    };
                    if targets.len() == 0 {
                        return Err(DecodeError::Unsupported(raw));
                    }
                    found.indirect.push(pc);
                    push_all(&mut found.worklist, targets);
                    proof {
                        assert(found.worklist@ =~= before.worklist@ + (starts + targets@));
                        assert(found.indirect@ =~= before.indirect@ + (indirect + seq![pc]));
                    }
                    if !call {
                        proof {
                            let walk = self.walk(start)->Ok_0;
                            assert(found.worklist@ =~= before.worklist@ + walk.starts);
                            assert(found.indirect@ =~= before.indirect@ + walk.indirect);
                            assert(found.returns@ =~= before.returns@ + walk.returns);
                        }
                        return Ok(());
                    }
                    proof {
                        match self.walk_on(pc) {
                            Ok(walk) => {
                                assert(starts + (targets@ + walk.starts) =~= (starts + targets@)
                                    + walk.starts);
                                assert(indirect + (seq![pc] + walk.indirect) =~= (indirect
                                    + seq![pc]) + walk.indirect);
                            },
                            Err(_) => {},
                        }
                        starts = starts + targets@;
                        indirect = indirect + seq![pc];
                    }
                },
                Site::Return => {
                    match find_return(self.returns, pc) {
                        Some(targets) => {
                            if targets.len() == 0 {
                                return Err(DecodeError::Unsupported(raw));
                            }
                            found.returns.push(pc);
                            push_all(&mut found.worklist, targets);
                        },
                        None => {},
                    }
                    proof {
                        let walk = self.walk(start)->Ok_0;
                        assert(found.worklist@ =~= before.worklist@ + walk.starts);
                        assert(found.indirect@ =~= before.indirect@ + walk.indirect);
                        assert(found.returns@ =~= before.returns@ + walk.returns);
                    }
                    return Ok(());
                },
                Site::Exit => {
                    proof {
                        let walk = self.walk(start)->Ok_0;
                        assert(found.worklist@ =~= before.worklist@ + walk.starts);
                        assert(found.indirect@ =~= before.indirect@ + walk.indirect);
                        assert(found.returns@ =~= before.returns@ + walk.returns);
                    }
                    return Ok(());
                },
                Site::Always => {},
                Site::Straight => {},
            }
            pc = pc + 4;
        }
    }
}

/// Append every address.
pub fn push_all(list: &mut Vec<u64>, addresses: &[u64])
    ensures
        final(list)@ == old(list)@ + addresses@,
{
    let mut i: usize = 0;
    assert(addresses@.take(0) =~= Seq::empty());
    assert(list@ =~= old(list)@ + addresses@.take(0));
    while i < addresses.len()
        invariant
            i <= addresses@.len(),
            list@ == old(list)@ + addresses@.take(i as int),
        decreases addresses@.len() - i,
    {
        list.push(addresses[i]);
        assert(list@ =~= old(list)@ + addresses@.take(i + 1));
        i = i + 1;
    }
    assert(addresses@.take(i as int) =~= addresses@);
}

/// A precomputed, validated map of an A64 image's control-flow boundaries.
///
/// This is only a cache for the live body runner: execution remains the same
/// instruction semantics, with the map proving which branch/return PCs have
/// already been discovered.
#[derive(Debug)]
pub struct Aarch64LoopedProgram {
    /// Every conditional branch boundary: pc -> (taken, fallthrough).
    boundaries: BTreeMap<u64, (u64, u64)>,
    /// Every declared indirect `BR`/`BLR` site.
    indirect_sites: Vec<u64>,
    /// Every declared symbolic `RET` site.
    return_sites: Vec<u64>,
}

impl Aarch64LoopedProgram {
    pub closed spec fn boundary_map(&self) -> Map<u64, (u64, u64)> {
        self.boundaries@
    }

    pub closed spec fn indirect_list(&self) -> Seq<u64> {
        self.indirect_sites@
    }

    pub closed spec fn return_list(&self) -> Seq<u64> {
        self.return_sites@
    }

    /// Walk the image from `entry` to the audited fixed point.
    ///
    /// Conditional branches enqueue both successors; direct branches follow
    /// the target; declared indirect/return sites enqueue their exhaustive
    /// target sets. SVC exit and canonical concrete `RET` stop a body.
    pub fn compile(
        memory: &RawMemory<'_>,
        entry: u64,
        indirect: &[Aarch64IndirectTargets<'_>],
        returns: &[Aarch64ReturnTargets<'_>],
        max_boundaries: usize,
    ) -> (r: Result<Self, DecodeError>)
        ensures
            ({
                let image = A64Image { memory: *memory, indirect, returns };
                match r {
                    Ok(program) => {
                        &&& program.boundary_map().len() <= max_boundaries
                        &&& forall|pc: u64, raw: u32, taken: int|
                            crate::a64::reach::linked(image, entry, pc) && crate::a64::reach::word_at(
                                image,
                                pc,
                                raw,
                            ) && #[trigger] crate::a64::reach::forks(pc, raw, taken)
                                ==> program.boundary_map().contains_key(pc)
                                && program.boundary_map()[pc].0 == taken
                                && program.boundary_map()[pc].1 == pc + 4
                        &&& forall|pc: u64| #[trigger]
                            program.boundary_map().contains_key(pc) ==> exists|raw: u32| #[trigger]
                                crate::a64::reach::word_at(image, pc, raw) && crate::a64::reach::forks(
                                    pc,
                                    raw,
                                    program.boundary_map()[pc].0 as int,
                                )
                        &&& exists|found: Found| #[trigger]
                            crate::explore::explored(image, entry, found)
                                && program.boundary_map() == found.boundaries@
                                && program.indirect_list() == found.indirect@
                                && program.return_list() == found.returns@
                    },
                    Err(e) => exists|s: u64| #[trigger]
                        crate::explore::reached(image, entry, s) && (image.walk(s) == Err::<
                            Walk,
                            DecodeError,
                        >(e) || (image.walk(s) matches Ok(walk) && walk.boundary matches Some(b)
                            && e == image.crowded(b.0) && exists|known: Map<u64, (u64, u64)>|
                         #[trigger]
                            crate::explore::grounded(image, entry, known) && known.dom().finite()
                                && known.len() > max_boundaries)),
                }
            }),
    {
        let image = A64Image { memory: *memory, indirect, returns };
        let found = explore(&image, entry, max_boundaries)?;
        let size: usize = memory.bytes.len();
        proof {
            assert(crate::explore::explored(image, entry, found));
            assert(crate::a64::reach::small(image)) by {
                assert(image.memory.bytes().len() == size);
            }
            assert forall|pc: u64, raw: u32, taken: int|
                crate::a64::reach::linked(image, entry, pc) && crate::a64::reach::word_at(
                    image,
                    pc,
                    raw,
                ) && #[trigger] crate::a64::reach::forks(
                    pc,
                    raw,
                    taken,
                ) implies found.boundaries@.contains_key(pc) && found.boundaries@[pc].0 == taken
                && found.boundaries@[pc].1 == pc + 4 by {
                let path = choose|path: Seq<u64>| #[trigger]
                    crate::a64::reach::way(image, path, entry, pc);
                crate::a64::reach::branches_met_are_boundaries(
                    image,
                    entry,
                    found,
                    path,
                    pc,
                    raw,
                    taken,
                );
            }
            assert forall|pc: u64| #[trigger]
                found.boundaries@.contains_key(pc) implies exists|raw: u32| #[trigger]
                crate::a64::reach::word_at(image, pc, raw) && crate::a64::reach::forks(
                    pc,
                    raw,
                    found.boundaries@[pc].0 as int,
                ) by {
                crate::a64::reach::boundaries_are_branches(image, entry, found, pc);
            }
        }
        Ok(
            Aarch64LoopedProgram {
                boundaries: found.boundaries,
                indirect_sites: found.indirect,
                return_sites: found.returns,
            },
        )
    }

    /// The branch-boundary map this program validated.
    pub fn boundaries(&self) -> (r: &BTreeMap<u64, (u64, u64)>)
        ensures
            r@ == self.boundary_map(),
    {
        &self.boundaries
    }

    /// Every declared indirect branch site.
    pub fn indirect_sites(&self) -> (r: &[u64])
        ensures
            r@ == self.indirect_list(),
    {
        self.indirect_sites.as_slice()
    }

    /// Every declared symbolic return site.
    pub fn return_sites(&self) -> (r: &[u64])
        ensures
            r@ == self.return_list(),
    {
        self.return_sites.as_slice()
    }
}

} // verus!
