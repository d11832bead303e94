//! Which conditional branches an execution of an A64 image can meet: the laws of
//! the precomputed boundary map.
use crate::a64::program::{A64Image, Aarch64IndirectTargets, Aarch64ReturnTargets, Site};
use crate::a64::state::{Core, Effect};
use crate::explore::{Found, Image};
use vstd::prelude::*;

verus! {

/// The word at an address, low byte first.
pub open spec fn word_at(image: A64Image<'_>, pc: u64, raw: u32) -> bool {
    image.memory.reads64(pc, 4) matches Some(bytes) && bytes.len() == 4 && raw == bytes[0] + 0x100
        * bytes[1] + 0x1_0000 * bytes[2] + 0x100_0000 * bytes[3]
}

/// An address is among the targets of the first declaration of an indirect site.
pub open spec fn names(sites: Seq<Aarch64IndirectTargets<'_>>, pc: u64, to: u64) -> bool {
    exists|k: int|
        0 <= k < sites.len() && (#[trigger] sites[k]).pc == pc && (forall|j: int|
            0 <= j < k ==> (#[trigger] sites[j]).pc != pc) && sites[k].targets@.contains(to)
}

/// An address is among the targets of the first declaration of a return.
pub open spec fn names_return(sites: Seq<Aarch64ReturnTargets<'_>>, pc: u64, to: u64) -> bool {
    exists|k: int|
        0 <= k < sites.len() && (#[trigger] sites[k]).pc == pc && (forall|j: int|
            0 <= j < k ==> (#[trigger] sites[j]).pc != pc) && sites[k].targets@.contains(to)
}

/// `BR` or, with `link`, `BLR` of some register.
pub open spec fn through_register(raw: u32, link: bool) -> bool {
    raw % 0x20 == 0 && raw / 0x400 == if link {
        0x35_8fc0int
    } else {
        0x35_87c0
    }
}

/// Control may go from one address to another: a step of the machine goes there
/// in some state, or it is a declared target of an indirect jump, an indirect
/// call or a return, or it lies behind an indirect call.
pub open spec fn edge(image: A64Image<'_>, from: u64, to: u64) -> bool {
    exists|raw: u32| #[trigger]
        word_at(image, from, raw) && {
            ||| exists|c: Core, known: bool|
                (#[trigger] c.step(from, raw, known)) matches Effect::Next { next, .. } && next == to
            ||| (through_register(raw, false) || through_register(raw, true)) && names(
                image.indirect@,
                from,
                to,
            )
            ||| through_register(raw, true) && to == from + 4
            ||| raw == 0xd65f_03c0 && names_return(image.returns@, from, to)
        }
}

/// A way from one address to another.
pub open spec fn way(image: A64Image<'_>, path: Seq<u64>, from: u64, to: u64) -> bool {
    &&& path.len() > 0
    &&& path[0] == from
    &&& path.last() == to
    &&& forall|i: int| 0 < i < path.len() ==> edge(image, path[i - 1], #[trigger] path[i])
}

/// Control can get from one address to another.
pub open spec fn linked(image: A64Image<'_>, from: u64, to: u64) -> bool {
    exists|path: Seq<u64>| #[trigger] way(image, path, from, to)
}

/// The address that a signed field of a branch leads to.
pub open spec fn side(pc: u64, field: int, size: int) -> int {
    (pc + 4 * (if 2 * field < size {
        field
    } else {
        field - size
    })) % 0x1_0000_0000_0000_0000
}

/// A conditional branch, by its word, with where it goes when it is taken:
/// `CBZ` and `CBNZ`, `TBZ` and `TBNZ`, and `B` under a condition that can fail.
pub open spec fn forks(pc: u64, raw: u32, taken: int) -> bool {
    ||| (raw / 0x200_0000) % 0x40 == 0x1a && taken == side(pc, (raw as int / 32) % 0x8_0000, 0x8_0000)
    ||| (raw / 0x200_0000) % 0x40 == 0x1b && taken == side(pc, (raw as int / 32) % 0x4000, 0x4000)
    ||| raw / 0x200_0000 == 0x2a && (raw / 0x10) % 2 == 0 && raw % 16 != 14 && taken == side(
        pc,
        (raw as int / 32) % 0x8_0000,
        0x8_0000,
    )
}

/// The image ends before the address space does.
pub open spec fn small(image: A64Image<'_>) -> bool {
    image.memory.bytes().len() < 0x1_0000_0000_0000_0000
}

proof fn fetched_word(image: A64Image<'_>, pc: u64, raw: u32)
    requires
        word_at(image, pc, raw),
    ensures
        crate::a64::body::fetched(image.memory, pc) == Some(raw),
        small(image) ==> pc + 4 < 0x1_0000_0000_0000_0000,
{
    crate::memory::le_num_4(image.memory.reads64(pc, 4)->0);
}

/// What a word is to a walk, by number.
proof fn fork_site(pc: u64, raw: u32, taken: int)
    requires
        forks(pc, raw, taken),
    ensures
        crate::a64::program::site(pc, raw) == (Site::Fork {
            taken: taken as u64,
            fallthrough: pc.wrapping_add(4),
        }),
        0 <= taken < 0x1_0000_0000_0000_0000,
{
    crate::a64::instructions::forms(raw);
    crate::a64::instructions::fields(raw);
}

/// Only a conditional branch is one to a walk.
proof fn site_forks(pc: u64, raw: u32)
    ensures
        crate::a64::program::site(pc, raw) matches Site::Fork { taken, fallthrough } ==> forks(
            pc,
            raw,
            taken as int,
        ) && fallthrough == (pc + 4) % 0x1_0000_0000_0000_0000,
{
    crate::a64::instructions::forms(raw);
    crate::a64::instructions::fields(raw);
    let near = (raw as int / 32) % 0x4000;
    let wide = (raw as int / 32) % 0x8_0000;
    assert(crate::a64::decode::relative(pc, raw, 5, 19) as int == side(pc, wide, 0x8_0000));
    assert(crate::a64::decode::relative(pc, raw, 5, 14) as int == side(pc, near, 0x4000));
}

/// A step goes where the walk expects it to.
proof fn steps_by_site(c: Core, pc: u64, raw: u32, known: bool)
    ensures
        c.step(pc, raw, known) matches Effect::Next { next, .. } ==> match crate::a64::program::site(
            pc,
            raw,
        ) {
            Site::Fork { taken, fallthrough } => next == taken || next == fallthrough,
            Site::Jump(target) => next == target,
            Site::Straight => next == pc.wrapping_add(4),
            _ => false,
        },
{
    crate::a64::instructions::forms(raw);
    crate::a64::instructions::fields(raw);
}

proof fn register_site(pc: u64, raw: u32)
    ensures
        through_register(raw, false) ==> crate::a64::program::site(pc, raw) == (Site::Indirect {
            call: false,
        }),
        through_register(raw, true) ==> crate::a64::program::site(pc, raw) == (Site::Indirect {
            call: true,
        }),
        raw == 0xd65f_03c0 ==> crate::a64::program::site(pc, raw) == Site::Return,
{
    crate::a64::instructions::forms(raw);
    crate::a64::instructions::fields(raw);
}

proof fn named(sites: Seq<Aarch64IndirectTargets<'_>>, pc: u64, to: u64)
    requires
        names(sites, pc, to),
    ensures
        crate::a64::program::declared(sites, pc) matches Some(targets) && targets.contains(to),
    decreases sites.len(),
{
    let k = choose|k: int|
        0 <= k < sites.len() && (#[trigger] sites[k]).pc == pc && (forall|j: int|
            0 <= j < k ==> (#[trigger] sites[j]).pc != pc) && sites[k].targets@.contains(to);
    if k > 0 {
        assert(sites[0].pc != pc);
        let rest = sites.skip(1);
        assert(rest[k - 1] == sites[k]);
        assert forall|j: int| 0 <= j < k - 1 implies (#[trigger] rest[j]).pc != pc by {
            assert(rest[j] == sites[j + 1]);
        }
        named(rest, pc, to);
    }
}

proof fn named_return(sites: Seq<Aarch64ReturnTargets<'_>>, pc: u64, to: u64)
    requires
        names_return(sites, pc, to),
    ensures
        crate::a64::program::declared_return(sites, pc) matches Some(targets) && targets.contains(to),
    decreases sites.len(),
{
    let k = choose|k: int|
        0 <= k < sites.len() && (#[trigger] sites[k]).pc == pc && (forall|j: int|
            0 <= j < k ==> (#[trigger] sites[j]).pc != pc) && sites[k].targets@.contains(to);
    if k > 0 {
        assert(sites[0].pc != pc);
        let rest = sites.skip(1);
        assert(rest[k - 1] == sites[k]);
        assert forall|j: int| 0 <= j < k - 1 implies (#[trigger] rest[j]).pc != pc by {
            assert(rest[j] == sites[j + 1]);
        }
        named_return(rest, pc, to);
    }
}

/// A walk that passes an address goes on behind it.
spec fn passed(image: A64Image<'_>, pc: u64) -> bool {
    pc <= u64::MAX - 4 && match crate::a64::body::fetched(image.memory, pc) {
        None => false,
        Some(raw) => match crate::a64::program::site(pc, raw) {
            Site::Straight | Site::Always => true,
            Site::Indirect { call } => call,
            _ => false,
        },
    }
}

/// The walk from one address passes up to another.
spec fn passes(image: A64Image<'_>, s: u64, pc: u64) -> bool
    decreases pc,
{
    pc == s || (pc >= 4 && passes(image, s, (pc - 4) as u64) && passed(image, (pc - 4) as u64))
}

/// What the walk finds from an address that it passes, it finds.
proof fn walk_passes(image: A64Image<'_>, s: u64, pc: u64)
    requires
        passes(image, s, pc),
        image.walk_from(s) is Ok,
    ensures
        image.walk_from(pc) is Ok,
        image.walk_from(pc)->Ok_0.boundary == image.walk_from(s)->Ok_0.boundary,
        forall|t: u64| #[trigger]
            image.walk_from(pc)->Ok_0.starts.contains(t) ==> image.walk_from(s)->Ok_0.starts.contains(
                t,
            ),
    decreases pc,
{
    if pc != s {
        let prev = (pc - 4) as u64;
        walk_passes(image, s, prev);
        assert(image.walk_on(prev) == image.walk_from(pc));
        let raw = crate::a64::body::fetched(image.memory, prev)->0;
        if let Site::Indirect { call } = crate::a64::program::site(prev, raw) {
            let targets = crate::a64::program::declared(image.indirect@, prev)->0;
            let on = image.walk_from(pc)->Ok_0;
            assert(image.walk_from(prev)->Ok_0.starts == targets + on.starts);
            assert forall|t: u64| #[trigger] on.starts.contains(t) implies image.walk_from(
                prev,
            )->Ok_0.starts.contains(t) by {
                let i = choose|i: int| 0 <= i < on.starts.len() && on.starts[i] == t;
                assert((targets + on.starts)[targets.len() + i] == t);
            }
        }
    }
}

/// A walk that is made passes the address.
spec fn covered(image: A64Image<'_>, entry: u64, pc: u64) -> bool {
    exists|s: u64| #[trigger] crate::explore::reached(image, entry, s) && passes(image, s, pc)
}

proof fn covers_start(image: A64Image<'_>, entry: u64, s: u64, a: u64, b: u64)
    requires
        crate::explore::reached(image, entry, s),
        image.walk_from(s) is Ok,
        passes(image, s, a),
        image.walk_from(a) matches Ok(walk) && walk.starts.contains(b),
    ensures
        covered(image, entry, b),
{
    walk_passes(image, s, a);
    assert(crate::explore::leads(image, s, b));
    crate::explore::found_is_reached(image, entry, s, b);
    assert(passes(image, b, b));
}

/// Wherever control may go from a covered address is covered.
proof fn covers_edge(image: A64Image<'_>, entry: u64, found: Found, a: u64, b: u64)
    requires
        crate::explore::explored(image, entry, found),
        small(image),
        covered(image, entry, a),
        edge(image, a, b),
    ensures
        covered(image, entry, b),
{
    let s = choose|s: u64| #[trigger]
        crate::explore::reached(image, entry, s) && passes(image, s, a);
    assert(crate::explore::covers(image, s, found));
    walk_passes(image, s, a);
    let raw = choose|raw: u32| #[trigger]
        word_at(image, a, raw) && {
            ||| exists|c: Core, known: bool|
                (#[trigger] c.step(a, raw, known)) matches Effect::Next { next, .. } && next == b
            ||| (through_register(raw, false) || through_register(raw, true)) && names(
                image.indirect@,
                a,
                b,
            )
            ||| through_register(raw, true) && b == a + 4
            ||| raw == 0xd65f_03c0 && names_return(image.returns@, a, b)
        };
    fetched_word(image, a, raw);
    register_site(a, raw);
    let walk = image.walk_from(a)->Ok_0;
    if exists|c: Core, known: bool|
        (#[trigger] c.step(a, raw, known)) matches Effect::Next { next, .. } && next == b {
        let (c, known) = choose|c: Core, known: bool|
            (#[trigger] c.step(a, raw, known)) matches Effect::Next { next, .. } && next == b;
        steps_by_site(c, a, raw, known);
        match crate::a64::program::site(a, raw) {
            Site::Fork { taken, fallthrough } => {
                assert(walk.starts[0] == taken && walk.starts[1] == fallthrough);
                covers_start(image, entry, s, a, b);
            },
            Site::Jump(target) => {
                assert(walk.starts[0] == target);
                covers_start(image, entry, s, a, b);
            },
            _ => {
                assert(b == a + 4);
                assert(passes(image, s, b));
            },
        }
    } else if through_register(raw, true) && b == a + 4 {
        assert(passes(image, s, b));
    } else if raw == 0xd65f_03c0 && names_return(image.returns@, a, b) {
        named_return(image.returns@, a, b);
        covers_start(image, entry, s, a, b);
    } else {
        named(image.indirect@, a, b);
        let targets = crate::a64::program::declared(image.indirect@, a)->0;
        let i = choose|i: int| 0 <= i < targets.len() && targets[i] == b;
        assert(walk.starts[i] == b);
        covers_start(image, entry, s, a, b);
    }
}

proof fn covers_way(image: A64Image<'_>, entry: u64, found: Found, path: Seq<u64>, pc: u64)
    requires
        crate::explore::explored(image, entry, found),
        small(image),
        way(image, path, entry, pc),
    ensures
        covered(image, entry, pc),
    decreases path.len(),
{
    if path.len() > 1 {
        let front = path.drop_last();
        assert forall|i: int| 0 < i < front.len() implies edge(
            image,
            front[i - 1],
            #[trigger] front[i],
        ) by {
            assert(front[i] == path[i]);
        }
        covers_way(image, entry, found, front, front.last());
        assert(edge(image, path[path.len() - 2], path[path.len() - 1]));
        covers_edge(image, entry, found, front.last(), pc);
    } else {
        crate::explore::entry_is_reached(image, entry);
        assert(passes(image, entry, entry));
    }
}

/// The boundary that a walk ends at is the conditional branch that stands there.
proof fn boundary_is_fork(image: A64Image<'_>, pc: u64)
    ensures
        image.walk_from(pc) matches Ok(walk) ==> (walk.boundary matches Some(b) ==> (
        crate::a64::body::fetched(image.memory, b.0) matches Some(raw) && crate::a64::program::site(
            b.0,
            raw,
        ) == (Site::Fork { taken: b.1.0, fallthrough: b.1.1 }))),
    decreases u64::MAX - pc,
{
    if passed(image, pc) {
        boundary_is_fork(image, (pc + 4) as u64);
        assert(image.walk_on(pc) == image.walk_from((pc + 4) as u64));
    }
}

/// Every conditional branch that an execution can meet, by steps of the machine
/// and through declared targets, is a boundary of the map, with its two sides.
pub proof fn branches_met_are_boundaries(
    image: A64Image<'_>,
    entry: u64,
    found: Found,
    path: Seq<u64>,
    pc: u64,
    raw: u32,
    taken: int,
)
    requires
        crate::explore::explored(image, entry, found),
        small(image),
        way(image, path, entry, pc),
        word_at(image, pc, raw),
        forks(pc, raw, taken),
    ensures
        found.boundaries@.contains_key(pc),
        found.boundaries@[pc].0 == taken,
        found.boundaries@[pc].1 == pc + 4,
{
    covers_way(image, entry, found, path, pc);
    fetched_word(image, pc, raw);
    fork_site(pc, raw, taken);
    let s = choose|s: u64| #[trigger]
        crate::explore::reached(image, entry, s) && passes(image, s, pc);
    assert(crate::explore::covers(image, s, found));
    walk_passes(image, s, pc);
    assert(found.boundaries@.contains_key(pc));
    let t = choose|t: u64| #[trigger]
        crate::explore::reached(image, entry, t) && (image.walk(t) matches Ok(walk) && walk.boundary
            == Some((pc, found.boundaries@[pc])));
    boundary_is_fork(image, t);
}

/// Only conditional branches of the image are boundaries, each with its two sides.
pub proof fn boundaries_are_branches(image: A64Image<'_>, entry: u64, found: Found, pc: u64)
    requires
        crate::explore::explored(image, entry, found),
        found.boundaries@.contains_key(pc),
    ensures
        exists|raw: u32| #[trigger]
            word_at(image, pc, raw) && forks(pc, raw, found.boundaries@[pc].0 as int),
        found.boundaries@[pc].1 == (pc + 4) % 0x1_0000_0000_0000_0000,
{
    let t = choose|t: u64| #[trigger]
        crate::explore::reached(image, entry, t) && (image.walk(t) matches Ok(walk) && walk.boundary
            == Some((pc, found.boundaries@[pc])));
    boundary_is_fork(image, t);
    let raw = crate::a64::body::fetched(image.memory, pc)->0;
    let bytes = image.memory.reads64(pc, 4)->0;
    crate::memory::le_num_4(bytes);
    assert(word_at(image, pc, raw));
    site_forks(pc, raw);
}

} // verus!
