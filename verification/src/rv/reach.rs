//! Which addresses of an image its control flow reaches: the laws of the
//! precomputed boundary map.
use crate::explore::{Found, Image, Walk};
use crate::rv::control::Answers;
use crate::rv::inst::{FetchError, RvOp};
use crate::rv::machine::{Frame, Hart, Step};
use crate::rv::program::{ProgramError, RvImage};
use vstd::prelude::*;

verus! {

/// The number of addresses.
pub open spec fn space() -> int {
    0x1_0000_0000_0000_0000
}

/// An image of 64-bit code.
pub open spec fn code<'a>(image: RvImage<'a>) -> Frame<'a> {
    Frame {
        mem: image.memory,
        storage_bits: 0,
        stack_top: 0,
        bits: 64,
        active: true,
        plain: false,
    }
}

/// An address is among the targets that are declared first for an indirect
/// jump, once the offset is added and made even.
pub open spec fn declares(image: RvImage<'_>, pc: u64, offset: rv_asm::Imm, to: u64) -> bool {
    exists|k: int, i: int|
        #![trigger image.indirect@[k].targets@[i]]
        0 <= k < image.indirect@.len() && image.indirect@[k].pc == pc && (forall|j: int|
            0 <= j < k ==> (#[trigger] image.indirect@[j]).pc != pc) && 0 <= i
            < image.indirect@[k].targets@.len() && to == 2 * (((image.indirect@[k].targets@[i]
            + crate::rv::inst::immediate_value(offset)) % space()) / 2)
}

/// The conventional return.
pub open spec fn is_return(inst: rv_asm::Inst) -> bool {
    inst matches rv_asm::Inst::Jalr { offset, base, dest } && dest.0 == 0 && base.0 == 1
        && crate::rv::inst::immediate_value(offset) == 0
}

/// The offset of a `JALR`.
spec fn jump_offset(inst: rv_asm::Inst) -> rv_asm::Imm {
    match inst {
        rv_asm::Inst::Jalr { offset, base: _, dest: _ } => offset,
        _ => arbitrary(),
    }
}

/// Where control may go from an instruction: on, to either side of a branch, to
/// the target of a jump, or to the target of a call and then on behind it. A
/// return and an environment call lead nowhere by themselves.
pub open spec fn follows(image: RvImage<'_>, pc: u64, inst: rv_asm::Inst, len: int, to: u64) -> bool {
    let on = to == (pc + len) % space();
    match inst {
        rv_asm::Inst::Jal { offset, dest } => to == (pc + crate::rv::inst::immediate_value(offset))
            % space() || (dest.0 != 0 && on),
        rv_asm::Inst::Jalr { offset, base, dest } => !is_return(inst) && (declares(
            image,
            pc,
            offset,
            to,
        ) || (dest.0 != 0 && on)),
        rv_asm::Inst::Ecall => false,
        _ => match crate::rv::instructions::branch_parts(inst) {
            Some((offset, _, _)) => on || to == (pc + crate::rv::inst::immediate_value(offset))
                % space(),
            None => on,
        },
    }
}

/// Control may go from one address to another.
pub open spec fn edge(image: RvImage<'_>, from: u64, to: u64) -> bool {
    exists|inst: rv_asm::Inst, len: int| #[trigger]
        crate::rv::instructions::stands(code(image), from as int, inst, len) && follows(
            image,
            from,
            inst,
            len,
            to,
        )
}

/// A way from one address to another.
pub open spec fn way(image: RvImage<'_>, path: Seq<u64>, from: u64, to: u64) -> bool {
    &&& path.len() > 0
    &&& path[0] == from
    &&& path.last() == to
    &&& forall|i: int| 0 < i < path.len() ==> edge(image, path[i - 1], #[trigger] path[i])
}

/// Control can get from one address to another.
pub open spec fn linked(image: RvImage<'_>, from: u64, to: u64) -> bool {
    exists|path: Seq<u64>| #[trigger] way(image, path, from, to)
}

/// A conditional branch stands at an address, with these two sides.
pub open spec fn branches_at(image: RvImage<'_>, pc: u64, taken: u64, on: u64) -> bool {
    exists|inst: rv_asm::Inst, len: int| #[trigger]
        crate::rv::instructions::stands(code(image), pc as int, inst, len) && (
        crate::rv::instructions::branch_parts(inst) matches Some((offset, a, b)) && a < 32 && b < 32
            && taken == (pc + crate::rv::inst::immediate_value(offset)) % space() && on == (pc + len)
            % space())
}

/// An address has a way to itself.
proof fn stays(image: RvImage<'_>, pc: u64)
    ensures
        linked(image, pc, pc),
{
    assert(way(image, seq![pc], pc, pc));
}

/// A way goes on.
proof fn goes_on(image: RvImage<'_>, a: u64, b: u64, c: u64)
    requires
        linked(image, a, b),
        edge(image, b, c),
    ensures
        linked(image, a, c),
{
    let path = choose|path: Seq<u64>| #[trigger] way(image, path, a, b);
    let more = path.push(c);
    assert forall|i: int| 0 < i < more.len() implies edge(image, more[i - 1], #[trigger] more[i]) by {
        if i < path.len() {
            assert(more[i] == path[i]);
        }
    }
    assert(way(image, more, a, c));
}

/// Ways join.
proof fn joins(image: RvImage<'_>, a: u64, b: u64, c: u64)
    requires
        linked(image, a, b),
        linked(image, b, c),
    ensures
        linked(image, a, c),
{
    let path = choose|path: Seq<u64>| #[trigger] way(image, path, b, c);
    joins_path(image, a, b, c, path);
}

proof fn joins_path(image: RvImage<'_>, a: u64, b: u64, c: u64, path: Seq<u64>)
    requires
        linked(image, a, b),
        way(image, path, b, c),
    ensures
        linked(image, a, c),
    decreases path.len(),
{
    if path.len() > 1 {
        let front = path.drop_last();
        assert forall|i: int| 0 < i < front.len() implies edge(
            image,
            front[i - 1],
            #[trigger] front[i],
        ) by {
            assert(front[i] == path[i]);
        }
        assert(way(image, front, b, front.last()));
        joins_path(image, a, b, front.last(), front);
        assert(edge(image, path[path.len() - 2], path[path.len() - 1]));
        goes_on(image, a, front.last(), c);
    }
}

/// The declaration of an indirect site and its landings.
proof fn declaration(image: RvImage<'_>, sites: Seq<crate::rv::program::IndirectTargets<'_>>, pc: u64, at: int)
    requires
        0 <= at,
        sites == image.indirect@.skip(at),
        at <= image.indirect@.len(),
        forall|j: int| 0 <= j < at ==> (#[trigger] image.indirect@[j]).pc != pc,
    ensures
        match crate::rv::program::declared(sites, pc) {
            Some(targets) => exists|k: int|
                0 <= k < image.indirect@.len() && (#[trigger] image.indirect@[k]).pc == pc && (
                forall|j: int| 0 <= j < k ==> (#[trigger] image.indirect@[j]).pc != pc) && targets
                    == image.indirect@[k].targets@,
            None => forall|j: int|
                0 <= j < image.indirect@.len() ==> (#[trigger] image.indirect@[j]).pc != pc,
        },
    decreases sites.len(),
{
    if sites.len() > 0 {
        assert(sites[0] == image.indirect@[at]);
        if sites[0].pc != pc {
            assert(sites.skip(1) =~= image.indirect@.skip(at + 1));
            declaration(image, sites.skip(1), pc, at + 1);
        } else {
            assert(image.indirect@[at].pc == pc);
        }
    }
}

/// What a site is declared to go to is where its landings are.
proof fn landings(image: RvImage<'_>, pc: u64, offset: rv_asm::Imm)
    ensures
        match crate::rv::program::declared(image.indirect@, pc) {
            Some(targets) => forall|to: u64|
                declares(image, pc, offset, to) <==> #[trigger] crate::rv::program::resolved_all(
                    targets,
                    crate::rv::inst::immediate(offset),
                    64,
                ).contains(to),
            None => forall|to: u64| !declares(image, pc, offset, to),
        },
{
    assert(image.indirect@.skip(0) =~= image.indirect@);
    declaration(image, image.indirect@, pc, 0);
    let v = crate::rv::inst::immediate(offset);
    if let Some(targets) = crate::rv::program::declared(image.indirect@, pc) {
        let k = choose|k: int|
            0 <= k < image.indirect@.len() && (#[trigger] image.indirect@[k]).pc == pc && (forall|
                j: int,
            |
                0 <= j < k ==> (#[trigger] image.indirect@[j]).pc != pc) && targets
                == image.indirect@[k].targets@;
        let all = crate::rv::program::resolved_all(targets, v, 64);
        assert forall|to: u64| declares(image, pc, offset, to) <==> #[trigger] all.contains(to) by {
            if all.contains(to) {
                let i = choose|i: int| 0 <= i < all.len() && all[i] == to;
                crate::rv::instructions::moved(targets[i], v, 64);
                assert(image.indirect@[k].targets@[i] == targets[i]);
            }
            if declares(image, pc, offset, to) {
                let (m, i) = choose|m: int, i: int|
                    #![trigger image.indirect@[m].targets@[i]]
                    0 <= m < image.indirect@.len() && image.indirect@[m].pc == pc && (forall|j: int|
                        0 <= j < m ==> (#[trigger] image.indirect@[j]).pc != pc) && 0 <= i
                        < image.indirect@[m].targets@.len() && to == 2 * (((
                    image.indirect@[m].targets@[i] + crate::rv::inst::immediate_value(offset))
                        % space()) / 2);
                assert(m == k) by {
                    assert(image.indirect@[k].pc == pc);
                    assert(image.indirect@[m].pc == pc);
                }
                crate::rv::instructions::moved(targets[i], v, 64);
                assert(all[i] == to);
            }
        }
    }
}

/// The instruction that an image has at an address, and the operation that is
/// fetched there.
proof fn stood(image: RvImage<'_>, pc: u64, inst: rv_asm::Inst, len: int)
    requires
        crate::rv::instructions::stands(code(image), pc as int, inst, len),
    ensures
        len == 2 || len == 4,
        crate::rv::inst::op_at(image.memory, pc, true) == Ok::<(RvOp, u64), FetchError>(
            (crate::rv::inst::lowered(inst), len as u64),
        ),
{
}

/// A fetched operation is that of an instruction.
proof fn fetched_from(image: RvImage<'_>, pc: u64) -> (r: (rv_asm::Inst, int))
    requires
        crate::rv::inst::op_at(image.memory, pc, true) is Ok,
    ensures
        crate::rv::instructions::stands(code(image), pc as int, r.0, r.1),
        crate::rv::inst::op_at(image.memory, pc, true) == Ok::<(RvOp, u64), FetchError>(
            (crate::rv::inst::lowered(r.0), r.1 as u64),
        ),
        r.1 == 2 || r.1 == 4,
{
    let first = image.memory.reads64(pc, 2)->0;
    let half = crate::memory::le_num(first) as u16;
    if half % 4 != 3 {
        (crate::rv::inst::decoded_half(half, true)->Ok_0, 2)
    } else {
        let bytes = image.memory.reads64(pc, 4)->0;
        (crate::rv::inst::decoded_word(crate::memory::le_num(bytes) as u32, true)->Ok_0, 4)
    }
}

/// The image ends before the address space does.
pub open spec fn small(image: RvImage<'_>) -> bool {
    image.memory.bytes().len() < space()
}

/// Nothing stands across the end of the address space.
proof fn fits(image: RvImage<'_>, pc: u64, inst: rv_asm::Inst, len: int)
    requires
        small(image),
        crate::rv::instructions::stands(code(image), pc as int, inst, len),
    ensures
        pc + len < space(),
{
}

/// Where control may go from an operation.
spec fn successor(image: RvImage<'_>, pc: u64, op: RvOp, len: u64, to: u64) -> bool {
    let on = to == pc.wrapping_add(len);
    match op {
        RvOp::Branch { predicate: _, left: _, right: _, offset } => on || to
            == crate::rv::machine::at(pc, offset),
        RvOp::Jump { dest, offset } => to == crate::rv::machine::at(pc, offset) || (dest != 0
            && on),
        RvOp::JumpRegister { dest, base, offset } => !(dest == 0 && base == 1 && offset == 0) && ((
        match crate::rv::program::declared(image.indirect@, pc) {
            Some(targets) => crate::rv::program::resolved_all(targets, offset, 64).contains(to),
            None => false,
        }) || (dest != 0 && on)),
        RvOp::Ecall => false,
        _ => on,
    }
}

/// The edges of an instruction, by its operation.
proof fn edges_of(image: RvImage<'_>, pc: u64, inst: rv_asm::Inst, len: int, to: u64)
    requires
        crate::rv::instructions::stands(code(image), pc as int, inst, len),
        !(crate::rv::inst::lowered(inst) is Unsupported),
    ensures
        follows(image, pc, inst, len, to) == successor(
            image,
            pc,
            crate::rv::inst::lowered(inst),
            len as u64,
            to,
        ),
{
    crate::rv::instructions::moved(pc, len as i64, 64);
    let op = crate::rv::inst::lowered(inst);
    match op {
        RvOp::Branch { predicate: _, left: _, right: _, offset } => {
            crate::rv::instructions::moved(pc, offset, 64);
        },
        RvOp::Jump { dest, offset } => {
            crate::rv::instructions::moved(pc, offset, 64);
        },
        RvOp::JumpRegister { dest, base, offset } => {
            landings(image, pc, jump_offset(inst));
        },
        _ => {},
    }
}

/// The edges of an address, by the operation that is fetched there.
proof fn edges(image: RvImage<'_>, pc: u64, op: RvOp, len: u64)
    requires
        crate::rv::inst::op_at(image.memory, pc, true) == Ok::<(RvOp, u64), FetchError>((op, len)),
        !(op is Unsupported),
    ensures
        len == 2 || len == 4,
        forall|to: u64| #[trigger] edge(image, pc, to) == successor(image, pc, op, len, to),
        small(image) ==> pc + len < space(),
{
    let (inst, n) = fetched_from(image, pc);
    if small(image) {
        fits(image, pc, inst, n);
    }
    assert forall|to: u64| #[trigger] edge(image, pc, to) == successor(image, pc, op, len, to) by {
        edges_of(image, pc, inst, n, to);
        if edge(image, pc, to) {
            let (other, m) = choose|other: rv_asm::Inst, m: int| #[trigger]
                crate::rv::instructions::stands(code(image), pc as int, other, m) && follows(
                    image,
                    pc,
                    other,
                    m,
                    to,
                );
            assert(other == inst && m == n);
        }
    }
}

/// An edge starts where an operation is fetched.
proof fn edge_starts(image: RvImage<'_>, pc: u64, to: u64)
    requires
        edge(image, pc, to),
    ensures
        crate::rv::inst::op_at(image.memory, pc, true) is Ok,
{
    let (inst, len) = choose|inst: rv_asm::Inst, len: int| #[trigger]
        crate::rv::instructions::stands(code(image), pc as int, inst, len) && follows(
            image,
            pc,
            inst,
            len,
            to,
        );
    stood(image, pc, inst, len);
}

/// The branch that stands at an address, by the operation that is fetched there.
proof fn branch_of(image: RvImage<'_>, pc: u64, taken: u64, on: u64)
    ensures
        branches_at(image, pc, taken, on) == match crate::rv::inst::op_at(image.memory, pc, true) {
            Ok((RvOp::Branch { predicate: _, left: _, right: _, offset }, len)) => taken
                == crate::rv::machine::at(pc, offset) && on == pc.wrapping_add(len),
            _ => false,
        },
{
    if branches_at(image, pc, taken, on) {
        let (inst, len) = choose|inst: rv_asm::Inst, len: int| #[trigger]
            crate::rv::instructions::stands(code(image), pc as int, inst, len) && (
            crate::rv::instructions::branch_parts(inst) matches Some((offset, a, b)) && a < 32 && b
                < 32 && taken == (pc + crate::rv::inst::immediate_value(offset)) % space() && on
                == (pc + len) % space());
        stood(image, pc, inst, len);
        crate::rv::instructions::moved(pc, len as i64, 64);
        let (imm, _, _) = crate::rv::instructions::branch_parts(inst)->0;
        crate::rv::instructions::moved(pc, crate::rv::inst::immediate(imm), 64);
    }
    if let Ok((RvOp::Branch { predicate: _, left: _, right: _, offset }, len)) =
        crate::rv::inst::op_at(image.memory, pc, true) {
        let (inst, n) = fetched_from(image, pc);
        crate::rv::instructions::moved(pc, n as i64, 64);
        crate::rv::instructions::moved(pc, offset, 64);
    }
}

/// What a walk finds can be reached from where it starts.
proof fn walk_links(image: RvImage<'_>, s: u64)
    requires
        image.walk_from(s) is Ok,
    ensures
        ({
            let walk = image.walk_from(s)->Ok_0;
            &&& forall|i: int| 0 <= i < walk.starts.len() ==> linked(image, s, #[trigger] walk.starts[i])
            &&& walk.boundary matches Some((pc, (taken, on))) ==> linked(image, s, pc)
                && branches_at(image, pc, taken, on)
        }),
    decreases u64::MAX - s, 1int,
{
    let walk = image.walk_from(s)->Ok_0;
    let (op, len) = crate::rv::inst::op_at(image.memory, s, true)->Ok_0;
    stays(image, s);
    edges(image, s, op, len);
    match op {
        RvOp::Branch { predicate: _, left: _, right: _, offset } => {
            assert forall|i: int| 0 <= i < walk.starts.len() implies linked(
                image,
                s,
                #[trigger] walk.starts[i],
            ) by {
                assert(edge(image, s, walk.starts[i]));
                goes_on(image, s, s, walk.starts[i]);
            }
            branch_of(image, s, walk.starts[0], walk.starts[1]);
        },
        RvOp::Jump { dest, offset } => {
            let target = crate::rv::machine::at(s, offset);
            assert(edge(image, s, target));
            goes_on(image, s, s, target);
            if dest != 0 {
                walk_on_links(image, s, op, len, seq![target], Seq::empty());
            }
        },
        RvOp::JumpRegister { dest, base, offset } => {
            if !(dest == 0 && base == 1 && offset == 0) {
                let targets = crate::rv::program::declared(image.indirect@, s)->0;
                let all = crate::rv::program::resolved_all(targets, offset, 64);
                assert forall|i: int| 0 <= i < all.len() implies linked(image, s, #[trigger] all[i]) by {
                    assert(all.contains(all[i]));
                    assert(edge(image, s, all[i]));
                    goes_on(image, s, s, all[i]);
                }
                if dest != 0 {
                    walk_on_links(image, s, op, len, all, seq![s]);
                }
            }
        },
        RvOp::Ecall => {},
        RvOp::Unsupported => {},
        _ => {
            walk_on_links(image, s, op, len, Seq::empty(), Seq::empty());
            match image.walk_on(s, len) {
                Ok(rest) => {
                    assert(Seq::<u64>::empty() + rest.starts =~= rest.starts);
                },
                Err(_) => {},
            }
        },
    }
}

/// What the walk from behind an instruction finds can be reached from it.
proof fn walk_on_links(
    image: RvImage<'_>,
    s: u64,
    op: RvOp,
    len: u64,
    starts: Seq<u64>,
    indirect: Seq<u64>,
)
    requires
        image.walk_on(s, len) is Ok,
        crate::rv::inst::op_at(image.memory, s, true) == Ok::<(RvOp, u64), FetchError>((op, len)),
        edge(image, s, s.wrapping_add(len)),
        len == 2 || len == 4,
        forall|i: int| 0 <= i < starts.len() ==> linked(image, s, #[trigger] starts[i]),
    ensures
        ({
            let walk = crate::rv::program::behind(
                starts,
                indirect,
                image.walk_on(s, len),
            )->Ok_0;
            &&& forall|i: int| 0 <= i < walk.starts.len() ==> linked(image, s, #[trigger] walk.starts[i])
            &&& walk.boundary matches Some((pc, (taken, on))) ==> linked(image, s, pc)
                && branches_at(image, pc, taken, on)
        }),
    decreases u64::MAX - s, 0int,
{
    let rest = image.walk_on(s, len)->Ok_0;
    if s + len <= u64::MAX {
        let next = (s + len) as u64;
        stays(image, s);
        goes_on(image, s, s, next);
        walk_links(image, next);
        assert forall|i: int| 0 <= i < rest.starts.len() implies linked(
            image,
            s,
            #[trigger] rest.starts[i],
        ) by {
            joins(image, s, next, rest.starts[i]);
        }
        if let Some((pc, _)) = rest.boundary {
            joins(image, s, next, pc);
        }
    }
    let walk = crate::rv::program::behind(starts, indirect, image.walk_on(s, len))->Ok_0;
    assert forall|i: int| 0 <= i < walk.starts.len() implies linked(
        image,
        s,
        #[trigger] walk.starts[i],
    ) by {
        if i < starts.len() {
            assert(walk.starts[i] == starts[i]);
        } else {
            assert(walk.starts[i] == rest.starts[i - starts.len()]);
        }
    }
}

/// Every address that is walked from can be reached.
proof fn reached_is_linked(image: RvImage<'_>, entry: u64, path: Seq<u64>)
    requires
        crate::explore::chain(image, entry, path),
    ensures
        linked(image, entry, path.last()),
    decreases path.len(),
{
    if path.len() == 1 {
        stays(image, entry);
    } else {
        let front = path.drop_last();
        assert forall|i: int| 0 < i < front.len() implies crate::explore::leads(
            image,
            front[i - 1],
            #[trigger] front[i],
        ) by {
            assert(front[i] == path[i]);
        }
        assert(crate::explore::chain(image, entry, front));
        reached_is_linked(image, entry, front);
        let s = front.last();
        assert(crate::explore::leads(image, path[path.len() - 2], path[path.len() - 1]));
        walk_links(image, s);
        let walk = image.walk_from(s)->Ok_0;
        let i = choose|i: int| 0 <= i < walk.starts.len() && walk.starts[i] == path.last();
        assert(linked(image, s, walk.starts[i]));
        joins(image, entry, s, path.last());
    }
}

/// A walk from `s` passes an address.
spec fn passes(image: RvImage<'_>, s: u64, pc: u64) -> bool {
    image.walk_from(s) is Ok && exists|starts: Seq<u64>, indirect: Seq<u64>|
        image.walk_from(s) == #[trigger] crate::rv::program::behind(
            starts,
            indirect,
            image.walk_from(pc),
        )
}

/// An address is passed by a walk of the exploration.
spec fn covered(image: RvImage<'_>, entry: u64, pc: u64) -> bool {
    exists|s: u64| #[trigger] crate::explore::reached(image, entry, s) && passes(image, s, pc)
}

/// A walk with more in front of what is in front of it.
proof fn behind_twice(
    a: Seq<u64>,
    i: Seq<u64>,
    b: Seq<u64>,
    j: Seq<u64>,
    rest: Result<Walk, ProgramError>,
)
    ensures
        crate::rv::program::behind(a, i, crate::rv::program::behind(b, j, rest))
            == crate::rv::program::behind(a + b, i + j, rest),
{
    if let Ok(walk) = rest {
        assert(a + (b + walk.starts) =~= (a + b) + walk.starts);
        assert(i + (j + walk.indirect) =~= (i + j) + walk.indirect);
    }
}

/// A walk passes where it starts.
proof fn passes_start(image: RvImage<'_>, entry: u64, s: u64)
    requires
        crate::explore::reached(image, entry, s),
        image.walk_from(s) is Ok,
    ensures
        covered(image, entry, s),
{
    let none = Seq::<u64>::empty();
    let walk = image.walk_from(s)->Ok_0;
    assert(none + walk.starts =~= walk.starts);
    assert(none + walk.indirect =~= walk.indirect);
    assert(image.walk_from(s) == crate::rv::program::behind(none, none, image.walk_from(s)));
    assert(passes(image, s, s));
}

/// Where control may go from an address is found by the walk from there, or the
/// walk goes on there.
proof fn walk_parts(image: RvImage<'_>, a: u64, b: u64) -> (r: (Seq<u64>, Seq<u64>))
    requires
        small(image),
        image.walk_from(a) is Ok,
        edge(image, a, b),
    ensures
        image.walk_from(a)->Ok_0.starts.contains(b) || image.walk_from(a)
            == crate::rv::program::behind(r.0, r.1, image.walk_from(b)),
{
    edge_starts(image, a, b);
    let (op, len) = crate::rv::inst::op_at(image.memory, a, true)->Ok_0;
    let here = image.walk_from(a)->Ok_0;
    edges(image, a, op, len);
    assert(successor(image, a, op, len, b));
    let none = Seq::<u64>::empty();
    match op {
        RvOp::Branch { predicate: _, left: _, right: _, offset } => {
            assert(here.starts[0] == b || here.starts[1] == b);
            (none, none)
        },
        RvOp::Jump { dest, offset } => {
            let target = crate::rv::machine::at(a, offset);
            assert(here.starts[0] == target);
            (seq![target], none)
        },
        RvOp::JumpRegister { dest, base, offset } => {
            if let Some(targets) = crate::rv::program::declared(image.indirect@, a) {
                let all = crate::rv::program::resolved_all(targets, offset, 64);
                if all.contains(b) {
                    let i = choose|i: int| 0 <= i < all.len() && all[i] == b;
                    assert(here.starts[i] == b);
                }
                (all, seq![a])
            } else {
                (none, none)
            }
        },
        _ => {
            assert(image.walk_from(a) == image.walk_from(b));
            assert(none + here.starts =~= here.starts);
            assert(none + here.indirect =~= here.indirect);
            (none, none)
        },
    }
}

/// Where control may go from an address that is passed is passed too.
proof fn passes_on(image: RvImage<'_>, entry: u64, found: Found, a: u64, b: u64)
    requires
        small(image),
        crate::explore::explored(image, entry, found),
        covered(image, entry, a),
        edge(image, a, b),
    ensures
        covered(image, entry, b),
{
    let s = choose|s: u64| #[trigger]
        crate::explore::reached(image, entry, s) && passes(image, s, a);
    let (starts, indirect) = choose|starts: Seq<u64>, indirect: Seq<u64>|
        image.walk_from(s) == #[trigger] crate::rv::program::behind(
            starts,
            indirect,
            image.walk_from(a),
        );
    let here = image.walk_from(a)->Ok_0;
    let whole = image.walk_from(s)->Ok_0;
    let (more, sites) = walk_parts(image, a, b);
    if here.starts.contains(b) {
        let i = choose|i: int| 0 <= i < here.starts.len() && here.starts[i] == b;
        assert(whole.starts[starts.len() + i] == b);
        assert(crate::explore::leads(image, s, b));
        crate::explore::found_is_reached(image, entry, s, b);
        assert(crate::explore::covers(image, b, found));
        passes_start(image, entry, b);
    } else {
        behind_twice(starts, indirect, more, sites, image.walk_from(b));
        assert(passes(image, s, b));
    }
}

/// Every address that can be reached is passed by a walk.
proof fn linked_is_covered(image: RvImage<'_>, entry: u64, found: Found, path: Seq<u64>, pc: u64)
    requires
        small(image),
        crate::explore::explored(image, entry, found),
        way(image, path, entry, pc),
    ensures
        covered(image, entry, pc),
    decreases path.len(),
{
    if path.len() == 1 {
        crate::explore::entry_is_reached(image, entry);
        assert(crate::explore::covers(image, entry, found));
        passes_start(image, entry, entry);
    } else {
        let front = path.drop_last();
        assert forall|i: int| 0 < i < front.len() implies edge(
            image,
            front[i - 1],
            #[trigger] front[i],
        ) by {
            assert(front[i] == path[i]);
        }
        assert(way(image, front, entry, front.last()));
        linked_is_covered(image, entry, found, front, front.last());
        assert(edge(image, path[path.len() - 2], path[path.len() - 1]));
        passes_on(image, entry, found, front.last(), pc);
    }
}

/// The boundary map holds exactly the conditional branches that control can get
/// to from the entry, each with its two sides.
pub proof fn boundaries_are_the_reachable_branches(
    image: RvImage<'_>,
    entry: u64,
    found: Found,
    pc: u64,
)
    requires
        small(image),
        crate::explore::explored(image, entry, found),
    ensures
        found.boundaries@.contains_key(pc) <==> linked(image, entry, pc) && exists|
            taken: u64,
            on: u64,
        | #[trigger]
            branches_at(image, pc, taken, on),
        found.boundaries@.contains_key(pc) ==> branches_at(
            image,
            pc,
            found.boundaries@[pc].0,
            found.boundaries@[pc].1,
        ),
{
    if found.boundaries@.contains_key(pc) {
        let s = choose|s: u64| #[trigger]
            crate::explore::reached(image, entry, s) && (image.walk(s) matches Ok(walk)
                && walk.boundary == Some((pc, found.boundaries@[pc])));
        let path = choose|path: Seq<u64>| #[trigger]
            crate::explore::chain(image, entry, path) && path.last() == s;
        reached_is_linked(image, entry, path);
        walk_links(image, s);
        joins(image, entry, s, pc);
    }
    if linked(image, entry, pc) && exists|taken: u64, on: u64| #[trigger]
        branches_at(image, pc, taken, on) {
        let (taken, on) = choose|taken: u64, on: u64| #[trigger] branches_at(image, pc, taken, on);
        let path = choose|path: Seq<u64>| #[trigger] way(image, path, entry, pc);
        linked_is_covered(image, entry, found, path, pc);
        let s = choose|s: u64| #[trigger]
            crate::explore::reached(image, entry, s) && passes(image, s, pc);
        branch_of(image, pc, taken, on);
        assert(crate::explore::covers(image, s, found));
    }
}

/// Wherever control can get to from the entry of a program that was accepted, an
/// instruction of the subset stands, and an indirect jump or call has a
/// declaration.
pub proof fn accepted_code_is_supported(
    image: RvImage<'_>,
    entry: u64,
    found: Found,
    pc: u64,
)
    requires
        small(image),
        crate::explore::explored(image, entry, found),
        linked(image, entry, pc),
    ensures
        exists|inst: rv_asm::Inst, len: int| #[trigger]
            crate::rv::instructions::stands(code(image), pc as int, inst, len)
                && crate::rv::instructions::executable(inst) && (inst is Jalr && !is_return(inst)
                ==> found.indirect@.contains(pc) && exists|k: int|
                0 <= k < image.indirect@.len() && (#[trigger] image.indirect@[k]).pc == pc
                    && image.indirect@[k].targets@.len() > 0),
{
    let path = choose|path: Seq<u64>| #[trigger] way(image, path, entry, pc);
    linked_is_covered(image, entry, found, path, pc);
    let s = choose|s: u64| #[trigger]
        crate::explore::reached(image, entry, s) && passes(image, s, pc);
    assert(crate::explore::covers(image, s, found));
    let (starts, indirect) = choose|starts: Seq<u64>, indirect: Seq<u64>|
        image.walk_from(s) == #[trigger] crate::rv::program::behind(
            starts,
            indirect,
            image.walk_from(pc),
        );
    let (inst, len) = fetched_from(image, pc);
    crate::rv::instructions::executable_is_lowered(inst);
    let whole = image.walk_from(s)->Ok_0;
    let here = image.walk_from(pc)->Ok_0;
    if inst is Jalr && !is_return(inst) {
        assert(image.indirect@.skip(0) =~= image.indirect@);
        declaration(image, image.indirect@, pc, 0);
        assert(here.indirect[0] == pc);
        assert(whole.indirect[indirect.len() as int] == pc);
        let i = indirect.len() as int;
        assert(found.indirect@.contains(whole.indirect[i]));
    }
}

/// What the exploration takes for granted of a step: a hook sends no call
/// elsewhere and resumes none that does not link, an environment call does not go on, and a register that a
/// declared jump or call goes by holds one of its declared targets.
pub open spec fn ordinary(
    image: RvImage<'_>,
    h: Hart,
    inst: rv_asm::Inst,
    answers: Answers,
) -> bool {
    &&& !(answers.action is Divert)
    &&& !(inst is Ecall)
    &&& inst matches rv_asm::Inst::Jalr { offset, base, dest } ==> (dest.0 == 0
        ==> answers.action is Continue) && exists|k: int, i: int|
        #![trigger image.indirect@[k].targets@[i]]
        0 <= k < image.indirect@.len() && image.indirect@[k].pc == h.pc && (forall|j: int|
            0 <= j < k ==> (#[trigger] image.indirect@[j]).pc != h.pc) && 0 <= i
            < image.indirect@[k].targets@.len() && image.indirect@[k].targets@[i]
            == crate::bits::num(crate::rv::instructions::reads(h, base.0, 64))
}

/// A step of the machine, in any state, goes where control may go: to an address
/// that an edge leads to, pushing for a call the address behind it, which an
/// edge leads to as well; or, for a return, to the address pushed last.
pub proof fn steps_follow_edges(
    image: RvImage<'_>,
    frame: Frame<'_>,
    h: Hart,
    cells: Seq<bool>,
    answers: Answers,
    inst: rv_asm::Inst,
    len: int,
)
    requires
        small(image),
        frame.mem == image.memory,
        frame.bits == 64,
        !frame.plain,
        crate::rv::instructions::shaped(h, 64),
        0 <= h.rsp <= h.rstack.len(),
        crate::rv::instructions::stands(frame, h.pc as int, inst, len),
        is_return(inst) || ordinary(image, h, inst, answers),
        !(inst is Ecall),
    ensures
        match h.step(cells, frame, answers) {
            Step::Next { hart, cells: _, pc } => {
                &&& hart.pc == pc
                &&& if is_return(inst) {
                    h.rsp > 0 && pc == h.rstack[h.rsp - 1] && hart.rsp == h.rsp - 1 && hart.rstack
                        == h.rstack
                } else {
                    &&& edge(image, h.pc, pc)
                    &&& hart.rsp == h.rsp && hart.rstack == h.rstack || {
                        &&& hart.rsp == h.rsp + 1
                        &&& h.rsp < h.rstack.len()
                        &&& hart.rstack == h.rstack.update(h.rsp, hart.rstack[h.rsp])
                        &&& edge(image, h.pc, hart.rstack[h.rsp])
                    }
                }
            },
            _ => true,
        },
{
    assert(crate::rv::instructions::stands(code(image), h.pc as int, inst, len));
    stood(image, h.pc, inst, len);
    fits(image, h.pc, inst, len);
    let on = (h.pc + len) as u64;
    let op = crate::rv::inst::lowered(inst);
    assert(crate::wide::low(h.pc.wrapping_add(len as u64), 64) == on);
    match op {
        RvOp::Branch { predicate: _, left: _, right: _, offset } => {
            crate::rv::instructions::moved(h.pc, offset, 64);
            let taken = crate::rv::machine::at(h.pc, offset);
            assert(follows(image, h.pc, inst, len, on));
            assert(follows(image, h.pc, inst, len, taken));
        },
        RvOp::Jump { dest, offset } => {
            crate::rv::instructions::moved(h.pc, offset, 64);
            let target = crate::rv::machine::at(h.pc, offset);
            assert(follows(image, h.pc, inst, len, target));
            if dest != 0 {
                assert(follows(image, h.pc, inst, len, on));
            }
        },
        RvOp::JumpRegister { dest, base, offset } => {
            if !is_return(inst) {
                let word = crate::rv::instructions::reads(h, base, 64);
                assert(h.reset(64).regs[base as int] == word);
                crate::bits::num_bound(word);
                crate::rv::instructions::moved(0, 0, 64);
                let v = crate::bits::num(word) as u64;
                crate::rv::instructions::moved(v, offset, 64);
                let full = crate::rv::machine::at(v, offset);
                let to = (full - full % 2) as u64;
                let imm = jump_offset(inst);
                let (k, i) = choose|k: int, i: int|
                    #![trigger image.indirect@[k].targets@[i]]
                    0 <= k < image.indirect@.len() && image.indirect@[k].pc == h.pc && (forall|
                        j: int,
                    |
                        0 <= j < k ==> (#[trigger] image.indirect@[j]).pc != h.pc) && 0 <= i
                        < image.indirect@[k].targets@.len() && image.indirect@[k].targets@[i] == v;
                assert(image.indirect@[k].targets@[i] == v);
                assert(declares(image, h.pc, imm, to));
                assert(follows(image, h.pc, inst, len, to));
                if dest != 0 {
                    assert(follows(image, h.pc, inst, len, on));
                }
            }
        },
        RvOp::Unsupported => {},
        _ => {
            assert(follows(image, h.pc, inst, len, on));
        },
    }
}

/// An address from which a walk cannot go on: no instruction of the subset
/// stands there, or an indirect jump or call for which no target is declared.
pub open spec fn stuck(image: RvImage<'_>, pc: u64) -> bool {
    forall|inst: rv_asm::Inst, len: int| #[trigger]
        crate::rv::instructions::stands(code(image), pc as int, inst, len) ==> {
            ||| !crate::rv::instructions::executable(inst)
            ||| inst is Jalr && !is_return(inst) && forall|to: u64|
                !declares(image, pc, jump_offset_of(inst), to)
        }
}

/// The offset of a `JALR`.
pub open spec fn jump_offset_of(inst: rv_asm::Inst) -> rv_asm::Imm {
    match inst {
        rv_asm::Inst::Jalr { offset, base: _, dest: _ } => offset,
        _ => arbitrary(),
    }
}

/// A walk fails only where control can get to an address from which it cannot
/// go on.
pub proof fn refused_walks_are_stuck(image: RvImage<'_>, s: u64)
    requires
        image.walk_from(s) is Err,
    ensures
        exists|pc: u64| #[trigger] stuck(image, pc) && linked(image, s, pc),
    decreases u64::MAX - s,
{
    stays(image, s);
    match crate::rv::inst::op_at(image.memory, s, true) {
        Err(_) => {
            assert forall|inst: rv_asm::Inst, len: int| #[trigger]
                crate::rv::instructions::stands(code(image), s as int, inst, len) implies false by {
                stood(image, s, inst, len);
            }
            assert(stuck(image, s));
        },
        Ok((op, len)) => {
            let (inst, n) = fetched_from(image, s);
            crate::rv::instructions::executable_is_lowered(inst);
            if op is Unsupported {
                assert forall|other: rv_asm::Inst, m: int| #[trigger]
                    crate::rv::instructions::stands(code(image), s as int, other, m) implies other
                    == inst by {}
                assert(stuck(image, s));
            } else {
                edges(image, s, op, len);
                let next = s.wrapping_add(len);
                match op {
                    RvOp::JumpRegister { dest, base, offset } => {
                        landings(image, s, jump_offset_of(inst));
                        let unknown = match crate::rv::program::declared(image.indirect@, s) {
                            None => true,
                            Some(targets) => targets.len() == 0,
                        };
                        if unknown {
                            assert forall|to: u64| !declares(
                                image,
                                s,
                                jump_offset_of(inst),
                                to,
                            ) by {
                                match crate::rv::program::declared(image.indirect@, s) {
                                    None => {},
                                    Some(targets) => {
                                        assert(!crate::rv::program::resolved_all(
                                            targets,
                                            offset,
                                            64,
                                        ).contains(to));
                                    },
                                }
                            }
                            assert forall|other: rv_asm::Inst, m: int| #[trigger]
                                crate::rv::instructions::stands(
                                    code(image),
                                    s as int,
                                    other,
                                    m,
                                ) implies other == inst by {}
                            assert(stuck(image, s));
                        } else {
                            refused_on(image, s, next);
                        }
                    },
                    _ => {
                        refused_on(image, s, next);
                    },
                }
            }
        },
    }
}

/// The walk from behind an instruction fails.
proof fn refused_on(image: RvImage<'_>, s: u64, next: u64)
    requires
        edge(image, s, next),
        next > s,
        image.walk_from(next) is Err,
    ensures
        exists|pc: u64| #[trigger] stuck(image, pc) && linked(image, s, pc),
    decreases u64::MAX - s, 0int,
{
    refused_walks_are_stuck(image, next);
    let pc = choose|pc: u64| #[trigger] stuck(image, pc) && linked(image, next, pc);
    stays(image, s);
    goes_on(image, s, s, next);
    joins(image, s, next, pc);
}

/// The instruction of a state.
pub open spec fn at_hand(image: RvImage<'_>, h: Hart) -> rv_asm::Inst {
    let (inst, _) = choose|inst: rv_asm::Inst, len: int| #[trigger]
        crate::rv::instructions::stands(code(image), h.pc as int, inst, len);
    inst
}

/// The control flow of a run: each state has the program counter and the return
/// addresses that the step of some state with the program counter and the
/// return addresses of the one before leaves, whatever its registers hold.
pub open spec fn control(image: RvImage<'_>, frame: Frame<'_>, a: Hart, b: Hart) -> bool {
    exists|h: Hart, cells: Seq<bool>, answers: Answers|
        #![trigger h.step(cells, frame, answers)]
        h.pc == a.pc && h.rsp == a.rsp && h.rstack == a.rstack && crate::rv::instructions::shaped(
            h,
            64,
        ) && (is_return(at_hand(image, h)) || ordinary(image, h, at_hand(image, h), answers))
            && !(at_hand(image, h) is Ecall) && match h.step(cells, frame, answers) {
            Step::Next { hart, cells: _, pc: _ } => hart.pc == b.pc && hart.rsp == b.rsp
                && hart.rstack == b.rstack,
            _ => false,
        }
}

/// Every address that a run from the entry comes to is one that control can get
/// to, and so is every return address that it holds.
pub proof fn runs_stay_in_reach(
    image: RvImage<'_>,
    frame: Frame<'_>,
    entry: u64,
    states: Seq<Hart>,
)
    requires
        small(image),
        frame.mem == image.memory,
        frame.bits == 64,
        !frame.plain,
        states.len() > 0,
        states[0].pc == entry,
        states[0].rsp == 0,
        forall|i: int| 0 < i < states.len() ==> control(image, frame, states[i - 1], #[trigger] states[i]),
    ensures
        linked(image, entry, states.last().pc),
        0 <= states.last().rsp <= states.last().rstack.len(),
        forall|k: int|
            0 <= k < states.last().rsp ==> linked(image, entry, #[trigger] states.last().rstack[k]),
    decreases states.len(),
{
    if states.len() == 1 {
        stays(image, entry);
    } else {
        let front = states.drop_last();
        assert forall|i: int| 0 < i < front.len() implies control(
            image,
            frame,
            front[i - 1],
            #[trigger] front[i],
        ) by {
            assert(front[i] == states[i]);
        }
        runs_stay_in_reach(image, frame, entry, front);
        let a = front.last();
        let b = states.last();
        assert(control(image, frame, states[states.len() - 2], states[states.len() - 1]));
        let (h, cells, answers) = choose|h: Hart, cells: Seq<bool>, answers: Answers|
            #![trigger h.step(cells, frame, answers)]
            h.pc == a.pc && h.rsp == a.rsp && h.rstack == a.rstack
                && crate::rv::instructions::shaped(h, 64) && (is_return(at_hand(image, h))
                || ordinary(image, h, at_hand(image, h), answers)) && !(at_hand(image, h) is Ecall)
                && match h.step(cells, frame, answers) {
                Step::Next { hart, cells: _, pc: _ } => hart.pc == b.pc && hart.rsp == b.rsp
                    && hart.rstack == b.rstack,
                _ => false,
            };
        assert(crate::rv::inst::op_at(image.memory, h.pc, true) is Ok);
        let (inst, len) = fetched_from(image, h.pc);
        let (chosen, n) = choose|inst: rv_asm::Inst, len: int| #[trigger]
            crate::rv::instructions::stands(code(image), h.pc as int, inst, len);
        assert(chosen == inst);
        assert(crate::rv::instructions::stands(frame, h.pc as int, inst, len));
        steps_follow_edges(image, frame, h, cells, answers, inst, len);
        if !is_return(inst) {
            goes_on(image, entry, a.pc, b.pc);
            if b.rsp == a.rsp + 1 {
                goes_on(image, entry, a.pc, b.rstack[a.rsp]);
                assert forall|k: int| 0 <= k < b.rsp implies linked(
                    image,
                    entry,
                    #[trigger] b.rstack[k],
                ) by {
                    if k < a.rsp {
                        assert(b.rstack[k] == a.rstack[k]);
                    }
                }
            } else {
                assert forall|k: int| 0 <= k < b.rsp implies linked(
                    image,
                    entry,
                    #[trigger] b.rstack[k],
                ) by {
                    assert(b.rstack[k] == a.rstack[k]);
                }
            }
        } else {
            assert(linked(image, entry, a.rstack[a.rsp - 1]));
            assert forall|k: int| 0 <= k < b.rsp implies linked(
                image,
                entry,
                #[trigger] b.rstack[k],
            ) by {
                assert(b.rstack[k] == a.rstack[k]);
            }
        }
    }
}

} // verus!
