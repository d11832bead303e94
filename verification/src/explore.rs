//! Walking a guest image to the fixed point of its control flow.
//!
//! A walk follows the code from one address to its first control-flow point.
//! What it finds there are further addresses to walk from; an exploration
//! walks from every address that can be reached so.
use std::collections::{BTreeMap, BTreeSet};
use vstd::prelude::*;

verus! {

/// What one walk finds.
#[verifier::ext_equal]
pub struct Walk {
    /// The addresses to walk from next.
    pub starts: Seq<u64>,
    /// The conditional branch at which the walk ended: its address, its target
    /// and the address behind it.
    pub boundary: Option<(u64, (u64, u64))>,
    /// The declared indirect jumps and calls on the way.
    pub indirect: Seq<u64>,
    /// The declared return at which the walk ended.
    pub returns: Seq<u64>,
}

/// A walk that finds nothing.
pub open spec fn nothing() -> Walk {
    Walk { starts: Seq::empty(), boundary: None, indirect: Seq::empty(), returns: Seq::empty() }
}

/// What has been found so far, and where to walk from next.
pub struct Found {
    pub boundaries: BTreeMap<u64, (u64, u64)>,
    pub indirect: Vec<u64>,
    pub returns: Vec<u64>,
    pub worklist: Vec<u64>,
}

impl Found {
    /// What a walk adds.
    pub open spec fn grew(self, before: Found, walk: Walk) -> bool {
        &&& self.boundaries@ == match walk.boundary {
            Some((pc, targets)) => before.boundaries@.insert(pc, targets),
            None => before.boundaries@,
        }
        &&& self.indirect@ == before.indirect@ + walk.indirect
        &&& self.returns@ == before.returns@ + walk.returns
        &&& self.worklist@ == before.worklist@ + walk.starts
    }
}

/// An image that can be walked.
pub trait Image: Sized {
    /// Why a walk fails.
    type Error;

    /// The walk from an address.
    spec fn walk(self, start: u64) -> Result<Walk, Self::Error>;

    /// The error of a conditional branch at this address for which there is
    /// no room.
    spec fn crowded(self, pc: u64) -> Self::Error;

    /// How many addresses a walk can start from.
    spec fn extent(self) -> nat;

    /// Walks start from no more addresses than the image has.
    proof fn within_extent(self, starts: Set<u64>)
        requires
            starts.finite(),
            forall|s: u64| starts.contains(s) ==> (#[trigger] self.walk(s)) is Ok,
        ensures
            starts.len() <= self.extent(),
    ;

    /// Walk from an address.
    fn follow(&self, start: u64, found: &mut Found, max_boundaries: usize) -> (r: Result<
        (),
        Self::Error,
    >)
        ensures
            match r {
                Ok(_) => self.walk(start) matches Ok(walk) && final(found).grew(*old(found), walk)
                    && (walk.boundary matches Some(b) ==> old(found).boundaries@.contains_key(b.0)
                    || old(found).boundaries@.len() < max_boundaries),
                Err(e) => self.walk(start) == Err::<Walk, Self::Error>(e) || (self.walk(
                    start,
                ) matches Ok(walk) && walk.boundary matches Some(b) && e == self.crowded(b.0)
                    && !old(found).boundaries@.contains_key(b.0) && old(found).boundaries@.len()
                    >= max_boundaries),
            },
    ;
}

/// The walk from one address finds another.
pub open spec fn leads<I: Image>(image: I, s: u64, t: u64) -> bool {
    image.walk(s) matches Ok(walk) && walk.starts.contains(t)
}

/// A chain of addresses from `entry`, each found by the walk from the one
/// before it.
pub open spec fn chain<I: Image>(image: I, entry: u64, path: Seq<u64>) -> bool {
    &&& path.len() > 0
    &&& path[0] == entry
    &&& forall|i: int|
        0 < i < path.len() ==> leads(image, path[i - 1], #[trigger] path[i])
}

/// An address that walks from `entry` lead to.
pub open spec fn reached<I: Image>(image: I, entry: u64, start: u64) -> bool {
    exists|path: Seq<u64>| #[trigger] chain(image, entry, path) && path.last() == start
}

/// Every boundary of a map stands at the end of a walk that is reached.
pub open spec fn grounded<I: Image>(image: I, entry: u64, boundaries: Map<u64, (u64, u64)>) -> bool {
    forall|pc: u64| #[trigger]
        boundaries.contains_key(pc) ==> exists|s: u64| #[trigger]
            reached(image, entry, s) && (image.walk(s) matches Ok(walk) && walk.boundary == Some(
                (pc, boundaries[pc]),
            ))
}

/// An exploration found exactly what the walks that are reached find.
pub open spec fn explored<I: Image>(image: I, entry: u64, found: Found) -> bool {
    &&& grounded(image, entry, found.boundaries@)
    &&& forall|s: u64| #[trigger] reached(image, entry, s) ==> covers(image, s, found)
    &&& forall|i: int|
        0 <= i < found.indirect@.len() ==> exists|s: u64| #[trigger]
            reached(image, entry, s) && (image.walk(s) matches Ok(walk) && walk.indirect.contains(
                #[trigger] found.indirect@[i],
            ))
    &&& forall|i: int|
        0 <= i < found.returns@.len() ==> exists|s: u64| #[trigger]
            reached(image, entry, s) && (image.walk(s) matches Ok(walk) && walk.returns.contains(
                #[trigger] found.returns@[i],
            ))
}

/// What the walk from an address finds has been found.
pub open spec fn covers<I: Image>(image: I, s: u64, found: Found) -> bool {
    image.walk(s) matches Ok(walk) && {
        &&& walk.boundary matches Some(b) ==> found.boundaries@.contains_key(b.0)
        &&& forall|i: int|
            0 <= i < walk.indirect.len() ==> found.indirect@.contains(#[trigger] walk.indirect[i])
        &&& forall|i: int|
            0 <= i < walk.returns.len() ==> found.returns@.contains(#[trigger] walk.returns[i])
    }
}

/// The address that an exploration starts from is reached.
pub proof fn entry_is_reached<I: Image>(image: I, entry: u64)
    ensures
        reached(image, entry, entry),
{
    let path = seq![entry];
    assert(chain(image, entry, path));
    assert(path.last() == entry);
}

/// What a walk from a reached address finds is reached.
pub proof fn found_is_reached<I: Image>(image: I, entry: u64, s: u64, t: u64)
    requires
        reached(image, entry, s),
        leads(image, s, t),
    ensures
        reached(image, entry, t),
{
    let path = choose|path: Seq<u64>| #[trigger] chain(image, entry, path) && path.last() == s;
    let more = path.push(t);
    assert forall|i: int| 0 < i < more.len() implies leads(image, more[i - 1], #[trigger] more[i]) by {
        if i < path.len() {
            assert(more[i] == path[i]);
        }
    }
    assert(chain(image, entry, more));
    assert(more.last() == t);
}

/// A set that holds the entry and whatever walks from its members find holds
/// every address that is reached.
proof fn closed_set_holds_all<I: Image>(image: I, entry: u64, set: Set<u64>, path: Seq<u64>)
    requires
        set.contains(entry),
        forall|s: u64, t: u64|
            set.contains(s) && #[trigger] leads(image, s, t) ==> set.contains(t),
        chain(image, entry, path),
    ensures
        set.contains(path.last()),
    decreases path.len(),
{
    if path.len() > 1 {
        let front = path.drop_last();
        assert forall|i: int| 0 < i < front.len() implies leads(
            image,
            front[i - 1],
            #[trigger] front[i],
        ) by {
            assert(front[i] == path[i]);
        }
        closed_set_holds_all(image, entry, set, front);
        let last = path.len() - 1;
        assert(leads(image, path[last - 1], path[last]));
    }
}

/// Everything found has its place in a walk that is reached, and every walk
/// that was made is covered.
spec fn sound<I: Image>(image: I, entry: u64, found: Found, visited: Set<u64>) -> bool {
    &&& grounded(image, entry, found.boundaries@)
    &&& forall|i: int|
        0 <= i < found.indirect@.len() ==> exists|s: u64| #[trigger]
            reached(image, entry, s) && (image.walk(s) matches Ok(walk) && walk.indirect.contains(
                #[trigger] found.indirect@[i],
            ))
    &&& forall|i: int|
        0 <= i < found.returns@.len() ==> exists|s: u64| #[trigger]
            reached(image, entry, s) && (image.walk(s) matches Ok(walk) && walk.returns.contains(
                #[trigger] found.returns@[i],
            ))
    &&& forall|s: u64| #[trigger]
        visited.contains(s) ==> reached(image, entry, s) && covers(image, s, found)
    &&& forall|i: int|
        0 <= i < found.worklist@.len() ==> reached(image, entry, #[trigger] found.worklist@[i])
}

/// Every address that is still to be walked from stands in the worklist.
spec fn pending<I: Image>(image: I, entry: u64, found: Found, visited: Set<u64>) -> bool {
    &&& visited.contains(entry) || found.worklist@.contains(entry)
    &&& forall|s: u64, t: u64|
        visited.contains(s) && #[trigger] leads(image, s, t) ==> visited.contains(t)
            || found.worklist@.contains(t)
}

/// A walk keeps what was found sound.
proof fn walk_is_sound<I: Image>(
    image: I,
    entry: u64,
    before: Found,
    after: Found,
    visited: Set<u64>,
    start: u64,
    walk: Walk,
)
    requires
        sound(image, entry, before, visited),
        reached(image, entry, start),
        image.walk(start) == Ok::<Walk, I::Error>(walk),
        after.grew(before, walk),
    ensures
        sound(image, entry, after, visited.insert(start)),
{
    assert forall|pc: u64| #[trigger] after.boundaries@.contains_key(pc) implies exists|s: u64|
        #[trigger]
        reached(image, entry, s) && (image.walk(s) matches Ok(w) && w.boundary == Some(
            (pc, after.boundaries@[pc]),
        )) by {
        if walk.boundary matches Some(b) && b.0 == pc {
            assert(reached(image, entry, start));
        } else {
            assert(before.boundaries@.contains_key(pc));
        }
    }
    assert forall|i: int| 0 <= i < after.indirect@.len() implies exists|s: u64| #[trigger]
        reached(image, entry, s) && (image.walk(s) matches Ok(w) && w.indirect.contains(
            #[trigger] after.indirect@[i],
        )) by {
        if i < before.indirect@.len() {
            assert(after.indirect@[i] == before.indirect@[i]);
        } else {
            assert(walk.indirect[i - before.indirect@.len()] == after.indirect@[i]);
            assert(reached(image, entry, start));
        }
    }
    assert forall|i: int| 0 <= i < after.returns@.len() implies exists|s: u64| #[trigger]
        reached(image, entry, s) && (image.walk(s) matches Ok(w) && w.returns.contains(
            #[trigger] after.returns@[i],
        )) by {
        if i < before.returns@.len() {
            assert(after.returns@[i] == before.returns@[i]);
        } else {
            assert(walk.returns[i - before.returns@.len()] == after.returns@[i]);
            assert(reached(image, entry, start));
        }
    }
    assert forall|s: u64| #[trigger] visited.insert(start).contains(s) implies reached(
        image,
        entry,
        s,
    ) && covers(image, s, after) by {
        if s == start {
            assert forall|i: int| 0 <= i < walk.indirect.len() implies after.indirect@.contains(
                #[trigger] walk.indirect[i],
            ) by {
                assert(after.indirect@[before.indirect@.len() + i] == walk.indirect[i]);
            }
            assert forall|i: int| 0 <= i < walk.returns.len() implies after.returns@.contains(
                #[trigger] walk.returns[i],
            ) by {
                assert(after.returns@[before.returns@.len() + i] == walk.returns[i]);
            }
        } else {
            assert(visited.contains(s));
            let w = image.walk(s)->Ok_0;
            assert forall|i: int| 0 <= i < w.indirect.len() implies after.indirect@.contains(
                #[trigger] w.indirect[i],
            ) by {
                let j = choose|j: int|
                    0 <= j < before.indirect@.len() && before.indirect@[j] == w.indirect[i];
                assert(before.indirect@.contains(w.indirect[i]));
                assert(after.indirect@[j] == w.indirect[i]);
            }
            assert forall|i: int| 0 <= i < w.returns.len() implies after.returns@.contains(
                #[trigger] w.returns[i],
            ) by {
                assert(before.returns@.contains(w.returns[i]));
                let j = choose|j: int|
                    0 <= j < before.returns@.len() && before.returns@[j] == w.returns[i];
                assert(after.returns@[j] == w.returns[i]);
            }
        }
    }
    assert forall|i: int| 0 <= i < after.worklist@.len() implies reached(
        image,
        entry,
        #[trigger] after.worklist@[i],
    ) by {
        if i < before.worklist@.len() {
            assert(after.worklist@[i] == before.worklist@[i]);
        } else {
            assert(walk.starts[i - before.worklist@.len()] == after.worklist@[i]);
            assert(leads(image, start, after.worklist@[i]));
            found_is_reached(image, entry, start, after.worklist@[i]);
        }
    }
}

/// A walk leaves nothing that it finds out of the worklist.
proof fn walk_is_pending<I: Image>(
    image: I,
    entry: u64,
    taken: Found,
    after: Found,
    before: Found,
    visited: Set<u64>,
    start: u64,
    walk: Walk,
)
    requires
        pending(image, entry, before, visited),
        before.worklist@ == taken.worklist@.push(start),
        image.walk(start) == Ok::<Walk, I::Error>(walk),
        after.grew(taken, walk),
    ensures
        pending(image, entry, after, visited.insert(start)),
{
    assert forall|t: u64| before.worklist@.contains(t) implies visited.insert(start).contains(t)
        || after.worklist@.contains(t) by {
        let j = choose|j: int| 0 <= j < before.worklist@.len() && before.worklist@[j] == t;
        if j < taken.worklist@.len() {
            assert(after.worklist@[j] == t);
        }
    }
    assert forall|s: u64, t: u64|
        visited.insert(start).contains(s) && #[trigger] leads(image, s, t) implies visited.insert(
        start,
    ).contains(t) || after.worklist@.contains(t) by {
        if s == start {
            let j = choose|j: int| 0 <= j < walk.starts.len() && walk.starts[j] == t;
            assert(after.worklist@[taken.worklist@.len() + j] == t);
        }
    }
}

/// Walk from every address that `entry` leads to. It fails where one of those
/// walks fails, and where they end at more than `max_boundaries` conditional
/// branches.
pub fn explore<I: Image>(image: &I, entry: u64, max_boundaries: usize) -> (r: Result<
    Found,
    I::Error,
>)
    ensures
        match r {
            Ok(found) => {
                &&& explored(*image, entry, found)
                &&& found.boundaries@.len() <= max_boundaries
                &&& found.worklist@.len() == 0
            },
            Err(e) => exists|s: u64| #[trigger]
                reached(*image, entry, s) && (image.walk(s) == Err::<Walk, I::Error>(e) || (
                image.walk(s) matches Ok(walk) && walk.boundary matches Some(b) && e
                    == image.crowded(b.0) && exists|known: Map<u64, (u64, u64)>| #[trigger]
                    grounded(*image, entry, known) && known.dom().finite() && known.len()
                        > max_boundaries)),
        },
{
    let mut found = Found {
        boundaries: BTreeMap::new(),
        indirect: Vec::new(),
        returns: Vec::new(),
        worklist: Vec::new(),
    };
    let mut visited: BTreeSet<u64> = BTreeSet::new();
    found.worklist.push(entry);
    proof {
        entry_is_reached(*image, entry);
        assert(found.worklist@[0] == entry);
        image.within_extent(Set::empty());
    }
    loop
        invariant
            sound(*image, entry, found, visited@),
            pending(*image, entry, found, visited@),
            found.boundaries@.len() <= max_boundaries,
            visited@.finite(),
            visited@.len() <= image.extent(),
        decreases image.extent() - visited@.len(), found.worklist@.len(),
    {
        let ghost before = found;
        let start: u64 = match found.worklist.pop() {
            Some(start) => start,
            None => {
                proof {
                    assert forall|s: u64| #[trigger] reached(*image, entry, s) implies covers(
                        *image,
                        s,
                        found,
                    ) by {
                        let path = choose|path: Seq<u64>| #[trigger]
                            chain(*image, entry, path) && path.last() == s;
                        closed_set_holds_all(*image, entry, visited@, path);
                    }
                }
                return Ok(found);
            },
        };
        let ghost taken = found;
        proof {
            assert(before.worklist@ =~= taken.worklist@.push(start));
            assert(before.worklist@[before.worklist@.len() - 1] == start);
            assert(reached(*image, entry, start));
        }
        if visited.contains(&start) {
            proof {
                assert forall|i: int| 0 <= i < found.worklist@.len() implies reached(
                    *image,
                    entry,
                    #[trigger] found.worklist@[i],
                ) by {
                    assert(found.worklist@[i] == before.worklist@[i]);
                }
                assert forall|t: u64| before.worklist@.contains(t) implies visited@.contains(t)
                    || found.worklist@.contains(t) by {
                    let j = choose|j: int| 0 <= j < before.worklist@.len() && before.worklist@[j] == t;
                    if j < found.worklist@.len() {
                        assert(found.worklist@[j] == t);
                    }
                }
            }
            continue;
        }
        proof {
            assert forall|i: int| 0 <= i < taken.worklist@.len() implies reached(
                *image,
                entry,
                #[trigger] taken.worklist@[i],
            ) by {
                assert(taken.worklist@[i] == before.worklist@[i]);
            }
            assert(sound(*image, entry, taken, visited@));
        }
        match image.follow(start, &mut found, max_boundaries) {
            Ok(_) => {},
            Err(error) => {
                proof {
                    if let Ok(walk) = image.walk(start) {
                        if let Some(b) = walk.boundary {
                            let known = taken.boundaries@.insert(b.0, b.1);
                            assert forall|pc: u64| #[trigger]
                                known.contains_key(pc) implies exists|s: u64| #[trigger]
                                reached(*image, entry, s) && (image.walk(s) matches Ok(w)
                                    && w.boundary == Some((pc, known[pc]))) by {
                                if pc == b.0 {
                                    assert(reached(*image, entry, start));
                                } else {
                                    assert(taken.boundaries@.contains_key(pc));
                                }
                            }
                            assert(grounded(*image, entry, known));
                        }
                    }
                }
                return Err(error);
            },
        }
        let ghost old_visited = visited@;
        visited.insert(start);
        proof {
            let walk = image.walk(start)->Ok_0;
            walk_is_sound(*image, entry, taken, found, old_visited, start, walk);
            walk_is_pending(*image, entry, taken, found, before, old_visited, start, walk);
            assert(visited@ =~= old_visited.insert(start));
            image.within_extent(visited@);
        }
    }
}

} // verus!
