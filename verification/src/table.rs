//! Scheduling primitives shared by the loop adapters.
//!
//! A [`CandidateTable`] borrows storage from its caller. It retains a live
//! prefix, accumulates the next generation in the disjoint tail, rejects
//! overflow, deduplicates deterministically, and compacts only after every
//! current candidate has been examined. The table has no instruction set
//! state, decoder, or circuit dependency: adapters own those semantics and use
//! this type only for virtual-IP candidate lifecycle management.
use crate::context::{keep, ContextWithValue, Gate};
use crate::word::{BitOp, ContextWithErtOps};
use vstd::prelude::*;
use vstd::std_specs::cmp::PartialEqSpec;

verus! {

/// A candidate-table operation could not preserve its fixed-capacity
/// invariants.
#[derive(Clone, Copy, Debug, Eq, PartialEq, Structural)]
pub enum TableError {
    /// The caller supplied no storage or the next generation exceeded it.
    Capacity,
    /// A next-generation operation was attempted outside an active generation.
    NoActiveGeneration,
}

/// A generation failed: in a candidate's body, or for want of room.
#[derive(Clone, Copy, Debug, Eq, PartialEq)]
pub enum DriveError<E> {
    /// A candidate's body failed.
    Driver(E),
    /// The table could not hold the next generation.
    Table(TableError),
}

/// What `==` says of two candidates is known.
pub open spec fn comparable<T: PartialEq>() -> bool {
    <T as PartialEqSpec>::obeys_eq_spec()
}

/// `==` on candidates means that they are the same.
pub open spec fn exact<T: PartialEq>() -> bool {
    forall|a: T, b: T| #[trigger] a.eq_spec(&b) <==> a == b
}

/// Some candidate of a generation is equal to a candidate.
pub open spec fn present<T: PartialEq>(next: Seq<T>, candidate: T) -> bool {
    exists|i: int| 0 <= i < next.len() && (#[trigger] next[i]).eq_spec(&candidate)
}

/// No candidate of a generation is equal to one before it.
pub open spec fn distinct<T: PartialEq>(next: Seq<T>) -> bool {
    forall|i: int, j: int|
        #![trigger next[i], next[j]]
        0 <= i < j < next.len() ==> !next[i].eq_spec(&next[j])
}

/// Where `==` means that candidates are the same, a candidate is present where
/// the generation holds it, and distinct candidates differ.
pub proof fn exact_presence<T: PartialEq>(next: Seq<T>, candidate: T)
    requires
        exact::<T>(),
    ensures
        present(next, candidate) == next.contains(candidate),
        distinct(next) == next.no_duplicates(),
{
    if next.contains(candidate) {
        let i = choose|i: int| 0 <= i < next.len() && next[i] == candidate;
        assert(next[i].eq_spec(&candidate));
    }
    if next.no_duplicates() {
        assert(distinct(next));
    }
    if distinct(next) {
        assert forall|i: int, j: int|
            0 <= i < next.len() && 0 <= j < next.len() && i != j implies next[i] != next[j] by {
            if i < j {
                assert(!next[i].eq_spec(&next[j]));
            } else {
                assert(!next[j].eq_spec(&next[i]));
            }
        }
    }
}

/// A generation with one more candidate, unless an equal one is there already.
pub open spec fn appended<T: PartialEq>(next: Seq<T>, candidate: T) -> Seq<T> {
    if present(next, candidate) {
        next
    } else {
        next.push(candidate)
    }
}

/// A generation with more candidates, in first-seen order.
pub open spec fn extended<T: PartialEq>(next: Seq<T>, candidates: Seq<T>) -> Seq<T>
    decreases candidates.len(),
{
    if candidates.len() == 0 {
        next
    } else {
        appended(extended(next, candidates.drop_last()), candidates.last())
    }
}

/// No candidate is equal to one before it in a generation that grew from such a
/// one.
pub proof fn extended_is_distinct<T: PartialEq>(next: Seq<T>, candidates: Seq<T>)
    requires
        distinct(next),
    ensures
        distinct(extended(next, candidates)),
    decreases candidates.len(),
{
    if candidates.len() > 0 {
        extended_is_distinct(next, candidates.drop_last());
    }
}

/// A generation grows by no more than what it is given.
pub proof fn extended_bound<T: PartialEq>(next: Seq<T>, candidates: Seq<T>)
    ensures
        next.len() <= extended(next, candidates).len() <= next.len() + candidates.len(),
    decreases candidates.len(),
{
    if candidates.len() > 0 {
        extended_bound(next, candidates.drop_last());
    }
}

/// A generation given candidates in two parts is given them all.
pub proof fn extended_twice<T: PartialEq>(next: Seq<T>, candidates: Seq<T>, at: int)
    requires
        0 <= at <= candidates.len(),
    ensures
        extended(next, candidates) == extended(
            extended(next, candidates.take(at)),
            candidates.skip(at),
        ),
        extended(next, candidates.take(at)).len() <= extended(next, candidates).len(),
    decreases candidates.len(),
{
    let front = candidates.take(at);
    if at == candidates.len() {
        assert(front =~= candidates);
        assert(candidates.skip(at) =~= Seq::empty());
    } else {
        let shorter = candidates.drop_last();
        extended_twice(next, shorter, at);
        assert(shorter.take(at) =~= front);
        assert(candidates.skip(at).drop_last() =~= shorter.skip(at));
        assert(candidates.skip(at).last() == candidates.last());
    }
}

/// A generation holds exactly the candidates that it had and those that it
/// was given, where `==` means that candidates are the same.
pub proof fn extended_holds_both<T: PartialEq>(next: Seq<T>, candidates: Seq<T>, c: T)
    requires
        exact::<T>(),
    ensures
        extended(next, candidates).contains(c) <==> next.contains(c) || candidates.contains(c),
    decreases candidates.len(),
{
    if candidates.len() > 0 {
        let front = candidates.drop_last();
        let so_far = extended(next, front);
        extended_holds_both(next, front, c);
        exact_presence(so_far, candidates.last());
        if front.contains(c) {
            let i = choose|i: int| 0 <= i < front.len() && front[i] == c;
            assert(candidates[i] == c);
        }
        if candidates.contains(c) && candidates.last() != c {
            let i = choose|i: int| 0 <= i < candidates.len() && candidates[i] == c;
            assert(front[i] == c);
        }
        if so_far.contains(c) && !so_far.contains(candidates.last()) {
            let i = choose|i: int| 0 <= i < so_far.len() && so_far[i] == c;
            assert(so_far.push(candidates.last())[i] == c);
        }
        if candidates.last() == c {
            assert(candidates.contains(c));
            if !so_far.contains(c) {
                assert(so_far.push(c)[so_far.len() as int] == c);
            }
        }
    }
}

/// Whether one of the first entries is a candidate.
fn holds<T: Copy + Eq>(entries: &[T], from: usize, to: usize, candidate: &T) -> (r: bool)
    requires
        from <= to <= entries@.len(),
    ensures
        comparable::<T>() ==> r == present(entries@.subrange(from as int, to as int), *candidate),
{
    let mut i: usize = from;
    while i < to
        invariant
            from <= i <= to <= entries@.len(),
            comparable::<T>() ==> forall|j: int|
                from <= j < i ==> !(#[trigger] entries@[j]).eq_spec(candidate),
        decreases to - i,
    {
        if entries[i] == *candidate {
            assert(comparable::<T>() ==> entries@.subrange(from as int, to as int)[i
                - from].eq_spec(candidate));
            return true;
        }
        i = i + 1;
    }
    false
}

/// Append `candidate` to a caller-owned next-generation slice unless already
/// present, preserving first-seen order.
///
/// This is the low-level form used by adapters that must keep their current
/// generation readable while executing a body. Prefer [`CandidateTable`] when
/// the adapter can borrow the whole lifecycle at once.
pub fn append_unique<T: Copy + Eq>(next: &mut [T], len: usize, candidate: T) -> (r: Result<
    usize,
    TableError,
>)
    ensures
        final(next)@.len() == old(next)@.len(),
        comparable::<T>() ==> r == if len > old(next)@.len() {
            Err::<usize, TableError>(TableError::NoActiveGeneration)
        } else if present(old(next)@.take(len as int), candidate) {
            Ok(len)
        } else if len == old(next)@.len() {
            Err(TableError::Capacity)
        } else {
            Ok((len + 1) as usize)
        },
        r matches Ok(n) ==> len <= n <= len + 1 && n <= old(next)@.len(),
        match r {
            Ok(n) => final(next)@ == if n == len {
                old(next)@
            } else {
                old(next)@.update(len as int, candidate)
            },
            Err(_) => final(next)@ == old(next)@,
        },
        comparable::<T>() ==> (r matches Ok(n) ==> final(next)@.take(n as int) == appended(
            old(next)@.take(len as int),
            candidate,
        )),
{
    if len > next.len() {
        return Err(TableError::NoActiveGeneration);
    }
    let found = holds(next, 0, len, &candidate);
    assert(next@.subrange(0, len as int) =~= next@.take(len as int));
    if found {
        return Ok(len);
    }
    if len == next.len() {
        return Err(TableError::Capacity);
    }
    next[len] = candidate;
    assert(next@.take(len + 1) =~= old(next)@.take(len as int).push(candidate));
    Ok(len + 1)
}

/// A caller-owned, fixed-capacity set of current and next virtual-IP
/// candidates.
///
/// The underlying slice must hold both the current generation and the next
/// one. Consequently, an adapter needing at most `N` live candidates must
/// supply at least `2 * N` slots. An undersized table returns [`TableError`]
/// rather than allocating or overwriting a live candidate.
pub struct CandidateTable<'a, T> {
    entries: &'a mut [T],
    len: usize,
}

impl<'a, T> CandidateTable<'a, T> {
    pub closed spec fn slots(&self) -> Seq<T> {
        self.entries@
    }

    pub closed spec fn live(&self) -> int {
        self.len as int
    }

    /// The current generation fits the storage.
    pub open spec fn wf(&self) -> bool {
        0 <= self.live() <= self.slots().len()
    }

    /// The current generation.
    pub open spec fn candidates(&self) -> Seq<T> {
        self.slots().take(self.live())
    }

    /// How many candidates the storage holds.
    pub open spec fn capacity(&self) -> int {
        self.slots().len() as int
    }
}

impl<'a, T: Copy + Eq> CandidateTable<'a, T> {
    /// Initialize a table with one live candidate.
    pub fn new(entries: &'a mut [T], initial: T) -> (r: Result<Self, TableError>)
        ensures
            old(entries)@.len() == 0 ==> r == Err::<Self, TableError>(TableError::Capacity),
            old(entries)@.len() > 0 ==> (r matches Ok(table) && table.wf() && table.live() == 1 && table.candidates()
                == seq![initial] && table.capacity() == old(entries)@.len()),
    {
        if entries.len() == 0 {
            return Err(TableError::Capacity);
        }
        entries[0] = initial;
        let r = CandidateTable { entries, len: 1 };
        assert(r.candidates() =~= seq![initial]);
        Ok(r)
    }

    /// The current live candidates.
    pub fn current(&self) -> (r: &[T])
        requires
            self.wf(),
        ensures
            r@ == self.candidates(),
    {
        vstd::slice::slice_subrange(self.entries, 0, self.len)
    }

    /// Number of current live candidates.
    pub fn len(&self) -> (r: usize)
        requires
            self.wf(),
        ensures
            r == self.candidates().len(),
    {
        self.len
    }

    /// Whether there are no current candidates.
    pub fn is_empty(&self) -> (r: bool)
        requires
            self.wf(),
        ensures
            r == (self.candidates().len() == 0),
    {
        self.len == 0
    }

    /// Append one candidate to the next generation accumulating in the table
    /// tail, returning its new size. The current generation remains intact.
    pub fn append_next(&mut self, next_len: usize, candidate: T) -> (r: Result<usize, TableError>)
        requires
            old(self).wf(),
        ensures
            final(self).wf(),
            final(self).capacity() == old(self).capacity(),
            final(self).live() == old(self).live(),
            final(self).candidates() == old(self).candidates(),
            comparable::<T>() ==> r == if next_len > old(self).room() {
                Err::<usize, TableError>(TableError::NoActiveGeneration)
            } else if present(old(self).upcoming(next_len as int), candidate) {
                Ok(next_len)
            } else if next_len == old(self).room() {
                Err(TableError::Capacity)
            } else {
                Ok((next_len + 1) as usize)
            },
            r matches Ok(n) ==> next_len <= n <= next_len + 1 && n <= old(self).room(),
            r matches Err(e) ==> e == if next_len > old(self).room() {
                TableError::NoActiveGeneration
            } else {
                TableError::Capacity
            },
            comparable::<T>() ==> (r matches Ok(n) ==> final(self).upcoming(n as int) == appended(
                old(self).upcoming(next_len as int),
                candidate,
            )),
            r is Err ==> final(self).slots() == old(self).slots(),
    {
        if next_len > self.entries.len() - self.len {
            return Err(TableError::NoActiveGeneration);
        }
        let end: usize = self.len + next_len;
        if holds(self.entries, self.len, end, &candidate) {
            return Ok(next_len);
        }
        if end == self.entries.len() {
            return Err(TableError::Capacity);
        }
        self.entries[end] = candidate;
        assert(self.candidates() =~= old(self).candidates());
        assert(self.upcoming(next_len + 1) =~= old(self).upcoming(next_len as int).push(candidate));
        Ok(next_len + 1)
    }

    /// Append several candidates to the next generation accumulating in the
    /// table tail, returning its new size. The current generation remains
    /// intact.
    pub fn append_all(&mut self, next_len: usize, candidates: &[T]) -> (r: Result<
        usize,
        TableError,
    >)
        requires
            old(self).wf(),
            next_len <= old(self).room(),
        ensures
            final(self).wf(),
            final(self).capacity() == old(self).capacity(),
            final(self).live() == old(self).live(),
            final(self).candidates() == old(self).candidates(),
            match r {
                Ok(n) => n <= old(self).room() && (comparable::<T>() ==> final(self).upcoming(
                    n as int,
                ) == extended(old(self).upcoming(next_len as int), candidates@)),
                Err(e) => e == TableError::Capacity && (comparable::<T>() ==> extended(
                    old(self).upcoming(next_len as int),
                    candidates@,
                ).len() > old(self).room()),
            },
    {
        let ghost start = self.upcoming(next_len as int);
        let mut len: usize = next_len;
        let mut i: usize = 0;
        assert(candidates@.take(0) =~= Seq::empty());
        while i < candidates.len()
            invariant
                self.wf(),
                self.capacity() == old(self).capacity(),
                self.live() == old(self).live(),
                self.candidates() == old(self).candidates(),
                start == old(self).upcoming(next_len as int),
                i <= candidates@.len(),
                len <= self.room(),
                comparable::<T>() ==> self.upcoming(len as int) == extended(
                    start,
                    candidates@.take(i as int),
                ),
            decreases candidates@.len() - i,
        {
            let ghost so_far = self.upcoming(len as int);
            proof {
                assert(candidates@.take(i + 1).drop_last() =~= candidates@.take(i as int));
                assert(candidates@.take(i + 1).last() == candidates@[i as int]);
                extended_twice(start, candidates@, i + 1);
            }
            match self.append_next(len, candidates[i]) {
                Ok(n) => {
                    len = n;
                },
                Err(error) => {
                    return Err(error);
                },
            }
            i = i + 1;
        }
        assert(candidates@.take(i as int) =~= candidates@);
        Ok(len)
    }

    /// Commit `next_len` tail candidates as the next live generation.
    pub fn finish_next(&mut self, next_len: usize) -> (r: Result<usize, TableError>)
        requires
            old(self).wf(),
        ensures
            final(self).wf(),
            final(self).capacity() == old(self).capacity(),
            r == if next_len > old(self).room() {
                Err::<usize, TableError>(TableError::Capacity)
            } else {
                Ok(next_len)
            },
            final(self).candidates() == if next_len > old(self).room() {
                old(self).candidates()
            } else {
                old(self).upcoming(next_len as int)
            },
    {
        if next_len > self.entries.len() - self.len {
            return Err(TableError::Capacity);
        }
        self.compact(next_len);
        Ok(next_len)
    }

    /// Move the first entries of the tail to the front.
    fn compact(&mut self, next_len: usize)
        requires
            old(self).wf(),
            next_len <= old(self).room(),
        ensures
            final(self).wf(),
            final(self).capacity() == old(self).capacity(),
            final(self).candidates() == old(self).upcoming(next_len as int),
    {
        let base: usize = self.len;
        let total: usize = self.entries.len();
        let mut i: usize = 0;
        while i < next_len
            invariant
                self.wf(),
                base == self.len == old(self).len,
                total == self.slots().len(),
                i <= next_len <= old(self).room(),
                self.slots().len() == old(self).slots().len(),
                forall|j: int| 0 <= j < i ==> self.slots()[j] == old(self).slots()[base + j],
                forall|j: int|
                    i <= j < self.slots().len() ==> self.slots()[j] == old(self).slots()[j],
            decreases next_len - i,
        {
            self.entries[i] = self.entries[base + i];
            i = i + 1;
        }
        self.len = next_len;
        assert(self.candidates() =~= old(self).upcoming(next_len as int));
    }

    /// Start the next generation.
    ///
    /// The returned builder borrows the table until [`NextCandidates::finish`]
    /// commits its deduplicated candidates into the live prefix.
    pub fn next(&mut self) -> (r: Result<NextCandidates<'_, 'a, T>, TableError>)
        requires
            old(self).wf(),
        ensures
            r is Ok,
            r matches Ok(next) ==> {
                &&& *next.table == *old(self)
                &&& next.next_len == 0
                &&& *final(next.table) == *final(self)
            },
    {
        Ok(NextCandidates { table: self, next_len: 0 })
    }

    /// Remove every live candidate.
    pub fn clear(&mut self)
        ensures
            final(self).wf(),
            final(self).capacity() == old(self).capacity(),
            final(self).candidates() == Seq::<T>::empty(),
    {
        self.len = 0;
        assert(self.candidates() =~= Seq::<T>::empty());
    }

    /// Replace the live candidates, without their repetitions: the path whose
    /// successor set is already fully known.
    pub fn replace(&mut self, candidates: &[T]) -> (r: Result<(), TableError>)
        requires
            old(self).wf(),
        ensures
            final(self).wf(),
            final(self).capacity() == old(self).capacity(),
            r == if candidates@.len() > old(self).capacity() {
                Err::<(), TableError>(TableError::Capacity)
            } else {
                Ok(())
            },
            r is Err ==> final(self).candidates() == old(self).candidates(),
            comparable::<T>() && r is Ok ==> final(self).candidates() == extended(
                Seq::empty(),
                candidates@,
            ),
    {
        if candidates.len() > self.entries.len() {
            return Err(TableError::Capacity);
        }
        let mut len: usize = 0;
        let mut i: usize = 0;
        proof {
            assert(self.slots().take(0) =~= extended(Seq::empty(), candidates@.take(0)));
        }
        while i < candidates.len()
            invariant
                self.slots().len() == old(self).slots().len(),
                len <= i <= candidates@.len() <= self.slots().len(),
                comparable::<T>() ==> self.slots().take(len as int) == extended(
                    Seq::<T>::empty(),
                    candidates@.take(i as int),
                ),
            decreases candidates@.len() - i,
        {
            let ghost before = self.slots().take(len as int);
            proof {
                assert(candidates@.take(i + 1).drop_last() =~= candidates@.take(i as int));
                assert(candidates@.take(i + 1).last() == candidates@[i as int]);
                assert(self.slots().subrange(0, len as int) =~= before);
            }
            if !holds(self.entries, 0, len, &candidates[i]) {
                self.entries[len] = candidates[i];
                len = len + 1;
                assert(self.slots().take(len as int) =~= before.push(candidates@[i as int]));
            }
            i = i + 1;
        }
        self.len = len;
        assert(candidates@.take(i as int) =~= candidates@);
        Ok(())
    }
}

impl<'a, T> CandidateTable<'a, T> {
    /// How many candidates fit behind the current generation.
    pub open spec fn room(&self) -> int {
        self.capacity() - self.live()
    }

    /// The first entries behind the current generation.
    pub open spec fn upcoming(&self, len: int) -> Seq<T> {
        self.slots().subrange(self.live(), self.live() + len)
    }
}

/// An in-progress next generation for a [`CandidateTable`].
pub struct NextCandidates<'table, 'entries, T> {
    pub table: &'table mut CandidateTable<'entries, T>,
    pub next_len: usize,
}

impl<'table, 'entries, T> NextCandidates<'table, 'entries, T> {
    /// What has been gathered fits behind the current generation.
    pub open spec fn wf(&self) -> bool {
        self.table.wf() && self.next_len <= self.table.room()
    }

    /// The candidates gathered so far.
    pub open spec fn gathered(&self) -> Seq<T> {
        self.table.upcoming(self.next_len as int)
    }

    /// The same table, with the same current generation.
    pub open spec fn follows(&self, before: Self) -> bool {
        &&& self.table.capacity() == before.table.capacity()
        &&& self.table.live() == before.table.live()
        &&& self.table.candidates() == before.table.candidates()
    }

    /// Every slot is taken.
    pub open spec fn full(&self) -> bool {
        self.next_len == self.table.room()
    }
}

impl<'table, 'entries, T: Copy + Eq> NextCandidates<'table, 'entries, T> {
    /// Append `candidate` unless it is already in the next generation.
    pub fn push(&mut self, candidate: T) -> (r: Result<(), TableError>)
        requires
            old(self).wf(),
        ensures
            final(self).wf(),
            final(self).follows(*old(self)),
            *final(final(self).table) == *final(old(self).table),
            r matches Err(e) ==> e == TableError::Capacity,
            comparable::<T>() ==> r == if old(self).full() && !present(
                old(self).gathered(),
                candidate,
            ) {
                Err::<(), TableError>(TableError::Capacity)
            } else {
                Ok(())
            },
            comparable::<T>() ==> final(self).gathered() == if old(self).full() {
                old(self).gathered()
            } else {
                appended(old(self).gathered(), candidate)
            },
    {
        let total: usize = self.table.entries.len();
        let base: usize = self.table.len;
        let end: usize = base + self.next_len;
        if holds(self.table.entries, base, end, &candidate) {
            return Ok(());
        }
        if end >= total {
            return Err(TableError::Capacity);
        }
        self.table.entries[end] = candidate;
        self.next_len = self.next_len + 1;
        assert(self.table.candidates() =~= old(self).table.candidates());
        assert(self.gathered() =~= old(self).gathered().push(candidate));
        Ok(())
    }

    /// Append every candidate, preserving first-seen order after deduplication.
    /// Those before the first that finds no free slot stay.
    pub fn extend(&mut self, candidates: &[T]) -> (r: Result<(), TableError>)
        requires
            old(self).wf(),
        ensures
            final(self).wf(),
            final(self).follows(*old(self)),
            *final(final(self).table) == *final(old(self).table),
            r matches Err(e) ==> e == TableError::Capacity,
            comparable::<T>() ==> {
                &&& r is Ok <==> extended(old(self).gathered(), candidates@).len() <= old(
                    self,
                ).table.room()
                &&& r is Ok ==> final(self).gathered() == extended(
                    old(self).gathered(),
                    candidates@,
                )
                &&& r is Err ==> final(self).full() && exists|n: int|
                    0 <= n < candidates@.len() && final(self).gathered() == #[trigger] extended(
                        old(self).gathered(),
                        candidates@.take(n),
                    ) && !present(final(self).gathered(), candidates@[n])
            },
    {
        let mut i: usize = 0;
        assert(extended(self.gathered(), candidates@.take(0)) =~= self.gathered());
        while i < candidates.len()
            invariant
                self.wf(),
                self.follows(*old(self)),
                *final(self.table) == *final(old(self).table),
                i <= candidates@.len(),
                comparable::<T>() ==> self.gathered() == extended(old(self).gathered(), candidates@.take(i as int)),
            decreases candidates@.len() - i,
        {
            proof {
                assert(candidates@.take(i + 1).drop_last() =~= candidates@.take(i as int));
                assert(candidates@.take(i + 1).last() == candidates@[i as int]);
            }
            assert(self.gathered().len() == self.next_len);
            let ghost so_far = self.gathered();
            if let Err(error) = self.push(candidates[i]) {
                assert(self.gathered().len() == self.next_len);
                assert(comparable::<T>() ==> self.gathered() == so_far);
                proof {
                    extended_twice(old(self).gathered(), candidates@, i + 1);
                }
                return Err(error);
            }
            i = i + 1;
        }
        assert(candidates@.take(i as int) =~= candidates@);
        assert(self.gathered().len() == self.next_len);
        Ok(())
    }

    /// Commit the next generation and return its size.
    pub fn finish(self) -> (r: usize)
        requires
            self.wf(),
        ensures
            r == self.gathered().len(),
            (*final(self.table)).wf(),
            (*final(self.table)).capacity() == old(self.table).capacity(),
            (*final(self.table)).candidates() == self.gathered(),
    {
        let len: usize = self.next_len;
        self.table.compact(len);
        len
    }
}

/// The three gates of a select came on top: the difference of the two wires,
/// the part of it that is active, and that part applied to the wire held. The
/// wire held goes into two gates, so one of them takes a clone.
pub open spec fn select_gates<C: ContextWithValue<bool> + ?Sized>(
    before: Seq<Gate<C::Wrapped>>,
    after: Seq<Gate<C::Wrapped>>,
    active: C::Wrapped,
    value: C::Wrapped,
    held: C::Wrapped,
    r: C::Wrapped,
) -> bool where C::Wrapped: Clone {
    exists|kept: C::Wrapped, difference: C::Wrapped, gated: C::Wrapped|
        cloned(held, kept) && after == before.push(
            #[trigger] xor_gate(value, kept, difference),
        ).push(#[trigger] and_gate(active, difference, gated)).push(xor_gate(held, gated, r))
}

/// An exclusive-or.
pub open spec fn xor_gate<W>(left: W, right: W, out: W) -> Gate<W> {
    Gate { kind: BitOp::Xor, left, right, out }
}

/// A conjunction.
pub open spec fn and_gate<W>(left: W, right: W, out: W) -> Gate<W> {
    Gate { kind: BitOp::And, left, right, out }
}

/// `value` where `active` holds, `held` where it does not:
/// `held ^ (active & (value ^ held))`.
pub fn predicated_value<C, W>(context: &mut C, active: W, value: W, held: W) -> (r: Result<
    W,
    C::Error,
>) where C: ContextWithErtOps<bool, Wrapped = W> + ?Sized, W: Clone
    ensures
        crate::context::sound::<C>() ==> (r matches Ok(w) ==> crate::context::bit::<C>(w) == if
            crate::context::bit::<C>(active) {
            crate::context::bit::<C>(value)
        } else {
            crate::context::bit::<C>(held)
        }),
        C::logs() ==> (r matches Ok(w) ==> crate::table::select_gates::<C>(
            (*old(context)).gates(),
            (*final(context)).gates(),
            active,
            value,
            held,
            w,
        )),
        crate::context::reliable::<C>() ==> r is Ok,
        r matches Err(error) ==> crate::context::erred::<C>(error),
{
    let kept = keep::<C>(&held);
    let difference = context.bitxor(value, kept)?;
    let gated = context.bitand(active, difference)?;
    let r = context.bitxor(held, gated);
    proof {
        if r is Ok {
            let first = xor_gate(value, kept, difference);
            let second = and_gate(active, difference, gated);
            let third = xor_gate(held, gated, r->Ok_0);
            assert(C::logs() ==> (*context).gates() == (*old(context)).gates().push(first).push(
                second,
            ).push(third));
        }
    }
    r
}

} // verus!
