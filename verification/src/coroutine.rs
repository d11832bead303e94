//! The bounded ring and the handoff protocol of a stackful coroutine.
//!
//! A synchronous producer pushes into a fixed-size ring. A push that fills the
//! ring transfers to the puller; a pull that finds the ring empty transfers
//! back to the producer. What is decided here is who runs next; saving and
//! restoring machine contexts is the caller's part.
use vstd::prelude::*;

verus! {

/// The byte size and alignment of one producer-stack slot.
pub const STACK_SLOT_BYTES: usize = 16;

/// Whether a coroutine of these sizes can exist: a ring requires nonzero
/// capacity, and a producer at least one stack slot.
pub fn sizes_ok(capacity: usize, stack_slots: usize) -> (r: bool)
    ensures
        r == (capacity != 0 && stack_slots != 0),
{
    capacity != 0 && stack_slots != 0
}

/// A ring of at most `CAPACITY` values, first in first out.
pub struct Ring<T, const CAPACITY: usize> {
    slots: Vec<Option<T>>,
    head: usize,
    len: usize,
}

impl<T, const CAPACITY: usize> Ring<T, CAPACITY> {
    /// The slot of the value `i` places behind the oldest.
    spec fn slot(&self, i: int) -> int {
        if self.head + i < CAPACITY {
            self.head + i
        } else {
            self.head + i - CAPACITY
        }
    }

    /// The values, oldest first.
    pub closed spec fn view(&self) -> Seq<T> {
        Seq::new(self.len as nat, |i: int| self.slots@[self.slot(i)]->0)
    }

    pub closed spec fn wf(&self) -> bool {
        &&& CAPACITY > 0
        &&& self.slots@.len() == CAPACITY
        &&& self.head < CAPACITY
        &&& self.len <= CAPACITY
        &&& forall|i: int| 0 <= i < self.len ==> (#[trigger] self.slots@[self.slot(i)]) is Some
    }

    /// An empty ring.
    pub fn new() -> (r: Self)
        requires
            CAPACITY > 0,
        ensures
            r.wf(),
            r@ == Seq::<T>::empty(),
    {
        let mut slots: Vec<Option<T>> = Vec::new();
        let mut i: usize = 0;
        while i < CAPACITY
            invariant
                i <= CAPACITY,
                slots@.len() == i,
            decreases CAPACITY - i,
        {
            slots.push(None);
            i = i + 1;
        }
        let r = Ring { slots, head: 0, len: 0 };
        assert(r@ =~= Seq::<T>::empty());
        r
    }

    /// Whether no value fits any more.
    pub fn is_full(&self) -> (r: bool)
        requires
            self.wf(),
        ensures
            r == (self@.len() == CAPACITY),
    {
        self.len == CAPACITY
    }

    /// Append a value. The result says whether that filled the ring.
    pub fn push(&mut self, value: T) -> (r: bool)
        requires
            old(self).wf(),
            old(self)@.len() < CAPACITY,
        ensures
            final(self).wf(),
            final(self)@ == old(self)@.push(value),
            r == (final(self)@.len() == CAPACITY),
    {
        let room: usize = CAPACITY - self.head;
        let index: usize = if self.len < room {
            self.head + self.len
        } else {
            self.len - room
        };
        self.slots.set(index, Some(value));
        self.len = self.len + 1;
        proof {
            assert(index == old(self).slot(old(self).len as int));
            assert forall|i: int| 0 <= i < self.len implies (#[trigger] self.slots@[self.slot(
                i,
            )]) is Some by {
                if i < old(self).len {
                    assert(self.slot(i) == old(self).slot(i));
                    assert(old(self).slots@[old(self).slot(i)] is Some);
                    assert(self.slot(i) != index);
                }
            }
            assert forall|i: int| 0 <= i < old(self).len implies self@[i] == old(self)@[i] by {
                assert(self.slot(i) == old(self).slot(i));
                assert(self.slot(i) != index);
            }
            assert(self@ =~= old(self)@.push(value));
        }
        self.len == CAPACITY
    }

    /// Take the oldest value.
    pub fn pop(&mut self) -> (r: Option<T>)
        requires
            old(self).wf(),
        ensures
            final(self).wf(),
            match r {
                Some(value) => old(self)@.len() > 0 && value == old(self)@[0] && final(self)@ == old(
                    self,
                )@.skip(1),
                None => old(self)@.len() == 0 && final(self)@ == old(self)@,
            },
    {
        if self.len == 0 {
            return None;
        }
        let index: usize = self.head;
        proof {
            assert(self.slot(0) == index);
            assert(self.slots@[self.slot(0)] is Some);
        }
        let mut value: Option<T> = None;
        self.slots.set_and_swap(index, &mut value);
        self.head = if index + 1 < CAPACITY {
            index + 1
        } else {
            0
        };
        self.len = self.len - 1;
        proof {
            assert forall|i: int| 0 <= i < self.len implies (#[trigger] self.slots@[self.slot(
                i,
            )]) is Some by {
                assert(self.slot(i) == old(self).slot(i + 1));
                assert(old(self).slots@[old(self).slot(i + 1)] is Some);
            }
            assert forall|i: int| 0 <= i < self.len implies self@[i] == old(self)@.skip(1)[i] by {
                assert(self.slot(i) == old(self).slot(i + 1));
            }
            assert(self@ =~= old(self)@.skip(1));
        }
        value
    }
}

/// What a push asks for.
#[derive(Clone, Copy, Debug, Eq, PartialEq, Structural)]
pub enum Pushed {
    /// The producer goes on.
    Continue,
    /// The ring is full: wake the waiting task where there is one, then
    /// transfer to the puller.
    Transfer { wake: bool },
}

/// What a pull asks for.
pub enum Pulled<T> {
    /// The next value.
    Value(T),
    /// The ring is empty: set the producer up where it has not started yet,
    /// transfer to it, and take the value once it has transferred back.
    Resume { start: bool },
}

/// What a poll asks for.
pub enum Polled<T> {
    /// The next value.
    Ready(T),
    /// The ring is empty: set the producer up where it has not started yet,
    /// transfer to it, and report that the task is pending.
    Suspend { start: bool },
}

/// The state that a producer and its puller share.
pub struct Handoff<T, const CAPACITY: usize> {
    ring: Ring<T, CAPACITY>,
    started: bool,
    claimed: bool,
    wrapper_claimed: bool,
    waiting: bool,
}

/// What a handoff's state means.
pub struct Shared<T> {
    /// The values that were pushed and not pulled, oldest first.
    pub buffered: Seq<T>,
    /// The producer has been set up.
    pub started: bool,
    /// The pull side is taken.
    pub claimed: bool,
    /// The async adapter is taken.
    pub wrapper_claimed: bool,
    /// A task waits to be woken.
    pub waiting: bool,
}

impl<T, const CAPACITY: usize> Handoff<T, CAPACITY> {
    pub closed spec fn view(&self) -> Shared<T> {
        Shared {
            buffered: self.ring@,
            started: self.started,
            claimed: self.claimed,
            wrapper_claimed: self.wrapper_claimed,
            waiting: self.waiting,
        }
    }

    pub closed spec fn wf(&self) -> bool {
        self.ring.wf()
    }

    /// The state of an unstarted coroutine.
    pub fn new() -> (r: Self)
        requires
            CAPACITY > 0,
        ensures
            r.wf(),
            r@ == (Shared::<T> {
                buffered: Seq::empty(),
                started: false,
                claimed: false,
                wrapper_claimed: false,
                waiting: false,
            }),
    {
        Handoff {
            ring: Ring::new(),
            started: false,
            claimed: false,
            wrapper_claimed: false,
            waiting: false,
        }
    }

    /// Whether the producer has been set up.
    pub fn is_started(&self) -> (r: bool)
        ensures
            r == self@.started,
    {
        self.started
    }

    /// Claim the unique pull side. Fails where it is taken.
    pub fn claim(&mut self) -> (r: bool)
        requires
            old(self).wf(),
        ensures
            final(self).wf(),
            r == !old(self)@.claimed,
            final(self)@ == (Shared { claimed: true, ..old(self)@ }),
    {
        let free = !self.claimed;
        self.claimed = true;
        free
    }

    /// Claim the async adapter. Fails while another one has it.
    pub fn claim_wrapper(&mut self) -> (r: bool)
        requires
            old(self).wf(),
        ensures
            final(self).wf(),
            r == !old(self)@.wrapper_claimed,
            final(self)@ == (Shared { wrapper_claimed: true, ..old(self)@ }),
    {
        let free = !self.wrapper_claimed;
        self.wrapper_claimed = true;
        free
    }

    /// Give the async adapter back.
    pub fn release_wrapper(&mut self)
        requires
            old(self).wf(),
        ensures
            final(self).wf(),
            final(self)@ == (Shared { wrapper_claimed: false, ..old(self)@ }),
    {
        self.wrapper_claimed = false;
    }

    /// Whether a push would find the ring full: its producer resumed before
    /// its puller drained it.
    pub fn is_full(&self) -> (r: bool)
        requires
            self.wf(),
        ensures
            r == (self@.buffered.len() == CAPACITY),
    {
        self.ring.is_full()
    }

    /// Push one value.
    pub fn push(&mut self, value: T) -> (r: Pushed)
        requires
            old(self).wf(),
            old(self)@.buffered.len() < CAPACITY,
        ensures
            final(self).wf(),
            r == if old(self)@.buffered.len() + 1 == CAPACITY {
                Pushed::Transfer { wake: old(self)@.wrapper_claimed && old(self)@.waiting }
            } else {
                Pushed::Continue
            },
            final(self)@ == (Shared {
                buffered: old(self)@.buffered.push(value),
                waiting: old(self)@.waiting && !(r matches Pushed::Transfer { wake } && wake),
                ..old(self)@
            }),
    {
        if self.ring.push(value) {
            let wake = self.wrapper_claimed && self.waiting;
            if wake {
                self.waiting = false;
            }
            Pushed::Transfer { wake }
        } else {
            Pushed::Continue
        }
    }

    /// Take the next value, or find out how to get one.
    pub fn pull(&mut self) -> (r: Pulled<T>)
        requires
            old(self).wf(),
        ensures
            final(self).wf(),
            match r {
                Pulled::Value(value) => old(self)@.buffered.len() > 0 && value == old(
                    self,
                )@.buffered[0] && final(self)@ == (Shared {
                    buffered: old(self)@.buffered.skip(1),
                    ..old(self)@
                }),
                Pulled::Resume { start } => old(self)@.buffered.len() == 0 && start == !old(
                    self,
                )@.started && final(self)@ == (Shared { started: true, ..old(self)@ }),
            },
    {
        match self.ring.pop() {
            Some(value) => Pulled::Value(value),
            None => {
                let start = !self.started;
                self.started = true;
                Pulled::Resume { start }
            },
        }
    }

    /// Take the value that a transfer back to the puller must have left.
    pub fn refilled(&mut self) -> (r: Option<T>)
        requires
            old(self).wf(),
        ensures
            final(self).wf(),
            match r {
                Some(value) => old(self)@.buffered.len() > 0 && value == old(self)@.buffered[0]
                    && final(self)@ == (Shared {
                    buffered: old(self)@.buffered.skip(1),
                    ..old(self)@
                }),
                None => old(self)@.buffered.len() == 0 && final(self)@ == old(self)@,
            },
    {
        self.ring.pop()
    }

    /// Take the next value for a task, or leave the task waiting.
    pub fn poll(&mut self) -> (r: Polled<T>)
        requires
            old(self).wf(),
        ensures
            final(self).wf(),
            match r {
                Polled::Ready(value) => old(self)@.buffered.len() > 0 && value == old(
                    self,
                )@.buffered[0] && final(self)@ == (Shared {
                    buffered: old(self)@.buffered.skip(1),
                    ..old(self)@
                }),
                Polled::Suspend { start } => old(self)@.buffered.len() == 0 && start == !old(
                    self,
                )@.started && final(self)@ == (Shared { started: true, waiting: true, ..old(self)@ }),
            },
    {
        match self.ring.pop() {
            Some(value) => Polled::Ready(value),
            None => {
                let start = !self.started;
                self.started = true;
                self.waiting = true;
                Polled::Suspend { start }
            },
        }
    }
}

/// What happens to a ring.
pub enum Event<T> {
    Push(T),
    Pop,
}

/// What a ring holds and has given out after these events.
pub open spec fn history<T>(events: Seq<Event<T>>) -> (Seq<T>, Seq<T>)
    decreases events.len(),
{
    if events.len() == 0 {
        (Seq::empty(), Seq::empty())
    } else {
        let (held, given) = history(events.drop_last());
        match events.last() {
            Event::Push(value) => (held.push(value), given),
            Event::Pop => if held.len() > 0 {
                (held.skip(1), given.push(held[0]))
            } else {
                (held, given)
            },
        }
    }
}

/// The values pushed, in order.
pub open spec fn pushes<T>(events: Seq<Event<T>>) -> Seq<T>
    decreases events.len(),
{
    if events.len() == 0 {
        Seq::empty()
    } else {
        match events.last() {
            Event::Push(value) => pushes(events.drop_last()).push(value),
            Event::Pop => pushes(events.drop_last()),
        }
    }
}

/// Values come out in the order in which they went in, none lost and none
/// twice: what was given out, followed by what is held, is what was pushed.
pub proof fn first_in_first_out<T>(events: Seq<Event<T>>)
    ensures
        ({
            let (held, given) = history(events);
            given + held == pushes(events)
        }),
    decreases events.len(),
{
    if events.len() > 0 {
        let front = events.drop_last();
        first_in_first_out(front);
        let (held, given) = history(front);
        match events.last() {
            Event::Push(value) => {
                assert(given + held.push(value) =~= (given + held).push(value));
            },
            Event::Pop => {
                if held.len() > 0 {
                    assert(given.push(held[0]) + held.skip(1) =~= given + held);
                }
            },
        }
    } else {
        assert(history(events).1 + history(events).0 =~= Seq::<T>::empty());
    }
}

} // verus!
