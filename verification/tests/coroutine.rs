use cirrus::coroutine::{sizes_ok, Handoff, Polled, Pulled, Pushed, Ring, STACK_SLOT_BYTES};

/// A producer that is run whenever control is transferred to it.
struct Producer<T, F: FnMut() -> T, const CAPACITY: usize> {
    shared: Handoff<T, CAPACITY>,
    produce: F,
    starts: usize,
    wakes: usize,
}

impl<T, F: FnMut() -> T, const CAPACITY: usize> Producer<T, F, CAPACITY> {
    fn new(produce: F) -> Self {
        let mut shared = Handoff::new();
        assert!(shared.claim());
        Producer { shared, produce, starts: 0, wakes: 0 }
    }

    /// Run until the ring is full and control comes back.
    fn transfer(&mut self, start: bool) {
        if start {
            self.starts += 1;
        }
        loop {
            assert!(!self.shared.is_full());
            let value = (self.produce)();
            if let Pushed::Transfer { wake } = self.shared.push(value) {
                if wake {
                    self.wakes += 1;
                }
                return;
            }
        }
    }

    fn take_or_refill(&mut self) -> T {
        match self.shared.pull() {
            Pulled::Value(value) => value,
            Pulled::Resume { start } => {
                self.transfer(start);
                self.shared.refilled().unwrap()
            }
        }
    }

    fn poll(&mut self) -> Option<T> {
        match self.shared.poll() {
            Polled::Ready(value) => Some(value),
            Polled::Suspend { start } => {
                self.transfer(start);
                None
            }
        }
    }
}

#[test]
fn fifo_order_survives_repeated_full_empty_handoffs() {
    let mut next = 0u32;
    let mut puller = Producer::<u32, _, 2>::new(|| {
        next += 1;
        next - 1
    });
    for expected in 0..32 {
        assert_eq!(puller.take_or_refill(), expected);
    }
    assert_eq!(puller.starts, 1);
    assert_eq!(puller.wakes, 0);
    assert!(puller.shared.is_started());
}

#[derive(Debug, PartialEq)]
struct Probe(usize);

#[test]
fn supports_non_copy_values() {
    let mut next = 0usize;
    let mut puller = Producer::<Probe, _, 3>::new(|| {
        next += 1;
        Probe(next - 1)
    });
    let first = puller.take_or_refill();
    let second = puller.take_or_refill();
    assert_eq!((first.0, second.0), (0, 1));
}

#[test]
fn capacity_one_handoffs_every_value() {
    let mut next = 0u8;
    let mut puller = Producer::<u8, _, 1>::new(|| {
        let value = next;
        next = next.wrapping_add(1);
        value
    });
    for expected in 0..32 {
        assert_eq!(puller.take_or_refill(), expected);
    }
}

#[test]
fn async_wrapper_notifies_then_returns_buffered_values() {
    let mut next = 0u32;
    let mut wrapper = Producer::<u32, _, 2>::new(|| {
        next += 1;
        next - 1
    });
    assert!(wrapper.shared.claim_wrapper());
    assert!(!wrapper.shared.claim_wrapper());

    assert_eq!(wrapper.poll(), None);
    assert_eq!(wrapper.wakes, 1);
    assert_eq!(wrapper.poll(), Some(0));

    assert_eq!(wrapper.poll(), Some(1));

    assert_eq!(wrapper.poll(), None);
    assert_eq!(wrapper.wakes, 2);
    assert_eq!(wrapper.poll(), Some(2));
    wrapper.shared.release_wrapper();
    assert!(wrapper.shared.claim_wrapper());
}

#[test]
fn scalar_floats_survive_repeated_handoffs() {
    let (mut made, mut made_scale) = (0.25f64, 1.5f64);
    let mut puller = Producer::<f64, _, 2>::new(|| {
        let value = made * made_scale;
        made += 0.125;
        made_scale += 0.03125;
        value
    });
    let mut value = 0.25f64;
    let mut scale = 1.5f64;
    for _ in 0..32 {
        assert_eq!(puller.take_or_refill().to_bits(), (value * scale).to_bits());
        value += 0.125;
        scale += 0.03125;
    }
}

#[test]
fn the_pull_side_is_claimed_once() {
    let mut shared = Handoff::<u8, 1>::new();
    assert!(shared.claim());
    assert!(!shared.claim());
}

#[test]
fn empty_rings_and_stacks_are_rejected() {
    assert!(!sizes_ok(0, 1));
    assert!(!sizes_ok(1, 0));
    assert!(sizes_ok(1, 1));
    assert_eq!(STACK_SLOT_BYTES, 16);
}

#[test]
fn a_ring_wraps_around_in_order() {
    let mut ring = Ring::<u32, 3>::new();
    assert_eq!(ring.pop(), None);
    assert!(!ring.push(1));
    assert!(!ring.push(2));
    assert_eq!(ring.pop(), Some(1));
    assert!(!ring.push(3));
    assert!(ring.push(4));
    assert!(ring.is_full());
    assert_eq!(ring.pop(), Some(2));
    assert_eq!(ring.pop(), Some(3));
    assert_eq!(ring.pop(), Some(4));
    assert_eq!(ring.pop(), None);
}
