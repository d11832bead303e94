use cirrus::beaver::{BeaverMul, Open};
use cirrus::context::{
    Bit, ContextWithAdd, ContextWithMul, ContextWithSub, ContextWithValue, HasError, Pusher,
};
use cirrus::garble::GC;
use cirrus::runtime::{hash, hash_many, payload_bytes, payload_words};
use cirrus::vole::Vole;
use std::convert::Infallible;

#[derive(Default)]
struct Tables(Vec<[[u8; 4]; 4]>);

impl Pusher<[[u8; 4]; 4]> for Tables {
    fn push(&mut self, x: [[u8; 4]; 4]) {
        self.0.push(x);
    }
}

#[test]
fn sums_of_labels_are_free() {
    let mut gc = GC::<Tables, 4>::new(Tables::default(), [0; 32], [0x81; 32]);
    assert_eq!(gc.add([1, 2, 3, 4], [5, 6, 7, 8]), Ok([4, 4, 4, 12]));
    assert_eq!(gc.sub([1, 2, 3, 4], [5, 6, 7, 8]), Ok([4, 4, 4, 12]));
    let mut a = [1, 2, 3, 4];
    gc.add_assign(&mut a, [5, 6, 7, 8]).unwrap();
    assert_eq!(a, [4, 4, 4, 12]);
    gc.sub_assign(&mut a, [5, 6, 7, 8]).unwrap();
    assert_eq!(a, [1, 2, 3, 4]);
    assert!(gc.queue.0.is_empty());
}

#[test]
fn a_product_takes_a_fresh_label_and_sends_a_table() {
    let mut delta = [0x0f; 32];
    delta[0] = 0x81;
    let mut gc = GC::<Tables, 4>::new(Tables::default(), [0; 32], delta);
    let product = gc.mul([0x02, 3, 4, 5], [0x07, 1, 1, 1]).unwrap();
    assert_eq!(product, [0x66, 0x68, 0x7a, 0xad]);
    assert_eq!(
        gc.queue.0,
        [[[0x66, 0x68, 0x7a, 0xad], [0x66, 0x68, 0x7a, 0xad], [0xe7, 0x67, 0x75, 0xa2], [0x66, 0x68, 0x7a, 0xad]]]
    );
    assert_eq!(gc.seed, [0x66, 0x68, 0x7a, 0xad, 0xf8, 0x62, 0xbd, 0x77, 0x6c, 0x8f, 0xc1, 0x8b, 0x8e, 0x9f, 0x8e, 0x20, 0x08, 0x97, 0x14, 0x85, 0x6e, 0xe2, 0x33, 0xb3, 0x90, 0x2a, 0x59, 0x1d, 0x0d, 0x5f, 0x29, 0x25]);
    let mut a = [0x02, 3, 4, 5];
    gc.mul_assign(&mut a, [0x07, 1, 1, 1]).unwrap();
    assert_eq!(a, [0x2b, 0x32, 0xdb, 0x6c]);
    assert_eq!(gc.queue.0.len(), 2);
}

/// A field of seven elements, so that sums and differences differ.
#[derive(Clone, Copy, Debug, PartialEq)]
struct Seven(u8);

impl std::ops::Add for Seven {
    type Output = Seven;

    fn add(self, other: Seven) -> Seven {
        Seven((self.0 + other.0) % 7)
    }
}

impl std::ops::Sub for Seven {
    type Output = Seven;

    fn sub(self, other: Seven) -> Seven {
        Seven((self.0 + 7 - other.0) % 7)
    }
}

impl std::ops::Mul for Seven {
    type Output = Seven;

    fn mul(self, other: Seven) -> Seven {
        Seven((self.0 * other.0) % 7)
    }
}

struct Plain;

impl HasError for Plain {
    type Error = Infallible;
}

impl ContextWithValue<Bit> for Plain {
    type Wrapped = Seven;
}

impl ContextWithAdd<Bit> for Plain {
    fn add(&mut self, a: Seven, b: Seven) -> Result<Seven, Infallible> {
        Ok(a + b)
    }

    fn add_assign(&mut self, a: &mut Seven, b: Seven) -> Result<(), Infallible> {
        *a = *a + b;
        Ok(())
    }
}

impl ContextWithSub<Bit> for Plain {
    fn sub(&mut self, a: Seven, b: Seven) -> Result<Seven, Infallible> {
        Ok(a - b)
    }

    fn sub_assign(&mut self, a: &mut Seven, b: Seven) -> Result<(), Infallible> {
        *a = *a - b;
        Ok(())
    }
}

struct Public;

impl Open<Seven> for Public {
    type Opening = Seven;

    fn open(&mut self, val: Seven) -> Seven {
        val
    }

    fn close(&mut self, opening: Seven) -> Seven {
        opening
    }
}

#[test]
fn a_triple_multiplies_whatever_its_masks() {
    for x in 0..7 {
        for y in 0..7 {
            for mask in 0..49 {
                let (a, b) = (Seven(mask / 7), Seven(mask % 7));
                let product = Plain.beaver_mul(&mut Public, Seven(x), Seven(y), [a, b, a * b]);
                assert_eq!(product, Ok(Seven((x * y) % 7)));
            }
        }
    }
}

#[test]
fn pairs_are_computed_on_side_by_side() {
    let mut vole = Vole { wrapped: Plain };
    let (a, b) = ((Seven(5), Seven(1)), (Seven(4), Seven(6)));
    assert_eq!(vole.add(a, b), Ok((Seven(2), Seven(0))));
    assert_eq!(vole.sub(a, b), Ok((Seven(1), Seven(2))));
    let mut c = a;
    vole.add_assign(&mut c, b).unwrap();
    assert_eq!(c, (Seven(2), Seven(0)));
    vole.sub_assign(&mut c, b).unwrap();
    assert_eq!(c, a);
}

#[test]
fn a_hash_is_salted_by_the_exchange() {
    let sent = std::cell::RefCell::new(Vec::new());
    let salted = hash([0; 32], &|digest: [u8; 32]| {
        sent.borrow_mut().push(digest);
        let mut salted = digest;
        salted[0] ^= 0x5a;
        salted
    });
    let mut expected = [0x66, 0x68, 0x7a, 0xad, 0xf8, 0x62, 0xbd, 0x77, 0x6c, 0x8f, 0xc1, 0x8b, 0x8e, 0x9f, 0x8e, 0x20, 0x08, 0x97, 0x14, 0x85, 0x6e, 0xe2, 0x33, 0xb3, 0x90, 0x2a, 0x59, 0x1d, 0x0d, 0x5f, 0x29, 0x25];
    assert_eq!(sent.into_inner(), [expected]);
    expected[0] ^= 0x5a;
    assert_eq!(salted, expected);
}

#[test]
fn a_sponge_gives_sixteen_bytes_a_hash() {
    let message: Vec<u8> = (0..20).collect();
    let exchanges = std::cell::Cell::new(0);
    let exchange = |digest: [u8; 32]| {
        exchanges.set(exchanges.get() + 1);
        let mut salted = digest;
        salted[0] ^= 0x5a;
        salted
    };
    let mut bytes = hash_many(&message, &exchange);
    let mut out = [0u8; 40];
    out[0] = bytes.next_byte(&exchange);
    bytes.fill_bytes(&mut out[1..], &exchange);
    let expected: [u8; 40] = [0xd2, 0xdd, 0xf9, 0x2a, 0x98, 0x3f, 0x7d, 0xea, 0x0e, 0x4d, 0xa3, 0x3a, 0x93, 0x5c, 0xcb, 0x5b, 0x84, 0xd2, 0x23, 0x0d, 0xcf, 0xab, 0xb6, 0xb7, 0xd7, 0x5d, 0x0a, 0x0c, 0xa4, 0x28, 0x6d, 0x23, 0xeb, 0x60, 0xc0, 0x5a, 0x20, 0xc6, 0xbb, 0x8f];
    assert_eq!(out, expected);
    // Two chunks and the first sixteen bytes, one hash ahead each.
    assert_eq!(exchanges.get(), 6);
}

#[test]
fn a_payload_moves_through_words() {
    let payload: [u8; 32] = std::array::from_fn(|i| i as u8);
    let words = payload_words(&payload);
    assert_eq!(words[0], 0x0302_0100);
    assert_eq!(words[7], 0x1f1e_1d1c);
    assert_eq!(payload_bytes(&words), payload);
}
