use cirrus::arm_shift::{arm_runtime_shift, arm_shift_count, concrete_shift};
use cirrus::context::{
    concrete_storage_index, Bit, ContextWithCreate, ContextWithMux, StorageAddressBit,
};
use cirrus::multiply::{concrete_product, multiply_word};
use cirrus::shift::{fixed_shift, rv32_runtime_shift};
use cirrus::storage::{read_bit, read_word, storage_address, write_bit, write_word};
use cirrus::table::{append_unique, predicated_value, CandidateTable, TableError};
use cirrus::word::{
    add_word, bitwise_word, constant_word, invert_word, select_word, BitOp, ErtSelectEmitter,
    Product, Shift,
};

fn word(value: u32) -> [bool; 32] {
    std::array::from_fn(|bit| (value >> bit) & 1 != 0)
}

fn value(word: &[bool; 32]) -> u32 {
    word.iter()
        .enumerate()
        .fold(0, |value, (bit, set)| value | ((*set as u32) << bit))
}

const VALUES: [u32; 7] = [0, 1, 3, 0x7fff_ffff, 0x8000_0000, 0x8000_0003, u32::MAX];

#[test]
fn symbolic_products_match_the_concrete_ones() {
    for left in VALUES {
        for right in VALUES {
            let wide = [
                (Product::Low, (left as u64 * right as u64) as u32),
                (Product::HighUnsigned, ((left as u64 * right as u64) >> 32) as u32),
                (
                    Product::HighSigned,
                    ((left as i32 as i64 * right as i32 as i64) >> 32) as u32,
                ),
                (
                    Product::HighSignedUnsigned,
                    ((left as i32 as i64).wrapping_mul(right as i64) >> 32) as u32,
                ),
            ];
            for (product, expected) in wide {
                assert_eq!(concrete_product(product, left, right), expected);
                for known in [None, Some(right)] {
                    let result = multiply_word(
                        &mut (),
                        &word(left),
                        &word(right),
                        None,
                        known,
                        product,
                        &false,
                        &true,
                    );
                    assert_eq!(value(&result.unwrap()), expected);
                }
            }
        }
    }
}

#[test]
fn shifts_agree_in_every_form() {
    let directions = [
        Shift::Left,
        Shift::LogicalRight,
        Shift::ArithmeticRight,
        Shift::RotateRight,
    ];
    for source in VALUES {
        for amount in [0u32, 1, 31, 32, 33, 64, 255] {
            for direction in directions {
                let count = arm_shift_count(amount, direction);
                let expected = match direction {
                    Shift::Left => source.checked_shl(amount).unwrap_or(0),
                    Shift::LogicalRight => source.checked_shr(amount).unwrap_or(0),
                    Shift::ArithmeticRight => ((source as i32) >> amount.min(31)) as u32,
                    Shift::RotateRight => source.rotate_right(amount % 32),
                };
                assert_eq!(concrete_shift(source, count, direction), expected);
                let symbolic = arm_runtime_shift(
                    &mut (),
                    &word(source),
                    &word(amount),
                    direction,
                    &false,
                );
                assert_eq!(value(&symbolic.unwrap()), expected);
            }
        }
    }
    assert_eq!(value(&fixed_shift(&word(0x8000_0001), 4, Shift::RotateRight, &false)), 0x1800_0000);
    let shifted = rv32_runtime_shift(&mut (), &word(3), &word(33), Shift::Left, &false);
    assert_eq!(value(&shifted.unwrap()), 6);
}

#[test]
fn words_are_computed_bit_by_bit() {
    let (a, b) = (0xdead_beef, 0x0123_4567);
    let and = bitwise_word(&mut (), &word(a), &word(b), BitOp::And).unwrap();
    assert_eq!(value(&and), a & b);
    let or = bitwise_word(&mut (), &word(a), &word(b), BitOp::Or).unwrap();
    assert_eq!(value(&or), a | b);
    let xor = bitwise_word(&mut (), &word(a), &word(b), BitOp::Xor).unwrap();
    assert_eq!(value(&xor), a ^ b);
    assert_eq!(value(&invert_word(&mut (), &word(a), true).unwrap()), !a);
    assert_eq!(value(&add_word(&mut (), &word(a), &word(b), false).unwrap()), a.wrapping_add(b));
    assert_eq!(value(&select_word(&mut (), true, &word(a), &word(b)).unwrap()), a);
    assert_eq!(value(&select_word(&mut (), false, &word(a), &word(b)).unwrap()), b);
    assert_eq!(constant_word::<bool, 32>(&false, &true, a as u64), word(a));
    let mut host = ();
    let mut emitter = ErtSelectEmitter::new(&mut host);
    assert_eq!(emitter.select(true, false, true), Ok(false));
    assert_eq!(emitter.select(false, false, true), Ok(true));
    assert_eq!(emitter.and(true, false), Ok(false));
    assert_eq!(emitter.xor(true, false), Ok(true));
}

#[test]
fn bits_form_a_field() {
    for x in [false, true] {
        for y in [false, true] {
            assert_eq!(Bit(x) + Bit(y), Bit(x ^ y));
            assert_eq!(Bit(x) - Bit(y), Bit(x ^ y));
            assert_eq!(Bit(x) * Bit(y), Bit(x & y));
        }
    }
    assert_eq!(().create(true), Ok(true));
    assert_eq!(().mux(true, false, true), Ok(false));
    assert_eq!(().mux(false, false, true), Ok(true));
}

#[test]
fn a_word_written_to_storage_is_read_back() {
    let mut cells = [false; 128];
    write_word::<(), 32>(&mut (), &mut cells, 40, &word(0x8001_80ff), 32, &false, &true).unwrap();
    let read = read_word::<(), 32>(&mut (), &mut cells, 40, &false, &true).unwrap();
    assert_eq!(value(&read), 0x8001_80ff);
    assert!(cells[..40].iter().all(|cell| !cell));
    assert!(cells[72..].iter().all(|cell| !cell));
    write_bit::<()>(&mut (), &mut cells, 127, true, &false, &true).unwrap();
    assert_eq!(read_bit::<()>(&mut (), &mut cells, 127, &false, &true), Ok(true));
    assert!(cells[127]);
}

#[test]
fn storage_addresses_spell_their_number() {
    let address: Vec<StorageAddressBit<bool>> = storage_address::<()>(11, &false, &true);
    assert_eq!(concrete_storage_index(&address), 11);
    assert!(address.iter().all(|bit| bit.known == Some(bit.wire)));
}

#[test]
fn candidate_tables_report_what_does_not_fit() {
    let mut none: [u32; 0] = [];
    assert!(matches!(CandidateTable::new(&mut none, 1), Err(TableError::Capacity)));
    let mut backing = [0u32; 4];
    let mut table = CandidateTable::new(&mut backing, 9).unwrap();
    assert_eq!(table.len(), 1);
    assert_eq!(table.append_next(4, 5), Err(TableError::NoActiveGeneration));
    assert_eq!(table.append_next(0, 5), Ok(1));
    assert_eq!(table.append_next(1, 5), Ok(1));
    assert_eq!(table.append_all(1, &[6, 5, 7]), Ok(3));
    assert_eq!(table.append_next(3, 8), Err(TableError::Capacity));
    assert_eq!(table.current(), &[9]);
    assert_eq!(table.finish_next(4), Err(TableError::Capacity));
    assert_eq!(table.finish_next(3), Ok(3));
    assert_eq!(table.current(), &[5, 6, 7]);
    assert_eq!(table.replace(&[1, 2, 1]), Ok(()));
    assert_eq!(table.current(), &[1, 2]);
    assert_eq!(table.replace(&[1, 2, 3, 4, 5]), Err(TableError::Capacity));
    assert_eq!(table.current(), &[1, 2]);
    table.clear();
    assert!(table.is_empty());
    let mut next = [4u32, 0];
    assert_eq!(append_unique(&mut next, 1, 4), Ok(1));
    assert_eq!(append_unique(&mut next, 1, 5), Ok(2));
    assert_eq!(append_unique(&mut next, 2, 6), Err(TableError::Capacity));
    assert_eq!(next, [4, 5]);
}

#[test]
fn predicated_values_follow_their_activity() {
    for value in [false, true] {
        for held in [false, true] {
            assert_eq!(predicated_value(&mut (), true, value, held), Ok(value));
            assert_eq!(predicated_value(&mut (), false, value, held), Ok(held));
        }
    }
}
