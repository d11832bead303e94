use cirrus::table::{CandidateTable, TableError};

#[test]
fn next_generation_deduplicates_and_compacts_in_first_seen_order() {
    let mut backing = [0; 8];
    let mut table = CandidateTable::new(&mut backing, 1).unwrap();
    let mut next = table.next().unwrap();
    next.extend(&[4, 2, 4, 3, 2]).unwrap();
    assert_eq!(next.finish(), 3);
    assert_eq!(table.current(), &[4, 2, 3]);
}

#[test]
fn overflow_leaves_the_current_generation_intact() {
    let mut backing = [0; 2];
    let mut table = CandidateTable::new(&mut backing, 1).unwrap();
    let mut next = table.next().unwrap();
    assert_eq!(next.push(2), Ok(()));
    assert_eq!(next.push(3), Err(TableError::Capacity));
}
