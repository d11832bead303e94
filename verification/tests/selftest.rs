use cirrus::saved::{note_saved, reserve_pair, save_pair};
use cirrus::selftest::{
    big_sigma_0, big_sigma_1, bump, choice, decimal, finisher_status, hex_report, majority,
    sha256_compress, small_sigma_0, small_sigma_1,
};

#[test]
fn one_block_compresses_to_the_first_word_of_its_digest() {
    // "abc", padded: the digest starts with ba7816bf.
    let mut block = [0u32; 16];
    block[0] = 0x6162_6380;
    block[15] = 24;
    assert_eq!(sha256_compress(block), 0xba78_16bf);
    // The empty message: the digest starts with e3b0c442.
    let mut block = [0u32; 16];
    block[0] = 0x8000_0000;
    assert_eq!(sha256_compress(block), 0xe3b0_c442);
}

#[test]
fn round_functions_mix_bits() {
    assert_eq!(choice(0xff00_ff00, 0x1234_5678, 0x9abc_def0), 0x12bc_56f0);
    assert_eq!(majority(0xffff_0000, 0xff00_ff00, 0xf0f0_f0f0), 0xfff0_f000);
    assert_eq!(big_sigma_0(1), 1 << 30 | 1 << 19 | 1 << 10);
    assert_eq!(big_sigma_1(1), 1 << 26 | 1 << 21 | 1 << 7);
    assert_eq!(small_sigma_0(8), 1 << 28 | 1 << 17 | 1);
    assert_eq!(small_sigma_1(1024), 1 << 25 | 1 << 23 | 1);
}

#[test]
fn the_bump_allocator_aligns_and_refuses() {
    assert_eq!(bump(0, 8, 8, 64), Some((0, 8)));
    assert_eq!(bump(9, 8, 8, 64), Some((16, 24)));
    assert_eq!(bump(9, 48, 16, 64), Some((16, 64)));
    assert_eq!(bump(9, 49, 16, 64), None);
    assert_eq!(bump(usize::MAX, 1, 16, 64), None);
    assert_eq!(bump(0, usize::MAX, 1, 64), None);
}

#[test]
fn results_are_reported() {
    assert_eq!(finisher_status(0), 0x5555);
    assert_eq!(finisher_status(3), 0x3_3333);
    assert_eq!(&hex_report(0x00ab_c019), b"00abc019");
    assert_eq!(decimal(0), b"0");
    assert_eq!(decimal(125_829_120), b"125829120");
}

#[test]
fn saved_pairs_are_remembered() {
    let mut used = [0u32; 32];
    let mut offset = 0u32;
    save_pair(&mut used, &mut offset, 19, 20);
    save_pair(&mut used, &mut offset, 29, 30);
    assert_eq!(offset, 32);
    assert_eq!((used[19], used[20], used[29], used[30]), (8, 16, 24, 32));
    assert_eq!(reserve_pair(&mut offset), (40, 48));
    note_saved(&mut used, 19, 40);
    assert_eq!(used[19], 40);
}
