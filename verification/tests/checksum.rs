use apfs_fastindex::block_io::{checksum_matches, resign_block};

#[test]
fn checksum_catches_any_single_changed_byte() {
    let mut b: Vec<u8> = (0..4096u32).map(|i| (i * 7 % 251) as u8).collect();
    resign_block(&mut b);
    assert!(checksum_matches(&b));
    for j in [8usize, 9, 200, 2047, 4095] {
        let mut c = b.clone();
        c[j] ^= 0xff;
        assert!(!checksum_matches(&c), "byte {j}");
        c[j] ^= 0xff;
        assert!(checksum_matches(&c));
    }
    // A short block whose last word is padded.
    let mut s = vec![1u8, 2, 3, 4, 5, 6, 7, 8, 9, 10, 11];
    resign_block(&mut s);
    assert!(checksum_matches(&s));
    s[10] = 0;
    assert!(!checksum_matches(&s));
}
