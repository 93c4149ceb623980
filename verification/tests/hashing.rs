//! SHA-256 of files read block by block.

use rust_hf_downloader::verification::FileHasher;

#[test]
fn hash_of_nothing() {
    let h = FileHasher::new();
    assert_eq!(h.bytes_fed(), 0);
    assert_eq!(h.finish_hex(), "e3b0c44298fc1c149afbf4c8996fb92427ae41e4649b934ca495991b7852b855");
}

#[test]
fn hash_is_the_same_in_any_blocks() {
    let mut one = FileHasher::new();
    assert_eq!(one.feed(b"abc", 100, 3), Some(3));
    let mut two = FileHasher::new();
    assert_eq!(two.feed(b"ab", 100, 3), None);
    assert_eq!(two.feed(b"c", 100, 3), Some(3));
    assert_eq!(two.blocks_count(), 2);
    let expected = "ba7816bf8f01cfea414140de5dae2223b00361a396177a9cb410ff61f20015ad";
    assert_eq!(one.finish_hex(), expected);
    assert_eq!(two.finish_hex(), expected);
}

#[test]
fn progress_is_published_every_interval() {
    let mut h = FileHasher::new();
    let got: Vec<Option<u64>> = (0..5).map(|_| h.feed(&[7u8; 10], 2, 1000)).collect();
    assert_eq!(got, vec![None, Some(20), None, Some(40), None]);
    assert_eq!(h.bytes_fed(), 50);
    let hex = h.finish_hex();
    assert_eq!(hex.len(), 64);
    assert!(hex.chars().all(|c| c.is_ascii_digit() || ('a'..='f').contains(&c)));
}
