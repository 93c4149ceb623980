//! Queue accounting used by the download manager.

use rust_hf_downloader::models::QueueState;

#[test]
fn add_increments_size_and_bytes() {
    let mut q = QueueState::new(0, 0);
    q.add(2, 1024);
    assert_eq!(q.size, 2);
    assert_eq!(q.bytes, 1024);
}

#[test]
fn remove_saturates_instead_of_underflowing() {
    let mut q = QueueState::new(1, 100);
    q.remove(5, 1000);
    assert_eq!(q.size, 0);
    assert_eq!(q.bytes, 0);
    assert!(q.is_empty());
}

#[test]
fn mixed_add_remove_tracks_correctly() {
    let mut q = QueueState::new(0, 0);
    q.add(3, 300);
    q.add(1, 50);
    q.remove(2, 200);
    assert_eq!(q.size, 2);
    assert_eq!(q.bytes, 150);
}

#[test]
fn add_then_remove_restores_counts() {
    let mut q = QueueState::new(4, 40);
    q.add(3, 30);
    q.remove(3, 30);
    assert_eq!((q.size, q.bytes), (4, 40));
    let mut full = QueueState::new(usize::MAX, u64::MAX);
    full.add(1, 1);
    assert_eq!((full.size, full.bytes), (usize::MAX, u64::MAX));
}
