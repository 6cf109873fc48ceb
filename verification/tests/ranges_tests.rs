use hls_stream::ranges::RangeTracker;

#[test]
fn a_fresh_tracker_is_empty() {
    let tracker = RangeTracker::new();
    assert!(tracker.is_empty());
    assert!(!tracker.contains(0));
    assert_eq!(tracker.enclosing(0), None);
}

#[test]
fn insert_covers_exactly_the_given_range() {
    let mut tracker = RangeTracker::new();
    tracker.insert(3, 6);
    assert!(!tracker.is_empty());
    assert!(!tracker.contains(2));
    assert!(tracker.contains(3));
    assert!(tracker.contains(5));
    assert!(!tracker.contains(6));
    assert_eq!(tracker.enclosing(4), Some((3, 6)));
}

#[test]
fn adjacent_and_overlapping_ranges_coalesce() {
    let mut tracker = RangeTracker::new();
    tracker.insert(0, 2);
    tracker.insert(2, 4);
    assert_eq!(tracker.enclosing(1), Some((0, 4)));
    tracker.insert(3, 8);
    assert_eq!(tracker.enclosing(0), Some((0, 8)));
}

#[test]
fn removal_contracts_and_splits_ranges() {
    let mut tracker = RangeTracker::new();
    tracker.insert(0, 10);
    tracker.remove(3, 5);
    assert_eq!(tracker.enclosing(0), Some((0, 3)));
    assert!(!tracker.contains(3));
    assert!(!tracker.contains(4));
    assert_eq!(tracker.enclosing(5), Some((5, 10)));
    tracker.remove(0, 10);
    assert!(tracker.is_empty());
}
