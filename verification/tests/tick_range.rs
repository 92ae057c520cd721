use octothorpe::tick_range::TickRange;

#[test]
fn range_contains_its_start_but_not_its_stop() {
    let range = TickRange::new(10, 20);
    assert_eq!((range.start, range.stop), (10, 20));
    assert!(range.contains(10));
    assert!(range.contains(19));
    assert!(!range.contains(20));
    assert!(!range.contains(9));
}

#[test]
fn ranges_overlap_only_when_they_share_a_tick() {
    let range = TickRange::new(10, 20);
    assert!(range.overlaps(&TickRange::new(15, 25)));
    assert!(range.overlaps(&TickRange::new(0, 11)));
    assert!(!range.overlaps(&TickRange::new(20, 30)));
    assert!(!range.overlaps(&TickRange::new(0, 10)));
}

#[test]
fn range_moved_and_measured() {
    let range = TickRange::new(10, 20).plus(5);
    assert_eq!((range.start, range.stop), (15, 25));
    assert_eq!(range.length(), 10);
    assert_eq!(TickRange::new(7, 7).length(), 0);
}
