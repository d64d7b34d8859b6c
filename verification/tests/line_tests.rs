use rlox::line::LineTracker;

#[test]
fn empty_tracker_has_no_lines() {
    let t = LineTracker::new();
    assert_eq!(t.line_at(0), None);
}

#[test]
fn line_at_reads_back_pushed_lines() {
    let mut t = LineTracker::new();
    t.push(1);
    t.push(1);
    t.push(2);
    t.push(2);
    t.push(2);
    t.push(7);
    t.push(1);
    let expected = [1, 1, 2, 2, 2, 7, 1];
    for (i, l) in expected.iter().enumerate() {
        assert_eq!(t.line_at(i), Some(*l));
    }
    assert_eq!(t.line_at(7), None);
    assert_eq!(t.line_at(100), None);
}
