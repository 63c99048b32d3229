use mixer::notifs::JackNotifs;

#[test]
fn missed_deadlines_are_counted() {
    let mut notifs = JackNotifs::new();
    assert_eq!(notifs.xrun_count, 0);
    assert_eq!(notifs.xrun(), 1);
    assert_eq!(notifs.xrun(), 2);
    assert_eq!(notifs.xrun(), 3);
    assert_eq!(notifs.xrun_count, 3);
}

#[test]
fn the_count_saturates_instead_of_wrapping() {
    let mut notifs = JackNotifs { xrun_count: usize::MAX };
    assert_eq!(notifs.xrun(), usize::MAX);
    assert_eq!(notifs.xrun_count, usize::MAX);
}
