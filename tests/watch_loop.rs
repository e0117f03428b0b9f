use filetail::session::{react, watch_settings, Notice, Step, PAUSE_MILLIS, POLL_INTERVAL_SECS};

#[test]
fn change_reads_the_tail() {
    assert_eq!(react(Notice::Changed), Step::ReadTail);
}

#[test]
fn watch_failure_is_reported_and_loop_goes_on() {
    let msg = "file removed".to_string();
    assert_eq!(react(Notice::Failed(msg.clone())), Step::Report(msg));
}

#[test]
fn settings_poll_each_second_by_metadata() {
    let s = watch_settings();
    assert_eq!(s.poll_interval_secs, 1);
    assert!(!s.compare_contents);
    assert!(!s.recursive);
    assert_eq!(POLL_INTERVAL_SECS, 1);
    assert_eq!(PAUSE_MILLIS, 100);
}
