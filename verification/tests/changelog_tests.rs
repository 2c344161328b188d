use body_dynamics::changelog::{Change, ChangeLog, Component};

fn change(frame: u64, body: u64, component: Component) -> Change {
    Change { frame, body, component }
}

#[test]
fn two_readers_with_their_own_checkpoints() {
    let mut log = ChangeLog::new();
    // frame 1
    log.record(7, Component::Pose);
    assert!(log.advance());
    // frame 2
    log.record(7, Component::NextFrame);
    log.record(7, Component::Pose);
    assert!(log.advance());
    // frame 3
    log.record(7, Component::Pose);
    log.record(8, Component::Pose);
    assert!(log.advance());
    // frame 4
    log.record(7, Component::NextFrame);

    let early = log.changes_since(1);
    let late = log.changes_since(3);
    assert_eq!(
        early,
        vec![
            change(2, 7, Component::NextFrame),
            change(2, 7, Component::Pose),
            change(3, 7, Component::Pose),
            change(3, 8, Component::Pose),
            change(4, 7, Component::NextFrame),
        ]
    );
    assert_eq!(late, vec![change(4, 7, Component::NextFrame)]);
    // asking again gives the same answer: reading does not consume
    assert_eq!(log.changes_since(1), early);
    assert_eq!(log.changes_since(4), vec![]);
    // a reader that has seen nothing gets everything
    assert_eq!(log.changes_since(0).len(), log.len());
}

#[test]
fn a_change_is_recorded_once_per_frame() {
    let mut log = ChangeLog::new();
    assert!(log.record(1, Component::Pose));
    assert!(!log.record(1, Component::Pose));
    assert!(log.record(1, Component::NextFrame));
    assert!(log.record(2, Component::Pose));
    assert!(!log.record(1, Component::NextFrame));
    assert_eq!(log.len(), 3);
    assert!(log.advance());
    assert!(log.record(1, Component::Pose));
    assert_eq!(log.len(), 4);
    assert_eq!(log.frame(), 2);
}

#[test]
fn a_new_log_is_empty_at_frame_one() {
    let log = ChangeLog::new();
    assert_eq!(log.frame(), 1);
    assert_eq!(log.len(), 0);
    assert_eq!(log.changes_since(0), vec![]);
}

#[test]
fn a_reader_that_has_seen_nothing_sees_the_first_frame() {
    let mut log = ChangeLog::new();
    log.record(3, Component::Pose);
    assert_eq!(log.changes_since(0), vec![change(1, 3, Component::Pose)]);
    assert_eq!(log.changes_since(1), vec![]);
    log.advance();
    log.record(3, Component::Pose);
    assert_eq!(log.changes_since(1), vec![change(2, 3, Component::Pose)]);
}

#[test]
fn the_frame_counter_only_grows() {
    let mut log = ChangeLog::new();
    let mut last = log.frame();
    for _ in 0..10 {
        assert!(log.advance());
        assert!(log.frame() > last);
        last = log.frame();
    }
    assert_eq!(last, 11);
}

#[test]
fn steps_record_the_records_they_touch() {
    let mut log = ChangeLog::new();
    log.staged(4);
    log.committed(4, false);
    log.committed(5, true);
    assert_eq!(
        log.changes_since(0),
        vec![
            change(1, 4, Component::NextFrame),
            change(1, 4, Component::Pose),
            change(1, 5, Component::Pose),
            change(1, 5, Component::NextFrame),
        ]
    );
    // a second step in the same frame adds nothing
    log.staged(4);
    log.committed(5, true);
    assert_eq!(log.len(), 4);
}
