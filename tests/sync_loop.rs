use sshbeam::sync::{ClipboardSync, SyncAction};

fn tick(sync: &mut ClipboardSync, read: Option<&str>, sent: &mut Vec<String>) {
    match sync.on_read(read.map(|s| s.to_string())) {
        SyncAction::Send(c) => {
            sent.push(c);
            assert_eq!(sync.on_sent(true), SyncAction::Sleep);
        }
        SyncAction::Sleep => {}
        SyncAction::Stop => panic!("the loop stopped"),
    }
}

#[test]
fn first_read_counts_as_a_change() {
    let mut sync = ClipboardSync::new();
    assert_eq!(sync.snapshot(), None);
    assert_eq!(sync.on_read(Some(String::new())), SyncAction::Send(String::new()));
}

#[test]
fn each_change_is_sent_once_in_order() {
    let mut sync = ClipboardSync::new();
    let mut sent = Vec::new();
    for read in ["c1", "c2", "c3"] {
        tick(&mut sync, Some(read), &mut sent);
    }
    assert_eq!(sent, vec!["c1".to_string(), "c2".to_string(), "c3".to_string()]);
}

#[test]
fn repeated_reads_send_nothing_more() {
    let mut sync = ClipboardSync::new();
    let mut sent = Vec::new();
    for read in ["a", "a", "a", "b", "b", "a"] {
        tick(&mut sync, Some(read), &mut sent);
    }
    assert_eq!(sent, vec!["a".to_string(), "b".to_string(), "a".to_string()]);
}

#[test]
fn unchanged_content_twice_is_sent_once() {
    let mut sync = ClipboardSync::new();
    let mut sent = Vec::new();
    tick(&mut sync, Some("same"), &mut sent);
    tick(&mut sync, Some("same"), &mut sent);
    assert_eq!(sent, vec!["same".to_string()]);
    assert_eq!(sync.snapshot(), Some(&"same".to_string()));
}

#[test]
fn failed_reads_are_skipped() {
    let mut sync = ClipboardSync::new();
    let mut sent = Vec::new();
    tick(&mut sync, None, &mut sent);
    tick(&mut sync, Some("x"), &mut sent);
    tick(&mut sync, None, &mut sent);
    tick(&mut sync, Some("x"), &mut sent);
    assert_eq!(sent, vec!["x".to_string()]);
    assert!(!sync.is_stopped());
}

#[test]
fn failed_send_stops_the_loop_and_keeps_the_snapshot() {
    let mut sync = ClipboardSync::new();
    let mut sent = Vec::new();
    tick(&mut sync, Some("old"), &mut sent);
    assert_eq!(sync.on_read(Some("new".to_string())), SyncAction::Send("new".to_string()));
    assert_eq!(sync.on_sent(false), SyncAction::Stop);
    assert!(sync.is_stopped());
    assert_eq!(sync.snapshot(), Some(&"old".to_string()));
    assert_eq!(sync.on_read(Some("newer".to_string())), SyncAction::Stop);
}
