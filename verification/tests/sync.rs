use rfshare::peers::{Peer, PeerKind};
use rfshare::sync::{line_mark, LineMark, SyncMsg, SyncResult, SyncSide, Watch};
use rfshare::textmap::TextMap;

fn peer(addr: &str) -> Peer {
    Peer { name: "desk".to_string(), addr: addr.to_string(), kind: PeerKind::Local, latency: None }
}

fn side(relay: bool) -> SyncSide {
    let mut map = TextMap::new();
    map.insert("10.0.0.1".to_string(), "/sync".to_string());
    SyncSide::new(map, relay)
}

#[test]
fn a_file_is_sent_once_for_each_change() {
    let mut w = Watch::new();
    assert!(w.wants("/a", 5));
    let m = w.settle("a".to_string(), "/a".to_string(), 5, SyncResult::Sent);
    assert!(matches!(m, SyncMsg::FileSent { .. }));
    assert!(!w.wants("/a", 5));
    assert!(!w.wants("/a", 4));
    assert!(w.wants("/a", 6));
    assert!(w.wants("/b", 5));
    let m = w.settle("a".to_string(), "/a".to_string(), 6, SyncResult::Failed("no".to_string()));
    assert!(matches!(m, SyncMsg::FileError { .. }));
    assert!(w.wants("/a", 6));
    let m = w.settle("a".to_string(), "/a".to_string(), 6, SyncResult::Skipped);
    assert!(matches!(m, SyncMsg::FileSkipped { .. }));
    assert!(!w.wants("/a", 6));
}

#[test]
fn work_is_found_for_the_chosen_device() {
    let mut s = side(false);
    let there = |_: &str| true;
    let gone = |_: &str| false;
    s.rebuild(Some(&peer("10.0.0.1")), &there);
    assert_eq!(s.jobs.len(), 1);
    assert_eq!(s.jobs[0].folder, "/sync");
    assert_eq!(s.jobs[0].peer_name, "desk");
    assert_eq!(s.sent_count(), 0);
    s.rebuild(Some(&peer("10.0.0.1")), &gone);
    assert!(s.jobs.is_empty());
    s.rebuild(Some(&peer("10.0.0.2")), &there);
    assert!(s.jobs.is_empty());
    s.rebuild(None, &there);
    assert!(s.jobs.is_empty());
    assert_eq!(s.sent_count(), 0);
}

#[test]
fn folders_are_set_and_forgotten() {
    let mut s = side(false);
    s.active = true;
    s.set_folder("10.0.0.2".to_string(), "/other".to_string());
    assert!(!s.active);
    assert_eq!(s.folder_for(Some(&peer("10.0.0.2"))).unwrap(), "/other");
    s.active = true;
    s.drop_folder("10.0.0.1");
    assert!(!s.active);
    assert!(s.folder_for(Some(&peer("10.0.0.1"))).is_none());
    assert!(s.folder_for(None).is_none());
}

#[test]
fn the_log_over_the_local_network() {
    let mut s = side(false);
    s.take_message(&SyncMsg::FileFound { name: "a".to_string() });
    assert_eq!(s.log, ["... sending a"]);
    s.take_message(&SyncMsg::FileSent { name: "a".to_string(), path: "/a".to_string() });
    assert_eq!(s.log, ["OK a"]);
    s.take_message(&SyncMsg::FileFound { name: "b".to_string() });
    s.take_message(&SyncMsg::FileError { name: "b".to_string(), error: "no".to_string() });
    assert_eq!(s.log, ["OK a", "ERR b — no"]);
    s.take_message(&SyncMsg::FileFound { name: "c".to_string() });
    s.take_message(&SyncMsg::FileSkipped { name: "c".to_string() });
    assert_eq!(s.log.len(), 2);
    s.stop();
    assert_eq!(s.log[2], "-- Watching stopped");
    s.clear_log();
    assert!(s.log.is_empty());
}

#[test]
fn the_log_through_the_relay() {
    let mut s = side(true);
    s.take_message(&SyncMsg::FileFound { name: "a".to_string() });
    assert_eq!(s.log, ["... sending via relay a"]);
    s.take_message(&SyncMsg::FileSent { name: "a".to_string(), path: "/a".to_string() });
    s.take_message(&SyncMsg::FileError { name: "b".to_string(), error: "no".to_string() });
    assert_eq!(s.log, ["OK via relay: a", "ERR via relay b — no"]);
    s.stop();
    assert_eq!(s.log[2], "-- Remote sync stopped");
}

#[test]
fn the_log_keeps_its_last_lines() {
    let mut s = side(false);
    for i in 0..100 {
        s.take_message(&SyncMsg::FileFound { name: format!("{}", i) });
    }
    assert_eq!(s.log.len(), 100);
    s.take_message(&SyncMsg::FileFound { name: "x".to_string() });
    assert_eq!(s.log.len(), 51);
    assert_eq!(s.log[0], "... sending 50");
}

#[test]
fn lines_are_marked() {
    assert_eq!(line_mark("OK a"), LineMark::Success);
    assert_eq!(line_mark("... sending a"), LineMark::Pending);
    assert_eq!(line_mark("ERR a"), LineMark::Problem);
    assert_eq!(line_mark("-- Watching stopped"), LineMark::Problem);
}
