use rfshare::history::{TransferDir, TransferType};
use rfshare::inbox::{received_entry, received_notice, ReceivedFile, RecvState};

fn file(name: &str, size: u64) -> ReceivedFile {
    ReceivedFile {
        name: name.to_string(),
        size,
        path: format!("/d/{}", name),
        seen: false,
        peer_name: "desk".to_string(),
    }
}

#[test]
fn received_files_are_counted() {
    let mut r = RecvState::new(true, true, &Some("/d".to_string()));
    assert!(r.accepts(5));
    assert!(r.receive(file("a", 5)));
    assert!(r.receive(file("b", 7)));
    assert_eq!(r.recv_bytes, 12);
    assert_eq!(r.recv_files, 2);
    assert_eq!(r.unread_count(), 2);
    assert!(!r.accepts(u64::MAX));
    r.mark_all_seen();
    assert_eq!(r.unread_count(), 0);
    r.fail("no".to_string());
    assert_eq!(r.error.as_deref(), Some("no"));
    assert_eq!(r.save_dir.as_deref(), Some("/d"));
    let mut closed = RecvState::new(true, false, &None);
    assert!(!closed.receive(file("a", 5)));
}

#[test]
fn a_file_is_announced_once() {
    let mut r = RecvState::new(true, false, &None);
    r.receive(file("a", 5));
    assert!(r.announce(false).is_empty());
    assert_eq!(r.unread_count(), 1);
    let told = r.announce(true);
    assert_eq!(told.len(), 1);
    assert_eq!(told[0].name, "a");
    assert_eq!(told[0].path, "/d/a");
    assert!(r.announce(true).is_empty());
    r.receive(file("b", 5));
    assert_eq!(r.announce(true)[0].name, "b");
}

#[test]
fn received_files_enter_the_history() {
    let e = received_entry(99, &file("a", 5), TransferType::Remote);
    assert_eq!(e.timestamp, 99);
    assert_eq!(e.direction, TransferDir::Received);
    assert_eq!(e.to_csv_line(), "99,received,remote,a,5,desk,1,,/d/a\n");
}

#[test]
fn a_notice_tells_where_a_file_went() {
    assert_eq!(received_notice("a.txt", "/d"), "'a.txt' saved to /d");
    let long = "x".repeat(50);
    assert_eq!(received_notice(&long, "/d"), format!("'{}…xxxx' saved to /d", "x".repeat(45)));
}
