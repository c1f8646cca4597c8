use rfshare::book::{PeerBook, ScanState};
use rfshare::history::{HistoryEntry, TransferDir, TransferType};
use rfshare::link::{Link, RelayMsg, RelayState};
use rfshare::paths::Style;
use rfshare::peers::{Peer, PeerKind};
use rfshare::queue::QueueItem;
use rfshare::sender::Sent;
use rfshare::view::{
    avatar_letter, badges, can_open_folder, can_reset_save_dir, count_label, device_label,
    device_note, device_panel, entry_line, folder_label, folder_line, item_style, latency_label,
    local_bar, matches_filter, pace, relay_bar, remote_panel, reset_save_dir, row_style,
    shorten_path, shortenable, shown_entries, sync_action, sync_warning, total, total_label,
    unread_badge, Badge, DevicePanel, ItemStyle, Pace, RelayBar, RemotePanel, RowStyle, SyncAction,
    Total,
};

fn entry(direction: TransferDir, name: &str, size: u64, success: bool) -> HistoryEntry {
    HistoryEntry {
        timestamp: 1,
        direction,
        file_name: name.to_string(),
        file_size: size,
        peer_name: "Desk".to_string(),
        success,
        error: None,
        transfer_type: TransferType::Local,
        file_path: Some("/d/x".to_string()),
    }
}

fn book() -> PeerBook {
    PeerBook {
        peers: Vec::new(),
        selected: None,
        scan_state: ScanState::Idle,
        saved_peer_name: String::new(),
        saved_peer_addr: String::new(),
        manual_peers: Vec::new(),
        this_hostname: "me".to_string(),
        this_ip: "10.0.0.9".to_string(),
    }
}

#[test]
fn counts_are_worded() {
    assert_eq!(count_label(0, "file"), "0 files");
    assert_eq!(count_label(1, "device"), "1 device");
    assert_eq!(count_label(12, "transfer"), "12 transfers");
    assert_eq!(unread_badge(0), None);
    assert_eq!(unread_badge(9), Some("9".to_string()));
    assert_eq!(unread_badge(10), Some("9+".to_string()));
}

#[test]
fn totals_count_what_succeeded() {
    let h = vec![
        entry(TransferDir::Sent, "a", 1000, true),
        entry(TransferDir::Sent, "b", 5, false),
        entry(TransferDir::Received, "c", 7, true),
        entry(TransferDir::Sent, "d", 24, true),
    ];
    assert_eq!(total(&h, TransferDir::Sent), Some(Total { files: 2, bytes: 1024 }));
    assert_eq!(total(&h, TransferDir::Received), Some(Total { files: 1, bytes: 7 }));
    assert_eq!(total_label(Total { files: 2, bytes: 1024 }), "1.0 KB · 2 files");
    assert_eq!(total_label(Total { files: 1, bytes: 7 }), "7 B · 1 file");
    let big = vec![
        entry(TransferDir::Sent, "a", u64::MAX, true),
        entry(TransferDir::Sent, "b", 1, true),
    ];
    assert_eq!(total(&big, TransferDir::Sent), None);
}

#[test]
fn the_history_is_searched() {
    let h = vec![
        entry(TransferDir::Sent, "Photo.PNG", 1, true),
        entry(TransferDir::Sent, "notes.txt", 1, true),
    ];
    assert_eq!(shown_entries(&h, "").len(), 2);
    let r = shown_entries(&h, "pHoTo");
    assert_eq!(r.len(), 1);
    assert_eq!(r[0].file_name, "Photo.PNG");
    assert_eq!(shown_entries(&h, "DESK").len(), 2);
    assert!(shown_entries(&h, "nothing").is_empty());
    assert!(matches_filter("abc", "x", "bc"));
    assert!(!matches_filter("abc", "x", "BC"));
}

#[test]
fn rows_of_the_history() {
    let r = entry(TransferDir::Received, "a", 2048, true);
    assert_eq!(row_style(&r, true), RowStyle::Plain);
    assert_eq!(row_style(&r, false), RowStyle::Missing);
    assert_eq!(badges(&r, false), [Badge::Deleted, Badge::Local]);
    assert!(can_open_folder(&r, true));
    assert!(!can_open_folder(&r, false));
    assert_eq!(entry_line(&r), "from Desk  ·  2.0 KB");
    let mut s = entry(TransferDir::Sent, "a", 1, false);
    s.transfer_type = TransferType::Remote;
    assert_eq!(row_style(&s, false), RowStyle::Failed);
    assert_eq!(badges(&s, false), [Badge::Failed, Badge::Remote]);
    assert!(!can_open_folder(&s, true));
    assert_eq!(entry_line(&s), "to Desk  ·  1 B");
    assert_eq!(Badge::Failed.label(), "FAILED");
    assert_eq!(Badge::Deleted.label(), "DELETED");
    assert_eq!(Badge::Remote.label(), "REMOTE");
    assert_eq!(Badge::Local.label(), "LOCAL");
}

#[test]
fn long_paths_are_shortened() {
    let p = "/".to_string() + &"a".repeat(60);
    assert_eq!(shorten_path(&p, 50, 48), format!("…{}", "a".repeat(48)));
    assert_eq!(shorten_path("/short", 50, 48), "/short");
    assert_eq!(shorten_path(&p[..55], 50, 59), format!("…{}", &p[..55]));
    assert!(shortenable(&p, 50, 48));
    assert!(!shortenable(&"é".repeat(30), 50, 47));
}

#[test]
fn folders_have_names() {
    assert_eq!(folder_label(Some(&"/home/u/Sync".to_string()), Style::Unix), "Sync");
    assert_eq!(folder_label(Some(&"/".to_string()), Style::Unix), "None");
    assert_eq!(folder_label(None, Style::Unix), "None");
    assert_eq!(reset_save_dir(Some("/dl")), "/dl");
    assert_eq!(reset_save_dir(None), ".");
    assert!(can_reset_save_dir("/x", Some("/dl"), Style::Unix));
    assert!(!can_reset_save_dir("/dl/", Some("/dl"), Style::Unix));
}

#[test]
fn rows_of_the_queue() {
    let mut i = QueueItem::new("/a".to_string(), 4, Style::Unix);
    assert_eq!(item_style(&i), ItemStyle::Waiting);
    i.progress = Some(Sent { bytes: 1, size: 4 });
    assert_eq!(item_style(&i), ItemStyle::Sending);
    i.progress = Some(Sent { bytes: 4, size: 4 });
    assert_eq!(item_style(&i), ItemStyle::Done);
    i.progress = None;
    i.error = Some("no".to_string());
    assert_eq!(item_style(&i), ItemStyle::Failed);
}

#[test]
fn devices_are_described() {
    assert_eq!(avatar_letter("desk"), "D");
    assert_eq!(avatar_letter("émile"), "É");
    assert_eq!(avatar_letter(""), "?");
    assert_eq!(pace(Some(9)), Pace::Quick);
    assert_eq!(pace(Some(10)), Pace::Fair);
    assert_eq!(pace(Some(50)), Pace::Slow);
    assert_eq!(pace(None), Pace::Unknown);
    assert_eq!(latency_label(Some(12)), "12 ms");
    assert_eq!(latency_label(None), "—");
    assert_eq!(device_note(true, true), "Remote device");
    assert_eq!(device_note(false, true), "Recently connected");
    assert_eq!(device_note(false, false), "");
    assert_eq!(device_label("me", "10.0.0.9"), "me");
    assert_eq!(device_label("", "10.0.0.9"), "10.0.0.9");
}

#[test]
fn the_bar_above_the_devices() {
    let mut b = book();
    assert!(!local_bar(&b).search);
    b.finish_scan(vec![Peer {
        name: "desk".to_string(),
        addr: "10.0.0.1".to_string(),
        kind: PeerKind::Local,
        latency: None,
    }]);
    assert!(local_bar(&b).search);
    assert_eq!(local_bar(&b).count, Some(1));
    b.scan_state = ScanState::Idle;
    assert_eq!(local_bar(&b).count, None);
}

#[test]
fn the_page_on_the_device() {
    let mut b = book();
    assert!(matches!(device_panel(&b), DevicePanel::NoDevice));
    b.saved_peer_name = "desk".to_string();
    assert!(matches!(device_panel(&b), DevicePanel::LastUsed { name, .. } if name == "desk"));
    b.add_relay_peer("remote");
    assert!(matches!(device_panel(&b), DevicePanel::Connected { addr, .. } if addr == "127.0.0.2"));
}

#[test]
fn the_page_on_remote_devices() {
    let mut l = Link::new();
    l.go_online(false);
    match remote_panel(&l) {
        RemotePanel::Choice { error, offered, message } => {
            assert!(error.is_none() && !offered);
            assert!(message.is_some());
        },
        _ => panic!("no choice"),
    }
    assert_eq!(relay_bar(&l.state), RelayBar::Offline);
    l.go_online(true);
    assert!(matches!(remote_panel(&l), RemotePanel::Connecting));
    assert_eq!(relay_bar(&l.state), RelayBar::Connecting);
    l.take_message(RelayMsg::Code("AB".to_string()));
    assert!(matches!(remote_panel(&l), RemotePanel::Code(c) if c == "AB"));
    assert_eq!(relay_bar(&l.state), RelayBar::Online);
    l.state = RelayState::Paired { peer_name: "p".to_string() };
    assert!(matches!(remote_panel(&l), RemotePanel::Paired(n) if n == "p"));
    l.take_message(RelayMsg::Error("no".to_string()));
    l.is_online = true;
    match remote_panel(&l) {
        RemotePanel::Choice { error, offered, message } => {
            assert_eq!(error.as_deref(), Some("no"));
            assert!(offered && message.is_none());
        },
        _ => panic!("no choice"),
    }
}

#[test]
fn the_page_on_folders() {
    assert_eq!(
        sync_warning(true, "desk"),
        "No remote connection active. Connect via remote mode first."
    );
    assert_eq!(sync_warning(false, "desk"), "desk is not available  ·  scan to reconnect");
    assert_eq!(sync_warning(false, ""), "Select a device on the Send tab first");
    assert_eq!(folder_line("/s", 1, false), "/s  ·  1 file synced");
    assert_eq!(folder_line("/s", 2, true), "/s  ·  2 files synced remotely");
    assert_eq!(sync_action(true, false, false), SyncAction::Stop);
    assert_eq!(sync_action(false, true, true), SyncAction::Start);
    assert_eq!(sync_action(false, true, false), SyncAction::Nothing);
    assert_eq!(sync_action(false, false, true), SyncAction::Nothing);
}

#[test]
fn folders_of_windows_are_named_by_their_last_part() {
    assert_eq!(folder_label(Some(&"C:\\Users\\u\\Sync".to_string()), Style::Windows), "Sync");
    assert!(!can_reset_save_dir("c:/dl", Some("C:\\dl\\"), Style::Windows));
}
