use rfshare::app::{App, CloseStep, Machine, ScanMode, SettingsTab, Tab, TrayEvent};
use rfshare::book::ScanState;
use rfshare::history::HistoryEntry;
use rfshare::license::{License, Plan};
use rfshare::link::{RelayMsg, RelayState};
use rfshare::paths::Style;
use rfshare::peers::{Peer, PeerKind};
use rfshare::prefs::{load_prefs, save_prefs, SavedPrefs};
use rfshare::settings::{default_save_dir, initial_dark_mode};

fn machine() -> Machine {
    Machine {
        hostname: "me".to_string(),
        ip: "10.0.0.9".to_string(),
        default_dir: "/dl".to_string(),
        system_dark: false,
    }
}

fn pro() -> License {
    License {
        plan: Plan::Pro,
        email: "me".to_string(),
        key: "29714-5B90A-54A40-254F4-B7B1C".to_string(),
    }
}

fn app(license: License) -> App {
    let history: Vec<HistoryEntry> = Vec::new();
    App::new(SavedPrefs::default(), Vec::new(), license, history, machine())
}

fn peer(name: &str, addr: &str) -> Peer {
    Peer { name: name.to_string(), addr: addr.to_string(), kind: PeerKind::Local, latency: None }
}

fn there(_: &str) -> bool {
    true
}

#[test]
fn an_application_starts_from_its_preferences() {
    let mut p = SavedPrefs::default();
    p.peer_name = "desk".to_string();
    p.manual_peers = vec![
        ("a".to_string(), "10.0.0.2".to_string()),
        ("b".to_string(), "nonsense".to_string()),
        ("c".to_string(), "10.0.0.4".to_string()),
    ];
    p.dark_mode = Some(false);
    p.sync_map.insert("10.0.0.2".to_string(), "/s".to_string());
    let addrs = vec![Some("10.0.0.2".to_string()), None, Some("10.0.0.4".to_string())];
    let a = App::new(p, addrs, License::free(), Vec::new(), machine());
    assert_eq!(a.book.saved_peer_name, "desk");
    assert_eq!(a.book.manual_peers.len(), 2);
    assert_eq!(a.book.manual_peers[1].name, "c");
    assert_eq!(a.book.manual_peers[1].kind, PeerKind::Remote);
    assert_eq!(a.settings.save_dir, "/dl");
    assert!(!a.settings.dark_mode);
    assert!(a.settings.minimize_to_tray);
    assert_eq!(a.updates.version, "v0.17.1");
    assert_eq!(a.screen.tab, Tab::Scan);
    assert_eq!(a.local_sync.map.get("10.0.0.2").unwrap(), "/s");
    assert!(a.relay_sync.relay && !a.local_sync.relay);
}

#[test]
fn preferences_are_kept() {
    let mut a = app(pro());
    a.book.finish_scan(vec![peer("desk", "10.0.0.1")]);
    assert!(a.select_peer(0, &there));
    assert!(a.add_sync_folder("/local".to_string(), &there));
    a.link.relay_mode = true;
    assert!(a.add_relay_sync_folder("/remote".to_string(), &there));
    let p = a.persist_prefs();
    assert_eq!(p.peer_name, "desk");
    assert_eq!(p.peer_addr, "10.0.0.1");
    assert_eq!(p.sync_map.get("10.0.0.1").unwrap(), "/remote");
    assert_eq!(p.save_dir.as_deref(), Some("/dl"));
    assert_eq!(p.dark_mode, Some(true));
    let again = load_prefs(Some(&save_prefs(&p)));
    assert_eq!(again.peer_name, "desk");
    assert_eq!(again.sync_map.get("10.0.0.1").unwrap(), "/remote");
    assert!(!a.select_peer(0, &there));
    assert_eq!(a.persist_prefs().peer_name, "desk");
}

#[test]
fn folders_take_a_licence() {
    let mut a = app(License::free());
    a.book.finish_scan(vec![peer("desk", "10.0.0.1")]);
    a.select_peer(0, &there);
    assert!(!a.add_sync_folder("/s".to_string(), &there));
    assert!(a.screen.show_upgrade);
    assert!(a.local_sync.map.entries.is_empty());
    a.screen.show_upgrade = false;
    assert!(!a.start_sync_watcher());
    assert!(a.screen.show_upgrade);
    a.screen.show_upgrade = false;
    assert!(!a.start_relay_sync_watcher());
    assert!(!a.add_relay_sync_folder("/s".to_string(), &there));
    assert!(a.screen.show_upgrade);
}

#[test]
fn a_folder_is_watched() {
    let mut a = app(pro());
    assert!(!a.add_sync_folder("/s".to_string(), &there));
    a.book.finish_scan(vec![peer("desk", "10.0.0.1")]);
    a.select_peer(0, &there);
    assert!(!a.start_sync_watcher());
    assert!(a.add_sync_folder("/s".to_string(), &there));
    assert_eq!(a.local_sync.jobs.len(), 1);
    assert!(a.start_sync_watcher());
    assert!(a.local_sync.active);
    assert!(!a.start_sync_watcher());
    assert!(a.remove_sync_folder(&there));
    assert!(a.local_sync.jobs.is_empty());
    assert!(!a.local_sync.active);
}

#[test]
fn a_folder_goes_through_the_relay() {
    let mut a = app(pro());
    a.book.finish_scan(vec![peer("desk", "10.0.0.1")]);
    a.select_peer(0, &there);
    assert!(!a.add_relay_sync_folder("/s".to_string(), &there));
    assert_eq!(
        a.link.message,
        Some(("Remote sync requires an active relay connection".to_string(), true))
    );
    a.link.relay_mode = true;
    assert!(a.add_relay_sync_folder("/s".to_string(), &there));
    assert!(!a.start_relay_sync_watcher());
    assert_eq!(
        a.link.message,
        Some(("Cannot start remote sync: No active relay connection".to_string(), true))
    );
    a.link.has_stream = true;
    assert!(a.start_relay_sync_watcher());
    assert!(a.remove_relay_sync_folder(&there));
    assert!(!a.relay_sync.active);
}

#[test]
fn a_search_that_ends_starts_the_watch() {
    let mut a = app(pro());
    a.local_sync.map.insert("10.0.0.1".to_string(), "/s".to_string());
    a.book.start_scan();
    assert!(!a.finish_scan(vec![peer("desk", "10.0.0.1")], &there));
    a.book.selected = Some(0);
    assert!(a.finish_scan(vec![peer("desk", "10.0.0.1")], &there));
    assert!(a.local_sync.active);
    let mut f = app(License::free());
    f.local_sync.map.insert("10.0.0.1".to_string(), "/s".to_string());
    f.book.selected = Some(0);
    assert!(!f.finish_scan(vec![peer("desk", "10.0.0.1")], &there));
    assert_eq!(f.local_sync.jobs.len(), 1);
    assert!(!f.screen.show_upgrade);
}

#[test]
fn files_are_sent_to_the_chosen_device() {
    let mut a = app(License::free());
    a.drop_files(vec![("/d/x".to_string(), 3)], Style::Unix);
    assert_eq!(a.screen.tab, Tab::Send);
    assert!(a.start_send_queue().is_none());
    a.book.finish_scan(vec![peer("desk", "10.0.0.1")]);
    a.select_peer(0, &there);
    let plan = a.start_send_queue().unwrap();
    assert_eq!(plan.peer_name, "desk");
    assert_eq!(plan.peer_addr, "10.0.0.1");
    assert!(!plan.use_relay);
    assert_eq!(plan.files.len(), 1);
    a.link.relay_mode = true;
    a.link.has_stream = true;
    assert!(a.start_send_queue().unwrap().use_relay);
    a.queue.remove_queue_item(0);
    assert!(a.start_send_queue().is_none());
}

#[test]
fn a_pair_through_the_relay_is_shown_the_queue() {
    let mut a = app(pro());
    a.link.go_online(true);
    assert!(!a.take_relay_message(RelayMsg::Code("AB".to_string())));
    assert!(!a.take_relay_message(RelayMsg::Paired { peer: "remote".to_string() }));
    assert_eq!(a.screen.tab, Tab::Scan);
    assert!(a.take_relay_message(RelayMsg::Ready));
    assert_eq!(a.screen.tab, Tab::Send);
    let mut b = app(pro());
    b.link.connect(true);
    assert!(!b.take_relay_message(RelayMsg::Paired { peer: "remote".to_string() }));
    assert!(!b.take_relay_message(RelayMsg::Ready));
    assert_eq!(b.screen.tab, Tab::Send);
    assert_eq!(b.book.selected_peer().unwrap().name, "remote");
    assert!(b.link.has_stream && b.link.relay_mode);
    assert_eq!(a.book.selected_peer().unwrap().name, "remote");
    assert!(!a.take_relay_message(RelayMsg::Error("x".to_string())));
    assert!(matches!(a.link.state, RelayState::Error(_)));
}

#[test]
fn a_new_address_starts_things_anew() {
    let mut a = app(pro());
    let n = a.network_changed("10.1.1.1".to_string());
    assert!(n.rescan && !n.reconnect);
    assert_eq!(a.book.this_ip, "10.1.1.1");
    assert_eq!(a.book.scan_state, ScanState::Scanning);
    a.link.take_message(RelayMsg::Code("AB".to_string()));
    a.screen.scan_mode = ScanMode::Remote;
    let n = a.network_changed("10.1.1.2".to_string());
    assert!(!n.rescan && n.reconnect);
    assert!(matches!(a.link.state, RelayState::Offline));
}

#[test]
fn tabs_are_opened() {
    let mut a = app(License::free());
    assert!(a.open_tab(Tab::History));
    assert_eq!(a.screen.tab, Tab::History);
    assert!(a.is_locked(Tab::Sync));
    assert!(!a.open_tab(Tab::Sync));
    assert_eq!(a.screen.tab, Tab::History);
    assert!(a.screen.show_upgrade);
    a.enter_key();
    assert!(!a.screen.show_upgrade);
    assert_eq!(a.screen.tab, Tab::Settings);
    assert_eq!(a.screen.settings_tab, SettingsTab::License);
    let mut p = app(pro());
    assert!(!p.open_tab(Tab::Sync));
    assert_eq!(p.screen.tab, Tab::Sync);
    p.change_device();
    assert_eq!(p.screen.tab, Tab::Scan);
    assert_eq!(p.book.scan_state, ScanState::Scanning);
}

#[test]
fn the_window_is_hidden_or_the_program_ends() {
    let mut a = app(pro());
    assert_eq!(a.close_requested(), CloseStep::Hide);
    assert!(!a.screen.window_visible);
    assert!(!a.take_tray_event(TrayEvent::ShowWindow));
    assert!(a.screen.window_visible);
    assert!(a.take_tray_event(TrayEvent::Quit));
    a.settings.minimize_to_tray = false;
    assert_eq!(a.close_requested(), CloseStep::Quit);
}

#[test]
fn the_window_is_drawn_as_often_as_it_changes() {
    let mut a = app(pro());
    assert_eq!(a.repaint_after(), 500);
    a.link.go_online(true);
    assert_eq!(a.repaint_after(), 100);
    a.book.start_scan();
    assert_eq!(a.repaint_after(), 40);
}

#[test]
fn releases_are_looked_for_once() {
    let mut a = app(pro());
    assert!(a.check_for_update());
    assert!(!a.check_for_update());
    a.take_update(None);
    assert!(!a.check_for_update());
    a.take_update(Some("v9.0.0".to_string()));
    assert!(!a.check_for_update());
    assert_eq!(a.updates.available.as_deref(), Some("v9.0.0"));
}

#[test]
fn the_history_can_be_emptied() {
    let mut a = app(pro());
    a.screen.history_filter = "x".to_string();
    a.clear_history();
    assert!(a.history.is_empty());
    assert_eq!(a.screen.history_filter, "");
}

#[test]
fn settings_at_the_start() {
    assert!(initial_dark_mode(true, true, Some(false)));
    assert!(!initial_dark_mode(true, false, Some(true)));
    assert!(initial_dark_mode(false, false, None));
    assert!(!initial_dark_mode(false, true, Some(false)));
    let s = |x: &str| Some(x.to_string());
    assert_eq!(default_save_dir(s("/dl"), s("/h")), "/dl");
    assert_eq!(default_save_dir(None, s("/h")), "/h");
    assert_eq!(default_save_dir(None, None), ".");
    let mut a = app(pro());
    a.settings.toggle_auto_detect(false);
    assert!(a.settings.auto_detect_theme && !a.settings.dark_mode);
    a.settings.toggle_auto_detect(true);
    assert!(!a.settings.auto_detect_theme && !a.settings.dark_mode);
}

#[test]
fn remote_sharing_takes_a_licence() {
    let mut a = app(License::free());
    a.choose_scan_mode(ScanMode::Remote);
    assert_eq!(a.screen.scan_mode, ScanMode::Local);
    let mut a = app(pro());
    a.choose_scan_mode(ScanMode::Remote);
    assert_eq!(a.screen.scan_mode, ScanMode::Remote);
    a.choose_scan_mode(ScanMode::Local);
    assert_eq!(a.screen.scan_mode, ScanMode::Local);
}
