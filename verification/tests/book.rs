use rfshare::book::{comes_before, passes_filter, PeerBook, ScanState};
use rfshare::peers::{Peer, PeerKind, RELAY_PEER_ADDR};

fn peer(name: &str, addr: &str, kind: PeerKind) -> Peer {
    Peer { name: name.to_string(), addr: addr.to_string(), kind, latency: None }
}

fn book() -> PeerBook {
    PeerBook {
        peers: Vec::new(),
        selected: None,
        scan_state: ScanState::Idle,
        saved_peer_name: String::new(),
        saved_peer_addr: String::new(),
        manual_peers: vec![peer("office", "10.0.0.2", PeerKind::Remote)],
        this_hostname: "me".to_string(),
        this_ip: "10.0.0.9".to_string(),
    }
}

fn scanned() -> PeerBook {
    let mut b = book();
    b.start_scan();
    b.finish_scan(vec![
        peer("zoe", "10.0.0.5", PeerKind::Local),
        peer("me", "10.0.0.6", PeerKind::Local),
        peer("Bob", "10.0.0.9", PeerKind::Local),
        peer("amy", "10.0.0.7", PeerKind::Local),
    ]);
    b
}

#[test]
fn a_search_finds_others() {
    let b = scanned();
    assert_eq!(b.scan_state, ScanState::Done);
    let names: Vec<&str> = b.peers.iter().map(|p| p.name.as_str()).collect();
    assert_eq!(names, ["zoe", "amy", "office"]);
    assert_eq!(b.local_count(), 2);
}

#[test]
fn devices_entered_by_hand_are_listed_once() {
    let mut b = book();
    b.finish_scan(vec![peer("there", "10.0.0.2", PeerKind::Local)]);
    assert_eq!(b.peers.len(), 1);
    assert_eq!(b.peers[0].name, "there");
}

#[test]
fn a_search_starts_from_nothing() {
    let mut b = scanned();
    b.select_peer(0);
    b.start_scan();
    assert!(b.peers.is_empty());
    assert_eq!(b.selected, None);
    assert_eq!(b.scan_state, ScanState::Scanning);
    assert_eq!(b.saved_peer_name, "zoe");
}

#[test]
fn a_second_click_gives_the_choice_up() {
    let mut b = scanned();
    assert!(b.selected_peer().is_none());
    b.select_peer(1);
    assert_eq!(b.selected_peer().unwrap().name, "amy");
    assert_eq!(b.saved_peer_addr, "10.0.0.7");
    b.select_peer(1);
    assert_eq!(b.selected, None);
    assert_eq!(b.saved_peer_addr, "10.0.0.7");
    b.select_peer(0);
    assert_eq!(b.saved_peer_name, "zoe");
}

#[test]
fn the_last_device_is_chosen_again() {
    let mut b = scanned();
    b.try_auto_select();
    assert_eq!(b.selected, None);
    b.saved_peer_addr = "10.0.0.7".to_string();
    b.try_auto_select();
    assert_eq!(b.selected, Some(1));
}

#[test]
fn devices_are_shown_in_their_order() {
    let mut b = scanned();
    assert_eq!(b.local_order(), vec![1, 0]);
    b.saved_peer_addr = "10.0.0.5".to_string();
    assert_eq!(b.local_order(), vec![0, 1]);
    assert!(comes_before("Zoe", "amy"));
    assert!(comes_before("a", "ab"));
    assert!(!comes_before("a", "a"));
}

#[test]
fn devices_are_filtered() {
    let mut b = scanned();
    assert_eq!(b.visible_peers(""), vec![1, 0]);
    assert_eq!(b.visible_peers("ZO"), vec![0]);
    assert_eq!(b.visible_peers("0.0.7"), vec![1]);
    assert!(b.visible_peers("nobody").is_empty());
    b.peers[0].name = "ÉLAN".to_string();
    assert_eq!(b.visible_peers("élan"), vec![0]);
    assert!(passes_filter("zoe", "1.2.3.4", "oe"));
    assert!(!passes_filter("zoe", "1.2.3.4", "Z"));
}

#[test]
fn latencies_are_noted() {
    let mut b = scanned();
    b.set_latency("10.0.0.7", 12);
    b.set_latency("1.1.1.1", 99);
    assert_eq!(b.peers[1].latency, Some(12));
    assert_eq!(b.peers[0].latency, None);
}

#[test]
fn a_device_behind_the_relay_is_chosen() {
    let mut b = scanned();
    b.add_relay_peer("remote");
    assert_eq!(b.selected, Some(3));
    assert_eq!(b.peers[3].addr, RELAY_PEER_ADDR);
    assert_eq!(b.saved_peer_name, "remote");
    b.select_peer(0);
    b.add_relay_peer("remote");
    assert_eq!(b.peers.len(), 4);
    assert_eq!(b.selected, Some(3));
}
