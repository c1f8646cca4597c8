use rfshare::peers::{
    announcement, find_addr, is_discovery, is_question, peer_name_in, take_answer, take_message,
    Peer, PeerKind, DISCOVER_MSG, DISCOVER_PORT, PEER_PREFIX,
};

#[test]
fn questions_are_understood_by_others() {
    assert_eq!(DISCOVER_PORT, 44444);
    assert!(is_discovery(DISCOVER_MSG.as_bytes()));
    assert!(is_discovery(b"\0\0RFSHARE_DISCOVER\0\0"));
    assert!(is_question("RFSHARE_DISCOVER and more"));
    assert!(!is_discovery(b"RFSHARE"));
    assert!(!is_discovery(b"xRFSHARE_DISCOVER"));
    assert!(is_discovery(b"RFSHARE_DISCOVER\xff"));
}

#[test]
fn announcements_give_the_name() {
    assert_eq!(announcement("desk"), format!("{}desk", PEER_PREFIX));
    assert_eq!(peer_name_in(&announcement("desk")), Some("desk".to_string()));
    assert_eq!(peer_name_in("RFSHARE_PEER: lap top \n"), Some("lap top".to_string()));
    assert_eq!(peer_name_in("hello"), None);
}

#[test]
fn each_address_is_listed_once() {
    let mut found: Vec<Peer> = Vec::new();
    take_answer(&mut found, b"RFSHARE_PEER:one", "10.0.0.1");
    take_answer(&mut found, b"RFSHARE_PEER:again", "10.0.0.1");
    take_answer(&mut found, b"noise", "10.0.0.3");
    take_message(&mut found, "RFSHARE_PEER:two", "10.0.0.2");
    take_answer(&mut found, b"RFSHARE_PEER:\xff", "10.0.0.4");
    assert_eq!(found.len(), 3);
    assert_eq!(found[0].name, "one");
    assert_eq!(found[0].kind, PeerKind::Local);
    assert_eq!(found[0].latency, None);
    assert_eq!(found[1].addr, "10.0.0.2");
    assert_eq!(found[2].name, "\u{fffd}");
    assert_eq!(find_addr(&found, "10.0.0.2"), Some(1));
    assert_eq!(find_addr(&found, "10.0.0.3"), None);
    assert_eq!(found[1].clone().name, "two");
}
