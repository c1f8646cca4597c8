use rfshare::link::{Holder, HolderError, Link, RelayMsg, RelayState};

#[test]
fn going_online_takes_the_internet() {
    let mut l = Link::new();
    assert!(l.may_go_online());
    assert!(!l.go_online(false));
    assert!(matches!(l.state, RelayState::Offline));
    assert_eq!(
        l.message,
        Some(("No internet connection. Please check your network.".to_string(), true))
    );
    assert!(l.go_online(true));
    assert!(matches!(l.state, RelayState::Connecting));
    assert!(l.listening);
    assert!(!l.go_online(true));
}

#[test]
fn going_offline_undoes_it() {
    let mut l = Link::new();
    l.go_online(true);
    l.go_offline();
    assert!(matches!(l.state, RelayState::Offline));
    assert!(!l.listening);
    assert!(l.message.is_none());
    assert!(l.may_go_online());
}

#[test]
fn a_pair_is_made() {
    let mut l = Link::new();
    l.go_online(true);
    assert!(l.take_message(RelayMsg::Code("AB".to_string())).is_none());
    assert!(matches!(&l.state, RelayState::Online { code } if code == "AB"));
    assert!(l.take_message(RelayMsg::Paired { peer: "remote".to_string() }).is_none());
    assert!(!l.relay_mode);
    assert_eq!(l.take_message(RelayMsg::Ready), Some("remote".to_string()));
    assert!(l.relay_mode && l.has_stream && !l.listening);
}

#[test]
fn a_connection_without_a_pair_names_nobody() {
    let mut l = Link::new();
    l.go_online(true);
    assert_eq!(l.take_message(RelayMsg::Ready), None);
    assert!(l.relay_mode && l.has_stream);
}

#[test]
fn a_failure_is_shown_and_can_be_retried() {
    let mut l = Link::new();
    l.go_online(true);
    l.take_message(RelayMsg::Error("Connection timeout".to_string()));
    assert!(matches!(&l.state, RelayState::Error(e) if e == "Connection timeout"));
    assert_eq!(l.message, Some(("Connection failed: Connection timeout".to_string(), true)));
    assert!(!l.listening);
    assert!(l.go_online(true));
}

#[test]
fn a_code_is_asked_for() {
    let mut l = Link::new();
    l.code_input = "abc".to_string();
    assert_eq!(l.check_code(), None);
    assert_eq!(l.message, Some(("Enter the 9-character code".to_string(), true)));
    l.code_input = " abcd-efgh".to_string();
    assert_eq!(l.check_code(), Some("ABCD-EFGH".to_string()));
    assert!(l.connect(true));
    assert!(matches!(l.state, RelayState::Connecting));
}

#[test]
fn only_a_connection_that_is_being_made_is_too_late() {
    let mut l = Link::new();
    l.timed_out();
    assert!(matches!(l.state, RelayState::Offline));
    l.go_online(true);
    l.timed_out();
    assert!(matches!(&l.state, RelayState::Error(e) if e == "Connection timeout"));
    assert_eq!(l.message, Some(("Connection failed: Connection timeout".to_string(), true)));
    assert!(!l.listening);
    l.go_online(true);
    l.take_message(RelayMsg::Code("AB".to_string()));
    l.timed_out();
    assert!(matches!(&l.state, RelayState::Online { code } if code == "AB"));
    assert!(l.listening);
}

#[test]
fn one_side_of_a_pair_receives() {
    let mut l = Link::new();
    assert!(l.go_online(true));
    assert!(l.receives);
    l.go_offline();
    assert!(!l.receives);
    assert!(l.connect(true));
    assert!(!l.receives);
}

#[test]
fn the_stream_serves_file_after_file() {
    let mut h = Holder::new(7);
    for _ in 0..3 {
        let s = h.lend().unwrap();
        assert_eq!(s, 7);
        assert_eq!(h.lend(), Err(HolderError::NoStream));
        h.give_back(s);
    }
    assert_eq!(HolderError::NoStream.message(), "No relay stream available");
}
