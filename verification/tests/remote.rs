use rfshare::relay::{
    ends_headers, http_command, http_response, is_http, receiver_notice, sender_notice, Notice, Relay,
    Reply,
};
use rfshare::remote::{
    can_connect, connect_code, entered_code, request, sender_request, Handshake, Progress, Role,
    RELAY_HOST, RELAY_PORT,
};
use rfshare::utils::session_code_from;

fn failure(p: Progress) -> String {
    match p {
        Progress::Failed(e) => e,
        _ => panic!("no failure"),
    }
}

fn at_body(role: Role) -> Handshake {
    let mut h = Handshake::new(role);
    assert!(matches!(h.take(Some("HTTP/1.1 200 OK\r\n")), Progress::More));
    assert!(matches!(h.take(Some("Content-Type: text/plain\n")), Progress::More));
    assert!(matches!(h.take(Some("\n")), Progress::More));
    h
}

#[test]
fn a_request_for_a_place() {
    assert_eq!(RELAY_PORT, 80);
    assert_eq!(
        request(Role::Receiver, "A3F7-K2M9"),
        "GET /receiver/A3F7-K2M9 HTTP/1.1\r\nHost: relay.triple-ts-mediclinic.com\r\n\
         User-Agent: rfshare/0.17.1\r\nAccept: */*\r\nConnection: keep-alive\r\n\r\n"
    );
    assert_eq!(sender_request(" AB \n"), request(Role::Sender, "AB"));
    assert!(request(Role::Sender, "X").contains(RELAY_HOST));
}

#[test]
fn the_relay_understands_requests() {
    for (role, word) in [(Role::Receiver, "RECEIVER"), (Role::Sender, "SENDER")] {
        let req = request(role, "A3F7-K2M9");
        assert!(is_http(&req.as_bytes()[..8]));
        let mut lines = req.split_inclusive('\n');
        assert_eq!(http_command(lines.next().unwrap()).unwrap(), format!("{} A3F7-K2M9", word));
        assert!(lines.any(|l| ends_headers(l)));
    }
}

#[test]
fn a_device_understands_the_answer() {
    for (role, command, notice) in [
        (Role::Receiver, "RECEIVER AB", receiver_notice("10.0.0.1:7")),
        (Role::Sender, "SENDER AB", sender_notice()),
    ] {
        let answer = format!("{}{}\n", http_response(command), notice.line());
        let mut h = Handshake::new(role);
        let mut last = Progress::More;
        for line in answer.split_inclusive('\n') {
            last = h.take(Some(line));
        }
        assert!(matches!(last, Progress::Paired));
    }
}

#[test]
fn a_refused_sender_is_told() {
    let answer = format!("{}{}\n", http_response("SENDER AB"), Notice::NotFound.line());
    let mut h = Handshake::new(Role::Sender);
    let mut last = Progress::More;
    for line in answer.split_inclusive('\n') {
        last = h.take(Some(line));
    }
    assert_eq!(failure(last), "Code not found or expired");
    assert!(matches!(at_body(Role::Receiver).take(Some("RECEIVER NOT_FOUND\n")), Progress::Paired));
}

#[test]
fn the_lines_of_the_relay() {
    assert_eq!(Notice::BadRequest.line(), "BAD_REQUEST");
    assert_eq!(Notice::NotFound.line(), "NOT_FOUND");
    assert_eq!(sender_notice().line(), "PAIRED receiver");
    assert_eq!(receiver_notice("10.0.0.1:7").line(), "PAIRED 10.0.0.1:7");
}

#[test]
fn each_failure_is_told() {
    let mut h = Handshake::new(Role::Receiver);
    assert_eq!(failure(h.take(None)), "Read error");
    let mut h = Handshake::new(Role::Receiver);
    assert_eq!(failure(h.take(Some("HTTP/1.1 502 Bad Gateway\r\n"))), "HTTP error: HTTP/1.1 502 Bad Gateway");
    assert_eq!(failure(at_body(Role::Sender).take(Some("NOT_FOUND\n"))), "Code not found or expired");
    assert_eq!(failure(at_body(Role::Receiver).take(Some("NOT_FOUND\n"))), "Unexpected response: NOT_FOUND");
    assert_eq!(failure(at_body(Role::Sender).take(Some("RECEIVER x"))), "Unexpected response: RECEIVER x");
    assert_eq!(failure(at_body(Role::Sender).take(None)), "Empty response body");
    assert!(matches!(at_body(Role::Sender).take(Some(" SENDER x ")), Progress::Paired));
}

#[test]
fn codes_as_they_are_entered() {
    assert_eq!(connect_code(" a3f7-k2m9 "), Some("A3F7-K2M9".to_string()));
    assert_eq!(connect_code("a3f7 -k2m9"), Some("A3F7-K2M9".to_string()));
    assert_eq!(connect_code("a3f7"), None);
    assert_eq!(connect_code(""), None);
    assert_eq!(entered_code("AB CD-EFGH"), Some("ABCD-EFGH".to_string()));
    assert!(can_connect(" A3F7-K2M9 "));
    assert!(!can_connect("A3F7-K2M"));
}

#[test]
fn session_codes_can_be_entered() {
    for seed in [0, 77, 123_456] {
        let code = session_code_from(seed);
        assert!(can_connect(&code));
        assert_eq!(connect_code(&code), Some(code.clone()));
        assert_eq!(connect_code(&code.to_lowercase()), Some(code));
    }
}

#[test]
fn a_pair_meets_at_the_relay() {
    let code = session_code_from(42);
    let mut relay = Relay::new();
    let r = http_command(request(Role::Receiver, &code).lines().next().unwrap()).unwrap();
    assert_eq!(relay.process_command(&r, 1, 0), Reply::Waits { replaced: None });
    let entered = connect_code(&code.to_lowercase()).unwrap();
    let s = http_command(sender_request(&entered).lines().next().unwrap()).unwrap();
    assert_eq!(relay.process_command(&s, 2, 7), Reply::Pair { receiver: 1, waited: 7 });
}
