use rfshare::relay::{
    ends_headers, format_bytes, http_command, http_response, is_http, raw_command, Pairing, Relay,
    Reply,
};

const SECOND: u64 = 1_000_000_000;

#[test]
fn web_requests_are_told_apart() {
    for ok in ["GET / HT", "POST /x", "HEAD /", "PUT /", "OPT ", "DEL x"] {
        assert!(is_http(ok.as_bytes()), "{}", ok);
    }
    for no in ["", "GET", "get / ", "RECEIVER A", "OPTIONS", "DELETE "] {
        assert!(!is_http(no.as_bytes()), "{}", no);
    }
    let mut cut = b"GET abc".to_vec();
    cut.push(0xff);
    assert!(is_http(&cut));
}

#[test]
fn web_requests_stand_for_commands() {
    assert_eq!(
        http_command("GET /receiver/A3F7-K2M9 HTTP/1.1\r\n"),
        Some("RECEIVER A3F7-K2M9".to_string())
    );
    assert_eq!(http_command("GET /sender/X HTTP/1.1"), Some("SENDER X".to_string()));
    assert_eq!(http_command("GET /sender/ HTTP/1.1"), None);
    assert_eq!(http_command("GET /other HTTP/1.1"), None);
    assert_eq!(http_command("GET"), None);
    assert!(ends_headers("\r\n"));
    assert!(!ends_headers("Host: x\r\n"));
    assert_eq!(
        http_response("RECEIVER A"),
        "HTTP/1.1 200 OK\nContent-Type: text/plain\nConnection: keep-alive\nContent-Length: 10\n\nRECEIVER A"
    );
    assert_eq!(raw_command(" SENDER x \r\n"), "SENDER x");
}

#[test]
fn the_relay_answers_with_the_command() {
    for (path, answer) in [("/receiver/TEST123", "RECEIVER TEST123"), ("/sender/TEST123", "SENDER TEST123")] {
        let command = http_command(&format!("GET {} HTTP/1.1\r\n", path)).unwrap();
        assert_eq!(command, answer);
        assert!(http_response(&command).ends_with(&format!("\n\n{}", answer)));
    }
}

#[test]
fn a_code_is_used_once() {
    let mut r = Relay::new();
    assert_eq!(r.process_command("RECEIVER AB", 1, 5), Reply::Waits { replaced: None });
    assert_eq!(r.process_command("SENDER AB", 2, 25), Reply::Pair { receiver: 1, waited: 20 });
    assert_eq!(r.process_command("SENDER AB", 3, 30), Reply::NotFound);
}

#[test]
fn the_last_receiver_counts() {
    let mut r = Relay::new();
    r.process_command("RECEIVER AB", 1, 0);
    assert_eq!(r.process_command("RECEIVER  AB ", 2, 1), Reply::Waits { replaced: Some(1) });
    assert_eq!(r.process_command("SENDER AB", 3, 1), Reply::Pair { receiver: 2, waited: 0 });
}

#[test]
fn codes_do_not_mix() {
    let mut r = Relay::new();
    r.process_command("RECEIVER AB", 1, 0);
    r.process_command("RECEIVER CD", 2, 0);
    assert_eq!(r.process_command("SENDER EF", 3, 0), Reply::NotFound);
    assert_eq!(r.process_command("SENDER CD", 3, 0), Reply::Pair { receiver: 2, waited: 0 });
    assert_eq!(r.process_command("SENDER AB", 4, 0), Reply::Pair { receiver: 1, waited: 0 });
}

#[test]
fn what_is_not_understood_changes_nothing() {
    let mut r = Relay::new();
    r.process_command("RECEIVER AB", 1, 0);
    for line in ["", "HELLO", "RECEIVER", "RECEIVER  ", "SENDER ", "receiver AB"] {
        assert_eq!(r.process_command(line, 9, 0), Reply::BadRequest);
    }
    assert_eq!(r.waiting.entries.len(), 1);
}

#[test]
fn receivers_wait_for_five_minutes() {
    let mut r = Relay::new();
    r.process_command("RECEIVER AB", 1, 0);
    r.process_command("RECEIVER CD", 2, 10 * SECOND);
    assert!(r.expire(300 * SECOND - 1).is_empty());
    assert_eq!(r.expire(300 * SECOND), ["AB"]);
    assert_eq!(r.process_command("SENDER AB", 3, 300 * SECOND), Reply::NotFound);
    assert_eq!(r.expire(310 * SECOND), ["CD"]);
}

#[test]
fn the_relay_counts() {
    let mut r = Relay::new();
    r.connected();
    r.connected();
    assert_eq!(r.notified(false, false), Pairing::ReceiverGone);
    assert_eq!(r.notified(true, false), Pairing::SenderGone);
    assert_eq!(r.stats.total_pairings, 0);
    assert_eq!(r.notified(true, true), Pairing::Pipe);
    assert_eq!(r.stats.active_pipes, 1);
    r.sender_done(Some(1000));
    r.sender_done(None);
    r.receiver_done(Some(24));
    assert_eq!(r.stats.total_connections, 2);
    assert_eq!(r.stats.total_pairings, 1);
    assert_eq!(r.stats.total_bytes_piped, 1024);
    assert_eq!(r.stats.active_pipes, 0);
    r.receiver_done(None);
    assert_eq!(r.stats.active_pipes, 0);
    assert_eq!(format_bytes(r.stats.total_bytes_piped), "1.0 KB");
}
