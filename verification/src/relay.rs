//! The relay: it pairs a sender with the receiver that waits under the same code.
//!
//! Connections are numbers here. What is to be done with them is returned; reading, writing and
//! piping bytes is the caller's part.
use vstd::prelude::*;

use crate::bytes;
use crate::numbers;
use crate::text;
use crate::textmap;
use crate::textmap::TextMap;

verus! {

/// How long a receiver may wait, in seconds.
pub const WAIT_MAX_SECS: u64 = 300;

/// What the relay has done so far.
#[derive(Clone, Copy, Debug, PartialEq, Eq, Structural)]
pub struct Stats {
    pub total_connections: u64,
    pub total_pairings: u64,
    pub total_bytes_piped: u64,
    pub active_pipes: u32,
}

/// A receiver that waits.
#[derive(Clone, Copy, Debug, PartialEq, Eq, Structural)]
pub struct Waiting {
    /// Its connection.
    pub conn: u64,
    /// Since when it waits, in nanoseconds on the relay's clock.
    pub since: u64,
}

/// The relay's state: the receivers that wait under their codes.
pub struct Relay {
    pub waiting: TextMap<Waiting>,
    pub stats: Stats,
}

/// What a connection's command leads to.
#[derive(Clone, Copy, Debug, PartialEq, Eq, Structural)]
pub enum Reply {
    /// The command is not understood: answer `BAD_REQUEST`.
    BadRequest,
    /// The connection waits as a receiver, in place of another one where there was one.
    Waits { replaced: Option<u64> },
    /// No receiver waits under the code: answer `NOT_FOUND`.
    NotFound,
    /// The receiver is found, which has waited for so many nanoseconds: tell both and pipe.
    Pair { receiver: u64, waited: u64 },
}

/// What becomes of a pair once both sides have been told, or could not be.
#[derive(Clone, Copy, Debug, PartialEq, Eq, Structural)]
pub enum Pairing {
    /// Pipe bytes between the two.
    Pipe,
    /// The receiver is gone: answer `NOT_FOUND` to the sender.
    ReceiverGone,
    /// The sender is gone.
    SenderGone,
}

/// What the relay tells a device in a line.
#[derive(Debug)]
pub enum Notice {
    BadRequest,
    NotFound,
    /// The device is paired with the one of this name.
    Paired(String),
}

impl Notice {
    pub open spec fn text(self) -> Seq<char> {
        match self {
            Notice::BadRequest => "BAD_REQUEST"@,
            Notice::NotFound => "NOT_FOUND"@,
            Notice::Paired(name) => "PAIRED "@ + name@,
        }
    }

    /// The line, without its end.
    pub fn line(&self) -> (r: String)
        ensures
            r@ == self.text(),
    {
        match self {
            Notice::BadRequest => "BAD_REQUEST".to_string(),
            Notice::NotFound => "NOT_FOUND".to_string(),
            Notice::Paired(name) => {
                let mut s: String = "PAIRED ".to_string();
                s.append(name.as_str());
                s
            },
        }
    }
}

/// What a receiver is told of the sender at the address `peer`.
pub fn receiver_notice(peer: &str) -> (r: Notice)
    ensures
        r is Paired && r.text() == "PAIRED "@ + peer@,
{
    Notice::Paired(peer.to_string())
}

/// Whether `n` is what a sender is told once its receiver is found.
pub open spec fn is_sender_notice(n: Notice) -> bool {
    n matches Notice::Paired(name) && name@ == "receiver"@
}

/// What a sender is told once its receiver is found.
pub fn sender_notice() -> (r: Notice)
    ensures
        is_sender_notice(r),
{
    Notice::Paired("receiver".to_string())
}

// ---- commands ----

/// A command, by its words.
pub enum Command {
    Receiver(Seq<char>),
    Sender(Seq<char>),
    Bad,
}

/// The command in a line: the role and the code, which is not empty.
pub open spec fn command_in(line: Seq<char>) -> Command {
    match text::strip_prefix(line, "RECEIVER "@) {
        Some(c) => if text::trim(c).len() == 0 {
            Command::Bad
        } else {
            Command::Receiver(text::trim(c))
        },
        None => match text::strip_prefix(line, "SENDER "@) {
            Some(c) => if text::trim(c).len() == 0 {
                Command::Bad
            } else {
                Command::Sender(text::trim(c))
            },
            None => Command::Bad,
        },
    }
}

/// Whether the first bytes of a connection are those of a web request; only seven are looked at.
pub open spec fn looks_like_http(peek: Seq<u8>) -> bool {
    let head = if peek.len() > 7 {
        peek.take(7)
    } else {
        peek
    };
    vstd::utf8::valid_utf8(head) && {
        let s = vstd::utf8::decode_utf8(head);
        text::starts_with(s, "GET "@) || text::starts_with(s, "POST "@) || text::starts_with(
            s,
            "HEAD "@,
        ) || text::starts_with(s, "PUT "@) || text::starts_with(s, "OPT "@) || text::starts_with(
            s,
            "DEL "@,
        )
    }
}

/// The command that a web request's first line stands for.
pub open spec fn http_command_in(line: Seq<char>) -> Option<Seq<char>> {
    let parts = text::words(text::trim(line));
    if parts.len() < 2 {
        None
    } else {
        match text::strip_prefix(parts[1], "/receiver/"@) {
            Some(code) => if code.len() == 0 {
                None
            } else {
                Some("RECEIVER "@ + code)
            },
            None => match text::strip_prefix(parts[1], "/sender/"@) {
                Some(code) => if code.len() == 0 {
                    None
                } else {
                    Some("SENDER "@ + code)
                },
                None => None,
            },
        }
    }
}

/// The answer to a web request that stands for `command`.
pub open spec fn http_response_text(command: Seq<char>) -> Seq<char> {
    "HTTP/1.1 200 OK\nContent-Type: text/plain\nConnection: keep-alive\nContent-Length: "@
        + numbers::decimal(vstd::utf8::encode_utf8(command).len()) + "\n\n"@ + command
}

/// Whether the first bytes of a connection are those of a web request.
pub fn is_http(peek: &[u8]) -> (r: bool)
    ensures
        r == looks_like_http(peek@),
{
    let n: usize = if peek.len() > 7 {
        7
    } else {
        peek.len()
    };
    let head: Vec<u8> = bytes::bytes_of(peek, 0, n);
    assert(head@ =~= if peek@.len() > 7 {
        peek@.take(7)
    } else {
        peek@
    });
    match bytes::strict_text(head) {
        Ok(s) => {
            let c: Vec<char> = text::chars_of(s.as_str());
            text::has_prefix(&c, "GET ") || text::has_prefix(&c, "POST ") || text::has_prefix(
                &c,
                "HEAD ",
            ) || text::has_prefix(&c, "PUT ") || text::has_prefix(&c, "OPT ") || text::has_prefix(
                &c,
                "DEL ",
            )
        },
        Err(_) => false,
    }
}

/// The command that a web request's first line stands for.
pub fn http_command(first_line: &str) -> (r: Option<String>)
    ensures
        match r {
            Some(c) => http_command_in(first_line@) == Some(c@),
            None => http_command_in(first_line@) is None,
        },
{
    let line: Vec<char> = text::chars_of(first_line);
    let line: Vec<char> = text::trim_chars(&line);
    let parts: Vec<Vec<char>> = text::words_of(&line);
    let ghost p = text::texts(parts@);
    assert(p.len() == parts@.len());
    if parts.len() < 2 {
        return None;
    }
    assert(p[1] == parts@[1]@);
    match text::after_prefix(&parts[1], "/receiver/") {
        Some(code) => if code.len() == 0 {
            None
        } else {
            let mut s: String = "RECEIVER ".to_string();
            s.append(text::string_of(&code).as_str());
            Some(s)
        },
        None => match text::after_prefix(&parts[1], "/sender/") {
            Some(code) => if code.len() == 0 {
                None
            } else {
                let mut s: String = "SENDER ".to_string();
                s.append(text::string_of(&code).as_str());
                Some(s)
            },
            None => None,
        },
    }
}

/// Whether a line ends the headers of a web request.
pub fn ends_headers(line: &str) -> (r: bool)
    ensures
        r == (text::trim(line@).len() == 0),
{
    let v: Vec<char> = text::chars_of(line);
    text::trim_chars(&v).len() == 0
}

/// The answer to a web request that stands for `command`.
pub fn http_response(command: &str) -> (r: String)
    ensures
        r@ == http_response_text(command@),
{
    let mut s: String =
        "HTTP/1.1 200 OK\nContent-Type: text/plain\nConnection: keep-alive\nContent-Length: ".to_string();
    numbers::push_decimal(&mut s, command.as_bytes().len() as u64);
    s.append("\n\n");
    s.append(command);
    s
}

/// The command in the line of a connection that is no web request.
pub fn raw_command(line: &str) -> (r: String)
    ensures
        r@ == text::trim(line@),
{
    text::trimmed(line)
}

// ---- pairing ----

/// What a command leads to, and who waits afterwards.
pub open spec fn process(
    w: Map<Seq<char>, Waiting>,
    line: Seq<char>,
    conn: u64,
    now: u64,
) -> (Map<Seq<char>, Waiting>, Reply) {
    match command_in(line) {
        Command::Bad => (w, Reply::BadRequest),
        Command::Receiver(code) => (
            w.insert(code, Waiting { conn, since: now }),
            Reply::Waits {
                replaced: if w.contains_key(code) {
                    Some(w[code].conn)
                } else {
                    None
                },
            },
        ),
        Command::Sender(code) => if w.contains_key(code) {
            (
                w.remove(code),
                Reply::Pair { receiver: w[code].conn, waited: elapsed(w[code], now) },
            )
        } else {
            (w, Reply::NotFound)
        },
    }
}

/// How long a receiver has waited at `now`, in nanoseconds.
pub open spec fn elapsed(w: Waiting, now: u64) -> u64 {
    if now >= w.since {
        (now - w.since) as u64
    } else {
        0
    }
}

/// Whether a receiver has waited too long at `now`.
pub open spec fn is_expired(w: Waiting, now: u64) -> bool {
    elapsed(w, now) / 1_000_000_000 >= WAIT_MAX_SECS
}

fn waited(w: &Waiting, now: u64) -> (r: u64)
    ensures
        r == elapsed(*w, now),
{
    if now >= w.since {
        now - w.since
    } else {
        0
    }
}

impl Relay {
    pub open spec fn wf(self) -> bool {
        self.waiting.wf()
    }

    /// A relay that nobody has connected to.
    pub fn new() -> (r: Relay)
        ensures
            r.wf(),
            r.waiting@ == Map::<Seq<char>, Waiting>::empty(),
            r.stats == (Stats {
                total_connections: 0,
                total_pairings: 0,
                total_bytes_piped: 0,
                active_pipes: 0,
            }),
    {
        Relay {
            waiting: TextMap::new(),
            stats: Stats {
                total_connections: 0,
                total_pairings: 0,
                total_bytes_piped: 0,
                active_pipes: 0,
            },
        }
    }

    /// Counts a connection.
    pub fn connected(&mut self)
        requires
            old(self).stats.total_connections < u64::MAX,
        ensures
            final(self).waiting == old(self).waiting,
            final(self).stats == (Stats {
                total_connections: (old(self).stats.total_connections + 1) as u64,
                ..old(self).stats
            }),
    {
        self.stats.total_connections = self.stats.total_connections + 1;
    }

    /// Does what the command `line` of the connection `conn` asks for.
    pub fn process_command(&mut self, line: &str, conn: u64, now: u64) -> (r: Reply)
        requires
            old(self).wf(),
        ensures
            final(self).wf(),
            final(self).stats == old(self).stats,
            (final(self).waiting@, r) == process(old(self).waiting@, line@, conn, now),
    {
        let l: Vec<char> = text::chars_of(line);
        match text::after_prefix(&l, "RECEIVER ") {
            Some(rest) => {
                let code: Vec<char> = text::trim_chars(&rest);
                if code.len() == 0 {
                    return Reply::BadRequest;
                }
                let code: String = text::string_of(&code);
                let replaced: Option<u64> = match self.waiting.get(code.as_str()) {
                    Some(w) => Some(w.conn),
                    None => None,
                };
                self.waiting.insert(code, Waiting { conn, since: now });
                Reply::Waits { replaced }
            },
            None => match text::after_prefix(&l, "SENDER ") {
                Some(rest) => {
                    let code: Vec<char> = text::trim_chars(&rest);
                    if code.len() == 0 {
                        return Reply::BadRequest;
                    }
                    let code: String = text::string_of(&code);
                    let ghost before = self.waiting@;
                    match self.waiting.remove(code.as_str()) {
                        Some(w) => Reply::Pair { receiver: w.conn, waited: waited(&w, now) },
                        None => {
                            assert(before.remove(code@) =~= before);
                            Reply::NotFound
                        },
                    }
                },
                None => Reply::BadRequest,
            },
        }
    }

    /// Says what becomes of a pair, by whether the receiver and the sender could be told.
    pub fn notified(&mut self, receiver_told: bool, sender_told: bool) -> (r: Pairing)
        requires
            receiver_told && sender_told ==> old(self).stats.total_pairings < u64::MAX && old(
                self,
            ).stats.active_pipes < u32::MAX,
        ensures
            final(self).waiting == old(self).waiting,
            r == (if !receiver_told {
                Pairing::ReceiverGone
            } else if !sender_told {
                Pairing::SenderGone
            } else {
                Pairing::Pipe
            }),
            final(self).stats == (if r is Pipe {
                Stats {
                    total_pairings: (old(self).stats.total_pairings + 1) as u64,
                    active_pipes: (old(self).stats.active_pipes + 1) as u32,
                    ..old(self).stats
                }
            } else {
                old(self).stats
            }),
    {
        if !receiver_told {
            Pairing::ReceiverGone
        } else if !sender_told {
            Pairing::SenderGone
        } else {
            self.stats.total_pairings = self.stats.total_pairings + 1;
            self.stats.active_pipes = self.stats.active_pipes + 1;
            Pairing::Pipe
        }
    }

    /// Counts what was piped from a sender to its receiver; nothing where the pipe broke.
    pub fn sender_done(&mut self, bytes: Option<u64>)
        requires
            bytes matches Some(n) ==> old(self).stats.total_bytes_piped + n <= u64::MAX,
        ensures
            final(self).waiting == old(self).waiting,
            final(self).stats == (match bytes {
                Some(n) => Stats {
                    total_bytes_piped: (old(self).stats.total_bytes_piped + n) as u64,
                    ..old(self).stats
                },
                None => old(self).stats,
            }),
    {
        match bytes {
            Some(n) => {
                self.stats.total_bytes_piped = self.stats.total_bytes_piped + n;
            },
            None => {},
        }
    }

    /// Counts what was piped from a receiver to its sender, and that the pipe is closed.
    pub fn receiver_done(&mut self, bytes: Option<u64>)
        requires
            bytes matches Some(n) ==> old(self).stats.total_bytes_piped + n <= u64::MAX,
        ensures
            final(self).waiting == old(self).waiting,
            final(self).stats == (Stats {
                total_bytes_piped: (old(self).stats.total_bytes_piped + match bytes {
                    Some(n) => n as int,
                    None => 0,
                }) as u64,
                active_pipes: if old(self).stats.active_pipes > 0 {
                    (old(self).stats.active_pipes - 1) as u32
                } else {
                    0
                },
                ..old(self).stats
            }),
    {
        self.sender_done(bytes);
        if self.stats.active_pipes > 0 {
            self.stats.active_pipes = self.stats.active_pipes - 1;
        }
    }

    /// Drops the receivers that have waited too long; their codes are returned.
    pub fn expire(&mut self, now: u64) -> (r: Vec<String>)
        requires
            old(self).wf(),
        ensures
            final(self).wf(),
            final(self).stats == old(self).stats,
            final(self).waiting@ == unexpired(old(self).waiting@, now),
            text::string_texts(r@).no_duplicates(),
            forall|code: Seq<char>| #[trigger]
                text::string_texts(r@).contains(code) <==> old(self).waiting@.contains_key(code)
                    && is_expired(old(self).waiting@[code], now),
    {
        let ghost all = self.waiting.entries@;
        let ghost start = self.waiting;
        let mut codes: Vec<String> = Vec::new();
        let mut i: usize = 0;
        while i < self.waiting.entries.len()
            invariant
                i <= all.len(),
                *self == *old(self),
                self.wf(),
                start == self.waiting,
                all == self.waiting.entries@,
                text::string_texts(codes@).no_duplicates(),
                forall|c: Seq<char>| #[trigger]
                    text::string_texts(codes@).contains(c) <==> exists|j: int|
                        j < i && #[trigger] textmap::key_at(all, c, j) && is_expired(
                            all[j].1,
                            now,
                        ),
            decreases all.len() - i,
        {
            let ghost before = text::string_texts(codes@);
            if waited(&self.waiting.entries[i].1, now) / 1_000_000_000 >= WAIT_MAX_SECS {
                let code: String = self.waiting.entries[i].0.clone();
                codes.push(code);
                proof {
                    let after = text::string_texts(codes@);
                    assert(after =~= before.push(code@));
                    assert(textmap::key_at(all, code@, i as int));
                    if before.contains(code@) {
                        let j = choose|j: int|
                            j < i && #[trigger] textmap::key_at(all, code@, j) && is_expired(
                                all[j].1,
                                now,
                            );
                        assert(all[j].0@ != all[i as int].0@);
                    }
                    lemma_push_contains(before, code@);
                    assert forall|c: Seq<char>| #[trigger] after.contains(c) <==> exists|j: int|
                        j < i + 1 && #[trigger] textmap::key_at(all, c, j) && is_expired(
                            all[j].1,
                            now,
                        ) by {
                        if after.contains(c) {
                            if before.contains(c) {
                                let j = choose|j: int|
                                    j < i && #[trigger] textmap::key_at(all, c, j)
                                        && is_expired(all[j].1, now);
                                assert(j < i + 1 && textmap::key_at(all, c, j));
                            } else {
                                assert(c == code@);
                                assert(i < i + 1 && textmap::key_at(all, c, i as int)
                                    && is_expired(all[i as int].1, now));
                            }
                        }
                        if exists|j: int|
                            j < i + 1 && #[trigger] textmap::key_at(all, c, j) && is_expired(
                                all[j].1,
                                now,
                            ) {
                            let j = choose|j: int|
                                j < i + 1 && #[trigger] textmap::key_at(all, c, j) && is_expired(
                                    all[j].1,
                                    now,
                                );
                            if j < i {
                                assert(before.contains(c));
                            } else {
                                assert(c == code@);
                            }
                        }
                    }
                }
            } else {
                proof {
                    assert forall|c: Seq<char>| #[trigger] before.contains(c) <==> exists|j: int|
                        j < i + 1 && #[trigger] textmap::key_at(all, c, j) && is_expired(
                            all[j].1,
                            now,
                        ) by {
                        if before.contains(c) {
                            let j = choose|j: int|
                                j < i && #[trigger] textmap::key_at(all, c, j) && is_expired(
                                    all[j].1,
                                    now,
                                );
                            assert(j < i + 1 && textmap::key_at(all, c, j));
                        }
                    }
                }
            }
            i = i + 1;
        }
        let ghost list = text::string_texts(codes@);
        proof {
            assert forall|c: Seq<char>| #[trigger] list.contains(c) <==> start@.contains_key(c)
                && is_expired(start@[c], now) by {
                if list.contains(c) {
                    let j = choose|j: int|
                        j < i && #[trigger] textmap::key_at(all, c, j) && is_expired(all[j].1, now);
                    start.lemma_at(c, j);
                }
                if start@.contains_key(c) && is_expired(start@[c], now) {
                    let j = choose|j: int| textmap::key_at(all, c, j);
                    start.lemma_at(c, j);
                    assert(j < i && textmap::key_at(all, c, j));
                }
            }
        }
        let mut i: usize = 0;
        while i < codes.len()
            invariant
                i <= codes@.len(),
                list == text::string_texts(codes@),
                self.wf(),
                self.stats == old(self).stats,
                forall|c: Seq<char>| #[trigger]
                    self.waiting@.contains_key(c) <==> start@.contains_key(c) && !list.take(
                        i as int,
                    ).contains(c),
                forall|c: Seq<char>|
                    self.waiting@.contains_key(c) ==> #[trigger] self.waiting@[c] == start@[c],
            decreases codes@.len() - i,
        {
            let ghost before = self.waiting@;
            self.waiting.remove(codes[i].as_str());
            i = i + 1;
            proof {
                let c0 = list[i - 1];
                assert(list.take(i as int) =~= list.take(i - 1).push(c0));
                lemma_push_contains(list.take(i - 1), c0);
                assert forall|c: Seq<char>| #[trigger] self.waiting@.contains_key(c)
                    <==> start@.contains_key(c) && !list.take(i as int).contains(c) by {
                    assert(before.contains_key(c) <==> start@.contains_key(c) && !list.take(
                        i - 1,
                    ).contains(c));
                }
                assert forall|c: Seq<char>| self.waiting@.contains_key(
                    c,
                ) implies #[trigger] self.waiting@[c] == start@[c] by {
                    assert(before[c] == start@[c]);
                }
            }
        }
        proof {
            assert(list.take(i as int) =~= list);
            assert(self.waiting@ =~= unexpired(start@, now));
        }
        codes
    }
}

/// The receivers that have not waited too long at `now`.
pub open spec fn unexpired(w: Map<Seq<char>, Waiting>, now: u64) -> Map<Seq<char>, Waiting> {
    w.restrict(w.dom().filter(|code: Seq<char>| !is_expired(w[code], now)))
}

proof fn lemma_push_contains(s: Seq<Seq<char>>, x: Seq<char>)
    ensures
        forall|c: Seq<char>| #[trigger] s.push(x).contains(c) <==> s.contains(c) || c == x,
{
    assert forall|c: Seq<char>| #[trigger] s.push(x).contains(c) <==> s.contains(c) || c == x by {
        if s.contains(c) {
            let i = choose|i: int| 0 <= i < s.len() && s[i] == c;
            assert(s.push(x)[i] == c);
        }
        if c == x {
            assert(s.push(x)[s.len() as int] == c);
        }
        if s.push(x).contains(c) && c != x {
            let i = choose|i: int| 0 <= i < s.push(x).len() && s.push(x)[i] == c;
            assert(s[i] == c);
        }
    }
}

/// An amount of bytes for display.
pub fn format_bytes(b: u64) -> (r: String)
    ensures
        r@ == numbers::size_text(b as nat),
{
    numbers::size_string(b)
}

// ---- laws ----

/// A sender is paired with the receiver that came last under its code, and the code is then used
/// up: the next sender with it finds nobody.
pub proof fn codes_are_single_use(
    w: Map<Seq<char>, Waiting>,
    receiver_line: Seq<char>,
    sender_line: Seq<char>,
    code: Seq<char>,
    receiver: u64,
    sender: u64,
    late: u64,
    t0: u64,
    t1: u64,
    t2: u64,
)
    requires
        command_in(receiver_line) == Command::Receiver(code),
        command_in(sender_line) == Command::Sender(code),
    ensures
        ({
            let (w1, r1) = process(w, receiver_line, receiver, t0);
            let (w2, r2) = process(w1, sender_line, sender, t1);
            let (w3, r3) = process(w2, sender_line, late, t2);
            &&& r1 is Waits
            &&& r2 == Reply::Pair {
                receiver,
                waited: elapsed(Waiting { conn: receiver, since: t0 }, t1),
            }
            &&& r3 is NotFound
            &&& w2 == w.remove(code)
            &&& w3 == w2
        }),
{
    assert(w.insert(code, Waiting { conn: receiver, since: t0 }).remove(code) =~= w.remove(code));
}

/// A command changes nothing for those who wait under other codes.
pub proof fn other_codes_are_unaffected(
    w: Map<Seq<char>, Waiting>,
    line: Seq<char>,
    conn: u64,
    now: u64,
    other: Seq<char>,
)
    requires
        command_in(line) != Command::Receiver(other),
        command_in(line) != Command::Sender(other),
    ensures
        process(w, line, conn, now).0.contains_key(other) == w.contains_key(other),
        w.contains_key(other) ==> process(w, line, conn, now).0[other] == w[other],
{
}

/// A refused command changes nothing: one that is not understood, and a sender's whose code nobody
/// waits under.
pub proof fn refused_commands_change_nothing(
    w: Map<Seq<char>, Waiting>,
    line: Seq<char>,
    conn: u64,
    now: u64,
)
    ensures
        ({
            let (after, r) = process(w, line, conn, now);
            &&& r is BadRequest <==> command_in(line) is Bad
            &&& r is NotFound <==> (command_in(line) matches Command::Sender(c)
                && !w.contains_key(c))
            &&& r is BadRequest || r is NotFound ==> after == w
        }),
{
}

/// A receiver is kept for 300 seconds and no longer.
pub proof fn receivers_are_kept_for_a_while(w: Map<Seq<char>, Waiting>, code: Seq<char>, now: u64)
    requires
        w.contains_key(code),
        now >= w[code].since,
    ensures
        unexpired(w, now).contains_key(code) <==> now - w[code].since < 300_000_000_000,
        unexpired(w, now).contains_key(code) ==> unexpired(w, now)[code] == w[code],
{
}

// ---- what the calls give ----

/// Whether a text is a code: it is not empty and holds no white space.
pub open spec fn is_word(code: Seq<char>) -> bool {
    code.len() > 0 && forall|i: int|
        0 <= i < code.len() ==> !text::is_white_space(#[trigger] code[i])
}

/// A receiver waits under its code, without the white space around it, from now on, in place of the
/// one that waited there; all others go on waiting.
pub proof fn receivers_wait(
    r: &mut Relay,
    line: &str,
    rest: Seq<char>,
    code: Seq<char>,
    conn: u64,
    now: u64,
    reply: Reply,
)
    requires
        line@ == "RECEIVER "@ + rest,
        code == text::trim(rest),
        code.len() > 0,
        call_ensures(Relay::process_command, (r, line, conn, now), reply),
    ensures
        final(r).waiting@.contains_key(code),
        final(r).waiting@[code].conn == conn,
        final(r).waiting@[code].since == now,
        final(r).waiting@.remove(code) == old(r).waiting@.remove(code),
        final(r).stats == old(r).stats,
        reply is Waits,
        old(r).waiting@.contains_key(code) ==> reply->replaced == Some(old(r).waiting@[code].conn),
        !old(r).waiting@.contains_key(code) ==> reply->replaced is None,
{
    text::parts_are_found(seq![], "RECEIVER "@, rest);
    assert(final(r).waiting@.remove(code) =~= old(r).waiting@.remove(code));
}

/// A sender is paired with the receiver that waits under its code, which then waits no longer; all
/// others go on waiting. Where none waits there, it is told so and nothing changes.
pub proof fn senders_are_paired(
    r: &mut Relay,
    line: &str,
    rest: Seq<char>,
    code: Seq<char>,
    conn: u64,
    now: u64,
    reply: Reply,
)
    requires
        line@ == "SENDER "@ + rest,
        code == text::trim(rest),
        code.len() > 0,
        call_ensures(Relay::process_command, (r, line, conn, now), reply),
    ensures
        old(r).waiting@.contains_key(code) ==> {
            &&& reply is Pair
            &&& reply->receiver == old(r).waiting@[code].conn
            &&& now >= old(r).waiting@[code].since ==> reply->waited == now
                - old(r).waiting@[code].since
        },
        !old(r).waiting@.contains_key(code) ==> reply is NotFound && final(r).waiting@ == old(
            r).waiting@,
        !final(r).waiting@.contains_key(code),
        final(r).waiting@.remove(code) == old(r).waiting@.remove(code),
        final(r).stats == old(r).stats,
{
    reveal_strlit("RECEIVER ");
    reveal_strlit("SENDER ");
    text::parts_are_found(seq![], "SENDER "@, rest);
    if text::starts_with(line@, "RECEIVER "@) {
        assert(line@.take(9)[0] == line@[0]);
    }
    assert(final(r).waiting@.remove(code) =~= old(r).waiting@.remove(code));
}

/// A line that begins with neither role, or has no code behind it, is not understood and changes
/// nothing.
pub proof fn other_lines_are_refused(
    r: &mut Relay,
    line: &str,
    rest: Seq<char>,
    conn: u64,
    now: u64,
    reply: Reply,
)
    requires
        call_ensures(Relay::process_command, (r, line, conn, now), reply),
        !text::starts_with(line@, "RECEIVER "@) && !text::starts_with(line@, "SENDER "@) || (
        text::trim(rest).len() == 0 && (line@ == "RECEIVER "@ + rest || line@ == "SENDER "@
            + rest)),
    ensures
        reply is BadRequest,
        final(r).waiting@ == old(r).waiting@,
        final(r).stats == old(r).stats,
{
    reveal_strlit("RECEIVER ");
    reveal_strlit("SENDER ");
    text::parts_are_found(seq![], "SENDER "@, rest);
    text::parts_are_found(seq![], "RECEIVER "@, rest);
    if line@ == "SENDER "@ + rest && text::starts_with(line@, "RECEIVER "@) {
        assert(line@.take(9)[0] == line@[0]);
    }
}

/// Those that have waited for five minutes are dropped and named, and no others.
pub proof fn five_minutes_are_waited(r: &mut Relay, now: u64, codes: Vec<String>, code: Seq<char>)
    requires
        call_ensures(Relay::expire, (r, now), codes),
        old(r).waiting@.contains_key(code),
        old(r).waiting@[code].since <= now,
    ensures
        now - old(r).waiting@[code].since >= 300_000_000_000 <==> text::string_texts(
            codes@,
        ).contains(code),
        final(r).waiting@.contains_key(code) <==> now - old(r).waiting@[code].since
            < 300_000_000_000,
        final(r).waiting@.contains_key(code) ==> final(r).waiting@[code] == old(r).waiting@[code],
        final(r).stats == old(r).stats,
{
}

/// Nobody begins to wait when others are dropped.
pub proof fn dropping_adds_nobody(r: &mut Relay, now: u64, codes: Vec<String>, code: Seq<char>)
    requires
        call_ensures(Relay::expire, (r, now), codes),
        !old(r).waiting@.contains_key(code),
    ensures
        !final(r).waiting@.contains_key(code),
        !text::string_texts(codes@).contains(code),
{
}

/// A pair is piped where both could be told, and is counted then and only then.
pub proof fn pairs_are_counted(r: &mut Relay, receiver: bool, sender: bool, p: Pairing)
    requires
        call_ensures(Relay::notified, (r, receiver, sender), p),
        receiver && sender ==> old(r).stats.total_pairings < u64::MAX && old(r).stats.active_pipes
            < u32::MAX,
    ensures
        p is Pipe <==> receiver && sender,
        p is ReceiverGone <==> !receiver,
        p is SenderGone <==> receiver && !sender,
        p is Pipe ==> final(r).stats.total_pairings == old(r).stats.total_pairings + 1
            && final(r).stats.active_pipes == old(r).stats.active_pipes + 1,
        !(p is Pipe) ==> final(r).stats == old(r).stats,
        final(r).stats.total_connections == old(r).stats.total_connections,
        final(r).stats.total_bytes_piped == old(r).stats.total_bytes_piped,
        final(r).waiting == old(r).waiting,
{
}

/// The bytes of both directions are counted; a pipe is closed once, when the receiver is done.
pub proof fn pipes_are_closed(
    r: &mut Relay,
    s: &mut Relay,
    there: Option<u64>,
    back: Option<u64>,
)
    requires
        call_ensures(Relay::sender_done, (r, there), ()),
        call_ensures(Relay::receiver_done, (s, back), ()),
        there matches Some(n) ==> old(r).stats.total_bytes_piped + n <= u64::MAX,
        back matches Some(n) ==> old(s).stats.total_bytes_piped + n <= u64::MAX,
    ensures
        there matches Some(n) ==> final(r).stats.total_bytes_piped == old(
            r).stats.total_bytes_piped + n,
        there is None ==> final(r).stats.total_bytes_piped == old(r).stats.total_bytes_piped,
        back matches Some(n) ==> final(s).stats.total_bytes_piped == old(
            s).stats.total_bytes_piped + n,
        back is None ==> final(s).stats.total_bytes_piped == old(s).stats.total_bytes_piped,
        final(r).stats.active_pipes == old(r).stats.active_pipes,
        old(s).stats.active_pipes > 0 ==> final(s).stats.active_pipes == old(s).stats.active_pipes
            - 1,
        old(s).stats.active_pipes == 0 ==> final(s).stats.active_pipes == 0,
        final(r).stats.total_pairings == old(r).stats.total_pairings,
        final(s).stats.total_pairings == old(s).stats.total_pairings,
        final(r).waiting == old(r).waiting,
        final(s).waiting == old(s).waiting,
{
}

/// A new relay has nobody waiting and has done nothing; each connection is counted.
pub proof fn connections_are_counted(new: Relay, r: &mut Relay)
    requires
        call_ensures(Relay::new, (), new),
        call_ensures(Relay::connected, (r,), ()),
        old(r).stats.total_connections < u64::MAX,
    ensures
        forall|code: Seq<char>| !#[trigger] new.waiting@.contains_key(code),
        new.stats.total_connections == 0 && new.stats.total_pairings == 0
            && new.stats.total_bytes_piped == 0 && new.stats.active_pipes == 0,
        final(r).stats.total_connections == old(r).stats.total_connections + 1,
        final(r).stats.total_pairings == old(r).stats.total_pairings,
        final(r).stats.active_pipes == old(r).stats.active_pipes,
        final(r).waiting == old(r).waiting,
{
}

/// A web request for a place stands for the command of the same role and code.
pub proof fn places_are_asked_for(line: &str, receives: bool, code: Seq<char>, r: Option<String>)
    requires
        call_ensures(http_command, (line,), r),
        is_word(code),
        line@ == (if receives {
            "GET /receiver/"@
        } else {
            "GET /sender/"@
        }) + code + " HTTP/1.1\r\n"@,
    ensures
        r is Some,
        r->0@ == (if receives {
            "RECEIVER "@
        } else {
            "SENDER "@
        }) + code,
{
    let role = if receives {
        crate::remote::Role::Receiver
    } else {
        crate::remote::Role::Sender
    };
    reveal_strlit("GET /");
    reveal_strlit("/");
    reveal_strlit(" ");
    reveal_strlit("receiver");
    reveal_strlit("sender");
    reveal_strlit("GET /receiver/");
    reveal_strlit("GET /sender/");
    reveal_strlit("RECEIVER");
    reveal_strlit("SENDER");
    reveal_strlit("RECEIVER ");
    reveal_strlit("SENDER ");
    assert("GET /receiver/"@ =~= "GET /"@ + "receiver"@ + "/"@);
    assert("GET /sender/"@ =~= "GET /"@ + "sender"@ + "/"@);
    assert("RECEIVER "@ =~= "RECEIVER"@ + " "@);
    assert("SENDER "@ =~= "SENDER"@ + " "@);
    assert(line@ =~= crate::remote::request_line(role, code));
    crate::remote::requests_are_understood(role, code);
}

/// The answer to a web request tells of success and of the length of the command, and ends with it.
pub proof fn answers_repeat_the_command(command: &str, r: String)
    requires
        call_ensures(http_response, (command,), r),
    ensures
        text::starts_with(r@, "HTTP/1.1 200 OK\n"@),
        text::ends_with(
            r@,
            "Content-Length: "@ + numbers::decimal(vstd::utf8::encode_utf8(command@).len())
                + "\n\n"@ + command@,
        ),
{
    reveal_strlit("HTTP/1.1 200 OK\n");
    reveal_strlit("Content-Length: ");
    reveal_strlit(
        "HTTP/1.1 200 OK\nContent-Type: text/plain\nConnection: keep-alive\nContent-Length: ",
    );
    let head =
        "HTTP/1.1 200 OK\nContent-Type: text/plain\nConnection: keep-alive\nContent-Length: "@;
    let tail = numbers::decimal(vstd::utf8::encode_utf8(command@).len()) + "\n\n"@ + command@;
    assert(r@ =~= head + tail);
    assert(r@.take(16) =~= "HTTP/1.1 200 OK\n"@);
    let n = head.len() - 16;
    assert(head.skip(n) =~= "Content-Length: "@);
    let end = "Content-Length: "@ + numbers::decimal(vstd::utf8::encode_utf8(command@).len())
        + "\n\n"@ + command@;
    assert(end =~= "Content-Length: "@ + tail);
    assert(r@.skip(r@.len() - end.len()) =~= end);
}

/// What is told is told in the words that the devices look for.
pub proof fn notices_are_worded(n: &Notice, r: String)
    requires
        call_ensures(Notice::line, (n,), r),
    ensures
        n is BadRequest ==> r@ == "BAD_REQUEST"@,
        n is NotFound ==> r@ == "NOT_FOUND"@,
        n matches Notice::Paired(name) ==> r@ == "PAIRED "@ + name@,
{
}

/// Headers end with a line of white space.
pub proof fn headers_end_with_a_blank_line(line: &str, r: bool)
    requires
        call_ensures(ends_headers, (line,), r),
    ensures
        r <==> text::is_blank(line@),
{
    text::trimming_takes_white_space(line@);
    let (a, b) = choose|a: Seq<char>, b: Seq<char>|
        text::is_blank(a) && text::is_blank(b) && #[trigger] (a + text::trim(line@) + b) == line@;
    if text::trim(line@).len() > 0 {
        assert(line@[a.len() as int] == text::trim(line@)[0]);
    } else {
        assert forall|i: int| 0 <= i < line@.len() implies text::is_white_space(
            #[trigger] line@[i],
        ) by {
            if i < a.len() {
                assert(line@[i] == a[i]);
            } else {
                assert(line@[i] == b[i - a.len()]);
            }
        }
    }
}

/// On a clock that went back, a receiver has waited for nothing, and goes on waiting.
pub proof fn clocks_may_go_back(
    r: &mut Relay,
    line: &str,
    code: Seq<char>,
    conn: u64,
    now: u64,
    reply: Reply,
    s: &mut Relay,
    codes: Vec<String>,
)
    requires
        is_word(code),
        line@ == "SENDER "@ + code,
        call_ensures(Relay::process_command, (r, line, conn, now), reply),
        old(r).waiting@.contains_key(code),
        now < old(r).waiting@[code].since,
        call_ensures(Relay::expire, (s, now), codes),
        old(s).waiting@.contains_key(code),
        now < old(s).waiting@[code].since,
    ensures
        reply is Pair,
        reply->receiver == old(r).waiting@[code].conn,
        reply->waited == 0,
        final(s).waiting@.contains_key(code),
{
    text::lemma_trim_none(code);
    senders_are_paired(r, line, code, code, conn, now, reply);
    reveal_strlit("RECEIVER ");
    reveal_strlit("SENDER ");
    text::parts_are_found(seq![], "SENDER "@, code);
    text::lemma_trim_none(code);
    if text::starts_with(line@, "RECEIVER "@) {
        assert(line@.take(9)[0] == line@[0]);
    }
}

/// A web request begins with the first letter of one of the methods that are looked for.
pub proof fn other_beginnings_are_no_requests(peek: &[u8], r: bool)
    requires
        call_ensures(is_http, (peek,), r),
    ensures
        r ==> {
            let s = vstd::utf8::decode_utf8(
                if peek@.len() > 7 {
                    peek@.take(7)
                } else {
                    peek@
                },
            );
            s.len() >= 4 && (s[0] == 'G' || s[0] == 'P' || s[0] == 'H' || s[0] == 'O' || s[0] == 'D')
        },
{
    reveal_strlit("GET ");
    reveal_strlit("POST ");
    reveal_strlit("HEAD ");
    reveal_strlit("PUT ");
    reveal_strlit("OPT ");
    reveal_strlit("DEL ");
    let s = vstd::utf8::decode_utf8(
        if peek@.len() > 7 {
            peek@.take(7)
        } else {
            peek@
        },
    );
    assert(s.len() >= 4 ==> s.take(4)[0] == s[0]);
    assert(s.len() >= 5 ==> s.take(5)[0] == s[0]);
}

/// A text of at most seven bytes that begins with a method is a web request.
pub proof fn methods_begin_requests(peek: &[u8], rest: Seq<char>, method: Seq<char>, r: bool)
    requires
        call_ensures(is_http, (peek,), r),
        method == "GET "@ || method == "POST "@ || method == "HEAD "@ || method == "PUT "@ || method
            == "OPT "@ || method == "DEL "@,
        peek@ == vstd::utf8::encode_utf8(method + rest),
        peek@.len() <= 7,
    ensures
        r,
{
    vstd::utf8::encode_utf8_valid_utf8(method + rest);
    vstd::utf8::encode_utf8_decode_utf8(method + rest);
    text::parts_are_found(seq![], method, rest);
}

/// Both sides of a pair are told of the other: the receiver of the sender's address, the sender of
/// the receiver.
pub proof fn both_sides_are_told(peer: &str, there: Notice, back: Notice, a: String, b: String)
    requires
        call_ensures(receiver_notice, (peer,), there),
        call_ensures(sender_notice, (), back),
        call_ensures(Notice::line, (&there,), a),
        call_ensures(Notice::line, (&back,), b),
    ensures
        a@ == "PAIRED "@ + peer@,
        b@ == "PAIRED "@ + "receiver"@,
{
}

/// A web request for anything else, or under no code, stands for no command.
pub proof fn other_places_are_not_given(line: &str, r: Option<String>)
    requires
        call_ensures(http_command, (line,), r),
    ensures
        text::words(text::trim(line@)).len() < 2 ==> r is None,
        text::words(text::trim(line@)).len() >= 2 ==> {
            let target = text::words(text::trim(line@))[1];
            r is Some ==> (text::starts_with(target, "/receiver/"@) && target.len() > 10) || (
            text::starts_with(target, "/sender/"@) && target.len() > 8)
        },
{
    reveal_strlit("/receiver/");
    reveal_strlit("/sender/");
}

} // verus!
