//! Sharing through the relay: the request for a place, the relay's answer and the codes.
use vstd::prelude::*;

use crate::bytes;
use crate::relay;
use crate::relay::Notice;
use crate::text;
use crate::update;
use crate::utils;

verus! {

pub const RELAY_HOST: &'static str = "relay.triple-ts-mediclinic.com";

pub const RELAY_PORT: u16 = 80;

/// What a device asks the relay for.
#[derive(Clone, Copy, Debug, PartialEq, Eq, Structural)]
pub enum Role {
    /// To wait under a code.
    Receiver,
    /// To be paired with the receiver that waits under a code.
    Sender,
}

impl Role {
    pub open spec fn path(self) -> Seq<char> {
        match self {
            Role::Receiver => "receiver"@,
            Role::Sender => "sender"@,
        }
    }

    pub open spec fn word(self) -> Seq<char> {
        match self {
            Role::Receiver => "RECEIVER"@,
            Role::Sender => "SENDER"@,
        }
    }
}

/// The first line of the request for a place under `code`.
pub open spec fn request_line(role: Role, code: Seq<char>) -> Seq<char> {
    "GET /"@ + role.path() + "/"@ + code + " HTTP/1.1\r\n"@
}

/// The request for a place under `code`.
pub open spec fn request_text(role: Role, code: Seq<char>) -> Seq<char> {
    request_line(role, code) + "Host: "@ + RELAY_HOST@ + "\r\nUser-Agent: rfshare/"@
        + update::VERSION@ + "\r\nAccept: */*\r\nConnection: keep-alive\r\n\r\n"@
}

/// The request for a place under `code`.
pub fn request(role: Role, code: &str) -> (r: String)
    ensures
        r@ == request_text(role, code@),
{
    let mut s: String = "GET /".to_string();
    match role {
        Role::Receiver => s.append("receiver"),
        Role::Sender => s.append("sender"),
    }
    s.append("/");
    s.append(code);
    s.append(" HTTP/1.1\r\n");
    s.append("Host: ");
    s.append(RELAY_HOST);
    s.append("\r\nUser-Agent: rfshare/");
    s.append(update::VERSION);
    s.append("\r\nAccept: */*\r\nConnection: keep-alive\r\n\r\n");
    assert(s@ =~= request_text(role, code@));
    s
}

/// The request of a sender, by the code as it was handed over.
pub fn sender_request(code: &str) -> (r: String)
    ensures
        r@ == request_text(Role::Sender, text::trim(code@)),
{
    let code: String = text::trimmed(code);
    request(Role::Sender, code.as_str())
}

// ---- the relay's answer ----

/// What is waited for.
#[derive(Clone, Copy, Debug, PartialEq, Eq, Structural)]
pub enum Phase {
    Status,
    Headers,
    Body,
    Over,
}

/// What a line of the answer leads to.
#[derive(Debug)]
pub enum Progress {
    /// Nothing but to read on.
    More,
    /// The relay has given the place: the connection is ready.
    Paired,
    Failed(String),
}

/// What a line of the answer leads to, over texts.
pub enum Outcome {
    More,
    Paired,
    Failed(Seq<char>),
}

impl Progress {
    /// Whether this is the outcome `o`.
    pub open spec fn is(self, o: Outcome) -> bool {
        match (self, o) {
            (Progress::More, Outcome::More) => true,
            (Progress::Paired, Outcome::Paired) => true,
            (Progress::Failed(s), Outcome::Failed(t)) => s@ == t,
            _ => false,
        }
    }
}

/// Whether a line refuses a sender: the refusal stands alone, or behind the sender's own command,
/// which the relay repeats without ending the line.
pub open spec fn is_refusal(line: Seq<char>) -> bool {
    line == "NOT_FOUND"@ || (text::starts_with(line, Role::Sender.word()) && text::ends_with(
        line,
        "NOT_FOUND"@,
    ))
}

/// What a line of the answer leads to, with its end; `None` where no line could be read.
pub open spec fn step(role: Role, phase: Phase, line: Option<Seq<char>>) -> (Phase, Outcome) {
    match phase {
        Phase::Status => match line {
            None => (Phase::Over, Outcome::Failed("Read error"@)),
            Some(l) => if text::contains_text(l, "200 OK"@) {
                (Phase::Headers, Outcome::More)
            } else {
                (Phase::Over, Outcome::Failed("HTTP error: "@ + text::trim(l)))
            },
        },
        Phase::Headers => match line {
            None => (Phase::Body, Outcome::More),
            Some(l) => if l.len() == 0 || l == "\r\n"@ || l == "\n"@ {
                (Phase::Body, Outcome::More)
            } else {
                (Phase::Headers, Outcome::More)
            },
        },
        Phase::Body => match line {
            None => (Phase::Over, Outcome::Failed("Empty response body"@)),
            Some(l) => if role is Sender && is_refusal(text::trim(l)) {
                (Phase::Over, Outcome::Failed("Code not found or expired"@))
            } else if text::starts_with(text::trim(l), role.word()) {
                (Phase::Over, Outcome::Paired)
            } else {
                (Phase::Over, Outcome::Failed("Unexpected response: "@ + text::trim(l)))
            },
        },
        Phase::Over => (Phase::Over, Outcome::More),
    }
}

/// The reading of the relay's answer.
pub struct Handshake {
    pub role: Role,
    pub phase: Phase,
}

impl Handshake {
    pub fn new(role: Role) -> (r: Handshake)
        ensures
            r.role == role,
            r.phase is Status,
    {
        Handshake { role, phase: Phase::Status }
    }

    /// Takes a line of the answer with its end, or that none could be read.
    pub fn take(&mut self, line: Option<&str>) -> (r: Progress)
        ensures
            final(self).role == old(self).role,
            ({
                let (phase, outcome) = step(
                    old(self).role,
                    old(self).phase,
                    match line {
                        Some(l) => Some(l@),
                        None => None,
                    },
                );
                final(self).phase == phase && r.is(outcome)
            }),
    {
        proof {
            reveal_strlit("\r\n");
            reveal_strlit("\n");
        }
        match self.phase {
            Phase::Status => match line {
                None => {
                    self.phase = Phase::Over;
                    Progress::Failed("Read error".to_string())
                },
                Some(l) => if text::has_text(l, "200 OK") {
                    self.phase = Phase::Headers;
                    Progress::More
                } else {
                    self.phase = Phase::Over;
                    let mut s: String = "HTTP error: ".to_string();
                    s.append(text::trimmed(l).as_str());
                    Progress::Failed(s)
                },
            },
            Phase::Headers => {
                let last: bool = match line {
                    None => true,
                    Some(l) => text::same_text(l, "") || text::same_text(l, "\r\n")
                        || text::same_text(l, "\n"),
                };
                proof {
                    reveal_strlit("");
                    if let Some(l) = line {
                        assert(l@.len() == 0 ==> l@ =~= ""@);
                    }
                }
                if last {
                    self.phase = Phase::Body;
                }
                Progress::More
            },
            Phase::Body => {
                self.phase = Phase::Over;
                match line {
                    None => Progress::Failed("Empty response body".to_string()),
                    Some(l) => {
                        let v: Vec<char> = text::chars_of(l);
                        let body: Vec<char> = text::trim_chars(&v);
                        let word: &str = match self.role {
                            Role::Receiver => "RECEIVER",
                            Role::Sender => "SENDER",
                        };
                        let named: bool = text::has_prefix(&body, word);
                        let sender: bool = match self.role {
                            Role::Receiver => false,
                            Role::Sender => true,
                        };
                        if sender && (text::is_text(&body, "NOT_FOUND") || (named
                            && text::has_suffix(&body, "NOT_FOUND"))) {
                            return Progress::Failed("Code not found or expired".to_string());
                        }
                        if named {
                            return Progress::Paired;
                        }
                        let mut s: String = "Unexpected response: ".to_string();
                        s.append(text::string_of(&body).as_str());
                        Progress::Failed(s)
                    },
                }
            },
            Phase::Over => Progress::More,
        }
    }
}

// ---- codes ----

/// Whether a text is nine bytes long.
pub open spec fn has_code_length(s: Seq<char>) -> bool {
    vstd::utf8::encode_utf8(s).len() == 9
}

/// The code in what was entered, in capital letters: without spaces, and nine bytes long.
pub fn entered_code(upper: &str) -> (r: Option<String>)
    ensures
        match r {
            Some(c) => c@ == text::remove_char(upper@, ' ') && has_code_length(c@),
            None => !has_code_length(text::remove_char(upper@, ' ')),
        },
{
    let c: String = text::without_char(upper, ' ');
    if c.as_str().as_bytes().len() == 9 {
        Some(c)
    } else {
        None
    }
}

/// Whether `r` is the code in what was entered, where that is one.
pub open spec fn is_code_in(r: Option<Seq<char>>, input: Seq<char>) -> bool {
    let upper = text::uppercase(text::trim(input));
    let code = text::remove_char(upper, ' ');
    &&& r == if has_code_length(code) {
        Some(code)
    } else {
        None
    }
    &&& text::is_ascii(text::trim(input)) ==> upper == text::ascii_upper(text::trim(input))
}

/// The code in what was entered, where that is one.
pub fn connect_code(input: &str) -> (r: Option<String>)
    ensures
        is_code_in(
            match r {
                Some(c) => Some(c@),
                None => None,
            },
            input@,
        ),
{
    let t: String = text::trimmed(input);
    let upper: String = text::uppercased(t.as_str());
    entered_code(upper.as_str())
}

/// Whether what was entered is long enough to be connected with.
pub fn can_connect(input: &str) -> (r: bool)
    ensures
        r == has_code_length(text::trim(input@)),
{
    let t: String = text::trimmed(input);
    t.as_str().as_bytes().len() == 9
}

// ---- laws ----

proof fn lemma_no_filter(s: Seq<char>, c: char)
    requires
        text::lacks(s, c),
    ensures
        text::remove_char(s, c) == s,
    decreases s.len(),
{
    reveal(Seq::filter);
    if s.len() > 0 {
        lemma_no_filter(s.drop_last(), c);
        assert(s.drop_last().push(s.last()) =~= s);
    }
}

/// Every session code is accepted as it is when it is entered, in capital or small letters and
/// with spaces around it or not.
pub proof fn session_codes_are_accepted(code: Seq<char>, input: Seq<char>, r: Option<Seq<char>>)
    requires
        utils::is_session_code(code),
        text::trim(input) == code || text::trim(input) == text::ascii_lower(code),
        is_code_in(r, input),
    ensures
        r == Some(code),
{
    reveal_strlit("ABCDEFGHJKLMNPQRSTUVWXYZ23456789");
    assert forall|i: int| 0 <= i < code.len() implies (#[trigger] code[i] == '-' || 'A' <= code[i]
        <= 'Z' || '2' <= code[i] <= '9') by {
        if i != 4 {
            assert(utils::code_alphabet().contains(code[i]));
        }
    }
    let t = text::trim(input);
    assert(text::is_ascii(t));
    assert(text::ascii_upper(t) =~= code);
    assert(text::lacks(code, ' '));
    lemma_no_filter(code, ' ');
    vstd::utf8::is_ascii_chars_encode_utf8(code);
}

/// The relay takes the request for a web request, and reads the role and the code from it.
pub proof fn requests_are_understood(role: Role, code: Seq<char>)
    requires
        code.len() > 0,
        forall|i: int| 0 <= i < code.len() ==> !text::is_white_space(#[trigger] code[i]),
    ensures
        relay::looks_like_http(vstd::utf8::encode_utf8(request_text(role, code))),
        relay::http_command_in(request_line(role, code)) == Some(role.word() + " "@ + code),
        relay::command_in(role.word() + " "@ + code) == match role {
            Role::Receiver => relay::Command::Receiver(code),
            Role::Sender => relay::Command::Sender(code),
        },
{
    lemma_request_line(role, code);
    lemma_request_bytes(role, code);
    lemma_command(role, code);
}

proof fn lemma_request_line(role: Role, code: Seq<char>)
    requires
        code.len() > 0,
        forall|i: int| 0 <= i < code.len() ==> !text::is_white_space(#[trigger] code[i]),
    ensures
        relay::http_command_in(request_line(role, code)) == Some(role.word() + " "@ + code),
{
    reveal_strlit("GET /");
    reveal_strlit("receiver");
    reveal_strlit("sender");
    reveal_strlit("RECEIVER");
    reveal_strlit("SENDER");
    reveal_strlit("RECEIVER ");
    reveal_strlit("SENDER ");
    reveal_strlit("/receiver/");
    reveal_strlit("/sender/");
    reveal_strlit(" HTTP/1.1\r\n");
    reveal_strlit("/");
    reveal_strlit(" ");
    let line = request_line(role, code);
    let get = seq!['G', 'E', 'T'];
    let http = seq!['H', 'T', 'T', 'P', '/', '1', '.', '1'];
    let target = "/"@ + role.path() + "/"@ + code;
    let base = get + (seq![' '] + (target + (seq![' '] + http)));
    assert(line =~= base.push('\r').push('\n'));
    assert(base.last() == '1');
    assert(base.push('\r')[0] == 'G');
    text::lemma_trim_end_push(base.push('\r'), '\n');
    text::lemma_trim_end_push(base, '\r');
    text::lemma_trim_none(base);
    assert(text::trim(line) == base);
    let prefix = "/"@ + role.path() + "/"@;
    assert forall|i: int| 0 <= i < target.len() implies !text::is_white_space(
        #[trigger] target[i],
    ) by {
        if i < prefix.len() {
            assert(target[i] == prefix[i]);
        } else {
            assert(target[i] == code[i - prefix.len()]);
        }
    }
    text::lemma_words_first(base, get, seq![' '] + (target + (seq![' '] + http)));
    text::lemma_words_space(' ', target + (seq![' '] + http));
    text::lemma_words_first(target + (seq![' '] + http), target, seq![' '] + http);
    let w = text::words(base);
    assert(w[1] == target);
    match role {
        Role::Receiver => {
            assert(prefix =~= "/receiver/"@);
            assert(target.take(10) =~= "/receiver/"@);
            assert(target.skip(10) =~= code);
            assert("RECEIVER "@ + code =~= role.word() + " "@ + code);
        },
        Role::Sender => {
            assert(prefix =~= "/sender/"@);
            assert(target.take(8) =~= "/sender/"@);
            assert(target.skip(8) =~= code);
            assert(target[1] == 's');
            if target.len() >= 10 {
                assert(target.take(10)[1] == 's');
                assert("/receiver/"@[1] == 'r');
            }
            assert("SENDER "@ + code =~= role.word() + " "@ + code);
        },
    }
}

proof fn lemma_request_bytes(role: Role, code: Seq<char>)
    ensures
        relay::looks_like_http(vstd::utf8::encode_utf8(request_text(role, code))),
{
    reveal_strlit("GET /");
    reveal_strlit("GET ");
    reveal_strlit("receiver");
    reveal_strlit("sender");
    let whole = request_text(role, code);
    let head = whole.take(7);
    let rest = whole.skip(7);
    assert(whole =~= head + rest);
    bytes::lemma_encode_concat(head, rest);
    assert(head[0] == 'G' && head[1] == 'E' && head[2] == 'T' && head[3] == ' ' && head[4] == '/');
    assert(head[5] == role.path()[0] && head[6] == role.path()[1]);
    vstd::utf8::is_ascii_chars_encode_utf8(head);
    let b = vstd::utf8::encode_utf8(whole);
    assert(b.take(7) =~= vstd::utf8::encode_utf8(head));
    vstd::utf8::encode_utf8_valid_utf8(head);
    vstd::utf8::encode_utf8_decode_utf8(head);
    assert(head.take(4) =~= "GET "@);
    if b.len() <= 7 {
        assert(b =~= b.take(7));
    }
}

proof fn lemma_command(role: Role, code: Seq<char>)
    requires
        code.len() > 0,
        forall|i: int| 0 <= i < code.len() ==> !text::is_white_space(#[trigger] code[i]),
    ensures
        relay::command_in(role.word() + " "@ + code) == match role {
            Role::Receiver => relay::Command::Receiver(code),
            Role::Sender => relay::Command::Sender(code),
        },
{
    reveal_strlit("RECEIVER");
    reveal_strlit("SENDER");
    reveal_strlit("RECEIVER ");
    reveal_strlit("SENDER ");
    reveal_strlit(" ");
    let line = role.word() + " "@ + code;
    text::lemma_trim_none(code);
    match role {
        Role::Receiver => {
            assert(line.take(9) =~= "RECEIVER "@);
            assert(line.skip(9) =~= code);
        },
        Role::Sender => {
            assert(line.take(7) =~= "SENDER "@);
            assert(line.skip(7) =~= code);
            assert(line[0] == 'S');
            if line.len() >= 9 {
                assert(line.take(9)[0] == 'S');
                assert("RECEIVER "@[0] == 'R');
            }
        },
    }
}

/// The lines of the relay's answer, each with its end; the last one goes on with whatever the relay
/// writes next.
pub open spec fn answer_lines(command: Seq<char>, next: Seq<char>) -> Seq<Seq<char>> {
    seq![
        "HTTP/1.1 200 OK\n"@,
        "Content-Type: text/plain\n"@,
        "Connection: keep-alive\n"@,
        "Content-Length: "@ + crate::numbers::decimal(vstd::utf8::encode_utf8(command).len())
            + "\n"@,
        "\n"@,
        command + next,
    ]
}

/// What the lines of an answer lead to.
pub open spec fn run(role: Role, phase: Phase, lines: Seq<Seq<char>>) -> Outcome
    decreases lines.len(),
{
    if lines.len() == 0 {
        Outcome::More
    } else {
        let (next, outcome) = step(role, phase, Some(lines[0]));
        match outcome {
            Outcome::More => run(role, next, lines.drop_first()),
            _ => outcome,
        }
    }
}

/// Up to its last line, the relay's answer only has a device read on.
proof fn lemma_answer(role: Role, code: Seq<char>, next: Seq<char>)
    ensures
        ({
            let command = role.word() + " "@ + code;
            let l = answer_lines(command, next);
            &&& run(role, Phase::Status, l) == step(role, Phase::Body, Some(command + next)).1
            &&& l[0] + l[1] + l[2] + l[3] + l[4] + l[5] == relay::http_response_text(command) + next
        }),
{
    reveal_strlit("HTTP/1.1 200 OK\n");
    reveal_strlit("200 OK");
    reveal_strlit("Content-Type: text/plain\n");
    reveal_strlit("Connection: keep-alive\n");
    reveal_strlit("Content-Length: ");
    reveal_strlit("\n");
    reveal_strlit("\r\n");
    reveal_strlit("\n\n");
    reveal_strlit(
        "HTTP/1.1 200 OK\nContent-Type: text/plain\nConnection: keep-alive\nContent-Length: ",
    );
    let command = role.word() + " "@ + code;
    let l = answer_lines(command, next);
    let last = step(role, Phase::Body, Some(command + next)).1;
    assert("HTTP/1.1 200 OK\n"@.subrange(9, 15) =~= "200 OK"@);
    assert(text::occurs_at(l[0], "200 OK"@, 9));
    let d1 = l.drop_first();
    let d2 = d1.drop_first();
    let d3 = d2.drop_first();
    let d4 = d3.drop_first();
    let d5 = d4.drop_first();
    assert(d1[0] == l[1] && d2[0] == l[2] && d3[0] == l[3] && d4[0] == l[4] && d5[0] == l[5]);
    assert(l[1].len() > 2 && l[2].len() > 2 && l[3].len() > 2);
    assert(run(role, Phase::Body, d5) == last);
    assert(run(role, Phase::Headers, d4) == last);
    assert(run(role, Phase::Headers, d3) == last);
    assert(run(role, Phase::Headers, d2) == last);
    assert(run(role, Phase::Headers, d1) == last);
    assert(l[0] + l[1] + l[2] + l[3] + l[4] + l[5] =~= relay::http_response_text(command) + next);
}

/// A device takes the relay's answer to its request for what it is: the pair is made. The answer is
/// the one that the relay writes, with the line behind it that tells of the pair.
pub proof fn answers_are_understood(role: Role, code: Seq<char>, notice: Notice)
    requires
        notice is Paired,
        role is Sender ==> relay::is_sender_notice(notice),
    ensures
        ({
            let command = role.word() + " "@ + code;
            let next = notice.text() + "\n"@;
            let l = answer_lines(command, next);
            &&& run(role, Phase::Status, l) is Paired
            &&& l[0] + l[1] + l[2] + l[3] + l[4] + l[5] == relay::http_response_text(command) + next
        }),
{
    reveal_strlit("RECEIVER");
    reveal_strlit("SENDER");
    reveal_strlit(" ");
    reveal_strlit("\n");
    reveal_strlit("PAIRED ");
    reveal_strlit("receiver");
    reveal_strlit("NOT_FOUND");
    let command = role.word() + " "@ + code;
    let next = notice.text() + "\n"@;
    lemma_answer(role, code, next);
    let line = command + next;
    assert(line.take(role.word().len() as int) =~= role.word());
    lemma_trim_keeps_word(line, role.word());
    if role is Sender {
        let told = command + notice.text();
        assert(line =~= told + "\n"@);
        lemma_trim_line(line, told);
        assert(told.last() == 'r');
        assert(text::ends_with(told, "NOT_FOUND"@) ==> told.skip(told.len() - 9)[8] == told.last());
        assert(told[0] == 'S');
    }
}

/// A sender whose code nobody waits under is told so: it takes the relay's answer, with the refusal
/// behind it, for a refusal.
pub proof fn refusals_are_understood(code: Seq<char>)
    ensures
        ({
            let command = Role::Sender.word() + " "@ + code;
            let next = Notice::NotFound.text() + "\n"@;
            let l = answer_lines(command, next);
            &&& run(Role::Sender, Phase::Status, l) == Outcome::Failed(
                "Code not found or expired"@,
            )
            &&& l[0] + l[1] + l[2] + l[3] + l[4] + l[5] == relay::http_response_text(command) + next
        }),
{
    reveal_strlit("SENDER");
    reveal_strlit(" ");
    reveal_strlit("\n");
    reveal_strlit("NOT_FOUND");
    let command = Role::Sender.word() + " "@ + code;
    let next = Notice::NotFound.text() + "\n"@;
    lemma_answer(Role::Sender, code, next);
    let line = command + next;
    let told = command + "NOT_FOUND"@;
    assert(line =~= told + "\n"@);
    lemma_trim_line(line, told);
    assert(told.take(6) =~= "SENDER"@);
    assert(told.skip(told.len() - 9) =~= "NOT_FOUND"@);
}

/// Trimming a line takes its end away, where nothing around it is white space.
proof fn lemma_trim_line(line: Seq<char>, s: Seq<char>)
    requires
        line == s + "\n"@,
        s.len() > 0,
        !text::is_white_space(s[0]),
        !text::is_white_space(s.last()),
    ensures
        text::trim(line) == s,
{
    reveal_strlit("\n");
    assert(line[0] == s[0]);
    assert(line.last() == '\n');
    assert(line.drop_last() =~= s);
    assert(text::trim_start(line) == line);
    assert(text::trim_end(s) == s);
    assert(text::trim_end(line) == s);
}

/// Trimming does not touch a word at the start of a text that has more behind it.
proof fn lemma_trim_keeps_word(s: Seq<char>, w: Seq<char>)
    requires
        w.len() > 0,
        w.len() <= s.len(),
        s.take(w.len() as int) == w,
        !text::is_white_space(w[0]),
        !text::is_white_space(w.last()),
    ensures
        text::starts_with(text::trim(s), w),
{
    assert(s[0] == s.take(w.len() as int)[0]);
    assert(text::trim_start(s) == s);
    lemma_trim_end_keeps(s, w);
}

proof fn lemma_trim_end_keeps(s: Seq<char>, w: Seq<char>)
    requires
        w.len() > 0,
        w.len() <= s.len(),
        s.take(w.len() as int) == w,
        !text::is_white_space(w.last()),
    ensures
        text::starts_with(text::trim_end(s), w),
    decreases s.len(),
{
    if text::is_white_space(s.last()) {
        assert(s.take(w.len() as int)[w.len() - 1] == s[w.len() - 1]);
        assert(s.len() > w.len());
        assert(s.drop_last().take(w.len() as int) =~= s.take(w.len() as int));
        lemma_trim_end_keeps(s.drop_last(), w);
    }
}

// ---- what the calls give ----

/// A status of success is read on from, any other ends the reading with an error.
pub proof fn statuses_are_read(h: &mut Handshake, line: &str, r: Progress)
    requires
        call_ensures(Handshake::take, (h, Some(line)), r),
        old(h).phase is Status,
    ensures
        final(h).role == old(h).role,
        text::contains_text(line@, "200 OK"@) ==> r is More && final(h).phase is Headers,
        !text::contains_text(line@, "200 OK"@) ==> r is Failed && r->Failed_0@ == "HTTP error: "@
            + text::trim(line@) && final(h).phase is Over,
{
}

/// Headers are read up to an empty line.
pub proof fn headers_are_read(h: &mut Handshake, line: &str, r: Progress)
    requires
        call_ensures(Handshake::take, (h, Some(line)), r),
        old(h).phase is Headers,
    ensures
        final(h).role == old(h).role,
        r is More,
        line@ == seq!['\n'] || line@ == seq!['\r', '\n'] || line@.len() == 0
            <==> final(h).phase is Body,
        !(final(h).phase is Body) ==> final(h).phase is Headers,
{
    reveal_strlit("\n");
    reveal_strlit("\r\n");
    assert("\n"@ =~= seq!['\n']);
    assert("\r\n"@ =~= seq!['\r', '\n']);
}

/// The body decides: a sender that is refused fails, a device whose own role is repeated has its
/// place, and anything else is an error.
pub proof fn bodies_decide(h: &mut Handshake, line: &str, r: Progress)
    requires
        call_ensures(Handshake::take, (h, Some(line)), r),
        old(h).phase is Body,
    ensures
        final(h).phase is Over,
        !(r is More),
        old(h).role is Receiver ==> (r is Paired <==> text::starts_with(
            text::trim(line@),
            "RECEIVER"@,
        )),
        old(h).role is Sender ==> (r is Paired <==> text::starts_with(text::trim(line@), "SENDER"@)
            && !text::ends_with(text::trim(line@), "NOT_FOUND"@)),
        old(h).role is Sender && (text::trim(line@) == "NOT_FOUND"@ || text::starts_with(
            text::trim(line@),
            "SENDER"@,
        ) && text::ends_with(text::trim(line@), "NOT_FOUND"@)) ==> r is Failed && r->Failed_0@
            == "Code not found or expired"@,
{
    reveal_strlit("NOT_FOUND");
    reveal_strlit("SENDER");
    let t = text::trim(line@);
    if t == "NOT_FOUND"@ && text::starts_with(t, "SENDER"@) {
        assert(t.take(6)[0] == t[0]);
    }
}

/// Where no line can be read, only the headers may end.
pub proof fn silence_ends_the_reading(h: &mut Handshake, r: Progress)
    requires
        call_ensures(Handshake::take, (h, None::<&str>), r),
    ensures
        old(h).phase is Status || old(h).phase is Body ==> r is Failed && final(h).phase is Over,
        old(h).phase is Headers ==> r is More && final(h).phase is Body,
        old(h).phase is Over ==> r is More && final(h).phase is Over,
{
}

proof fn lemma_first_char(c: char)
    ensures
        '\0' <= c,
{
}

/// A code is nine bytes without a space, and is what was entered but for spaces and small letters.
pub proof fn codes_are_read(input: &str, r: Option<String>)
    requires
        call_ensures(connect_code, (input,), r),
        text::is_ascii(text::trim(input@)),
    ensures
        ({
            let kept = text::remove_char(text::ascii_upper(text::trim(input@)), ' ');
            &&& r is Some <==> kept.len() == 9
            &&& r is Some ==> r->0@ == kept && text::lacks(r->0@, ' ')
        }),
{
    let upper = text::ascii_upper(text::trim(input@));
    let kept = text::remove_char(upper, ' ');
    let not_space = |x: char| x != ' ';
    text::removing_keeps_the_rest(upper, ' ');
    crate::order::kept_members(kept, upper, not_space);
    assert forall|i: int| 0 <= i < kept.len() implies #[trigger] kept[i] != ' ' && kept[i]
        < '\u{80}' by {
        assert(not_space(kept[i]));
        assert(upper.contains(kept[i]));
        let j = choose|j: int| 0 <= j < upper.len() && upper[j] == kept[i];
        assert(text::trim(input@)[j] < '\u{80}');
    }
    assert forall|i: int| 0 <= i < kept.len() implies '\0' <= #[trigger] kept[i] <= '\u{7f}' by {
        assert(kept[i] < '\u{80}');
        lemma_first_char(kept[i]);
    }
    vstd::utf8::is_ascii_chars_encode_utf8(kept);
}

/// A device asks for the place of its role under its code, in the first line of a web request to the
/// relay.
pub proof fn requests_name_role_and_code(role: Role, code: &str, r: String)
    requires
        call_ensures(request, (role, code), r),
    ensures
        text::starts_with(
            r@,
            (if role is Receiver {
                "GET /receiver/"@
            } else {
                "GET /sender/"@
            }) + code@ + " HTTP/1.1\r\nHost: "@ + RELAY_HOST@ + "\r\n"@,
        ),
        text::ends_with(r@, "\r\n\r\n"@),
{
    reveal_strlit("GET /");
    reveal_strlit("/");
    reveal_strlit("receiver");
    reveal_strlit("sender");
    reveal_strlit("GET /receiver/");
    reveal_strlit("GET /sender/");
    reveal_strlit(" HTTP/1.1\r\n");
    reveal_strlit(" HTTP/1.1\r\nHost: ");
    reveal_strlit("Host: ");
    reveal_strlit("\r\n");
    reveal_strlit("\r\n\r\n");
    reveal_strlit("\r\nUser-Agent: rfshare/");
    reveal_strlit("\r\nAccept: */*\r\nConnection: keep-alive\r\n\r\n");
    let start = (if role is Receiver {
        "GET /receiver/"@
    } else {
        "GET /sender/"@
    }) + code@ + " HTTP/1.1\r\nHost: "@ + RELAY_HOST@ + "\r\n"@;
    assert("GET /receiver/"@ =~= "GET /"@ + "receiver"@ + "/"@);
    assert("GET /sender/"@ =~= "GET /"@ + "sender"@ + "/"@);
    assert(" HTTP/1.1\r\nHost: "@ =~= " HTTP/1.1\r\n"@ + "Host: "@);
    let agent = "\r\nUser-Agent: rfshare/"@;
    assert(agent.take(2) =~= "\r\n"@);
    assert(agent =~= "\r\n"@ + agent.skip(2));
    let last = "\r\nAccept: */*\r\nConnection: keep-alive\r\n\r\n"@;
    assert(last.skip(last.len() - 4) =~= "\r\n\r\n"@);
    let rest = agent.skip(2) + update::VERSION@ + last;
    assert(r@ =~= start + rest);
    assert(r@.take(start.len() as int) =~= start);
    assert(r@.skip(r@.len() - 4) =~= "\r\n\r\n"@);
}

/// A reading begins with the status, in its role.
pub proof fn readings_begin_with_the_status(role: Role, h: Handshake)
    requires
        call_ensures(Handshake::new, (role,), h),
    ensures
        h.role == role,
        h.phase is Status,
{
}

/// A sender asks under the code without the white space around it.
pub proof fn handed_over_codes_are_trimmed(code: &str, plain: &str, r: String, s: String)
    requires
        plain@ == text::trim(code@),
        call_ensures(sender_request, (code,), r),
        call_ensures(request, (Role::Sender, plain), s),
    ensures
        r@ == s@,
{
}

/// What was entered can be connected with where it is nine bytes long, spaces around it not counted.
pub proof fn nine_bytes_can_be_tried(input: &str, r: bool)
    requires
        call_ensures(can_connect, (input,), r),
    ensures
        r <==> vstd::utf8::encode_utf8(text::trim(input@)).len() == 9,
{
}

} // verus!
