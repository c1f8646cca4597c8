//! The connection to the relay.
use vstd::prelude::*;

use crate::remote;

verus! {

/// How the connection stands.
#[derive(Debug)]
pub enum RelayState {
    Offline,
    Connecting,
    /// This device waits under a code.
    Online { code: String },
    Paired { peer_name: String },
    Error(String),
}

/// How the connection stands, over texts.
pub enum LinkState {
    Offline,
    Connecting,
    Online(Seq<char>),
    Paired(Seq<char>),
    Error(Seq<char>),
}

impl View for RelayState {
    type V = LinkState;

    open spec fn view(&self) -> LinkState {
        match *self {
            RelayState::Offline => LinkState::Offline,
            RelayState::Connecting => LinkState::Connecting,
            RelayState::Online { code } => LinkState::Online(code@),
            RelayState::Paired { peer_name } => LinkState::Paired(peer_name@),
            RelayState::Error(e) => LinkState::Error(e@),
        }
    }
}

/// News of the connection.
#[derive(Debug)]
pub enum RelayMsg {
    /// The code under which this device waits.
    Code(String),
    Paired { peer: String },
    /// The connection can be used.
    Ready,
    Error(String),
}

/// A message for display, and whether it tells of an error.
pub open spec fn notice(m: Option<(String, bool)>) -> Option<(Seq<char>, bool)> {
    match m {
        Some((s, e)) => Some((s@, e)),
        None => None,
    }
}

/// The connection to the relay.
pub struct Link {
    pub state: RelayState,
    /// Whether news are expected.
    pub listening: bool,
    /// Whether there is a connection to use.
    pub has_stream: bool,
    /// Whether files go through the relay.
    pub relay_mode: bool,
    /// Whether this device is the one that waits for files, and not the one that sends them.
    pub receives: bool,
    /// What was entered as a code.
    pub code_input: String,
    /// A message for display, and whether it tells of an error.
    pub message: Option<(String, bool)>,
    /// Whether the internet was reachable when it was last tried.
    pub is_online: bool,
}

/// The state of the connection to the relay.
pub struct State {
    pub state: LinkState,
    pub listening: bool,
    pub has_stream: bool,
    pub relay_mode: bool,
    pub receives: bool,
    pub code_input: Seq<char>,
    pub message: Option<(Seq<char>, bool)>,
    pub is_online: bool,
}

impl View for Link {
    type V = State;

    open spec fn view(&self) -> State {
        State {
            state: self.state@,
            listening: self.listening,
            has_stream: self.has_stream,
            relay_mode: self.relay_mode,
            receives: self.receives,
            code_input: self.code_input@,
            message: notice(self.message),
            is_online: self.is_online,
        }
    }
}

pub open spec fn no_internet() -> Option<(Seq<char>, bool)> {
    Some(("No internet connection. Please check your network."@, true))
}

impl State {
    /// Whether this device may go online: it is offline, or an earlier try has failed.
    pub open spec fn may_go_online(self) -> bool {
        self.state is Offline || self.state is Error
    }

    /// While a connection is made, to wait for files or to send them, or why none can be.
    pub open spec fn connecting(self, internet: bool, receives: bool) -> State {
        if internet {
            State { state: LinkState::Connecting, listening: true, receives, ..self }
        } else {
            State { message: no_internet(), ..self }
        }
    }

    pub open spec fn offline(self) -> State {
        State {
            state: LinkState::Offline,
            listening: false,
            receives: false,
            message: None,
            ..self
        }
    }

    /// Once news have come in.
    pub open spec fn told(self, msg: RelayMsg) -> State {
        match msg {
            RelayMsg::Code(code) => State { state: LinkState::Online(code@), ..self },
            RelayMsg::Paired { peer } => State { state: LinkState::Paired(peer@), ..self },
            RelayMsg::Ready => State {
                has_stream: true,
                relay_mode: true,
                listening: false,
                ..self
            },
            RelayMsg::Error(e) => self.failed(e@),
        }
    }

    /// Once the connection has failed.
    pub open spec fn failed(self, error: Seq<char>) -> State {
        State {
            state: LinkState::Error(error),
            message: Some(("Connection failed: "@ + error, true)),
            listening: false,
            ..self
        }
    }
}

impl Link {
    /// A connection that has not been made.
    pub fn new() -> (r: Link)
        ensures
            r@ == (State {
                state: LinkState::Offline,
                listening: false,
                has_stream: false,
                relay_mode: false,
                receives: false,
                code_input: ""@,
                message: None,
                is_online: false,
            }),
    {
        Link {
            state: RelayState::Offline,
            listening: false,
            has_stream: false,
            relay_mode: false,
            receives: false,
            code_input: "".to_string(),
            message: None,
            is_online: false,
        }
    }

    /// Whether this device may go online.
    pub fn may_go_online(&self) -> (r: bool)
        ensures
            r == self@.may_go_online(),
    {
        match &self.state {
            RelayState::Offline => true,
            RelayState::Error(_) => true,
            _ => false,
        }
    }

    /// Goes online to wait for files, where this device may and the internet is reachable; whether a
    /// connection is to be made.
    pub fn go_online(&mut self, internet: bool) -> (r: bool)
        ensures
            r == (old(self)@.may_go_online() && internet),
            final(self)@ == (if old(self)@.may_go_online() {
                old(self)@.connecting(internet, true)
            } else {
                old(self)@
            }),
    {
        if !self.may_go_online() {
            return false;
        }
        self.start(internet, true)
    }

    /// Makes a connection to send files, where the internet is reachable; whether one is to be made.
    pub fn connect(&mut self, internet: bool) -> (r: bool)
        ensures
            r == internet,
            final(self)@ == old(self)@.connecting(internet, false),
    {
        self.start(internet, false)
    }

    fn start(&mut self, internet: bool, receives: bool) -> (r: bool)
        ensures
            r == internet,
            final(self)@ == old(self)@.connecting(internet, receives),
    {
        if internet {
            self.state = RelayState::Connecting;
            self.listening = true;
            self.receives = receives;
        } else {
            self.message = Some(
                ("No internet connection. Please check your network.".to_string(), true),
            );
        }
        internet
    }

    /// Takes the time as up for the relay to answer: a connection that is still being made has failed.
    pub fn timed_out(&mut self)
        ensures
            final(self)@ == (if old(self)@.state is Connecting {
                old(self)@.failed("Connection timeout"@)
            } else {
                old(self)@
            }),
    {
        match &self.state {
            RelayState::Connecting => {
                self.fail("Connection timeout".to_string());
            },
            _ => {},
        }
    }

    fn fail(&mut self, error: String)
        ensures
            final(self)@ == old(self)@.failed(error@),
    {
        let mut s: String = "Connection failed: ".to_string();
        s.append(error.as_str());
        self.message = Some((s, true));
        self.state = RelayState::Error(error);
        self.listening = false;
    }

    pub fn go_offline(&mut self)
        ensures
            final(self)@ == old(self)@.offline(),
    {
        self.state = RelayState::Offline;
        self.listening = false;
        self.receives = false;
        self.message = None;
    }

    /// The code that was entered, where it is one; else a message is shown.
    pub fn check_code(&mut self) -> (r: Option<String>)
        ensures
            remote::is_code_in(
                match r {
                    Some(c) => Some(c@),
                    None => None,
                },
                old(self).code_input@,
            ),
            final(self)@ == (if r is Some {
                old(self)@
            } else {
                State { message: Some(("Enter the 9-character code"@, true)), ..old(self)@ }
            }),
    {
        let r: Option<String> = remote::connect_code(self.code_input.as_str());
        if r.is_none() {
            self.message = Some(("Enter the 9-character code".to_string(), true));
        }
        r
    }

    /// Takes news of the connection. Once it can be used by a pair, the name of the other device is
    /// returned.
    pub fn take_message(&mut self, msg: RelayMsg) -> (r: Option<String>)
        ensures
            final(self)@ == old(self)@.told(msg),
            match r {
                Some(name) => msg is Ready && old(self)@.state == LinkState::Paired(name@),
                None => !(msg is Ready && old(self)@.state is Paired),
            },
    {
        match msg {
            RelayMsg::Code(code) => {
                self.state = RelayState::Online { code };
                None
            },
            RelayMsg::Paired { peer } => {
                self.state = RelayState::Paired { peer_name: peer };
                None
            },
            RelayMsg::Ready => {
                self.has_stream = true;
                self.relay_mode = true;
                self.listening = false;
                match &self.state {
                    RelayState::Paired { peer_name } => Some(peer_name.clone()),
                    _ => None,
                }
            },
            RelayMsg::Error(e) => {
                self.fail(e);
                None
            },
        }
    }
}

// ---- the stream ----

/// What a pair shares to send files through the relay, one after the other.
pub struct Holder<T> {
    pub stream: Option<T>,
}

/// Why there is nothing to send through.
#[derive(Clone, Copy, Debug, PartialEq, Eq, Structural)]
pub enum HolderError {
    NoStream,
}

impl HolderError {
    /// The error for display.
    pub fn message(self) -> (r: String)
        ensures
            r@ == "No relay stream available"@,
    {
        "No relay stream available".to_string()
    }
}

impl<T> Holder<T> {
    pub fn new(stream: T) -> (r: Self)
        ensures
            r.stream == Some(stream),
    {
        Holder { stream: Some(stream) }
    }

    /// Hands the stream out, where it is here.
    pub fn lend(&mut self) -> (r: Result<T, HolderError>)
        ensures
            match r {
                Ok(t) => old(self).stream == Some(t),
                Err(e) => old(self).stream is None && e == HolderError::NoStream,
            },
            final(self).stream is None,
    {
        match self.stream.take() {
            Some(t) => Ok(t),
            None => Err(HolderError::NoStream),
        }
    }

    /// Takes the stream back, for the next file.
    pub fn give_back(&mut self, stream: T)
        ensures
            final(self).stream == Some(stream),
    {
        self.stream = Some(stream);
    }
}

// ---- laws ----

/// Only a connection that is still being made can be too late: a device that waits under a code, or
/// has found its pair, goes on.
pub proof fn codes_outlive_the_timer(s: State, msg: RelayMsg)
    requires
        msg is Code || msg is Paired,
    ensures
        s.told(msg).state !is Connecting,
        msg matches RelayMsg::Code(code) ==> s.told(msg).state == LinkState::Online(code@),
{
}

/// Of a pair, the device that went online receives and the one that connected sends, whatever news
/// come in.
pub proof fn one_side_receives(s: State, msg: RelayMsg)
    ensures
        s.connecting(true, true).told(msg).receives,
        !s.connecting(true, false).told(msg).receives,
        s.told(msg).receives == s.receives,
{
}

/// Going offline undoes going online, and a device that is offline or has failed may go online.
pub proof fn offline_undoes_online(s: State, internet: bool, receives: bool)
    ensures
        s.connecting(internet, receives).offline() == s.offline(),
        s.offline().may_go_online(),
        internet ==> !s.connecting(internet, receives).may_go_online(),
{
}

/// A failed connection can be tried again, and its reason is shown.
pub proof fn failures_can_be_retried(s: State, e: String)
    ensures
        s.told(RelayMsg::Error(e)).may_go_online(),
        s.told(RelayMsg::Error(e)).state == LinkState::Error(e@),
        !s.told(RelayMsg::Error(e)).listening,
{
}

// ---- what the calls give ----

/// Whether a message tells of an error.
pub open spec fn tells_of_error(l: Link) -> bool {
    l.message matches Some(m) && m.1
}

/// A device that may go online and reaches the internet makes a connection to wait for files. One
/// that does not reach it says so and stays as it is; one that may not go online does nothing.
pub proof fn going_online(l: &mut Link, internet: bool, r: bool)
    requires
        call_ensures(Link::go_online, (l, internet), r),
    ensures
        r <==> internet && (old(l).state is Offline || old(l).state is Error),
        r ==> final(l).state is Connecting && final(l).listening && final(l).receives,
        !r ==> final(l).state@ == old(l).state@ && final(l).listening == old(l).listening
            && final(l).receives == old(l).receives,
        !internet && (old(l).state is Offline || old(l).state is Error) ==> tells_of_error(*final(l)),
        final(l).has_stream == old(l).has_stream,
        final(l).relay_mode == old(l).relay_mode,
        final(l).is_online == old(l).is_online,
        final(l).code_input@ == old(l).code_input@,
{
}

/// A connection to send files is made where the internet is reached; else the user is told.
pub proof fn connecting_to_send(l: &mut Link, internet: bool, r: bool)
    requires
        call_ensures(Link::connect, (l, internet), r),
    ensures
        r == internet,
        internet ==> final(l).state is Connecting && final(l).listening && !final(l).receives,
        !internet ==> final(l).state@ == old(l).state@ && final(l).listening == old(l).listening
            && final(l).receives == old(l).receives && tells_of_error(*final(l)),
        final(l).has_stream == old(l).has_stream,
        final(l).relay_mode == old(l).relay_mode,
{
}

/// A connection that is still being made fails once the time is up; any other goes on.
pub proof fn only_connecting_times_out(l: &mut Link)
    requires
        call_ensures(Link::timed_out, (l,), ()),
    ensures
        old(l).state is Connecting ==> final(l).state is Error && final(l).state->Error_0@
            == "Connection timeout"@ && !final(l).listening && tells_of_error(*final(l)),
        !(old(l).state is Connecting) ==> final(l)@ == old(l)@,
{
}

/// Going offline ends the connection and the wait for news, and takes messages away.
pub proof fn going_offline(l: &mut Link)
    requires
        call_ensures(Link::go_offline, (l,), ()),
    ensures
        final(l).state is Offline,
        !final(l).listening,
        !final(l).receives,
        final(l).message is None,
        final(l).is_online == old(l).is_online,
        final(l).code_input@ == old(l).code_input@,
        final(l).has_stream == old(l).has_stream,
        final(l).relay_mode == old(l).relay_mode,
{
}

/// News of the relay: a code is waited under, a pair is kept by the other's name, a connection that
/// can be used is used for files, and an error ends it. Only a pair's ready connection hands out
/// the name of the other device.
pub proof fn news_of_the_relay(l: &mut Link, msg: RelayMsg, r: Option<String>)
    requires
        call_ensures(Link::take_message, (l, msg), r),
    ensures
        msg matches RelayMsg::Code(c) ==> final(l).state is Online && final(l).state->code@ == c@
            && final(l).listening == old(l).listening && final(l).has_stream == old(l).has_stream,
        msg matches RelayMsg::Paired { peer } ==> final(l).state is Paired
            && final(l).state->peer_name@ == peer@ && final(l).listening == old(l).listening
            && final(l).has_stream == old(l).has_stream,
        msg is Ready ==> final(l).state@ == old(l).state@ && final(l).has_stream
            && final(l).relay_mode && !final(l).listening,
        msg matches RelayMsg::Error(e) ==> final(l).state is Error && final(l).state->Error_0@
            == e@ && !final(l).listening && notice(final(l).message) == Some(
            ("Connection failed: "@ + e@, true),
        ) && final(l).has_stream
            == old(l).has_stream,
        !(msg is Ready) ==> final(l).relay_mode == old(l).relay_mode,
        final(l).receives == old(l).receives,
        r is Some <==> msg is Ready && old(l).state is Paired,
        r is Some ==> r->0@ == old(l).state->peer_name@,
{
}

/// A stream that was handed out is not handed out again before it is given back.
pub proof fn streams_are_lent_once<T>(h: &mut Holder<T>, r: Result<T, HolderError>)
    requires
        call_ensures(Holder::<T>::lend, (h,), r),
    ensures
        r is Ok <==> old(h).stream is Some,
        r is Ok ==> old(h).stream == Some(r->Ok_0),
        final(h).stream is None,
{
}

/// What is given back is what is handed out next.
pub proof fn streams_come_back<T>(h: &mut Holder<T>, stream: T)
    requires
        call_ensures(Holder::<T>::give_back, (h, stream), ()),
    ensures
        final(h).stream == Some(stream),
{
}

/// A new connection is offline, uses no relay and may be made.
pub proof fn connections_begin_offline(l: Link, may: bool)
    requires
        call_ensures(Link::new, (), l),
        call_ensures(Link::may_go_online, (&l,), may),
    ensures
        may,
        l.state is Offline,
        !l.listening,
        !l.has_stream,
        !l.relay_mode,
        l.message is None,
{
}

/// What was entered is looked at only: a code is handed out as it is, and where there is none the
/// user is told and nothing else changes.
pub proof fn codes_are_checked(l: &mut Link, input: &str, r: Option<String>, code: Option<String>)
    requires
        input@ == old(l).code_input@,
        call_ensures(remote::connect_code, (input,), code),
        call_ensures(Link::check_code, (l,), r),
    ensures
        r is Some <==> code is Some,
        r is Some ==> r->0@ == code->0@,
        r is Some ==> final(l)@ == old(l)@,
        r is None ==> tells_of_error(*final(l)),
        final(l).state@ == old(l).state@,
        final(l).code_input@ == old(l).code_input@,
        final(l).listening == old(l).listening,
{
}

} // verus!
