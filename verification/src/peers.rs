//! The devices to share with: how they are found, kept and chosen.
use vstd::prelude::*;

use crate::bytes;
use crate::text;

verus! {

/// The port on which devices answer.
pub const DISCOVER_PORT: u16 = 44444;

/// The question who is there.
pub const DISCOVER_MSG: &'static str = "RFSHARE_DISCOVER";

/// What stands before the name in an answer.
pub const PEER_PREFIX: &'static str = "RFSHARE_PEER:";

/// The address that stands for the device at the other end of the relay.
pub const RELAY_PEER_ADDR: &'static str = "127.0.0.2";

#[derive(Clone, Copy, Debug, PartialEq, Eq, Structural)]
pub enum PeerKind {
    /// Found by asking on the local network.
    Local,
    /// Entered by hand, or reached through the relay.
    Remote,
}

/// A device to share with. Its address is the text of it.
#[derive(Debug)]
pub struct Peer {
    pub name: String,
    pub addr: String,
    pub kind: PeerKind,
    /// The time that an answer took, in milliseconds.
    pub latency: Option<u32>,
}

/// What is known of a device.
pub struct Device {
    pub name: Seq<char>,
    pub addr: Seq<char>,
    pub kind: PeerKind,
    pub latency: Option<u32>,
}

impl View for Peer {
    type V = Device;

    open spec fn view(&self) -> Device {
        Device {
            name: self.name@,
            addr: self.addr@,
            kind: self.kind,
            latency: self.latency,
        }
    }
}

impl Clone for Peer {
    fn clone(&self) -> (r: Peer)
        ensures
            r@ == self@,
    {
        Peer {
            name: self.name.clone(),
            addr: self.addr.clone(),
            kind: self.kind,
            latency: self.latency,
        }
    }
}

/// What is known of the devices of a list.
pub open spec fn devices(v: Seq<Peer>) -> Seq<Device> {
    Seq::new(v.len(), |i: int| v[i]@)
}

/// Whether a device of the list has the address `addr`.
pub open spec fn has_addr(s: Seq<Device>, addr: Seq<char>) -> bool {
    exists|i: int| 0 <= i < s.len() && (#[trigger] s[i]).addr == addr
}

/// The index of the first device with the address `addr`, or the length of the list.
pub open spec fn addr_index(s: Seq<Device>, addr: Seq<char>) -> nat
    decreases s.len(),
{
    if s.len() == 0 || s[0].addr == addr {
        0
    } else {
        1 + addr_index(s.drop_first(), addr)
    }
}

/// Whether no address occurs twice.
pub open spec fn distinct_addrs(s: Seq<Device>) -> bool {
    forall|i: int, j: int|
        0 <= i < j < s.len() ==> (#[trigger] s[i]).addr != (#[trigger] s[j]).addr
}

pub proof fn lemma_addr_index(s: Seq<Device>, addr: Seq<char>)
    ensures
        addr_index(s, addr) <= s.len(),
        addr_index(s, addr) < s.len() <==> has_addr(s, addr),
        addr_index(s, addr) < s.len() ==> s[addr_index(s, addr) as int].addr == addr,
        forall|i: int| 0 <= i < addr_index(s, addr) ==> (#[trigger] s[i]).addr != addr,
    decreases s.len(),
{
    if s.len() > 0 && s[0].addr != addr {
        let t = s.drop_first();
        lemma_addr_index(t, addr);
        if has_addr(s, addr) {
            let i = choose|i: int| 0 <= i < s.len() && (#[trigger] s[i]).addr == addr;
            assert(t[i - 1].addr == addr);
        }
        assert forall|i: int| 0 <= i < addr_index(s, addr) implies (#[trigger] s[i]).addr
            != addr by {
            if i > 0 {
                assert(s[i] == t[i - 1]);
            }
        }
    }
}

/// The index of the first device with the address `addr`.
pub fn find_addr(v: &Vec<Peer>, addr: &str) -> (r: Option<usize>)
    ensures
        match r {
            Some(i) => i == addr_index(devices(v@), addr@) && i < v@.len() && has_addr(
                devices(v@),
                addr@,
            ) && v@[i as int].addr@ == addr@,
            None => !has_addr(devices(v@), addr@) && addr_index(devices(v@), addr@) == v@.len(),
        },
{
    let ghost s = devices(v@);
    let mut i: usize = 0;
    assert(s.skip(0) =~= s);
    while i < v.len()
        invariant
            i <= v@.len(),
            s == devices(v@),
            addr_index(s, addr@) == i + addr_index(s.skip(i as int), addr@),
        decreases v@.len() - i,
    {
        proof {
            assert(s.skip(i as int)[0] == v@[i as int]@);
            assert(s.skip(i as int).drop_first() =~= s.skip(i + 1));
            lemma_addr_index(s, addr@);
        }
        if text::same_text(v[i].addr.as_str(), addr) {
            return Some(i);
        }
        i = i + 1;
    }
    proof {
        lemma_addr_index(s, addr@);
    }
    None
}

// ---- asking who is there ----

/// Whether a message asks who is there.
pub open spec fn asks(msg: Seq<char>) -> bool {
    text::starts_with(text::trim_char(msg, '\0'), DISCOVER_MSG@)
}

/// Whether a message asks who is there.
pub fn is_question(msg: &str) -> (r: bool)
    ensures
        r == asks(msg@),
{
    let v: Vec<char> = text::chars_of(msg);
    let t: Vec<char> = text::trim_char_ends(&v, '\0');
    text::has_prefix(&t, DISCOVER_MSG)
}

/// Whether a datagram asks who is there.
pub fn is_discovery(data: &[u8]) -> (r: bool)
    ensures
        r == asks(bytes::utf8_lossy(data@)),
        vstd::utf8::valid_utf8(data@) ==> r == asks(vstd::utf8::decode_utf8(data@)),
{
    let msg: String = bytes::lossy_text(data);
    is_question(msg.as_str())
}

/// The answer of the device `name`.
pub fn announcement(name: &str) -> (r: String)
    ensures
        r@ == PEER_PREFIX@ + name@,
{
    let mut s: String = PEER_PREFIX.to_string();
    s.append(name);
    s
}

/// The name in an answer.
pub open spec fn name_in(msg: Seq<char>) -> Option<Seq<char>> {
    match text::strip_prefix(msg, PEER_PREFIX@) {
        Some(n) => Some(text::trim(n)),
        None => None,
    }
}

/// The name in an answer.
pub fn peer_name_in(msg: &str) -> (r: Option<String>)
    ensures
        match r {
            Some(n) => name_in(msg@) == Some(n@),
            None => name_in(msg@) is None,
        },
{
    let v: Vec<char> = text::chars_of(msg);
    match text::after_prefix(&v, PEER_PREFIX) {
        Some(n) => {
            let n: Vec<char> = text::trim_chars(&n);
            Some(text::string_of(&n))
        },
        None => None,
    }
}

/// The devices that have answered, after one more message from `addr`: an answer of a device that
/// has not answered before goes to the end.
pub open spec fn answered(found: Seq<Device>, msg: Seq<char>, addr: Seq<char>) -> Seq<Device> {
    match name_in(msg) {
        Some(name) => if has_addr(found, addr) {
            found
        } else {
            found.push(Device { name, addr, kind: PeerKind::Local, latency: None })
        },
        None => found,
    }
}

/// Takes a message from `addr` while devices are looked for.
pub fn take_message(found: &mut Vec<Peer>, msg: &str, addr: &str)
    ensures
        devices(final(found)@) == answered(devices(old(found)@), msg@, addr@),
{
    match peer_name_in(msg) {
        Some(name) => if find_addr(found, addr).is_none() {
            let ghost before = devices(found@);
            let p: Peer = Peer {
                name,
                addr: addr.to_string(),
                kind: PeerKind::Local,
                latency: None,
            };
            found.push(p);
            assert(devices(found@) =~= before.push(p@));
        },
        None => {},
    }
}

/// Takes a datagram from `addr` while devices are looked for.
pub fn take_answer(found: &mut Vec<Peer>, data: &[u8], addr: &str)
    ensures
        devices(final(found)@) == answered(
            devices(old(found)@),
            bytes::utf8_lossy(data@),
            addr@,
        ),
        vstd::utf8::valid_utf8(data@) ==> devices(final(found)@) == answered(
            devices(old(found)@),
            vstd::utf8::decode_utf8(data@),
            addr@,
        ),
{
    let msg: String = bytes::lossy_text(data);
    take_message(found, msg.as_str(), addr);
}

/// A device is found under its name, without the white space around it.
pub proof fn announcements_are_understood(name: Seq<char>)
    ensures
        name_in(PEER_PREFIX@ + name) == Some(text::trim(name)),
{
    let msg = PEER_PREFIX@ + name;
    assert(msg.take(PEER_PREFIX@.len() as int) =~= PEER_PREFIX@);
    assert(msg.skip(PEER_PREFIX@.len() as int) =~= name);
}

/// The question is understood, and an answer is not taken for a question.
pub proof fn questions_are_understood(name: Seq<char>)
    ensures
        asks(DISCOVER_MSG@),
        !asks(PEER_PREFIX@ + name),
{
    reveal_strlit("RFSHARE_DISCOVER");
    reveal_strlit("RFSHARE_PEER:");
    let q = DISCOVER_MSG@;
    assert(text::trim_start_char(q, '\0') == q);
    assert(text::trim_end_char(q, '\0') == q);
    assert(q.take(q.len() as int) =~= q);
    let a = PEER_PREFIX@ + name;
    assert(text::trim_start_char(a, '\0') == a);
    let t = text::trim_end_char(a, '\0');
    lemma_trim_end_prefix(a, '\0');
    if text::starts_with(t, q) {
        assert(t.take(q.len() as int)[8] == q[8]);
        assert(t[8] == a[8]);
        assert(a[8] == PEER_PREFIX@[8]);
    }
}

proof fn lemma_trim_end_prefix(s: Seq<char>, c: char)
    ensures
        text::trim_end_char(s, c).len() <= s.len(),
        forall|i: int|
            0 <= i < text::trim_end_char(s, c).len() ==> #[trigger] text::trim_end_char(s, c)[i]
                == s[i],
    decreases s.len(),
{
    if s.len() > 0 && s.last() == c {
        lemma_trim_end_prefix(s.drop_last(), c);
    }
}

/// No device is found twice.
pub proof fn devices_are_found_once(found: Seq<Device>, msg: Seq<char>, addr: Seq<char>)
    requires
        distinct_addrs(found),
    ensures
        distinct_addrs(answered(found, msg, addr)),
{
}

// ---- what the calls give ----

/// The first device with an address is found, where there is one.
pub proof fn addresses_are_found(v: &Vec<Peer>, addr: &str, r: Option<usize>)
    requires
        call_ensures(find_addr, (v, addr), r),
    ensures
        r is Some <==> exists|i: int| 0 <= i < v@.len() && (#[trigger] v@[i]).addr@ == addr@,
        r matches Some(n) ==> n < v@.len() && v@[n as int].addr@ == addr@ && forall|i: int|
            0 <= i < n ==> (#[trigger] v@[i]).addr@ != addr@,
{
    let s = devices(v@);
    lemma_addr_index(s, addr@);
    if r is Some {
        let n = r->0 as int;
        assert forall|i: int| 0 <= i < n implies (#[trigger] v@[i]).addr@ != addr@ by {
            assert(s[i].addr != addr@);
        }
    } else {
        assert forall|i: int| 0 <= i < v@.len() implies (#[trigger] v@[i]).addr@ != addr@ by {
            assert(s[i].addr != addr@);
        }
    }
}

/// A device that announces itself is found under its name and the address that the message came
/// from, once. What was found before stays, and stands before it.
pub proof fn devices_that_answer_are_found(
    found: &mut Vec<Peer>,
    name: &str,
    answer: String,
    msg: &str,
    addr: &str,
)
    requires
        call_ensures(announcement, (name,), answer),
        msg@ == answer@,
        call_ensures(take_message, (found, msg, addr), ()),
    ensures
        final(found)@.len() == old(found)@.len() + if exists|i: int|
            0 <= i < old(found)@.len() && (#[trigger] old(found)@[i]).addr@ == addr@ {
            0int
        } else {
            1int
        },
        forall|i: int|
            0 <= i < old(found)@.len() ==> (#[trigger] final(found)@[i])@ == old(found)@[i]@,
        final(found)@.len() > old(found)@.len() ==> {
            let p = final(found)@.last();
            &&& p.name@ == text::trim(name@)
            &&& p.addr@ == addr@
            &&& p.kind is Local
            &&& p.latency is None
        },
{
    announcements_are_understood(name@);
    let s = devices(old(found)@);
    let t = devices(final(found)@);
    assert(t.len() == final(found)@.len());
    assert forall|i: int| 0 <= i < s.len() implies (#[trigger] final(found)@[i])@ == old(found)@[i]@ by {
        assert(t[i] == s[i]);
    }
    if has_addr(s, addr@) {
        let i = choose|i: int| 0 <= i < s.len() && (#[trigger] s[i]).addr == addr@;
        assert(old(found)@[i].addr@ == addr@);
    } else {
        assert forall|i: int| 0 <= i < s.len() implies (#[trigger] old(found)@[i]).addr@ != addr@ by {
            assert(s[i].addr != addr@);
        }
        assert(t[s.len() as int] == final(found)@[s.len() as int]@);
    }
}

/// A message that is no answer changes nothing.
pub proof fn other_messages_are_ignored(found: &mut Vec<Peer>, msg: &str, addr: &str)
    requires
        call_ensures(take_message, (found, msg, addr), ()),
        !text::starts_with(msg@, "RFSHARE_PEER:"@),
    ensures
        devices(final(found)@) == devices(old(found)@),
{
}

proof fn lemma_trim_behind(q: Seq<char>, rest: Seq<char>, c: char)
    requires
        q.len() > 0,
        q.last() != c,
    ensures
        text::trim_end_char(q + rest, c).len() >= q.len(),
        text::trim_end_char(q + rest, c).take(q.len() as int) == q,
    decreases rest.len(),
{
    let s = q + rest;
    if rest.len() > 0 && s.last() == c {
        assert(s.drop_last() =~= q + rest.drop_last());
        lemma_trim_behind(q, rest.drop_last(), c);
    } else {
        if rest.len() == 0 {
            assert(s =~= q);
        }
        assert(s.take(q.len() as int) =~= q);
    }
}

/// Whatever stands behind the question, it is understood.
pub proof fn questions_may_go_on(msg: &str, rest: Seq<char>, r: bool)
    requires
        call_ensures(is_question, (msg,), r),
        msg@ == "RFSHARE_DISCOVER"@ + rest,
    ensures
        r,
{
    reveal_strlit("RFSHARE_DISCOVER");
    let q = DISCOVER_MSG@;
    assert(msg@[0] == 'R');
    assert(text::trim_start_char(msg@, '\0') == msg@);
    assert(q.last() == 'R');
    lemma_trim_behind(q, rest, '\0');
}

/// What begins with neither the question nor zeros is no question.
pub proof fn other_messages_are_no_questions(msg: &str, r: bool)
    requires
        call_ensures(is_question, (msg,), r),
        msg@.len() == 0 || (msg@[0] != 'R' && msg@[0] != '\0'),
    ensures
        !r,
{
    reveal_strlit("RFSHARE_DISCOVER");
    assert(text::trim_start_char(msg@, '\0') == msg@);
    lemma_trim_end_prefix(msg@, '\0');
    let t = text::trim_end_char(msg@, '\0');
    if text::starts_with(t, DISCOVER_MSG@) {
        assert(t.take(DISCOVER_MSG@.len() as int)[0] == t[0]);
        assert(t[0] == msg@[0]);
    }
}

} // verus!
