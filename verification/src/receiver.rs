//! The receiving side of a transfer, one read at a time.
//!
//! Once the key is agreed on, a [`Receiver`] says how many bytes it wants next and what is to be
//! done with those it got.
use vstd::prelude::*;

use crate::bytes;
use crate::offer;
use crate::offer::{Offer, RawOffer};
use crate::paths;
use crate::paths::Style;
use crate::text;
use crate::transfer;
use crate::transfer::{TransferError, MAGIC_DATA, MAGIC_DONE, MAGIC_RESUME, MAGIC_SKIP};

verus! {

/// What a receiver waits for.
#[derive(Clone, Copy, Debug, PartialEq, Eq, Structural)]
pub enum Phase {
    /// The length of the packet that holds the offer.
    OfferLength,
    /// The chunk of that length that holds the offer.
    Offer(usize),
    /// The decision what to do with the offered file.
    Decision,
    /// The byte that says what comes next.
    Tag,
    /// The length of a packet of the file.
    DataLength,
    /// The chunk of that length that holds a part of the file.
    Data(usize),
    /// Nothing: the transfer is over.
    Over,
}

/// What is to be done with the bytes that a receiver got.
pub enum Received {
    /// Nothing but to read on.
    More,
    /// A file is offered: decide what to do with it.
    Offered(RawOffer),
    /// Append this part of the file to the destination.
    Part(Vec<u8>),
    /// The file is complete.
    Complete,
}

/// What is known of the file that stands where an offered one is to go.
#[derive(Clone, Copy, Debug, PartialEq, Eq, Structural)]
pub struct Existing {
    /// The time of its last change, in seconds since the epoch.
    pub mtime: u64,
    /// Its length in bytes.
    pub len: u64,
}

/// What to do with an offered file.
#[derive(Clone, Copy, Debug, PartialEq, Eq, Structural)]
pub enum Decision {
    /// The file that is there is no older: take nothing.
    Skip,
    /// Write the file from its start, in place of what is there.
    Replace,
    /// Append to the part of the file that is there, which is of this length.
    Resume(u64),
    /// Write the file from its start, under a name that is free.
    Rename,
}

/// The receiving side of a transfer.
pub struct Receiver {
    pub phase: Phase,
    pub key: [u8; 32],
    /// The size of the offered file.
    pub size: u64,
    /// How much of it is there.
    pub received: u64,
}

// ---- decisions ----

/// What to do with an offered file, by the sender's time of its last change, its size and what is
/// known of the file in its place.
pub open spec fn decision(mtime: Option<u64>, size: u64, existing: Option<Existing>) -> Decision {
    match mtime {
        Some(t) => match existing {
            Some(e) => if e.mtime >= t {
                Decision::Skip
            } else {
                Decision::Replace
            },
            None => Decision::Replace,
        },
        None => {
            let present = match existing {
                Some(e) => e.len,
                None => 0,
            };
            if present >= size && size > 0 {
                Decision::Rename
            } else if present > 0 {
                Decision::Resume(present)
            } else {
                Decision::Replace
            }
        },
    }
}

/// What to do with an offered file.
pub fn decide(mtime: Option<u64>, size: u64, existing: Option<Existing>) -> (r: Decision)
    ensures
        r == decision(mtime, size, existing),
{
    match mtime {
        Some(t) => match existing {
            Some(e) => if e.mtime >= t {
                Decision::Skip
            } else {
                Decision::Replace
            },
            None => Decision::Replace,
        },
        None => {
            let present: u64 = match existing {
                Some(e) => e.len,
                None => 0,
            };
            if present >= size && size > 0 {
                Decision::Rename
            } else if present > 0 {
                Decision::Resume(present)
            } else {
                Decision::Replace
            }
        },
    }
}

impl Decision {
    /// From where on the file is wanted.
    pub open spec fn offset(self) -> u64 {
        match self {
            Decision::Resume(n) => n,
            _ => 0,
        }
    }

    /// From where on the file is wanted.
    pub fn start(self) -> (r: u64)
        ensures
            r == self.offset(),
    {
        match self {
            Decision::Resume(n) => n,
            _ => 0,
        }
    }
}

/// Where an offered file goes.
pub struct Place {
    pub path: String,
    /// The name under which the file was offered, without what is not of its last part.
    pub name: String,
    pub decision: Decision,
    /// Whether the file that is there is to be removed before.
    pub remove: bool,
}

impl Place {
    /// Whether this is where an offered file goes: under the last part of its name in `dir`, or,
    /// where it is to get another name, under a free one.
    pub open spec fn is_for<F: Fn(&str) -> bool>(
        self,
        offer: Offer,
        dir: Seq<char>,
        style: Style,
        via_relay: bool,
        existing: Option<Existing>,
        taken: F,
    ) -> bool {
        &&& paths::plain_name(offer.name@, style) == Some(self.name@)
        &&& self.decision == if via_relay {
            Decision::Rename
        } else {
            decision(offer.mtime, offer.size, existing)
        }
        &&& if self.decision is Rename {
            paths::is_unique_path(self.path@, dir, self.name@, style, taken)
        } else {
            self.path@ == paths::join(dir, self.name@, style)
        }
        &&& self.remove == (self.decision is Replace && offer.mtime is Some && existing is Some)
    }
}

/// Where an offered file goes in the directory `dir`, by what is known of the file of its name
/// there. Of the offered name only the last part is used, and a name without one is refused. A file
/// that comes through the relay gets a name that is free; `taken` says whether a path exists.
pub fn place<F: Fn(&str) -> bool>(
    offer: &Offer,
    dir: &str,
    style: Style,
    via_relay: bool,
    existing: Option<Existing>,
    taken: F,
) -> (r: Result<Place, TransferError>)
    requires
        forall|s: &str| call_requires(taken, (s,)),
    ensures
        match r {
            Ok(p) => p.is_for(*offer, dir@, style, via_relay, existing, taken),
            Err(e) => e == TransferError::UnusableName && paths::plain_name(offer.name@, style) is None,
        },
{
    let name: String = match paths::plain_name_of(offer.name.as_str(), style) {
        Some(n) => n,
        None => {
            return Err(TransferError::UnusableName);
        },
    };
    let decision: Decision = if via_relay {
        Decision::Rename
    } else {
        decide(offer.mtime, offer.size, existing)
    };
    match decision {
        Decision::Rename => {
            let path: String = paths::unique_path(dir, name.as_str(), style, taken);
            Ok(Place { path, name, decision, remove: false })
        },
        _ => {
            let path: String = paths::joined(dir, name.as_str(), style);
            let remove: bool = decision == Decision::Replace && offer.mtime.is_some()
                && existing.is_some();
            Ok(Place { path, name, decision, remove })
        },
    }
}

/// A received file goes into the directory, whatever name it was offered under: its path begins with
/// the directory, and no separator follows but the one between them.
pub proof fn received_files_stay_in_the_directory<F: Fn(&str) -> bool>(
    p: Place,
    offer: Offer,
    dir: Seq<char>,
    style: Style,
    via_relay: bool,
    existing: Option<Existing>,
    taken: F,
)
    requires
        p.is_for(offer, dir, style, via_relay, existing, taken),
    ensures
        paths::lies_in(p.path@, dir, style),
        text::starts_with(p.path@, dir),
        p.path@.len() > dir.len(),
        forall|i: int|
            dir.len() < i < p.path@.len() ==> !paths::is_separator(#[trigger] p.path@[i], style),
{
    if p.decision is Rename {
        paths::unique_paths_lie_in_the_directory(p.path@, dir, p.name@, style, taken);
    }
    paths::nothing_leaves_the_directory(p.path@, dir, style);
}

/// A file that is offered under a plain name gets that name.
pub proof fn plain_names_are_kept<F: Fn(&str) -> bool>(
    p: Place,
    offer: Offer,
    dir: Seq<char>,
    style: Style,
    via_relay: bool,
    existing: Option<Existing>,
    taken: F,
)
    requires
        paths::is_plain(offer.name@, style),
        p.is_for(offer, dir, style, via_relay, existing, taken),
    ensures
        p.name@ == offer.name@,
{
    paths::plain_names_stay(offer.name@, style);
}

/// A synchronised file is never taken where the one in its place is as new.
pub proof fn synchronisation_keeps_newer_files(t: u64, size: u64, e: Existing)
    ensures
        decision(Some(t), size, Some(e)) is Skip <==> e.mtime >= t,
        decision(Some(t), size, Some(e)).offset() == 0,
{
}

/// A file that is not synchronised is never overwritten where some of it is there: the rest is
/// appended, or all of it goes under another name.
pub proof fn plain_transfers_overwrite_nothing(size: u64, e: Existing)
    requires
        e.len > 0,
    ensures
        decision(None, size, Some(e)) == if e.len >= size && size > 0 {
            Decision::Rename
        } else {
            Decision::Resume(e.len)
        },
{
}

// ---- the protocol ----

/// The state of a receiver.
pub struct State {
    pub phase: Phase,
    pub key: Seq<u8>,
    pub size: u64,
    pub received: nat,
}

/// What is to be done, over the contents.
pub enum Outcome {
    More,
    Offered(Seq<u8>),
    Part(Seq<u8>),
    Complete,
}

impl View for Receiver {
    type V = State;

    open spec fn view(&self) -> State {
        State {
            phase: self.phase,
            key: self.key@,
            size: self.size,
            received: self.received as nat,
        }
    }
}

impl Received {
    /// Whether this is the outcome `o`.
    pub open spec fn is(self, o: Outcome) -> bool {
        match (self, o) {
            (Received::More, Outcome::More) => true,
            (Received::Offered(raw), Outcome::Offered(b)) => raw.stands_in(b),
            (Received::Part(p), Outcome::Part(b)) => p@ == b,
            (Received::Complete, Outcome::Complete) => true,
            _ => false,
        }
    }
}

/// How many bytes are wanted next; none where no bytes are waited for.
pub open spec fn wants(phase: Phase) -> nat {
    match phase {
        Phase::OfferLength => 4,
        Phase::Offer(n) => n as nat,
        Phase::Tag => 1,
        Phase::DataLength => 4,
        Phase::Data(n) => n as nat,
        Phase::Decision => 0,
        Phase::Over => 0,
    }
}

/// Whether a receiver in this phase waits for bytes.
pub open spec fn reads(phase: Phase) -> bool {
    phase !is Decision && phase !is Over
}

/// What a receiver does with the bytes it wanted.
pub open spec fn step(s: State, data: Seq<u8>) -> Result<(State, Outcome), TransferError> {
    match s.phase {
        Phase::OfferLength => match transfer::packet_len(data) {
            Ok(n) => Ok((State { phase: Phase::Offer(n as usize), ..s }, Outcome::More)),
            Err(e) => Err(e),
        },
        Phase::Offer(_) => match transfer::packet_contents(s.key, data) {
            Ok(o) => match offer::offer_error(o) {
                Some(e) => Err(e),
                None => Ok(
                    (
                        State {
                            phase: Phase::Decision,
                            size: offer::offered_size(o) as u64,
                            ..s
                        },
                        Outcome::Offered(o),
                    ),
                ),
            },
            Err(e) => Err(e),
        },
        Phase::Tag => if data[0] == MAGIC_DATA {
            Ok((State { phase: Phase::DataLength, ..s }, Outcome::More))
        } else if data[0] == MAGIC_DONE {
            if s.received == s.size {
                Ok((State { phase: Phase::Over, ..s }, Outcome::Complete))
            } else {
                Err(
                    TransferError::SizeMismatch {
                        expected: s.size,
                        received: s.received as u64,
                    },
                )
            }
        } else {
            Err(TransferError::UnknownPacket(data[0]))
        },
        Phase::DataLength => match transfer::packet_len(data) {
            Ok(n) => Ok((State { phase: Phase::Data(n as usize), ..s }, Outcome::More)),
            Err(e) => Err(e),
        },
        Phase::Data(_) => match transfer::packet_contents(s.key, data) {
            Ok(p) => Ok(
                (
                    State { phase: Phase::Tag, received: s.received + p.len(), ..s },
                    Outcome::Part(p),
                ),
            ),
            Err(e) => Err(e),
        },
        Phase::Decision => Ok((s, Outcome::More)),
        Phase::Over => Ok((s, Outcome::More)),
    }
}

/// Whether `reply` answers an offer with `d`: that the file is not wanted, or from where on it is.
pub open spec fn is_reply(reply: Seq<u8>, key: Seq<u8>, d: Decision) -> bool {
    match d {
        Decision::Skip => reply == seq![MAGIC_SKIP],
        _ => reply.len() > 0 && reply[0] == MAGIC_RESUME && transfer::is_packet_of(
            reply.skip(1),
            key,
            bytes::le_bytes(d.offset() as nat, 8),
        ),
    }
}

impl Receiver {
    /// A receiver that waits for an offer under `key`.
    pub fn new(key: [u8; 32]) -> (r: Receiver)
        ensures
            r@ == (State { phase: Phase::OfferLength, key: key@, size: 0, received: 0 }),
    {
        Receiver { phase: Phase::OfferLength, key, size: 0, received: 0 }
    }

    /// How many bytes to read next; `None` where none are waited for.
    pub fn wanted(&self) -> (r: Option<usize>)
        ensures
            r == (if reads(self.phase) {
                Some(wants(self.phase) as usize)
            } else {
                None
            }),
    {
        match self.phase {
            Phase::OfferLength => Some(4),
            Phase::Offer(n) => Some(n),
            Phase::Tag => Some(1),
            Phase::DataLength => Some(4),
            Phase::Data(n) => Some(n),
            Phase::Decision => None,
            Phase::Over => None,
        }
    }

    /// Takes the bytes that were wanted.
    pub fn take(&mut self, data: &[u8]) -> (r: Result<Received, TransferError>)
        requires
            reads(old(self).phase),
            data@.len() == wants(old(self).phase),
            old(self).phase is Data ==> old(self).received + data@.len() <= u64::MAX,
        ensures
            match r {
                Ok(a) => step(old(self)@, data@) matches Ok((s, o)) && final(self)@ == s && a.is(
                    o,
                ),
                Err(e) => step(old(self)@, data@) == Err::<(State, Outcome), TransferError>(e)
                    && final(self)@ == old(self)@,
            },
    {
        match self.phase {
            Phase::OfferLength => match transfer::packet_length(data) {
                Ok(n) => {
                    self.phase = Phase::Offer(n);
                    Ok(Received::More)
                },
                Err(e) => Err(e),
            },
            Phase::Offer(_) => {
                let o: Vec<u8> = match transfer::read_encrypted(&self.key, data) {
                    Ok(o) => o,
                    Err(e) => {
                        return Err(e);
                    },
                };
                match offer::parse_offer(o.as_slice()) {
                    Ok(raw) => {
                        self.phase = Phase::Decision;
                        self.size = raw.size;
                        Ok(Received::Offered(raw))
                    },
                    Err(e) => Err(e),
                }
            },
            Phase::Tag => if data[0] == MAGIC_DATA {
                self.phase = Phase::DataLength;
                Ok(Received::More)
            } else if data[0] == MAGIC_DONE {
                if self.received == self.size {
                    self.phase = Phase::Over;
                    Ok(Received::Complete)
                } else {
                    Err(
                        TransferError::SizeMismatch {
                            expected: self.size,
                            received: self.received,
                        },
                    )
                }
            } else {
                Err(TransferError::UnknownPacket(data[0]))
            },
            Phase::DataLength => match transfer::packet_length(data) {
                Ok(n) => {
                    self.phase = Phase::Data(n);
                    Ok(Received::More)
                },
                Err(e) => Err(e),
            },
            Phase::Data(_) => match transfer::read_encrypted(&self.key, data) {
                Ok(p) => {
                    self.phase = Phase::Tag;
                    self.received = self.received + p.len() as u64;
                    Ok(Received::Part(p))
                },
                Err(e) => Err(e),
            },
            Phase::Decision => Ok(Received::More),
            Phase::Over => Ok(Received::More),
        }
    }

    /// Answers the offer with `d`, and waits for the file from there on.
    pub fn answer(&mut self, d: Decision) -> (r: Result<Vec<u8>, TransferError>)
        requires
            old(self).phase is Decision,
        ensures
            r matches Ok(reply) && is_reply(reply@, old(self).key@, d) && final(self)@ == (State {
                phase: if d is Skip {
                    Phase::Over
                } else {
                    Phase::Tag
                },
                received: d.offset() as nat,
                ..old(self)@
            }),
    {
        let offset: u64 = match d {
            Decision::Skip => {
                self.phase = Phase::Over;
                self.received = 0;
                let mut reply: Vec<u8> = Vec::new();
                reply.push(MAGIC_SKIP);
                assert(reply@ =~= seq![MAGIC_SKIP]);
                return Ok(reply);
            },
            Decision::Resume(n) => n,
            _ => 0,
        };
        let mut payload: Vec<u8> = Vec::new();
        bytes::push_le(&mut payload, offset, 8);
        proof {
            assert(payload@ =~= bytes::le_bytes(offset as nat, 8));
            bytes::lemma_le_bytes_len(offset as nat, 8);
        }
        match transfer::write_encrypted(&self.key, payload.as_slice()) {
            Ok(packet) => {
                let mut reply: Vec<u8> = Vec::new();
                reply.push(MAGIC_RESUME);
                reply.extend_from_slice(packet.as_slice());
                assert(reply@.skip(1) =~= packet@);
                self.phase = Phase::Tag;
                self.received = offset;
                Ok(reply)
            },
            Err(e) => Err(e),
        }
    }
}

// ---- what the calls give ----

/// A synchronised file is skipped where the one in its place is as new, and else goes in its place:
/// it never gets another name, whatever the sizes are.
pub proof fn synchronised_files_keep_their_names(
    t: u64,
    size: u64,
    existing: Option<Existing>,
    r: Decision,
)
    requires
        call_ensures(decide, (Some(t), size, existing), r),
    ensures
        r is Skip || r is Replace,
        r is Skip <==> (existing matches Some(e) && e.mtime >= t),
{
}

/// A file that is not synchronised is never skipped: the rest is asked for where its start is there,
/// it gets another name where all of it may be there, and it is written anew where nothing is.
pub proof fn plain_files_are_completed(size: u64, existing: Option<Existing>, r: Decision)
    requires
        call_ensures(decide, (None::<u64>, size, existing), r),
    ensures
        existing is None ==> r is Replace,
        existing matches Some(e) ==> {
            &&& e.len == 0 ==> r is Replace
            &&& 0 < e.len && (e.len < size || size == 0) ==> r == Decision::Resume(e.len)
            &&& 0 < size <= e.len ==> r is Rename
        },
{
}

/// Only a file that is resumed is wanted from another byte on than its first.
pub proof fn files_are_wanted_from_where_they_stop(d: Decision, r: u64)
    requires
        call_ensures(Decision::start, (d,), r),
    ensures
        d matches Decision::Resume(n) ==> r == n,
        d !is Resume ==> r == 0,
{
}

/// A synchronised file goes where its name says, in place of an older one that is removed before.
pub proof fn synchronised_files_replace_older_ones<F: Fn(&str) -> bool>(
    offer: &Offer,
    dir: &str,
    style: Style,
    existing: Option<Existing>,
    taken: F,
    r: Result<Place, TransferError>,
)
    requires
        call_ensures(place::<F>, (offer, dir, style, false, existing, taken), r),
        offer.mtime is Some,
        paths::is_plain(offer.name@, style),
    ensures
        r matches Ok(p) && {
            let older = existing matches Some(e) && e.mtime < offer.mtime->0;
            &&& p.path@ == paths::join(dir@, offer.name@, style)
            &&& p.name@ == offer.name@
            &&& p.decision is Skip <==> existing is Some && !older
            &&& p.decision !is Skip ==> p.decision is Replace
            &&& p.remove == older
        },
{
    paths::plain_names_stay(offer.name@, style);
}

/// A file that is not synchronised removes none, and goes under its own name but where it is to get
/// another one; then, and through the relay always, it goes under the first name that is free.
pub proof fn plain_files_remove_none<F: Fn(&str) -> bool>(
    offer: &Offer,
    dir: &str,
    style: Style,
    via_relay: bool,
    existing: Option<Existing>,
    taken: F,
    r: Result<Place, TransferError>,
)
    requires
        call_ensures(place::<F>, (offer, dir, style, via_relay, existing, taken), r),
        offer.mtime is None || via_relay,
        paths::is_plain(offer.name@, style),
    ensures
        r matches Ok(p) && {
            let all = existing matches Some(e) && 0 < offer.size <= e.len;
            &&& p.name@ == offer.name@
            &&& !p.remove
            &&& p.decision is Rename <==> via_relay || all
            &&& p.decision !is Rename ==> p.path@ == paths::join(dir@, offer.name@, style)
            &&& p.decision is Rename ==> paths::is_unique_path(
                p.path@,
                dir@,
                offer.name@,
                style,
                taken,
            )
        },
{
    paths::plain_names_stay(offer.name@, style);
}

/// A file is complete if and only if as many bytes have come as were offered; what is neither a part
/// of the file nor its end is refused.
pub proof fn only_whole_files_are_complete(
    s: &mut Receiver,
    data: &[u8],
    r: Result<Received, TransferError>,
)
    requires
        call_ensures(Receiver::take, (s, data), r),
        old(s).phase is Tag,
        data@.len() == 1,
    ensures
        data@[0] == 0x04 && old(s).received == old(s).size ==> r is Ok && r->Ok_0 is Complete
            && final(s).phase is Over,
        data@[0] == 0x04 && old(s).received != old(s).size ==> r is Err && r->Err_0
            == (TransferError::SizeMismatch {
            expected: old(s).size,
            received: old(s).received,
        }),
        data@[0] == 0x03 ==> r is Ok && r->Ok_0 is More && final(s).phase is DataLength,
        data@[0] != 0x03 && data@[0] != 0x04 ==> r is Err && r->Err_0
            == TransferError::UnknownPacket(data@[0]),
        final(s).key@ == old(s).key@,
        final(s).size == old(s).size,
        final(s).received == old(s).received,
{
}

/// A part of the file is handed on as it was encrypted, and its bytes are counted.
pub proof fn parts_are_handed_on(
    s: &mut Receiver,
    data: &[u8],
    part: Seq<u8>,
    r: Result<Received, TransferError>,
)
    requires
        call_ensures(Receiver::take, (s, data), r),
        old(s).phase is Data,
        crate::crypto::is_chunk_of(data@, old(s).key@, part),
    ensures
        r matches Ok(Received::Part(p)) && p@ == part,
        final(s).phase is Tag,
        final(s).received == old(s).received + part.len(),
        final(s).key@ == old(s).key@,
        final(s).size == old(s).size,
{
}

/// The length of a packet is kept to its limit, and as many bytes are then waited for.
pub proof fn packets_are_waited_for(
    s: &mut Receiver,
    data: &[u8],
    r: Result<Received, TransferError>,
)
    requires
        call_ensures(Receiver::take, (s, data), r),
        old(s).phase is OfferLength || old(s).phase is DataLength,
        data@.len() == 4,
    ensures
        ({
            let n = data@[0] + 256 * data@[1] + 65536 * data@[2] + 16777216 * data@[3];
            &&& n > 262236 ==> r is Err && r->Err_0 == TransferError::PacketTooLarge(n as u64)
            &&& n <= 262236 ==> r is Ok && r->Ok_0 is More && if old(s).phase is DataLength {
                final(s).phase == Phase::Data(n as usize)
            } else {
                final(s).phase == Phase::Offer(n as usize)
            }
        }),
        final(s).key@ == old(s).key@,
        final(s).size == old(s).size,
        final(s).received == old(s).received,
{
    bytes::four_bytes_make_a_number(data@);
}

/// A receiver asks for as many bytes as it can use, and for none while a decision is due or once it
/// is done.
pub proof fn as_many_bytes_as_are_wanted(s: &Receiver, r: Option<usize>)
    requires
        call_ensures(Receiver::wanted, (s,), r),
    ensures
        s.phase is OfferLength || s.phase is DataLength ==> r == Some(4usize),
        s.phase is Tag ==> r == Some(1usize),
        s.phase matches Phase::Offer(n) ==> r == Some(n),
        s.phase matches Phase::Data(n) ==> r == Some(n),
        s.phase is Decision || s.phase is Over ==> r is None,
{
}

/// The answer to an offer says that no file is wanted, or from which byte on it is, and the receiver
/// then counts from there.
pub proof fn offers_are_answered(
    s: &mut Receiver,
    d: Decision,
    r: Result<Vec<u8>, TransferError>,
)
    requires
        call_ensures(Receiver::answer, (s, d), r),
    ensures
        r is Ok,
        d is Skip ==> r->Ok_0@ == seq![0x05u8] && final(s).phase is Over,
        d !is Skip ==> {
            let offset: u64 = match d {
                Decision::Resume(n) => n,
                _ => 0,
            };
            &&& r->Ok_0@.len() > 0 && r->Ok_0@[0] == 0x02
            &&& transfer::is_packet_of(
                r->Ok_0@.skip(1),
                old(s).key@,
                bytes::le_bytes(offset as nat, 8),
            )
            &&& final(s).phase is Tag
            &&& final(s).received == offset
        },
        final(s).key@ == old(s).key@,
        final(s).size == old(s).size,
{
}

/// An offer that arrives as it was encrypted is told as it was made, and its size is what is waited
/// for.
pub proof fn offers_are_told(
    s: &mut Receiver,
    data: &[u8],
    name: Seq<char>,
    size: u64,
    host: Seq<char>,
    mtime: Option<u64>,
    r: Result<Received, TransferError>,
)
    requires
        call_ensures(Receiver::take, (s, data), r),
        old(s).phase is Offer,
        crate::crypto::is_chunk_of(
            data@,
            old(s).key@,
            offer::offer_bytes(name, size as nat, host, mtime),
        ),
        1 <= vstd::utf8::encode_utf8(name).len() <= 4096,
        size <= 8589934592,
        1 <= vstd::utf8::encode_utf8(host).len() <= 256,
    ensures
        r matches Ok(Received::Offered(raw)) && {
            &&& raw.name@ == vstd::utf8::encode_utf8(name)
            &&& raw.size == size
            &&& raw.host matches Some(h) && h@ == vstd::utf8::encode_utf8(host)
            &&& raw.mtime == mtime
        },
        final(s).phase is Decision,
        final(s).size == size,
        final(s).received == old(s).received,
        final(s).key@ == old(s).key@,
{
    offer::lemma_offer_fields(name, size as nat, host, mtime);
}

/// A receiver begins with the length of an offer, under its key.
pub proof fn receivers_begin_with_an_offer(key: [u8; 32], s: Receiver, n: Option<usize>)
    requires
        call_ensures(Receiver::new, (key,), s),
        call_ensures(Receiver::wanted, (&s,), n),
    ensures
        s.phase is OfferLength,
        s.key@ == key@,
        s.received == 0,
        n == Some(4usize),
{
}

/// Of an offered path only the last part is used: the file goes into the directory, wherever the path
/// leads. A name that names nothing is refused.
pub proof fn offered_paths_are_cut<F: Fn(&str) -> bool>(
    offer: &Offer,
    dir: &str,
    via_relay: bool,
    existing: Option<Existing>,
    taken: F,
    before: Seq<char>,
    name: Seq<char>,
    r: Result<Place, TransferError>,
)
    requires
        call_ensures(place::<F>, (offer, dir, Style::Unix, via_relay, existing, taken), r),
        (offer.name@ == before.push('/') + name && paths::is_plain(name, Style::Unix))
            || offer.name@ == ".."@ || offer.name@.len() == 0,
    ensures
        offer.name@ == ".."@ || offer.name@.len() == 0 ==> r == Err::<Place, TransferError>(
            TransferError::UnusableName,
        ),
        offer.name@ == before.push('/') + name && paths::is_plain(name, Style::Unix) ==> r is Ok
            && r->Ok_0.name@ == name && (r->Ok_0.decision !is Rename ==> r->Ok_0.path@
            == paths::join(dir@, name, Style::Unix)),
{
    if offer.name@ == before.push('/') + name && paths::is_plain(name, Style::Unix) {
        paths::names_end_unix_paths(before, name);
        assert(offer.name@.len() > 0);
        if offer.name@ == ".."@ {
            reveal_strlit("..");
            assert(offer.name@[before.len() as int] == '/');
        }
    } else {
        paths::names_without_a_last_part(offer.name@);
    }
}

} // verus!
