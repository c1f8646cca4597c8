//! The sending side of a transfer, one read at a time.
use vstd::prelude::*;

use crate::bytes;
use crate::crypto;
use crate::offer;
use crate::transfer;
use crate::transfer::{TransferError, MAGIC_DATA, MAGIC_DONE, MAGIC_RESUME, MAGIC_SKIP};

verus! {

/// What a sender waits for.
#[derive(Clone, Copy, Debug, PartialEq, Eq, Structural)]
pub enum Phase {
    /// The byte that answers the offer.
    Reply,
    /// The length of the packet that says from where on the file is wanted.
    OffsetLength,
    /// The chunk of that length.
    Offset(usize),
    /// Nothing: the file may be sent, or is not wanted.
    Ready,
}

/// What is to be done with the bytes that a sender got.
#[derive(Clone, Copy, Debug, PartialEq, Eq, Structural)]
pub enum Answer {
    /// Nothing but to read on.
    More,
    /// The file is not wanted.
    Skipped,
    /// Send the file from this byte on.
    SendFrom(u64),
}

/// The sending side of a transfer.
pub struct Sender {
    pub phase: Phase,
    pub key: [u8; 32],
    /// Whether the receiver may answer that it needs no file.
    pub sync: bool,
}

/// How many bytes are wanted next.
pub open spec fn wants(phase: Phase) -> nat {
    match phase {
        Phase::Reply => 1,
        Phase::OffsetLength => 4,
        Phase::Offset(n) => n as nat,
        Phase::Ready => 0,
    }
}

/// What a sender does with the bytes it wanted: its next phase, and what is to be done.
pub open spec fn step(phase: Phase, key: Seq<u8>, sync: bool, data: Seq<u8>) -> Result<
    (Phase, Answer),
    TransferError,
> {
    match phase {
        Phase::Reply => if data[0] == MAGIC_SKIP && sync {
            Ok((Phase::Ready, Answer::Skipped))
        } else if data[0] == MAGIC_RESUME {
            Ok((Phase::OffsetLength, Answer::More))
        } else {
            Err(TransferError::BadHandshake)
        },
        Phase::OffsetLength => match transfer::packet_len(data) {
            Ok(n) => Ok((Phase::Offset(n as usize), Answer::More)),
            Err(e) => Err(e),
        },
        Phase::Offset(_) => match transfer::packet_contents(key, data) {
            Ok(p) => if p.len() < 8 {
                Err(TransferError::ShortResume)
            } else {
                Ok((Phase::Ready, Answer::SendFrom(bytes::le_value(p.take(8)) as u64)))
            },
            Err(e) => Err(e),
        },
        Phase::Ready => Ok((Phase::Ready, Answer::More)),
    }
}

impl Sender {
    /// A sender that waits for the answer to its offer. Where it synchronises, the offer holds the
    /// time of the file's last change, and the receiver may need no file.
    pub fn new(key: [u8; 32], sync: bool) -> (r: Sender)
        ensures
            r.phase == Phase::Reply,
            r.key == key,
            r.sync == sync,
    {
        Sender { phase: Phase::Reply, key, sync }
    }

    /// The packet that offers the file.
    pub fn offer(&self, name: &str, size: u64, host: &str, mtime: Option<u64>) -> (r: Result<
        Vec<u8>,
        TransferError,
    >)
        ensures
            ({
                let o = offer::offer_bytes(name@, size as nat, host@, mtime);
                match r {
                    Ok(p) => transfer::is_packet_of(p@, self.key@, o),
                    Err(e) => e == TransferError::Chunk(crypto::ChunkError::Encryption) && o.len()
                        > crypto::PLAINTEXT_MAX,
                }
            }),
    {
        let o: Vec<u8> = offer::encode_offer(name, size, host, mtime);
        transfer::write_encrypted(&self.key, o.as_slice())
    }

    /// How many bytes to read next; `None` where none are waited for.
    pub fn wanted(&self) -> (r: Option<usize>)
        ensures
            r == (if self.phase is Ready {
                None
            } else {
                Some(wants(self.phase) as usize)
            }),
    {
        match self.phase {
            Phase::Reply => Some(1),
            Phase::OffsetLength => Some(4),
            Phase::Offset(n) => Some(n),
            Phase::Ready => None,
        }
    }

    /// Takes the bytes that were wanted.
    pub fn take(&mut self, data: &[u8]) -> (r: Result<Answer, TransferError>)
        requires
            old(self).phase !is Ready,
            data@.len() == wants(old(self).phase),
        ensures
            ({
                let next = step(old(self).phase, old(self).key@, old(self).sync, data@);
                match r {
                    Ok(a) => next == Ok::<(Phase, Answer), TransferError>((final(self).phase, a)),
                    Err(e) => next == Err::<(Phase, Answer), TransferError>(e)
                        && final(self).phase == old(self).phase,
                }
            }),
            final(self).key == old(self).key,
            final(self).sync == old(self).sync,
    {
        match self.phase {
            Phase::Reply => if data[0] == MAGIC_SKIP && self.sync {
                self.phase = Phase::Ready;
                Ok(Answer::Skipped)
            } else if data[0] == MAGIC_RESUME {
                self.phase = Phase::OffsetLength;
                Ok(Answer::More)
            } else {
                Err(TransferError::BadHandshake)
            },
            Phase::OffsetLength => match transfer::packet_length(data) {
                Ok(n) => {
                    self.phase = Phase::Offset(n);
                    Ok(Answer::More)
                },
                Err(e) => Err(e),
            },
            Phase::Offset(_) => match transfer::read_encrypted(&self.key, data) {
                Ok(p) => if p.len() < 8 {
                    Err(TransferError::ShortResume)
                } else {
                    self.phase = Phase::Ready;
                    assert(p@.subrange(0, 8) =~= p@.take(8));
                    Ok(Answer::SendFrom(bytes::read_le(p.as_slice(), 0, 8)))
                },
                Err(e) => Err(e),
            },
            Phase::Ready => Ok(Answer::More),
        }
    }

    /// The bytes that carry a part of the file.
    pub fn part(&self, data: &[u8]) -> (r: Result<Vec<u8>, TransferError>)
        ensures
            match r {
                Ok(p) => is_part(p@, self.key@, data@),
                Err(e) => e == TransferError::Chunk(crypto::ChunkError::Encryption) && data@.len()
                    > crypto::PLAINTEXT_MAX,
            },
    {
        match transfer::write_encrypted(&self.key, data) {
            Ok(packet) => {
                let mut out: Vec<u8> = Vec::new();
                out.push(MAGIC_DATA);
                out.extend_from_slice(packet.as_slice());
                assert(out@.skip(1) =~= packet@);
                Ok(out)
            },
            Err(e) => Err(e),
        }
    }

    /// The bytes that follow once `read` has been read from the file: they carry it, or end the file
    /// where nothing was left to read.
    pub fn next(&self, read: &[u8]) -> (r: Result<Vec<u8>, TransferError>)
        ensures
            match r {
                Ok(p) => if read@.len() == 0 {
                    p@ == seq![MAGIC_DONE]
                } else {
                    is_part(p@, self.key@, read@)
                },
                Err(e) => e == TransferError::Chunk(crypto::ChunkError::Encryption) && read@.len()
                    > crypto::PLAINTEXT_MAX,
            },
    {
        if read.len() == 0 {
            Ok(self.end())
        } else {
            self.part(read)
        }
    }

    /// The bytes that end the file.
    pub fn end(&self) -> (r: Vec<u8>)
        ensures
            r@ == seq![MAGIC_DONE],
    {
        let mut out: Vec<u8> = Vec::new();
        out.push(MAGIC_DONE);
        assert(out@ =~= seq![MAGIC_DONE]);
        out
    }
}

/// Whether `wire` carries the part `data` of a file under `key`.
pub open spec fn is_part(wire: Seq<u8>, key: Seq<u8>, data: Seq<u8>) -> bool {
    &&& wire.len() > 0
    &&& wire[0] == MAGIC_DATA
    &&& transfer::is_packet_of(wire.skip(1), key, data)
}

/// How far a file has been sent.
#[derive(Clone, Copy, Debug, PartialEq, Eq, Structural)]
pub struct Sent {
    pub bytes: u64,
    pub size: u64,
}

impl Sent {
    /// Counts `n` more bytes; whether the progress is worth a report, which it is not for an
    /// empty file.
    pub fn advance(&mut self, n: u64) -> (report: bool)
        requires
            old(self).bytes + n <= u64::MAX,
        ensures
            final(self).bytes == old(self).bytes + n,
            final(self).size == old(self).size,
            report == (old(self).size > 0),
    {
        self.bytes = self.bytes + n;
        self.size > 0
    }
}

// ---- what the calls give ----

/// The answer to an offer is understood: a file that is synchronised may be skipped, and any file
/// may be asked for from some byte on; another answer ends the transfer.
pub proof fn answers_are_told_apart(
    s: &mut Sender,
    data: &[u8],
    r: Result<Answer, TransferError>,
)
    requires
        call_ensures(Sender::take, (s, data), r),
        old(s).phase is Reply,
        data@.len() == 1,
    ensures
        data@[0] == 0x05 && old(s).sync ==> r == Ok::<Answer, TransferError>(Answer::Skipped)
            && final(s).phase is Ready,
        data@[0] == 0x02 ==> r == Ok::<Answer, TransferError>(Answer::More) && final(s).phase
            is OffsetLength,
        data@[0] != 0x02 && !(data@[0] == 0x05 && old(s).sync) ==> r == Err::<
            Answer,
            TransferError,
        >(TransferError::BadHandshake),
        final(s).key == old(s).key,
        final(s).sync == old(s).sync,
{
}

/// The byte from which on the file is wanted is the one that the receiver named.
pub proof fn files_are_sent_from_where_they_are_wanted(
    s: &mut Sender,
    data: &[u8],
    offset: u64,
    r: Result<Answer, TransferError>,
)
    requires
        call_ensures(Sender::take, (s, data), r),
        old(s).phase is Offset,
        crypto::is_chunk_of(data@, old(s).key@, bytes::le_bytes(offset as nat, 8)),
    ensures
        r == Ok::<Answer, TransferError>(Answer::SendFrom(offset)),
        final(s).phase is Ready,
{
    bytes::lemma_le_bytes_len(offset as nat, 8);
    bytes::lemma_le_bounds();
    bytes::le_round_trip(offset as nat, 8);
    assert(bytes::le_bytes(offset as nat, 8).take(8) =~= bytes::le_bytes(offset as nat, 8));
}

/// What is read from the file is sent as it was read, and the end of the file is told once nothing
/// is left.
pub proof fn files_are_sent_as_they_are_read(
    s: &Sender,
    read: &[u8],
    r: Result<Vec<u8>, TransferError>,
)
    requires
        call_ensures(Sender::next, (s, read), r),
        read@.len() <= 262144,
    ensures
        r is Ok,
        read@.len() == 0 ==> r->Ok_0@ == seq![0x04u8],
        read@.len() > 0 ==> r->Ok_0@.len() == read@.len() + 33 && r->Ok_0@[0] == 0x03
            && transfer::is_packet_of(r->Ok_0@.skip(1), s.key@, read@),
{
}

/// A file is offered under the name, the size, the device and the time that are given.
pub proof fn files_are_offered_as_they_are(
    s: &Sender,
    name: &str,
    size: u64,
    host: &str,
    mtime: Option<u64>,
    r: Result<Vec<u8>, TransferError>,
)
    requires
        call_ensures(Sender::offer, (s, name, size, host, mtime), r),
        r is Ok,
    ensures
        transfer::is_packet_of(
            r->Ok_0@,
            s.key@,
            offer::offer_bytes(name@, size as nat, host@, mtime),
        ),
{
}

/// Each part of the file that is sent counts, and its progress is told but of an empty file.
pub proof fn sent_bytes_are_counted(s: &mut Sent, n: u64, report: bool)
    requires
        call_ensures(Sent::advance, (s, n), report),
        old(s).bytes + n <= u64::MAX,
    ensures
        final(s).bytes - old(s).bytes == n,
        final(s).size == old(s).size,
        report <==> old(s).size != 0,
{
}

/// A sender begins with the receiver's answer, under its key.
pub proof fn senders_begin_with_an_answer(key: [u8; 32], sync: bool, s: Sender, n: Option<usize>)
    requires
        call_ensures(Sender::new, (key, sync), s),
        call_ensures(Sender::wanted, (&s,), n),
    ensures
        s.key == key,
        s.sync == sync,
        s.phase is Reply,
        n == Some(1usize),
{
}

/// A sender waits for the bytes that its phase takes, and for none once it may send.
pub proof fn as_many_bytes_as_are_wanted(s: &Sender, n: Option<usize>)
    requires
        call_ensures(Sender::wanted, (s,), n),
    ensures
        s.phase is Reply ==> n == Some(1usize),
        s.phase is OffsetLength ==> n == Some(4usize),
        s.phase matches Phase::Offset(k) ==> n == Some(k),
        s.phase is Ready ==> n is None,
{
}

/// A part is marked as such and holds what it is given; the end is a mark alone.
pub proof fn parts_are_marked(s: &Sender, data: &[u8], r: Result<Vec<u8>, TransferError>, end: Vec<
    u8,
>)
    requires
        call_ensures(Sender::part, (s, data), r),
        call_ensures(Sender::end, (s,), end),
        data@.len() <= 262144,
    ensures
        r is Ok,
        r->Ok_0@[0] == 0x03,
        r->Ok_0@.len() == data@.len() + 33,
        transfer::is_packet_of(r->Ok_0@.skip(1), s.key@, data@),
        end@ == seq![0x04u8],
{
}

} // verus!
