//! What holds of a whole transfer, from the sender's file to the receiver's.
use vstd::prelude::*;

use crate::bytes;
use crate::crypto;
use crate::offer;
use crate::receiver;
use crate::receiver::{Decision, Outcome, State};
use crate::sender;
use crate::sender::Answer;
use crate::transfer;
use crate::transfer::{TransferError, CHUNK_SIZE, FILE_MAX, HOST_MAX, MAGIC_DONE, NAME_MAX};

verus! {

/// How a receiver stands once it has read what there is to read.
pub enum End {
    /// The file is complete.
    Complete,
    Failed(TransferError),
    /// It waits for more bytes, or for a decision.
    Waiting,
}

/// How a receiver stands once it has read `wire`, and the contents that it has got.
pub open spec fn run(s: State, wire: Seq<u8>) -> (End, Seq<u8>)
    decreases wire.len(),
{
    let n = receiver::wants(s.phase) as int;
    if !receiver::reads(s.phase) || wire.len() < n {
        (End::Waiting, seq![])
    } else {
        match receiver::step(s, wire.take(n)) {
            Err(e) => (End::Failed(e), seq![]),
            Ok((t, Outcome::Complete)) => (End::Complete, seq![]),
            Ok((t, Outcome::Part(p))) => {
                let rest = run(t, wire.skip(n));
                (rest.0, p + rest.1)
            },
            Ok((t, _)) => run(t, wire.skip(n)),
        }
    }
}

/// The parts of a file, one behind the other.
pub open spec fn contents(parts: Seq<Seq<u8>>) -> Seq<u8>
    decreases parts.len(),
{
    if parts.len() == 0 {
        seq![]
    } else {
        parts[0] + contents(parts.drop_first())
    }
}

/// What a sender writes: the pieces that carry the parts of the file, and its end.
pub open spec fn written(pieces: Seq<Seq<u8>>) -> Seq<u8>
    decreases pieces.len(),
{
    if pieces.len() == 0 {
        seq![MAGIC_DONE]
    } else {
        pieces[0] + written(pieces.drop_first())
    }
}

/// Whether `pieces` carry `parts`, none of which is longer than a sender makes it.
pub open spec fn carry(pieces: Seq<Seq<u8>>, key: Seq<u8>, parts: Seq<Seq<u8>>) -> bool {
    &&& pieces.len() == parts.len()
    &&& forall|i: int|
        0 <= i < parts.len() ==> #[trigger] parts[i].len() <= CHUNK_SIZE && sender::is_part(
            pieces[i],
            key,
            parts[i],
        )
}

/// One part arrives as it was sent.
proof fn lemma_part_arrives(s: State, piece: Seq<u8>, part: Seq<u8>, rest: Seq<u8>)
    requires
        s.phase is Tag,
        part.len() <= CHUNK_SIZE,
        sender::is_part(piece, s.key, part),
    ensures
        ({
            let after = run(State { received: s.received + part.len(), ..s }, rest);
            run(s, piece + rest) == (after.0, part + after.1)
        }),
{
    let wire = piece + rest;
    let packet = piece.skip(1);
    let n = (packet.len() - 4) as nat;
    transfer::reading_undoes_writing(s.key, part, packet);
    let s1 = State { phase: receiver::Phase::DataLength, ..s };
    let s2 = State { phase: receiver::Phase::Data(n as usize), ..s };
    let s3 = State { received: s.received + part.len(), ..s };
    assert(wire.take(1)[0] == piece[0]);
    let w1 = wire.skip(1);
    assert(w1 =~= packet + rest);
    assert(run(s, wire) == run(s1, w1));
    assert(w1.take(4) =~= packet.take(4));
    let w2 = w1.skip(4);
    assert(w2 =~= packet.skip(4) + rest);
    assert(run(s1, w1) == run(s2, w2));
    assert(w2.take(n as int) =~= packet.skip(4));
    assert(w2.skip(n as int) =~= rest);
    assert(run(s2, w2) == (run(s3, rest).0, part + run(s3, rest).1));
}

/// What a sender streams arrives as it was sent, and the receiver holds the file to be complete if
/// and only if it then has as many bytes as were offered.
pub proof fn stream_arrives(s: State, pieces: Seq<Seq<u8>>, parts: Seq<Seq<u8>>)
    requires
        s.phase is Tag,
        carry(pieces, s.key, parts),
    ensures
        run(s, written(pieces)).1 == contents(parts),
        run(s, written(pieces)).0 == if s.received + contents(parts).len() == s.size {
            End::Complete
        } else {
            End::Failed(
                TransferError::SizeMismatch {
                    expected: s.size,
                    received: (s.received + contents(parts).len()) as u64,
                },
            )
        },
    decreases parts.len(),
{
    if parts.len() == 0 {
        assert(written(pieces).take(1)[0] == MAGIC_DONE);
    } else {
        let s3 = State { received: s.received + parts[0].len(), ..s };
        let more = pieces.drop_first();
        let tail = parts.drop_first();
        assert(carry(more, s.key, tail)) by {
            assert forall|i: int| 0 <= i < tail.len() implies #[trigger] tail[i].len()
                <= CHUNK_SIZE && sender::is_part(more[i], s.key, tail[i]) by {
                assert(tail[i] == parts[i + 1]);
            }
        }
        stream_arrives(s3, more, tail);
        assert(parts[0].len() <= CHUNK_SIZE);
        lemma_part_arrives(s, pieces[0], parts[0], written(more));
    }
}

/// An offer arrives as it was made: after its packet the receiver knows it, and waits for a
/// decision.
pub proof fn offer_arrives(
    key: Seq<u8>,
    packet: Seq<u8>,
    name: Seq<char>,
    size: u64,
    host: Seq<char>,
    mtime: Option<u64>,
)
    requires
        transfer::is_packet_of(packet, key, offer::offer_bytes(name, size as nat, host, mtime)),
        1 <= vstd::utf8::encode_utf8(name).len() <= NAME_MAX,
        size <= FILE_MAX,
        vstd::utf8::encode_utf8(host).len() <= HOST_MAX,
    ensures
        ({
            let o = offer::offer_bytes(name, size as nat, host, mtime);
            let s = State {
                phase: receiver::Phase::OfferLength,
                key,
                size: 0,
                received: 0,
            };
            &&& receiver::step(s, packet.take(4)) matches Ok((t, Outcome::More))
            &&& receiver::reads(t.phase) && receiver::wants(t.phase) == packet.skip(4).len()
            &&& receiver::step(t, packet.skip(4)) matches Ok((u, Outcome::Offered(b)))
            &&& b == o
            &&& u == State { phase: receiver::Phase::Decision, size, ..s }
        }),
{
    let o = offer::offer_bytes(name, size as nat, host, mtime);
    offer::lemma_offer_fields(name, size as nat, host, mtime);
    transfer::reading_undoes_writing(key, o, packet);
}

/// The receiver's decision arrives as it was made: the sender learns from where on to send, or, if
/// it synchronises, that the file is not wanted.
pub proof fn decision_arrives(key: Seq<u8>, sync: bool, reply: Seq<u8>, d: Decision)
    requires
        receiver::is_reply(reply, key, d),
    ensures
        d is Skip ==> sender::step(sender::Phase::Reply, key, sync, reply) == if sync {
            Ok((sender::Phase::Ready, Answer::Skipped))
        } else {
            Err(TransferError::BadHandshake)
        },
        d !is Skip ==> {
            &&& sender::step(sender::Phase::Reply, key, sync, reply.take(1)) matches Ok(
                (a, Answer::More),
            )
            &&& sender::wants(a) == 4
            &&& sender::step(a, key, sync, reply.subrange(1, 5)) matches Ok((b, Answer::More))
            &&& sender::wants(b) == reply.skip(5).len()
            &&& sender::step(b, key, sync, reply.skip(5)) == Ok::<
                (sender::Phase, Answer),
                TransferError,
            >((sender::Phase::Ready, Answer::SendFrom(d.offset())))
        },
{
    if d !is Skip {
        let packet = reply.skip(1);
        let payload = bytes::le_bytes(d.offset() as nat, 8);
        bytes::lemma_le_bytes_len(d.offset() as nat, 8);
        bytes::lemma_le_bounds();
        bytes::le_round_trip(d.offset() as nat, 8);
        transfer::reading_undoes_writing(key, payload, packet);
        assert(packet.take(4) =~= reply.subrange(1, 5));
        assert(packet.skip(4) =~= reply.skip(5));
        assert(payload.take(8) =~= payload);
    }
}

/// A transfer reproduces the file: where the receiver has the start of the file up to the offset it
/// asked for, and the sender streams the rest in parts, the receiver ends with the whole file and
/// knows that it is complete. The two sides need not share anything but their public keys.
pub proof fn file_arrives(
    file: Seq<u8>,
    mine: crypto::KeyPair,
    theirs: crypto::KeyPair,
    d: Decision,
    pieces: Seq<Seq<u8>>,
    parts: Seq<Seq<u8>>,
)
    requires
        mine.valid(),
        theirs.valid(),
        file.len() <= FILE_MAX,
        d.offset() <= file.len(),
        contents(parts) == file.skip(d.offset() as int),
        carry(pieces, crypto::session_key(mine.secret@, theirs.public@), parts),
    ensures
        ({
            let s = State {
                phase: receiver::Phase::Tag,
                key: crypto::session_key(theirs.secret@, mine.public@),
                size: file.len() as u64,
                received: d.offset() as nat,
            };
            let (end, got) = run(s, written(pieces));
            &&& end is Complete
            &&& file.take(d.offset() as int) + got == file
        }),
{
    crypto::both_sides_agree(mine, theirs);
    let s = State {
        phase: receiver::Phase::Tag,
        key: crypto::session_key(theirs.secret@, mine.public@),
        size: file.len() as u64,
        received: d.offset() as nat,
    };
    stream_arrives(s, pieces, parts);
    assert(file.take(d.offset() as int) + file.skip(d.offset() as int) =~= file);
}

} // verus!
