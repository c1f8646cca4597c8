//! The transfer of a file between two devices.
//!
//! Both sides agree on a key. The sender offers a file; the receiver answers from where on it wants
//! the contents, or that it needs none; the sender streams the contents in encrypted packets.
use vstd::prelude::*;

use crate::bytes;
use crate::crypto;
use crate::crypto::ChunkError;
use crate::numbers;

verus! {

/// The port on which files are received.
pub const TRANSFER_PORT: u16 = 44445;

/// The most bytes of a file that one packet holds.
pub const CHUNK_SIZE: usize = 262144;

/// The longest chunk that a packet may hold.
pub const PACKET_MAX: usize = 262236;

/// The largest file that is accepted.
pub const FILE_MAX: u64 = 8589934592;

/// The longest file name that is accepted, in bytes.
pub const NAME_MAX: usize = 4096;

/// The longest sender's name that is accepted, in bytes.
pub const HOST_MAX: usize = 256;

pub const MAGIC_OFFER: u8 = 0x01;

pub const MAGIC_RESUME: u8 = 0x02;

pub const MAGIC_DATA: u8 = 0x03;

pub const MAGIC_DONE: u8 = 0x04;

/// The receiver already has this version of the file.
pub const MAGIC_SKIP: u8 = 0x05;

/// Why a transfer failed.
#[derive(Clone, Copy, Debug, PartialEq, Eq, Structural)]
pub enum TransferError {
    Chunk(ChunkError),
    PacketTooLarge(u64),
    BadHandshake,
    ShortResume,
    BadOffer,
    OfferTooShort,
    BadNameLength,
    TruncatedOffer,
    FileTooLarge,
    /// The offered name names nothing in a directory.
    UnusableName,
    UnknownPacket(u8),
    SizeMismatch { expected: u64, received: u64 },
}

impl TransferError {
    pub open spec fn text(self) -> Seq<char> {
        match self {
            TransferError::Chunk(e) => e.text(),
            TransferError::PacketTooLarge(n) => "Packet too large: "@ + numbers::decimal(n as nat),
            TransferError::BadHandshake => "Bad handshake response"@,
            TransferError::ShortResume => "Short resume payload"@,
            TransferError::BadOffer => "Bad offer"@,
            TransferError::OfferTooShort => "Offer too short"@,
            TransferError::BadNameLength => "Bad name length"@,
            TransferError::TruncatedOffer => "Truncated offer"@,
            TransferError::FileTooLarge => "File too large (>8 GB)"@,
            TransferError::UnusableName => "Unusable file name"@,
            TransferError::UnknownPacket(b) => "Unknown packet 0x"@.push(
                numbers::hex_lower((b / 16) as nat),
            ).push(numbers::hex_lower((b % 16) as nat)),
            TransferError::SizeMismatch { expected, received } => "Size mismatch: "@
                + numbers::decimal(expected as nat) + " vs "@ + numbers::decimal(received as nat),
        }
    }

    /// The error for display.
    pub fn message(self) -> (r: String)
        ensures
            r@ == self.text(),
    {
        match self {
            TransferError::Chunk(e) => e.message(),
            TransferError::PacketTooLarge(n) => {
                let mut s: String = "Packet too large: ".to_string();
                numbers::push_decimal(&mut s, n);
                s
            },
            TransferError::BadHandshake => "Bad handshake response".to_string(),
            TransferError::ShortResume => "Short resume payload".to_string(),
            TransferError::BadOffer => "Bad offer".to_string(),
            TransferError::OfferTooShort => "Offer too short".to_string(),
            TransferError::BadNameLength => "Bad name length".to_string(),
            TransferError::TruncatedOffer => "Truncated offer".to_string(),
            TransferError::FileTooLarge => "File too large (>8 GB)".to_string(),
            TransferError::UnusableName => "Unusable file name".to_string(),
            TransferError::UnknownPacket(b) => {
                let mut s: String = "Unknown packet 0x".to_string();
                numbers::push_hex_lower(&mut s, b);
                s
            },
            TransferError::SizeMismatch { expected, received } => {
                let mut s: String = "Size mismatch: ".to_string();
                numbers::push_decimal(&mut s, expected);
                s.append(" vs ");
                numbers::push_decimal(&mut s, received);
                s
            },
        }
    }
}

// ---- packets ----

/// Whether `packet` is a chunk that holds `plaintext` under `key`, behind its length in four bytes.
pub open spec fn is_packet_of(packet: Seq<u8>, key: Seq<u8>, plaintext: Seq<u8>) -> bool {
    &&& packet.len() >= 4
    &&& crypto::is_chunk_of(packet.skip(4), key, plaintext)
    &&& packet.take(4) == bytes::le_bytes((packet.len() - 4) as nat, 4)
}

/// The length of the chunk behind `header`, or that it is too large.
pub open spec fn packet_len(header: Seq<u8>) -> Result<nat, TransferError> {
    let n = bytes::le_value(header);
    if n > PACKET_MAX {
        Err(TransferError::PacketTooLarge(n as u64))
    } else {
        Ok(n)
    }
}

/// A packet that holds `plaintext` under `key`.
pub fn write_encrypted(key: &[u8; 32], plaintext: &[u8]) -> (r: Result<Vec<u8>, TransferError>)
    ensures
        match r {
            Ok(p) => is_packet_of(p@, key@, plaintext@),
            Err(e) => e == TransferError::Chunk(ChunkError::Encryption) && plaintext@.len()
                > crypto::PLAINTEXT_MAX,
        },
{
    match crypto::encrypt_chunk(key, plaintext) {
        Ok(chunk) => {
            let mut out: Vec<u8> = Vec::new();
            bytes::push_le(&mut out, chunk.len() as u64, 4);
            out.extend_from_slice(chunk.as_slice());
            proof {
                bytes::lemma_le_bytes_len(chunk@.len(), 4);
                assert(out@ =~= bytes::le_bytes(chunk@.len(), 4) + chunk@);
                assert(out@.skip(4) =~= chunk@);
                assert(out@.take(4) =~= bytes::le_bytes(chunk@.len(), 4));
            }
            Ok(out)
        },
        Err(e) => Err(TransferError::Chunk(e)),
    }
}

/// The length of the chunk behind the four bytes `header`.
pub fn packet_length(header: &[u8]) -> (r: Result<usize, TransferError>)
    requires
        header@.len() == 4,
    ensures
        match r {
            Ok(n) => packet_len(header@) == Ok::<nat, TransferError>(n as nat),
            Err(e) => packet_len(header@) == Err::<nat, TransferError>(e),
        },
{
    let n: u64 = bytes::read_le(header, 0, 4);
    assert(header@.subrange(0, 4) =~= header@);
    if n > PACKET_MAX as u64 {
        Err(TransferError::PacketTooLarge(n))
    } else {
        Ok(n as usize)
    }
}

/// What a packet's chunk holds under `key`.
pub open spec fn packet_contents(key: Seq<u8>, chunk: Seq<u8>) -> Result<Seq<u8>, TransferError> {
    match crypto::opened(key, chunk) {
        Ok(p) => Ok(p),
        Err(e) => Err(TransferError::Chunk(e)),
    }
}

/// What a packet's chunk holds under `key`.
pub fn read_encrypted(key: &[u8; 32], chunk: &[u8]) -> (r: Result<Vec<u8>, TransferError>)
    ensures
        match r {
            Ok(p) => packet_contents(key@, chunk@) == Ok::<Seq<u8>, TransferError>(p@) && p@.len()
                <= chunk@.len(),
            Err(e) => packet_contents(key@, chunk@) == Err::<Seq<u8>, TransferError>(e),
        },
{
    match crypto::decrypt_chunk(key, chunk) {
        Ok(p) => Ok(p),
        Err(e) => Err(TransferError::Chunk(e)),
    }
}

/// Reading a packet gives back what was written, for every plaintext up to 64 bytes longer than
/// the part of a file that one packet holds; the reader refuses the packet of a longer one whose
/// length fits its four bytes.
pub proof fn reading_undoes_writing(key: Seq<u8>, plaintext: Seq<u8>, packet: Seq<u8>)
    requires
        is_packet_of(packet, key, plaintext),
    ensures
        plaintext.len() <= CHUNK_SIZE + 64 ==> packet_len(packet.take(4)) == Ok::<
            nat,
            TransferError,
        >((packet.len() - 4) as nat) && packet_contents(key, packet.skip(4)) == Ok::<
            Seq<u8>,
            TransferError,
        >(plaintext),
        CHUNK_SIZE + 64 < plaintext.len() < 0x1_0000_0000 - 28 ==> packet_len(packet.take(4)) == Err::<
            nat,
            TransferError,
        >(TransferError::PacketTooLarge((packet.len() - 4) as u64)),
{
    bytes::lemma_le_bounds();
    if plaintext.len() < 0x1_0000_0000 - 28 {
        bytes::le_round_trip((packet.len() - 4) as nat, 4);
    }
}

// ---- what the calls give ----

/// A packet is the length of its chunk in four bytes, and the chunk, which is 28 bytes longer than
/// what it holds.
pub proof fn packets_have_their_layout(
    key: &[u8; 32],
    plaintext: &[u8],
    r: Result<Vec<u8>, TransferError>,
)
    requires
        call_ensures(write_encrypted, (key, plaintext), r),
        plaintext@.len() <= 262144,
    ensures
        r is Ok,
        r->Ok_0@.len() == plaintext@.len() + 32,
        r->Ok_0@[0] + 256 * r->Ok_0@[1] + 65536 * r->Ok_0@[2] + 16777216 * r->Ok_0@[3]
            == plaintext@.len() + 28,
{
    let p = r->Ok_0@;
    let n = (p.len() - 4) as nat;
    bytes::lemma_le_bounds();
    bytes::le_round_trip(n, 4);
    bytes::four_bytes_make_a_number(p.take(4));
}

/// The length in a header is read from its four bytes; one over the limit is refused with the
/// length.
pub proof fn headers_are_read(header: &[u8], r: Result<usize, TransferError>)
    requires
        call_ensures(packet_length, (header,), r),
        header@.len() == 4,
    ensures
        ({
            let n = header@[0] + 256 * header@[1] + 65536 * header@[2] + 16777216 * header@[3];
            &&& n <= 262_236 ==> r is Ok && r->Ok_0 == n
            &&& n > 262_236 ==> r == Err::<usize, TransferError>(
                TransferError::PacketTooLarge(n as u64),
            )
        }),
{
    bytes::four_bytes_make_a_number(header@);
}

/// What is written into a packet under a key is read from it under the same key.
pub proof fn written_packets_are_read(
    key: &[u8; 32],
    plaintext: &[u8],
    packet: Result<Vec<u8>, TransferError>,
    other: &[u8; 32],
    chunk: &[u8],
    r: Result<Vec<u8>, TransferError>,
)
    requires
        call_ensures(write_encrypted, (key, plaintext), packet),
        plaintext@.len() <= 262144,
        packet is Ok ==> chunk@ == packet->Ok_0@.skip(4),
        other@ == key@,
        call_ensures(read_encrypted, (other, chunk), r),
    ensures
        r is Ok,
        r->Ok_0@ == plaintext@,
{
    reading_undoes_writing(key@, plaintext@, packet->Ok_0@);
}

/// Errors are told in their own words, with the numbers that they hold.
pub proof fn errors_are_worded(e: TransferError, r: String)
    requires
        call_ensures(TransferError::message, (e,), r),
    ensures
        e matches TransferError::PacketTooLarge(n) ==> r@ == "Packet too large: "@
            + numbers::decimal(n as nat),
        e is BadHandshake ==> r@ == "Bad handshake response"@,
        e is ShortResume ==> r@ == "Short resume payload"@,
        e is BadOffer ==> r@ == "Bad offer"@,
        e is OfferTooShort ==> r@ == "Offer too short"@,
        e is BadNameLength ==> r@ == "Bad name length"@,
        e is TruncatedOffer ==> r@ == "Truncated offer"@,
        e is FileTooLarge ==> r@ == "File too large (>8 GB)"@,
        e matches TransferError::SizeMismatch { expected, received } ==> r@ == "Size mismatch: "@
            + numbers::decimal(expected as nat) + " vs "@ + numbers::decimal(received as nat),
        e matches TransferError::UnknownPacket(b) ==> {
            &&& r@.len() == 19
            &&& r@.take(17) == "Unknown packet 0x"@
            &&& 16 * numbers::hex_value(r@[17]) + numbers::hex_value(r@[18]) == b
        },
        e == TransferError::Chunk(ChunkError::TooShort) ==> r@ == "Chunk too short"@,
        e == TransferError::Chunk(ChunkError::Decryption) ==> r@
            == "Decryption failed — corrupted or tampered"@,
{
    reveal_strlit("Unknown packet 0x");
    if e is UnknownPacket {
        assert(r@.take(17) =~= "Unknown packet 0x"@);
    }
}

} // verus!
