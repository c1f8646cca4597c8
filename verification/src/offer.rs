//! The offer of a file: its name, its size, who sends it and when it was last changed.
use vstd::prelude::*;

use crate::bytes;
use crate::transfer::{TransferError, FILE_MAX, HOST_MAX, MAGIC_OFFER, NAME_MAX};

verus! {

/// An offered file.
pub struct Offer {
    pub name: String,
    pub size: u64,
    /// The name of the sending device, or its address where it gave none.
    pub peer: String,
    /// The time of the last change, in seconds since the epoch, where the sender synchronises.
    pub mtime: Option<u64>,
}

/// An offer as it stands in its bytes.
pub struct RawOffer {
    pub name: Vec<u8>,
    pub size: u64,
    pub host: Option<Vec<u8>>,
    pub mtime: Option<u64>,
}

// ---- the layout ----

/// The offer of `size` bytes named `name` by `host`.
pub open spec fn offer_bytes(
    name: Seq<char>,
    size: nat,
    host: Seq<char>,
    mtime: Option<u64>,
) -> Seq<u8> {
    let nb = vstd::utf8::encode_utf8(name);
    let hb = vstd::utf8::encode_utf8(host);
    seq![MAGIC_OFFER] + bytes::le_bytes(nb.len(), 4) + nb + bytes::le_bytes(size, 8)
        + bytes::le_bytes(hb.len(), 4) + hb + match mtime {
        Some(t) => bytes::le_bytes(t as nat, 8),
        None => seq![],
    }
}

/// The number that the `len` bytes of `o` from `from` on hold.
pub open spec fn field(o: Seq<u8>, from: int, len: int) -> int {
    bytes::le_value(o.subrange(from, from + len)) as int
}

pub open spec fn name_len(o: Seq<u8>) -> int {
    field(o, 1, 4)
}

/// Where the part of an offer behind the size begins.
pub open spec fn tail(o: Seq<u8>) -> int {
    5 + name_len(o) + 8
}

pub open spec fn offered_size(o: Seq<u8>) -> int {
    field(o, 5 + name_len(o), 8)
}

/// Why `o` is no acceptable offer.
pub open spec fn offer_error(o: Seq<u8>) -> Option<TransferError> {
    if o.len() == 0 || o[0] != MAGIC_OFFER {
        Some(TransferError::BadOffer)
    } else if o.len() < 5 {
        Some(TransferError::OfferTooShort)
    } else if name_len(o) == 0 || name_len(o) > NAME_MAX {
        Some(TransferError::BadNameLength)
    } else if o.len() < tail(o) {
        Some(TransferError::TruncatedOffer)
    } else if offered_size(o) > FILE_MAX {
        Some(TransferError::FileTooLarge)
    } else {
        None
    }
}

pub open spec fn offered_name(o: Seq<u8>) -> Seq<u8> {
    o.subrange(5, 5 + name_len(o))
}

/// The sender's name, where it is there, not empty and not too long.
pub open spec fn offered_host(o: Seq<u8>) -> Option<Seq<u8>> {
    if o.len() >= tail(o) + 4 {
        let len = field(o, tail(o), 4);
        if 0 < len <= HOST_MAX && o.len() >= tail(o) + 4 + len {
            Some(o.subrange(tail(o) + 4, tail(o) + 4 + len))
        } else {
            None
        }
    } else {
        None
    }
}

/// The time of the last change, where it is there.
pub open spec fn offered_mtime(o: Seq<u8>) -> Option<int> {
    if o.len() >= tail(o) + 4 {
        let len = field(o, tail(o), 4);
        let from = tail(o) + 4 + if len > HOST_MAX {
            HOST_MAX as int
        } else {
            len
        };
        if o.len() >= from + 8 {
            Some(field(o, from, 8))
        } else {
            None
        }
    } else {
        None
    }
}

impl RawOffer {
    /// Whether this is what stands in the bytes `o`.
    pub open spec fn stands_in(self, o: Seq<u8>) -> bool {
        &&& self.name@ == offered_name(o)
        &&& self.size == offered_size(o)
        &&& match self.host {
            Some(h) => offered_host(o) == Some(h@),
            None => offered_host(o) is None,
        }
        &&& match self.mtime {
            Some(t) => offered_mtime(o) == Some(t as int),
            None => offered_mtime(o) is None,
        }
    }
}

impl Offer {
    /// Whether this is the offer `raw`, where `fallback` names a sender that gave no name.
    pub open spec fn reads(self, raw: RawOffer, fallback: Seq<char>) -> bool {
        &&& bytes::is_lossy_text(self.name@, raw.name@)
        &&& self.size == raw.size
        &&& match raw.host {
            Some(h) => bytes::is_lossy_text(self.peer@, h@),
            None => self.peer@ == fallback,
        }
        &&& self.mtime == raw.mtime
    }
}

// ---- writing and reading ----

/// The offer of a file.
pub fn encode_offer(name: &str, size: u64, host: &str, mtime: Option<u64>) -> (r: Vec<u8>)
    ensures
        r@ == offer_bytes(name@, size as nat, host@, mtime),
{
    let nb: &[u8] = name.as_bytes();
    let hb: &[u8] = host.as_bytes();
    let mut out: Vec<u8> = Vec::new();
    out.push(MAGIC_OFFER);
    bytes::push_le(&mut out, nb.len() as u64, 4);
    out.extend_from_slice(nb);
    bytes::push_le(&mut out, size, 8);
    bytes::push_le(&mut out, hb.len() as u64, 4);
    out.extend_from_slice(hb);
    match mtime {
        Some(t) => bytes::push_le(&mut out, t, 8),
        None => {},
    }
    assert(out@ =~= offer_bytes(name@, size as nat, host@, mtime));
    out
}

/// What stands in the bytes of an offer.
pub fn parse_offer(o: &[u8]) -> (r: Result<RawOffer, TransferError>)
    ensures
        match r {
            Ok(raw) => offer_error(o@) is None && raw.stands_in(o@),
            Err(e) => offer_error(o@) == Some(e),
        },
{
    if o.len() == 0 || o[0] != MAGIC_OFFER {
        return Err(TransferError::BadOffer);
    }
    if o.len() < 5 {
        return Err(TransferError::OfferTooShort);
    }
    let name_len: u64 = bytes::read_le(o, 1, 4);
    if name_len == 0 || name_len > NAME_MAX as u64 {
        return Err(TransferError::BadNameLength);
    }
    let name_len: usize = name_len as usize;
    if o.len() < 5 + name_len + 8 {
        return Err(TransferError::TruncatedOffer);
    }
    let size: u64 = bytes::read_le(o, 5 + name_len, 8);
    if size > FILE_MAX {
        return Err(TransferError::FileTooLarge);
    }
    let name: Vec<u8> = bytes::bytes_of(o, 5, 5 + name_len);
    let base: usize = 5 + name_len + 8;
    let mut host: Option<Vec<u8>> = None;
    let mut mtime: Option<u64> = None;
    if o.len() >= base + 4 {
        let len: u64 = bytes::read_le(o, base, 4);
        let short: usize = if len > HOST_MAX as u64 {
            HOST_MAX
        } else {
            len as usize
        };
        if 0 < len && len <= HOST_MAX as u64 && o.len() >= base + 4 + short {
            host = Some(bytes::bytes_of(o, base + 4, base + 4 + short));
        }
        if o.len() >= base + 4 + short + 8 {
            mtime = Some(bytes::read_le(o, base + 4 + short, 8));
        }
    }
    Ok(RawOffer { name, size, host, mtime })
}

/// The offer `raw`, where `fallback` names a sender that gave no name.
pub fn read_offer(raw: RawOffer, fallback: &str) -> (r: Offer)
    ensures
        r.reads(raw, fallback@),
{
    let name: String = bytes::lossy_text(raw.name.as_slice());
    let peer: String = match &raw.host {
        Some(h) => bytes::lossy_text(h.as_slice()),
        None => fallback.to_string(),
    };
    Offer { name, size: raw.size, peer, mtime: raw.mtime }
}

// ---- laws ----

pub proof fn lemma_offer_fields(name: Seq<char>, size: nat, host: Seq<char>, mtime: Option<u64>)
    requires
        vstd::utf8::encode_utf8(name).len() < 0x1_0000_0000,
        size < 0x1_0000_0000_0000_0000,
        vstd::utf8::encode_utf8(host).len() < 0x1_0000_0000,
    ensures
        ({
            let nb = vstd::utf8::encode_utf8(name);
            let hb = vstd::utf8::encode_utf8(host);
            let o = offer_bytes(name, size, host, mtime);
            let n = nb.len() as int;
            let h = hb.len() as int;
            let base = 5 + n + 8;
            &&& o[0] == MAGIC_OFFER
            &&& name_len(o) == nb.len()
            &&& o.subrange(5, 5 + n) == nb
            &&& offered_size(o) == size
            &&& field(o, base, 4) == hb.len()
            &&& o.subrange(base + 4, base + 4 + h) == hb
            &&& o.len() == base + 4 + h + if mtime is Some {
                8int
            } else {
                0int
            }
            &&& mtime matches Some(t) ==> field(o, base + 4 + h, 8) == t
        }),
{
    let nb = vstd::utf8::encode_utf8(name);
    let hb = vstd::utf8::encode_utf8(host);
    let o = offer_bytes(name, size, host, mtime);
    let n = nb.len() as int;
    let h = hb.len() as int;
    let base = 5 + n + 8;
    bytes::lemma_le_bounds();
    bytes::lemma_le_bytes_len(nb.len(), 4);
    bytes::lemma_le_bytes_len(size, 8);
    bytes::lemma_le_bytes_len(hb.len(), 4);
    bytes::le_round_trip(nb.len(), 4);
    bytes::le_round_trip(size, 8);
    bytes::le_round_trip(hb.len(), 4);
    assert(o.subrange(1, 5) =~= bytes::le_bytes(nb.len(), 4));
    assert(o.subrange(5, 5 + n) =~= nb);
    assert(o.subrange(5 + n, 5 + n + 8) =~= bytes::le_bytes(size, 8));
    assert(o.subrange(base, base + 4) =~= bytes::le_bytes(hb.len(), 4));
    assert(o.subrange(base + 4, base + 4 + h) =~= hb);
    match mtime {
        Some(t) => {
            bytes::lemma_le_bytes_len(t as nat, 8);
            bytes::le_round_trip(t as nat, 8);
            assert(o.subrange(base + 4 + h, base + 4 + h + 8) =~= bytes::le_bytes(
                t as nat,
                8,
            ));
        },
        None => {},
    }
}

/// Reading an offer gives back the file's name and size as they were written. The sender's name is
/// given back where it is not empty and not too long, and the time of the last change where the
/// sender's name is not too long.
pub proof fn reading_undoes_offering(
    name: Seq<char>,
    size: u64,
    host: Seq<char>,
    mtime: Option<u64>,
    raw: RawOffer,
    offer: Offer,
    fallback: Seq<char>,
)
    requires
        1 <= vstd::utf8::encode_utf8(name).len() <= NAME_MAX,
        size <= FILE_MAX,
        vstd::utf8::encode_utf8(host).len() < 0x1_0000_0000,
        raw.stands_in(offer_bytes(name, size as nat, host, mtime)),
        offer.reads(raw, fallback),
    ensures
        offer_error(offer_bytes(name, size as nat, host, mtime)) is None,
        offer.name@ == name,
        offer.size == size,
        1 <= vstd::utf8::encode_utf8(host).len() <= HOST_MAX ==> offer.peer@ == host,
        vstd::utf8::encode_utf8(host).len() == 0 || vstd::utf8::encode_utf8(host).len() > HOST_MAX
            ==> offer.peer@ == fallback,
        vstd::utf8::encode_utf8(host).len() <= HOST_MAX ==> offer.mtime == mtime,
{
    lemma_offer_fields(name, size as nat, host, mtime);
    bytes::lossy_text_of_text(name, offer.name@);
    if 1 <= vstd::utf8::encode_utf8(host).len() <= HOST_MAX {
        bytes::lossy_text_of_text(host, offer.peer@);
    }
}

/// A name that is empty or too long, or a file that is too large, is refused.
pub proof fn unacceptable_offers(name: Seq<char>, size: u64, host: Seq<char>, mtime: Option<u64>)
    requires
        vstd::utf8::encode_utf8(name).len() < 0x1_0000_0000,
        vstd::utf8::encode_utf8(host).len() < 0x1_0000_0000,
    ensures
        ({
            let n = vstd::utf8::encode_utf8(name).len();
            let o = offer_bytes(name, size as nat, host, mtime);
            &&& n == 0 || n > NAME_MAX ==> offer_error(o) == Some(TransferError::BadNameLength)
            &&& 1 <= n <= NAME_MAX && size > FILE_MAX ==> offer_error(o) == Some(
                TransferError::FileTooLarge,
            )
        }),
{
    lemma_offer_fields(name, size as nat, host, mtime);
}

// ---- what the calls give ----

/// An offer is its mark, the length of the name in four bytes and the name, the size in eight bytes,
/// the length of the sender's name in four and that name, and the time in eight where there is one.
pub proof fn offers_have_their_layout(
    name: &str,
    size: u64,
    host: &str,
    mtime: Option<u64>,
    r: Vec<u8>,
)
    requires
        call_ensures(encode_offer, (name, size, host, mtime), r),
        vstd::utf8::encode_utf8(name@).len() < 0x1_0000_0000,
        vstd::utf8::encode_utf8(host@).len() < 0x1_0000_0000,
    ensures
        ({
            let nb = vstd::utf8::encode_utf8(name@);
            let hb = vstd::utf8::encode_utf8(host@);
            let n = nb.len() as int;
            let h = hb.len() as int;
            let o = r@;
            &&& o.len() == 17 + n + h + if mtime is Some {
                8int
            } else {
                0int
            }
            &&& o[0] == 0x01
            &&& o[1] + 256 * o[2] + 65536 * o[3] + 16777216 * o[4] == n
            &&& o.subrange(5, 5 + n) == nb
            &&& bytes::le_value(o.subrange(5 + n, 13 + n)) == size
            &&& bytes::le_value(o.subrange(13 + n, 17 + n)) == h
            &&& o.subrange(17 + n, 17 + n + h) == hb
            &&& mtime is Some ==> bytes::le_value(o.subrange(17 + n + h, 25 + n + h)) == mtime->0
        }),
{
    lemma_offer_fields(name@, size as nat, host@, mtime);
    bytes::four_bytes_make_a_number(r@.subrange(1, 5));
}

/// An offer that is made is understood by the one who reads it.
pub proof fn made_offers_are_read(
    name: &str,
    size: u64,
    host: &str,
    mtime: Option<u64>,
    sent: Vec<u8>,
    got: &[u8],
    raw: Result<RawOffer, TransferError>,
    fallback: &str,
    r: Offer,
)
    requires
        call_ensures(encode_offer, (name, size, host, mtime), sent),
        got@ == sent@,
        call_ensures(parse_offer, (got,), raw),
        raw is Ok ==> call_ensures(read_offer, (raw->Ok_0, fallback), r),
        1 <= vstd::utf8::encode_utf8(name@).len() <= 4096,
        size <= 8_589_934_592,
        vstd::utf8::encode_utf8(host@).len() <= 256,
    ensures
        raw is Ok,
        r.name@ == name@,
        r.size == size,
        r.mtime == mtime,
        host@.len() > 0 ==> r.peer@ == host@,
        host@.len() == 0 ==> r.peer@ == fallback@,
{
    lemma_offer_fields(name@, size as nat, host@, mtime);
    assert(raw is Ok);
    reading_undoes_offering(name@, size, host@, mtime, raw->Ok_0, r, fallback@);
    if host@.len() == 0 {
        assert(vstd::utf8::encode_utf8(host@).len() == 0);
    } else {
        bytes::lemma_encode_concat(host@.take(1), host@.skip(1));
        assert(host@ =~= host@.take(1) + host@.skip(1));
        if vstd::utf8::encode_utf8(host@).len() == 0 {
            vstd::utf8::encode_utf8_decode_utf8(host@);
            vstd::utf8::encode_utf8_decode_utf8(Seq::<char>::empty());
            assert(vstd::utf8::encode_utf8(host@) =~= vstd::utf8::encode_utf8(
                Seq::<char>::empty(),
            ));
        }
    }
}

/// What is no offer, is cut off, or offers a name or a file out of bounds is refused.
pub proof fn bad_offers_are_refused(o: &[u8], r: Result<RawOffer, TransferError>)
    requires
        call_ensures(parse_offer, (o,), r),
    ensures
        o@.len() == 0 || o@[0] != 0x01 ==> r == Err::<RawOffer, TransferError>(
            TransferError::BadOffer,
        ),
        o@.len() > 0 && o@[0] == 0x01 && o@.len() < 5 ==> r == Err::<RawOffer, TransferError>(
            TransferError::OfferTooShort,
        ),
        o@.len() >= 5 && o@[0] == 0x01 ==> {
            let n = o@[1] + 256 * o@[2] + 65536 * o@[3] + 16777216 * o@[4];
            &&& n == 0 || n > 4096 ==> r == Err::<RawOffer, TransferError>(
                TransferError::BadNameLength,
            )
            &&& 1 <= n <= 4096 && o@.len() < n + 13 ==> r == Err::<RawOffer, TransferError>(
                TransferError::TruncatedOffer,
            )
            &&& 1 <= n <= 4096 && o@.len() >= n + 13 ==> {
                let size = bytes::le_value(o@.subrange(5 + n, 13 + n));
                &&& size > 8_589_934_592 ==> r == Err::<RawOffer, TransferError>(
                    TransferError::FileTooLarge,
                )
                &&& size <= 8_589_934_592 ==> r is Ok && r->Ok_0.name@ == o@.subrange(5, 5 + n)
                    && r->Ok_0.size == size
            }
        },
{
    if o@.len() >= 5 {
        bytes::four_bytes_make_a_number(o@.subrange(1, 5));
    }
}

/// A sender whose name is too long goes by its address.
pub proof fn long_names_are_not_taken(
    name: &str,
    size: u64,
    host: &str,
    mtime: Option<u64>,
    sent: Vec<u8>,
    got: &[u8],
    raw: Result<RawOffer, TransferError>,
    fallback: &str,
    r: Offer,
)
    requires
        call_ensures(encode_offer, (name, size, host, mtime), sent),
        got@ == sent@,
        call_ensures(parse_offer, (got,), raw),
        raw is Ok ==> call_ensures(read_offer, (raw->Ok_0, fallback), r),
        1 <= vstd::utf8::encode_utf8(name@).len() <= 4096,
        size <= 8_589_934_592,
        256 < vstd::utf8::encode_utf8(host@).len() < 0x1_0000_0000,
    ensures
        raw is Ok,
        r.name@ == name@,
        r.size == size,
        r.peer@ == fallback@,
{
    lemma_offer_fields(name@, size as nat, host@, mtime);
    assert(raw is Ok);
    reading_undoes_offering(name@, size, host@, mtime, raw->Ok_0, r, fallback@);
}

} // verus!
