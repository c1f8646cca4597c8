use rfshare::crypto::{encrypt_chunk, ChunkError, KeyPair};
use rfshare::inbox::ReceivedFile;
use rfshare::offer::{encode_offer, parse_offer, read_offer, Offer, RawOffer};
use rfshare::paths::Style;
use rfshare::receiver::{decide, place, Decision, Existing, Phase, Received, Receiver};
use rfshare::sender::{Answer, Sender, Sent};
use rfshare::transfer::{
    packet_length, read_encrypted, write_encrypted, TransferError, CHUNK_SIZE, FILE_MAX, NAME_MAX,
    PACKET_MAX,
};

const KEY: [u8; 32] = [3; 32];

fn refused(o: &[u8]) -> TransferError {
    match parse_offer(o) {
        Ok(_) => panic!("accepted"),
        Err(e) => e,
    }
}

fn raw(o: &[u8]) -> RawOffer {
    match parse_offer(o) {
        Ok(r) => r,
        Err(e) => panic!("{}", e.message()),
    }
}

/// Feeds all of `bytes` to a receiver, cut as it wants them.
fn feed(r: &mut Receiver, bytes: &[u8], out: &mut Vec<u8>) -> Result<Vec<Received>, TransferError> {
    let mut news = Vec::new();
    let mut at = 0;
    while at < bytes.len() {
        let n = r.wanted().unwrap();
        let got = r.take(&bytes[at..at + n])?;
        at += n;
        if let Received::Part(p) = &got {
            out.extend_from_slice(p);
        }
        if !matches!(got, Received::More) {
            news.push(got);
        }
    }
    Ok(news)
}

fn reply_to(s: &mut Sender, bytes: &[u8]) -> Result<Answer, TransferError> {
    let mut at = 0;
    loop {
        let n = s.wanted().unwrap();
        let a = s.take(&bytes[at..at + n])?;
        at += n;
        if a != Answer::More {
            assert_eq!(at, bytes.len());
            return Ok(a);
        }
    }
}

#[test]
fn packets_are_read_as_they_were_written() {
    for data in [&b""[..], b"abc", &[9u8; 5000]] {
        let p = write_encrypted(&KEY, data).unwrap();
        assert_eq!(packet_length(&p[..4]), Ok(p.len() - 4));
        assert_eq!(read_encrypted(&KEY, &p[4..]).unwrap(), data);
    }
}

#[test]
fn large_packets_are_refused() {
    assert_eq!(PACKET_MAX, CHUNK_SIZE + 92);
    assert_eq!(packet_length(&(PACKET_MAX as u32).to_le_bytes()), Ok(PACKET_MAX));
    let e = packet_length(&(PACKET_MAX as u32 + 1).to_le_bytes()).unwrap_err();
    assert_eq!(e, TransferError::PacketTooLarge(262237));
    assert_eq!(e.message(), "Packet too large: 262237");
}

#[test]
fn broken_packets_are_refused() {
    let e = read_encrypted(&KEY, &[0; 10]).unwrap_err();
    assert_eq!(e, TransferError::Chunk(ChunkError::TooShort));
    assert_eq!(e.message(), "Chunk too short");
    let e = read_encrypted(&KEY, &[0; 40]).unwrap_err();
    assert_eq!(e, TransferError::Chunk(ChunkError::Decryption));
}

#[test]
fn offers_have_their_layout() {
    let o = encode_offer("ab", 0x0102, "h", None);
    assert_eq!(
        o,
        vec![1, 2, 0, 0, 0, b'a', b'b', 2, 1, 0, 0, 0, 0, 0, 0, 1, 0, 0, 0, b'h']
    );
    let o = encode_offer("a", 1, "", Some(5));
    assert_eq!(
        o,
        vec![1, 1, 0, 0, 0, b'a', 1, 0, 0, 0, 0, 0, 0, 0, 0, 0, 0, 0, 5, 0, 0, 0, 0, 0, 0, 0]
    );
}

#[test]
fn offers_are_read_as_they_were_written() {
    let o = read_offer(raw(&encode_offer("naïve.txt", 77, "desk", Some(1234))), "10.0.0.9");
    assert_eq!(o.name, "naïve.txt");
    assert_eq!(o.size, 77);
    assert_eq!(o.peer, "desk");
    assert_eq!(o.mtime, Some(1234));
    let o = read_offer(raw(&encode_offer("x", 0, "desk", None)), "10.0.0.9");
    assert_eq!(o.mtime, None);
    assert_eq!(o.peer, "desk");
}

#[test]
fn an_offer_without_a_usable_host_is_named_by_its_address() {
    let o = read_offer(raw(&encode_offer("x", 1, "", None)), "10.0.0.9");
    assert_eq!(o.peer, "10.0.0.9");
    let long = "h".repeat(257);
    let o = read_offer(raw(&encode_offer("x", 1, &long, None)), "10.0.0.9");
    assert_eq!(o.peer, "10.0.0.9");
    let bare = &encode_offer("x", 1, "", None)[..14];
    let o = read_offer(raw(bare), "unknown");
    assert_eq!(o.peer, "unknown");
    assert_eq!(o.mtime, None);
}

#[test]
fn broken_text_in_an_offer_is_replaced() {
    let mut o = encode_offer("ab", 1, "h", None);
    o[5] = 0xff;
    assert_eq!(read_offer(raw(&o), "x").name, "\u{fffd}b");
}

#[test]
fn offers_are_refused_for_each_reason() {
    assert_eq!(refused(&[]), TransferError::BadOffer);
    assert_eq!(refused(&[2, 0, 0, 0, 0]), TransferError::BadOffer);
    assert_eq!(TransferError::BadOffer.message(), "Bad offer");
    assert_eq!(refused(&[1, 1, 0, 0]), TransferError::OfferTooShort);
    assert_eq!(TransferError::OfferTooShort.message(), "Offer too short");
    assert_eq!(refused(&[1, 0, 0, 0, 0]), TransferError::BadNameLength);
    let long = "n".repeat(NAME_MAX + 1);
    assert_eq!(refused(&encode_offer(&long, 1, "h", None)), TransferError::BadNameLength);
    assert_eq!(TransferError::BadNameLength.message(), "Bad name length");
    assert_eq!(refused(&[1, 1, 0, 0, 0, b'a', 0, 0, 0, 0, 0, 0, 0]), TransferError::TruncatedOffer);
    assert_eq!(TransferError::TruncatedOffer.message(), "Truncated offer");
    assert_eq!(refused(&encode_offer("a", FILE_MAX + 1, "h", None)), TransferError::FileTooLarge);
    assert_eq!(TransferError::FileTooLarge.message(), "File too large (>8 GB)");
    assert_eq!(raw(&encode_offer(&long[1..], FILE_MAX, "h", None)).size, FILE_MAX);
}

#[test]
fn newer_files_are_kept_in_synchronisation() {
    let e = |mtime, len| Some(Existing { mtime, len });
    assert_eq!(decide(Some(100), 10, e(100, 10)), Decision::Skip);
    assert_eq!(decide(Some(100), 10, e(101, 3)), Decision::Skip);
    assert_eq!(decide(Some(100), 10, e(99, 10)), Decision::Replace);
    assert_eq!(decide(Some(100), 10, None), Decision::Replace);
}

#[test]
fn plain_transfers_are_resumed_or_renamed() {
    let e = |mtime, len| Some(Existing { mtime, len });
    assert_eq!(decide(None, 10, None), Decision::Replace);
    assert_eq!(decide(None, 10, e(5, 4)), Decision::Resume(4));
    assert_eq!(decide(None, 10, e(5, 10)), Decision::Rename);
    assert_eq!(decide(None, 10, e(5, 11)), Decision::Rename);
    assert_eq!(decide(None, 0, e(5, 0)), Decision::Replace);
    assert_eq!(decide(None, 0, e(5, 3)), Decision::Resume(3));
}

#[test]
fn a_file_arrives_as_it_was_sent() {
    let a = KeyPair::random();
    let b = KeyPair::random();
    let mut s = Sender::new(a.agree(&b.public), false);
    let mut r = Receiver::new(b.agree(&a.public));
    let data: Vec<u8> = (0..700_000u32).map(|i| (i * 7 % 251) as u8).collect();

    let mut out = Vec::new();
    let offer = s.offer("photo.png", data.len() as u64, "laptop", None).unwrap();
    let news = feed(&mut r, &offer, &mut out).unwrap();
    assert_eq!(news.len(), 1);
    match &news[0] {
        Received::Offered(raw) => {
            assert_eq!(raw.name, b"photo.png".to_vec());
            assert_eq!(raw.size, 700_000);
        },
        _ => panic!("no offer"),
    }
    assert_eq!(r.phase, Phase::Decision);
    let reply = r.answer(decide(None, data.len() as u64, None)).unwrap();
    assert_eq!(reply_to(&mut s, &reply), Ok(Answer::SendFrom(0)));
    for chunk in data.chunks(CHUNK_SIZE) {
        let p = s.part(chunk).unwrap();
        feed(&mut r, &p, &mut out).unwrap();
    }
    let news = feed(&mut r, &s.end(), &mut out).unwrap();
    assert!(matches!(news[0], Received::Complete));
    assert_eq!(out, data);
    assert_eq!(r.wanted(), None);
}

#[test]
fn an_interrupted_file_is_resumed() {
    let mut s = Sender::new(KEY, false);
    let mut r = Receiver::new(KEY);
    let mut out = b"01234".to_vec();
    let offer = s.offer("n.txt", 10, "laptop", None).unwrap();
    feed(&mut r, &offer, &mut Vec::new()).unwrap();
    let d = decide(None, 10, Some(Existing { mtime: 1, len: 5 }));
    let reply = r.answer(d).unwrap();
    assert_eq!(reply_to(&mut s, &reply), Ok(Answer::SendFrom(5)));
    let p = s.part(b"56789").unwrap();
    feed(&mut r, &p, &mut out).unwrap();
    feed(&mut r, &s.end(), &mut out).unwrap();
    assert_eq!(out, b"0123456789");
}

#[test]
fn a_synchronised_file_may_be_skipped() {
    let mut s = Sender::new(KEY, true);
    let mut r = Receiver::new(KEY);
    let offer = s.offer("n.txt", 10, "laptop", Some(50)).unwrap();
    feed(&mut r, &offer, &mut Vec::new()).unwrap();
    let reply = r.answer(decide(Some(50), 10, Some(Existing { mtime: 50, len: 10 }))).unwrap();
    assert_eq!(reply, vec![5]);
    assert_eq!(reply_to(&mut s, &reply), Ok(Answer::Skipped));
    assert_eq!(r.wanted(), None);
}

#[test]
fn a_plain_sender_takes_no_skip() {
    let mut s = Sender::new(KEY, false);
    let e = reply_to(&mut s, &[5]).unwrap_err();
    assert_eq!(e, TransferError::BadHandshake);
    assert_eq!(e.message(), "Bad handshake response");
    let mut s = Sender::new(KEY, true);
    assert_eq!(reply_to(&mut s, &[9]), Err(TransferError::BadHandshake));
}

#[test]
fn a_short_offset_is_refused() {
    let mut s = Sender::new(KEY, false);
    let mut bytes = vec![2u8];
    bytes.extend_from_slice(&write_encrypted(&KEY, &[1, 2, 3]).unwrap());
    let e = reply_to(&mut s, &bytes).unwrap_err();
    assert_eq!(e, TransferError::ShortResume);
    assert_eq!(e.message(), "Short resume payload");
}

#[test]
fn unknown_packets_and_wrong_sizes_are_refused() {
    let mut r = Receiver::new(KEY);
    let s = Sender::new(KEY, false);
    let mut out = Vec::new();
    feed(&mut r, &s.offer("n", 4, "h", None).unwrap(), &mut out).unwrap();
    r.answer(Decision::Replace).unwrap();
    let e = feed(&mut r, &[0xab], &mut out).err().unwrap();
    assert_eq!(e, TransferError::UnknownPacket(0xab));
    assert_eq!(e.message(), "Unknown packet 0xab");
    let p = s.part(b"abc").unwrap();
    feed(&mut r, &p, &mut out).unwrap();
    let e = feed(&mut r, &s.end(), &mut out).err().unwrap();
    assert_eq!(e, TransferError::SizeMismatch { expected: 4, received: 3 });
    assert_eq!(e.message(), "Size mismatch: 4 vs 3");
}

#[test]
fn a_receiver_refuses_what_it_cannot_read() {
    let mut r = Receiver::new(KEY);
    let mut foreign = (31u32).to_le_bytes().to_vec();
    foreign.extend_from_slice(&encrypt_chunk(&[4; 32], b"abc").unwrap());
    let e = feed(&mut r, &foreign, &mut Vec::new()).err().unwrap();
    assert_eq!(e, TransferError::Chunk(ChunkError::Decryption));
    let mut r = Receiver::new(KEY);
    let junk = write_encrypted(&KEY, b"zzz").unwrap();
    assert_eq!(feed(&mut r, &junk, &mut Vec::new()).err(), Some(TransferError::BadOffer));
}

#[test]
fn progress_counts_bytes() {
    let mut p = Sent { bytes: 5, size: 20 };
    assert!(p.advance(10));
    assert_eq!(p, Sent { bytes: 15, size: 20 });
    let mut empty = Sent { bytes: 0, size: 0 };
    assert!(!empty.advance(0));
}

#[test]
fn where_a_file_goes() {
    let offer = |mtime| Offer {
        name: "a.txt".to_string(),
        size: 10,
        peer: "desk".to_string(),
        mtime,
    };
    let there = |p: &str| p == "/d/a.txt";
    let old = Some(Existing { mtime: 5, len: 4 });
    let p = place(&offer(None), "/d", Style::Unix, false, old, there).unwrap();
    assert_eq!(p.path, "/d/a.txt");
    assert_eq!(p.decision, Decision::Resume(4));
    assert_eq!(p.decision.start(), 4);
    assert!(!p.remove);
    let p = place(&offer(Some(9)), "/d", Style::Unix, false, old, there).unwrap();
    assert_eq!(p.path, "/d/a.txt");
    assert_eq!(p.decision, Decision::Replace);
    assert_eq!(p.decision.start(), 0);
    assert!(p.remove);
    let p = place(&offer(Some(9)), "/d", Style::Unix, true, old, there).unwrap();
    assert_eq!(p.path, "/d/a (1).txt");
    assert_eq!(p.decision, Decision::Rename);
    let p = place(&offer(None), "/d", Style::Unix, true, None, |_: &str| false).unwrap();
    assert_eq!(p.path, "/d/a.txt");
    let whole = Some(Existing { mtime: 5, len: 10 });
    assert_eq!(place(&offer(None), "/d", Style::Unix, false, whole, there).unwrap().path, "/d/a (1).txt");
    let f = ReceivedFile::new(offer(None), "/d/a.txt".to_string());
    assert_eq!((f.name.as_str(), f.size, f.seen), ("a.txt", 10, false));
    assert_eq!(f.peer_name, "desk");
}

#[test]
fn received_files_stay_in_the_save_directory() {
    let offer = |name: &str, mtime| Offer {
        name: name.to_string(),
        size: 10,
        peer: "desk".to_string(),
        mtime,
    };
    let old = Some(Existing { mtime: 5, len: 4 });
    for name in ["/x", "../x", "a/../../x", "/etc/x/"] {
        for (mtime, relay) in [(None, false), (Some(9), false), (None, true)] {
            let p = place(&offer(name, mtime), "d", Style::Unix, relay, old, |_: &str| false).unwrap();
            assert_eq!((p.path.as_str(), p.name.as_str()), ("d/x", "x"));
        }
    }
    let p = place(&offer("..\\x", None), "C:\\d", Style::Windows, false, None, |_: &str| false).unwrap();
    assert_eq!(p.path, "C:\\d\\x");
    for name in ["..", "/", ".", "", "a/.."] {
        let e = place(&offer(name, None), "d", Style::Unix, false, None, |_: &str| false).err();
        assert_eq!(e, Some(TransferError::UnusableName));
    }
    assert_eq!(TransferError::UnusableName.message(), "Unusable file name");
}

#[test]
fn what_is_read_goes_out_part_by_part() {
    let s = Sender::new(KEY, false);
    let p = s.next(b"abc").unwrap();
    assert_eq!(p[0], 3);
    assert_eq!(read_encrypted(&KEY, &p[5..]).unwrap(), b"abc");
    assert_eq!(s.next(b"").unwrap(), vec![4]);
}
