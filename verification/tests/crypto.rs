use rfshare::crypto::{
    decrypt_chunk, derive_key, encrypt_chunk, encrypt_with_nonce, ChunkError, KeyPair,
    AES_NONCE_LEN, AES_TAG_LEN,
};
use sha2::{Digest, Sha256};

fn unhex(s: &str) -> Vec<u8> {
    (0..s.len() / 2).map(|i| u8::from_str_radix(&s[2 * i..2 * i + 2], 16).unwrap()).collect()
}

fn unhex32(s: &str) -> [u8; 32] {
    let mut r = [0u8; 32];
    r.copy_from_slice(&unhex(s));
    r
}

#[test]
fn keys_agree_as_published() {
    let k = KeyPair::of_secret(unhex32(
        "a546e36bf0527c9d3b16154b82465edd62144c0ac1fc5a18506a2244ba449ac4",
    ));
    let theirs = unhex32("e6db6867583030db3594c1a424b15f7c726624ec26b3353b10a903a6d0ab1c4c");
    let shared = unhex32("c3da55379de9c6908e94ea4df28d084f32eccf03491c71f754b4075577a28552");
    assert_eq!(k.agree(&theirs), derive_key(&shared));
}

#[test]
fn both_sides_agree_on_a_key() {
    let alice = KeyPair::of_secret(unhex32(
        "77076d0a7318a57d3c16c17251b26645df4dd21aef5bc0bf4b5b5c4f7f6a7f0a",
    ));
    let a = KeyPair::random();
    let b = KeyPair::random();
    assert_ne!(a.secret, b.secret);
    assert_ne!(a.public, b.public);
    assert_eq!(a.agree(&b.public), b.agree(&a.public));
    assert_eq!(a.agree(&alice.public), alice.agree(&a.public));
    assert_ne!(a.agree(&b.public), a.agree(&alice.public));
}

#[test]
fn the_key_is_a_digest_of_the_secret() {
    let mut h = Sha256::new();
    h.update(b"shared");
    h.update(b"rfshare-v1");
    let expected: [u8; 32] = h.finalize().into();
    assert_eq!(derive_key(b"shared"), expected);
    assert_ne!(derive_key(b"shared"), derive_key(b"Shared"));
}

#[test]
fn chunks_are_encrypted_as_published() {
    let c = encrypt_with_nonce(&[0; 32], &[0; 12], &[0; 16]).unwrap();
    assert_eq!(c[..AES_NONCE_LEN].to_vec(), vec![0u8; 12]);
    assert_eq!(
        c[AES_NONCE_LEN..].to_vec(),
        unhex("cea7403d4d606b6e074ec5d3baf39d18d0d1c8a799996bf0265b98b5d48ab919")
    );
}

#[test]
fn decryption_gives_back_what_was_encrypted() {
    let key = derive_key(b"some secret");
    for text in [&b""[..], b"x", b"a longer piece of text, with more than one block in it"] {
        let c = encrypt_chunk(&key, text).unwrap();
        assert_eq!(c.len(), text.len() + AES_NONCE_LEN + AES_TAG_LEN);
        assert_eq!(decrypt_chunk(&key, &c).unwrap(), text);
        let d = encrypt_chunk(&key, text).unwrap();
        assert_ne!(c, d);
    }
}

#[test]
fn tampered_chunks_are_refused() {
    let key = derive_key(b"some secret");
    let mut c = encrypt_chunk(&key, b"hello").unwrap();
    let last = c.len() - 1;
    c[last] ^= 1;
    assert_eq!(decrypt_chunk(&key, &c).unwrap_err(), ChunkError::Decryption);
    assert_eq!(
        ChunkError::Decryption.message(),
        "Decryption failed — corrupted or tampered"
    );
    let good = encrypt_chunk(&key, b"hello").unwrap();
    assert_eq!(
        decrypt_chunk(&derive_key(b"other"), &good).unwrap_err(),
        ChunkError::Decryption
    );
}

#[test]
fn short_chunks_are_refused() {
    let key = [7u8; 32];
    assert_eq!(decrypt_chunk(&key, &[0; 27]).unwrap_err(), ChunkError::TooShort);
    assert_eq!(ChunkError::TooShort.message(), "Chunk too short");
    assert_eq!(decrypt_chunk(&key, &[0; 28]).unwrap_err(), ChunkError::Decryption);
    assert_eq!(ChunkError::Encryption.message(), "Enc: aead::Error");
}

#[test]
fn altered_chunks_never_give_the_text_back() {
    let key = [7u8; 32];
    let chunk = encrypt_chunk(&key, b"some text").unwrap();
    for i in AES_NONCE_LEN..chunk.len() {
        for bit in 0..8 {
            let mut altered = chunk.clone();
            altered[i] ^= 1 << bit;
            assert_eq!(decrypt_chunk(&key, &altered), Err(ChunkError::Decryption));
        }
    }
}
