//! Keys and encrypted chunks.
//!
//! Two devices agree on a key by X25519; a chunk is a random nonce followed by the AES-256-GCM
//! encryption of its plaintext.
use aes_gcm::aead::{Aead, KeyInit};
use rand::RngCore;
use sha2::Digest;
use vstd::prelude::*;

verus! {

/// The length of the nonce at the start of a chunk.
pub const AES_NONCE_LEN: usize = 12;

/// The length of the authentication tag at the end of a chunk.
pub const AES_TAG_LEN: usize = 16;

/// The length of a public key on the wire.
pub const X25519_KEY_LEN: usize = 32;

/// The longest plaintext that AES-GCM encrypts.
pub const PLAINTEXT_MAX: u64 = 0x10_0000_0000;

/// Why a chunk could not be made or read.
#[derive(Clone, Copy, Debug, PartialEq, Eq, Structural)]
pub enum ChunkError {
    /// The cipher refused the plaintext.
    Encryption,
    /// The chunk is too short for a nonce and a tag.
    TooShort,
    /// The tag does not belong to the rest of the chunk.
    Decryption,
}

impl ChunkError {
    pub open spec fn text(self) -> Seq<char> {
        match self {
            ChunkError::Encryption => "Enc: aead::Error"@,
            ChunkError::TooShort => "Chunk too short"@,
            ChunkError::Decryption => "Decryption failed — corrupted or tampered"@,
        }
    }

    /// The error for display.
    pub fn message(self) -> (r: String)
        ensures
            r@ == self.text(),
    {
        match self {
            ChunkError::Encryption => "Enc: aead::Error".to_string(),
            ChunkError::TooShort => "Chunk too short".to_string(),
            ChunkError::Decryption => "Decryption failed — corrupted or tampered".to_string(),
        }
    }
}

// ---- what the cryptographic crates compute ----

/// The error of the `aead` traits, which holds nothing.
#[verifier::external_type_specification]
#[verifier::external_body]
pub struct ExAeadError(aes_gcm::Error);

/// The SHA-256 digest of `data`.
pub uninterp spec fn sha256(data: Seq<u8>) -> Seq<u8>;

/// X25519: the scalar, clamped, times the point with the given u-coordinate.
pub uninterp spec fn x25519(scalar: Seq<u8>, point: Seq<u8>) -> Seq<u8>;

/// AES-256-GCM encryption without associated data: the ciphertext followed by the tag.
pub uninterp spec fn gcm_seal(key: Seq<u8>, nonce: Seq<u8>, plaintext: Seq<u8>) -> Seq<u8>;

/// AES-256-GCM decryption without associated data, where the tag is right.
pub uninterp spec fn gcm_open(key: Seq<u8>, nonce: Seq<u8>, ciphertext: Seq<u8>) -> Option<
    Seq<u8>,
>;

/// Whether no other text of the length of `plaintext` is encrypted under `key` and `nonce` to what
/// `ciphertext` holds before its tag.
pub open spec fn is_only_text(
    key: Seq<u8>,
    nonce: Seq<u8>,
    plaintext: Seq<u8>,
    ciphertext: Seq<u8>,
) -> bool {
    let n = plaintext.len();
    forall|q: Seq<u8>|
        q.len() == n && (#[trigger] gcm_seal(key, nonce, q)).take(n as int) == ciphertext.take(
            n as int,
        ) ==> q == plaintext
}

/// `Sha256::digest` of the crate `sha2`: the SHA-256 digest of the data, 32 bytes.
#[verifier::external_body]
pub(crate) fn sha256_digest(data: &[u8]) -> (r: [u8; 32])
    ensures
        r@ == sha256(data@),
{
    sha2::Sha256::digest(data).into()
}

/// `x25519` of the crate `x25519-dalek`. Of a multiple of the base point it is claimed that a
/// further multiplication by any scalar commutes with the one that made it: this is what lets two
/// sides agree on a secret.
#[verifier::external_body]
fn scalar_multiple(scalar: &[u8; 32], point: &[u8; 32]) -> (r: [u8; 32])
    ensures
        r@ == x25519(scalar@, point@),
        point@ == base_point() ==> forall|other: Seq<u8>|
            other.len() == 32 ==> #[trigger] x25519(other, r@) == x25519(
                scalar@,
                x25519(other, base_point()),
            ),
{
    x25519_dalek::x25519(*scalar, *point)
}

/// `encrypt` of `Aes256Gcm`, without associated data. The crate refuses a plaintext of more than
/// 2^36 bytes and no other; the result is 16 bytes longer than the plaintext, and decrypting it
/// under the same key and nonce gives the plaintext back. All but the last 16 bytes are the plaintext
/// combined with a stream of bytes that key and nonce make, so they belong to no other plaintext.
#[verifier::external_body]
fn gcm_encrypt(key: &[u8; 32], nonce: &[u8; 12], plaintext: &[u8]) -> (r: Result<
    Vec<u8>,
    aes_gcm::Error,
>)
    ensures
        r is Ok <==> plaintext@.len() <= PLAINTEXT_MAX,
        r matches Ok(c) ==> c@ == gcm_seal(key@, nonce@, plaintext@) && c@.len()
            == plaintext@.len() + AES_TAG_LEN && gcm_open(key@, nonce@, c@) == Some(plaintext@)
            && is_only_text(key@, nonce@, plaintext@, c@),
{
    let cipher = aes_gcm::Aes256Gcm::new(aes_gcm::Key::<aes_gcm::Aes256Gcm>::from_slice(key));
    cipher.encrypt(aes_gcm::Nonce::from_slice(nonce), plaintext)
}

/// `decrypt` of `Aes256Gcm`, without associated data. What it opens is 16 bytes shorter than the
/// ciphertext; where the plaintext is one that can be encrypted, its encryption under the same key
/// and nonce is the ciphertext, so nothing else is ever opened, and all but the last 16 bytes of the
/// ciphertext belong to no other plaintext.
#[verifier::external_body]
fn gcm_decrypt(key: &[u8; 32], nonce: &[u8; 12], ciphertext: &[u8]) -> (r: Result<
    Vec<u8>,
    aes_gcm::Error,
>)
    ensures
        match r {
            Ok(p) => gcm_open(key@, nonce@, ciphertext@) == Some(p@),
            Err(_) => gcm_open(key@, nonce@, ciphertext@) is None,
        },
        r matches Ok(p) ==> p@.len() + AES_TAG_LEN == ciphertext@.len() && (p@.len()
            <= PLAINTEXT_MAX ==> ciphertext@ == gcm_seal(key@, nonce@, p@) && is_only_text(
            key@,
            nonce@,
            p@,
            ciphertext@,
        )),
{
    let cipher = aes_gcm::Aes256Gcm::new(aes_gcm::Key::<aes_gcm::Aes256Gcm>::from_slice(key));
    cipher.decrypt(aes_gcm::Nonce::from_slice(nonce), ciphertext)
}

/// `fill_bytes` of the thread's generator of the crate `rand`. Nothing is claimed of the bytes.
#[verifier::external_body]
fn random_nonce() -> (r: [u8; 12]) {
    let mut nonce = [0u8; 12];
    rand::thread_rng().fill_bytes(&mut nonce);
    nonce
}

/// `fill_bytes` of the operating system's generator. Nothing is claimed of the bytes.
#[verifier::external_body]
fn random_secret() -> (r: [u8; 32]) {
    let mut secret = [0u8; 32];
    aes_gcm::aead::OsRng.fill_bytes(&mut secret);
    secret
}

// ---- key agreement ----

/// The u-coordinate 9, in 32 bytes.
pub open spec fn base_point() -> Seq<u8> {
    Seq::new(
        32,
        |i: int|
            if i == 0 {
                9u8
            } else {
                0u8
            },
    )
}

/// The public key that belongs to `secret`.
pub open spec fn public_of(secret: Seq<u8>) -> Seq<u8> {
    x25519(secret, base_point())
}

/// What is hashed into a key behind the shared secret.
pub open spec fn key_label() -> Seq<u8> {
    vstd::utf8::encode_utf8("rfshare-v1"@)
}

/// The key made of a shared secret.
pub open spec fn derived_key(shared: Seq<u8>) -> Seq<u8> {
    sha256(shared + key_label())
}

/// The key that the holder of `secret` shares with the holder of the public key `theirs`.
pub open spec fn session_key(secret: Seq<u8>, theirs: Seq<u8>) -> Seq<u8> {
    derived_key(x25519(secret, theirs))
}

/// A secret with its public key.
pub struct KeyPair {
    pub secret: [u8; 32],
    pub public: [u8; 32],
}

impl KeyPair {
    /// The public key belongs to the secret, and multiplying it by another secret commutes with
    /// the multiplication that made it.
    pub open spec fn valid(self) -> bool {
        &&& self.public@ == public_of(self.secret@)
        &&& forall|other: Seq<u8>|
            other.len() == 32 ==> #[trigger] x25519(other, self.public@) == x25519(
                self.secret@,
                public_of(other),
            )
    }

    /// A key pair with a random secret.
    pub fn random() -> (r: KeyPair)
        ensures
            r.valid(),
    {
        KeyPair::of_secret(random_secret())
    }

    /// The key pair of `secret`.
    pub fn of_secret(secret: [u8; 32]) -> (r: KeyPair)
        ensures
            r.valid(),
            r.secret == secret,
    {
        let mut base: [u8; 32] = [0u8; 32];
        base[0] = 9;
        assert(base@ =~= base_point());
        let public: [u8; 32] = scalar_multiple(&secret, &base);
        KeyPair { secret, public }
    }

    /// The key shared with the holder of the public key `theirs`.
    pub fn agree(&self, theirs: &[u8; 32]) -> (r: [u8; 32])
        ensures
            r@ == session_key(self.secret@, theirs@),
    {
        let shared: [u8; 32] = scalar_multiple(&self.secret, theirs);
        derive_key(&shared)
    }
}

/// The key made of a shared secret.
pub fn derive_key(shared: &[u8]) -> (r: [u8; 32])
    ensures
        r@ == derived_key(shared@),
{
    let mut data: Vec<u8> = Vec::new();
    data.extend_from_slice(shared);
    data.extend_from_slice("rfshare-v1".as_bytes());
    assert(data@ =~= shared@ + key_label());
    sha256_digest(data.as_slice())
}

/// Two sides that exchange public keys derive the same key.
pub proof fn both_sides_agree(mine: KeyPair, theirs: KeyPair)
    requires
        mine.valid(),
        theirs.valid(),
    ensures
        session_key(mine.secret@, theirs.public@) == session_key(theirs.secret@, mine.public@),
{
    assert(x25519(mine.secret@, theirs.public@) == x25519(
        theirs.secret@,
        public_of(mine.secret@),
    ));
}

// ---- chunks ----

/// The chunk that holds `plaintext` under `key` and `nonce`.
pub open spec fn chunk(key: Seq<u8>, nonce: Seq<u8>, plaintext: Seq<u8>) -> Seq<u8> {
    nonce + gcm_seal(key, nonce, plaintext)
}

/// Whether `data` is a chunk that holds `plaintext` under `key`, whatever its nonce.
pub open spec fn is_chunk_of(data: Seq<u8>, key: Seq<u8>, plaintext: Seq<u8>) -> bool {
    let nonce = data.take(AES_NONCE_LEN as int);
    &&& plaintext.len() <= PLAINTEXT_MAX
    &&& data.len() == AES_NONCE_LEN + plaintext.len() + AES_TAG_LEN
    &&& data == chunk(key, nonce, plaintext)
    &&& gcm_open(key, nonce, data.skip(AES_NONCE_LEN as int)) == Some(plaintext)
    &&& is_only_text(key, nonce, plaintext, data.skip(AES_NONCE_LEN as int))
}

/// What a chunk holds under `key`, or why it cannot be read.
pub open spec fn opened(key: Seq<u8>, data: Seq<u8>) -> Result<Seq<u8>, ChunkError> {
    if data.len() < AES_NONCE_LEN + AES_TAG_LEN {
        Err(ChunkError::TooShort)
    } else {
        match gcm_open(key, data.take(AES_NONCE_LEN as int), data.skip(AES_NONCE_LEN as int)) {
            Some(plaintext) => Ok(plaintext),
            None => Err(ChunkError::Decryption),
        }
    }
}

/// Whether `r` is what a chunk tells under `key`: what it holds, where it is a chunk, or why it cannot
/// be read.
pub open spec fn is_reading(
    r: Result<Seq<u8>, ChunkError>,
    key: Seq<u8>,
    data: Seq<u8>,
) -> bool {
    &&& r == opened(key, data)
    &&& r matches Ok(p) ==> p.len() + AES_NONCE_LEN + AES_TAG_LEN == data.len() && (p.len()
        <= PLAINTEXT_MAX ==> is_chunk_of(data, key, p))
}

/// The chunk that holds `plaintext` under `key` and `nonce`.
pub fn encrypt_with_nonce(key: &[u8; 32], nonce: &[u8; 12], plaintext: &[u8]) -> (r: Result<
    Vec<u8>,
    ChunkError,
>)
    ensures
        match r {
            Ok(c) => c@ == chunk(key@, nonce@, plaintext@) && is_chunk_of(
                c@,
                key@,
                plaintext@,
            ),
            Err(e) => e == ChunkError::Encryption && plaintext@.len() > PLAINTEXT_MAX,
        },
{
    match gcm_encrypt(key, nonce, plaintext) {
        Ok(ciphertext) => {
            let mut out: Vec<u8> = Vec::with_capacity(AES_NONCE_LEN);
            out.extend_from_slice(nonce.as_slice());
            out.extend_from_slice(ciphertext.as_slice());
            assert(out@ =~= nonce@ + ciphertext@);
            assert(out@.take(AES_NONCE_LEN as int) =~= nonce@);
            assert(out@.skip(AES_NONCE_LEN as int) =~= ciphertext@);
            Ok(out)
        },
        Err(_) => Err(ChunkError::Encryption),
    }
}

/// A chunk that holds `plaintext` under `key`, with a random nonce.
pub fn encrypt_chunk(key: &[u8; 32], plaintext: &[u8]) -> (r: Result<Vec<u8>, ChunkError>)
    ensures
        match r {
            Ok(c) => is_chunk_of(c@, key@, plaintext@),
            Err(e) => e == ChunkError::Encryption && plaintext@.len() > PLAINTEXT_MAX,
        },
{
    let nonce: [u8; 12] = random_nonce();
    encrypt_with_nonce(key, &nonce, plaintext)
}

/// What the chunk `data` holds under `key`.
pub fn decrypt_chunk(key: &[u8; 32], data: &[u8]) -> (r: Result<Vec<u8>, ChunkError>)
    ensures
        is_reading(
            match r {
                Ok(p) => Ok(p@),
                Err(e) => Err(e),
            },
            key@,
            data@,
        ),
{
    if data.len() < AES_NONCE_LEN + AES_TAG_LEN {
        return Err(ChunkError::TooShort);
    }
    let mut nonce: [u8; 12] = [0u8; 12];
    let mut i: usize = 0;
    while i < AES_NONCE_LEN
        invariant
            i <= AES_NONCE_LEN,
            data@.len() >= AES_NONCE_LEN + AES_TAG_LEN,
            forall|j: int| 0 <= j < i ==> nonce@[j] == data@[j],
        decreases AES_NONCE_LEN - i,
    {
        nonce[i] = data[i];
        i = i + 1;
    }
    let ciphertext: &[u8] = vstd::slice::slice_subrange(data, AES_NONCE_LEN, data.len());
    assert(nonce@ =~= data@.take(AES_NONCE_LEN as int));
    assert(ciphertext@ =~= data@.skip(AES_NONCE_LEN as int));
    match gcm_decrypt(key, &nonce, ciphertext) {
        Ok(p) => {
            assert(data@ =~= nonce@ + ciphertext@);
            Ok(p)
        },
        Err(_) => Err(ChunkError::Decryption),
    }
}

/// Decrypting a chunk gives back what was encrypted.
pub proof fn decryption_undoes_encryption(key: Seq<u8>, plaintext: Seq<u8>, data: Seq<u8>)
    requires
        is_chunk_of(data, key, plaintext),
    ensures
        opened(key, data) == Ok::<Seq<u8>, ChunkError>(plaintext),
{
}

/// A chunk that was altered behind its nonce never gives back what was encrypted.
pub proof fn altered_chunks_never_read_the_same(
    key: Seq<u8>,
    plaintext: Seq<u8>,
    data: Seq<u8>,
    altered: Seq<u8>,
    r: Result<Seq<u8>, ChunkError>,
)
    requires
        is_chunk_of(data, key, plaintext),
        altered != data,
        altered.take(AES_NONCE_LEN as int) == data.take(AES_NONCE_LEN as int),
        is_reading(r, key, altered),
    ensures
        r != Ok::<Seq<u8>, ChunkError>(plaintext),
{
}

/// A chunk whose tag was altered is refused.
pub proof fn altered_tags_are_refused(
    key: Seq<u8>,
    plaintext: Seq<u8>,
    data: Seq<u8>,
    altered: Seq<u8>,
    r: Result<Seq<u8>, ChunkError>,
)
    requires
        is_chunk_of(data, key, plaintext),
        altered != data,
        altered.len() == data.len(),
        altered.take(data.len() - AES_TAG_LEN) == data.take(data.len() - AES_TAG_LEN),
        is_reading(r, key, altered),
    ensures
        r == Err::<Seq<u8>, ChunkError>(ChunkError::Decryption),
{
    let n = plaintext.len() as int;
    let nonce = data.take(AES_NONCE_LEN as int);
    let head = data.take(data.len() - AES_TAG_LEN);
    assert(head.take(AES_NONCE_LEN as int) =~= nonce);
    assert(altered.take(data.len() - AES_TAG_LEN).take(AES_NONCE_LEN as int) =~= altered.take(
        AES_NONCE_LEN as int,
    ));
    if r is Ok {
        let q = r->Ok_0;
        assert(altered.skip(AES_NONCE_LEN as int) =~= gcm_seal(key, nonce, q));
        assert(head.skip(AES_NONCE_LEN as int) =~= data.skip(AES_NONCE_LEN as int).take(n));
        assert(altered.take(data.len() - AES_TAG_LEN).skip(AES_NONCE_LEN as int) =~= altered.skip(
            AES_NONCE_LEN as int,
        ).take(n));
        altered_chunks_never_read_the_same(key, plaintext, data, altered, r);
    }
}

// ---- what the calls give ----

/// Two devices that exchange public keys have the same key, and it is made of what they share and
/// the label of this program.
pub proof fn exchanged_keys_agree(
    a: [u8; 32],
    b: [u8; 32],
    mine: KeyPair,
    theirs: KeyPair,
    x: [u8; 32],
    y: [u8; 32],
)
    requires
        call_ensures(KeyPair::of_secret, (a,), mine),
        call_ensures(KeyPair::of_secret, (b,), theirs),
        call_ensures(KeyPair::agree, (&mine, &theirs.public), x),
        call_ensures(KeyPair::agree, (&theirs, &mine.public), y),
    ensures
        x@ == y@,
        mine.secret == a,
        theirs.secret == b,
        x@ == sha256(x25519(a@, theirs.public@) + vstd::utf8::encode_utf8("rfshare-v1"@)),
{
    both_sides_agree(mine, theirs);
}

/// A chunk is its nonce and what the cipher makes of the text, and is read back under the same key.
pub proof fn chunks_are_read_back(
    key: &[u8; 32],
    nonce: &[u8; 12],
    plaintext: &[u8],
    made: Result<Vec<u8>, ChunkError>,
    data: &[u8],
    r: Result<Vec<u8>, ChunkError>,
)
    requires
        call_ensures(encrypt_with_nonce, (key, nonce, plaintext), made),
        plaintext@.len() <= 0x10_0000_0000,
        made is Ok ==> data@ == made->Ok_0@,
        call_ensures(decrypt_chunk, (key, data), r),
    ensures
        made is Ok,
        data@.len() == plaintext@.len() + 28,
        data@.take(12) == nonce@,
        data@.skip(12) == gcm_seal(key@, nonce@, plaintext@),
        r is Ok,
        r->Ok_0@ == plaintext@,
{
    assert(data@.take(12) =~= nonce@);
    assert(data@.skip(12) =~= gcm_seal(key@, nonce@, plaintext@));
}

/// What is too short for a nonce and a tag is refused as such, and nothing else is.
pub proof fn short_chunks_are_refused(key: &[u8; 32], data: &[u8], r: Result<Vec<u8>, ChunkError>)
    requires
        call_ensures(decrypt_chunk, (key, data), r),
    ensures
        r == Err::<Vec<u8>, ChunkError>(ChunkError::TooShort) <==> data@.len() < 28,
        r is Err && data@.len() >= 28 ==> r->Err_0 == ChunkError::Decryption,
        r is Ok ==> r->Ok_0@.len() == data@.len() - 28,
{
}

} // verus!
