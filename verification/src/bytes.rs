//! Numbers as bytes, the least significant byte first, and bytes as text.
use vstd::prelude::*;

verus! {

/// The lowest `len` bytes of `n`, the least significant one first.
pub open spec fn le_bytes(n: nat, len: nat) -> Seq<u8>
    decreases len,
{
    if len == 0 {
        seq![]
    } else {
        seq![(n % 256) as u8] + le_bytes(n / 256, (len - 1) as nat)
    }
}

/// The number whose bytes are `s`, the least significant one first.
pub open spec fn le_value(s: Seq<u8>) -> nat
    decreases s.len(),
{
    if s.len() == 0 {
        0
    } else {
        s[0] as nat + 256 * le_value(s.drop_first())
    }
}

/// The number of values that `len` bytes can take.
pub open spec fn le_bound(len: nat) -> nat
    decreases len,
{
    if len == 0 {
        1
    } else {
        256 * le_bound((len - 1) as nat)
    }
}

pub proof fn lemma_le_bytes_len(n: nat, len: nat)
    ensures
        le_bytes(n, len).len() == len,
    decreases len,
{
    if len > 0 {
        lemma_le_bytes_len(n / 256, (len - 1) as nat);
    }
}

pub proof fn lemma_le_value_bound(s: Seq<u8>)
    ensures
        le_value(s) < le_bound(s.len()),
    decreases s.len(),
{
    if s.len() > 0 {
        lemma_le_value_bound(s.drop_first());
    }
}

pub proof fn lemma_le_bounds()
    ensures
        le_bound(4) == 0x1_0000_0000,
        le_bound(8) == 0x1_0000_0000_0000_0000,
{
    reveal_with_fuel(le_bound, 9);
}

/// Reading the bytes of a number gives the number back, where the bytes can hold it.
pub proof fn le_round_trip(n: nat, len: nat)
    requires
        n < le_bound(len),
    ensures
        le_value(le_bytes(n, len)) == n,
    decreases len,
{
    if len > 0 {
        le_round_trip(n / 256, (len - 1) as nat);
        assert(le_bytes(n, len).drop_first() =~= le_bytes(n / 256, (len - 1) as nat));
    }
}

/// Appends the lowest `len` bytes of `n` to `out`.
pub fn push_le(out: &mut Vec<u8>, n: u64, len: usize)
    ensures
        final(out)@ == old(out)@ + le_bytes(n as nat, len as nat),
{
    let mut rest: u64 = n;
    let mut i: usize = 0;
    while i < len
        invariant
            i <= len,
            out@ + le_bytes(rest as nat, (len - i) as nat) == old(out)@ + le_bytes(
                n as nat,
                len as nat,
            ),
        decreases len - i,
    {
        let ghost before = out@;
        let ghost r = rest as nat;
        out.push((rest % 256) as u8);
        rest = rest / 256;
        assert(before + le_bytes(r, (len - i) as nat) =~= out@ + le_bytes(
            rest as nat,
            (len - i - 1) as nat,
        ));
        i = i + 1;
    }
    assert(out@ =~= out@ + le_bytes(rest as nat, 0));
}

/// The number whose bytes are the `len` bytes of `s` from index `from` on.
pub fn read_le(s: &[u8], from: usize, len: usize) -> (r: u64)
    requires
        len <= 8,
        from + len <= s@.len(),
    ensures
        r == le_value(s@.subrange(from as int, from + len)),
{
    let n: usize = s.len();
    let mut value: u64 = 0;
    let mut i: usize = len;
    assert(s@.subrange(from + len, from + len) =~= Seq::<u8>::empty());
    while i > 0
        invariant
            i <= len <= 8,
            from + len <= s@.len() == n,
            value == le_value(s@.subrange(from + i, from + len)),
        decreases i,
    {
        i = i - 1;
        let ghost t = s@.subrange(from + i, from + len);
        proof {
            assert(t.drop_first() =~= s@.subrange(from + i + 1, from + len));
            lemma_le_value_bound(t);
            reveal_with_fuel(le_bound, 9);
        }
        value = s[from + i] as u64 + 256 * value;
    }
    value
}

/// The error of `String::from_utf8`, opaque here.
#[verifier::external_type_specification]
#[verifier::external_body]
pub struct ExFromUtf8Error(std::string::FromUtf8Error);

/// The text that `String::from_utf8_lossy` makes of `data`.
pub uninterp spec fn utf8_lossy(data: Seq<u8>) -> Seq<char>;

/// Whether `r` is the text made of `data`: its decoding, where it is valid UTF-8.
pub open spec fn is_lossy_text(r: Seq<char>, data: Seq<u8>) -> bool {
    &&& r == utf8_lossy(data)
    &&& vstd::utf8::valid_utf8(data) ==> r == vstd::utf8::decode_utf8(data)
}

/// `String::from_utf8_lossy` of std: valid UTF-8 is decoded; of other bytes the result is only
/// named.
#[verifier::external_body]
pub(crate) fn lossy_text(data: &[u8]) -> (r: String)
    ensures
        r@ == utf8_lossy(data@),
        is_lossy_text(r@, data@),
{
    String::from_utf8_lossy(data).to_string()
}

/// `String::from_utf8` of std: the decoded text, if and only if the bytes are valid UTF-8.
#[verifier::external_body]
pub(crate) fn strict_text(data: Vec<u8>) -> (r: Result<String, std::string::FromUtf8Error>)
    ensures
        match r {
            Ok(s) => vstd::utf8::valid_utf8(data@) && s@ == vstd::utf8::decode_utf8(data@),
            Err(_) => !vstd::utf8::valid_utf8(data@),
        },
{
    String::from_utf8(data)
}

/// The bytes of two texts, one behind the other.
pub proof fn lemma_encode_concat(a: Seq<char>, b: Seq<char>)
    ensures
        vstd::utf8::encode_utf8(a + b) == vstd::utf8::encode_utf8(a) + vstd::utf8::encode_utf8(b),
    decreases a.len(),
{
    if a.len() == 0 {
        assert(a + b =~= b);
        assert(vstd::utf8::encode_utf8(a) =~= Seq::<u8>::empty());
        assert(vstd::utf8::encode_utf8(a) + vstd::utf8::encode_utf8(b)
            =~= vstd::utf8::encode_utf8(b));
    } else {
        lemma_encode_concat(a.drop_first(), b);
        assert((a + b).drop_first() =~= a.drop_first() + b);
        assert(vstd::utf8::encode_utf8(a + b) =~= vstd::utf8::encode_utf8(a)
            + vstd::utf8::encode_utf8(b));
    }
}

/// The bytes of a text make the text again.
pub proof fn lossy_text_of_text(t: Seq<char>, r: Seq<char>)
    requires
        is_lossy_text(r, vstd::utf8::encode_utf8(t)),
    ensures
        r == t,
{
    vstd::utf8::encode_utf8_valid_utf8(t);
    vstd::utf8::encode_utf8_decode_utf8(t);
}

/// The bytes `from..to` of `s`.
pub fn bytes_of(s: &[u8], from: usize, to: usize) -> (r: Vec<u8>)
    requires
        from <= to <= s@.len(),
    ensures
        r@ == s@.subrange(from as int, to as int),
{
    let part: &[u8] = vstd::slice::slice_subrange(s, from, to);
    let mut r: Vec<u8> = Vec::new();
    r.extend_from_slice(part);
    assert(r@ =~= part@);
    r
}

/// Four bytes make the number in which each counts 256 times the one before it.
pub proof fn four_bytes_make_a_number(s: Seq<u8>)
    requires
        s.len() == 4,
    ensures
        le_value(s) == s[0] + 256 * s[1] + 65536 * s[2] + 16777216 * s[3],
{
    reveal_with_fuel(le_value, 5);
    let a = s.drop_first();
    let b = a.drop_first();
    let c = b.drop_first();
    assert(a[0] == s[1] && b[0] == s[2] && c[0] == s[3]);
    assert(c.drop_first().len() == 0);
}

/// The byte `i` of a number is what the bytes before it leave of it.
pub proof fn bytes_of_a_number(n: nat, len: nat)
    requires
        len > 0,
    ensures
        le_bytes(n, len)[0] == n % 256,
        le_bytes(n, len).skip(1) == le_bytes(n / 256, (len - 1) as nat),
        le_bytes(n, len).len() == len,
{
    lemma_le_bytes_len(n, len);
    assert(le_bytes(n, len).skip(1) =~= le_bytes(n / 256, (len - 1) as nat));
}

} // verus!
