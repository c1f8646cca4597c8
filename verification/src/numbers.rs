//! Numbers as text: decimal and hexadecimal digits, and sizes with a unit.
use vstd::arithmetic::div_mod::lemma_fundamental_div_mod;
use vstd::arithmetic::power2::{lemma_pow2_pos, lemma_pow2_unfold, pow2};
use vstd::prelude::*;

use crate::text;

verus! {

/// The decimal digit `d`.
pub open spec fn digit(d: nat) -> char {
    (48 + d) as char
}

/// The decimal notation of `n`, without leading zeros.
pub open spec fn decimal(n: nat) -> Seq<char>
    decreases n,
{
    if n < 10 {
        seq![digit(n)]
    } else {
        decimal(n / 10).push(digit(n % 10))
    }
}

/// `s` behind as many zeros as it takes to make it `width` characters long.
pub open spec fn zero_pad(s: Seq<char>, width: nat) -> Seq<char> {
    if s.len() < width {
        Seq::new((width - s.len()) as nat, |i: int| '0') + s
    } else {
        s
    }
}

pub open spec fn is_digit(c: char) -> bool {
    '0' <= c <= '9'
}

/// Whether `s` holds decimal digits and nothing else.
pub open spec fn all_digits(s: Seq<char>) -> bool {
    forall|i: int| 0 <= i < s.len() ==> is_digit(#[trigger] s[i])
}

/// The number that the decimal digits `s` denote.
pub open spec fn digits_value(s: Seq<char>) -> nat
    decreases s.len(),
{
    if s.len() == 0 {
        0
    } else {
        digits_value(s.drop_last()) * 10 + (s.last() as nat - 48) as nat
    }
}

/// The number that `s` denotes: one or more decimal digits, behind a plus sign or not, whose
/// value is at most `max`.
pub open spec fn parse_number(s: Seq<char>, max: nat) -> Option<nat> {
    let t = if s.len() > 0 && s[0] == '+' {
        s.skip(1)
    } else {
        s
    };
    if t.len() > 0 && all_digits(t) && digits_value(t) <= max {
        Some(digits_value(t))
    } else {
        None
    }
}

/// The hexadecimal digit `d`, with capital letters.
pub open spec fn hex_upper(d: nat) -> char {
    if d < 10 {
        (48 + d) as char
    } else {
        (55 + d) as char
    }
}

/// The hexadecimal digit `d`, with small letters.
pub open spec fn hex_lower(d: nat) -> char {
    if d < 10 {
        (48 + d) as char
    } else {
        (87 + d) as char
    }
}

/// `n / d` to the nearest integer; of two equally near ones, the even one.
pub open spec fn round_half_even(n: nat, d: nat) -> nat {
    let q = n / d;
    let r = n % d;
    if 2 * r > d || (2 * r == d && q % 2 == 1) {
        q + 1
    } else {
        q
    }
}

/// By how many bits `n` is longer than `bits`.
pub open spec fn excess_bits(n: nat, bits: nat) -> nat
    decreases n,
{
    if n < pow2(bits) {
        0
    } else {
        proof {
            lemma_pow2_pos(bits);
        }
        1 + excess_bits(n / 2, bits)
    }
}

/// `n` to the nearest number with at most `bits` significant bits, to the even one of two
/// equally near ones: the binary floating-point number next to `n`.
pub open spec fn round_to_bits(n: nat, bits: nat) -> nat {
    let unit = pow2(excess_bits(n, bits));
    round_half_even(n, unit) * unit
}

// ---- facts ----

/// A decimal notation holds digits only, at least one, and denotes its number.
pub proof fn lemma_decimal(n: nat)
    ensures
        decimal(n).len() > 0,
        all_digits(decimal(n)),
        digits_value(decimal(n)) == n,
    decreases n,
{
    if n < 10 {
        let s = seq![digit(n)];
        assert(s.drop_last() =~= Seq::<char>::empty());
        assert(digits_value(s.drop_last()) == 0);
    } else {
        lemma_decimal(n / 10);
        let s = decimal(n);
        assert(s.drop_last() =~= decimal(n / 10));
        assert forall|i: int| 0 <= i < s.len() implies is_digit(#[trigger] s[i]) by {
            if i < decimal(n / 10).len() {
                assert(s[i] == decimal(n / 10)[i]);
            }
        }
    }
}

/// Reading the decimal notation of a number gives the number back.
pub proof fn decimal_round_trip(n: nat, max: nat)
    requires
        n <= max,
    ensures
        parse_number(decimal(n), max) == Some(n),
{
    lemma_decimal(n);
    assert(is_digit(decimal(n)[0]));
}

proof fn lemma_digits_value_prefix(s: Seq<char>, i: int)
    requires
        0 <= i <= s.len(),
        all_digits(s),
    ensures
        digits_value(s.take(i)) <= digits_value(s),
    decreases s.len() - i,
{
    if i == s.len() {
        assert(s.take(i) =~= s);
    } else {
        lemma_digits_value_prefix(s, i + 1);
        assert(s.take(i + 1).drop_last() =~= s.take(i));
        assert(is_digit(s[i]));
    }
}

// ---- executable ----

/// The decimal digit `d`.
pub fn digit_char(d: u8) -> (c: char)
    requires
        d < 10,
    ensures
        c == digit(d as nat),
{
    (48u8 + d) as char
}

/// Appends the decimal notation of `n` to `s`.
pub fn push_decimal(s: &mut String, n: u64)
    ensures
        final(s)@ == old(s)@ + decimal(n as nat),
    decreases n,
{
    if n >= 10 {
        push_decimal(s, n / 10);
    }
    s.push(digit_char((n % 10) as u8));
    assert(s@ =~= old(s)@ + decimal(n as nat));
}

/// The decimal notation of `n`.
pub fn decimal_of(n: u64) -> (r: String)
    ensures
        r@ == decimal(n as nat),
{
    let mut s: String = String::new();
    push_decimal(&mut s, n);
    assert(s@ =~= decimal(n as nat));
    s
}

/// Appends the decimal notation of `n` to `s`, in at least `width` characters.
pub fn push_padded(s: &mut String, n: u64, width: usize)
    ensures
        final(s)@ == old(s)@ + zero_pad(decimal(n as nat), width as nat),
{
    let d: String = decimal_of(n);
    let v: Vec<char> = text::chars_of(d.as_str());
    let mut i: usize = v.len();
    while i < width
        invariant
            v@ == decimal(n as nat),
            v@.len() <= i,
            i <= width || i == v@.len(),
            s@ == old(s)@ + Seq::new((i - v@.len()) as nat, |i: int| '0'),
        decreases width - i,
    {
        s.push('0');
        i = i + 1;
        assert(s@ =~= old(s)@ + Seq::new((i - v@.len()) as nat, |i: int| '0'));
    }
    s.append(d.as_str());
    assert(s@ =~= old(s)@ + zero_pad(decimal(n as nat), width as nat));
}

/// Appends the two hexadecimal digits of `b` to `s`, with capital letters.
pub fn push_hex_upper(s: &mut String, b: u8)
    ensures
        final(s)@ == old(s)@.push(hex_upper((b / 16) as nat)).push(hex_upper((b % 16) as nat)),
{
    s.push(hex_char(b / 16, 55));
    s.push(hex_char(b % 16, 55));
}

/// Appends the two hexadecimal digits of `b` to `s`, with small letters.
pub fn push_hex_lower(s: &mut String, b: u8)
    ensures
        final(s)@ == old(s)@.push(hex_lower((b / 16) as nat)).push(hex_lower((b % 16) as nat)),
{
    s.push(hex_char(b / 16, 87));
    s.push(hex_char(b % 16, 87));
}

fn hex_char(d: u8, letters: u8) -> (c: char)
    requires
        d < 16,
        letters == 55 || letters == 87,
    ensures
        c == (if letters == 55 {
            hex_upper(d as nat)
        } else {
            hex_lower(d as nat)
        }),
{
    if d < 10 {
        (48u8 + d) as char
    } else {
        (letters + d) as char
    }
}

/// The number that `s` denotes, where it is at most `max`.
pub fn read_number(s: &Vec<char>, max: u64) -> (r: Option<u64>)
    ensures
        match r {
            Some(n) => parse_number(s@, max as nat) == Some(n as nat),
            None => parse_number(s@, max as nat) is None,
        },
{
    let from: usize = if s.len() > 0 && s[0] == '+' {
        1
    } else {
        0
    };
    let ghost t = s@.skip(from as int);
    assert(from == 0 ==> t =~= s@);
    if from == s.len() {
        return None;
    }
    let mut value: u64 = 0;
    let mut i: usize = from;
    assert(t.take(0) =~= Seq::<char>::empty());
    while i < s.len()
        invariant
            from <= i <= s@.len(),
            from <= s@.len(),
            t == s@.skip(from as int),
            value == digits_value(t.take(i - from)),
            value <= max,
            forall|j: int| 0 <= j < i - from ==> is_digit(#[trigger] t[j]),
            parse_number(s@, max as nat) == (if t.len() > 0 && all_digits(t) && digits_value(t)
                <= max {
                Some(digits_value(t))
            } else {
                None
            }),
        decreases s@.len() - i,
    {
        let c: char = s[i];
        assert(t[i - from] == c);
        if c < '0' || c > '9' {
            assert(!is_digit(t[i - from]));
            return None;
        }
        let d: u64 = c as u64 - 48;
        proof {
            assert(t.take(i - from + 1).drop_last() =~= t.take(i - from));
            assert(digits_value(t.take(i - from + 1)) == value * 10 + d);
            if all_digits(t) {
                lemma_digits_value_prefix(t, i - from + 1);
            }
        }
        if d > max || value > (max - d) / 10 {
            assert(value * 10 + d > max);
            return None;
        }
        value = value * 10 + d;
        i = i + 1;
    }
    assert(t.take(i - from) =~= t);
    Some(value)
}

/// `n / d` to the nearest integer, to the even one of two equally near ones.
fn rounded(n: u128, d: u128) -> (r: u128)
    requires
        0 < d <= u128::MAX / 2,
        n < u128::MAX,
    ensures
        r == round_half_even(n as nat, d as nat),
{
    let q: u128 = n / d;
    let rest: u128 = n % d;
    assert(q <= n) by (nonlinear_arith)
        requires
            q == n / d,
            d > 0,
    ;
    if 2 * rest > d || (2 * rest == d && q % 2 == 1) {
        q + 1
    } else {
        q
    }
}

/// `n` to the nearest number with as many significant bits as the numbers below `limit` have.
fn nearest(n: u64, limit: u64, Ghost(bits): Ghost<nat>) -> (r: u128)
    requires
        limit == pow2(bits),
        limit >= 0x100_0000,
    ensures
        r == round_to_bits(n as nat, bits),
        r <= n + 0x200_0000_0000,
{
    let mut v: u64 = n;
    let mut unit: u128 = 1;
    let ghost mut k: nat = 0;
    proof {
        vstd::arithmetic::power2::lemma2_to64();
    }
    while v >= limit
        invariant
            limit == pow2(bits),
            limit >= 0x100_0000,
            excess_bits(n as nat, bits) == k + excess_bits(v as nat, bits),
            unit == pow2(k),
            0 < unit <= 0x200_0000_0000,
            v * unit <= n,
        decreases v,
    {
        let ghost w = v as int;
        let ghost u = unit as int;
        proof {
            lemma_pow2_unfold(k + 1);
            assert(u <= 0x100_0000_0000) by (nonlinear_arith)
                requires
                    w >= 0x100_0000,
                    w * u <= n,
                    n <= 0xffff_ffff_ffff_ffff,
                    u > 0,
            ;
            assert((w / 2) * (2 * u) <= w * u) by (nonlinear_arith)
                requires
                    u > 0,
            ;
            k = k + 1;
        }
        v = v / 2;
        unit = unit * 2;
    }
    let r: u128 = rounded(n as u128, unit);
    proof {
        let q = n as int / unit as int;
        lemma_fundamental_div_mod(n as int, unit as int);
        assert(r * unit <= n + unit) by (nonlinear_arith)
            requires
                r <= q + 1,
                q * unit <= n,
                unit > 0,
        ;
        assert(unit * q == q * unit) by (nonlinear_arith);
    }
    r * unit
}

/// `n` as a double-precision number.
fn nearest_double(n: u64) -> (r: u128)
    ensures
        r == round_to_bits(n as nat, 53),
        r <= n + 0x200_0000_0000,
{
    proof {
        vstd::arithmetic::power2::lemma2_to64();
        vstd::arithmetic::power2::lemma2_to64_rest();
    }
    nearest(n, 0x20_0000_0000_0000, Ghost(53))
}

/// `n` as a single-precision number.
pub fn nearest_single(n: u64) -> (r: u128)
    ensures
        r == round_to_bits(n as nat, 24),
        r <= n + 0x200_0000_0000,
{
    proof {
        vstd::arithmetic::power2::lemma2_to64();
    }
    nearest(n, 0x100_0000, Ghost(24))
}

/// The names of the units of size, each 1024 times the one before.
pub open spec fn unit_name(i: nat) -> Seq<char> {
    if i == 0 {
        "B"@
    } else if i == 1 {
        "KB"@
    } else if i == 2 {
        "MB"@
    } else if i == 3 {
        "GB"@
    } else {
        "TB"@
    }
}

/// The number of bytes in a unit of size.
pub open spec fn unit_bytes(i: nat) -> nat {
    if i == 0 {
        1
    } else if i == 1 {
        1024
    } else if i == 2 {
        1024 * 1024
    } else if i == 3 {
        1024 * 1024 * 1024
    } else {
        1024 * 1024 * 1024 * 1024
    }
}

/// The largest unit of which `bytes` holds at least one.
pub open spec fn unit_of(bytes: nat) -> nat {
    if bytes >= unit_bytes(4) {
        4
    } else if bytes >= unit_bytes(3) {
        3
    } else if bytes >= unit_bytes(2) {
        2
    } else if bytes >= unit_bytes(1) {
        1
    } else {
        0
    }
}

/// A size for display: bytes in full, larger units with one decimal. The size counts as the
/// double-precision number next to it, and the decimal is rounded to the nearest one.
pub open spec fn size_text(bytes: nat) -> Seq<char> {
    let unit = unit_of(bytes);
    if unit == 0 {
        decimal(bytes) + " B"@
    } else {
        let tenths = round_half_even(10 * round_to_bits(bytes, 53), unit_bytes(unit));
        decimal(tenths / 10).push('.').push(digit(tenths % 10)).push(' ') + unit_name(unit)
    }
}

/// The size `bytes` for display.
pub fn size_string(bytes: u64) -> (r: String)
    ensures
        r@ == size_text(bytes as nat),
{
    if bytes < 1024 {
        let mut s: String = decimal_of(bytes);
        s.append(" B");
        return s;
    }
    let (unit, name): (u64, &str) = if bytes >= 1024 * 1024 * 1024 * 1024 {
        (1024 * 1024 * 1024 * 1024, "TB")
    } else if bytes >= 1024 * 1024 * 1024 {
        (1024 * 1024 * 1024, "GB")
    } else if bytes >= 1024 * 1024 {
        (1024 * 1024, "MB")
    } else {
        (1024, "KB")
    };
    let tenths: u128 = rounded(10 * nearest_double(bytes), unit as u128);
    assert(tenths <= u64::MAX) by {
        let n = 10 * round_to_bits(bytes as nat, 53) as int;
        lemma_fundamental_div_mod(n, unit as int);
        let q = n / unit as int;
        assert(unit * q <= n);
        assert(q * 1024 <= q * unit) by (nonlinear_arith)
            requires
                q >= 0,
                unit >= 1024,
        ;
        assert(unit * q == q * unit) by (nonlinear_arith);
    }
    let tenths: u64 = tenths as u64;
    let mut s: String = decimal_of(tenths / 10);
    s.push('.');
    s.push(digit_char((tenths % 10) as u8));
    s.push(' ');
    s.append(name);
    s
}

/// A number that fits in the given bits is its own nearest one.
pub proof fn fitting_numbers_stay(n: nat, bits: nat)
    requires
        n < pow2(bits),
    ensures
        round_to_bits(n, bits) == n,
{
    vstd::arithmetic::power2::lemma2_to64();
    assert(excess_bits(n, bits) == 0);
    assert(n / 1 == n && n % 1 == 0);
}

/// The nearest integer is at most half away.
pub proof fn rounding_is_near(n: nat, d: nat)
    requires
        d > 0,
    ensures
        2 * (d * round_half_even(n, d) - n) <= d,
        2 * (n - d * round_half_even(n, d)) <= d,
{
    lemma_fundamental_div_mod(n as int, d as int);
    let q = n / d;
    assert(d * (q + 1) == d * q + d) by (nonlinear_arith);
}

/// A decimal notation is that of the number without its last digit, and that digit.
pub proof fn decimals_grow(n: nat, d: nat)
    requires
        d < 10,
    ensures
        n > 0 ==> decimal(10 * n + d) == decimal(n).push((48 + d) as char),
        decimal(d) == seq![(48 + d) as char],
{
    assert(decimal(d) =~= seq![(48 + d) as char]);
    if n > 0 {
        assert((10 * n + d) / 10 == n && (10 * n + d) % 10 == d);
    }
}

/// A size is said in the largest of the units it fills, of 1024 of the next smaller one each, and to
/// the nearest tenth of it; bytes are said in full.
pub proof fn sizes_are_said_to_a_tenth(bytes: u64, r: String)
    requires
        call_ensures(size_string, (bytes,), r),
        bytes < 0x20_0000_0000_0000,
    ensures
        bytes < 1024 ==> r@ == decimal(bytes as nat) + " B"@,
        1024 <= bytes < 1_048_576 ==> says_tenths(r@, bytes, 1024, "KB"@),
        1_048_576 <= bytes < 1_073_741_824 ==> says_tenths(r@, bytes, 1_048_576, "MB"@),
        1_073_741_824 <= bytes < 1_099_511_627_776 ==> says_tenths(
            r@,
            bytes,
            1_073_741_824,
            "GB"@,
        ),
        1_099_511_627_776 <= bytes ==> says_tenths(r@, bytes, 1_099_511_627_776, "TB"@),
{
    vstd::arithmetic::power2::lemma2_to64();
    vstd::arithmetic::power2::lemma2_to64_rest();
    if bytes >= 1024 {
        fitting_numbers_stay(bytes as nat, 53);
        let unit = unit_of(bytes as nat);
        let u = unit_bytes(unit);
        let t = round_half_even((10 * bytes) as nat, u);
        rounding_is_near((10 * bytes) as nat, u);
        decimals_grow(0, t % 10);
        assert(r@ =~= decimal(t / 10).push('.') + decimal(t % 10) + seq![' '] + unit_name(unit));
        assert(is_tenths(r@, bytes, u as int, unit_name(unit), t));
    }
}

/// Whether `s` says `t` tenths of a unit of `u` bytes, which is the nearest to `bytes`.
pub open spec fn is_tenths(s: Seq<char>, bytes: u64, u: int, unit: Seq<char>, t: nat) -> bool {
    &&& s == decimal(t / 10).push('.') + decimal(t % 10) + seq![' '] + unit
    &&& 2 * (u * t - 10 * bytes) <= u
    &&& 2 * (10 * bytes - u * t) <= u
}

/// Whether `s` says a size to the nearest tenth of a unit of `u` bytes.
pub open spec fn says_tenths(s: Seq<char>, bytes: u64, u: int, unit: Seq<char>) -> bool {
    exists|t: nat| is_tenths(s, bytes, u, unit, t)
}

proof fn lemma_value_over(n: nat, max: nat)
    requires
        n > max,
    ensures
        parse_number(decimal(n), max) is None,
{
    lemma_decimal(n);
    assert(is_digit(decimal(n)[0]));
}

/// A number up to the limit is read from its decimal notation, with or without a plus sign; a larger
/// one is not.
pub proof fn numbers_are_read(v: &Vec<char>, plus: bool, n: nat, max: u64, r: Option<u64>)
    requires
        call_ensures(read_number, (v, max), r),
        v@ == (if plus {
            seq!['+']
        } else {
            seq![]
        }) + decimal(n),
    ensures
        n <= max ==> r is Some && r->0 == n,
        n > max ==> r is None,
{
    lemma_decimal(n);
    assert(is_digit(decimal(n)[0]));
    let d = decimal(n);
    if plus {
        assert(v@.skip(1) =~= d);
        assert(v@[0] == '+');
    } else {
        assert(v@ =~= d);
    }
    if n <= max {
        decimal_round_trip(n, max as nat);
    } else {
        lemma_value_over(n, max as nat);
    }
    let e = if d[0] == '+' {
        d.skip(1)
    } else {
        d
    };
    assert(e == d);
}

/// What is not a number is not read as one: an empty text, and one that holds something else than
/// digits behind its first character.
pub proof fn other_texts_are_not_read(v: &Vec<char>, max: u64, i: int, r: Option<u64>)
    requires
        call_ensures(read_number, (v, max), r),
        v@.len() == 0 || (0 <= i < v@.len() && !('0' <= v@[i] <= '9') && !(i == 0 && v@[i]
            == '+')),
    ensures
        r is None,
{
    if v@.len() > 0 {
        if v@[0] == '+' {
            assert(v@.skip(1)[i - 1] == v@[i]);
            assert(!is_digit(v@.skip(1)[i - 1]));
        } else {
            assert(!is_digit(v@[i]));
        }
    }
}

/// A text is filled up with zeros before it, to the width and no further.
pub proof fn zeros_fill_up(s: Seq<char>, width: nat)
    ensures
        s.len() >= width ==> zero_pad(s, width) == s,
        s.len() < width ==> zero_pad(s, width).len() == width,
        s.len() < width ==> zero_pad(s, width).skip(width - s.len()) == s,
        forall|i: int| 0 <= i < width - s.len() ==> #[trigger] zero_pad(s, width)[i] == '0',
{
    if s.len() < width {
        assert(zero_pad(s, width).skip(width - s.len()) =~= s);
    }
}

/// A byte is written as two hexadecimal digits, the larger one first, that make up its value.
pub proof fn bytes_are_two_digits(s: &mut String, b: u8)
    requires
        call_ensures(push_hex_lower, (s, b), ()),
    ensures
        final(s)@.len() == old(s)@.len() + 2,
        final(s)@.take(old(s)@.len() as int) == old(s)@,
        16 * hex_value(final(s)@[old(s)@.len() as int]) + hex_value(final(s)@.last()) == b,
{
    assert(final(s)@.take(old(s)@.len() as int) =~= old(s)@);
}

/// The value of a hexadecimal digit.
pub open spec fn hex_value(c: char) -> int {
    if '0' <= c <= '9' {
        c as int - 48
    } else if 'a' <= c <= 'f' {
        c as int - 87
    } else {
        c as int - 55
    }
}

/// Of two equally near integers the even one is taken.
pub proof fn ties_go_to_even(n: nat, d: nat)
    requires
        d > 0,
        2 * (n % d) == d,
    ensures
        round_half_even(n, d) % 2 == 0,
        round_half_even(n, d) == n / d || round_half_even(n, d) == n / d + 1,
{
}

proof fn lemma_excess(n: nat, bits: nat)
    ensures
        n < pow2(bits + excess_bits(n, bits)),
        excess_bits(n, bits) > 0 ==> n >= pow2((bits + excess_bits(n, bits) - 1) as nat),
    decreases n,
{
    if n >= pow2(bits) {
        lemma_pow2_pos(bits);
        lemma_excess(n / 2, bits);
        let k = excess_bits(n, bits);
        lemma_pow2_unfold(bits + k);
        if k > 1 {
            lemma_pow2_unfold((bits + k - 1) as nat);
        }
    }
}

/// A number that does not fit in the given bits is rounded in its last places only: to a multiple of
/// a power of two, by at most half of that, where the power is the least that makes it fit.
pub proof fn long_numbers_are_rounded(n: nat, bits: nat, k: nat)
    requires
        n < pow2(bits + k),
        k > 0,
        n >= pow2((bits + k - 1) as nat),
    ensures
        2 * (round_to_bits(n, bits) - n) <= pow2(k),
        2 * (n - round_to_bits(n, bits)) <= pow2(k),
        exists|m: nat| round_to_bits(n, bits) == #[trigger] (m * pow2(k)),
{
    let e = excess_bits(n, bits);
    lemma_excess(n, bits);
    if e < k {
        vstd::arithmetic::power2::lemma_pow2_strictly_increases(
            (bits + e) as nat,
            (bits + k) as nat,
        );
        if bits + e < bits + k - 1 {
            vstd::arithmetic::power2::lemma_pow2_strictly_increases(
                (bits + e) as nat,
                (bits + k - 1) as nat,
            );
        }
    }
    if e > k {
        if bits + k < bits + e - 1 {
            vstd::arithmetic::power2::lemma_pow2_strictly_increases(
                (bits + k) as nat,
                (bits + e - 1) as nat,
            );
        }
    }
    assert(e == k);
    lemma_pow2_pos(k);
    rounding_is_near(n, pow2(k));
    let m = round_half_even(n, pow2(k));
    assert(m * pow2(k) == pow2(k) * m) by (nonlinear_arith);
    assert(round_to_bits(n, bits) == m * pow2(k));
}

} // verus!
