//! The licence: its key, its plan and the file that keeps it.
use vstd::prelude::*;

use crate::crypto;
use crate::numbers;
use crate::paths;
use crate::paths::Style;
use crate::text;

verus! {

#[derive(Clone, Copy, Debug, PartialEq, Eq, Structural)]
pub enum Plan {
    Free,
    Pro,
}

/// A licence.
#[derive(Debug)]
pub struct License {
    pub plan: Plan,
    pub email: String,
    pub key: String,
}

/// What is hashed behind the first four groups of a key.
pub open spec fn pro_salt() -> Seq<u8> {
    vstd::utf8::encode_utf8("rfshare-pro-salt"@)
}

/// Whether a text is five bytes long.
pub open spec fn is_group(s: Seq<char>) -> bool {
    vstd::utf8::encode_utf8(s).len() == 5
}

/// Whether a key has the shape of one: five groups of five bytes, with hyphens between them.
pub open spec fn has_key_shape(key: Seq<char>) -> bool {
    let g = text::split(key, '-');
    g.len() == 5 && forall|i: int| 0 <= i < 5 ==> is_group(#[trigger] g[i])
}

/// The first four groups of a key.
pub open spec fn key_body(key: Seq<char>) -> Seq<char> {
    let g = text::split(key, '-');
    g[0] + "-"@ + g[1] + "-"@ + g[2] + "-"@ + g[3]
}

/// The last group of a key.
pub open spec fn key_check(key: Seq<char>) -> Seq<char> {
    text::split(key, '-')[4]
}

/// The digest that the last group of a key is taken from.
pub open spec fn key_digest(body: Seq<char>) -> Seq<u8> {
    crypto::sha256(vstd::utf8::encode_utf8(body) + pro_salt())
}

/// The first five hexadecimal digits of a digest, with capital letters.
pub open spec fn check_digits(digest: Seq<u8>) -> Seq<char> {
    seq![
        numbers::hex_upper((digest[0] / 16) as nat),
        numbers::hex_upper((digest[0] % 16) as nat),
        numbers::hex_upper((digest[1] / 16) as nat),
        numbers::hex_upper((digest[1] % 16) as nat),
        numbers::hex_upper((digest[2] / 16) as nat),
    ]
}

/// Whether `key` is a valid key: its last group, in capital letters, begins the digest of the others.
/// A last group that is not ASCII never does: no other character becomes, in capital letters, as many
/// hexadecimal digits as it takes up bytes.
pub open spec fn is_valid_key(key: Seq<char>) -> bool {
    &&& has_key_shape(key)
    &&& text::is_ascii(key_check(key))
    &&& text::ascii_upper(key_check(key)) == check_digits(key_digest(key_body(key)))
}

/// The body and the last group of a key that has the shape of one.
pub fn key_parts(key: &str) -> (r: Option<(String, String)>)
    ensures
        match r {
            Some((body, check)) => has_key_shape(key@) && body@ == key_body(key@) && check@
                == key_check(key@),
            None => !has_key_shape(key@),
        },
{
    let k: Vec<char> = text::chars_of(key);
    let groups: Vec<Vec<char>> = text::split_chars(&k, '-');
    let ghost g = text::split(key@, '-');
    assert(text::texts(groups@) == g);
    assert(g.len() == groups@.len());
    if groups.len() != 5 {
        return None;
    }
    let mut i: usize = 0;
    while i < 5
        invariant
            i <= 5,
            groups@.len() == 5,
            text::texts(groups@) == g,
            g == text::split(key@, '-'),
            forall|j: int| 0 <= j < i ==> is_group(#[trigger] g[j]),
        decreases 5 - i,
    {
        let s: String = text::string_of(&groups[i]);
        assert(s@ == g[i as int]);
        if s.as_str().as_bytes().len() != 5 {
            assert(!is_group(g[i as int]));
            return None;
        }
        i = i + 1;
    }
    let mut body: String = text::string_of(&groups[0]);
    body.append("-");
    body.append(text::string_of(&groups[1]).as_str());
    body.append("-");
    body.append(text::string_of(&groups[2]).as_str());
    body.append("-");
    body.append(text::string_of(&groups[3]).as_str());
    let check: String = text::string_of(&groups[4]);
    assert(body@ =~= key_body(key@));
    Some((body, check))
}

/// Whether a last group, in capital letters, begins `digest`.
pub fn check_matches(check: &str, digest: &[u8; 32]) -> (r: bool)
    ensures
        r == (check@ == check_digits(digest@)),
{
    let mut expected: String = String::new();
    numbers::push_hex_upper(&mut expected, digest[0]);
    numbers::push_hex_upper(&mut expected, digest[1]);
    numbers::push_hex_upper(&mut expected, digest[2]);
    let all: Vec<char> = text::chars_of(expected.as_str());
    let five: Vec<char> = text::part_of(&all, 0, 5);
    assert(five@ =~= check_digits(digest@));
    text::is_text(&five, check)
}

impl License {
    /// Where the licence is kept, by the directory of the user's settings.
    pub fn config_path(config_dir: Option<&str>, style: Style) -> (r: Option<String>)
        ensures
            match (config_dir, r) {
                (Some(d), Some(p)) => p@ == paths::join(
                    paths::join(d@, "rfshare"@, style),
                    "license"@,
                    style,
                ),
                (None, None) => true,
                _ => false,
            },
    {
        match config_dir {
            Some(d) => {
                let own: String = paths::joined(d, "rfshare", style);
                Some(paths::joined(own.as_str(), "license", style))
            },
            None => None,
        }
    }

    /// Whether `key` is a valid key.
    pub fn validate_key(key: &str) -> (r: bool)
        ensures
            r == is_valid_key(key@),
    {
        match key_parts(key) {
            None => false,
            Some((body, check)) => {
                if !text::all_ascii(check.as_str()) {
                    return false;
                }
                let mut data: Vec<u8> = Vec::new();
                data.extend_from_slice(body.as_str().as_bytes());
                data.extend_from_slice("rfshare-pro-salt".as_bytes());
                assert(data@ =~= vstd::utf8::encode_utf8(body@) + pro_salt());
                let digest: [u8; 32] = crypto::sha256_digest(data.as_slice());
                let check: String = text::uppercased(check.as_str());
                check_matches(check.as_str(), &digest)
            },
        }
    }

    pub fn is_pro(&self) -> (r: bool)
        ensures
            r == (self.plan is Pro),
    {
        self.plan == Plan::Pro
    }

    /// The licence of someone who has none.
    pub fn free() -> (r: License)
        ensures
            r.plan is Free && r.email@ == ""@ && r.key@ == ""@,
    {
        License { plan: Plan::Free, email: "".to_string(), key: "".to_string() }
    }

    /// The file that keeps this licence.
    pub fn save(&self) -> (r: String)
        ensures
            r@ == file_text(self.email@, self.key@),
    {
        let mut s: String = "email=".to_string();
        s.append(self.email.as_str());
        s.append("\nkey=");
        s.append(self.key.as_str());
        s.append("\n");
        s
    }

    /// The licence that a file keeps; none without a file or with a key that is not valid.
    pub fn load(file: Option<&str>) -> (r: License)
        ensures
            match file {
                Some(f) => if is_valid_key(field_in(text::lines(f@), "key="@)) {
                    r.plan is Pro && r.email@ == field_in(text::lines(f@), "email="@) && r.key@
                        == field_in(text::lines(f@), "key="@)
                } else {
                    r.plan is Free && r.email@ == ""@ && r.key@ == ""@
                },
                None => r.plan is Free && r.email@ == ""@ && r.key@ == ""@,
            },
    {
        match file {
            None => License::free(),
            Some(f) => {
                let lines: Vec<Vec<char>> = text::lines_of(f);
                let email: String = read_field(&lines, "email=");
                let key: String = read_field(&lines, "key=");
                if License::validate_key(key.as_str()) {
                    License { plan: Plan::Pro, email, key }
                } else {
                    License::free()
                }
            },
        }
    }
}

/// The file that keeps a licence.
pub open spec fn file_text(email: Seq<char>, key: Seq<char>) -> Seq<char> {
    "email="@ + email + "\nkey="@ + key + "\n"@
}

/// The value in the last line that begins with `prefix`, without white space around it; empty where
/// no line does.
pub open spec fn field_in(lines: Seq<Seq<char>>, prefix: Seq<char>) -> Seq<char>
    decreases lines.len(),
{
    if lines.len() == 0 {
        ""@
    } else {
        match text::strip_prefix(lines.last(), prefix) {
            Some(v) => text::trim(v),
            None => field_in(lines.drop_last(), prefix),
        }
    }
}

fn read_field(lines: &Vec<Vec<char>>, prefix: &str) -> (r: String)
    ensures
        r@ == field_in(text::texts(lines@), prefix@),
{
    let ghost all = text::texts(lines@);
    let mut i: usize = lines.len();
    assert(all.take(i as int) =~= all);
    while i > 0
        invariant
            i <= lines@.len(),
            all == text::texts(lines@),
            field_in(all, prefix@) == field_in(all.take(i as int), prefix@),
        decreases i,
    {
        proof {
            assert(all.take(i as int).last() == lines@[i - 1]@);
            assert(all.take(i as int).drop_last() =~= all.take(i - 1));
        }
        match text::after_prefix(&lines[i - 1], prefix) {
            Some(v) => {
                let t: Vec<char> = text::trim_chars(&v);
                return text::string_of(&t);
            },
            None => {},
        }
        i = i - 1;
    }
    "".to_string()
}

// ---- laws ----

/// A text that a file of settings gives back: it ends no line and has no white space around it.
pub open spec fn fits_field(s: Seq<char>) -> bool {
    text::lacks(s, '\n') && text::trim(s) == s && (s.len() > 0 ==> s.last() != '\r')
}

/// Reading a saved licence gives its email address and its key back.
pub proof fn license_round_trip(email: Seq<char>, key: Seq<char>)
    requires
        fits_field(email),
        fits_field(key),
    ensures
        field_in(text::lines(file_text(email, key)), "email="@) == email,
        field_in(text::lines(file_text(email, key)), "key="@) == key,
{
    reveal_strlit("email=");
    reveal_strlit("key=");
    reveal_strlit("\nkey=");
    reveal_strlit("\n");
    reveal_strlit("");
    let first = "email="@ + email;
    let second = "key="@ + key;
    let file = file_text(email, key);
    let rest = second.push('\n') + Seq::<char>::empty();
    assert(file =~= first.push('\n') + rest);
    text::lemma_lines_first(file, first, rest);
    text::lemma_lines_first(rest, second, Seq::<char>::empty());
    let l = text::lines(file);
    assert(text::lines(Seq::<char>::empty()) =~= Seq::<Seq<char>>::empty());
    assert(l =~= seq![first, second]);
    assert(l.drop_last() =~= seq![first]);
    assert(second.take(4) =~= "key="@);
    assert(second.skip(4) =~= key);
    assert(first.take(6) =~= "email="@);
    assert(first.skip(6) =~= email);
    assert(!text::starts_with(second, "email="@)) by {
        if second.len() >= 6 {
            assert(second.take(6)[0] == 'k');
        }
    }
    assert(field_in(seq![first], "email="@) == email);
}

/// The key made of a body and a last group.
pub open spec fn key_of(body: Seq<char>, check: Seq<char>) -> Seq<char> {
    body.push('-') + check
}

proof fn lemma_key_groups(body: Seq<char>, check: Seq<char>)
    requires
        text::lacks(check, '-'),
    ensures
        text::split(key_of(body, check), '-') == text::split(body, '-').push(check),
    decreases body.len(),
{
    let key = key_of(body, check);
    text::lemma_position(body, '-');
    let p = text::position(body, '-') as int;
    text::lemma_split_whole(check, '-');
    assert forall|i: int| 0 <= i < p implies key[i] != '-' by {
        assert(key[i] == body[i]);
    }
    assert(key[p] == '-') by {
        if p < body.len() {
            assert(key[p] == body[p]);
        }
    }
    text::lemma_position_is(key, '-', p);
    assert(key.take(p) =~= body.take(p));
    if p < body.len() {
        let rest = body.skip(p + 1);
        lemma_key_groups(rest, check);
        assert(key.skip(p + 1) =~= key_of(rest, check));
        assert(text::split(key, '-') =~= text::split(body, '-').push(check));
    } else {
        assert(body.take(p) =~= body);
        assert(key.skip(p + 1) =~= check);
        assert(text::split(key, '-') =~= text::split(body, '-').push(check));
    }
}

proof fn lemma_same_bodies(body: Seq<char>, x: Seq<char>, y: Seq<char>)
    requires
        text::lacks(x, '-'),
        text::lacks(y, '-'),
    ensures
        has_key_shape(key_of(body, x)) ==> key_body(key_of(body, x)) == key_body(key_of(body, y))
            && key_check(key_of(body, x)) == x,
        is_group(x) == is_group(y) ==> has_key_shape(key_of(body, x)) == has_key_shape(
            key_of(body, y),
        ),
{
    lemma_key_groups(body, x);
    lemma_key_groups(body, y);
    let g = text::split(body, '-');
    let a = text::split(key_of(body, x), '-');
    let b = text::split(key_of(body, y), '-');
    assert(forall|i: int| 0 <= i < g.len() ==> a[i] == g[i] && b[i] == g[i]);
    assert(a[g.len() as int] == x && b[g.len() as int] == y);
    if is_group(x) == is_group(y) && g.len() == 4 {
        assert forall|i: int| 0 <= i < 5 implies is_group(#[trigger] a[i]) == is_group(b[i]) by {
            if i < 4 {
                assert(a[i] == g[i] && b[i] == g[i]);
            }
        }
        if has_key_shape(key_of(body, x)) {
            assert forall|i: int| 0 <= i < 5 implies is_group(#[trigger] b[i]) by {
                assert(is_group(a[i]));
            }
        }
        if has_key_shape(key_of(body, y)) {
            assert forall|i: int| 0 <= i < 5 implies is_group(#[trigger] a[i]) by {
                assert(is_group(b[i]));
            }
        }
    }
}

/// A valid key has five groups of five bytes, and one last group belongs to its body, whether it is
/// written with capital or small letters.
pub proof fn one_check_group_per_body(body: Seq<char>, x: Seq<char>, y: Seq<char>)
    requires
        text::lacks(x, '-'),
        text::lacks(y, '-'),
        is_valid_key(key_of(body, x)),
        is_valid_key(key_of(body, y)),
    ensures
        has_key_shape(key_of(body, x)),
        text::is_ascii(x) && text::is_ascii(y),
        text::ascii_upper(x) == text::ascii_upper(y),
{
    lemma_same_bodies(body, x, y);
    lemma_same_bodies(body, y, x);
}

proof fn lemma_char(c: char)
    ensures
        '\0' <= c,
{
}

proof fn lemma_ascii_len(s: Seq<char>)
    requires
        text::is_ascii(s),
    ensures
        vstd::utf8::encode_utf8(s).len() == s.len(),
{
    assert forall|i: int| 0 <= i < s.len() implies '\0' <= #[trigger] s[i] <= '\u{7f}' by {
        let c: char = s[i];
        lemma_char(c);
        assert(c < '\u{80}');
    }
    vstd::utf8::is_ascii_chars_encode_utf8(s);
}

/// A key is valid with small letters in its last group exactly where it is with the letters as they
/// are.
pub proof fn small_letters_check_as_well(body: Seq<char>, x: Seq<char>)
    requires
        text::lacks(x, '-'),
    ensures
        is_valid_key(key_of(body, x)) == is_valid_key(key_of(body, text::ascii_lower(x))),
{
    let y = text::ascii_lower(x);
    assert forall|i: int| 0 <= i < y.len() implies #[trigger] y[i] != '-' && (y[i] < '\u{80}') == (
    x[i] < '\u{80}') by {
        assert(x[i] != '-');
    }
    assert(text::is_ascii(x) == text::is_ascii(y)) by {
        if text::is_ascii(x) {
            assert forall|i: int| 0 <= i < y.len() implies #[trigger] y[i] < '\u{80}' by {
                assert(x[i] < '\u{80}');
            }
        }
        if text::is_ascii(y) {
            assert forall|i: int| 0 <= i < x.len() implies #[trigger] x[i] < '\u{80}' by {
                assert(y[i] < '\u{80}');
            }
        }
    }
    lemma_same_bodies(body, x, y);
    lemma_same_bodies(body, y, x);
    if text::is_ascii(x) {
        lemma_ascii_len(x);
        lemma_ascii_len(y);
        assert(text::ascii_upper(y) =~= text::ascii_upper(x));
    }
}

proof fn lemma_hex_upper_ascii(d: nat)
    requires
        d < 16,
    ensures
        hex_digit_fits(numbers::hex_upper(d)),
{
}

spec fn hex_digit_fits(c: char) -> bool {
    c < '\u{80}' && !('a' <= c <= 'z')
}

/// The key made of any four groups and the digits that belong to them is valid, whether its last
/// group is written with capital or small letters.
pub proof fn matching_key_is_valid(key: Seq<char>)
    requires
        has_key_shape(key),
        key_check(key) == check_digits(key_digest(key_body(key))) || key_check(key)
            == text::ascii_lower(check_digits(key_digest(key_body(key)))),
    ensures
        is_valid_key(key),
{
    let e = check_digits(key_digest(key_body(key)));
    let d = key_digest(key_body(key));
    lemma_hex_upper_ascii((d[0] / 16) as nat);
    lemma_hex_upper_ascii((d[0] % 16) as nat);
    lemma_hex_upper_ascii((d[1] / 16) as nat);
    lemma_hex_upper_ascii((d[1] % 16) as nat);
    lemma_hex_upper_ascii((d[2] / 16) as nat);
    let c = key_check(key);
    assert(text::is_ascii(c));
    assert(text::ascii_upper(c) =~= e);
}

// ---- what the calls give ----

/// A saved licence is found again: with a valid key it is that of the same address and key, and
/// without one there is none.
pub proof fn saved_licences_are_loaded(
    l: &License,
    file: String,
    read: &str,
    key: &str,
    valid: bool,
    r: License,
)
    requires
        call_ensures(License::save, (l,), file),
        read@ == file@,
        fits_field(l.email@),
        fits_field(l.key@),
        key@ == l.key@,
        call_ensures(License::validate_key, (key,), valid),
        call_ensures(License::load, (Some(read),), r),
    ensures
        valid ==> r.plan is Pro && r.email@ == l.email@ && r.key@ == l.key@,
        !valid ==> r.plan is Free && r.email@.len() == 0 && r.key@.len() == 0,
{
    reveal_strlit("");
    license_round_trip(l.email@, l.key@);
}

/// Without a file there is no licence.
pub proof fn no_file_no_licence(r: License)
    requires
        call_ensures(License::load, (None::<&str>,), r),
    ensures
        r.plan is Free,
        r.key@.len() == 0,
{
    reveal_strlit("");
}

/// A key of which the last group is not made of hexadecimal digits, or that has not five groups of
/// five bytes, is not valid.
pub proof fn ill_made_keys_are_refused(key: &str, r: bool)
    requires
        call_ensures(License::validate_key, (key,), r),
    ensures
        r ==> text::split(key@, '-').len() == 5,
        r ==> forall|i: int|
            0 <= i < 5 ==> vstd::utf8::encode_utf8(#[trigger] text::split(key@, '-')[i]).len() == 5,
        r ==> forall|i: int|
            0 <= i < text::split(key@, '-')[4].len() ==> {
                let c = #[trigger] text::split(key@, '-')[4][i];
                '0' <= c <= '9' || 'A' <= c <= 'F' || 'a' <= c <= 'f'
            },
{
    if r {
        let c = key_check(key@);
        let d = key_digest(key_body(key@));
        let e = check_digits(d);
        let u = text::ascii_upper(c);
        let g = text::split(key@, '-');
        assert forall|i: int| 0 <= i < 5 implies vstd::utf8::encode_utf8(#[trigger] g[i]).len()
            == 5 by {
            assert(is_group(g[i]));
        }
        assert(u == e);
        assert(u.len() == c.len());
        assert forall|i: int| 0 <= i < c.len() implies ({
            let x = #[trigger] c[i];
            '0' <= x <= '9' || 'A' <= x <= 'F' || 'a' <= x <= 'f'
        }) by {
            lemma_hex_digit((d[0] / 16) as nat);
            lemma_hex_digit((d[0] % 16) as nat);
            lemma_hex_digit((d[1] / 16) as nat);
            lemma_hex_digit((d[1] % 16) as nat);
            lemma_hex_digit((d[2] / 16) as nat);
            assert(u[i] == e[i]);
        }
    }
}

proof fn lemma_hex_digit(d: nat)
    requires
        d < 16,
    ensures
        '0' <= numbers::hex_upper(d) <= '9' || 'A' <= numbers::hex_upper(d) <= 'F',
{
}

/// The parts of a key make it up, with a hyphen between them.
pub proof fn parts_make_the_key(key: &str, r: Option<(String, String)>)
    requires
        call_ensures(key_parts, (key,), r),
    ensures
        r matches Some(p) ==> key@ == key_of(p.0@, p.1@) && vstd::utf8::encode_utf8(p.1@).len()
            == 5,
{
    if r is Some {
        let g = text::split(key@, '-');
        text::pieces_make_the_text(key@, '-');
        reveal_with_fuel(text::joined_by, 6);
        reveal_strlit("-");
        assert(is_group(g[4]));
        assert(g.drop_first()[0] == g[1]);
        assert(g.drop_first().drop_first()[0] == g[2]);
        assert(g.drop_first().drop_first().drop_first()[0] == g[3]);
        assert(g.drop_first().drop_first().drop_first().drop_first()[0] == g[4]);
        assert(key@ =~= g[0].push('-') + (g[1].push('-') + (g[2].push('-') + (g[3].push('-')
            + g[4]))));
        assert(key_of(key_body(key@), g[4]) =~= key@);
    }
}

/// What a licence is good for goes by its plan.
pub proof fn plans_decide(l: &License, free: License, r: bool, s: bool)
    requires
        call_ensures(License::is_pro, (l,), r),
        call_ensures(License::free, (), free),
        call_ensures(License::is_pro, (&free,), s),
    ensures
        r <==> l.plan is Pro,
        !s,
{
}

/// The last line with a key counts; lines with other keys do not.
pub proof fn later_lines_count(l: Seq<Seq<char>>, prefix: Seq<char>, line: Seq<char>, v: Seq<char>)
    ensures
        field_in(l.push(prefix + v), prefix) == text::trim(v),
        !text::starts_with(line, prefix) ==> field_in(l.push(line), prefix) == field_in(l, prefix),
        field_in(Seq::<Seq<char>>::empty(), prefix).len() == 0,
{
    reveal_strlit("");
    text::parts_are_found(seq![], prefix, v);
    assert(l.push(prefix + v).last() == prefix + v);
    assert(l.push(line).drop_last() =~= l);
}

} // verus!
