//! Looking for a newer release.
use vstd::prelude::*;

use crate::numbers;
use crate::text;

verus! {

/// The version of this program.
pub const VERSION: &'static str = "0.17.1";

/// A version by its three numbers.
pub open spec fn version_numbers(v: Seq<char>) -> Option<(nat, nat, nat)> {
    let p = text::splitn(text::trim_start_char(v, 'v'), 3, '.');
    if p.len() < 3 {
        None
    } else {
        match (
            numbers::parse_number(p[0], u32::MAX as nat),
            numbers::parse_number(p[1], u32::MAX as nat),
            numbers::parse_number(text::split(p[2], '-')[0], u32::MAX as nat),
        ) {
            (Some(a), Some(b), Some(c)) => Some((a, b, c)),
            _ => None,
        }
    }
}

/// Whether the version `a` comes after `b`: the first number in which they differ decides.
pub open spec fn is_after(a: (nat, nat, nat), b: (nat, nat, nat)) -> bool {
    a.0 > b.0 || (a.0 == b.0 && (a.1 > b.1 || (a.1 == b.1 && a.2 > b.2)))
}

/// Whether the version `latest` is newer than `current`; one that is no version is never newer.
pub open spec fn newer(latest: Seq<char>, current: Seq<char>) -> bool {
    match (version_numbers(latest), version_numbers(current)) {
        (Some(l), Some(c)) => is_after(l, c),
        _ => false,
    }
}

/// The three numbers of a version.
pub fn parse_version(v: &str) -> (r: Option<(u32, u32, u32)>)
    ensures
        match r {
            Some((a, b, c)) => version_numbers(v@) == Some((a as nat, b as nat, c as nat)),
            None => version_numbers(v@) is None,
        },
{
    let v: Vec<char> = text::chars_of(v);
    let t: Vec<char> = text::trim_char_start(&v, 'v');
    let p: Vec<Vec<char>> = text::splitn_chars(&t, 3, '.');
    let ghost parts = text::texts(p@);
    assert(parts.len() == p@.len());
    if p.len() < 3 {
        return None;
    }
    let patch: Vec<Vec<char>> = text::split_chars(&p[2], '-');
    assert(parts[2] == p@[2]@);
    proof {
        text::lemma_split_not_empty(parts[2], '-');
        assert(text::texts(patch@).len() == patch@.len());
        assert(text::texts(patch@)[0] == patch@[0]@);
    }
    let a: Option<u64> = numbers::read_number(&p[0], 0xffff_ffff);
    let b: Option<u64> = numbers::read_number(&p[1], 0xffff_ffff);
    let c: Option<u64> = numbers::read_number(&patch[0], 0xffff_ffff);
    assert(parts[0] == p@[0]@ && parts[1] == p@[1]@);
    match (a, b, c) {
        (Some(a), Some(b), Some(c)) => Some((a as u32, b as u32, c as u32)),
        _ => None,
    }
}

/// Whether the version `latest` is newer than `current`.
pub fn is_newer(latest: &str, current: &str) -> (r: bool)
    ensures
        r == newer(latest@, current@),
{
    match (parse_version(latest), parse_version(current)) {
        (Some(l), Some(c)) => l.0 > c.0 || (l.0 == c.0 && (l.1 > c.1 || (l.1 == c.1 && l.2 > c.2))),
        _ => false,
    }
}

/// No version is newer than itself.
pub proof fn newer_is_irreflexive(a: Seq<char>)
    ensures
        !newer(a, a),
{
}

/// What is newer than something newer is newer.
pub proof fn newer_is_transitive(a: Seq<char>, b: Seq<char>, c: Seq<char>)
    requires
        newer(a, b),
        newer(b, c),
    ensures
        newer(a, c),
{
}

// ---- the answer of the server ----

/// What stands before the name of the tag.
pub open spec fn tag_key() -> Seq<char> {
    "\"tag_name\":\""@
}

/// Whether the first tag in `body` begins at `i`.
pub open spec fn first_tag_at(body: Seq<char>, i: int) -> bool {
    text::occurs_at(body, tag_key(), i) && forall|j: int|
        j < i ==> !text::occurs_at(body, tag_key(), j)
}

/// Whether `r` is the version that `body` names: what stands between the quotes of its first tag,
/// where that begins with a `v`.
pub open spec fn is_tag_of(r: Option<Seq<char>>, body: Seq<char>) -> bool {
    if text::contains_text(body, tag_key()) {
        exists|i: int|
            {
                &&& #[trigger] first_tag_at(body, i)
                &&& {
                    let rest = body.skip(i + tag_key().len());
                    let end = text::position(rest, '"') as int;
                    if end < rest.len() && end > 0 && rest[0] == 'v' {
                        r == Some(rest.take(end))
                    } else {
                        r is None
                    }
                }
            }
    } else {
        r is None
    }
}

/// The version that the description of a release names.
pub fn parse_version_from_json(body: &str) -> (r: Option<String>)
    ensures
        is_tag_of(
            match r {
                Some(s) => Some(s@),
                None => None,
            },
            body@,
        ),
{
    proof {
        reveal_strlit("\"tag_name\":\"");
    }
    let b: Vec<char> = text::chars_of(body);
    match text::find_text(&b, "\"tag_name\":\"") {
        None => None,
        Some(i) => {
            assert(first_tag_at(body@, i as int));
            let n: usize = b.len();
            let rest: Vec<char> = text::part_of(&b, i + 12, n);
            assert(rest@ =~= body@.skip(i + tag_key().len()));
            match text::index_of(&rest, '"') {
                Some(end) => if end > 0 && rest[0] == 'v' {
                    let tag: Vec<char> = text::part_of(&rest, 0, end);
                    assert(tag@ =~= rest@.take(end as int));
                    Some(text::string_of(&tag))
                } else {
                    None
                },
                None => None,
            }
        },
    }
}

/// The version that a server's answer names; none where the answer is not a success or not text.
pub fn version_in_response(status: i32, body: Option<&str>) -> (r: Option<String>)
    ensures
        match body {
            Some(b) if status == 200 => is_tag_of(
                match r {
                    Some(s) => Some(s@),
                    None => None,
                },
                b@,
            ),
            _ => r is None,
        },
{
    if status == 200 {
        match body {
            Some(b) => parse_version_from_json(b),
            None => None,
        }
    } else {
        None
    }
}

/// The latest version, where it is newer than the current one.
pub fn update_for(latest: Option<String>, current: &str) -> (r: Option<String>)
    ensures
        match latest {
            Some(l) if newer(l@, current@) => r == Some(l),
            _ => r is None,
        },
{
    match latest {
        Some(l) => if is_newer(l.as_str(), current) {
            Some(l)
        } else {
            None
        },
        None => None,
    }
}

/// Where the description of the latest release is found.
pub fn release_url() -> (r: String)
    ensures
        r@ == "https://api.github.com/repos/imrany/rfshare/releases/latest"@,
{
    "https://api.github.com/repos/imrany/rfshare/releases/latest".to_string()
}

/// How this program introduces itself to servers.
pub fn user_agent() -> (r: String)
    ensures
        r@ == "rfshare/"@ + VERSION@,
{
    let mut s: String = "rfshare/".to_string();
    s.append(VERSION);
    s
}

/// The version of this program, for display.
pub fn version_label() -> (r: String)
    ensures
        r@ == "v"@ + VERSION@,
{
    let mut s: String = "v".to_string();
    s.append(VERSION);
    s
}

// ---- what the calls give ----

/// A version as it is written: three numbers, with or without a `v` before them and a mark behind.
pub open spec fn version_text(v: bool, a: u32, b: u32, c: u32, mark: Option<Seq<char>>) -> Seq<char> {
    (if v {
        seq!['v']
    } else {
        seq![]
    }) + numbers::decimal(a as nat) + seq!['.'] + numbers::decimal(b as nat) + seq!['.']
        + numbers::decimal(c as nat) + match mark {
        Some(m) => seq!['-'] + m,
        None => seq![],
    }
}

proof fn lemma_decimal_lacks(n: nat, c: char)
    requires
        !numbers::is_digit(c),
    ensures
        text::lacks(numbers::decimal(n), c),
        numbers::decimal(n).len() > 0,
{
    numbers::lemma_decimal(n);
    assert forall|i: int| 0 <= i < numbers::decimal(n).len() implies #[trigger] numbers::decimal(
        n,
    )[i] != c by {
        assert(numbers::is_digit(numbers::decimal(n)[i]));
    }
}

/// The three numbers of a version are read, whatever is marked behind them.
pub proof fn versions_are_read(
    text: &str,
    v: bool,
    a: u32,
    b: u32,
    c: u32,
    mark: Option<Seq<char>>,
    r: Option<(u32, u32, u32)>,
)
    requires
        text@ == version_text(v, a, b, c, mark),
        call_ensures(parse_version, (text,), r),
    ensures
        r == Some((a, b, c)),
        version_numbers(text@) == Some((a as nat, b as nat, c as nat)),
{
    let (x, y, z) = (
        numbers::decimal(a as nat),
        numbers::decimal(b as nat),
        numbers::decimal(c as nat),
    );
    lemma_decimal_lacks(a as nat, '.');
    lemma_decimal_lacks(a as nat, 'v');
    lemma_decimal_lacks(b as nat, '.');
    lemma_decimal_lacks(c as nat, '-');
    let tail = match mark {
        Some(m) => seq!['-'] + m,
        None => seq![],
    };
    let last = z + tail;
    let two = y.push('.') + last;
    let three = x.push('.') + two;
    assert(three[0] == x[0]);
    assert(text::trim_start_char(three, 'v') == three);
    if v {
        assert(text@ =~= seq!['v'] + three);
        assert(text@.drop_first() =~= three);
    } else {
        assert(text@ =~= three);
    }
    assert(text::trim_start_char(text@, 'v') == three);
    text::lemma_splitn_first(three, x, two, 3, '.');
    text::lemma_splitn_first(two, y, last, 2, '.');
    let p = text::splitn(three, 3, '.');
    assert(text::splitn(last, 1, '.') =~= seq![last]);
    assert(p =~= seq![x, y, last]);
    match mark {
        Some(m) => {
            assert(last =~= z.push('-') + m);
            text::pieces_end_at_separators(z, m, '-');
        },
        None => {
            assert(last =~= z);
            text::lemma_split_whole(z, '-');
        },
    }
    assert(text::split(last, '-')[0] == z);
    numbers::decimal_round_trip(a as nat, u32::MAX as nat);
    numbers::decimal_round_trip(b as nat, u32::MAX as nat);
    numbers::decimal_round_trip(c as nat, u32::MAX as nat);
}

/// Of two versions the newer one has the larger first number, or the larger second one where the
/// first are the same, or the larger third one where the first two are.
pub proof fn the_first_difference_decides(
    latest: &str,
    current: &str,
    v: bool,
    w: bool,
    a: (u32, u32, u32),
    b: (u32, u32, u32),
    m: Option<Seq<char>>,
    n: Option<Seq<char>>,
    r: bool,
    x: Option<(u32, u32, u32)>,
    y: Option<(u32, u32, u32)>,
)
    requires
        latest@ == version_text(v, a.0, a.1, a.2, m),
        current@ == version_text(w, b.0, b.1, b.2, n),
        call_ensures(parse_version, (latest,), x),
        call_ensures(parse_version, (current,), y),
        call_ensures(is_newer, (latest, current), r),
    ensures
        a.0 > b.0 ==> r,
        a.0 < b.0 ==> !r,
        a.0 == b.0 && a.1 > b.1 ==> r,
        a.0 == b.0 && a.1 < b.1 ==> !r,
        a.0 == b.0 && a.1 == b.1 ==> (r <==> a.2 > b.2),
{
    versions_are_read(latest, v, a.0, a.1, a.2, m, x);
    versions_are_read(current, w, b.0, b.1, b.2, n, y);
}

/// Only a newer version is an update, and it is handed on as it is.
pub proof fn only_newer_versions_are_updates(
    latest: Option<String>,
    text: &str,
    current: &str,
    newer: bool,
    r: Option<String>,
)
    requires
        latest matches Some(l) ==> text@ == l@,
        call_ensures(is_newer, (text, current), newer),
        call_ensures(update_for, (latest, current), r),
    ensures
        r is Some <==> latest is Some && newer,
        r is Some ==> r->0@ == text@,
{
}

/// The first tag in the description of a release is its version.
pub proof fn tags_are_read(
    body: &str,
    before: Seq<char>,
    tag: Seq<char>,
    rest: Seq<char>,
    r: Option<String>,
)
    requires
        body@ == before + "\"tag_name\":\""@ + tag + seq!['"'] + rest,
        forall|j: int|
            j < before.len() ==> !#[trigger] text::occurs_at(body@, "\"tag_name\":\""@, j),
        text::lacks(tag, '"'),
        call_ensures(parse_version_from_json, (body,), r),
    ensures
        r is Some <==> tag.len() > 0 && tag[0] == 'v',
        r is Some ==> r->0@ == tag,
{
    let key = "\"tag_name\":\""@;
    let n = before.len() as int;
    let after = tag + seq!['"'] + rest;
    assert(body@ =~= before + key + after);
    text::parts_are_found(before, key, after);
    assert(body@.subrange(n, n + key.len()) =~= key);
    assert(text::occurs_at(body@, key, n));
    let i = choose|i: int|
        {
            &&& #[trigger] first_tag_at(body@, i)
            &&& {
                let rest = body@.skip(i + tag_key().len());
                let end = text::position(rest, '"') as int;
                if end < rest.len() && end > 0 && rest[0] == 'v' {
                    (match r {
                        Some(s) => Some(s@),
                        None => None,
                    }) == Some(rest.take(end))
                } else {
                    r is None
                }
            }
        };
    assert(i == n);
    assert(body@.skip(n + key.len()) =~= after);
    assert forall|k: int| 0 <= k < tag.len() implies after[k] != '"' by {
        assert(after[k] == tag[k]);
    }
    text::lemma_position_is(after, '"', tag.len() as int);
    assert(after.take(tag.len() as int) =~= tag);
    if tag.len() > 0 {
        assert(after[0] == tag[0]);
    }
}

/// Only a successful answer names a version, which is the one that its text names.
pub proof fn only_success_names_a_version(
    status: i32,
    body: &str,
    r: Option<String>,
    s: Option<String>,
    none: Option<String>,
)
    requires
        call_ensures(version_in_response, (status, Some(body)), r),
        call_ensures(version_in_response, (status, None::<&str>), none),
        call_ensures(parse_version_from_json, (body,), s),
    ensures
        none is None,
        status != 200 ==> r is None,
        status == 200 ==> (r is Some <==> s is Some),
        status == 200 && r is Some ==> r->0@ == s->0@,
{
    if status == 200 && text::contains_text(body@, tag_key()) {
        assert forall|i: int, j: int| first_tag_at(body@, i) && first_tag_at(body@, j) implies i
            == j by {
            assert(text::occurs_at(body@, tag_key(), i));
            assert(text::occurs_at(body@, tag_key(), j));
        }
    }
}

} // verus!
