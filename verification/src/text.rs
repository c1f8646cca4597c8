//! Text as sequences of characters: splitting, trimming, searching and replacing.
use vstd::prelude::*;

use crate::order;

verus! {

/// `String::push` of std appends one character.
pub assume_specification[ String::push ](s: &mut String, c: char)
    ensures
        final(s)@ == old(s)@.push(c),
;

/// The texts that a list of character vectors holds.
pub open spec fn texts(v: Seq<Vec<char>>) -> Seq<Seq<char>> {
    Seq::new(v.len(), |i: int| v[i]@)
}

/// The texts that a list of strings holds.
pub open spec fn string_texts(v: Seq<String>) -> Seq<Seq<char>> {
    Seq::new(v.len(), |i: int| v[i]@)
}

/// The characters with the Unicode property `White_Space`.
pub open spec fn is_white_space(c: char) -> bool {
    ||| '\u{9}' <= c <= '\u{d}'
    ||| c == ' '
    ||| c == '\u{85}'
    ||| c == '\u{a0}'
    ||| c == '\u{1680}'
    ||| '\u{2000}' <= c <= '\u{200a}'
    ||| c == '\u{2028}'
    ||| c == '\u{2029}'
    ||| c == '\u{202f}'
    ||| c == '\u{205f}'
    ||| c == '\u{3000}'
}

/// The index of the first `c` in `s`, or the length of `s` where there is none.
pub open spec fn position(s: Seq<char>, c: char) -> nat
    decreases s.len(),
{
    if s.len() == 0 || s[0] == c {
        0
    } else {
        1 + position(s.drop_first(), c)
    }
}

/// Whether `s` begins with `p`.
pub open spec fn starts_with(s: Seq<char>, p: Seq<char>) -> bool {
    p.len() <= s.len() && s.take(p.len() as int) == p
}

/// Whether `s` ends with `p`.
pub open spec fn ends_with(s: Seq<char>, p: Seq<char>) -> bool {
    p.len() <= s.len() && s.skip(s.len() - p.len()) == p
}

/// What follows the prefix `p` of `s`, where `s` begins with it.
pub open spec fn strip_prefix(s: Seq<char>, p: Seq<char>) -> Option<Seq<char>> {
    if starts_with(s, p) {
        Some(s.skip(p.len() as int))
    } else {
        None
    }
}

/// Whether `p` stands at index `i` of `s`.
pub open spec fn occurs_at(s: Seq<char>, p: Seq<char>, i: int) -> bool {
    0 <= i && i + p.len() <= s.len() && s.subrange(i, i + p.len()) == p
}

/// Whether `p` stands somewhere in `s`.
pub open spec fn contains_text(s: Seq<char>, p: Seq<char>) -> bool {
    exists|i: int| occurs_at(s, p, i)
}

/// The pieces of `s` between the separators `sep`; their number is one more than that of the separators.
pub open spec fn split(s: Seq<char>, sep: char) -> Seq<Seq<char>>
    decreases s.len(),
{
    let p = position(s, sep) as int;
    if p >= s.len() {
        seq![s]
    } else {
        seq![s.take(p)] + split(s.skip(p + 1), sep)
    }
}

/// The pieces of `s` between the first `n - 1` separators; the last piece is the rest.
pub open spec fn splitn(s: Seq<char>, n: nat, sep: char) -> Seq<Seq<char>>
    decreases n,
{
    let p = position(s, sep) as int;
    if n == 0 {
        seq![]
    } else if n == 1 || p >= s.len() {
        seq![s]
    } else {
        seq![s.take(p)] + splitn(s.skip(p + 1), (n - 1) as nat, sep)
    }
}

/// `s` without a carriage return at its end.
pub open spec fn drop_cr(s: Seq<char>) -> Seq<char> {
    if s.len() > 0 && s.last() == '\r' {
        s.drop_last()
    } else {
        s
    }
}

/// The lines of `s`: each ends with a line feed, which may stand behind a carriage return,
/// or with the text. An empty text after the last line feed is no line.
pub open spec fn lines(s: Seq<char>) -> Seq<Seq<char>>
    decreases s.len(),
{
    let p = position(s, '\n') as int;
    if s.len() == 0 {
        seq![]
    } else if p >= s.len() {
        seq![s]
    } else {
        seq![drop_cr(s.take(p))] + lines(s.skip(p + 1))
    }
}

/// `s` without the white space at its start.
pub open spec fn trim_start(s: Seq<char>) -> Seq<char>
    decreases s.len(),
{
    if s.len() > 0 && is_white_space(s[0]) {
        trim_start(s.drop_first())
    } else {
        s
    }
}

/// `s` without the white space at its end.
pub open spec fn trim_end(s: Seq<char>) -> Seq<char>
    decreases s.len(),
{
    if s.len() > 0 && is_white_space(s.last()) {
        trim_end(s.drop_last())
    } else {
        s
    }
}

/// `s` without the white space at both ends.
pub open spec fn trim(s: Seq<char>) -> Seq<char> {
    trim_end(trim_start(s))
}

/// `s` without the characters `c` at its start.
pub open spec fn trim_start_char(s: Seq<char>, c: char) -> Seq<char>
    decreases s.len(),
{
    if s.len() > 0 && s[0] == c {
        trim_start_char(s.drop_first(), c)
    } else {
        s
    }
}

/// `s` without the characters `c` at its end.
pub open spec fn trim_end_char(s: Seq<char>, c: char) -> Seq<char>
    decreases s.len(),
{
    if s.len() > 0 && s.last() == c {
        trim_end_char(s.drop_last(), c)
    } else {
        s
    }
}

/// `s` without the characters `c` at both ends.
pub open spec fn trim_char(s: Seq<char>, c: char) -> Seq<char> {
    trim_end_char(trim_start_char(s, c), c)
}

/// The pieces of `s` between runs of white space, none of them empty.
pub open spec fn words(s: Seq<char>) -> Seq<Seq<char>>
    decreases s.len(),
{
    let t = trim_start(s);
    if t.len() == 0 {
        seq![]
    } else {
        let n = word_len(t) as int;
        if 0 < n <= t.len() && t.len() <= s.len() {
            seq![t.take(n)] + words(t.skip(n))
        } else {
            seq![]
        }
    }
}

/// The number of characters before the first white space of `s`.
pub open spec fn word_len(s: Seq<char>) -> nat
    decreases s.len(),
{
    if s.len() == 0 || is_white_space(s[0]) {
        0
    } else {
        1 + word_len(s.drop_first())
    }
}

/// `s` with each `from` replaced by `to`.
pub open spec fn replace_char(s: Seq<char>, from: char, to: char) -> Seq<char> {
    Seq::new(s.len(), |i: int| if s[i] == from { to } else { s[i] })
}

/// `s` without the characters `c`.
pub open spec fn remove_char(s: Seq<char>, c: char) -> Seq<char> {
    s.filter(|x: char| x != c)
}

/// A text of the given lines, each with a line feed at its end.
pub open spec fn unlines(l: Seq<Seq<char>>) -> Seq<char>
    decreases l.len(),
{
    if l.len() == 0 {
        seq![]
    } else {
        l[0].push('\n') + unlines(l.drop_first())
    }
}

/// A text that can be a line: it holds no line feed and does not end with a carriage return.
pub open spec fn is_line(s: Seq<char>) -> bool {
    lacks(s, '\n') && (s.len() > 0 ==> s.last() != '\r')
}

/// Whether `s` holds ASCII characters only.
pub open spec fn is_ascii(s: Seq<char>) -> bool {
    forall|i: int| 0 <= i < s.len() ==> #[trigger] s[i] < '\u{80}'
}

/// `s` with the capital letters `A` to `Z` made small.
pub open spec fn ascii_lower(s: Seq<char>) -> Seq<char> {
    Seq::new(
        s.len(),
        |i: int|
            if 'A' <= s[i] <= 'Z' {
                (s[i] as u32 + 32) as char
            } else {
                s[i]
            },
    )
}

/// `s` with the small letters `a` to `z` made capital.
pub open spec fn ascii_upper(s: Seq<char>) -> Seq<char> {
    Seq::new(
        s.len(),
        |i: int|
            if 'a' <= s[i] <= 'z' {
                (s[i] as u32 - 32) as char
            } else {
                s[i]
            },
    )
}

/// The text that `str::to_lowercase` makes of `s`.
pub uninterp spec fn lowercase(s: Seq<char>) -> Seq<char>;

/// The text that `str::to_uppercase` makes of `s`.
pub uninterp spec fn uppercase(s: Seq<char>) -> Seq<char>;

/// `str::to_lowercase` of std: of ASCII text, the capital letters become small ones and nothing else
/// changes; of other text the result is only named.
#[verifier::external_body]
pub(crate) fn lowercased(s: &str) -> (r: String)
    ensures
        r@ == lowercase(s@),
        is_ascii(s@) ==> r@ == ascii_lower(s@),
{
    s.to_lowercase()
}

/// `str::to_uppercase` of std: of ASCII text, the small letters become capital ones and nothing else
/// changes; of other text the result is only named.
#[verifier::external_body]
pub(crate) fn uppercased(s: &str) -> (r: String)
    ensures
        r@ == uppercase(s@),
        is_ascii(s@) ==> r@ == ascii_upper(s@),
{
    s.to_uppercase()
}

// ---- facts about the definitions ----

/// `position` finds the first occurrence.
pub proof fn lemma_position(s: Seq<char>, c: char)
    ensures
        position(s, c) <= s.len(),
        forall|i: int| 0 <= i < position(s, c) ==> s[i] != c,
        position(s, c) < s.len() ==> s[position(s, c) as int] == c,
    decreases s.len(),
{
    if s.len() > 0 && s[0] != c {
        let t = s.drop_first();
        lemma_position(t, c);
        assert forall|i: int| 0 <= i < position(s, c) implies s[i] != c by {
            if i > 0 {
                assert(s[i] == t[i - 1]);
            }
        }
    }
}

/// The first occurrence is unique.
pub proof fn lemma_position_is(s: Seq<char>, c: char, p: int)
    requires
        0 <= p <= s.len(),
        forall|i: int| 0 <= i < p ==> s[i] != c,
        p < s.len() ==> s[p] == c,
    ensures
        position(s, c) == p,
{
    lemma_position(s, c);
    let q = position(s, c) as int;
    if q < p {
        assert(s[q] == c);
    }
    if p < q {
        assert(s[p] != c);
    }
}

/// Whether `c` does not stand in `s`.
pub open spec fn lacks(s: Seq<char>, c: char) -> bool {
    forall|i: int| 0 <= i < s.len() ==> #[trigger] s[i] != c
}

/// The first piece of a text ends at its first separator.
pub proof fn lemma_splitn_first(s: Seq<char>, a: Seq<char>, rest: Seq<char>, n: nat, c: char)
    requires
        n >= 2,
        lacks(a, c),
        s == a.push(c) + rest,
    ensures
        splitn(s, n, c) == seq![a] + splitn(rest, (n - 1) as nat, c),
{
    assert forall|i: int| 0 <= i < a.len() implies s[i] != c by {
        assert(s[i] == a[i]);
    }
    lemma_position_is(s, c, a.len() as int);
    assert(s.take(a.len() as int) =~= a);
    assert(s.skip(a.len() as int + 1) =~= rest);
}

/// A text has at least one piece.
pub proof fn lemma_split_not_empty(s: Seq<char>, c: char)
    ensures
        split(s, c).len() > 0,
{
}

/// No piece of a text holds a separator.
pub proof fn lemma_split_lacks(s: Seq<char>, c: char)
    ensures
        forall|i: int| 0 <= i < split(s, c).len() ==> lacks(#[trigger] split(s, c)[i], c),
    decreases s.len(),
{
    lemma_position(s, c);
    let p = position(s, c) as int;
    if p < s.len() {
        let rest = split(s.skip(p + 1), c);
        lemma_split_lacks(s.skip(p + 1), c);
        assert forall|i: int| 0 <= i < split(s, c).len() implies lacks(
            #[trigger] split(s, c)[i],
            c,
        ) by {
            if i > 0 {
                assert(split(s, c)[i] == rest[i - 1]);
            }
        }
    }
}

/// A text without separators is its only piece.
pub proof fn lemma_split_whole(s: Seq<char>, c: char)
    requires
        lacks(s, c),
    ensures
        split(s, c) == seq![s],
{
    lemma_position_is(s, c, s.len() as int);
}

/// A text without separators is one piece.
pub proof fn lemma_splitn_whole(s: Seq<char>, n: nat, c: char)
    requires
        n >= 1,
        lacks(s, c),
    ensures
        splitn(s, n, c) == seq![s],
{
    lemma_position_is(s, c, s.len() as int);
}

/// The first line of a text ends at its first line feed.
pub proof fn lemma_lines_first(s: Seq<char>, a: Seq<char>, rest: Seq<char>)
    requires
        lacks(a, '\n'),
        a.len() > 0 ==> a.last() != '\r',
        s == a.push('\n') + rest,
    ensures
        lines(s) == seq![a] + lines(rest),
{
    assert forall|i: int| 0 <= i < a.len() implies s[i] != '\n' by {
        assert(s[i] == a[i]);
    }
    lemma_position_is(s, '\n', a.len() as int);
    assert(s.take(a.len() as int) =~= a);
    assert(s.skip(a.len() as int + 1) =~= rest);
}

/// The lines of a text made of lines are those lines.
pub proof fn lemma_lines_unlines(l: Seq<Seq<char>>)
    requires
        forall|i: int| 0 <= i < l.len() ==> is_line(#[trigger] l[i]),
    ensures
        lines(unlines(l)) == l,
    decreases l.len(),
{
    if l.len() == 0 {
        assert(lines(unlines(l)) =~= l);
    } else {
        let rest = l.drop_first();
        assert forall|i: int| 0 <= i < rest.len() implies is_line(#[trigger] rest[i]) by {
            assert(rest[i] == l[i + 1]);
        }
        lemma_lines_unlines(rest);
        assert(is_line(l[0]));
        lemma_lines_first(unlines(l), l[0], unlines(rest));
        assert(seq![l[0]] + rest =~= l);
    }
}

/// A line at the end of the lines comes at the end of the text.
pub proof fn lemma_unlines_push(l: Seq<Seq<char>>, s: Seq<char>)
    ensures
        unlines(l.push(s)) == unlines(l) + s.push('\n'),
    decreases l.len(),
{
    if l.len() == 0 {
        assert(l.push(s).drop_first() =~= Seq::<Seq<char>>::empty());
        assert(unlines(Seq::<Seq<char>>::empty()) =~= seq![]);
        assert(unlines(l.push(s)) =~= unlines(l) + s.push('\n'));
    } else {
        lemma_unlines_push(l.drop_first(), s);
        assert(l.push(s).drop_first() =~= l.drop_first().push(s));
        assert(unlines(l.push(s)) =~= unlines(l) + s.push('\n'));
    }
}

pub proof fn lemma_trim_start_len(s: Seq<char>)
    ensures
        trim_start(s).len() <= s.len(),
        trim_start(s).len() > 0 ==> !is_white_space(trim_start(s)[0]),
    decreases s.len(),
{
    if s.len() > 0 && is_white_space(s[0]) {
        lemma_trim_start_len(s.drop_first());
    }
}

/// A text without white space at its ends is what trimming leaves of it.
pub proof fn lemma_trim_none(s: Seq<char>)
    requires
        s.len() > 0 ==> !is_white_space(s[0]) && !is_white_space(s.last()),
    ensures
        trim(s) == s,
{
}

/// Trimming takes away one white-space character at the end like none.
pub proof fn lemma_trim_end_push(s: Seq<char>, c: char)
    requires
        is_white_space(c),
        s.len() > 0 ==> !is_white_space(s[0]),
    ensures
        trim(s.push(c)) == trim(s),
{
    if s.len() == 0 {
        assert(s.push(c).drop_first() =~= s);
    } else {
        assert(trim_start(s.push(c)) == s.push(c));
        assert(s.push(c).drop_last() =~= s);
    }
}

/// The first word of a text, and the words behind it.
pub proof fn lemma_words_first(s: Seq<char>, a: Seq<char>, rest: Seq<char>)
    requires
        a.len() > 0,
        forall|i: int| 0 <= i < a.len() ==> !is_white_space(#[trigger] a[i]),
        s == a + rest,
        rest.len() > 0 ==> is_white_space(rest[0]),
    ensures
        words(s) == seq![a] + words(rest),
{
    assert(s[0] == a[0]);
    assert(trim_start(s) == s);
    lemma_word_len(s);
    let n = word_len(s) as int;
    if n < a.len() {
        assert(s[n] == a[n]);
    }
    if n > a.len() {
        assert(s[a.len() as int] == rest[0]);
    }
    assert(s.take(n) =~= a);
    assert(s.skip(n) =~= rest);
}

/// White space before the words of a text changes nothing.
pub proof fn lemma_words_space(c: char, s: Seq<char>)
    requires
        is_white_space(c),
    ensures
        words(seq![c] + s) == words(s),
{
    let t = seq![c] + s;
    assert(t.drop_first() =~= s);
    assert(trim_start(t) == trim_start(s));
    lemma_trim_start_len(s);
    let u = trim_start(s);
    if u.len() > 0 {
        lemma_word_len(u);
    }
}

pub proof fn lemma_word_len(s: Seq<char>)
    ensures
        word_len(s) <= s.len(),
        forall|i: int| 0 <= i < word_len(s) ==> !is_white_space(#[trigger] s[i]),
        word_len(s) < s.len() ==> is_white_space(s[word_len(s) as int]),
    decreases s.len(),
{
    if s.len() > 0 && !is_white_space(s[0]) {
        let t = s.drop_first();
        lemma_word_len(t);
        assert forall|i: int| 0 <= i < word_len(s) implies !is_white_space(#[trigger] s[i]) by {
            if i > 0 {
                assert(s[i] == t[i - 1]);
            }
        }
    }
}

// ---- conversions ----

/// The characters of `s`, in order.
pub fn chars_of(s: &str) -> (r: Vec<char>)
    ensures
        r@ == s@,
{
    let mut r: Vec<char> = Vec::new();
    for c in it: s.chars()
        invariant
            it.seq() == s@,
            r@ == s@.take(it.index()),
    {
        r.push(c);
        assert(r@ =~= s@.take(it.index() + 1));
    }
    r
}

/// The characters `from..to` of `v`.
pub fn part_of(v: &Vec<char>, from: usize, to: usize) -> (r: Vec<char>)
    requires
        from <= to <= v@.len(),
    ensures
        r@ == v@.subrange(from as int, to as int),
{
    let mut r: Vec<char> = Vec::new();
    let mut i: usize = from;
    while i < to
        invariant
            from <= i <= to <= v@.len(),
            r@ == v@.subrange(from as int, i as int),
        decreases to - i,
    {
        r.push(v[i]);
        i = i + 1;
    }
    r
}

/// The text made of the characters `v`.
pub fn string_of(v: &Vec<char>) -> (r: String)
    ensures
        r@ == v@,
{
    let mut r: String = String::new();
    let mut i: usize = 0;
    while i < v.len()
        invariant
            i <= v@.len(),
            r@ == v@.take(i as int),
        decreases v@.len() - i,
    {
        r.push(v[i]);
        i = i + 1;
        assert(r@ =~= v@.take(i as int));
    }
    r
}

/// Whether `a` and `b` hold the same text.
pub fn same_chars(a: &Vec<char>, b: &Vec<char>) -> (r: bool)
    ensures
        r == (a@ == b@),
{
    if a.len() != b.len() {
        return false;
    }
    let mut i: usize = 0;
    while i < a.len()
        invariant
            a@.len() == b@.len(),
            i <= a@.len(),
            a@.take(i as int) == b@.take(i as int),
        decreases a@.len() - i,
    {
        if a[i] != b[i] {
            return false;
        }
        i = i + 1;
        assert(a@.take(i as int) =~= a@.take(i - 1).push(a@[i - 1]));
        assert(b@.take(i as int) =~= b@.take(i - 1).push(b@[i - 1]));
    }
    assert(a@.take(i as int) =~= a@);
    assert(b@.take(i as int) =~= b@);
    true
}

/// Whether `a` holds the text `b`.
pub fn is_text(a: &Vec<char>, b: &str) -> (r: bool)
    ensures
        r == (a@ == b@),
{
    let b: Vec<char> = chars_of(b);
    same_chars(a, &b)
}

/// Whether `a` and `b` are the same text.
pub fn same_text(a: &str, b: &str) -> (r: bool)
    ensures
        r == (a@ == b@),
{
    let a: Vec<char> = chars_of(a);
    is_text(&a, b)
}

// ---- searching ----

pub fn white_space(c: char) -> (r: bool)
    ensures
        r == is_white_space(c),
{
    ('\u{9}' <= c && c <= '\u{d}') || c == ' ' || c == '\u{85}' || c == '\u{a0}' || c == '\u{1680}'
        || ('\u{2000}' <= c && c <= '\u{200a}') || c == '\u{2028}' || c == '\u{2029}' || c
        == '\u{202f}' || c == '\u{205f}' || c == '\u{3000}'
}

/// The index of the first `c` in `s` at or behind `from`, or the length of `s`.
fn find_char(s: &Vec<char>, from: usize, c: char) -> (r: usize)
    requires
        from <= s@.len(),
    ensures
        from <= r <= s@.len(),
        r - from == position(s@.skip(from as int), c),
{
    let mut i: usize = from;
    while i < s.len() && s[i] != c
        invariant
            from <= i <= s@.len(),
            forall|j: int| from <= j < i ==> s@[j] != c,
        decreases s@.len() - i,
    {
        i = i + 1;
    }
    proof {
        let t = s@.skip(from as int);
        assert forall|j: int| 0 <= j < i - from implies t[j] != c by {
            assert(t[j] == s@[from + j]);
        }
        lemma_position_is(t, c, i - from);
    }
    i
}

/// The index of the first `c` in `s`, if there is one.
pub fn index_of(s: &Vec<char>, c: char) -> (r: Option<usize>)
    ensures
        match r {
            Some(i) => i == position(s@, c) && i < s@.len(),
            None => position(s@, c) == s@.len(),
        },
{
    let i: usize = find_char(s, 0, c);
    assert(s@.skip(0) =~= s@);
    if i < s.len() {
        Some(i)
    } else {
        None
    }
}

fn stands_at(s: &Vec<char>, p: &Vec<char>, at: usize) -> (r: bool)
    ensures
        r == occurs_at(s@, p@, at as int),
{
    if p.len() > s.len() || at > s.len() - p.len() {
        return false;
    }
    let n: usize = s.len();
    let mut i: usize = 0;
    while i < p.len()
        invariant
            at + p@.len() <= s@.len() == n,
            i <= p@.len(),
            forall|j: int| 0 <= j < i ==> s@[at + j] == p@[j],
        decreases p@.len() - i,
    {
        if s[at + i] != p[i] {
            assert(s@.subrange(at as int, at + p@.len())[i as int] != p@[i as int]);
            return false;
        }
        i = i + 1;
    }
    assert(s@.subrange(at as int, at + p@.len()) =~= p@);
    true
}

/// The first index at which `p` stands in `s`, if there is one.
pub fn find_text(s: &Vec<char>, p: &str) -> (r: Option<usize>)
    ensures
        match r {
            Some(i) => occurs_at(s@, p@, i as int) && forall|j: int| j < i ==> !occurs_at(s@, p@, j),
            None => !contains_text(s@, p@),
        },
{
    let q: Vec<char> = chars_of(p);
    if q.len() > s.len() {
        return None;
    }
    let mut i: usize = 0;
    while i <= s.len() - q.len()
        invariant
            q@ == p@,
            q@.len() <= s@.len(),
            i <= s@.len() - q@.len() + 1,
            forall|j: int| j < i ==> !occurs_at(s@, p@, j),
        decreases s@.len() - q@.len() + 1 - i,
    {
        if stands_at(s, &q, i) {
            return Some(i);
        }
        if i == s.len() - q.len() {
            return None;
        }
        i = i + 1;
    }
    None
}

/// Whether `p` stands somewhere in `s`.
pub fn has_text(s: &str, p: &str) -> (r: bool)
    ensures
        r == contains_text(s@, p@),
{
    let s: Vec<char> = chars_of(s);
    find_text(&s, p).is_some()
}

/// What follows the prefix `p` of `s`, where `s` begins with it.
pub fn after_prefix(s: &Vec<char>, p: &str) -> (r: Option<Vec<char>>)
    ensures
        match r {
            Some(t) => strip_prefix(s@, p@) == Some(t@),
            None => strip_prefix(s@, p@) is None,
        },
{
    let p: Vec<char> = chars_of(p);
    if stands_at(s, &p, 0) {
        assert(s@.subrange(0, p@.len() as int) =~= s@.take(p@.len() as int));
        let t: Vec<char> = part_of(s, p.len(), s.len());
        assert(t@ =~= s@.skip(p@.len() as int));
        Some(t)
    } else {
        assert(p@.len() <= s@.len() ==> s@.subrange(0, p@.len() as int) =~= s@.take(
            p@.len() as int,
        ));
        None
    }
}

/// Whether `s` begins with `p`.
pub fn has_prefix(s: &Vec<char>, p: &str) -> (r: bool)
    ensures
        r == starts_with(s@, p@),
{
    after_prefix(s, p).is_some()
}

/// Whether `s` ends with `p`.
pub fn has_suffix(s: &Vec<char>, p: &str) -> (r: bool)
    ensures
        r == ends_with(s@, p@),
{
    let p: Vec<char> = chars_of(p);
    if p.len() > s.len() {
        return false;
    }
    let at: usize = s.len() - p.len();
    assert(s@.subrange(at as int, at + p@.len()) =~= s@.skip(at as int));
    stands_at(s, &p, at)
}

/// Whether `s` holds ASCII characters only.
pub fn all_ascii(s: &str) -> (r: bool)
    ensures
        r == is_ascii(s@),
{
    let v: Vec<char> = chars_of(s);
    let mut i: usize = 0;
    while i < v.len()
        invariant
            i <= v@.len(),
            v@ == s@,
            forall|j: int| 0 <= j < i ==> #[trigger] s@[j] < '\u{80}',
        decreases v@.len() - i,
    {
        if v[i] >= '\u{80}' {
            assert(!(s@[i as int] < '\u{80}'));
            return false;
        }
        i = i + 1;
    }
    true
}

// ---- splitting ----

/// The pieces of `s` between the separators `sep`.
pub fn split_chars(s: &Vec<char>, sep: char) -> (r: Vec<Vec<char>>)
    ensures
        texts(r@) == split(s@, sep),
{
    let mut r: Vec<Vec<char>> = Vec::new();
    let mut from: usize = 0;
    assert(s@.skip(0) =~= s@);
    assert(texts(r@) + split(s@.skip(0), sep) =~= split(s@, sep));
    loop
        invariant
            from <= s@.len(),
            texts(r@) + split(s@.skip(from as int), sep) == split(s@, sep),
        decreases s@.len() - from,
    {
        let ghost rest = s@.skip(from as int);
        let ghost before = r@;
        let at: usize = find_char(s, from, sep);
        let piece: Vec<char> = part_of(s, from, at);
        r.push(piece);
        proof {
            lemma_position(rest, sep);
            assert(piece@ =~= rest.take(at - from));
            assert(texts(r@) =~= texts(before).push(piece@));
        }
        if at == s.len() {
            assert(rest.take(at - from) =~= rest);
            assert(texts(r@) =~= split(s@, sep));
            return r;
        }
        from = at + 1;
        proof {
            assert(s@.skip(from as int) =~= rest.skip(position(rest, sep) as int + 1));
            assert(texts(r@) + split(s@.skip(from as int), sep) =~= texts(before) + split(
                rest,
                sep,
            ));
        }
    }
}

/// The pieces of `s` between the first `n - 1` separators.
pub fn splitn_chars(s: &Vec<char>, n: usize, sep: char) -> (r: Vec<Vec<char>>)
    ensures
        texts(r@) == splitn(s@, n as nat, sep),
{
    let mut r: Vec<Vec<char>> = Vec::new();
    let mut from: usize = 0;
    let mut left: usize = n;
    assert(s@.skip(0) =~= s@);
    assert(texts(r@) + splitn(s@.skip(0), n as nat, sep) =~= splitn(s@, n as nat, sep));
    while left > 0
        invariant
            from <= s@.len(),
            texts(r@) + splitn(s@.skip(from as int), left as nat, sep) == splitn(
                s@,
                n as nat,
                sep,
            ),
        decreases left,
    {
        let ghost rest = s@.skip(from as int);
        let ghost before = r@;
        let at: usize = if left == 1 {
            s.len()
        } else {
            find_char(s, from, sep)
        };
        let piece: Vec<char> = part_of(s, from, at);
        r.push(piece);
        proof {
            lemma_position(rest, sep);
            assert(piece@ =~= rest.take(at - from));
            assert(texts(r@) =~= texts(before).push(piece@));
        }
        if at == s.len() {
            assert(rest.take(at - from) =~= rest);
            assert(texts(r@) =~= splitn(s@, n as nat, sep));
            return r;
        }
        from = at + 1;
        left = left - 1;
        proof {
            assert(s@.skip(from as int) =~= rest.skip(position(rest, sep) as int + 1));
            assert(texts(r@) + splitn(s@.skip(from as int), left as nat, sep) =~= texts(before)
                + splitn(rest, (left + 1) as nat, sep));
        }
    }
    assert(texts(r@) =~= splitn(s@, n as nat, sep));
    r
}

/// The lines of `s`.
pub fn lines_of(text: &str) -> (r: Vec<Vec<char>>)
    ensures
        texts(r@) == lines(text@),
{
    let s: Vec<char> = chars_of(text);
    let mut r: Vec<Vec<char>> = Vec::new();
    let mut from: usize = 0;
    assert(s@.skip(0) =~= s@);
    assert(texts(r@) + lines(s@.skip(0)) =~= lines(s@));
    while from < s.len()
        invariant
            s@ == text@,
            from <= s@.len(),
            texts(r@) + lines(s@.skip(from as int)) == lines(s@),
        decreases s@.len() - from,
    {
        let ghost rest = s@.skip(from as int);
        let ghost before = r@;
        let at: usize = find_char(&s, from, '\n');
        proof {
            lemma_position(rest, '\n');
        }
        if at == s.len() {
            let piece: Vec<char> = part_of(&s, from, at);
            r.push(piece);
            assert(piece@ =~= rest);
            assert(texts(r@) =~= texts(before).push(piece@));
            assert(texts(r@) =~= lines(s@));
            return r;
        }
        let end: usize = if at > from && s[at - 1] == '\r' {
            at - 1
        } else {
            at
        };
        let piece: Vec<char> = part_of(&s, from, end);
        r.push(piece);
        from = at + 1;
        proof {
            let p = position(rest, '\n') as int;
            assert(rest.take(p) =~= s@.subrange(from - 1 - p, from - 1));
            assert(piece@ =~= drop_cr(rest.take(p)));
            assert(texts(r@) =~= texts(before).push(piece@));
            assert(s@.skip(from as int) =~= rest.skip(p + 1));
            assert(texts(r@) + lines(s@.skip(from as int)) =~= texts(before) + lines(rest));
        }
    }
    assert(texts(r@) =~= lines(s@));
    r
}

// ---- trimming and replacing ----

/// `s` without the white space at both ends.
pub fn trim_chars(s: &Vec<char>) -> (r: Vec<char>)
    ensures
        r@ == trim(s@),
{
    let mut from: usize = 0;
    assert(s@.skip(0) =~= s@);
    while from < s.len() && white_space(s[from])
        invariant
            from <= s@.len(),
            trim_start(s@.skip(from as int)) == trim_start(s@),
        decreases s@.len() - from,
    {
        assert(s@.skip(from as int).drop_first() =~= s@.skip(from + 1));
        from = from + 1;
    }
    let mut to: usize = s.len();
    let ghost t = s@.skip(from as int);
    assert(s@.subrange(from as int, to as int) =~= t);
    while to > from && white_space(s[to - 1])
        invariant
            from <= to <= s@.len(),
            trim_end(s@.subrange(from as int, to as int)) == trim_end(t),
        decreases to,
    {
        assert(s@.subrange(from as int, to as int).drop_last() =~= s@.subrange(
            from as int,
            to - 1,
        ));
        to = to - 1;
    }
    part_of(s, from, to)
}

/// `s` without the white space at both ends, as a text.
pub fn trimmed(s: &str) -> (r: String)
    ensures
        r@ == trim(s@),
{
    let v: Vec<char> = chars_of(s);
    let t: Vec<char> = trim_chars(&v);
    string_of(&t)
}

/// `s` without the characters `c` at its start.
pub fn trim_char_start(s: &Vec<char>, c: char) -> (r: Vec<char>)
    ensures
        r@ == trim_start_char(s@, c),
{
    let mut from: usize = 0;
    assert(s@.skip(0) =~= s@);
    while from < s.len() && s[from] == c
        invariant
            from <= s@.len(),
            trim_start_char(s@.skip(from as int), c) == trim_start_char(s@, c),
        decreases s@.len() - from,
    {
        assert(s@.skip(from as int).drop_first() =~= s@.skip(from + 1));
        from = from + 1;
    }
    let r: Vec<char> = part_of(s, from, s.len());
    assert(r@ =~= s@.skip(from as int));
    r
}

/// `s` without the characters `c` at both ends.
pub fn trim_char_ends(s: &Vec<char>, c: char) -> (r: Vec<char>)
    ensures
        r@ == trim_char(s@, c),
{
    let t: Vec<char> = trim_char_start(s, c);
    let mut to: usize = t.len();
    assert(t@.take(to as int) =~= t@);
    while to > 0 && t[to - 1] == c
        invariant
            to <= t@.len(),
            trim_end_char(t@.take(to as int), c) == trim_end_char(t@, c),
        decreases to,
    {
        assert(t@.take(to as int).drop_last() =~= t@.take(to - 1));
        to = to - 1;
    }
    let r: Vec<char> = part_of(&t, 0, to);
    assert(r@ =~= t@.take(to as int));
    r
}

/// The pieces of `s` between runs of white space.
pub fn words_of(s: &Vec<char>) -> (r: Vec<Vec<char>>)
    ensures
        texts(r@) == words(s@),
{
    let mut r: Vec<Vec<char>> = Vec::new();
    let mut from: usize = 0;
    assert(s@.skip(0) =~= s@);
    assert(texts(r@) + words(s@.skip(0)) =~= words(s@));
    loop
        invariant
            from <= s@.len(),
            texts(r@) + words(s@.skip(from as int)) == words(s@),
        decreases s@.len() - from,
    {
        let ghost rest = s@.skip(from as int);
        let ghost before = r@;
        let mut start: usize = from;
        while start < s.len() && white_space(s[start])
            invariant
                from <= start <= s@.len(),
                trim_start(s@.skip(start as int)) == trim_start(rest),
            decreases s@.len() - start,
        {
            assert(s@.skip(start as int).drop_first() =~= s@.skip(start + 1));
            start = start + 1;
        }
        let ghost t = s@.skip(start as int);
        assert(trim_start(rest) == t);
        if start == s.len() {
            assert(texts(r@) =~= words(s@));
            return r;
        }
        let mut end: usize = start;
        while end < s.len() && !white_space(s[end])
            invariant
                start <= end <= s@.len(),
                word_len(t) == (end - start) + word_len(s@.skip(end as int)),
                t == s@.skip(start as int),
            decreases s@.len() - end,
        {
            assert(s@.skip(end as int).drop_first() =~= s@.skip(end + 1));
            end = end + 1;
        }
        let piece: Vec<char> = part_of(s, start, end);
        r.push(piece);
        proof {
            lemma_word_len(t);
            let n = word_len(t) as int;
            assert(n == end - start);
            assert(n > 0);
            assert(piece@ =~= t.take(n));
            assert(s@.skip(end as int) =~= t.skip(n));
            assert(texts(r@) =~= texts(before).push(piece@));
            assert(texts(r@) + words(s@.skip(end as int)) =~= texts(before) + words(rest));
        }
        from = end;
    }
}

/// `s` with each `from` replaced by `to`.
pub fn replaced(s: &str, from: char, to: char) -> (r: String)
    ensures
        r@ == replace_char(s@, from, to),
{
    let v: Vec<char> = chars_of(s);
    let mut r: String = String::new();
    let mut i: usize = 0;
    while i < v.len()
        invariant
            v@ == s@,
            i <= v@.len(),
            r@ == replace_char(s@, from, to).take(i as int),
        decreases v@.len() - i,
    {
        if v[i] == from {
            r.push(to);
        } else {
            r.push(v[i]);
        }
        i = i + 1;
        assert(r@ =~= replace_char(s@, from, to).take(i as int));
    }
    assert(r@ =~= replace_char(s@, from, to));
    r
}

/// `s` without the characters `c`.
pub fn without_char(s: &str, c: char) -> (r: String)
    ensures
        r@ == remove_char(s@, c),
{
    let v: Vec<char> = chars_of(s);
    let mut r: String = String::new();
    let mut i: usize = 0;
    assert(v@.take(0) =~= Seq::<char>::empty());
    while i < v.len()
        invariant
            v@ == s@,
            i <= v@.len(),
            r@ == remove_char(v@.take(i as int), c),
        decreases v@.len() - i,
    {
        proof {
            reveal(Seq::filter);
            assert(v@.take(i + 1).drop_last() =~= v@.take(i as int));
        }
        if v[i] != c {
            r.push(v[i]);
        }
        i = i + 1;
    }
    assert(v@.take(i as int) =~= v@);
    r
}

// ---- what the definitions come to ----

/// A text begins and ends with what it is put together from, and holds it.
pub proof fn parts_are_found(a: Seq<char>, p: Seq<char>, b: Seq<char>)
    ensures
        starts_with(p + b, p),
        strip_prefix(p + b, p) == Some(b),
        ends_with(a + p, p),
        contains_text(a + p + b, p),
{
    assert((p + b).take(p.len() as int) =~= p);
    assert((p + b).skip(p.len() as int) =~= b);
    assert((a + p).skip(a.len() as int) =~= p);
    assert((a + p + b).subrange(a.len() as int, a.len() as int + p.len()) =~= p);
    assert(occurs_at(a + p + b, p, a.len() as int));
}

/// Where a text begins or ends with another or holds it, it is put together from it.
#[verifier::spinoff_prover]
pub proof fn found_parts_are_there(s: Seq<char>, p: Seq<char>)
    ensures
        starts_with(s, p) ==> s == p + s.skip(p.len() as int),
        ends_with(s, p) ==> s == s.take(s.len() - p.len()) + p,
        contains_text(s, p) ==> exists|a: Seq<char>, b: Seq<char>| #[trigger] (a + p + b) == s,
{
    if starts_with(s, p) {
        assert(s =~= s.take(p.len() as int) + s.skip(p.len() as int));
    }
    if ends_with(s, p) {
        assert(s =~= s.take(s.len() - p.len()) + s.skip(s.len() - p.len()));
    }
    if contains_text(s, p) {
        let (a, b) = lemma_around(s, p);
        assert(a + p + b == s);
    }
}

proof fn lemma_around(s: Seq<char>, p: Seq<char>) -> (r: (Seq<char>, Seq<char>))
    requires
        contains_text(s, p),
    ensures
        r.0 + p + r.1 == s,
{
    let i = choose|i: int| occurs_at(s, p, i);
    let a = s.take(i);
    let b = s.skip(i + p.len());
    assert(p == s.subrange(i, i + p.len()));
    assert(a + p + b =~= s);
    (a, b)
}

/// A text is found in another by the call exactly where that is put together from it.
pub proof fn texts_are_looked_for(s: &str, p: &str, r: bool)
    requires
        call_ensures(has_text, (s, p), r),
    ensures
        r <==> exists|a: Seq<char>, b: Seq<char>| #[trigger] (a + p@ + b) == s@,
{
    found_parts_are_there(s@, p@);
    if exists|a: Seq<char>, b: Seq<char>| #[trigger] (a + p@ + b) == s@ {
        let (a, b) = choose|a: Seq<char>, b: Seq<char>| #[trigger] (a + p@ + b) == s@;
        parts_are_found(a, p@, b);
    }
}

/// The empty text is in every text.
pub proof fn nothing_is_everywhere(s: Seq<char>, p: Seq<char>)
    requires
        p.len() == 0,
    ensures
        contains_text(s, p),
{
    assert(s.subrange(0, 0) =~= p);
    assert(occurs_at(s, p, 0));
}

/// The pieces of a text are those before its first separator and those behind it.
pub proof fn pieces_end_at_separators(a: Seq<char>, rest: Seq<char>, c: char)
    requires
        lacks(a, c),
    ensures
        split(a.push(c) + rest, c) == seq![a] + split(rest, c),
{
    let s = a.push(c) + rest;
    assert forall|i: int| 0 <= i < a.len() implies s[i] != c by {
        assert(s[i] == a[i]);
    }
    lemma_position_is(s, c, a.len() as int);
    assert(s.take(a.len() as int) =~= a);
    assert(s.skip(a.len() as int + 1) =~= rest);
}

/// What stands behind the last separator of a text is its last piece.
pub proof fn last_pieces(a: Seq<char>, n: Seq<char>, c: char)
    requires
        lacks(n, c),
    ensures
        split(a.push(c) + n, c) == split(a, c).push(n),
    decreases a.len(),
{
    let s = a.push(c) + n;
    lemma_position(a, c);
    let p = position(a, c) as int;
    if p >= a.len() {
        assert(lacks(a, c));
        pieces_end_at_separators(a, n, c);
        lemma_split_whole(a, c);
        lemma_split_whole(n, c);
        assert(split(s, c) =~= split(a, c).push(n));
    } else {
        let first = a.take(p);
        let rest = a.skip(p + 1);
        assert(a =~= first.push(c) + rest);
        assert(s =~= first.push(c) + (rest.push(c) + n));
        pieces_end_at_separators(first, rest.push(c) + n, c);
        pieces_end_at_separators(first, rest, c);
        last_pieces(rest, n, c);
        assert(split(s, c) =~= split(a, c).push(n));
    }
}

/// Whether a text holds white space only.
pub open spec fn is_blank(s: Seq<char>) -> bool {
    forall|i: int| 0 <= i < s.len() ==> is_white_space(#[trigger] s[i])
}

proof fn lemma_trim_start_parts(s: Seq<char>) -> (a: Seq<char>)
    ensures
        is_blank(a),
        s == a + trim_start(s),
        trim_start(s).len() > 0 ==> !is_white_space(trim_start(s)[0]),
    decreases s.len(),
{
    if s.len() > 0 && is_white_space(s[0]) {
        let b = lemma_trim_start_parts(s.drop_first());
        let a = seq![s[0]] + b;
        assert(s =~= seq![s[0]] + s.drop_first());
        assert(a + trim_start(s) =~= seq![s[0]] + (b + trim_start(s)));
        a
    } else {
        assert(s =~= Seq::<char>::empty() + s);
        Seq::empty()
    }
}

proof fn lemma_trim_end_parts(s: Seq<char>) -> (b: Seq<char>)
    ensures
        is_blank(b),
        s == trim_end(s) + b,
        trim_end(s).len() > 0 ==> !is_white_space(trim_end(s).last()),
    decreases s.len(),
{
    if s.len() > 0 && is_white_space(s.last()) {
        let a = lemma_trim_end_parts(s.drop_last());
        let b = a.push(s.last());
        assert(s =~= s.drop_last().push(s.last()));
        assert(trim_end(s) + b =~= (trim_end(s) + a).push(s.last()));
        b
    } else {
        assert(s =~= s + Seq::<char>::empty());
        Seq::empty()
    }
}

/// Trimming takes away white space only, and leaves none at the ends.
pub proof fn trimming_takes_white_space(s: Seq<char>)
    ensures
        exists|a: Seq<char>, b: Seq<char>|
            is_blank(a) && is_blank(b) && #[trigger] (a + trim(s) + b) == s,
        trim(s).len() > 0 ==> !is_white_space(trim(s)[0]) && !is_white_space(trim(s).last()),
{
    let a = lemma_trim_start_parts(s);
    let b = lemma_trim_end_parts(trim_start(s));
    assert(a + trim(s) + b =~= a + (trim(s) + b));
    assert(a + trim(s) + b == s);
    if trim(s).len() > 0 {
        assert(trim_start(s)[0] == trim(s)[0]);
    }
}

/// The space, the tab and the ends of lines are white space; no letter, digit or sign of ASCII is.
pub proof fn white_space_in_ascii(c: char)
    requires
        c < '\u{80}',
    ensures
        is_white_space(c) <==> c == ' ' || c == '\t' || c == '\n' || c == '\r' || c == '\u{b}' || c
            == '\u{c}',
{
}

proof fn lemma_removed(s: Seq<char>, c: char, keep: spec_fn(char) -> bool)
    requires
        forall|x: char| #[trigger] keep(x) <==> x != c,
    ensures
        remove_char(s, c) == s.filter(keep),
    decreases s.len(),
{
    reveal(Seq::filter);
    if s.len() > 0 {
        lemma_removed(s.drop_last(), c, keep);
    }
}

/// A text without a character keeps all others, in their order.
pub proof fn removing_keeps_the_rest(s: Seq<char>, c: char)
    ensures
        order::keeps(remove_char(s, c), s, |x: char| x != c),
{
    let f = |x: char| x != c;
    order::filtering_keeps(s, f);
    lemma_removed(s, c, f);
}

/// Texts put together with a separator between each two of them.
pub open spec fn joined_by(l: Seq<Seq<char>>, c: char) -> Seq<char>
    decreases l.len(),
{
    if l.len() == 0 {
        seq![]
    } else if l.len() == 1 {
        l[0]
    } else {
        l[0].push(c) + joined_by(l.drop_first(), c)
    }
}

/// The pieces of a text, put together again, are the text; none of them holds a separator.
pub proof fn pieces_make_the_text(s: Seq<char>, c: char)
    ensures
        joined_by(split(s, c), c) == s,
        forall|i: int| 0 <= i < split(s, c).len() ==> lacks(#[trigger] split(s, c)[i], c),
    decreases s.len(),
{
    lemma_split_lacks(s, c);
    lemma_position(s, c);
    let p = position(s, c) as int;
    if p < s.len() {
        let rest = s.skip(p + 1);
        pieces_make_the_text(rest, c);
        lemma_split_not_empty(rest, c);
        let l = split(s, c);
        assert(l.drop_first() =~= split(rest, c));
        assert(l[0] == s.take(p));
        assert(s.take(p).push(c) + rest =~= s);
    }
}

/// A character that is replaced becomes the other one, and no other character changes.
pub proof fn characters_are_replaced(s: &str, from: char, to: char, r: String)
    requires
        call_ensures(replaced, (s, from, to), r),
    ensures
        r@.len() == s@.len(),
        forall|i: int| 0 <= i < s@.len() && s@[i] == from ==> #[trigger] r@[i] == to,
        forall|i: int| 0 <= i < s@.len() && s@[i] != from ==> #[trigger] r@[i] == s@[i],
{
}

/// Capital and small letters of ASCII belong together in the order of the alphabet; nothing else is
/// changed.
pub proof fn letters_have_two_forms(s: Seq<char>, i: int)
    requires
        0 <= i < s.len(),
    ensures
        ascii_lower(s).len() == s.len(),
        ascii_upper(s).len() == s.len(),
        'A' <= s[i] <= 'Z' ==> ascii_lower(s)[i] as u32 == s[i] as u32 + 32 && ascii_upper(s)[i]
            == s[i],
        'a' <= s[i] <= 'z' ==> ascii_upper(s)[i] as u32 == s[i] as u32 - 32 && ascii_lower(s)[i]
            == s[i],
        !('A' <= s[i] <= 'Z') && !('a' <= s[i] <= 'z') ==> ascii_lower(s)[i] == s[i]
            && ascii_upper(s)[i] == s[i],
{
}

/// Beyond ASCII, white space is what Unicode lists: the next line, the spaces of fixed width and the
/// separators of lines and paragraphs.
pub proof fn white_space_beyond_ascii(c: char)
    requires
        c >= '\u{80}',
    ensures
        is_white_space(c) <==> c == '\u{85}' || c == '\u{a0}' || c == '\u{1680}' || ('\u{2000}' <= c
            && c <= '\u{200a}') || c == '\u{2028}' || c == '\u{2029}' || c == '\u{202f}' || c
            == '\u{205f}' || c == '\u{3000}',
{
}

/// A line ends with a line feed, with or without a carriage return before it, which is no part of
/// the line.
pub proof fn lines_end_in_two_ways(a: Seq<char>, rest: Seq<char>)
    requires
        lacks(a, '\n'),
        a.len() > 0 ==> a.last() != '\r',
    ensures
        lines(a.push('\n') + rest) == seq![a] + lines(rest),
        lines(a.push('\r').push('\n') + rest) == seq![a] + lines(rest),
        a.len() > 0 ==> lines(a) == seq![a],
{
    lemma_lines_first(a.push('\n') + rest, a, rest);
    let b = a.push('\r');
    let s = b.push('\n') + rest;
    assert forall|i: int| 0 <= i < b.len() implies s[i] != '\n' by {
        assert(s[i] == b[i]);
    }
    lemma_position_is(s, '\n', b.len() as int);
    assert(s.take(b.len() as int) =~= b);
    assert(s.skip(b.len() as int + 1) =~= rest);
    assert(b.drop_last() =~= a);
    lemma_position_is(a, '\n', a.len() as int);
}

/// Texts that hold no separator, put together with separators, are split into those texts.
pub proof fn joined_texts_are_split(l: Seq<Seq<char>>, n: nat, c: char)
    requires
        1 <= l.len() <= n,
        forall|i: int| 0 <= i < l.len() ==> lacks(#[trigger] l[i], c),
    ensures
        splitn(joined_by(l, c), n, c) == l,
    decreases l.len(),
{
    assert(lacks(l[0], c));
    if l.len() == 1 {
        lemma_splitn_whole(l[0], n, c);
        assert(seq![l[0]] =~= l);
    } else {
        let rest = l.drop_first();
        assert forall|i: int| 0 <= i < rest.len() implies lacks(#[trigger] rest[i], c) by {
            assert(rest[i] == l[i + 1]);
        }
        joined_texts_are_split(rest, (n - 1) as nat, c);
        lemma_splitn_first(joined_by(l, c), l[0], joined_by(rest, c), n, c);
        assert(seq![l[0]] + rest =~= l);
    }
}

} // verus!
