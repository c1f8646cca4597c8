//! Paths as text, by the rules of the system they belong to.
use vstd::prelude::*;

use crate::numbers;
use crate::text;

verus! {

/// The rules by which a system reads paths.
#[derive(Clone, Copy, Debug, PartialEq, Eq, Structural)]
pub enum Style {
    /// Parts are separated by `/`.
    Unix,
    /// Parts are separated by `\` or `/`, and a path may begin with a drive or a share.
    Windows,
}

/// The separator that is written between the parts of a path.
pub open spec fn separator(style: Style) -> char {
    match style {
        Style::Unix => '/',
        Style::Windows => '\\',
    }
}

/// Whether `c` separates the parts of a path.
pub open spec fn is_separator(c: char, style: Style) -> bool {
    c == '/' || (style is Windows && c == '\\')
}

/// Whether a path is one of Windows that is taken as it stands: in it only `\` separates parts, and
/// a dot is a part.
pub open spec fn is_verbatim(path: Seq<char>, style: Style) -> bool {
    style is Windows && text::starts_with(path, "\\\\?\\"@)
}

/// A path with one kind of separators.
pub open spec fn unified(path: Seq<char>, style: Style) -> Seq<char> {
    if style is Windows && !is_verbatim(path, style) {
        text::replace_char(path, '/', '\\')
    } else {
        path
    }
}

/// Whether a text begins with a drive.
pub open spec fn is_drive(s: Seq<char>) -> bool {
    s.len() >= 2 && s[1] == ':' && ('a' <= s[0] <= 'z' || 'A' <= s[0] <= 'Z')
}

/// The length of the share that follows a server's name and a separator.
pub open spec fn share_len(s: Seq<char>) -> nat {
    let n = text::position(s, '\\');
    if n < s.len() {
        text::position(s.skip(n as int + 1), '\\')
    } else {
        0
    }
}

/// The length of a server's name with its share, if it has one.
pub open spec fn server_len(s: Seq<char>) -> nat {
    text::position(s, '\\') + if share_len(s) > 0 {
        1 + share_len(s)
    } else {
        0
    }
}

/// Where the letter of the drive stands with which a path of Windows begins, if it does.
pub open spec fn drive_in(t: Seq<char>, verbatim: bool) -> Option<nat> {
    if verbatim {
        let s = t.skip(4);
        if is_drive(s) && (s.len() == 2 || s[2] == '\\') {
            Some(4)
        } else {
            None
        }
    } else if is_drive(t) {
        Some(0)
    } else {
        None
    }
}

/// The length of what stands before the parts of a path of Windows: a drive (`C:`), a share
/// (`\\server\share`), a device (`\\.\COM1`), or one of them in its verbatim form (`\\?\C:`,
/// `\\?\UNC\server\share`, `\\?\COM1`).
pub open spec fn prefix_in(t: Seq<char>, verbatim: bool) -> nat {
    match drive_in(t, verbatim) {
        Some(i) => i + 2,
        None => if verbatim {
            if text::starts_with(t.skip(4), "UNC\\"@) {
                8 + server_len(t.skip(8))
            } else {
                4 + text::position(t.skip(4), '\\')
            }
        } else if text::starts_with(t, "\\\\.\\"@) {
            4 + text::position(t.skip(4), '\\')
        } else if text::starts_with(t, "\\\\"@) {
            let s = t.skip(2);
            if text::position(s, '\\') > 0 && share_len(s) > 0 {
                2 + server_len(s)
            } else {
                0
            }
        } else {
            0
        },
    }
}

/// The length of what stands before the parts of a path.
pub open spec fn prefix_len(path: Seq<char>, style: Style) -> nat {
    match style {
        Style::Unix => 0,
        Style::Windows => prefix_in(unified(path, style), is_verbatim(path, style)),
    }
}

/// Whether a path begins with a drive.
pub open spec fn has_drive(path: Seq<char>, style: Style) -> bool {
    style is Windows && drive_in(unified(path, style), is_verbatim(path, style)) is Some
}

/// What stands before the parts of a path. The letter of a drive is made capital.
pub open spec fn prefix(path: Seq<char>, style: Style) -> Seq<char> {
    let p = unified(path, style).take(prefix_len(path, style) as int);
    if has_drive(path, style) {
        text::ascii_upper(p)
    } else {
        p
    }
}

/// The parts of a path.
pub open spec fn parts(path: Seq<char>, style: Style) -> Seq<Seq<char>> {
    text::split(unified(path, style).skip(prefix_len(path, style) as int), separator(style))
}

/// `name` in the directory `dir`. A name that begins at a root, or with a drive or a share, stands for
/// itself; on Windows a name that begins at a root alone is taken on the drive or share of `dir`. The
/// parts of neither are changed.
pub open spec fn join(dir: Seq<char>, name: Seq<char>, style: Style) -> Seq<char> {
    if prefix_len(name, style) > 0 || (style is Unix && is_rooted(name, style)) {
        name
    } else if is_rooted(name, style) {
        dir.take(prefix_len(dir, style) as int) + name
    } else if needs_separator(dir, style) {
        dir.push(separator(style)) + name
    } else {
        dir + name
    }
}

/// Whether a separator goes between the directory `dir` and a name: not behind an empty path, behind
/// a separator, or behind a drive alone.
pub open spec fn needs_separator(dir: Seq<char>, style: Style) -> bool {
    &&& dir.len() > 0
    &&& unified(dir, style).last() != separator(style)
    &&& !(style is Windows && dir.len() == 2 && is_drive(dir))
}

/// The parts of a path without those at its end that are empty or, in a path that is not verbatim,
/// dots.
pub open spec fn significant(parts: Seq<Seq<char>>, verbatim: bool) -> Seq<Seq<char>>
    decreases parts.len(),
{
    if parts.len() > 0 && (parts.last() == ""@ || (parts.last() == "."@ && !verbatim)) {
        significant(parts.drop_last(), verbatim)
    } else {
        parts
    }
}

/// The last part of a path, where it names something.
pub open spec fn file_name(path: Seq<char>, style: Style) -> Option<Seq<char>> {
    let s = significant(parts(path, style), is_verbatim(path, style));
    if s.len() == 0 || s.last() == "."@ || s.last() == ".."@ {
        None
    } else {
        Some(s.last())
    }
}

/// The last part of a path; empty where it names nothing.
pub open spec fn name_or_empty(path: Seq<char>, style: Style) -> Seq<char> {
    match file_name(path, style) {
        Some(n) => n,
        None => ""@,
    }
}

/// Whether `name` names something in whatever directory it is put: it is one part, no dots, and
/// begins with no drive.
pub open spec fn is_plain(name: Seq<char>, style: Style) -> bool {
    &&& name.len() > 0
    &&& name != "."@
    &&& name != ".."@
    &&& forall|i: int| 0 <= i < name.len() ==> !is_separator(#[trigger] name[i], style)
    &&& !(style is Windows && is_drive(name))
}

/// The last part of a path, where it names something in whatever directory it is put.
pub open spec fn plain_name(path: Seq<char>, style: Style) -> Option<Seq<char>> {
    match file_name(path, style) {
        Some(n) => if is_plain(n, style) {
            Some(n)
        } else {
            None
        },
        None => None,
    }
}

/// The index of the last `c` in `s`, if there is one.
pub open spec fn last_position(s: Seq<char>, c: char) -> Option<nat>
    decreases s.len(),
{
    if s.len() == 0 {
        None
    } else if s.last() == c {
        Some((s.len() - 1) as nat)
    } else {
        last_position(s.drop_last(), c)
    }
}

/// Where the extension of a file name begins: at its last dot, which is not its first character.
pub open spec fn extension_dot(name: Seq<char>) -> Option<nat> {
    match last_position(name, '.') {
        Some(i) => if i > 0 {
            Some(i)
        } else {
            None
        },
        None => None,
    }
}

/// The last part of a path without its extension; empty where there is no last part.
pub open spec fn stem(path: Seq<char>, style: Style) -> Seq<char> {
    match file_name(path, style) {
        Some(name) => match extension_dot(name) {
            Some(i) => name.take(i as int),
            None => name,
        },
        None => seq![],
    }
}

/// The extension of the last part of a path, without its dot.
pub open spec fn extension(path: Seq<char>, style: Style) -> Option<Seq<char>> {
    match file_name(path, style) {
        Some(name) => match extension_dot(name) {
            Some(i) => Some(name.skip(i as int + 1)),
            None => None,
        },
        None => None,
    }
}

/// The extension of the last part of a path with its dot; empty where it has none.
pub open spec fn dotted_extension(path: Seq<char>, style: Style) -> Seq<char> {
    match extension(path, style) {
        Some(ext) => seq!['.'] + ext,
        None => seq![],
    }
}

/// The name that stands in for `name` when that is taken: number `i` goes before the extension.
pub open spec fn numbered_name(name: Seq<char>, i: nat, style: Style) -> Seq<char> {
    stem(name, style) + " ("@ + numbers::decimal(i) + ")"@ + dotted_extension(name, style)
}

/// Whether `taken`, asked about `path`, may answer `answer`.
pub open spec fn may_answer<F: Fn(&str) -> bool>(
    taken: F,
    path: Seq<char>,
    answer: bool,
) -> bool {
    exists|s: &str| s@ == path && #[trigger] call_ensures(taken, (s,), answer)
}

/// Whether `r` is `name` in `dir` where that is free, and else the first numbered name that is.
pub open spec fn is_unique_path<F: Fn(&str) -> bool>(
    r: Seq<char>,
    dir: Seq<char>,
    name: Seq<char>,
    style: Style,
    taken: F,
) -> bool {
    if r == join(dir, name, style) && may_answer(taken, r, false) {
        true
    } else {
        &&& may_answer(taken, join(dir, name, style), true)
        &&& exists|i: nat|
            {
                &&& 1 <= i <= u32::MAX + 1
                &&& forall|j: nat|
                    1 <= j < i ==> may_answer(
                        taken,
                        #[trigger] join(dir, numbered_name(name, j, style), style),
                        true,
                    )
                &&& if i <= u32::MAX {
                    r == #[trigger] join(dir, numbered_name(name, i, style), style) && may_answer(
                        taken,
                        r,
                        false,
                    )
                } else {
                    r == join(dir, name, style)
                }
            }
    }
}

/// Whether a path begins at a root: with a separator behind what stands before its parts, or with a
/// share or a device that is not verbatim.
pub open spec fn is_rooted(path: Seq<char>, style: Style) -> bool {
    let t = unified(path, style);
    let n = prefix_len(path, style) as int;
    ||| n < t.len() && t[n] == separator(style)
    ||| n > 0 && !is_verbatim(path, style) && !has_drive(path, style)
}

/// Whether the part `i` of a path counts: an empty part does not, and a dot only where it begins the
/// path or the path is verbatim.
pub open spec fn counts(path: Seq<char>, i: int, style: Style) -> bool {
    let part = parts(path, style)[i];
    part != ""@ && (part != "."@ || is_verbatim(path, style) || (i == 0 && prefix_len(path, style)
        == 0))
}

/// The first `n` parts of a path, without those that do not count.
pub open spec fn components(path: Seq<char>, n: nat, style: Style) -> Seq<Seq<char>>
    decreases n,
{
    if n == 0 {
        seq![]
    } else {
        let before = components(path, (n - 1) as nat, style);
        if counts(path, n - 1, style) {
            before.push(parts(path, style)[n - 1])
        } else {
            before
        }
    }
}

/// Whether two texts are the same path.
pub open spec fn are_same(a: Seq<char>, b: Seq<char>, style: Style) -> bool {
    &&& is_verbatim(a, style) == is_verbatim(b, style)
    &&& prefix(a, style) == prefix(b, style)
    &&& is_rooted(a, style) == is_rooted(b, style)
    &&& components(a, parts(a, style).len(), style) == components(b, parts(b, style).len(), style)
}

// ---- executable ----

/// A path taken apart.
struct Parsed {
    verbatim: bool,
    /// How much stands before its parts.
    start: usize,
    prefix: Vec<char>,
    rooted: bool,
    parts: Vec<Vec<char>>,
}

impl Parsed {
    spec fn is(self, path: Seq<char>, style: Style) -> bool {
        &&& self.verbatim == is_verbatim(path, style)
        &&& self.start == prefix_len(path, style)
        &&& self.prefix@ == prefix(path, style)
        &&& self.rooted == is_rooted(path, style)
        &&& text::texts(self.parts@) == parts(path, style)
    }
}

fn begins_with_drive(s: &Vec<char>) -> (r: bool)
    ensures
        r == is_drive(s@),
{
    s.len() >= 2 && s[1] == ':' && (('a' <= s[0] && s[0] <= 'z') || ('A' <= s[0] && s[0] <= 'Z'))
}

/// How long a server's name and the share behind it are.
fn server_lengths(s: &Vec<char>) -> (r: (usize, usize))
    ensures
        r.0 == text::position(s@, '\\'),
        r.1 == share_len(s@),
        r.0 <= s@.len(),
        r.1 > 0 ==> r.0 + 1 + r.1 <= s@.len(),
{
    let len: usize = s.len();
    match text::index_of(s, '\\') {
        None => (len, 0),
        Some(n) => {
            let rest: Vec<char> = text::part_of(s, n + 1, len);
            assert(rest@ =~= s@.skip(n + 1));
            match text::index_of(&rest, '\\') {
                None => (n, rest.len()),
                Some(m) => (n, m),
            }
        },
    }
}

/// The length of what stands before the parts of a path of Windows, and whether it is a drive.
fn windows_prefix(t: &Vec<char>, verbatim: bool) -> (r: (usize, bool))
    requires
        verbatim ==> t@.len() >= 4,
    ensures
        r.0 == prefix_in(t@, verbatim),
        r.0 <= t@.len(),
        r.1 == (drive_in(t@, verbatim) is Some),
{
    proof {
        reveal_strlit("UNC\\");
        reveal_strlit("\\\\.\\");
        reveal_strlit("\\\\");
    }
    let len: usize = t.len();
    if verbatim {
        let s: Vec<char> = text::part_of(t, 4, len);
        assert(s@ =~= t@.skip(4));
        if begins_with_drive(&s) && (s.len() == 2 || s[2] == '\\') {
            return (6, true);
        }
        match text::after_prefix(&s, "UNC\\") {
            Some(u) => {
                assert(u@ =~= t@.skip(8));
                let (server, share): (usize, usize) = server_lengths(&u);
                if share > 0 {
                    return (8 + server + 1 + share, false);
                }
                return (8 + server, false);
            },
            None => {
                let (first, _): (usize, usize) = server_lengths(&s);
                return (4 + first, false);
            },
        }
    }
    if begins_with_drive(t) {
        return (2, true);
    }
    match text::after_prefix(t, "\\\\.\\") {
        Some(s) => {
            let (first, _): (usize, usize) = server_lengths(&s);
            return (4 + first, false);
        },
        None => {},
    }
    match text::after_prefix(t, "\\\\") {
        Some(s) => {
            let (server, share): (usize, usize) = server_lengths(&s);
            if server > 0 && share > 0 {
                return (2 + server + 1 + share, false);
            }
        },
        None => {},
    }
    (0, false)
}

/// Takes a path apart.
fn parse(path: &str, style: Style) -> (r: Parsed)
    ensures
        r.is(path@, style),
        r.start <= path@.len(),
{
    let windows: bool = style == Style::Windows;
    let given: Vec<char> = text::chars_of(path);
    let verbatim: bool = windows && text::has_prefix(&given, "\\\\?\\");
    let t: Vec<char> = if windows && !verbatim {
        text::chars_of(text::replaced(path, '/', '\\').as_str())
    } else {
        given
    };
    assert(t@ == unified(path@, style));
    proof {
        reveal_strlit("\\\\?\\");
    }
    let (start, drive): (usize, bool) = if windows {
        windows_prefix(&t, verbatim)
    } else {
        (0, false)
    };
    let before: Vec<char> = text::part_of(&t, 0, start);
    let rest: Vec<char> = text::part_of(&t, start, t.len());
    assert(before@ =~= t@.take(start as int));
    assert(rest@ =~= t@.skip(start as int));
    let sep: char = separator_of(style);
    let parts: Vec<Vec<char>> = text::split_chars(&rest, sep);
    let rooted: bool = (rest.len() > 0 && rest[0] == sep) || (start > 0 && !verbatim && !drive);
    let prefix: Vec<char> = if drive {
        proof {
            assert(text::is_ascii(before@)) by {
                if verbatim {
                    assert forall|i: int| 0 <= i < 4 implies t@[i] == "\\\\?\\"@[i] by {
                        assert(t@.take(4)[i] == t@[i]);
                    }
                    assert(t@.skip(4)[0] == t@[4] && t@.skip(4)[1] == t@[5]);
                }
            }
        }
        text::chars_of(text::uppercased(text::string_of(&before).as_str()).as_str())
    } else {
        before
    };
    Parsed { verbatim, start, prefix, rooted, parts }
}

/// The separator that is written between the parts of a path.
pub fn separator_of(style: Style) -> (r: char)
    ensures
        r == separator(style),
{
    match style {
        Style::Unix => '/',
        Style::Windows => '\\',
    }
}

/// The parts of a path that count.
fn components_of(p: &Parsed, Ghost(path): Ghost<Seq<char>>, Ghost(style): Ghost<Style>) -> (r: Vec<
    Vec<char>,
>)
    requires
        p.is(path, style),
    ensures
        text::texts(r@) == components(path, parts(path, style).len(), style),
{
    let ghost all = parts(path, style);
    assert(text::texts(p.parts@).len() == p.parts@.len());
    let mut r: Vec<Vec<char>> = Vec::new();
    let mut i: usize = 0;
    assert(text::texts(r@) =~= components(path, 0, style));
    while i < p.parts.len()
        invariant
            i <= p.parts@.len(),
            p.is(path, style),
            all == parts(path, style),
            all.len() == p.parts@.len(),
            text::texts(r@) == components(path, i as nat, style),
        decreases p.parts@.len() - i,
    {
        let ghost before = text::texts(r@);
        assert(all[i as int] == p.parts@[i as int]@);
        if !text::is_text(&p.parts[i], "") && (p.verbatim || (i == 0 && p.start == 0)
            || !text::is_text(&p.parts[i], ".")) {
            let part: Vec<char> = text::part_of(&p.parts[i], 0, p.parts[i].len());
            assert(part@ =~= all[i as int]);
            r.push(part);
            assert(text::texts(r@) =~= before.push(part@));
        }
        i = i + 1;
    }
    r
}

/// Whether two texts are the same path.
pub fn same_path(a: &str, b: &str, style: Style) -> (r: bool)
    ensures
        r == are_same(a@, b@, style),
{
    let p: Parsed = parse(a, style);
    let q: Parsed = parse(b, style);
    if p.verbatim != q.verbatim || p.rooted != q.rooted || !text::same_chars(&p.prefix, &q.prefix) {
        return false;
    }
    let x: Vec<Vec<char>> = components_of(&p, Ghost(a@), Ghost(style));
    let y: Vec<Vec<char>> = components_of(&q, Ghost(b@), Ghost(style));
    let ghost s = text::texts(x@);
    let ghost t = text::texts(y@);
    if x.len() != y.len() {
        assert(s.len() != t.len());
        return false;
    }
    let mut i: usize = 0;
    while i < x.len()
        invariant
            i <= x@.len(),
            x@.len() == y@.len(),
            s == text::texts(x@),
            t == text::texts(y@),
            forall|j: int| 0 <= j < i ==> s[j] == t[j],
            p.is(a@, style),
            q.is(b@, style),
            p.verbatim == q.verbatim && p.rooted == q.rooted && p.prefix@ == q.prefix@,
            s == components(a@, parts(a@, style).len(), style),
            t == components(b@, parts(b@, style).len(), style),
        decreases x@.len() - i,
    {
        if !text::same_chars(&x[i], &y[i]) {
            assert(s[i as int] != t[i as int]);
            return false;
        }
        i = i + 1;
    }
    assert(s =~= t);
    true
}

/// `name` in the directory `dir`.
pub fn joined(dir: &str, name: &str, style: Style) -> (r: String)
    ensures
        r@ == join(dir@, name@, style),
{
    let d: Vec<char> = text::chars_of(dir);
    let windows: bool = style == Style::Windows;
    let n: Parsed = parse(name, style);
    if n.start > 0 || (n.rooted && !windows) {
        return name.to_string();
    }
    if n.rooted {
        let p: Parsed = parse(dir, style);
        let before: Vec<char> = text::part_of(&d, 0, p.start);
        assert(before@ =~= dir@.take(p.start as int));
        let mut r: String = text::string_of(&before);
        r.append(name);
        return r;
    }
    let mut r: String = dir.to_string();
    if d.len() > 0 && d[d.len() - 1] != separator_of(style) {
        let slash: bool = windows && d[d.len() - 1] == '/' && !text::has_prefix(&d, "\\\\?\\");
        let drive: bool = windows && d.len() == 2 && begins_with_drive(&d);
        if !slash && !drive {
            r.push(separator_of(style));
        }
    }
    r.append(name);
    r
}

/// The last part of a path, where it names something.
pub fn name_of(path: &str, style: Style) -> (r: Option<Vec<char>>)
    ensures
        match r {
            Some(n) => file_name(path@, style) == Some(n@),
            None => file_name(path@, style) is None,
        },
{
    let p: Parsed = parse(path, style);
    let verbatim: bool = p.verbatim;
    let mut parts: Vec<Vec<char>> = p.parts;
    let ghost all = text::texts(parts@);
    loop
        invariant
            all == self::parts(path@, style),
            verbatim == is_verbatim(path@, style),
            significant(text::texts(parts@), verbatim) == significant(all, verbatim),
        decreases parts@.len(),
    {
        let ghost now = text::texts(parts@);
        match parts.pop() {
            None => {
                return None;
            },
            Some(last) => {
                assert(now.last() == last@);
                assert(text::texts(parts@) =~= now.drop_last());
                let dot: bool = text::is_text(&last, ".");
                if !text::is_text(&last, "") && (verbatim || !dot) {
                    if dot || text::is_text(&last, "..") {
                        return None;
                    }
                    return Some(last);
                }
            },
        }
    }
}

/// The last part of a path, as text; empty where it names nothing.
pub fn last_part(path: &str, style: Style) -> (r: String)
    ensures
        r@ == name_or_empty(path@, style),
{
    match name_of(path, style) {
        Some(n) => text::string_of(&n),
        None => "".to_string(),
    }
}

/// Whether `name` names something in whatever directory it is put.
pub fn plain(name: &Vec<char>, style: Style) -> (r: bool)
    ensures
        r == is_plain(name@, style),
{
    proof {
        reveal_strlit("");
    }
    if name.len() == 0 || text::is_text(name, ".") || text::is_text(name, "..") {
        return false;
    }
    let windows: bool = style == Style::Windows;
    if windows && begins_with_drive(name) {
        return false;
    }
    let mut i: usize = 0;
    while i < name.len()
        invariant
            i <= name@.len(),
            windows == (style is Windows),
            forall|j: int| 0 <= j < i ==> !is_separator(#[trigger] name@[j], style),
        decreases name@.len() - i,
    {
        if name[i] == '/' || (windows && name[i] == '\\') {
            assert(is_separator(name@[i as int], style));
            return false;
        }
        i = i + 1;
    }
    true
}

/// The last part of a path, where it names something in whatever directory it is put.
pub fn plain_name_of(path: &str, style: Style) -> (r: Option<String>)
    ensures
        match r {
            Some(n) => plain_name(path@, style) == Some(n@),
            None => plain_name(path@, style) is None,
        },
{
    match name_of(path, style) {
        Some(n) => if plain(&n, style) {
            Some(text::string_of(&n))
        } else {
            None
        },
        None => None,
    }
}

/// The index of the last `c` in `s`, if there is one.
fn last_index_of(s: &Vec<char>, c: char) -> (r: Option<usize>)
    ensures
        match r {
            Some(i) => last_position(s@, c) == Some(i as nat) && i < s@.len(),
            None => last_position(s@, c) is None,
        },
{
    let mut i: usize = s.len();
    assert(s@.take(i as int) =~= s@);
    while i > 0
        invariant
            i <= s@.len(),
            last_position(s@, c) == last_position(s@.take(i as int), c),
        decreases i,
    {
        assert(s@.take(i as int).drop_last() =~= s@.take(i - 1));
        if s[i - 1] == c {
            return Some(i - 1);
        }
        i = i - 1;
    }
    None
}

/// The last part of a path without its extension, and the extension with its dot.
fn split_name(path: &str, style: Style) -> (r: (String, String))
    ensures
        r.0@ == stem(path@, style),
        r.1@ == dotted_extension(path@, style),
{
    match name_of(path, style) {
        None => {
            let e: String = String::new();
            (String::new(), e)
        },
        Some(name) => {
            match last_index_of(&name, '.') {
                Some(i) => if i > 0 {
                    let before: Vec<char> = text::part_of(&name, 0, i);
                    let after: Vec<char> = text::part_of(&name, i, name.len());
                    assert(before@ =~= name@.take(i as int));
                    assert(name@[i as int] == '.') by {
                        lemma_last_position(name@, '.');
                    }
                    assert(after@ =~= seq!['.'] + name@.skip(i + 1));
                    return (text::string_of(&before), text::string_of(&after));
                },
                None => {},
            }
            (text::string_of(&name), String::new())
        },
    }
}

proof fn lemma_last_position(s: Seq<char>, c: char)
    ensures
        last_position(s, c) matches Some(i) ==> i < s.len() && s[i as int] == c,
    decreases s.len(),
{
    if s.len() > 0 && s.last() != c {
        lemma_last_position(s.drop_last(), c);
    }
}

/// The extension of the last part of a path, without its dot.
pub fn extension_of(path: &str, style: Style) -> (r: Option<String>)
    ensures
        match r {
            Some(e) => extension(path@, style) == Some(e@),
            None => extension(path@, style) is None,
        },
{
    match name_of(path, style) {
        None => None,
        Some(name) => {
            let n: usize = name.len();
            match last_index_of(&name, '.') {
                Some(i) => if i > 0 {
                    let after: Vec<char> = text::part_of(&name, i + 1, n);
                    assert(after@ =~= name@.skip(i + 1));
                    Some(text::string_of(&after))
                } else {
                    None
                },
                None => None,
            }
        },
    }
}

/// The name that stands in for `name` when that is taken.
pub fn numbered(name: &str, i: u32, style: Style) -> (r: String)
    ensures
        r@ == numbered_name(name@, i as nat, style),
{
    let (before, ext): (String, String) = split_name(name, style);
    let mut r: String = before;
    r.append(" (");
    numbers::push_decimal(&mut r, i as u64);
    r.append(")");
    r.append(ext.as_str());
    r
}

/// A path in `dir` that nothing occupies: `name` itself, or the first free one of `name (1)`,
/// `name (2)` and so on, with the number before the extension.
pub fn unique_path<F: Fn(&str) -> bool>(dir: &str, name: &str, style: Style, taken: F) -> (r:
    String)
    requires
        forall|s: &str| call_requires(taken, (s,)),
    ensures
        is_unique_path(r@, dir@, name@, style, taken),
{
    let p: String = joined(dir, name, style);
    if !taken(p.as_str()) {
        return p;
    }
    assert(may_answer(taken, join(dir@, name@, style), true));
    let mut i: u32 = 1;
    loop
        invariant
            forall|s: &str| call_requires(taken, (s,)),
            p@ == join(dir@, name@, style),
            may_answer(taken, join(dir@, name@, style), true),
            1 <= i,
            forall|j: nat|
                1 <= j < i ==> may_answer(
                    taken,
                    #[trigger] join(dir@, numbered_name(name@, j, style), style),
                    true,
                ),
        decreases u32::MAX - i,
    {
        let candidate: String = joined(dir, numbered(name, i, style).as_str(), style);
        assert(candidate@ == join(dir@, numbered_name(name@, i as nat, style), style));
        if !taken(candidate.as_str()) {
            assert(may_answer(taken, candidate@, false));
            return candidate;
        }
        assert(may_answer(taken, candidate@, true));
        if i == u32::MAX {
            assert(join(dir@, numbered_name(name@, (i + 1) as nat, style), style).len() >= 0);
            return p;
        }
        i = i + 1;
    }
}

// ---- laws ----

proof fn lemma_plain(name: Seq<char>, style: Style)
    requires
        is_plain(name, style),
    ensures
        unified(name, style) == name,
        !is_verbatim(name, style),
        prefix_len(name, style) == 0,
        !is_rooted(name, style),
{
    reveal_strlit("\\\\?\\");
    reveal_strlit("\\\\.\\");
    reveal_strlit("\\\\");
    assert(!is_separator(name[0], style));
    assert(style is Windows && text::starts_with(name, "\\\\?\\"@) ==> name.take(4)[0] == name[0]);
    assert(text::starts_with(name, "\\\\.\\"@) ==> name.take(4)[0] == name[0]);
    assert(text::starts_with(name, "\\\\"@) ==> name.take(2)[0] == name[0]);
    assert(unified(name, style) =~= name);
}

/// A plain name is its own last part: it is used as it is.
pub proof fn plain_names_stay(name: Seq<char>, style: Style)
    requires
        is_plain(name, style),
    ensures
        file_name(name, style) == Some(name),
        plain_name(name, style) == Some(name),
{
    reveal_strlit("");
    lemma_plain(name, style);
    assert(name.skip(0) =~= name);
    assert forall|i: int| 0 <= i < name.len() implies name[i] != separator(style) by {
        assert(!is_separator(name[i], style));
    }
    text::lemma_split_whole(name, separator(style));
    assert(parts(name, style) =~= seq![name]);
}

proof fn lemma_significant(parts: Seq<Seq<char>>, verbatim: bool)
    ensures
        ({
            let s = significant(parts, verbatim);
            &&& s.len() <= parts.len()
            &&& s.len() > 0 ==> s.last() == parts[s.len() - 1] && s.last() != ""@
        }),
    decreases parts.len(),
{
    if parts.len() > 0 && (parts.last() == ""@ || (parts.last() == "."@ && !verbatim)) {
        lemma_significant(parts.drop_last(), verbatim);
    }
}

/// On Unix the last part of a path names something in whatever directory it is put.
pub proof fn last_parts_are_plain(path: Seq<char>)
    ensures
        plain_name(path, Style::Unix) == file_name(path, Style::Unix),
{
    reveal_strlit("");
    let all = parts(path, Style::Unix);
    lemma_significant(all, false);
    text::lemma_split_lacks(unified(path, Style::Unix).skip(0), '/');
    let s = significant(all, false);
    if s.len() > 0 {
        assert(text::lacks(all[s.len() - 1], '/'));
        assert(s.last().len() == 0 ==> s.last() =~= ""@);
    }
}

proof fn lemma_decimal_is_plain(n: nat, style: Style)
    ensures
        forall|i: int|
            0 <= i < numbers::decimal(n).len() ==> !is_separator(
                #[trigger] numbers::decimal(n)[i],
                style,
            ),
    decreases n,
{
    if n >= 10 {
        lemma_decimal_is_plain(n / 10, style);
    }
    let d = numbers::decimal(n);
    assert forall|i: int| 0 <= i < d.len() implies !is_separator(#[trigger] d[i], style) by {
        if n >= 10 && i < d.len() - 1 {
            assert(d[i] == numbers::decimal(n / 10)[i]);
        } else {
            assert(d[i] == numbers::digit(n % 10));
        }
    }
}

/// The name that stands in for a plain name is plain.
pub proof fn numbered_names_are_plain(name: Seq<char>, i: nat, style: Style)
    requires
        is_plain(name, style),
    ensures
        is_plain(numbered_name(name, i, style), style),
{
    plain_names_stay(name, style);
    lemma_decimal_is_plain(i, style);
    lemma_last_position(name, '.');
    reveal_strlit(" (");
    reveal_strlit(")");
    reveal_strlit(".");
    reveal_strlit("..");
    let s = stem(name, style);
    let e = dotted_extension(name, style);
    let d = numbers::decimal(i);
    let r = numbered_name(name, i, style);
    assert(s.len() > 0 && s =~= name.take(s.len() as int));
    assert forall|j: int| 0 <= j < e.len() implies !is_separator(#[trigger] e[j], style) by {
        if j > 0 {
            assert(e[j] == name[name.len() - e.len() + j]);
        }
    }
    assert forall|j: int| 0 <= j < r.len() implies !is_separator(#[trigger] r[j], style) by {
        let a = s.len() as int;
        let b = a + 2 + d.len();
        if j < a {
            assert(r[j] == name[j]);
        } else if j < a + 2 {
            assert(r[j] == " ("@[j - a]);
        } else if j < b {
            assert(r[j] == d[j - a - 2]);
        } else if j == b {
            assert(r[j] == ')');
        } else {
            assert(r[j] == e[j - b - 1]);
        }
    }
    assert(r[s.len() as int] == ' ');
    assert(r[s.len() as int + 1] == '(');
    assert(r[0] == name[0]);
    if s.len() > 1 {
        assert(r[1] == name[1]);
    }
}

/// Whether a path is a plain name in the directory `dir`.
pub open spec fn lies_in(path: Seq<char>, dir: Seq<char>, style: Style) -> bool {
    exists|n: Seq<char>| is_plain(n, style) && path == #[trigger] join(dir, n, style)
}

/// What lies in a directory begins with it, and no separator follows but the one between them.
pub proof fn nothing_leaves_the_directory(path: Seq<char>, dir: Seq<char>, style: Style)
    requires
        lies_in(path, dir, style),
    ensures
        text::starts_with(path, dir),
        path.len() > dir.len(),
        path[dir.len() as int] == separator(style) || !is_separator(path[dir.len() as int], style),
        forall|i: int| dir.len() < i < path.len() ==> !is_separator(#[trigger] path[i], style),
{
    let n = choose|n: Seq<char>| is_plain(n, style) && path == #[trigger] join(dir, n, style);
    lemma_plain(n, style);
    assert(path.take(dir.len() as int) =~= dir);
    let from: int = if needs_separator(dir, style) {
        dir.len() as int + 1
    } else {
        dir.len() as int
    };
    assert forall|i: int| from <= i < path.len() implies !is_separator(#[trigger] path[i], style) by {
        assert(path[i] == n[i - from]);
    }
}

/// The free path for a plain name lies in the directory.
pub proof fn unique_paths_lie_in_the_directory<F: Fn(&str) -> bool>(
    r: Seq<char>,
    dir: Seq<char>,
    name: Seq<char>,
    style: Style,
    taken: F,
)
    requires
        is_plain(name, style),
        is_unique_path(r, dir, name, style, taken),
    ensures
        lies_in(r, dir, style),
{
    if r != join(dir, name, style) {
        let i = choose|i: nat|
            {
                &&& 1 <= i <= u32::MAX + 1
                &&& forall|j: nat|
                    1 <= j < i ==> may_answer(
                        taken,
                        #[trigger] join(dir, numbered_name(name, j, style), style),
                        true,
                    )
                &&& if i <= u32::MAX {
                    r == #[trigger] join(dir, numbered_name(name, i, style), style) && may_answer(
                        taken,
                        r,
                        false,
                    )
                } else {
                    r == join(dir, name, style)
                }
            };
        numbered_names_are_plain(name, i, style);
    }
}

// ---- what the definitions come to ----

/// A path is the same as itself.
pub proof fn paths_lead_to_themselves(path: Seq<char>, style: Style)
    ensures
        are_same(path, path, style),
{
}

/// The last part of a path holds no separator of Unix there.
pub proof fn last_parts_hold_no_separator(path: Seq<char>)
    ensures
        !name_or_empty(path, Style::Unix).contains('/'),
{
    reveal_strlit("");
    let all = parts(path, Style::Unix);
    lemma_significant(all, false);
    text::lemma_split_lacks(unified(path, Style::Unix).skip(0), '/');
    let s = significant(all, false);
    if s.len() > 0 {
        assert(text::lacks(all[s.len() - 1], '/'));
    }
}

/// On Unix a name behind a separator is the last part of the path, whatever stands before it.
pub proof fn names_end_unix_paths(dir: Seq<char>, name: Seq<char>)
    requires
        is_plain(name, Style::Unix),
    ensures
        file_name(dir.push('/') + name, Style::Unix) == Some(name),
        name_or_empty(dir.push('/') + name, Style::Unix) == name,
{
    reveal_strlit("");
    let path = dir.push('/') + name;
    assert(path.skip(0) =~= path);
    assert forall|i: int| 0 <= i < name.len() implies #[trigger] name[i] != '/' by {
        assert(!is_separator(name[i], Style::Unix));
    }
    text::last_pieces(dir, name, '/');
    assert(parts(path, Style::Unix).last() == name);
}

/// On Windows a name behind a separator of either kind is the last part of a path that begins with
/// a drive.
pub proof fn names_end_windows_paths(dir: Seq<char>, c: char, name: Seq<char>)
    requires
        is_drive(dir),
        c == '\\' || c == '/',
        is_plain(name, Style::Windows),
    ensures
        file_name(dir.push(c) + name, Style::Windows) == Some(name),
        name_or_empty(dir.push(c) + name, Style::Windows) == name,
{
    reveal_strlit("");
    reveal_strlit("\\\\?\\");
    let path = dir.push(c) + name;
    let w = Style::Windows;
    assert(path[1] == dir[1]);
    assert(path[0] == dir[0]);
    assert(!is_verbatim(path, w)) by {
        if text::starts_with(path, "\\\\?\\"@) {
            assert(path.take(4)[1] == path[1]);
        }
    }
    let t = unified(path, w);
    assert(t[0] == path[0] && t[1] == ':');
    assert(prefix_len(path, w) == 2);
    let d = text::replace_char(dir, '/', '\\').skip(2);
    assert forall|i: int| 0 <= i < name.len() implies #[trigger] name[i] != '\\' && name[i] != '/' by {
        assert(!is_separator(name[i], w));
    }
    assert(t.skip(2) =~= d.push('\\') + name);
    text::last_pieces(d, name, '\\');
    assert(parts(path, w).last() == name);
}

/// Two plain names are the same path where they are the same text.
pub proof fn plain_names_differ(a: Seq<char>, b: Seq<char>, style: Style)
    requires
        is_plain(a, style),
        is_plain(b, style),
    ensures
        are_same(a, b, style) <==> a == b,
{
    lemma_plain_components(a, style);
    lemma_plain_components(b, style);
    if a != b {
        assert(seq![a][0] != seq![b][0]);
    }
}

proof fn lemma_plain_components(name: Seq<char>, style: Style)
    requires
        is_plain(name, style),
    ensures
        components(name, parts(name, style).len(), style) == seq![name],
{
    reveal_strlit("");
    lemma_plain(name, style);
    assert(name.skip(0) =~= name);
    assert forall|i: int| 0 <= i < name.len() implies name[i] != separator(style) by {
        assert(!is_separator(name[i], style));
    }
    text::lemma_split_whole(name, separator(style));
    assert(parts(name, style) =~= seq![name]);
    assert(counts(name, 0, style));
    assert(components(name, 0, style) =~= seq![]);
    assert(components(name, 1, style) =~= seq![name]);
}

/// On Unix a name goes behind a directory with one separator between them; a name that begins at
/// the root stands for itself.
pub proof fn unix_names_join(dir: Seq<char>, name: Seq<char>)
    ensures
        name.len() > 0 && name[0] == '/' ==> join(dir, name, Style::Unix) == name,
        name.len() > 0 && name[0] != '/' && dir.len() > 0 && dir.last() != '/' ==> join(
            dir,
            name,
            Style::Unix,
        ) == dir + seq!['/'] + name,
        name.len() > 0 && name[0] != '/' && dir.len() > 0 && dir.last() == '/' ==> join(
            dir,
            name,
            Style::Unix,
        ) == dir + name,
        name.len() > 0 && name[0] != '/' && dir.len() == 0 ==> join(dir, name, Style::Unix) == name,
{
    assert(dir.push('/') + name =~= dir + seq!['/'] + name);
    if dir.len() == 0 {
        assert(dir + name =~= name);
    }
}

/// On Windows a plain name goes behind a directory with a backslash between them, unless the
/// directory ends with a separator or is a drive alone.
pub proof fn windows_names_join(dir: Seq<char>, name: Seq<char>)
    requires
        is_plain(name, Style::Windows),
        dir.len() > 0,
    ensures
        dir.last() != '\\' && dir.last() != '/' && !(dir.len() == 2 && is_drive(dir)) ==> join(
            dir,
            name,
            Style::Windows,
        ) == dir + seq!['\\'] + name,
        dir.last() == '\\' || (dir.len() == 2 && is_drive(dir)) ==> join(
            dir,
            name,
            Style::Windows,
        ) == dir + name,
{
    lemma_plain(name, Style::Windows);
    assert(dir.push('\\') + name =~= dir + seq!['\\'] + name);
}

proof fn lemma_last_position_is(a: Seq<char>, c: char, b: Seq<char>)
    requires
        text::lacks(b, c),
    ensures
        last_position(a.push(c) + b, c) == Some(a.len()),
    decreases b.len(),
{
    let s = a.push(c) + b;
    if b.len() == 0 {
        assert(s =~= a.push(c));
    } else {
        assert(s.last() == b[b.len() - 1]);
        assert(s.drop_last() =~= a.push(c) + b.drop_last());
        assert forall|i: int| 0 <= i < b.drop_last().len() implies #[trigger] b.drop_last()[i] != c by {
            assert(b.drop_last()[i] == b[i]);
        }
        lemma_last_position_is(a, c, b.drop_last());
    }
}

proof fn lemma_no_last_position(s: Seq<char>, c: char)
    requires
        text::lacks(s, c),
    ensures
        last_position(s, c) is None,
    decreases s.len(),
{
    if s.len() > 0 {
        assert(s.last() == s[s.len() - 1]);
        assert forall|i: int| 0 <= i < s.drop_last().len() implies #[trigger] s.drop_last()[i] != c by {
            assert(s.drop_last()[i] == s[i]);
        }
        lemma_no_last_position(s.drop_last(), c);
    }
}

/// Of a name the extension is what stands behind its last dot, and a number goes before that dot.
pub proof fn numbers_go_before_the_extension(
    first: Seq<char>,
    ext: Seq<char>,
    i: nat,
    style: Style,
)
    requires
        first.len() > 0,
        text::lacks(ext, '.'),
        is_plain(first.push('.') + ext, style),
    ensures
        extension(first.push('.') + ext, style) == Some(ext),
        stem(first.push('.') + ext, style) == first,
        numbered_name(first.push('.') + ext, i, style) == first + seq![' ', '('] + numbers::decimal(
            i,
        ) + seq![')', '.'] + ext,
{
    let name = first.push('.') + ext;
    plain_names_stay(name, style);
    lemma_last_position_is(first, '.', ext);
    assert(name.skip(first.len() as int + 1) =~= ext);
    assert(name.take(first.len() as int) =~= first);
    reveal_strlit(" (");
    reveal_strlit(")");
    assert(numbered_name(name, i, style) =~= first + seq![' ', '('] + numbers::decimal(i) + seq![
        ')',
        '.',
    ] + ext);
}

/// A name without a dot has no extension, and a number goes behind it.
pub proof fn numbers_go_behind_names(name: Seq<char>, i: nat, style: Style)
    requires
        text::lacks(name, '.'),
        is_plain(name, style),
    ensures
        extension(name, style) is None,
        stem(name, style) == name,
        numbered_name(name, i, style) == name + seq![' ', '('] + numbers::decimal(i) + seq![')'],
{
    plain_names_stay(name, style);
    lemma_no_last_position(name, '.');
    reveal_strlit(" (");
    reveal_strlit(")");
    assert(numbered_name(name, i, style) =~= name + seq![' ', '('] + numbers::decimal(i) + seq![
        ')',
    ]);
}

/// A name that is surely free is used as it is. One that is surely taken gives way to its first
/// number where that is surely free.
pub proof fn free_names_are_used<F: Fn(&str) -> bool>(
    dir: &str,
    name: &str,
    style: Style,
    taken: F,
    r: String,
)
    requires
        call_ensures(unique_path::<F>, (dir, name, style, taken), r),
    ensures
        !may_answer(taken, join(dir@, name@, style), true) ==> r@ == join(dir@, name@, style),
        !may_answer(taken, join(dir@, name@, style), false) && !may_answer(
            taken,
            join(dir@, numbered_name(name@, 1, style), style),
            true,
        ) ==> r@ == join(dir@, numbered_name(name@, 1, style), style),
        may_answer(taken, r@, false) || r@ == join(dir@, name@, style),
{
}

/// On Windows a name behind a server and its share is the last part of the path; the share alone has
/// none.
pub proof fn names_stand_on_shares(server: Seq<char>, share: Seq<char>, name: Seq<char>)
    requires
        is_plain(name, Style::Windows),
        server.len() > 0,
        share.len() > 0,
        forall|i: int| 0 <= i < server.len() ==> !is_separator(#[trigger] server[i], Style::Windows),
        forall|i: int| 0 <= i < share.len() ==> !is_separator(#[trigger] share[i], Style::Windows),
        server != seq!['?'],
        server != seq!['.'],
    ensures
        file_name(
            seq!['\\', '\\'] + server + seq!['\\'] + share + seq!['\\'] + name,
            Style::Windows,
        ) == Some(name),
        file_name(seq!['\\', '\\'] + server + seq!['\\'] + share, Style::Windows) is None,
{
    reveal_strlit("");
    let w = Style::Windows;
    let s = server.push('\\') + share;
    let base = seq!['\\', '\\'] + server + seq!['\\'] + share;
    let path = base + seq!['\\'] + name;
    let tail = seq!['\\'] + name;
    lemma_share(server, share, tail);
    lemma_share(server, share, seq![]);
    assert(path =~= seq!['\\', '\\'] + s + tail);
    assert(base =~= seq!['\\', '\\'] + s + Seq::<char>::empty());
    assert forall|i: int| 0 <= i < name.len() implies #[trigger] name[i] != '\\' && name[i] != '/' by {
        assert(!is_separator(name[i], w));
    }
    assert forall|i: int| 0 <= i < server.len() implies #[trigger] server[i] != '/' by {
        assert(!is_separator(server[i], w));
    }
    assert forall|i: int| 0 <= i < share.len() implies #[trigger] share[i] != '/' by {
        assert(!is_separator(share[i], w));
    }
    assert(unified(path, w) =~= path);
    assert(unified(base, w) =~= base);
    let n = 2 + s.len() as int;
    assert(path.skip(n) =~= Seq::<char>::empty().push('\\') + name);
    text::last_pieces(Seq::empty(), name, '\\');
    assert(parts(path, w).last() == name);
    assert(base.skip(n) =~= Seq::<char>::empty());
    text::lemma_split_whole(Seq::<char>::empty(), '\\');
    assert(parts(base, w) =~= seq![Seq::<char>::empty()]);
    assert(Seq::<char>::empty() =~= ""@);
    assert(parts(base, w).drop_last() =~= Seq::<Seq<char>>::empty());
    assert(significant(Seq::<Seq<char>>::empty(), false).len() == 0);
}

/// What stands before the parts of a path on a share is the server and the share.
proof fn lemma_share(server: Seq<char>, share: Seq<char>, tail: Seq<char>)
    requires
        server.len() > 0,
        share.len() > 0,
        forall|i: int| 0 <= i < server.len() ==> !is_separator(#[trigger] server[i], Style::Windows),
        forall|i: int| 0 <= i < share.len() ==> !is_separator(#[trigger] share[i], Style::Windows),
        server != seq!['?'],
        server != seq!['.'],
        tail.len() > 0 ==> tail[0] == '\\',
        forall|i: int| 0 <= i < tail.len() ==> #[trigger] tail[i] != '/',
    ensures
        ({
            let path = seq!['\\', '\\'] + (server.push('\\') + share) + tail;
            &&& !is_verbatim(path, Style::Windows)
            &&& prefix_len(path, Style::Windows) == 3 + server.len() + share.len()
        }),
{
    let w = Style::Windows;
    reveal_strlit("\\\\?\\");
    reveal_strlit("\\\\.\\");
    reveal_strlit("\\\\");
    let path = seq!['\\', '\\'] + (server.push('\\') + share) + tail;
    let t = path.skip(2);
    assert(t =~= server.push('\\') + (share + tail));
    assert(path[2] == server[0]);
    assert(server.len() == 1 ==> server =~= seq![server[0]]);
    assert(server.len() > 1 ==> path[3] == server[1] && !is_separator(server[1], w));
    assert(path.len() >= 4 && path.take(4)[2] == path[2] && path.take(4)[3] == path[3]);
    assert(!text::starts_with(path, "\\\\?\\"@));
    assert(!text::starts_with(path, "\\\\.\\"@));
    assert(path.take(2) =~= "\\\\"@);
    assert forall|i: int| 0 <= i < path.len() implies #[trigger] path[i] != '/' by {
        if i >= 2 && i < 2 + server.len() {
            assert(!is_separator(server[i - 2], w));
        } else if i > 2 + server.len() && i < 3 + server.len() + share.len() {
            assert(!is_separator(share[i - 3 - server.len()], w));
        } else if i >= 3 + server.len() + share.len() {
            assert(path[i] == tail[i - 3 - server.len() - share.len()]);
        }
    }
    assert(unified(path, w) =~= path);
    assert forall|i: int| 0 <= i < server.len() implies t[i] != '\\' by {
        assert(!is_separator(server[i], w));
    }
    text::lemma_position_is(t, '\\', server.len() as int);
    let rest = t.skip(server.len() as int + 1);
    assert(rest =~= share + tail);
    assert forall|i: int| 0 <= i < share.len() implies rest[i] != '\\' by {
        assert(!is_separator(share[i], w));
    }
    text::lemma_position_is(rest, '\\', share.len() as int);
    assert(!is_drive(path));
}

proof fn lemma_components(path: Seq<char>, n: nat, q: Seq<char>, style: Style)
    requires
        n <= parts(path, style).len(),
        n <= parts(q, style).len(),
        prefix_len(path, style) == prefix_len(q, style),
        is_verbatim(path, style) == is_verbatim(q, style),
        forall|i: int| 0 <= i < n ==> parts(path, style)[i] == #[trigger] parts(q, style)[i],
    ensures
        components(path, n, style) == components(q, n, style),
    decreases n,
{
    if n > 0 {
        lemma_components(path, (n - 1) as nat, q, style);
        assert(parts(path, style)[n - 1] == parts(q, style)[n - 1]);
    }
}

/// On Unix two names in one directory are the same path where they are the same text, and a path at
/// the root is not the same as one that does not begin there. A separator at the end changes nothing.
pub proof fn unix_paths_differ(dir: Seq<char>, a: Seq<char>, b: Seq<char>)
    requires
        is_plain(a, Style::Unix),
        is_plain(b, Style::Unix),
    ensures
        are_same(dir.push('/') + a, dir.push('/') + b, Style::Unix) <==> a == b,
        !are_same(seq!['/'] + a, b, Style::Unix),
        are_same(dir.push('/') + a, (dir.push('/') + a).push('/'), Style::Unix),
{
    reveal_strlit("");
    let u = Style::Unix;
    let x = dir.push('/') + a;
    let y = dir.push('/') + b;
    assert(x.skip(0) =~= x && y.skip(0) =~= y);
    assert forall|i: int| 0 <= i < a.len() implies #[trigger] a[i] != '/' by {
        assert(!is_separator(a[i], u));
    }
    assert forall|i: int| 0 <= i < b.len() implies #[trigger] b[i] != '/' by {
        assert(!is_separator(b[i], u));
    }
    text::last_pieces(dir, a, '/');
    text::last_pieces(dir, b, '/');
    let d = text::split(dir, '/');
    let n = d.len();
    assert(parts(x, u) == d.push(a) && parts(y, u) == d.push(b));
    lemma_components(x, n, y, u);
    assert(counts(x, n as int, u));
    assert(counts(y, n as int, u));
    let c = components(x, n, u);
    assert(components(x, n + 1, u) == c.push(a));
    assert(components(y, n + 1, u) == c.push(b));
    assert(c.push(a).last() == a && c.push(b).last() == b);
    assert(prefix(x, u) =~= prefix(y, u));
    assert(x[0] == y[0]) by {
        if dir.len() > 0 {
            assert(x[0] == dir[0] && y[0] == dir[0]);
        }
    }
    assert((seq!['/'] + a)[0] == '/');
    assert(is_rooted(seq!['/'] + a, u));
    assert(!is_rooted(b, u)) by {
        lemma_plain(b, u);
    }
    let z = x.push('/');
    assert(z.skip(0) =~= z);
    assert(z =~= x.push('/') + Seq::<char>::empty());
    text::last_pieces(x, Seq::empty(), '/');
    assert(parts(z, u) =~= d.push(a).push(Seq::empty()));
    lemma_components(z, n + 1, x, u);
    assert(Seq::<char>::empty() =~= ""@);
    assert(!counts(z, n as int + 1, u));
    assert(components(z, n + 2, u) == components(z, n + 1, u));
    assert(prefix(z, u) =~= prefix(x, u));
    assert(z[0] == x[0]);
}

/// A dot at the start of a name begins no extension, and a number goes behind such a name.
pub proof fn hidden_names_have_no_extension(rest: Seq<char>, i: nat, style: Style)
    requires
        text::lacks(rest, '.'),
        is_plain(seq!['.'] + rest, style),
    ensures
        extension(seq!['.'] + rest, style) is None,
        stem(seq!['.'] + rest, style) == seq!['.'] + rest,
        numbered_name(seq!['.'] + rest, i, style) == seq!['.'] + rest + seq![' ', '(']
            + numbers::decimal(i) + seq![')'],
{
    let name = seq!['.'] + rest;
    plain_names_stay(name, style);
    assert(name =~= Seq::<char>::empty().push('.') + rest);
    lemma_last_position_is(Seq::empty(), '.', rest);
    reveal_strlit(" (");
    reveal_strlit(")");
    assert(numbered_name(name, i, style) =~= name + seq![' ', '('] + numbers::decimal(i) + seq![
        ')',
    ]);
}

/// On Unix the empty path and the directory above have no last part that names something.
pub proof fn names_without_a_last_part(path: Seq<char>)
    requires
        path == ".."@ || path.len() == 0,
    ensures
        file_name(path, Style::Unix) is None,
        plain_name(path, Style::Unix) is None,
{
    reveal_strlit("..");
    reveal_strlit("");
    reveal_strlit(".");
    assert(path.skip(0) =~= path);
    assert(text::lacks(path, '/'));
    text::lemma_split_whole(path, '/');
    assert(parts(path, Style::Unix) =~= seq![path]);
    if path.len() == 0 {
        assert(path =~= ""@);
        assert(seq![path].drop_last() =~= Seq::<Seq<char>>::empty());
        assert(significant(Seq::<Seq<char>>::empty(), false).len() == 0);
    } else {
        assert(path.len() == 2);
    }
}

} // verus!
