//! The user's preferences, and the file that keeps them.
use std::collections::HashMap;

use vstd::prelude::*;

use crate::history::text_in;
use crate::numbers;
use crate::paths;
use crate::paths::Style;
use crate::text;
use crate::textmap::{texts_under, TextMap};

verus! {

/// The preferences that are kept from one run to the next.
pub struct SavedPrefs {
    pub peer_name: String,
    pub peer_addr: String,
    /// The folder that is synchronised with each device, by the device's address.
    pub sync_map: TextMap<String>,
    pub save_dir: Option<String>,
    pub notify_on_receive: bool,
    pub auto_open_folder: bool,
    /// The devices that were entered by hand: their names and addresses.
    pub manual_peers: Vec<(String, String)>,
    pub auto_detect_theme: bool,
    /// The theme that was chosen by hand.
    pub dark_mode: Option<bool>,
}

/// What preferences say.
pub struct Prefs {
    pub peer_name: Seq<char>,
    pub peer_addr: Seq<char>,
    pub sync_map: Map<Seq<char>, Seq<char>>,
    pub save_dir: Option<Seq<char>>,
    pub notify_on_receive: bool,
    pub auto_open_folder: bool,
    pub manual_peers: Seq<(Seq<char>, Seq<char>)>,
    pub auto_detect_theme: bool,
    pub dark_mode: Option<bool>,
}

/// The texts of a list of pairs.
pub open spec fn pair_texts(v: Seq<(String, String)>) -> Seq<(Seq<char>, Seq<char>)> {
    Seq::new(v.len(), |i: int| (v[i].0@, v[i].1@))
}

impl View for SavedPrefs {
    type V = Prefs;

    open spec fn view(&self) -> Prefs {
        Prefs {
            peer_name: self.peer_name@,
            peer_addr: self.peer_addr@,
            sync_map: texts_under(self.sync_map@),
            save_dir: text_in(self.save_dir),
            notify_on_receive: self.notify_on_receive,
            auto_open_folder: self.auto_open_folder,
            manual_peers: pair_texts(self.manual_peers@),
            auto_detect_theme: self.auto_detect_theme,
            dark_mode: self.dark_mode,
        }
    }
}

/// The preferences of someone who has set none.
pub open spec fn no_prefs() -> Prefs {
    Prefs {
        peer_name: ""@,
        peer_addr: ""@,
        sync_map: Map::empty(),
        save_dir: None,
        notify_on_receive: false,
        auto_open_folder: false,
        manual_peers: seq![],
        auto_detect_theme: false,
        dark_mode: None,
    }
}

impl Default for SavedPrefs {
    fn default() -> (r: SavedPrefs)
        ensures
            r.sync_map.wf(),
            r@ == no_prefs(),
            r.manual_peers@.len() == 0,
    {
        let r: SavedPrefs = SavedPrefs {
            peer_name: "".to_string(),
            peer_addr: "".to_string(),
            sync_map: TextMap::new(),
            save_dir: None,
            notify_on_receive: false,
            auto_open_folder: false,
            manual_peers: Vec::new(),
            auto_detect_theme: false,
            dark_mode: None,
        };
        assert(r@.sync_map =~= no_prefs().sync_map);
        assert(r@.manual_peers =~= no_prefs().manual_peers);
        r
    }
}

/// Where the preferences are kept, by the directory of the user's settings.
pub fn prefs_path(config_dir: Option<&str>, style: Style) -> (r: Option<String>)
    ensures
        match (config_dir, r) {
            (Some(d), Some(p)) => p@ == paths::join(
                paths::join(d@, "rfshare"@, style),
                "prefs.json"@,
                style,
            ),
            (None, None) => true,
            _ => false,
        },
{
    match config_dir {
        Some(d) => {
            let own: String = paths::joined(d, "rfshare", style);
            Some(paths::joined(own.as_str(), "prefs.json", style))
        },
        None => None,
    }
}

// ---- writing ----

pub open spec fn flag(b: bool) -> Seq<char> {
    if b {
        "1"@
    } else {
        "0"@
    }
}

/// An address as part of a key of the file.
pub open spec fn safe_addr(addr: Seq<char>) -> Seq<char> {
    text::replace_char(addr, '.', '_')
}

pub open spec fn sync_line(e: (String, String)) -> Seq<char> {
    "sync_device_"@ + safe_addr(e.0@) + "="@ + e.1@
}

pub open spec fn sync_lines(e: Seq<(String, String)>) -> Seq<Seq<char>> {
    Seq::new(e.len(), |i: int| sync_line(e[i]))
}

pub open spec fn peer_key(i: nat, what: Seq<char>) -> Seq<char> {
    "manual_peer_"@ + numbers::decimal(i) + "_"@ + what
}

pub open spec fn peer_lines(p: Seq<(String, String)>) -> Seq<Seq<char>>
    decreases p.len(),
{
    if p.len() == 0 {
        seq![]
    } else {
        let i = (p.len() - 1) as nat;
        peer_lines(p.drop_last()).push(peer_key(i, "name="@) + p.last().0@).push(
            peer_key(i, "addr="@) + p.last().1@,
        )
    }
}

/// The lines of the file, in its order.
pub open spec fn pref_lines(p: SavedPrefs) -> Seq<Seq<char>> {
    seq!["selected_peer_name="@ + p.peer_name@, "selected_peer_addr="@ + p.peer_addr@]
        + sync_lines(p.sync_map.entries@) + peer_lines(p.manual_peers@) + (match p.save_dir {
        Some(d) => seq!["save_dir="@ + d@],
        None => seq![],
    }) + seq![
        "notify_on_receive="@ + flag(p.notify_on_receive),
        "auto_open_folder="@ + flag(p.auto_open_folder),
        "auto_detect_theme="@ + flag(p.auto_detect_theme),
    ] + (match p.dark_mode {
        Some(dark) => seq!["dark_mode="@ + flag(dark)],
        None => seq![],
    })
}

fn push_line(out: &mut String, key: &str, value: &str, Ghost(l): Ghost<Seq<Seq<char>>>)
    requires
        old(out)@ == text::unlines(l),
    ensures
        final(out)@ == text::unlines(l.push(key@ + value@)),
{
    out.append(key);
    out.append(value);
    out.push('\n');
    proof {
        text::lemma_unlines_push(l, key@ + value@);
        assert(out@ =~= text::unlines(l) + (key@ + value@).push('\n'));
    }
}

fn flag_text(b: bool) -> (r: &'static str)
    ensures
        r@ == flag(b),
{
    if b {
        "1"
    } else {
        "0"
    }
}

fn peer_key_text(i: usize, what: &str) -> (r: String)
    ensures
        r@ == peer_key(i as nat, what@),
{
    let mut s: String = "manual_peer_".to_string();
    numbers::push_decimal(&mut s, i as u64);
    s.append("_");
    s.append(what);
    s
}

/// The file that keeps the preferences.
pub fn save_prefs(prefs: &SavedPrefs) -> (r: String)
    ensures
        r@ == text::unlines(pref_lines(*prefs)),
{
    let mut out: String = String::new();
    let ghost mut l: Seq<Seq<char>> = seq![];
    assert(out@ =~= text::unlines(l));
    push_line(&mut out, "selected_peer_name=", prefs.peer_name.as_str(), Ghost(l));
    proof {
        l = l.push("selected_peer_name="@ + prefs.peer_name@);
    }
    push_line(&mut out, "selected_peer_addr=", prefs.peer_addr.as_str(), Ghost(l));
    proof {
        l = l.push("selected_peer_addr="@ + prefs.peer_addr@);
    }
    let ghost head = l;
    assert(head =~= seq![
        "selected_peer_name="@ + prefs.peer_name@,
        "selected_peer_addr="@ + prefs.peer_addr@,
    ]);
    let ghost e = prefs.sync_map.entries@;
    let mut i: usize = 0;
    assert(l =~= head + sync_lines(e.take(0)));
    while i < prefs.sync_map.entries.len()
        invariant
            i <= e.len(),
            e == prefs.sync_map.entries@,
            out@ == text::unlines(l),
            l == head + sync_lines(e.take(i as int)),
        decreases e.len() - i,
    {
        let pair: &(String, String) = &prefs.sync_map.entries[i];
        let safe: String = text::replaced(pair.0.as_str(), '.', '_');
        let mut key: String = "sync_device_".to_string();
        key.append(safe.as_str());
        key.append("=");
        push_line(&mut out, key.as_str(), pair.1.as_str(), Ghost(l));
        i = i + 1;
        proof {
            l = l.push(key@ + pair.1@);
            assert(l.last() == sync_line(e[i - 1]));
            assert(l =~= head + sync_lines(e.take(i as int)));
        }
    }
    assert(e.take(i as int) =~= e);
    let ghost head = l;
    let ghost m = prefs.manual_peers@;
    let mut i: usize = 0;
    assert(l =~= head + peer_lines(m.take(0)));
    while i < prefs.manual_peers.len()
        invariant
            i <= m.len(),
            m == prefs.manual_peers@,
            out@ == text::unlines(l),
            l == head + peer_lines(m.take(i as int)),
        decreases m.len() - i,
    {
        let pair: &(String, String) = &prefs.manual_peers[i];
        let key: String = peer_key_text(i, "name=");
        push_line(&mut out, key.as_str(), pair.0.as_str(), Ghost(l));
        let ghost l2 = l.push(key@ + pair.0@);
        let key2: String = peer_key_text(i, "addr=");
        push_line(&mut out, key2.as_str(), pair.1.as_str(), Ghost(l2));
        i = i + 1;
        proof {
            l = l2.push(key2@ + pair.1@);
            assert(m.take(i as int).drop_last() =~= m.take(i - 1));
            assert(m.take(i as int).last() == m[i - 1]);
            assert(l =~= head + peer_lines(m.take(i as int)));
        }
    }
    assert(m.take(i as int) =~= m);
    match &prefs.save_dir {
        Some(d) => {
            push_line(&mut out, "save_dir=", d.as_str(), Ghost(l));
            proof {
                l = l.push("save_dir="@ + d@);
            }
        },
        None => {},
    }
    push_line(&mut out, "notify_on_receive=", flag_text(prefs.notify_on_receive), Ghost(l));
    proof {
        l = l.push("notify_on_receive="@ + flag(prefs.notify_on_receive));
    }
    push_line(&mut out, "auto_open_folder=", flag_text(prefs.auto_open_folder), Ghost(l));
    proof {
        l = l.push("auto_open_folder="@ + flag(prefs.auto_open_folder));
    }
    push_line(&mut out, "auto_detect_theme=", flag_text(prefs.auto_detect_theme), Ghost(l));
    proof {
        l = l.push("auto_detect_theme="@ + flag(prefs.auto_detect_theme));
    }
    match prefs.dark_mode {
        Some(dark) => {
            push_line(&mut out, "dark_mode=", flag_text(dark), Ghost(l));
            proof {
                l = l.push("dark_mode="@ + flag(dark));
            }
        },
        None => {},
    }
    assert(l =~= pref_lines(*prefs));
    out
}

// ---- reading ----

/// What the lines that were read say; of devices entered by hand, by their numbers.
pub struct Parsed {
    pub prefs: Prefs,
    pub names: Map<usize, Seq<char>>,
    pub addrs: Map<usize, Seq<char>>,
}

/// The value behind `key`, or `or` where the line has another key.
pub open spec fn text_or(line: Seq<char>, key: Seq<char>, or: Seq<char>) -> Seq<char> {
    match text::strip_prefix(line, key) {
        Some(v) => v,
        None => or,
    }
}

/// Whether the value behind `key` is set, or `or` where the line has another key.
pub open spec fn flag_or(line: Seq<char>, key: Seq<char>, or: bool) -> bool {
    match text::strip_prefix(line, key) {
        Some(v) => v == "1"@,
        None => or,
    }
}

/// The device's address and the folder in a line, where there are any.
pub open spec fn sync_entry(line: Seq<char>) -> Option<(Seq<char>, Seq<char>)> {
    match text::strip_prefix(line, "sync_device_"@) {
        Some(rest) => {
            let eq = text::position(rest, '=') as int;
            if eq < rest.len() {
                Some((text::replace_char(rest.take(eq), '_', '.'), rest.skip(eq + 1)))
            } else {
                None
            }
        },
        None => None,
    }
}

/// The number and the value in a line about a device entered by hand, where it is about `what`.
pub open spec fn peer_entry(line: Seq<char>, what: Seq<char>) -> Option<(usize, Seq<char>)> {
    match text::strip_prefix(line, "manual_peer_"@) {
        Some(rest) => {
            let end = text::position(rest, '_') as int;
            if end < rest.len() {
                match (
                    numbers::parse_number(rest.take(end), usize::MAX as nat),
                    text::strip_prefix(rest.skip(end + 1), what),
                ) {
                    (Some(i), Some(v)) => Some((i as usize, v)),
                    _ => None,
                }
            } else {
                None
            }
        },
        None => None,
    }
}

pub open spec fn insert_entry<K>(m: Map<K, Seq<char>>, e: Option<(K, Seq<char>)>) -> Map<
    K,
    Seq<char>,
> {
    match e {
        Some((k, v)) => m.insert(k, v),
        None => m,
    }
}

/// What is said after one more line.
#[verifier::opaque]
pub open spec fn apply_line(s: Parsed, line: Seq<char>) -> Parsed {
    let p = s.prefs;
    Parsed {
        prefs: Prefs {
            peer_name: text_or(line, "selected_peer_name="@, p.peer_name),
            peer_addr: text_or(line, "selected_peer_addr="@, p.peer_addr),
            sync_map: insert_entry(p.sync_map, sync_entry(line)),
            save_dir: match text::strip_prefix(line, "save_dir="@) {
                Some(v) => Some(v),
                None => p.save_dir,
            },
            notify_on_receive: flag_or(line, "notify_on_receive="@, p.notify_on_receive),
            auto_open_folder: flag_or(line, "auto_open_folder="@, p.auto_open_folder),
            manual_peers: p.manual_peers,
            auto_detect_theme: flag_or(line, "auto_detect_theme="@, p.auto_detect_theme),
            dark_mode: match text::strip_prefix(line, "dark_mode="@) {
                Some(v) => Some(v == "1"@),
                None => p.dark_mode,
            },
        },
        names: insert_entry(s.names, peer_entry(line, "name="@)),
        addrs: insert_entry(s.addrs, peer_entry(line, "addr="@)),
    }
}

/// What lines say.
pub open spec fn parsed(lines: Seq<Seq<char>>) -> Parsed
    decreases lines.len(),
{
    if lines.len() == 0 {
        Parsed { prefs: no_prefs(), names: Map::empty(), addrs: Map::empty() }
    } else {
        apply_line(parsed(lines.drop_last()), lines.last())
    }
}

/// Whether `peers` are the devices numbered from zero on, up to the first number that lacks a name
/// or an address.
pub open spec fn is_peer_list(
    peers: Seq<(Seq<char>, Seq<char>)>,
    names: Map<usize, Seq<char>>,
    addrs: Map<usize, Seq<char>>,
) -> bool {
    &&& forall|i: usize|
        i < peers.len() ==> #[trigger] names.contains_key(i) && addrs.contains_key(i)
            && peers[i as int] == (names[i], addrs[i])
    &&& forall|i: usize|
        i == peers.len() ==> !(#[trigger] names.contains_key(i) && addrs.contains_key(i))
}

/// Whether `p` is what a file of preferences says.
pub open spec fn is_said_by(p: Prefs, file: Seq<char>) -> bool {
    let s = parsed(text::lines(file));
    &&& is_peer_list(p.manual_peers, s.names, s.addrs)
    &&& p == Prefs { manual_peers: p.manual_peers, ..s.prefs }
}

fn read_sync_entry(line: &Vec<char>) -> (r: Option<(String, String)>)
    ensures
        match r {
            Some((k, v)) => sync_entry(line@) == Some((k@, v@)),
            None => sync_entry(line@) is None,
        },
{
    match text::after_prefix(line, "sync_device_") {
        Some(rest) => {
            let n: usize = rest.len();
            match text::index_of(&rest, '=') {
                Some(eq) => {
                    let k: Vec<char> = text::part_of(&rest, 0, eq);
                    let k: String = text::string_of(&k);
                    let k: String = text::replaced(k.as_str(), '_', '.');
                    let v: Vec<char> = text::part_of(&rest, eq + 1, n);
                    assert(rest@.subrange(0, eq as int) =~= rest@.take(eq as int));
                    assert(v@ =~= rest@.skip(eq + 1));
                    Some((k, text::string_of(&v)))
                },
                None => None,
            }
        },
        None => None,
    }
}

fn read_peer_entry(line: &Vec<char>, what: &str) -> (r: Option<(usize, String)>)
    ensures
        match r {
            Some((k, v)) => peer_entry(line@, what@) == Some((k, v@)),
            None => peer_entry(line@, what@) is None,
        },
{
    match text::after_prefix(line, "manual_peer_") {
        Some(rest) => {
            let n: usize = rest.len();
            match text::index_of(&rest, '_') {
                Some(end) => {
                    let idx: Vec<char> = text::part_of(&rest, 0, end);
                    let suffix: Vec<char> = text::part_of(&rest, end + 1, n);
                    assert(idx@ =~= rest@.take(end as int));
                    assert(suffix@ =~= rest@.skip(end + 1));
                    match (
                        numbers::read_number(&idx, usize::MAX as u64),
                        text::after_prefix(&suffix, what),
                    ) {
                        (Some(i), Some(v)) => Some((i as usize, text::string_of(&v))),
                        _ => None,
                    }
                },
                None => None,
            }
        },
        None => None,
    }
}

proof fn lemma_texts_under_insert<K>(m: Map<K, String>, k: K, v: String)
    ensures
        texts_under(m.insert(k, v)) == texts_under(m).insert(k, v@),
{
    assert(texts_under(m.insert(k, v)) =~= texts_under(m).insert(k, v@));
}

fn read_text(line: &Vec<char>, key: &str, value: &mut String)
    ensures
        final(value)@ == text_or(line@, key@, old(value)@),
{
    match text::after_prefix(line, key) {
        Some(v) => {
            *value = text::string_of(&v);
        },
        None => {},
    }
}

fn read_flag(line: &Vec<char>, key: &str, value: bool) -> (r: bool)
    ensures
        r == flag_or(line@, key@, value),
{
    match text::after_prefix(line, key) {
        Some(v) => text::is_text(&v, "1"),
        None => value,
    }
}

fn read_peer(line: &Vec<char>, what: &str, m: &mut HashMap<usize, String>)
    ensures
        texts_under(final(m)@) == insert_entry(texts_under(old(m)@), peer_entry(line@, what@)),
{
    broadcast use vstd::std_specs::hash::group_hash_axioms;

    match read_peer_entry(line, what) {
        Some((i, v)) => {
            proof {
                lemma_texts_under_insert(m@, i, v);
            }
            m.insert(i, v);
        },
        None => {},
    }
}

fn read_sync(line: &Vec<char>, m: &mut TextMap<String>)
    requires
        old(m).wf(),
    ensures
        final(m).wf(),
        texts_under(final(m)@) == insert_entry(texts_under(old(m)@), sync_entry(line@)),
{
    match read_sync_entry(line) {
        Some((k, v)) => {
            proof {
                lemma_texts_under_insert(m@, k@, v);
            }
            m.insert(k, v);
        },
        None => {},
    }
}

/// Takes what one line says.
fn read_line(p: &mut SavedPrefs, line: &Vec<char>)
    requires
        old(p).sync_map.wf(),
    ensures
        final(p).sync_map.wf(),
        forall|names: Map<usize, Seq<char>>, addrs: Map<usize, Seq<char>>|
            final(p)@ == (#[trigger] apply_line(
                (Parsed { prefs: old(p)@, names, addrs }),
                line@,
            )).prefs,
{
    reveal(apply_line);
    read_text(line, "selected_peer_name=", &mut p.peer_name);
    read_text(line, "selected_peer_addr=", &mut p.peer_addr);
    read_sync(line, &mut p.sync_map);
    match text::after_prefix(line, "save_dir=") {
        Some(v) => {
            p.save_dir = Some(text::string_of(&v));
        },
        None => {},
    }
    p.notify_on_receive = read_flag(line, "notify_on_receive=", p.notify_on_receive);
    p.auto_open_folder = read_flag(line, "auto_open_folder=", p.auto_open_folder);
    p.auto_detect_theme = read_flag(line, "auto_detect_theme=", p.auto_detect_theme);
    match text::after_prefix(line, "dark_mode=") {
        Some(v) => {
            p.dark_mode = Some(text::is_text(&v, "1"));
        },
        None => {},
    }
}

/// Whether a map holds what `m` holds under the numbers from `i` on.
spec fn same_from(left: Map<usize, String>, m: Map<usize, String>, i: usize) -> bool {
    forall|k: usize|
        k >= i ==> (#[trigger] left.contains_key(k) == m.contains_key(k)) && (m.contains_key(k)
            ==> left[k] == m[k])
}

/// Whether `r` holds the names and addresses with the first numbers.
spec fn is_listed(
    r: Seq<(String, String)>,
    names: Map<usize, String>,
    addrs: Map<usize, String>,
) -> bool {
    forall|k: usize| #![trigger names.contains_key(k)]
        k < r.len() ==> has_pair(r, names, addrs, k)
}

spec fn has_pair(
    r: Seq<(String, String)>,
    names: Map<usize, String>,
    addrs: Map<usize, String>,
    k: usize,
) -> bool {
    &&& names.contains_key(k)
    &&& addrs.contains_key(k)
    &&& r[k as int].0@ == names[k]@
    &&& r[k as int].1@ == addrs[k]@
}

proof fn lemma_same_from_next(
    left: Map<usize, String>,
    m: Map<usize, String>,
    i: usize,
    next: usize,
)
    requires
        same_from(left, m, i),
        next == i + 1,
    ensures
        same_from(left.remove(i), m, next),
{
    let after = left.remove(i);
    assert forall|k: usize| k >= next implies (#[trigger] after.contains_key(k) == m.contains_key(
        k,
    )) && (m.contains_key(k) ==> after[k] == m[k]) by {
        assert(left.contains_key(k) == m.contains_key(k));
    }
}

proof fn lemma_listed_push(
    r: Seq<(String, String)>,
    names: Map<usize, String>,
    addrs: Map<usize, String>,
    i: usize,
)
    requires
        i == r.len(),
        is_listed(r, names, addrs),
        names.contains_key(i),
        addrs.contains_key(i),
    ensures
        is_listed(r.push((names[i], addrs[i])), names, addrs),
{
    let t = r.push((names[i], addrs[i]));
    assert forall|k: usize| #![trigger names.contains_key(k)] k < t.len() implies has_pair(
        t,
        names,
        addrs,
        k,
    ) by {
        if k < r.len() {
            assert(has_pair(r, names, addrs, k));
        }
    }
}

proof fn lemma_listed_is_list(
    r: Seq<(String, String)>,
    names: Map<usize, String>,
    addrs: Map<usize, String>,
    i: usize,
)
    requires
        i == r.len(),
        is_listed(r, names, addrs),
        !(names.contains_key(i) && addrs.contains_key(i)),
    ensures
        is_peer_list(pair_texts(r), texts_under(names), texts_under(addrs)),
{
    let p = pair_texts(r);
    assert forall|k: usize| k < p.len() implies #[trigger] texts_under(names).contains_key(k)
        && texts_under(addrs).contains_key(k) && p[k as int] == (
        texts_under(names)[k],
        texts_under(addrs)[k],
    ) by {
        assert(names.contains_key(k));
        assert(has_pair(r, names, addrs, k));
    }
}

/// The devices numbered from zero on, up to the first number that lacks a name or an address.
fn numbered_peers(names: HashMap<usize, String>, addrs: HashMap<usize, String>) -> (r: Vec<
    (String, String),
>)
    ensures
        is_peer_list(pair_texts(r@), texts_under(names@), texts_under(addrs@)),
{
    broadcast use vstd::std_specs::hash::group_hash_axioms;

    let ghost n0 = names@;
    let ghost a0 = addrs@;
    let total: usize = names.len();
    let mut names_left: HashMap<usize, String> = names;
    let mut addrs_left: HashMap<usize, String> = addrs;
    let mut r: Vec<(String, String)> = Vec::new();
    let mut i: usize = 0;
    loop
        invariant
            n0 == names@,
            a0 == addrs@,
            i == r@.len(),
            names_left@.dom().finite(),
            i + names_left@.dom().len() == total,
            same_from(names_left@, n0, i),
            same_from(addrs_left@, a0, i),
            is_listed(r@, n0, a0),
        decreases names_left@.dom().len(),
    {
        let ghost before = r@;
        let ghost nb = names_left@;
        let ghost ab = addrs_left@;
        assert(nb.contains_key(i) == n0.contains_key(i));
        assert(ab.contains_key(i) == a0.contains_key(i));
        match (names_left.remove(&i), addrs_left.remove(&i)) {
            (Some(name), Some(addr)) => {
                let ghost last = (name, addr);
                r.push((name, addr));
                proof {
                    assert(last == (n0[i], a0[i]));
                    lemma_listed_push(before, n0, a0, i);
                    assert(r@ == before.push(last));
                    lemma_same_from_next(nb, n0, i, (i + 1) as usize);
                    lemma_same_from_next(ab, a0, i, (i + 1) as usize);
                }
                i = i + 1;
            },
            _ => {
                proof {
                    lemma_listed_is_list(r@, n0, a0, i);
                }
                return r;
            },
        }
    }
}

/// The preferences that a file keeps; those of someone who has set none where there is no file.
pub fn load_prefs(file: Option<&str>) -> (r: SavedPrefs)
    ensures
        r.sync_map.wf(),
        match file {
            Some(f) => is_said_by(r@, f@),
            None => r@ == no_prefs(),
        },
{
    let mut prefs: SavedPrefs = SavedPrefs::default();
    let file: &str = match file {
        Some(f) => f,
        None => {
            return prefs;
        },
    };
    let lines: Vec<Vec<char>> = text::lines_of(file);
    let ghost all = text::lines(file@);
    let mut names: HashMap<usize, String> = HashMap::new();
    let mut addrs: HashMap<usize, String> = HashMap::new();
    let mut i: usize = 0;
    assert(text::texts(lines@).len() == lines@.len());
    assert(all.take(0) =~= Seq::<Seq<char>>::empty());
    proof {
        assert(texts_under(names@) =~= Map::<usize, Seq<char>>::empty());
        assert(texts_under(addrs@) =~= Map::<usize, Seq<char>>::empty());
        assert(pair_texts(prefs.manual_peers@) =~= seq![]);
    }
    while i < lines.len()
        invariant
            i <= lines@.len(),
            text::texts(lines@) == all,
            all.len() == lines@.len(),
            prefs.sync_map.wf(),
            (Parsed {
                prefs: prefs@,
                names: texts_under(names@),
                addrs: texts_under(addrs@),
            }) == parsed(all.take(i as int)),
        decreases lines@.len() - i,
    {
        reveal(apply_line);
        read_line(&mut prefs, &lines[i]);
        read_peer(&lines[i], "name=", &mut names);
        read_peer(&lines[i], "addr=", &mut addrs);
        i = i + 1;
        proof {
            assert(all.take(i as int).drop_last() =~= all.take(i - 1));
            assert(all.take(i as int).last() == lines@[i - 1]@);
        }
    }
    assert(all.take(i as int) =~= all);
    let ghost said = prefs@;
    prefs.manual_peers = numbered_peers(names, addrs);
    assert(prefs@ == Prefs { manual_peers: prefs@.manual_peers, ..said });
    prefs
}

// ---- laws ----

/// The keys with which the lines of the file begin.
spec fn key_of(k: int) -> Seq<char> {
    if k == 0 {
        "selected_peer_name="@
    } else if k == 1 {
        "selected_peer_addr="@
    } else if k == 2 {
        "sync_device_"@
    } else if k == 3 {
        "save_dir="@
    } else if k == 4 {
        "notify_on_receive="@
    } else if k == 5 {
        "auto_open_folder="@
    } else if k == 6 {
        "auto_detect_theme="@
    } else if k == 7 {
        "dark_mode="@
    } else {
        "manual_peer_"@
    }
}

/// A line begins with one key only.
proof fn lemma_one_key(line: Seq<char>, k: int)
    requires
        0 <= k < 9,
        text::starts_with(line, key_of(k)),
    ensures
        forall|j: int|
            0 <= j < 9 && j != k ==> text::strip_prefix(line, #[trigger] key_of(j)) is None,
{
    reveal_strlit("selected_peer_name=");
    reveal_strlit("selected_peer_addr=");
    reveal_strlit("sync_device_");
    reveal_strlit("save_dir=");
    reveal_strlit("notify_on_receive=");
    reveal_strlit("auto_open_folder=");
    reveal_strlit("auto_detect_theme=");
    reveal_strlit("dark_mode=");
    reveal_strlit("manual_peer_");
    lemma_head(line, key_of(k));
    assert forall|j: int| 0 <= j < 9 && j != k implies text::strip_prefix(
        line,
        #[trigger] key_of(j),
    ) is None by {
        if text::starts_with(line, key_of(j)) {
            lemma_head(line, key_of(j));
        }
    }
}

proof fn lemma_head(line: Seq<char>, key: Seq<char>)
    requires
        text::starts_with(line, key),
        key.len() > 5,
    ensures
        line[0] == key[0] && line[1] == key[1] && line[5] == key[5],
        key.len() > 14 ==> line[14] == key[14],
{
    assert(line.take(key.len() as int)[0] == key[0]);
    assert(line.take(key.len() as int)[1] == key[1]);
    assert(line.take(key.len() as int)[5] == key[5]);
    if key.len() > 14 {
        assert(line.take(key.len() as int)[14] == key[14]);
    }
}

/// What a line says that is made of a key and a value.
proof fn lemma_keyed(s: Parsed, k: int, v: Seq<char>)
    requires
        0 <= k < 9,
    ensures
        ({
            let line = key_of(k) + v;
            let t = apply_line(s, line);
            &&& text::strip_prefix(line, key_of(k)) == Some(v)
            &&& k == 0 ==> t == (Parsed { prefs: Prefs { peer_name: v, ..s.prefs }, ..s })
            &&& k == 1 ==> t == (Parsed { prefs: Prefs { peer_addr: v, ..s.prefs }, ..s })
            &&& k == 2 ==> t == (Parsed {
                prefs: Prefs {
                    sync_map: insert_entry(s.prefs.sync_map, sync_entry(line)),
                    ..s.prefs
                },
                ..s
            })
            &&& k == 3 ==> t == (Parsed { prefs: Prefs { save_dir: Some(v), ..s.prefs }, ..s })
            &&& k == 4 ==> t == (Parsed {
                prefs: Prefs { notify_on_receive: v == "1"@, ..s.prefs },
                ..s
            })
            &&& k == 5 ==> t == (Parsed {
                prefs: Prefs { auto_open_folder: v == "1"@, ..s.prefs },
                ..s
            })
            &&& k == 6 ==> t == (Parsed {
                prefs: Prefs { auto_detect_theme: v == "1"@, ..s.prefs },
                ..s
            })
            &&& k == 7 ==> t == (Parsed {
                prefs: Prefs { dark_mode: Some(v == "1"@), ..s.prefs },
                ..s
            })
            &&& k == 8 ==> t == (Parsed {
                names: insert_entry(s.names, peer_entry(line, "name="@)),
                addrs: insert_entry(s.addrs, peer_entry(line, "addr="@)),
                ..s
            })
        }),
{
    reveal(apply_line);
    let line = key_of(k) + v;
    assert(line.take(key_of(k).len() as int) =~= key_of(k));
    assert(line.skip(key_of(k).len() as int) =~= v);
    lemma_one_key(line, k);
    assert(key_of(0) == "selected_peer_name="@);
    assert(key_of(1) == "selected_peer_addr="@);
    assert(key_of(2) == "sync_device_"@);
    assert(key_of(3) == "save_dir="@);
    assert(key_of(4) == "notify_on_receive="@);
    assert(key_of(5) == "auto_open_folder="@);
    assert(key_of(6) == "auto_detect_theme="@);
    assert(key_of(7) == "dark_mode="@);
    assert(key_of(8) == "manual_peer_"@);
}

/// An address that the file gives back.
pub open spec fn fits_key(s: Seq<char>) -> bool {
    text::lacks(s, '_') && text::lacks(s, '=') && text::lacks(s, '\n')
}

/// Preferences that the file gives back: no text ends a line, and the addresses of synchronised
/// devices hold no underscore and no equals sign.
pub open spec fn fits_file(p: SavedPrefs) -> bool {
    &&& text::is_line(p.peer_name@)
    &&& text::is_line(p.peer_addr@)
    &&& forall|i: int|
        0 <= i < p.sync_map.entries@.len() ==> fits_key(
            (#[trigger] p.sync_map.entries@[i]).0@,
        ) && text::is_line(p.sync_map.entries@[i].1@)
    &&& forall|i: int|
        0 <= i < p.manual_peers@.len() ==> text::is_line(
            (#[trigger] p.manual_peers@[i]).0@,
        ) && text::is_line(p.manual_peers@[i].1@)
    &&& p.save_dir matches Some(d) ==> text::is_line(d@)
}

proof fn lemma_sync_line(e: (String, String))
    requires
        fits_key(e.0@),
    ensures
        sync_entry(sync_line(e)) == Some((e.0@, e.1@)),
        sync_line(e) == key_of(2) + (safe_addr(e.0@) + "="@ + e.1@),
{
    reveal_strlit("=");
    reveal_strlit("sync_device_");
    let a = safe_addr(e.0@);
    let rest = a + "="@ + e.1@;
    let line = sync_line(e);
    assert(line =~= "sync_device_"@ + rest);
    assert(line.take(12) =~= "sync_device_"@);
    assert(line.skip(12) =~= rest);
    assert forall|i: int| 0 <= i < a.len() implies rest[i] != '=' by {
        assert(rest[i] == a[i]);
        assert(e.0@[i] != '=');
    }
    text::lemma_position_is(rest, '=', a.len() as int);
    assert(rest.take(a.len() as int) =~= a);
    assert(rest.skip(a.len() as int + 1) =~= e.1@);
    assert(text::replace_char(a, '_', '.') =~= e.0@) by {
        assert forall|i: int| 0 <= i < a.len() implies text::replace_char(a, '_', '.')[i]
            == e.0@[i] by {
            assert(e.0@[i] != '_');
        }
    }
}

proof fn lemma_behind(a: Seq<char>, b: Seq<char>, c: Seq<char>, d: Seq<char>, e: Seq<char>)
    ensures
        a + b + c + d + e == a + (b + c + d + e),
{
    assert(a + b + c + d + e =~= a + (b + c + d + e));
}

#[verifier::rlimit(60)]
#[verifier::spinoff_prover]
proof fn lemma_peer_line(i: usize, what: Seq<char>, other: Seq<char>, v: Seq<char>)
    requires
        what.len() == 5,
        other.len() == 5,
        what[0] != other[0],
    ensures
        peer_key(i as nat, what) + v == key_of(8) + (numbers::decimal(i as nat) + "_"@ + what + v),
        peer_entry(peer_key(i as nat, what) + v, what) == Some((i, v)),
        peer_entry(peer_key(i as nat, what) + v, other) is None,
{
    reveal_strlit("_");
    reveal_strlit("manual_peer_");
    let d = numbers::decimal(i as nat);
    let rest = d + "_"@ + what + v;
    let line = peer_key(i as nat, what) + v;
    lemma_behind("manual_peer_"@, d, "_"@, what, v);
    assert(line == "manual_peer_"@ + rest);
    text::parts_are_found(seq![], "manual_peer_"@, rest);
    numbers::lemma_decimal(i as nat);
    assert forall|j: int| 0 <= j < d.len() implies rest[j] != '_' by {
        assert(rest[j] == d[j]);
        assert(numbers::is_digit(d[j]));
    }
    text::lemma_position_is(rest, '_', d.len() as int);
    assert(rest.take(d.len() as int) =~= d);
    let suffix = rest.skip(d.len() as int + 1);
    assert(suffix =~= what + v);
    assert(suffix.take(5) =~= what);
    assert(suffix.skip(5) =~= v);
    numbers::decimal_round_trip(i as nat, usize::MAX as nat);
    assert(suffix.take(5)[0] == what[0]);
}

/// What the lines of synchronised folders say.
proof fn lemma_sync_lines(l: Seq<Seq<char>>, e: Seq<(String, String)>)
    requires
        forall|i: int| 0 <= i < e.len() ==> fits_key((#[trigger] e[i]).0@),
    ensures
        parsed(l + sync_lines(e)) == (Parsed {
            prefs: Prefs {
                sync_map: inserted(parsed(l).prefs.sync_map, e),
                ..parsed(l).prefs
            },
            ..parsed(l)
        }),
    decreases e.len(),
{
    if e.len() == 0 {
        assert(l + sync_lines(e) =~= l);
    } else {
        let f = e.drop_last();
        assert forall|i: int| 0 <= i < f.len() implies fits_key((#[trigger] f[i]).0@) by {
            assert(fits_key(e[i].0@));
        }
        lemma_sync_lines(l, f);
        assert((l + sync_lines(e)).drop_last() =~= l + sync_lines(f));
        assert((l + sync_lines(e)).last() == sync_line(e.last()));
        assert(fits_key(e[e.len() - 1].0@));
        lemma_sync_line(e.last());
        lemma_keyed(
            parsed(l + sync_lines(f)),
            2,
            safe_addr(e.last().0@) + "="@ + e.last().1@,
        );
    }
}

/// A map with pairs inserted one behind the other.
spec fn inserted(m: Map<Seq<char>, Seq<char>>, e: Seq<(String, String)>) -> Map<
    Seq<char>,
    Seq<char>,
>
    decreases e.len(),
{
    if e.len() == 0 {
        m
    } else {
        inserted(m, e.drop_last()).insert(e.last().0@, e.last().1@)
    }
}

proof fn lemma_inserted(t: TextMap<String>, e: Seq<(String, String)>)
    requires
        t.wf(),
        e.len() <= t.entries@.len(),
        e == t.entries@.take(e.len() as int),
    ensures
        forall|k: Seq<char>| #[trigger]
            inserted(Map::empty(), e).contains_key(k) <==> exists|i: int|
                i < e.len() && crate::textmap::key_at(t.entries@, k, i),
        forall|k: Seq<char>|
            inserted(Map::empty(), e).contains_key(k) ==> #[trigger] inserted(Map::empty(), e)[k]
                == t@[k]@,
    decreases e.len(),
{
    if e.len() > 0 {
        let f = e.drop_last();
        assert(f =~= t.entries@.take(f.len() as int));
        lemma_inserted(t, f);
        let at = e.len() - 1;
        let m = inserted(Map::empty(), e);
        let b = inserted(Map::empty(), f);
        assert(e.last() == t.entries@[at]);
        assert(crate::textmap::key_at(t.entries@, e.last().0@, at));
        t.lemma_at(e.last().0@, at);
        assert forall|k: Seq<char>| #[trigger] m.contains_key(k) <==> exists|i: int|
            i < e.len() && crate::textmap::key_at(t.entries@, k, i) by {
            if m.contains_key(k) {
                if k != e.last().0@ {
                    assert(b.contains_key(k));
                }
            }
            if exists|i: int| i < e.len() && crate::textmap::key_at(t.entries@, k, i) {
                let i = choose|i: int| i < e.len() && crate::textmap::key_at(t.entries@, k, i);
                if i < at {
                    assert(i < f.len() && crate::textmap::key_at(t.entries@, k, i));
                    assert(b.contains_key(k));
                }
            }
        }
        assert forall|k: Seq<char>| m.contains_key(k) implies #[trigger] m[k] == t@[k]@ by {
            if k != e.last().0@ {
                assert(b.contains_key(k));
                assert(b[k] == t@[k]@);
            }
        }
    }
}

/// What the two lines of a device entered by hand say.
proof fn lemma_peer_step(a: Seq<Seq<char>>, i: usize, name: Seq<char>, addr: Seq<char>)
    ensures
        parsed(
            a.push(peer_key(i as nat, "name="@) + name).push(peer_key(i as nat, "addr="@) + addr),
        ) == (Parsed {
            prefs: parsed(a).prefs,
            names: parsed(a).names.insert(i, name),
            addrs: parsed(a).addrs.insert(i, addr),
        }),
{
    let first = peer_key(i as nat, "name="@) + name;
    let second = peer_key(i as nat, "addr="@) + addr;
    reveal_strlit("name=");
    reveal_strlit("addr=");
    lemma_peer_line(i, "name="@, "addr="@, name);
    lemma_peer_line(i, "addr="@, "name="@, addr);
    let v = numbers::decimal(i as nat) + "_"@ + "name="@ + name;
    let w = numbers::decimal(i as nat) + "_"@ + "addr="@ + addr;
    lemma_parsed_push(a, 8, v);
    lemma_keyed(parsed(a), 8, v);
    lemma_parsed_push(a.push(first), 8, w);
    lemma_keyed(parsed(a.push(first)), 8, w);
}

/// What the lines of devices entered by hand say.
proof fn lemma_peer_lines(l: Seq<Seq<char>>, p: Seq<(String, String)>)
    requires
        p.len() <= usize::MAX,
        parsed(l).names == Map::<usize, Seq<char>>::empty(),
        parsed(l).addrs == Map::<usize, Seq<char>>::empty(),
    ensures
        ({
            let s = parsed(l + peer_lines(p));
            &&& s.prefs == parsed(l).prefs
            &&& forall|i: usize| #[trigger] s.names.contains_key(i) <==> i < p.len()
            &&& forall|i: usize| #[trigger] s.addrs.contains_key(i) <==> i < p.len()
            &&& forall|i: usize| i < p.len() ==> #[trigger] s.names[i] == p[i as int].0@
            &&& forall|i: usize| i < p.len() ==> #[trigger] s.addrs[i] == p[i as int].1@
        }),
    decreases p.len(),
{
    if p.len() == 0 {
        assert(l + peer_lines(p) =~= l);
    } else {
        let q = p.drop_last();
        lemma_peer_lines(l, q);
        let i = q.len() as usize;
        let a = l + peer_lines(q);
        lemma_peer_step(a, i, p.last().0@, p.last().1@);
        assert(l + peer_lines(p) =~= a.push(peer_key(i as nat, "name="@) + p.last().0@).push(
            peer_key(i as nat, "addr="@) + p.last().1@,
        ));
        let s = parsed(l + peer_lines(p));
        assert forall|j: usize| j < p.len() implies #[trigger] s.names[j] == p[j as int].0@ by {
            if j < i {
                assert(parsed(a).names[j] == q[j as int].0@);
            }
        }
        assert forall|j: usize| j < p.len() implies #[trigger] s.addrs[j] == p[j as int].1@ by {
            if j < i {
                assert(parsed(a).addrs[j] == q[j as int].1@);
            }
        }
    }
}

proof fn lemma_flag(b: bool)
    ensures
        (flag(b) == "1"@) == b,
        text::is_line(flag(b)),
{
    reveal_strlit("0");
    reveal_strlit("1");
    assert("0"@[0] != "1"@[0]);
}

/// A key does not spoil a line.
proof fn lemma_keyed_line(k: int, v: Seq<char>)
    requires
        0 <= k < 9,
        text::is_line(v),
    ensures
        text::is_line(key_of(k) + v),
{
    reveal_strlit("selected_peer_name=");
    reveal_strlit("selected_peer_addr=");
    reveal_strlit("sync_device_");
    reveal_strlit("save_dir=");
    reveal_strlit("notify_on_receive=");
    reveal_strlit("auto_open_folder=");
    reveal_strlit("auto_detect_theme=");
    reveal_strlit("dark_mode=");
    reveal_strlit("manual_peer_");
    let key = key_of(k);
    assert(text::is_line(key));
    let line = key + v;
    assert forall|i: int| 0 <= i < line.len() implies #[trigger] line[i] != '\n' by {
        if i < key.len() {
            assert(line[i] == key[i]);
        } else {
            assert(line[i] == v[i - key.len()]);
        }
    }
    if v.len() > 0 {
        assert(line.last() == v.last());
    } else {
        assert(line =~= key);
    }
}

/// The lines of synchronised folders and of devices entered by hand are lines.
proof fn lemma_list_lines(p: SavedPrefs)
    requires
        fits_file(p),
    ensures
        forall|i: int|
            0 <= i < sync_lines(p.sync_map.entries@).len() ==> text::is_line(
                #[trigger] sync_lines(p.sync_map.entries@)[i],
            ),
        forall|i: int|
            0 <= i < peer_lines(p.manual_peers@).len() ==> text::is_line(
                #[trigger] peer_lines(p.manual_peers@)[i],
            ),
{
    let e = p.sync_map.entries@;
    reveal_strlit("=");
    assert forall|i: int| 0 <= i < sync_lines(e).len() implies text::is_line(
        #[trigger] sync_lines(e)[i],
    ) by {
        assert(fits_key(e[i].0@) && text::is_line(e[i].1@));
        lemma_sync_line(e[i]);
        let a = safe_addr(e[i].0@);
        let v = a + "="@ + e[i].1@;
        assert forall|j: int| 0 <= j < v.len() implies #[trigger] v[j] != '\n' by {
            if j < a.len() {
                assert(v[j] == a[j]);
                assert(e[i].0@[j] != '\n');
            } else if j > a.len() {
                assert(v[j] == e[i].1@[j - a.len() - 1]);
            }
        }
        if e[i].1@.len() > 0 {
            assert(v.last() == e[i].1@.last());
        } else {
            assert(v.last() == '=');
        }
        lemma_keyed_line(2, v);
    }
    lemma_peer_line_lines(p.manual_peers@);
}

proof fn lemma_peer_line_lines(m: Seq<(String, String)>)
    requires
        forall|i: int|
            0 <= i < m.len() ==> text::is_line((#[trigger] m[i]).0@) && text::is_line(m[i].1@),
    ensures
        forall|i: int|
            0 <= i < peer_lines(m).len() ==> text::is_line(#[trigger] peer_lines(m)[i]),
    decreases m.len(),
{
    if m.len() > 0 {
        let q = m.drop_last();
        assert forall|i: int| 0 <= i < q.len() implies text::is_line((#[trigger] q[i]).0@)
            && text::is_line(q[i].1@) by {
            assert(text::is_line(m[i].0@) && text::is_line(m[i].1@));
        }
        lemma_peer_line_lines(q);
        let i = q.len();
        assert(text::is_line(m[m.len() - 1].0@) && text::is_line(m[m.len() - 1].1@));
        lemma_peer_value_line(i, "name="@, m.last().0@);
        lemma_peer_value_line(i, "addr="@, m.last().1@);
        let l = peer_lines(m);
        assert forall|j: int| 0 <= j < l.len() implies text::is_line(#[trigger] l[j]) by {
            if j < peer_lines(q).len() {
                assert(l[j] == peer_lines(q)[j]);
            }
        }
    }
}

proof fn lemma_peer_value_line(i: nat, what: Seq<char>, v: Seq<char>)
    requires
        what == "name="@ || what == "addr="@,
        text::is_line(v),
    ensures
        text::is_line(peer_key(i, what) + v),
{
    reveal_strlit("_");
    reveal_strlit("name=");
    reveal_strlit("addr=");
    let d = numbers::decimal(i);
    numbers::lemma_decimal(i);
    let w = d + "_"@ + what + v;
    assert(peer_key(i, what) + v =~= key_of(8) + w);
    assert forall|j: int| 0 <= j < w.len() implies #[trigger] w[j] != '\n' by {
        if j < d.len() {
            assert(w[j] == d[j]);
            assert(numbers::is_digit(d[j]));
        } else if j == d.len() {
            assert(w[j] == '_');
        } else if j < d.len() + 6 {
            assert(w[j] == what[j - d.len() - 1]);
        } else {
            assert(w[j] == v[j - d.len() - 6]);
        }
    }
    if v.len() > 0 {
        assert(w.last() == v.last());
    } else {
        assert(w.last() == '=');
    }
    lemma_keyed_line(8, w);
}

proof fn lemma_parsed_push(l: Seq<Seq<char>>, k: int, v: Seq<char>)
    requires
        0 <= k < 9,
    ensures
        parsed(l.push(key_of(k) + v)) == apply_line(parsed(l), key_of(k) + v),
{
    assert(l.push(key_of(k) + v).drop_last() =~= l);
}

/// The lines of a file of preferences up to the folder for received files.
spec fn list_lines(p: SavedPrefs) -> Seq<Seq<char>> {
    seq!["selected_peer_name="@ + p.peer_name@, "selected_peer_addr="@ + p.peer_addr@]
        + sync_lines(p.sync_map.entries@) + peer_lines(p.manual_peers@)
}

proof fn lemma_sync_map(p: SavedPrefs)
    requires
        p.sync_map.wf(),
    ensures
        inserted(Map::empty(), p.sync_map.entries@) == p@.sync_map,
{
    let e = p.sync_map.entries@;
    assert(e.take(e.len() as int) =~= e);
    lemma_inserted(p.sync_map, e);
    assert forall|k: Seq<char>| #[trigger] p@.sync_map.contains_key(k) <==> inserted(
        Map::empty(),
        e,
    ).contains_key(k) by {
        if p.sync_map@.contains_key(k) {
            let i = choose|i: int| crate::textmap::key_at(e, k, i);
            assert(i < e.len() && crate::textmap::key_at(e, k, i));
        }
    }
    assert(inserted(Map::empty(), e) =~= p@.sync_map);
}

proof fn lemma_list_part(p: SavedPrefs)
    requires
        fits_file(p),
        p.sync_map.wf(),
    ensures
        ({
            let s = parsed(list_lines(p));
            &&& s.prefs == (Prefs {
                peer_name: p.peer_name@,
                peer_addr: p.peer_addr@,
                sync_map: p@.sync_map,
                ..no_prefs()
            })
            &&& is_peer_list(p@.manual_peers, s.names, s.addrs)
        }),
{
    let l0 = Seq::<Seq<char>>::empty();
    let l1 = l0.push(key_of(0) + p.peer_name@);
    let l2 = l1.push(key_of(1) + p.peer_addr@);
    lemma_parsed_push(l0, 0, p.peer_name@);
    lemma_keyed(parsed(l0), 0, p.peer_name@);
    lemma_parsed_push(l1, 1, p.peer_addr@);
    lemma_keyed(parsed(l1), 1, p.peer_addr@);
    let e = p.sync_map.entries@;
    let l3 = l2 + sync_lines(e);
    assert forall|i: int| 0 <= i < e.len() implies fits_key((#[trigger] e[i]).0@) by {}
    lemma_sync_lines(l2, e);
    lemma_sync_map(p);
    assert(p.manual_peers.len() == p.manual_peers@.len());
    lemma_peer_lines(l3, p.manual_peers@);
    assert(l2 =~= seq![
        "selected_peer_name="@ + p.peer_name@,
        "selected_peer_addr="@ + p.peer_addr@,
    ]);
}

proof fn lemma_flag_lines(l: Seq<Seq<char>>, a: bool, b: bool, c: bool)
    ensures
        parsed(
            l.push(key_of(4) + flag(a)).push(key_of(5) + flag(b)).push(key_of(6) + flag(c)),
        ) == (Parsed {
            prefs: Prefs {
                notify_on_receive: a,
                auto_open_folder: b,
                auto_detect_theme: c,
                ..parsed(l).prefs
            },
            ..parsed(l)
        }),
{
    let l1 = l.push(key_of(4) + flag(a));
    let l2 = l1.push(key_of(5) + flag(b));
    lemma_parsed_push(l, 4, flag(a));
    lemma_keyed(parsed(l), 4, flag(a));
    lemma_flag(a);
    lemma_parsed_push(l1, 5, flag(b));
    lemma_keyed(parsed(l1), 5, flag(b));
    lemma_flag(b);
    lemma_parsed_push(l2, 6, flag(c));
    lemma_keyed(parsed(l2), 6, flag(c));
    lemma_flag(c);
}

/// What the lines of a file of preferences say.
proof fn lemma_pref_lines(p: SavedPrefs)
    requires
        fits_file(p),
        p.sync_map.wf(),
    ensures
        ({
            let s = parsed(pref_lines(p));
            &&& s.prefs == (Prefs { manual_peers: seq![], ..p@ })
            &&& is_peer_list(p@.manual_peers, s.names, s.addrs)
        }),
{
    lemma_list_part(p);
    let l4 = list_lines(p);
    let l5 = match p.save_dir {
        Some(d) => l4.push(key_of(3) + d@),
        None => l4,
    };
    if let Some(d) = p.save_dir {
        lemma_parsed_push(l4, 3, d@);
        lemma_keyed(parsed(l4), 3, d@);
    }
    lemma_flag_lines(l5, p.notify_on_receive, p.auto_open_folder, p.auto_detect_theme);
    let l8 = l5.push(key_of(4) + flag(p.notify_on_receive)).push(
        key_of(5) + flag(p.auto_open_folder),
    ).push(key_of(6) + flag(p.auto_detect_theme));
    let l9 = match p.dark_mode {
        Some(dark) => l8.push(key_of(7) + flag(dark)),
        None => l8,
    };
    if let Some(dark) = p.dark_mode {
        lemma_parsed_push(l8, 7, flag(dark));
        lemma_keyed(parsed(l8), 7, flag(dark));
        lemma_flag(dark);
    }
    assert(l9 =~= pref_lines(p));
}

/// Every line of a file of preferences is a line.
proof fn lemma_all_lines(p: SavedPrefs)
    requires
        fits_file(p),
    ensures
        forall|i: int| 0 <= i < pref_lines(p).len() ==> text::is_line(#[trigger] pref_lines(p)[i]),
{
    lemma_list_lines(p);
    lemma_keyed_line(0, p.peer_name@);
    lemma_keyed_line(1, p.peer_addr@);
    if let Some(d) = p.save_dir {
        lemma_keyed_line(3, d@);
    }
    lemma_flag(p.notify_on_receive);
    lemma_flag(p.auto_open_folder);
    lemma_flag(p.auto_detect_theme);
    lemma_keyed_line(4, flag(p.notify_on_receive));
    lemma_keyed_line(5, flag(p.auto_open_folder));
    lemma_keyed_line(6, flag(p.auto_detect_theme));
    if let Some(dark) = p.dark_mode {
        lemma_flag(dark);
        lemma_keyed_line(7, flag(dark));
    }
    let s = sync_lines(p.sync_map.entries@);
    let m = peer_lines(p.manual_peers@);
    let l = pref_lines(p);
    assert forall|i: int| 0 <= i < l.len() implies text::is_line(#[trigger] l[i]) by {
        if 2 <= i < 2 + s.len() {
            assert(l[i] == s[i - 2]);
        } else if 2 + s.len() <= i < 2 + s.len() + m.len() {
            assert(l[i] == m[i - 2 - s.len()]);
        }
    }
}

/// Loading saved preferences gives them back.
pub proof fn prefs_round_trip(p: SavedPrefs, loaded: Prefs)
    requires
        p.sync_map.wf(),
        fits_file(p),
        is_said_by(loaded, text::unlines(pref_lines(p))),
    ensures
        loaded == p@,
{
    lemma_all_lines(p);
    text::lemma_lines_unlines(pref_lines(p));
    lemma_pref_lines(p);
    let s = parsed(pref_lines(p));
    assert(p.manual_peers.len() == p.manual_peers@.len());
    lemma_peer_list_unique(loaded.manual_peers, p@.manual_peers, s.names, s.addrs);
}

proof fn lemma_peer_list_unique(
    a: Seq<(Seq<char>, Seq<char>)>,
    b: Seq<(Seq<char>, Seq<char>)>,
    names: Map<usize, Seq<char>>,
    addrs: Map<usize, Seq<char>>,
)
    requires
        is_peer_list(a, names, addrs),
        is_peer_list(b, names, addrs),
        b.len() <= usize::MAX,
    ensures
        a == b,
{
    if a.len() < b.len() {
        assert(names.contains_key(a.len() as usize));
    } else if b.len() < a.len() {
        assert(names.contains_key(b.len() as usize));
    }
    assert forall|i: int| 0 <= i < a.len() implies a[i] == b[i] by {
        assert(names.contains_key(i as usize));
    }
    assert(a =~= b);
}

// ---- what the calls give ----

/// Preferences that fit the file are read back as they were written.
pub proof fn written_preferences_are_read(p: &SavedPrefs, file: String, read: &str, r: SavedPrefs)
    requires
        p.sync_map.wf(),
        fits_file(*p),
        call_ensures(save_prefs, (p,), file),
        read@ == file@,
        call_ensures(load_prefs, (Some(read),), r),
    ensures
        r.peer_name@ == p.peer_name@,
        r.peer_addr@ == p.peer_addr@,
        forall|k: Seq<char>|
            {
                &&& #[trigger] r.sync_map@.contains_key(k) <==> p.sync_map@.contains_key(k)
                &&& p.sync_map@.contains_key(k) ==> r.sync_map@[k]@ == p.sync_map@[k]@
            },
        text_in(r.save_dir) == text_in(p.save_dir),
        r.notify_on_receive == p.notify_on_receive,
        r.auto_open_folder == p.auto_open_folder,
        r.auto_detect_theme == p.auto_detect_theme,
        r.dark_mode == p.dark_mode,
        r.manual_peers@.len() == p.manual_peers@.len(),
        forall|i: int|
            0 <= i < p.manual_peers@.len() ==> (#[trigger] r.manual_peers@[i]).0@
                == p.manual_peers@[i].0@ && r.manual_peers@[i].1@ == p.manual_peers@[i].1@,
{
    prefs_round_trip(*p, r@);
    let a = texts_under(p.sync_map@);
    let b = texts_under(r.sync_map@);
    assert forall|k: Seq<char>|
        {
            &&& #[trigger] r.sync_map@.contains_key(k) <==> p.sync_map@.contains_key(k)
            &&& p.sync_map@.contains_key(k) ==> r.sync_map@[k]@ == p.sync_map@[k]@
        } by {
        assert(a.contains_key(k) <==> p.sync_map@.contains_key(k));
        assert(b.contains_key(k) <==> r.sync_map@.contains_key(k));
        if a.contains_key(k) {
            assert(a[k] == p.sync_map@[k]@ && b[k] == r.sync_map@[k]@);
        }
    }
    let x = pair_texts(p.manual_peers@);
    let y = pair_texts(r.manual_peers@);
    assert(x.len() == p.manual_peers@.len() && y.len() == r.manual_peers@.len());
    assert forall|i: int| 0 <= i < p.manual_peers@.len() implies (
    #[trigger] r.manual_peers@[i]).0@ == p.manual_peers@[i].0@ && r.manual_peers@[i].1@
        == p.manual_peers@[i].1@ by {
        assert(x[i] == y[i]);
    }
}

/// Without a file nothing is set.
pub proof fn no_file_nothing_set(r: SavedPrefs)
    requires
        call_ensures(load_prefs, (None::<&str>,), r),
    ensures
        r.peer_name@.len() == 0,
        r.peer_addr@.len() == 0,
        forall|k: Seq<char>| !#[trigger] r.sync_map@.contains_key(k),
        r.save_dir is None,
        !r.notify_on_receive,
        !r.auto_open_folder,
        !r.auto_detect_theme,
        r.dark_mode is None,
        r.manual_peers@.len() == 0,
{
    reveal_strlit("");
    let b = texts_under(r.sync_map@);
    assert forall|k: Seq<char>| !#[trigger] r.sync_map@.contains_key(k) by {
        assert(b.contains_key(k) <==> r.sync_map@.contains_key(k));
    }
    assert(pair_texts(r.manual_peers@).len() == r.manual_peers@.len());
}

/// The last line of a file decides what its key says: a text is taken as it is, and a setting is on
/// only where it is one.
pub proof fn last_lines_decide(
    read: &str,
    before: Seq<Seq<char>>,
    key: Seq<char>,
    v: Seq<char>,
    r: SavedPrefs,
)
    requires
        call_ensures(load_prefs, (Some(read),), r),
        text::lines(read@) == before.push(key + v),
    ensures
        key == "selected_peer_name="@ ==> r.peer_name@ == v,
        key == "selected_peer_addr="@ ==> r.peer_addr@ == v,
        key == "save_dir="@ ==> r.save_dir is Some && r.save_dir->0@ == v,
        key == "notify_on_receive="@ ==> (r.notify_on_receive <==> v == "1"@),
        key == "auto_open_folder="@ ==> (r.auto_open_folder <==> v == "1"@),
        key == "auto_detect_theme="@ ==> (r.auto_detect_theme <==> v == "1"@),
        key == "dark_mode="@ ==> r.dark_mode == Some(v == "1"@),
{
    let k: int = if key == key_of(0) {
        0
    } else if key == key_of(1) {
        1
    } else if key == key_of(3) {
        3
    } else if key == key_of(4) {
        4
    } else if key == key_of(5) {
        5
    } else if key == key_of(6) {
        6
    } else if key == key_of(7) {
        7
    } else {
        2
    };
    lemma_parsed_push(before, k, v);
    lemma_keyed(parsed(before), k, v);
    if k != 2 {
        assert forall|j: int| 0 <= j < 9 && j != k implies text::strip_prefix(
            key_of(k) + v,
            #[trigger] key_of(j),
        ) is None by {
            text::parts_are_found(seq![], key_of(k), v);
            lemma_one_key(key_of(k) + v, k);
        }
        assert forall|j: int| 0 <= j < 9 && j != k implies #[trigger] key_of(j) != key by {
            text::parts_are_found(seq![], key_of(k), v);
            assert(text::strip_prefix(key + v, key) is Some);
        }
        assert(key_of(0) == "selected_peer_name="@ && key_of(1) == "selected_peer_addr="@);
        assert(key_of(3) == "save_dir="@ && key_of(4) == "notify_on_receive="@);
        assert(key_of(5) == "auto_open_folder="@ && key_of(6) == "auto_detect_theme="@);
        assert(key_of(7) == "dark_mode="@);
        assert(text_in(r.save_dir) == r@.save_dir);
    }
}

/// Devices entered by hand are read up to the first number that is missing.
pub proof fn devices_are_read_in_a_row(
    read: &str,
    p: Seq<(String, String)>,
    i: usize,
    name: Seq<char>,
    addr: Seq<char>,
    r: SavedPrefs,
)
    requires
        call_ensures(load_prefs, (Some(read),), r),
        p.len() < i,
        text::lines(read@) == peer_lines(p).push(peer_key(i as nat, "name="@) + name).push(
            peer_key(i as nat, "addr="@) + addr,
        ),
    ensures
        r.manual_peers@.len() == p.len(),
{
    lemma_row(p);
    lemma_peer_step(peer_lines(p), i, name, addr);
    let s = parsed(text::lines(read@));
    let q = pair_texts(r.manual_peers@);
    assert(q.len() == r.manual_peers@.len());
    assert(is_peer_list(q, s.names, s.addrs));
    let n = p.len() as usize;
    if q.len() < p.len() {
        let m = q.len() as usize;
        assert(s.names.contains_key(m) && s.addrs.contains_key(m));
    }
    if q.len() > p.len() {
        assert(!s.names.contains_key(n));
    }
}

proof fn lemma_row(p: Seq<(String, String)>)
    requires
        p.len() <= usize::MAX,
    ensures
        forall|k: usize| #[trigger] parsed(peer_lines(p)).names.contains_key(k) <==> k < p.len(),
        forall|k: usize| #[trigger] parsed(peer_lines(p)).addrs.contains_key(k) <==> k < p.len(),
    decreases p.len(),
{
    if p.len() > 0 {
        let fewer = p.drop_last();
        lemma_row(fewer);
        let i = (p.len() - 1) as usize;
        lemma_peer_step(peer_lines(fewer), i, p.last().0@, p.last().1@);
    }
}

} // verus!
