//! The history of transfers, and the file that keeps it.
use vstd::prelude::*;

use crate::clock;
use crate::numbers;
use crate::order;
use crate::paths;
use crate::paths::Style;
use crate::text;

verus! {

#[derive(Clone, Copy, Debug, PartialEq, Eq, Structural)]
pub enum TransferType {
    Local,
    Remote,
}

#[derive(Clone, Copy, Debug, PartialEq, Eq, Structural)]
pub enum TransferDir {
    Sent,
    Received,
}

/// A transfer that took place or failed.
#[derive(Debug)]
pub struct HistoryEntry {
    /// When it ended, in seconds since the epoch.
    pub timestamp: u64,
    pub direction: TransferDir,
    pub file_name: String,
    pub file_size: u64,
    pub peer_name: String,
    pub success: bool,
    pub error: Option<String>,
    pub transfer_type: TransferType,
    pub file_path: Option<String>,
}

/// What an entry says.
pub struct Entry {
    pub timestamp: u64,
    pub direction: TransferDir,
    pub file_name: Seq<char>,
    pub file_size: u64,
    pub peer_name: Seq<char>,
    pub success: bool,
    pub error: Option<Seq<char>>,
    pub transfer_type: TransferType,
    pub file_path: Option<Seq<char>>,
}

/// The text in `o`, if any.
pub open spec fn text_in(o: Option<String>) -> Option<Seq<char>> {
    match o {
        Some(s) => Some(s@),
        None => None,
    }
}

impl View for HistoryEntry {
    type V = Entry;

    open spec fn view(&self) -> Entry {
        Entry {
            timestamp: self.timestamp,
            direction: self.direction,
            file_name: self.file_name@,
            file_size: self.file_size,
            peer_name: self.peer_name@,
            success: self.success,
            error: text_in(self.error),
            transfer_type: self.transfer_type,
            file_path: text_in(self.file_path),
        }
    }
}

/// What the entries of a list say.
pub open spec fn entries(v: Seq<HistoryEntry>) -> Seq<Entry> {
    Seq::new(v.len(), |i: int| v[i]@)
}

/// Whether two optional texts are the same.
fn same_option(a: &Option<String>, b: &Option<String>) -> (r: bool)
    ensures
        r == (text_in(*a) == text_in(*b)),
{
    match (a, b) {
        (Some(x), Some(y)) => text::same_text(x.as_str(), y.as_str()),
        (None, None) => true,
        _ => false,
    }
}

/// A copy of an optional text.
pub(crate) fn copy_option(a: &Option<String>) -> (r: Option<String>)
    ensures
        text_in(r) == text_in(*a),
{
    match a {
        Some(x) => Some(x.clone()),
        None => None,
    }
}

impl Clone for HistoryEntry {
    fn clone(&self) -> (r: Self)
        ensures
            r@ == self@,
    {
        HistoryEntry {
            timestamp: self.timestamp,
            direction: self.direction,
            file_name: self.file_name.clone(),
            file_size: self.file_size,
            peer_name: self.peer_name.clone(),
            success: self.success,
            error: copy_option(&self.error),
            transfer_type: self.transfer_type,
            file_path: copy_option(&self.file_path),
        }
    }
}

// ---- for display ----

/// How long `diff` seconds are ago.
pub open spec fn ago_text(diff: nat) -> Seq<char> {
    if diff < 60 {
        "just now"@
    } else if diff < 3600 {
        numbers::decimal(diff / 60) + " min ago"@
    } else if diff < 86400 {
        numbers::decimal(diff / 3600) + " hr ago"@
    } else if diff < 604800 {
        numbers::decimal(diff / 86400) + " days ago"@
    } else {
        numbers::decimal(diff / 604800) + " wks ago"@
    }
}

/// The seconds from `then` to `now`; none where `then` is later.
pub open spec fn seconds_since(now: u64, then: u64) -> nat {
    if now >= then {
        (now - then) as nat
    } else {
        0
    }
}

impl HistoryEntry {
    /// How long ago this was at `now`.
    pub fn time_display_at(&self, now: u64) -> (r: String)
        ensures
            r@ == ago_text(seconds_since(now, self.timestamp)),
    {
        let diff: u64 = if now >= self.timestamp {
            now - self.timestamp
        } else {
            0
        };
        if diff < 60 {
            "just now".to_string()
        } else if diff < 3600 {
            let mut s: String = numbers::decimal_of(diff / 60);
            s.append(" min ago");
            s
        } else if diff < 86400 {
            let mut s: String = numbers::decimal_of(diff / 3600);
            s.append(" hr ago");
            s
        } else if diff < 604800 {
            let mut s: String = numbers::decimal_of(diff / 86400);
            s.append(" days ago");
            s
        } else {
            let mut s: String = numbers::decimal_of(diff / 604800);
            s.append(" wks ago");
            s
        }
    }

    /// How long ago this was.
    pub fn time_display(&self) -> (r: String)
        ensures
            exists|now: u64| r@ == ago_text(#[trigger] seconds_since(now, self.timestamp)),
    {
        let now: u64 = clock::unix_now();
        let r: String = self.time_display_at(now);
        assert(r@ == ago_text(seconds_since(now, self.timestamp)));
        r
    }

    /// Whether the file is still where it was put; `present` says whether a path exists.
    pub fn file_exists<F: Fn(&str) -> bool>(&self, present: F) -> (r: bool)
        requires
            forall|s: &str| call_requires(present, (s,)),
        ensures
            match self.file_path {
                Some(p) => exists|s: &str| s@ == p@ && #[trigger] call_ensures(present, (s,), r),
                None => !r,
            },
    {
        match &self.file_path {
            Some(p) => present(p.as_str()),
            None => false,
        }
    }
}

/// Where the history is kept, by the directory of the user's settings.
pub fn history_path(config_dir: Option<&str>, style: Style) -> (r: Option<String>)
    ensures
        match (config_dir, r) {
            (Some(d), Some(p)) => p@ == paths::join(
                paths::join(d@, "rfshare"@, style),
                "history.csv"@,
                style,
            ),
            (None, None) => true,
            _ => false,
        },
{
    match config_dir {
        Some(d) => {
            let own: String = paths::joined(d, "rfshare", style);
            Some(paths::joined(own.as_str(), "history.csv", style))
        },
        None => None,
    }
}

// ---- lines ----

/// The first line of the file.
pub open spec fn header() -> Seq<char> {
    "timestamp,direction,type,name,size,peer,success,error,file_path"@
}

/// `o` without commas, which separate the columns; empty where there is no text.
pub open spec fn column(o: Option<Seq<char>>) -> Seq<char> {
    match o {
        Some(s) => text::replace_char(s, ',', ';'),
        None => text::replace_char(""@, ',', ';'),
    }
}

/// The columns of the line of an entry.
pub open spec fn columns(e: Entry) -> Seq<Seq<char>> {
    seq![
        numbers::decimal(e.timestamp as nat),
        if e.direction is Sent {
            "sent"@
        } else {
            "received"@
        },
        if e.transfer_type is Local {
            "local"@
        } else {
            "remote"@
        },
        e.file_name,
        numbers::decimal(e.file_size as nat),
        e.peer_name,
        numbers::decimal(
            if e.success {
                1
            } else {
                0
            },
        ),
        column(e.error),
        column(e.file_path),
    ]
}

/// The line of an entry, without its end.
pub open spec fn line_of(e: Entry) -> Seq<char> {
    let c = columns(e);
    c[0] + ","@ + c[1] + ","@ + c[2] + ","@ + c[3] + ","@ + c[4] + ","@ + c[5] + ","@ + c[6]
        + ","@ + c[7] + ","@ + c[8]
}

/// The number in a column; zero where there is none.
pub open spec fn number_in(s: Seq<char>) -> u64 {
    match numbers::parse_number(s, u64::MAX as nat) {
        Some(n) => n as u64,
        None => 0,
    }
}

pub open spec fn text_unless_empty(s: Seq<char>) -> Option<Seq<char>> {
    if s.len() == 0 {
        None
    } else {
        Some(s)
    }
}

/// The entry in a line; none where the line has fewer than seven columns. A line of seven columns is
/// of the old format, which has no type and no path: what it tells of went over the local network.
pub open spec fn entry_in(line: Seq<char>) -> Option<Entry> {
    let c = text::splitn(line, 9, ',');
    if c.len() < 7 {
        None
    } else if c.len() == 7 {
        Some(
            Entry {
                timestamp: number_in(c[0]),
                direction: if c[1] == "sent"@ {
                    TransferDir::Sent
                } else {
                    TransferDir::Received
                },
                transfer_type: TransferType::Local,
                file_name: c[2],
                file_size: number_in(c[3]),
                peer_name: c[4],
                success: c[5] == "1"@,
                error: text_unless_empty(c[6]),
                file_path: None,
            },
        )
    } else {
        Some(
            Entry {
                timestamp: number_in(c[0]),
                direction: if c[1] == "sent"@ {
                    TransferDir::Sent
                } else {
                    TransferDir::Received
                },
                transfer_type: if c[2] == "remote"@ {
                    TransferType::Remote
                } else {
                    TransferType::Local
                },
                file_name: c[3],
                file_size: number_in(c[4]),
                peer_name: c[5],
                success: c[6] == "1"@,
                error: text_unless_empty(c[7]),
                file_path: if c.len() > 8 {
                    text_unless_empty(c[8])
                } else {
                    None
                },
            },
        )
    }
}

/// The entries in the lines of a file, in their order.
pub open spec fn entries_in(lines: Seq<Seq<char>>) -> Seq<Entry>
    decreases lines.len(),
{
    if lines.len() == 0 {
        seq![]
    } else {
        let before = entries_in(lines.drop_last());
        match entry_in(lines.last()) {
            Some(e) => before.push(e),
            None => before,
        }
    }
}

/// Where an entry goes among entries that are sorted: behind all that are not older.
pub open spec fn place(s: Seq<Entry>, t: u64) -> nat
    decreases s.len(),
{
    if s.len() == 0 || s.last().timestamp >= t {
        s.len()
    } else {
        place(s.drop_last(), t)
    }
}

/// The entries with the latest first; those of the same time stay in their order.
pub open spec fn latest_first(s: Seq<Entry>) -> Seq<Entry>
    decreases s.len(),
{
    if s.len() == 0 {
        seq![]
    } else {
        let before = latest_first(s.drop_last());
        before.insert(place(before, s.last().timestamp) as int, s.last())
    }
}

/// The history that a file holds: its first line is the header.
pub open spec fn history_in(file: Seq<char>) -> Seq<Entry> {
    let l = text::lines(file);
    latest_first(
        entries_in(
            if l.len() == 0 {
                l
            } else {
                l.drop_first()
            },
        ),
    )
}

/// The lines of entries, each with its end.
pub open spec fn lines_text(s: Seq<Entry>) -> Seq<char>
    decreases s.len(),
{
    if s.len() == 0 {
        seq![]
    } else {
        lines_text(s.drop_last()) + line_of(s.last()).push('\n')
    }
}

/// A file that holds the entries.
pub open spec fn file_text(s: Seq<Entry>) -> Seq<char> {
    header().push('\n') + lines_text(s)
}

fn push_column(s: &mut String, o: &Option<String>)
    ensures
        final(s)@ == old(s)@ + column(text_in(*o)),
{
    let c: String = match o {
        Some(t) => text::replaced(t.as_str(), ',', ';'),
        None => text::replaced("", ',', ';'),
    };
    s.append(c.as_str());
}

impl HistoryEntry {
    /// The line of this entry in the file, with its end.
    pub fn to_csv_line(&self) -> (r: String)
        ensures
            r@ == line_of(self@).push('\n'),
    {
        let mut s: String = numbers::decimal_of(self.timestamp);
        s.append(",");
        s.append(
            match self.direction {
                TransferDir::Sent => "sent",
                TransferDir::Received => "received",
            },
        );
        s.append(",");
        s.append(
            match self.transfer_type {
                TransferType::Local => "local",
                TransferType::Remote => "remote",
            },
        );
        s.append(",");
        s.append(self.file_name.as_str());
        s.append(",");
        numbers::push_decimal(&mut s, self.file_size);
        s.append(",");
        s.append(self.peer_name.as_str());
        s.append(",");
        numbers::push_decimal(
            &mut s,
            if self.success {
                1
            } else {
                0
            },
        );
        s.append(",");
        push_column(&mut s, &self.error);
        s.append(",");
        push_column(&mut s, &self.file_path);
        assert(s@ =~= line_of(self@));
        s.push('\n');
        s
    }
}

fn read_number_or_zero(s: &Vec<char>) -> (r: u64)
    ensures
        r == number_in(s@),
{
    match numbers::read_number(s, u64::MAX) {
        Some(n) => n,
        None => 0,
    }
}

fn string_unless_empty(s: &Vec<char>) -> (r: Option<String>)
    ensures
        text_in(r) == text_unless_empty(s@),
{
    if s.len() == 0 {
        None
    } else {
        Some(text::string_of(s))
    }
}

/// The entry in a line of the file.
pub fn parse_entry(line: &Vec<char>) -> (r: Option<HistoryEntry>)
    ensures
        match r {
            Some(e) => entry_in(line@) == Some(e@),
            None => entry_in(line@) is None,
        },
{
    let c: Vec<Vec<char>> = text::splitn_chars(line, 9, ',');
    let ghost cols = text::texts(c@);
    assert(cols == text::splitn(line@, 9, ','));
    assert(cols.len() == c@.len());
    if c.len() < 7 {
        return None;
    }
    let direction: TransferDir = if text::is_text(&c[1], "sent") {
        TransferDir::Sent
    } else {
        TransferDir::Received
    };
    if c.len() == 7 {
        let e: HistoryEntry = HistoryEntry {
            timestamp: read_number_or_zero(&c[0]),
            direction,
            file_name: text::string_of(&c[2]),
            file_size: read_number_or_zero(&c[3]),
            peer_name: text::string_of(&c[4]),
            success: text::is_text(&c[5], "1"),
            error: string_unless_empty(&c[6]),
            transfer_type: TransferType::Local,
            file_path: None,
        };
        return Some(e);
    }
    let e: HistoryEntry = HistoryEntry {
        timestamp: read_number_or_zero(&c[0]),
        direction,
        file_name: text::string_of(&c[3]),
        file_size: read_number_or_zero(&c[4]),
        peer_name: text::string_of(&c[5]),
        success: text::is_text(&c[6], "1"),
        error: string_unless_empty(&c[7]),
        transfer_type: if text::is_text(&c[2], "remote") {
            TransferType::Remote
        } else {
            TransferType::Local
        },
        file_path: if c.len() > 8 {
            string_unless_empty(&c[8])
        } else {
            None
        },
    };
    Some(e)
}

/// Puts an entry behind all that are not older.
fn insert_by_time(v: &mut Vec<HistoryEntry>, e: HistoryEntry)
    ensures
        entries(final(v)@) == entries(old(v)@).insert(
            place(entries(old(v)@), e.timestamp) as int,
            e@,
        ),
{
    let mut i: usize = v.len();
    let ghost s = entries(v@);
    assert(s.take(i as int) =~= s);
    while i > 0 && v[i - 1].timestamp < e.timestamp
        invariant
            i <= v@.len(),
            s == entries(v@),
            *v == *old(v),
            place(s, e.timestamp) == place(s.take(i as int), e.timestamp),
        decreases i,
    {
        assert(s.take(i as int).last() == v@[i - 1]@);
        assert(s.take(i as int).drop_last() =~= s.take(i - 1));
        i = i - 1;
    }
    proof {
        if i > 0 {
            assert(s.take(i as int).last() == v@[i - 1]@);
        }
    }
    let ghost said = e@;
    v.insert(i, e);
    assert(entries(v@) =~= s.insert(i as int, said));
}

/// The history that a file holds, the latest entry first.
pub fn load_history(file: &str) -> (r: Vec<HistoryEntry>)
    ensures
        entries(r@) == history_in(file@),
{
    let lines: Vec<Vec<char>> = text::lines_of(file);
    let ghost all = text::lines(file@);
    assert(text::texts(lines@) == all);
    assert(all.len() == lines@.len());
    let mut r: Vec<HistoryEntry> = Vec::new();
    if lines.len() == 0 {
        assert(entries(r@) =~= history_in(file@));
        return r;
    }
    let ghost body = all.drop_first();
    let mut i: usize = 1;
    assert(body.take(0) =~= Seq::<Seq<char>>::empty());
    assert(entries(r@) =~= latest_first(entries_in(body.take(0))));
    while i < lines.len()
        invariant
            1 <= i <= lines@.len(),
            text::texts(lines@) == all,
            all.len() == lines@.len(),
            body == all.drop_first(),
            entries(r@) == latest_first(entries_in(body.take(i - 1))),
        decreases lines@.len() - i,
    {
        let ghost so_far = body.take(i - 1);
        proof {
            assert(body.take(i as int).drop_last() =~= so_far);
            assert(body.take(i as int).last() == lines@[i as int]@);
        }
        match parse_entry(&lines[i]) {
            Some(e) => {
                proof {
                    let s = entries_in(so_far).push(e@);
                    assert(s.drop_last() =~= entries_in(so_far));
                }
                insert_by_time(&mut r, e);
            },
            None => {},
        }
        i = i + 1;
    }
    assert(body.take(i - 1) =~= body);
    r
}

/// What is to be appended to the file for a new entry; a file that is not there yet begins with the
/// header.
pub fn append_history(entry: &HistoryEntry, file_exists: bool) -> (r: String)
    ensures
        r@ == if file_exists {
            line_of(entry@).push('\n')
        } else {
            header().push('\n') + line_of(entry@).push('\n')
        },
{
    let mut s: String = String::new();
    if !file_exists {
        s.append("timestamp,direction,type,name,size,peer,success,error,file_path");
        s.push('\n');
    }
    let line: String = entry.to_csv_line();
    s.append(line.as_str());
    assert(s@ =~= if file_exists {
        line_of(entry@).push('\n')
    } else {
        header().push('\n') + line_of(entry@).push('\n')
    });
    s
}

/// The file that holds the entries.
pub fn save_all_history(list: &Vec<HistoryEntry>) -> (r: String)
    ensures
        r@ == file_text(entries(list@)),
{
    let mut s: String = String::new();
    s.append("timestamp,direction,type,name,size,peer,success,error,file_path");
    s.push('\n');
    let ghost all = entries(list@);
    let mut i: usize = 0;
    assert(s@ =~= header().push('\n') + lines_text(all.take(0)));
    while i < list.len()
        invariant
            i <= list@.len(),
            all == entries(list@),
            s@ == header().push('\n') + lines_text(all.take(i as int)),
        decreases list@.len() - i,
    {
        let line: String = list[i].to_csv_line();
        s.append(line.as_str());
        i = i + 1;
        proof {
            assert(all.take(i as int).drop_last() =~= all.take(i - 1));
            assert(s@ =~= header().push('\n') + lines_text(all.take(i as int)));
        }
    }
    assert(all.take(i as int) =~= all);
    s
}

/// Why an entry could not be removed.
#[derive(Clone, Copy, Debug, PartialEq, Eq, Structural)]
pub enum HistoryError {
    AlreadyEmpty,
}

impl HistoryError {
    /// The error for display.
    pub fn message(self) -> (r: String)
        ensures
            r@ == "History memory is already empty"@,
    {
        "History memory is already empty".to_string()
    }
}

/// What is told where a history from which entries were removed could not be written, by the error of
/// the write.
pub fn save_error(error: &str) -> (r: String)
    ensures
        r@ == "Failed to save updated history: "@ + error@,
{
    let mut s: String = "Failed to save updated history: ".to_string();
    s.append(error);
    s
}

/// Whether two paths are the same, where there are any.
pub open spec fn same_place(a: Option<Seq<char>>, b: Option<Seq<char>>, style: Style) -> bool {
    match (a, b) {
        (Some(p), Some(q)) => paths::are_same(p, q, style),
        (None, None) => true,
        _ => false,
    }
}

/// Whether two entries say the same. Their paths may be written differently.
pub open spec fn say_same(a: Entry, b: Entry, style: Style) -> bool {
    &&& a == (Entry { file_path: a.file_path, ..b })
    &&& same_place(a.file_path, b.file_path, style)
}

impl HistoryEntry {
    /// Whether two entries say the same.
    pub fn same(&self, other: &HistoryEntry, style: Style) -> (r: bool)
        ensures
            r == say_same(self@, other@, style),
    {
        let places: bool = match (&self.file_path, &other.file_path) {
            (Some(p), Some(q)) => paths::same_path(p.as_str(), q.as_str(), style),
            (None, None) => true,
            _ => false,
        };
        places && self.timestamp == other.timestamp && self.direction == other.direction
            && text::same_text(self.file_name.as_str(), other.file_name.as_str())
            && self.file_size == other.file_size && text::same_text(
            self.peer_name.as_str(),
            other.peer_name.as_str(),
        ) && self.success == other.success && same_option(&self.error, &other.error)
            && self.transfer_type == other.transfer_type
    }
}

/// The history without the entries that say the same as `entry`.
pub fn delete_from_history(
    history: &Vec<HistoryEntry>,
    entry: &HistoryEntry,
    style: Style,
) -> (r: Result<Vec<HistoryEntry>, HistoryError>)
    ensures
        match r {
            Ok(v) => history@.len() > 0 && entries(v@) == entries(history@).filter(
                |e: Entry| !say_same(e, entry@, style),
            ),
            Err(e) => history@.len() == 0 && e == HistoryError::AlreadyEmpty,
        },
{
    if history.len() == 0 {
        return Err(HistoryError::AlreadyEmpty);
    }
    let ghost all = entries(history@);
    let ghost keep = |e: Entry| !say_same(e, entry@, style);
    let mut r: Vec<HistoryEntry> = Vec::new();
    let mut i: usize = 0;
    assert(all.take(0) =~= Seq::<Entry>::empty());
    assert(entries(r@) =~= all.take(0).filter(keep)) by {
        reveal(Seq::filter);
    }
    while i < history.len()
        invariant
            i <= history@.len(),
            all == entries(history@),
            keep == (|e: Entry| !say_same(e, entry@, style)),
            entries(r@) == all.take(i as int).filter(keep),
        decreases history@.len() - i,
    {
        let ghost before = entries(r@);
        proof {
            reveal(Seq::filter);
            assert(all.take(i + 1).drop_last() =~= all.take(i as int));
        }
        if !history[i].same(entry, style) {
            let e: HistoryEntry = history[i].clone();
            r.push(e);
            assert(entries(r@) =~= before.push(e@));
        }
        i = i + 1;
    }
    assert(all.take(i as int) =~= all);
    Ok(r)
}

// ---- laws ----

/// Whether no entry stands before a later one.
pub open spec fn is_latest_first(s: Seq<Entry>) -> bool {
    forall|i: int, j: int| 0 <= i <= j < s.len() ==> s[i].timestamp >= s[j].timestamp
}

proof fn lemma_place(s: Seq<Entry>, t: u64)
    requires
        is_latest_first(s),
    ensures
        place(s, t) <= s.len(),
        forall|i: int| 0 <= i < place(s, t) ==> #[trigger] s[i].timestamp >= t,
        forall|i: int| place(s, t) <= i < s.len() ==> #[trigger] s[i].timestamp < t,
    decreases s.len(),
{
    if s.len() > 0 && s.last().timestamp < t {
        lemma_place(s.drop_last(), t);
        assert forall|i: int| 0 <= i < place(s, t) implies #[trigger] s[i].timestamp >= t by {
            assert(s[i] == s.drop_last()[i]);
        }
        assert forall|i: int| place(s, t) <= i < s.len() implies #[trigger] s[i].timestamp < t by {
            if i < s.len() - 1 {
                assert(s[i] == s.drop_last()[i]);
            }
        }
    }
}

/// The history is sorted by time, the latest entry first, and holds the same entries.
pub proof fn history_is_sorted(s: Seq<Entry>)
    ensures
        is_latest_first(latest_first(s)),
        latest_first(s).to_multiset() == s.to_multiset(),
    decreases s.len(),
{
    if s.len() == 0 {
        assert(latest_first(s) =~= s);
    } else {
        let before = latest_first(s.drop_last());
        history_is_sorted(s.drop_last());
        lemma_place(before, s.last().timestamp);
        let p = place(before, s.last().timestamp) as int;
        let r = before.insert(p, s.last());
        assert forall|i: int, j: int| 0 <= i <= j < r.len() implies r[i].timestamp
            >= r[j].timestamp by {
            let a = if i < p {
                i
            } else {
                i - 1
            };
            let b = if j < p {
                j
            } else {
                j - 1
            };
            if i != p {
                assert(r[i] == before[a]);
            }
            if j != p {
                assert(r[j] == before[b]);
            }
        }
        vstd::seq_lib::to_multiset_insert(before, p, s.last());
        assert(s =~= s.drop_last().push(s.last()));
        vstd::seq_lib::to_multiset_build(s.drop_last(), s.last());
    }
}

/// Sorting leaves a sorted history as it is, so entries of the same time keep their order.
pub proof fn sorted_history_stays(s: Seq<Entry>)
    requires
        is_latest_first(s),
    ensures
        latest_first(s) == s,
    decreases s.len(),
{
    if s.len() > 0 {
        let before = s.drop_last();
        assert(is_latest_first(before)) by {
            assert forall|i: int, j: int| 0 <= i <= j < before.len() implies before[i].timestamp
                >= before[j].timestamp by {
                assert(s[i].timestamp >= s[j].timestamp);
            }
        }
        sorted_history_stays(before);
        assert(before.len() > 0 ==> before.last().timestamp >= s.last().timestamp) by {
            if before.len() > 0 {
                assert(s[s.len() - 2].timestamp >= s[s.len() - 1].timestamp);
            }
        }
        assert(before.insert(before.len() as int, s.last()) =~= s);
    } else {
        assert(latest_first(s) =~= s);
    }
}

/// A text that a column gives back: it has no separator and ends no line.
pub open spec fn fits_column(s: Seq<char>) -> bool {
    text::lacks(s, ',') && text::lacks(s, '\n')
}

/// An entry that its line gives back: its texts fit their columns, an error or a path is not empty,
/// and a path does not end with a carriage return.
pub open spec fn fits_line(e: Entry) -> bool {
    &&& fits_column(e.file_name)
    &&& fits_column(e.peer_name)
    &&& e.error matches Some(s) ==> s.len() > 0 && fits_column(s)
    &&& e.file_path matches Some(s) ==> s.len() > 0 && fits_column(s) && s.last() != '\r'
}

proof fn lemma_column(o: Option<Seq<char>>)
    requires
        o matches Some(s) ==> s.len() > 0 && fits_column(s),
    ensures
        fits_column(column(o)),
        text_unless_empty(column(o)) == o,
        o matches Some(s) ==> column(o) == s,
        o is None ==> column(o).len() == 0,
{
    reveal_strlit("");
    match o {
        Some(s) => {
            assert(text::replace_char(s, ',', ';') =~= s);
        },
        None => {},
    }
}

proof fn lemma_digits_fit(n: nat)
    ensures
        fits_column(numbers::decimal(n)),
{
    numbers::lemma_decimal(n);
    let d = numbers::decimal(n);
    assert forall|i: int| 0 <= i < d.len() implies #[trigger] d[i] != ',' && d[i] != '\n' by {
        assert(numbers::is_digit(d[i]));
    }
}

/// The columns of a line that fits.
proof fn lemma_columns_fit(e: Entry)
    requires
        fits_line(e),
    ensures
        forall|i: int| 0 <= i < 9 ==> fits_column(#[trigger] columns(e)[i]),
        columns(e).len() == 9,
{
    reveal_strlit("sent");
    reveal_strlit("received");
    reveal_strlit("local");
    reveal_strlit("remote");
    lemma_digits_fit(e.timestamp as nat);
    lemma_digits_fit(e.file_size as nat);
    lemma_digits_fit(
        if e.success {
            1
        } else {
            0
        },
    );
    lemma_column(e.error);
    lemma_column(e.file_path);
}

/// A line is split into its columns.
#[verifier::rlimit(50)]
#[verifier::spinoff_prover]
proof fn lemma_line_columns(e: Entry)
    requires
        fits_line(e),
    ensures
        text::splitn(line_of(e), 9, ',') == columns(e),
        text::lacks(line_of(e), '\n'),
        line_of(e).len() > 0 ==> line_of(e).last() != '\r',
{
    reveal_strlit(",");
    lemma_columns_fit(e);
    lemma_column(e.file_path);
    let c = columns(e);
    assert forall|i: int| 0 <= i < 9 implies fits_column(#[trigger] c[i]) by {}
    let r8 = c[8];
    let r7 = c[7].push(',') + r8;
    let r6 = c[6].push(',') + r7;
    let r5 = c[5].push(',') + r6;
    let r4 = c[4].push(',') + r5;
    let r3 = c[3].push(',') + r4;
    let r2 = c[2].push(',') + r3;
    let r1 = c[1].push(',') + r2;
    let r0 = c[0].push(',') + r1;
    assert(line_of(e) =~= r0);
    text::lemma_splitn_whole(r8, 1, ',');
    text::lemma_splitn_first(r7, c[7], r8, 2, ',');
    text::lemma_splitn_first(r6, c[6], r7, 3, ',');
    text::lemma_splitn_first(r5, c[5], r6, 4, ',');
    text::lemma_splitn_first(r4, c[4], r5, 5, ',');
    text::lemma_splitn_first(r3, c[3], r4, 6, ',');
    text::lemma_splitn_first(r2, c[2], r3, 7, ',');
    text::lemma_splitn_first(r1, c[1], r2, 8, ',');
    text::lemma_splitn_first(r0, c[0], r1, 9, ',');
    assert(text::splitn(r0, 9, ',') =~= c);
    lemma_lacks_joined(c[7], r8);
    lemma_lacks_joined(c[6], r7);
    lemma_lacks_joined(c[5], r6);
    lemma_lacks_joined(c[4], r5);
    lemma_lacks_joined(c[3], r4);
    lemma_lacks_joined(c[2], r3);
    lemma_lacks_joined(c[1], r2);
    lemma_lacks_joined(c[0], r1);
    if r8.len() > 0 {
        assert(r0.last() == r8.last());
    } else {
        assert(r0.last() == ',');
    }
}

proof fn lemma_lacks_joined(a: Seq<char>, rest: Seq<char>)
    requires
        text::lacks(a, '\n'),
        text::lacks(rest, '\n'),
    ensures
        text::lacks(a.push(',') + rest, '\n'),
        rest.len() > 0 ==> (a.push(',') + rest).last() == rest.last(),
        rest.len() == 0 ==> (a.push(',') + rest).last() == ',',
{
}

/// Reading the line of an entry gives the entry back.
pub proof fn entry_round_trip(e: Entry)
    requires
        fits_line(e),
    ensures
        entry_in(line_of(e)) == Some(e),
{
    lemma_line_columns(e);
    lemma_column(e.error);
    lemma_column(e.file_path);
    numbers::decimal_round_trip(e.timestamp as nat, u64::MAX as nat);
    numbers::decimal_round_trip(e.file_size as nat, u64::MAX as nat);
    reveal_strlit("sent");
    reveal_strlit("received");
    reveal_strlit("local");
    reveal_strlit("remote");
    reveal_strlit("1");
    assert("received"@ != "sent"@) by {
        assert("received"@.len() != "sent"@.len());
    }
    assert("local"@ != "remote"@) by {
        assert("local"@.len() != "remote"@.len());
    }
    assert(numbers::decimal(1) =~= "1"@);
    assert(numbers::decimal(0)[0] == '0');
    assert(numbers::decimal(0) != "1"@);
}

/// The line of an entry in the old format, which has no type and no path.
pub open spec fn old_line_of(e: Entry) -> Seq<char> {
    let c = columns(e);
    c[0] + ","@ + c[1] + ","@ + c[3] + ","@ + c[4] + ","@ + c[5] + ","@ + c[6] + ","@ + c[7]
}

/// Reading a line of the old format gives the entry back, with the type Local and no path.
#[verifier::rlimit(50)]
#[verifier::spinoff_prover]
pub proof fn old_lines_are_read(e: Entry)
    requires
        fits_line(e),
    ensures
        entry_in(old_line_of(e)) == Some(
            Entry { transfer_type: TransferType::Local, file_path: None, ..e },
        ),
{
    reveal_strlit(",");
    lemma_columns_fit(e);
    let c = columns(e);
    assert forall|i: int| 0 <= i < 9 implies fits_column(#[trigger] c[i]) by {}
    let r6 = c[7];
    let r5 = c[6].push(',') + r6;
    let r4 = c[5].push(',') + r5;
    let r3 = c[4].push(',') + r4;
    let r2 = c[3].push(',') + r3;
    let r1 = c[1].push(',') + r2;
    let r0 = c[0].push(',') + r1;
    assert(old_line_of(e) =~= r0);
    text::lemma_splitn_whole(r6, 3, ',');
    text::lemma_splitn_first(r5, c[6], r6, 4, ',');
    text::lemma_splitn_first(r4, c[5], r5, 5, ',');
    text::lemma_splitn_first(r3, c[4], r4, 6, ',');
    text::lemma_splitn_first(r2, c[3], r3, 7, ',');
    text::lemma_splitn_first(r1, c[1], r2, 8, ',');
    text::lemma_splitn_first(r0, c[0], r1, 9, ',');
    assert(text::splitn(r0, 9, ',') =~= seq![c[0], c[1], c[3], c[4], c[5], c[6], c[7]]);
    lemma_column(e.error);
    numbers::decimal_round_trip(e.timestamp as nat, u64::MAX as nat);
    numbers::decimal_round_trip(e.file_size as nat, u64::MAX as nat);
    reveal_strlit("sent");
    reveal_strlit("received");
    reveal_strlit("1");
    assert("received"@.len() != "sent"@.len());
    assert(numbers::decimal(1) =~= "1"@);
    assert(numbers::decimal(0)[0] == '0');
}

proof fn lemma_lines_of_entries(s: Seq<Entry>, i: int)
    requires
        0 <= i <= s.len(),
        forall|k: int| 0 <= k < s.len() ==> fits_line(#[trigger] s[k]),
    ensures
        ({
            let l = text::lines(tail_text(s, i));
            &&& l.len() == s.len() - i
            &&& forall|k: int| 0 <= k < l.len() ==> #[trigger] l[k] == line_of(s[i + k])
        }),
    decreases s.len() - i,
{
    if i < s.len() {
        lemma_lines_of_entries(s, i + 1);
        assert(fits_line(s[i]));
        lemma_line_columns(s[i]);
        text::lemma_lines_first(tail_text(s, i), line_of(s[i]), tail_text(s, i + 1));
        let l = text::lines(tail_text(s, i));
        let m = text::lines(tail_text(s, i + 1));
        assert forall|k: int| 0 <= k < l.len() implies #[trigger] l[k] == line_of(s[i + k]) by {
            if k > 0 {
                assert(l[k] == m[k - 1]);
            }
        }
    }
}

/// The lines of the entries from `i` on.
spec fn tail_text(s: Seq<Entry>, i: int) -> Seq<char>
    decreases s.len() - i,
{
    if i >= s.len() {
        seq![]
    } else {
        line_of(s[i]).push('\n') + tail_text(s, i + 1)
    }
}

proof fn lemma_tail_text(s: Seq<Entry>, i: int)
    requires
        0 <= i <= s.len(),
    ensures
        lines_text(s.take(i)) + tail_text(s, i) == lines_text(s),
    decreases s.len() - i,
{
    if i == s.len() {
        assert(s.take(i) =~= s);
        assert(lines_text(s) + seq![] =~= lines_text(s));
    } else {
        lemma_tail_text(s, i + 1);
        assert(s.take(i + 1).drop_last() =~= s.take(i));
        assert(lines_text(s.take(i)) + (line_of(s[i]).push('\n') + tail_text(s, i + 1)) =~= (
        lines_text(s.take(i)) + line_of(s[i]).push('\n')) + tail_text(s, i + 1));
    }
}

proof fn lemma_entries_in_lines(l: Seq<Seq<char>>, s: Seq<Entry>)
    requires
        l.len() == s.len(),
        forall|k: int| 0 <= k < s.len() ==> #[trigger] l[k] == line_of(s[k]),
        forall|k: int| 0 <= k < s.len() ==> fits_line(#[trigger] s[k]),
    ensures
        entries_in(l) == s,
    decreases s.len(),
{
    if s.len() > 0 {
        let m = l.drop_last();
        let t = s.drop_last();
        assert forall|k: int| 0 <= k < t.len() implies #[trigger] m[k] == line_of(t[k]) by {
            assert(l[k] == line_of(s[k]));
        }
        assert forall|k: int| 0 <= k < t.len() implies fits_line(#[trigger] t[k]) by {
            assert(fits_line(s[k]));
        }
        lemma_entries_in_lines(m, t);
        assert(fits_line(s[s.len() - 1]));
        entry_round_trip(s.last());
        assert(l.last() == line_of(s[s.len() - 1]));
        assert(t.push(s.last()) =~= s);
    }
}

/// Loading a saved history gives its entries back, the latest first.
pub proof fn history_round_trip(s: Seq<Entry>)
    requires
        forall|k: int| 0 <= k < s.len() ==> fits_line(#[trigger] s[k]),
    ensures
        history_in(file_text(s)) == latest_first(s),
        is_latest_first(s) ==> history_in(file_text(s)) == s,
{
    reveal_strlit("timestamp,direction,type,name,size,peer,success,error,file_path");
    lemma_tail_text(s, 0);
    assert(lines_text(s.take(0)) + tail_text(s, 0) =~= tail_text(s, 0)) by {
        assert(s.take(0) =~= Seq::<Entry>::empty());
    }
    text::lemma_lines_first(file_text(s), header(), lines_text(s));
    lemma_lines_of_entries(s, 0);
    let l = text::lines(file_text(s));
    assert(l.drop_first() =~= text::lines(lines_text(s)));
    lemma_entries_in_lines(l.drop_first(), s);
    if is_latest_first(s) {
        sorted_history_stays(s);
    }
}

/// Appending an entry to a file makes the file that holds the entry behind the others.
pub proof fn appending_extends_the_file(s: Seq<Entry>, e: Entry)
    ensures
        file_text(s) + line_of(e).push('\n') == file_text(s.push(e)),
        header().push('\n') + line_of(e).push('\n') == file_text(seq![e]),
{
    assert(s.push(e).drop_last() =~= s);
    assert(file_text(s) + line_of(e).push('\n') =~= file_text(s.push(e)));
    assert(seq![e].drop_last() =~= Seq::<Entry>::empty());
    assert(lines_text(Seq::<Entry>::empty()) =~= Seq::<char>::empty());
    assert(header().push('\n') + line_of(e).push('\n') =~= file_text(seq![e]));
}

// ---- what the calls give ----

/// The line of an entry holds its time, direction, type, names, size and success in their places,
/// separated by commas; an error and a path stand at its end, with semicolons in place of commas.
pub proof fn lines_hold_the_columns(e: &HistoryEntry, r: String)
    requires
        call_ensures(HistoryEntry::to_csv_line, (e,), r),
    ensures
        r@ == (numbers::decimal(e.timestamp as nat) + ","@ + (if e.direction is Sent {
            "sent"@
        } else {
            "received"@
        }) + ","@ + (if e.transfer_type is Local {
            "local"@
        } else {
            "remote"@
        }) + ","@ + e.file_name@ + ","@ + numbers::decimal(e.file_size as nat) + ","@
            + e.peer_name@ + ","@ + (if e.success {
            seq!['1']
        } else {
            seq!['0']
        }) + ","@ + column(text_in(e.error)) + ","@ + column(text_in(e.file_path))).push('\n'),
        forall|s: Seq<char>, i: int|
            0 <= i < s.len() ==> #[trigger] column(Some(s))[i] == if s[i] == ',' {
                ';'
            } else {
                s[i]
            },
        e.error is None ==> column(text_in(e.error)).len() == 0,
        e.error matches Some(s) ==> text::lacks(s@, ',') ==> column(text_in(e.error)) == s@,
        e.file_path is None ==> column(text_in(e.file_path)).len() == 0,
        e.file_path matches Some(s) ==> text::lacks(s@, ',') ==> column(text_in(e.file_path))
            == s@,
{
    reveal_strlit("");
    numbers::decimals_grow(0, 1);
    numbers::decimals_grow(0, 0);
    if e.error is Some {
        let s = e.error->0@;
        if text::lacks(s, ',') {
            assert(text::replace_char(s, ',', ';') =~= s);
        }
    }
    if e.file_path is Some {
        let s = e.file_path->0@;
        if text::lacks(s, ',') {
            assert(text::replace_char(s, ',', ';') =~= s);
        }
    }
}

/// The line of an entry that fits is read back as that entry.
pub proof fn written_lines_are_read(
    e: &HistoryEntry,
    line: String,
    read: &Vec<char>,
    r: Option<HistoryEntry>,
)
    requires
        call_ensures(HistoryEntry::to_csv_line, (e,), line),
        read@ == line@.drop_last(),
        call_ensures(parse_entry, (read,), r),
        fits_line(e@),
    ensures
        r is Some,
        r->0.timestamp == e.timestamp,
        r->0.direction == e.direction,
        r->0.file_name@ == e.file_name@,
        r->0.file_size == e.file_size,
        r->0.peer_name@ == e.peer_name@,
        r->0.success == e.success,
        text_in(r->0.error) == text_in(e.error),
        r->0.transfer_type == e.transfer_type,
        text_in(r->0.file_path) == text_in(e.file_path),
{
    entry_round_trip(e@);
    assert(line_of(e@).push('\n').drop_last() =~= line_of(e@));
}

/// A history that is written is read back with the same entries, the latest first.
pub proof fn written_histories_are_read(
    list: &Vec<HistoryEntry>,
    file: String,
    read: &str,
    r: Vec<HistoryEntry>,
)
    requires
        call_ensures(save_all_history, (list,), file),
        read@ == file@,
        call_ensures(load_history, (read,), r),
        forall|k: int| 0 <= k < list@.len() ==> fits_line((#[trigger] list@[k])@),
    ensures
        r@.len() == list@.len(),
        entries(r@).to_multiset() == entries(list@).to_multiset(),
        forall|i: int, j: int|
            0 <= i <= j < r@.len() ==> (#[trigger] r@[i]).timestamp >= (#[trigger] r@[j]).timestamp,
        (forall|i: int, j: int|
            0 <= i <= j < list@.len() ==> (#[trigger] list@[i]).timestamp >= (
            #[trigger] list@[j]).timestamp) ==> forall|i: int|
            0 <= i < list@.len() ==> (#[trigger] r@[i])@ == list@[i]@,
{
    let s = entries(list@);
    let t = entries(r@);
    assert forall|k: int| 0 <= k < s.len() implies fits_line(#[trigger] s[k]) by {
        assert(s[k] == list@[k]@);
    }
    history_round_trip(s);
    history_is_sorted(s);
    assert(t.len() == s.len()) by {
        s.to_multiset_ensures();
        t.to_multiset_ensures();
    }
    assert forall|i: int, j: int| 0 <= i <= j < r@.len() implies (#[trigger] r@[i]).timestamp >= (
    #[trigger] r@[j]).timestamp by {
        assert(t[i].timestamp >= t[j].timestamp);
    }
    if forall|i: int, j: int|
        0 <= i <= j < list@.len() ==> (#[trigger] list@[i]).timestamp >= (
        #[trigger] list@[j]).timestamp {
        assert forall|i: int, j: int| 0 <= i <= j < s.len() implies s[i].timestamp
            >= s[j].timestamp by {
            assert(list@[i].timestamp >= list@[j].timestamp);
        }
        assert(t == s);
        assert forall|i: int| 0 <= i < list@.len() implies (#[trigger] r@[i])@ == list@[i]@ by {
            assert(t[i] == s[i]);
        }
    }
}

/// Removing an entry removes all that agree with it in everything, with paths that lead to the same
/// place, and no others. It fails where there is nothing to remove from.
pub proof fn only_the_entry_is_removed(
    history: &Vec<HistoryEntry>,
    entry: &HistoryEntry,
    style: Style,
    r: Result<Vec<HistoryEntry>, HistoryError>,
)
    requires
        call_ensures(delete_from_history, (history, entry, style), r),
    ensures
        r is Ok <==> history@.len() > 0,
        r is Ok ==> order::keeps(
            entries(r->Ok_0@),
            entries(history@),
            |e: Entry|
                !(e.timestamp == entry.timestamp && e.direction == entry.direction && e.file_name
                    == entry.file_name@ && e.file_size == entry.file_size && e.peer_name
                    == entry.peer_name@ && e.success == entry.success && e.error == text_in(
                    entry.error,
                ) && e.transfer_type == entry.transfer_type && (e.file_path is Some
                    <==> entry.file_path is Some) && (e.file_path is Some ==> paths::are_same(
                    e.file_path->0,
                    entry.file_path->0@,
                    style,
                ))),
        ),
        r is Ok ==> !entries(r->Ok_0@).contains(entry@),
{
    if r is Ok {
        let f = |e: Entry| !say_same(e, entry@, style);
        let g = |e: Entry|
            !(e.timestamp == entry.timestamp && e.direction == entry.direction && e.file_name
                == entry.file_name@ && e.file_size == entry.file_size && e.peer_name
                == entry.peer_name@ && e.success == entry.success && e.error == text_in(
                entry.error,
            ) && e.transfer_type == entry.transfer_type && (e.file_path is Some
                <==> entry.file_path is Some) && (e.file_path is Some ==> paths::are_same(
                e.file_path->0,
                entry.file_path->0@,
                style,
            )));
        assert forall|e: Entry| #[trigger] f(e) == g(e) by {}
        assert(f =~= g);
        let s = entries(history@);
        let t = entries(r->Ok_0@);
        order::filtering_keeps(s, g);
        order::kept_members(t, s, g);
        if t.contains(entry@) {
            let i = choose|i: int| 0 <= i < t.len() && t[i] == entry@;
            assert(g(t[i]));
        }
    }
}

/// How long ago something was is said in full minutes, hours, days and weeks.
pub proof fn times_are_said(e: &HistoryEntry, now: u64, n: nat, r: String)
    requires
        call_ensures(HistoryEntry::time_display_at, (e, now), r),
    ensures
        now < e.timestamp + 60 ==> r@ == "just now"@,
        1 <= n < 60 && e.timestamp + 60 * n <= now < e.timestamp + 60 * (n + 1) ==> r@
            == numbers::decimal(n) + " min ago"@,
        1 <= n < 24 && e.timestamp + 3600 * n <= now < e.timestamp + 3600 * (n + 1) ==> r@
            == numbers::decimal(n) + " hr ago"@,
        1 <= n < 7 && e.timestamp + 86400 * n <= now < e.timestamp + 86400 * (n + 1) ==> r@
            == numbers::decimal(n) + " days ago"@,
        1 <= n && e.timestamp + 604800 * n <= now < e.timestamp + 604800 * (n + 1) ==> r@
            == numbers::decimal(n) + " wks ago"@,
{
}

/// An entry that is appended to a file is read with those that were there.
pub proof fn appended_entries_are_read(
    list: &Vec<HistoryEntry>,
    file: String,
    e: &HistoryEntry,
    more: String,
    read: &str,
    r: Vec<HistoryEntry>,
)
    requires
        call_ensures(save_all_history, (list,), file),
        call_ensures(append_history, (e, true), more),
        read@ == file@ + more@,
        call_ensures(load_history, (read,), r),
        forall|k: int| 0 <= k < list@.len() ==> fits_line((#[trigger] list@[k])@),
        fits_line(e@),
    ensures
        entries(r@).to_multiset() == entries(list@).to_multiset().insert(e@),
        entries(r@).contains(e@),
{
    let s = entries(list@);
    let t = s.push(e@);
    appending_extends_the_file(s, e@);
    assert forall|k: int| 0 <= k < t.len() implies fits_line(#[trigger] t[k]) by {
        if k < s.len() {
            assert(t[k] == list@[k]@);
        }
    }
    history_round_trip(t);
    history_is_sorted(t);
    vstd::seq_lib::to_multiset_build(s, e@);
    let u = entries(r@);
    u.to_multiset_ensures();
    assert(u.to_multiset().count(e@) > 0);
}

/// A new file begins with the names of the columns.
pub proof fn new_files_begin_with_a_header(e: &HistoryEntry, new: String, more: String)
    requires
        call_ensures(append_history, (e, false), new),
        call_ensures(append_history, (e, true), more),
    ensures
        new@ == "timestamp,direction,type,name,size,peer,success,error,file_path"@.push('\n')
            + more@,
{
}

/// An entry is the same as itself, and not as one that differs in its time, direction, names, size,
/// success, error or type.
pub proof fn entries_are_told_apart(a: &HistoryEntry, b: &HistoryEntry, style: Style, r: bool)
    requires
        call_ensures(HistoryEntry::same, (a, b, style), r),
    ensures
        a@ == b@ ==> r,
        a.timestamp != b.timestamp ==> !r,
        a.direction != b.direction ==> !r,
        a.file_name@ != b.file_name@ ==> !r,
        a.file_size != b.file_size ==> !r,
        a.peer_name@ != b.peer_name@ ==> !r,
        a.success != b.success ==> !r,
        text_in(a.error) != text_in(b.error) ==> !r,
        a.transfer_type != b.transfer_type ==> !r,
        a.file_path is Some && b.file_path is None ==> !r,
        a.file_path is None && b.file_path is Some ==> !r,
{
}

/// A file is there where its path surely is, and not where it has no path or surely is not.
pub proof fn files_are_where_they_are<F: Fn(&str) -> bool>(
    e: &HistoryEntry,
    present: F,
    r: bool,
)
    requires
        call_ensures(HistoryEntry::file_exists::<F>, (e, present), r),
    ensures
        e.file_path is None ==> !r,
        e.file_path matches Some(p) ==> !paths::may_answer(present, p@, false) ==> r,
        e.file_path matches Some(p) ==> !paths::may_answer(present, p@, true) ==> !r,
{
}

/// The columns of a line say what an entry says: a direction other than `sent` is `received`, a type
/// other than `remote` is `local`, and only a one means success. A number that cannot be read is zero.
pub proof fn columns_are_read(line: &Vec<char>, c: Seq<Seq<char>>, r: Option<HistoryEntry>)
    requires
        call_ensures(parse_entry, (line,), r),
        c.len() == 9,
        forall|i: int| 0 <= i < 9 ==> text::lacks(#[trigger] c[i], ','),
        line@ == text::joined_by(c, ','),
    ensures
        r is Some,
        r->0.direction is Sent <==> c[1] == "sent"@,
        r->0.transfer_type is Remote <==> c[2] == "remote"@,
        r->0.file_name@ == c[3],
        r->0.peer_name@ == c[5],
        r->0.success <==> c[6] == "1"@,
        r->0.error is None <==> c[7].len() == 0,
        r->0.error matches Some(e) ==> e@ == c[7],
        r->0.file_path is None <==> c[8].len() == 0,
        r->0.file_path matches Some(p) ==> p@ == c[8],
        numbers::parse_number(c[0], u64::MAX as nat) matches Some(n) ==> r->0.timestamp == n,
        numbers::parse_number(c[0], u64::MAX as nat) is None ==> r->0.timestamp == 0,
        numbers::parse_number(c[4], u64::MAX as nat) matches Some(n) ==> r->0.file_size == n,
        numbers::parse_number(c[4], u64::MAX as nat) is None ==> r->0.file_size == 0,
{
    text::joined_texts_are_split(c, 9, ',');
    if r->0.error is Some {
        assert(text_in(r->0.error) == Some(r->0.error->0@));
    }
    if r->0.file_path is Some {
        assert(text_in(r->0.file_path) == Some(r->0.file_path->0@));
    }
}

/// Seven columns are those of the old format, and fewer are no entry.
pub proof fn short_lines_are_old_or_none(line: &Vec<char>, c: Seq<Seq<char>>, r: Option<
    HistoryEntry,
>)
    requires
        call_ensures(parse_entry, (line,), r),
        1 <= c.len() <= 7,
        forall|i: int| 0 <= i < c.len() ==> text::lacks(#[trigger] c[i], ','),
        line@ == text::joined_by(c, ','),
    ensures
        r is Some <==> c.len() == 7,
        r is Some ==> {
            let e = r->0;
            &&& e.direction is Sent <==> c[1] == "sent"@
            &&& e.transfer_type is Local
            &&& e.file_name@ == c[2]
            &&& e.peer_name@ == c[4]
            &&& e.success <==> c[5] == "1"@
            &&& e.file_path is None
        },
{
    text::joined_texts_are_split(c, 9, ',');
}

} // verus!
