//! What the pages show.
use vstd::prelude::*;

use crate::book::{PeerBook, ScanState};
use crate::history::{entries, text_in, Entry, HistoryEntry, TransferDir, TransferType};
use crate::link;
use crate::link::{notice, Link, LinkState, RelayState};
use crate::numbers;
use crate::order;
use crate::paths;
use crate::paths::Style;
use crate::peers::Device;
use crate::queue::QueueItem;
use crate::text;

verus! {

// ---- counts ----

/// A number of things.
pub open spec fn count_text(n: nat, thing: Seq<char>) -> Seq<char> {
    numbers::decimal(n) + " "@ + thing + if n == 1 {
        ""@
    } else {
        "s"@
    }
}

/// A number of things: `1 file`, `2 files`.
pub fn count_label(n: usize, thing: &str) -> (r: String)
    ensures
        r@ == count_text(n as nat, thing@),
{
    let mut s: String = numbers::decimal_of(n as u64);
    s.append(" ");
    s.append(thing);
    if n != 1 {
        s.append("s");
    }
    proof {
        reveal_strlit("");
        assert(s@ =~= count_text(n as nat, thing@));
    }
    s
}

/// The mark beside the history while files are unread.
pub fn unread_badge(unread: usize) -> (r: Option<String>)
    ensures
        match r {
            Some(s) => unread > 0 && s@ == (if unread > 9 {
                "9+"@
            } else {
                numbers::decimal(unread as nat)
            }),
            None => unread == 0,
        },
{
    if unread == 0 {
        None
    } else if unread > 9 {
        Some("9+".to_string())
    } else {
        Some(numbers::decimal_of(unread as u64))
    }
}

// ---- totals ----

/// Whether an entry counts among the files that were sent, or received.
pub open spec fn counts_as(e: Entry, direction: TransferDir) -> bool {
    e.direction == direction && e.success
}

/// How many files went in a direction.
pub open spec fn files_in(s: Seq<Entry>, direction: TransferDir) -> nat
    decreases s.len(),
{
    if s.len() == 0 {
        0
    } else {
        files_in(s.drop_last(), direction) + if counts_as(s.last(), direction) {
            1nat
        } else {
            0nat
        }
    }
}

/// How many bytes went in a direction.
pub open spec fn bytes_in(s: Seq<Entry>, direction: TransferDir) -> nat
    decreases s.len(),
{
    if s.len() == 0 {
        0
    } else {
        bytes_in(s.drop_last(), direction) + if counts_as(s.last(), direction) {
            s.last().file_size as nat
        } else {
            0nat
        }
    }
}

/// The first entries hold no more bytes than all.
proof fn lemma_bytes_grow(s: Seq<Entry>, n: int, direction: TransferDir)
    requires
        0 <= n <= s.len(),
    ensures
        bytes_in(s.take(n), direction) <= bytes_in(s, direction),
    decreases s.len() - n,
{
    if n == s.len() {
        assert(s.take(n) =~= s);
    } else {
        assert(s.take(n + 1).drop_last() =~= s.take(n));
        lemma_bytes_grow(s, n + 1, direction);
    }
}

/// What went in a direction.
#[derive(Clone, Copy, Debug, PartialEq, Eq, Structural)]
pub struct Total {
    pub files: usize,
    pub bytes: u64,
}

/// What went in a direction; nothing where the bytes are too many to count.
pub fn total(history: &Vec<HistoryEntry>, direction: TransferDir) -> (r: Option<Total>)
    ensures
        match r {
            Some(t) => t.files == files_in(entries(history@), direction) && t.bytes == bytes_in(
                entries(history@),
                direction,
            ),
            None => bytes_in(entries(history@), direction) > u64::MAX,
        },
{
    let ghost all = entries(history@);
    let mut t: Total = Total { files: 0, bytes: 0 };
    let mut i: usize = 0;
    assert(all.take(0) =~= seq![]);
    while i < history.len()
        invariant
            all == entries(history@),
            i <= history@.len(),
            all.len() == history@.len(),
            t.files <= i,
            t.files == files_in(all.take(i as int), direction),
            t.bytes == bytes_in(all.take(i as int), direction),
        decreases history@.len() - i,
    {
        let e: &HistoryEntry = &history[i];
        assert(all.take(i + 1).drop_last() =~= all.take(i as int));
        assert(all.take(i + 1).last() == e@);
        let counted: bool = e.direction == direction && e.success;
        if counted {
            match t.bytes.checked_add(e.file_size) {
                Some(bytes) => {
                    t = Total { files: t.files + 1, bytes };
                },
                None => {
                    proof {
                        lemma_bytes_grow(all, i + 1, direction);
                    }
                    return None;
                },
            }
        }
        i = i + 1;
    }
    assert(all.take(i as int) =~= all);
    Some(t)
}

/// A total, as the status bar shows it.
pub fn total_label(t: Total) -> (r: String)
    ensures
        r@ == numbers::size_text(t.bytes as nat) + " · "@ + count_text(t.files as nat, "file"@),
{
    let mut s: String = numbers::size_string(t.bytes);
    s.append(" · ");
    let files: String = count_label(t.files, "file");
    s.append(files.as_str());
    s
}

/// The name of this device, or its address where it has none.
pub fn device_label<'a>(hostname: &'a str, ip: &'a str) -> (r: &'a str)
    ensures
        r@ == (if hostname@.len() == 0 {
            ip@
        } else {
            hostname@
        }),
{
    proof {
        reveal_strlit("");
        assert(hostname@.len() == 0 ==> hostname@ =~= ""@);
    }
    if text::same_text(hostname, "") {
        ip
    } else {
        hostname
    }
}

// ---- the history ----

/// Whether an entry is shown under a filter in small letters, by its names in small letters.
pub open spec fn is_shown(file_name: Seq<char>, peer_name: Seq<char>, filter: Seq<char>) -> bool {
    filter.len() == 0 || text::contains_text(file_name, filter) || text::contains_text(
        peer_name,
        filter,
    )
}

/// Whether an entry is shown under a filter in small letters, by its names in small letters.
pub fn matches_filter(file_name: &str, peer_name: &str, filter: &str) -> (r: bool)
    ensures
        r == is_shown(file_name@, peer_name@, filter@),
{
    proof {
        reveal_strlit("");
        assert(filter@.len() == 0 ==> filter@ =~= ""@);
    }
    text::same_text(filter, "") || text::has_text(file_name, filter) || text::has_text(
        peer_name,
        filter,
    )
}

/// The entries that are shown under a filter, in their order. Capital and small letters count as
/// the same.
pub open spec fn shown_under(s: Seq<Entry>, filter: Seq<char>) -> Seq<Entry> {
    s.filter(
        |e: Entry|
            is_shown(
                text::lowercase(e.file_name),
                text::lowercase(e.peer_name),
                text::lowercase(filter),
            ),
    )
}

/// The entries that are shown under a filter.
pub fn shown_entries(history: &Vec<HistoryEntry>, filter: &str) -> (r: Vec<HistoryEntry>)
    ensures
        entries(r@) == shown_under(entries(history@), filter@),
        filter@.len() == 0 ==> entries(r@) == entries(history@),
        text::is_ascii(filter@) ==> text::lowercase(filter@) == text::ascii_lower(filter@),
        forall|i: int|
            0 <= i < history@.len() && text::is_ascii((#[trigger] history@[i]).file_name@)
                ==> text::lowercase(history@[i].file_name@) == text::ascii_lower(
                history@[i].file_name@,
            ),
        forall|i: int|
            0 <= i < history@.len() && text::is_ascii((#[trigger] history@[i]).peer_name@)
                ==> text::lowercase(history@[i].peer_name@) == text::ascii_lower(
                history@[i].peer_name@,
            ),
{
    let lower: String = text::lowercased(filter);
    let ghost all = entries(history@);
    let ghost keeps = |e: Entry|
        is_shown(
            text::lowercase(e.file_name),
            text::lowercase(e.peer_name),
            text::lowercase(filter@),
        );
    let mut r: Vec<HistoryEntry> = Vec::new();
    let mut i: usize = 0;
    proof {
        reveal(Seq::filter);
        assert(all.take(0) =~= seq![]);
        assert(entries(r@) =~= all.take(0).filter(keeps));
    }
    while i < history.len()
        invariant
            all == entries(history@),
            all.len() == history@.len(),
            i <= history@.len(),
            lower@ == text::lowercase(filter@),
            keeps == (|e: Entry|
                is_shown(
                    text::lowercase(e.file_name),
                    text::lowercase(e.peer_name),
                    text::lowercase(filter@),
                )),
            entries(r@) == all.take(i as int).filter(keeps),
            forall|j: int|
                0 <= j < i && text::is_ascii((#[trigger] history@[j]).file_name@)
                    ==> text::lowercase(history@[j].file_name@) == text::ascii_lower(
                    history@[j].file_name@,
                ),
            forall|j: int|
                0 <= j < i && text::is_ascii((#[trigger] history@[j]).peer_name@)
                    ==> text::lowercase(history@[j].peer_name@) == text::ascii_lower(
                    history@[j].peer_name@,
                ),
        decreases history@.len() - i,
    {
        let e: &HistoryEntry = &history[i];
        let file_name: String = text::lowercased(e.file_name.as_str());
        let peer_name: String = text::lowercased(e.peer_name.as_str());
        let ghost before = entries(r@);
        proof {
            reveal(Seq::filter);
            assert(all.take(i + 1).drop_last() =~= all.take(i as int));
            assert(all.take(i + 1).last() == e@);
        }
        if matches_filter(file_name.as_str(), peer_name.as_str(), lower.as_str()) {
            let copy: HistoryEntry = e.clone();
            r.push(copy);
            assert(entries(r@) =~= before.push(e@));
        }
        i = i + 1;
    }
    assert(all.take(i as int) =~= all);
    proof {
        if filter@.len() == 0 {
            assert(lower@.len() == 0);
            order::filtering_keeps(all, keeps);
            order::keeping_all_changes_nothing(all.filter(keeps), all, keeps);
        }
    }
    r
}

/// How a row of the history is drawn.
#[derive(Clone, Copy, Debug, PartialEq, Eq, Structural)]
pub enum RowStyle {
    /// A received file that is no longer there.
    Missing,
    Failed,
    Plain,
}

/// A mark in a row of the history.
#[derive(Clone, Copy, Debug, PartialEq, Eq, Structural)]
pub enum Badge {
    Failed,
    Deleted,
    Remote,
    Local,
}

impl Badge {
    pub open spec fn text(self) -> Seq<char> {
        match self {
            Badge::Failed => "FAILED"@,
            Badge::Deleted => "DELETED"@,
            Badge::Remote => "REMOTE"@,
            Badge::Local => "LOCAL"@,
        }
    }

    /// What stands in the mark.
    pub fn label(self) -> (r: &'static str)
        ensures
            r@ == self.text(),
    {
        match self {
            Badge::Failed => "FAILED",
            Badge::Deleted => "DELETED",
            Badge::Remote => "REMOTE",
            Badge::Local => "LOCAL",
        }
    }
}

/// How the row of an entry is drawn; `exists` says whether its file is there.
pub fn row_style(entry: &HistoryEntry, exists: bool) -> (r: RowStyle)
    ensures
        r == (if !exists && entry.direction is Received {
            RowStyle::Missing
        } else if !entry.success {
            RowStyle::Failed
        } else {
            RowStyle::Plain
        }),
{
    if !exists && entry.direction == TransferDir::Received {
        RowStyle::Missing
    } else if !entry.success {
        RowStyle::Failed
    } else {
        RowStyle::Plain
    }
}

/// The marks in the row of an entry.
pub open spec fn badges_of(e: Entry, exists: bool) -> Seq<Badge> {
    (if e.success {
        seq![]
    } else {
        seq![Badge::Failed]
    }) + (if !exists && e.direction is Received {
        seq![Badge::Deleted]
    } else {
        seq![]
    }) + (if e.transfer_type is Remote {
        seq![Badge::Remote]
    } else {
        seq![Badge::Local]
    })
}

/// The marks in the row of an entry; `exists` says whether its file is there.
pub fn badges(entry: &HistoryEntry, exists: bool) -> (r: Vec<Badge>)
    ensures
        r@ == badges_of(entry@, exists),
{
    let mut r: Vec<Badge> = Vec::new();
    if !entry.success {
        r.push(Badge::Failed);
    }
    if !exists && entry.direction == TransferDir::Received {
        r.push(Badge::Deleted);
    }
    if entry.transfer_type == TransferType::Remote {
        r.push(Badge::Remote);
    } else {
        r.push(Badge::Local);
    }
    assert(r@ =~= badges_of(entry@, exists));
    r
}

/// Whether the folder of an entry's file can be opened: it was received, and is there.
pub fn can_open_folder(entry: &HistoryEntry, exists: bool) -> (r: bool)
    ensures
        r == (entry.direction is Received && exists && entry.file_path is Some),
{
    entry.direction == TransferDir::Received && exists && entry.file_path.is_some()
}

/// Who the file went to, or came from, and its size.
pub fn entry_line(entry: &HistoryEntry) -> (r: String)
    ensures
        r@ == (if entry.direction is Sent {
            "to "@
        } else {
            "from "@
        }) + entry.peer_name@ + "  ·  "@ + numbers::size_text(entry.file_size as nat),
{
    let mut s: String = if entry.direction == TransferDir::Sent {
        "to ".to_string()
    } else {
        "from ".to_string()
    };
    s.append(entry.peer_name.as_str());
    s.append("  ·  ");
    let size: String = numbers::size_string(entry.file_size);
    s.append(size.as_str());
    s
}

// ---- paths ----

/// Where the part of a path that is kept begins, in bytes.
pub open spec fn cut(len: int, keep: int) -> int {
    if len < keep {
        0
    } else {
        len - keep
    }
}

/// A path of at most `limit` bytes, or its last `keep` bytes behind a mark.
pub open spec fn shortened(path: Seq<char>, limit: nat, keep: nat) -> Seq<char> {
    let b = vstd::utf8::encode_utf8(path);
    if b.len() <= limit {
        path
    } else {
        "…"@ + vstd::utf8::decode_utf8(b.skip(cut(b.len() as int, keep as int)))
    }
}

/// Whether a path can be cut where [`shorten_path`] cuts it.
pub open spec fn can_shorten(path: Seq<char>, limit: nat, keep: nat) -> bool {
    let b = vstd::utf8::encode_utf8(path);
    b.len() > limit ==> vstd::utf8::is_char_boundary(b, cut(b.len() as int, keep as int))
}

/// Whether a path can be cut between two characters.
pub fn shortenable(path: &str, limit: usize, keep: usize) -> (r: bool)
    ensures
        r == can_shorten(path@, limit as nat, keep as nat),
{
    let n: usize = path.as_bytes().len();
    let from: usize = if n < keep {
        0
    } else {
        n - keep
    };
    n <= limit || path.is_char_boundary(from)
}

/// Shortens a path for display.
pub fn shorten_path(path: &str, limit: usize, keep: usize) -> (r: String)
    requires
        can_shorten(path@, limit as nat, keep as nat),
    ensures
        r@ == shortened(path@, limit as nat, keep as nat),
{
    let n: usize = path.as_bytes().len();
    if n <= limit {
        return path.to_string();
    }
    let from: usize = if n < keep {
        0
    } else {
        n - keep
    };
    let (_, tail): (&str, &str) = path.split_at(from);
    proof {
        let b = vstd::utf8::encode_utf8(path@);
        vstd::utf8::encode_utf8_decode_utf8(tail@);
        assert(b.subrange(from as int, n as int) =~= b.skip(from as int));
    }
    let mut r: String = "…".to_string();
    r.append(tail);
    r
}

/// The name of the folder that is kept in step, for display.
pub fn folder_label(folder: Option<&String>, style: Style) -> (r: String)
    ensures
        r@ == (match folder {
            Some(f) => match paths::file_name(f@, style) {
                Some(n) => n,
                None => "None"@,
            },
            None => "None"@,
        }),
{
    match folder {
        Some(f) => match paths::name_of(f.as_str(), style) {
            Some(n) => text::string_of(&n),
            None => "None".to_string(),
        },
        None => "None".to_string(),
    }
}

/// Where the files go once the choice of a folder is taken back: with the downloads, else here.
pub fn reset_save_dir(download: Option<&str>) -> (r: String)
    ensures
        r@ == (match download {
            Some(d) => d@,
            None => "."@,
        }),
{
    match download {
        Some(d) => d.to_string(),
        None => ".".to_string(),
    }
}

/// Whether the choice of a folder can be taken back.
pub fn can_reset_save_dir(save_dir: &str, download: Option<&str>, style: Style) -> (r: bool)
    ensures
        r == !paths::are_same(
            save_dir@,
            match download {
                Some(d) => d@,
                None => "."@,
            },
            style,
        ),
{
    let plain: String = reset_save_dir(download);
    !paths::same_path(save_dir, plain.as_str(), style)
}

// ---- the queue ----

/// How a row of the queue is drawn.
#[derive(Clone, Copy, Debug, PartialEq, Eq, Structural)]
pub enum ItemStyle {
    Done,
    Failed,
    Sending,
    Waiting,
}

/// How the row of a queued file is drawn.
pub fn item_style(item: &QueueItem) -> (r: ItemStyle)
    ensures
        r == (if item@.done() {
            ItemStyle::Done
        } else if item@.failed() {
            ItemStyle::Failed
        } else if item@.active() {
            ItemStyle::Sending
        } else {
            ItemStyle::Waiting
        }),
{
    if item.is_done() {
        ItemStyle::Done
    } else if item.is_failed() {
        ItemStyle::Failed
    } else if item.is_active() {
        ItemStyle::Sending
    } else {
        ItemStyle::Waiting
    }
}

// ---- devices ----

/// How quick a device answers.
#[derive(Clone, Copy, Debug, PartialEq, Eq, Structural)]
pub enum Pace {
    Quick,
    Fair,
    Slow,
    Unknown,
}

/// How quick a device answers, by the milliseconds it takes.
pub fn pace(latency: Option<u32>) -> (r: Pace)
    ensures
        r == (match latency {
            Some(ms) => if ms < 10 {
                Pace::Quick
            } else if ms < 50 {
                Pace::Fair
            } else {
                Pace::Slow
            },
            None => Pace::Unknown,
        }),
{
    match latency {
        Some(ms) => if ms < 10 {
            Pace::Quick
        } else if ms < 50 {
            Pace::Fair
        } else {
            Pace::Slow
        },
        None => Pace::Unknown,
    }
}

/// The milliseconds that a device takes to answer, for display.
pub fn latency_label(latency: Option<u32>) -> (r: String)
    ensures
        r@ == (match latency {
            Some(ms) => numbers::decimal(ms as nat) + " ms"@,
            None => "—"@,
        }),
{
    match latency {
        Some(ms) => {
            let mut s: String = numbers::decimal_of(ms as u64);
            s.append(" ms");
            s
        },
        None => "—".to_string(),
    }
}

/// The first letter of a name, or a question mark.
pub open spec fn initial(name: Seq<char>) -> Seq<char> {
    if name.len() == 0 {
        seq!['?']
    } else {
        seq![name[0]]
    }
}

/// The first letter of a device's name as a capital letter, or a question mark.
pub fn avatar_letter(name: &str) -> (r: String)
    ensures
        r@ == text::uppercase(initial(name@)),
        text::is_ascii(name@) ==> r@ == text::ascii_upper(initial(name@)),
{
    let v: Vec<char> = text::chars_of(name);
    let mut first: String = String::new();
    if v.len() == 0 {
        first.push('?');
    } else {
        first.push(v[0]);
    }
    assert(first@ =~= initial(name@));
    text::uppercased(first.as_str())
}

/// What stands below a device's name.
pub fn device_note(remote: bool, recent: bool) -> (r: &'static str)
    ensures
        r@ == (if remote {
            "Remote device"@
        } else if recent {
            "Recently connected"@
        } else {
            ""@
        }),
{
    if remote {
        "Remote device"
    } else if recent {
        "Recently connected"
    } else {
        ""
    }
}

/// What stands above the devices on the local network.
#[derive(Clone, Copy, Debug, PartialEq, Eq, Structural)]
pub struct LocalBar {
    /// Whether the search and the filter are offered: only where a device is listed.
    pub search: bool,
    /// How many devices are listed, once a search has ended.
    pub count: Option<usize>,
}

/// How many devices on the local network are listed.
pub open spec fn local_devices(s: Seq<Device>) -> nat {
    s.filter(|d: Device| d.kind is Local).len()
}

/// What stands above the devices on the local network.
pub fn local_bar(book: &PeerBook) -> (r: LocalBar)
    ensures
        ({
            let n = local_devices(book@.peers);
            &&& r.search == (n > 0)
            &&& match r.count {
                Some(c) => n > 0 && book.scan_state is Done && c == n,
                None => n == 0 || book.scan_state !is Done,
            }
        }),
{
    let n: usize = book.local_count();
    let count: Option<usize> = if n > 0 && book.scan_state == ScanState::Done {
        Some(n)
    } else {
        None
    };
    LocalBar { search: n > 0, count }
}

/// What the page on the connected device shows.
#[derive(Debug)]
pub enum DevicePanel {
    Connected { name: String, addr: String },
    /// The device that was chosen last, and is not there.
    LastUsed { name: String, addr: String },
    NoDevice,
}

/// What the page on the connected device shows.
pub fn device_panel(book: &PeerBook) -> (r: DevicePanel)
    ensures
        match r {
            DevicePanel::Connected { name, addr } => {
                &&& book@.chosen() matches Some(d)
                &&& d.name == name@
                &&& d.addr == addr@
            },
            DevicePanel::LastUsed { name, addr } => {
                &&& book@.chosen() is None
                &&& book.saved_peer_name@.len() > 0
                &&& name@ == book.saved_peer_name@
                &&& addr@ == book.saved_peer_addr@
            },
            DevicePanel::NoDevice => book@.chosen() is None && book.saved_peer_name@.len() == 0,
        },
{
    proof {
        reveal_strlit("");
        assert(book.saved_peer_name@.len() == 0 ==> book.saved_peer_name@ =~= ""@);
    }
    match book.selected_peer() {
        Some(p) => DevicePanel::Connected { name: p.name.clone(), addr: p.addr.clone() },
        None => if text::same_text(book.saved_peer_name.as_str(), "") {
            DevicePanel::NoDevice
        } else {
            DevicePanel::LastUsed {
                name: book.saved_peer_name.clone(),
                addr: book.saved_peer_addr.clone(),
            }
        },
    }
}

// ---- the relay ----

/// What the bar above the page on remote devices shows.
#[derive(Clone, Copy, Debug, PartialEq, Eq, Structural)]
pub enum RelayBar {
    Online,
    Connecting,
    Offline,
}

/// What the bar above the page on remote devices shows.
pub fn relay_bar(state: &RelayState) -> (r: RelayBar)
    ensures
        r == (match state@ {
            LinkState::Online(_) => RelayBar::Online,
            LinkState::Paired(_) => RelayBar::Online,
            LinkState::Connecting => RelayBar::Connecting,
            _ => RelayBar::Offline,
        }),
{
    match state {
        RelayState::Online { .. } => RelayBar::Online,
        RelayState::Paired { .. } => RelayBar::Online,
        RelayState::Connecting => RelayBar::Connecting,
        _ => RelayBar::Offline,
    }
}

/// What the page on remote devices shows.
#[derive(Debug)]
pub enum RemotePanel {
    /// The choice to go online or to enter a code.
    Choice {
        /// Why the last try failed.
        error: Option<String>,
        /// Whether the choice is offered, or that there is no internet is told.
        offered: bool,
        /// A message, and whether it tells of an error.
        message: Option<(String, bool)>,
    },
    Connecting,
    /// The code under which this device waits.
    Code(String),
    /// The name of the other device.
    Paired(String),
}

impl RemotePanel {
    /// Whether this is what the page shows: a message only where there is no internet.
    pub open spec fn shows(self, s: link::State) -> bool {
        match self {
            RemotePanel::Choice { error, offered, message } => {
                &&& match s.state {
                    LinkState::Offline => error is None,
                    LinkState::Error(e) => text_in(error) == Some(e),
                    _ => false,
                }
                &&& offered == s.is_online
                &&& notice(message) == if s.is_online {
                    None
                } else {
                    s.message
                }
            },
            RemotePanel::Connecting => s.state is Connecting,
            RemotePanel::Code(code) => s.state == LinkState::Online(code@),
            RemotePanel::Paired(name) => s.state == LinkState::Paired(name@),
        }
    }
}

fn copy_notice(m: &Option<(String, bool)>) -> (r: Option<(String, bool)>)
    ensures
        notice(r) == notice(*m),
{
    match m {
        Some((s, e)) => Some((s.clone(), *e)),
        None => None,
    }
}

/// What the page on remote devices shows.
pub fn remote_panel(link: &Link) -> (r: RemotePanel)
    ensures
        r.shows(link@),
{
    let error: Option<String> = match &link.state {
        RelayState::Connecting => {
            return RemotePanel::Connecting;
        },
        RelayState::Online { code } => {
            return RemotePanel::Code(code.clone());
        },
        RelayState::Paired { peer_name } => {
            return RemotePanel::Paired(peer_name.clone());
        },
        RelayState::Offline => None,
        RelayState::Error(e) => Some(e.clone()),
    };
    let message: Option<(String, bool)> = if link.is_online {
        None
    } else {
        copy_notice(&link.message)
    };
    RemotePanel::Choice { error, offered: link.is_online, message }
}

// ---- folders kept in step ----

/// What the page says while no device is chosen.
pub fn sync_warning(relay: bool, saved_name: &str) -> (r: String)
    ensures
        r@ == (if relay {
            "No remote connection active. Connect via remote mode first."@
        } else if saved_name@.len() > 0 {
            saved_name@ + " is not available  ·  scan to reconnect"@
        } else {
            "Select a device on the Send tab first"@
        }),
{
    proof {
        reveal_strlit("");
        assert(saved_name@.len() == 0 ==> saved_name@ =~= ""@);
    }
    if relay {
        "No remote connection active. Connect via remote mode first.".to_string()
    } else if !text::same_text(saved_name, "") {
        let mut s: String = saved_name.to_string();
        s.append(" is not available  ·  scan to reconnect");
        s
    } else {
        "Select a device on the Send tab first".to_string()
    }
}

/// The line below the folder's name: its path, and how many files have gone.
pub fn folder_line(path: &str, sent: usize, relay: bool) -> (r: String)
    ensures
        r@ == path@ + "  ·  "@ + count_text(sent as nat, "file"@) + (if relay {
            " synced remotely"@
        } else {
            " synced"@
        }),
{
    let mut s: String = path.to_string();
    s.append("  ·  ");
    let files: String = count_label(sent, "file");
    s.append(files.as_str());
    if relay {
        s.append(" synced remotely");
    } else {
        s.append(" synced");
    }
    s
}

/// The action that the page offers at its top.
#[derive(Clone, Copy, Debug, PartialEq, Eq, Structural)]
pub enum SyncAction {
    Stop,
    Start,
    Nothing,
}

/// The action that the page offers: to stop what runs, or to start where a device and a folder are
/// chosen.
pub fn sync_action(active: bool, device: bool, folder: bool) -> (r: SyncAction)
    ensures
        r == (if active {
            SyncAction::Stop
        } else if device && folder {
            SyncAction::Start
        } else {
            SyncAction::Nothing
        }),
{
    if active {
        SyncAction::Stop
    } else if device && folder {
        SyncAction::Start
    } else {
        SyncAction::Nothing
    }
}

// ---- what the calls give ----

/// An entry is shown exactly where its file's name or the device's name, in small letters, holds
/// the filter in small letters, whatever else is known of it. What is shown keeps its order.
pub proof fn entries_are_shown_by_their_names(
    history: &Vec<HistoryEntry>,
    filter: &str,
    r: Vec<HistoryEntry>,
)
    requires
        call_ensures(shown_entries, (history, filter), r),
    ensures
        order::keeps(
            entries(r@),
            entries(history@),
            |e: Entry|
                text::contains_text(text::lowercase(e.file_name), text::lowercase(filter@))
                    || text::contains_text(text::lowercase(e.peer_name), text::lowercase(filter@)),
        ),
        forall|i: int|
            0 <= i < history@.len() && (text::contains_text(
                text::lowercase((#[trigger] history@[i]).file_name@),
                text::lowercase(filter@),
            ) || text::contains_text(
                text::lowercase(history@[i].peer_name@),
                text::lowercase(filter@),
            )) ==> entries(r@).contains(history@[i]@),
        forall|i: int|
            0 <= i < r@.len() ==> entries(history@).contains((#[trigger] r@[i])@) && (
            text::contains_text(text::lowercase(r@[i].file_name@), text::lowercase(filter@))
                || text::contains_text(text::lowercase(r@[i].peer_name@), text::lowercase(filter@))),
{
    let f = |e: Entry|
        is_shown(
            text::lowercase(e.file_name),
            text::lowercase(e.peer_name),
            text::lowercase(filter@),
        );
    let g = |e: Entry|
        text::contains_text(text::lowercase(e.file_name), text::lowercase(filter@))
            || text::contains_text(text::lowercase(e.peer_name), text::lowercase(filter@));
    assert forall|e: Entry| #[trigger] f(e) == g(e) by {
        if text::lowercase(filter@).len() == 0 {
            text::nothing_is_everywhere(text::lowercase(e.file_name), text::lowercase(filter@));
        }
    }
    assert(f =~= g);
    let s = entries(history@);
    let t = entries(r@);
    order::filtering_keeps(s, g);
    order::kept_members(t, s, g);
    assert forall|i: int|
        0 <= i < history@.len() && (text::contains_text(
            text::lowercase((#[trigger] history@[i]).file_name@),
            text::lowercase(filter@),
        ) || text::contains_text(
            text::lowercase(history@[i].peer_name@),
            text::lowercase(filter@),
        )) implies t.contains(history@[i]@) by {
        assert(g(s[i]));
    }
    assert forall|i: int| 0 <= i < r@.len() implies s.contains((#[trigger] r@[i])@) && (
    text::contains_text(text::lowercase(r@[i].file_name@), text::lowercase(filter@))
        || text::contains_text(text::lowercase(r@[i].peer_name@), text::lowercase(filter@))) by {
        assert(t[i] == r@[i]@);
        assert(g(t[i]));
    }
}

/// Under an empty filter the whole history is shown.
pub proof fn everything_is_shown(
    history: &Vec<HistoryEntry>,
    filter: &str,
    r: Vec<HistoryEntry>,
)
    requires
        call_ensures(shown_entries, (history, filter), r),
        filter@.len() == 0,
    ensures
        r@.len() == history@.len(),
        forall|i: int| 0 <= i < r@.len() ==> (#[trigger] r@[i])@ == history@[i]@,
{
    assert(entries(r@).len() == entries(history@).len());
    assert forall|i: int| 0 <= i < r@.len() implies (#[trigger] r@[i])@ == history@[i]@ by {
        assert(entries(r@)[i] == entries(history@)[i]);
    }
}

/// An entry with names in ASCII is shown under a part of one of them in ASCII, in capital or small
/// letters.
pub proof fn parts_of_names_are_found(
    history: &Vec<HistoryEntry>,
    filter: &str,
    r: Vec<HistoryEntry>,
    i: int,
)
    requires
        call_ensures(shown_entries, (history, filter), r),
        0 <= i < history@.len(),
        text::is_ascii(filter@),
        text::is_ascii(history@[i].file_name@),
        text::is_ascii(history@[i].peer_name@),
    ensures
        text::contains_text(text::ascii_lower(history@[i].file_name@), text::ascii_lower(filter@))
            ==> entries(r@).contains(history@[i]@),
        text::contains_text(text::ascii_lower(history@[i].peer_name@), text::ascii_lower(filter@))
            ==> entries(r@).contains(history@[i]@),
{
    entries_are_shown_by_their_names(history, filter, r);
}

/// A name is found by any part of it, and by nothing that is in neither name.
pub proof fn names_are_found_by_their_parts(
    file_name: &str,
    peer_name: &str,
    filter: &str,
    r: bool,
)
    requires
        call_ensures(matches_filter, (file_name, peer_name, filter), r),
    ensures
        r <==> (exists|a: Seq<char>, b: Seq<char>| #[trigger] (a + filter@ + b) == file_name@) || (
        exists|a: Seq<char>, b: Seq<char>| #[trigger] (a + filter@ + b) == peer_name@),
{
    if filter@.len() == 0 {
        text::nothing_is_everywhere(file_name@, filter@);
    }
    text::found_parts_are_there(file_name@, filter@);
    text::found_parts_are_there(peer_name@, filter@);
    if exists|a: Seq<char>, b: Seq<char>| #[trigger] (a + filter@ + b) == file_name@ {
        let (a, b) = choose|a: Seq<char>, b: Seq<char>| #[trigger]
            (a + filter@ + b) == file_name@;
        text::parts_are_found(a, filter@, b);
    }
    if exists|a: Seq<char>, b: Seq<char>| #[trigger] (a + filter@ + b) == peer_name@ {
        let (a, b) = choose|a: Seq<char>, b: Seq<char>| #[trigger]
            (a + filter@ + b) == peer_name@;
        text::parts_are_found(a, filter@, b);
    }
}

/// One more entry adds one file and its bytes to the total of its direction where it succeeded, and
/// nothing otherwise. Nothing gives nothing.
pub proof fn totals_add_up(
    history: &Vec<HistoryEntry>,
    more: &Vec<HistoryEntry>,
    direction: TransferDir,
    r: Option<Total>,
    s: Option<Total>,
)
    requires
        call_ensures(total, (history, direction), r),
        call_ensures(total, (more, direction), s),
        more@.len() > 0,
        history@ == more@.drop_last(),
    ensures
        history@.len() == 0 ==> r == Some(Total { files: 0, bytes: 0 }),
        r is Some && more@.last().success && more@.last().direction == direction ==> if r->0.bytes
            + more@.last().file_size <= u64::MAX {
            s is Some && s->0.files == r->0.files + 1 && s->0.bytes == r->0.bytes
                + more@.last().file_size
        } else {
            s is None
        },
        !more@.last().success || more@.last().direction != direction ==> r == s,
{
    let a = entries(history@);
    let b = entries(more@);
    assert(b.drop_last() =~= a);
    assert(b.last() == more@.last()@);
    assert(history@.len() == 0 ==> a =~= seq![]);
}

/// A number of things is said in the plural, but for one.
pub proof fn counts_are_said(n: usize, thing: &str, r: String)
    requires
        call_ensures(count_label, (n, thing), r),
    ensures
        n == 1 ==> r@ == seq!['1', ' '] + thing@,
        n != 1 ==> r@ == numbers::decimal(n as nat) + seq![' '] + thing@ + seq!['s'],
{
    reveal_strlit(" ");
    reveal_strlit("");
    reveal_strlit("s");
    if n == 1 {
        assert(numbers::decimal(1) =~= seq!['1']);
        assert(r@ =~= seq!['1', ' '] + thing@);
    } else {
        assert(r@ =~= numbers::decimal(n as nat) + seq![' '] + thing@ + seq!['s']);
    }
}

/// A row says by its style and its marks what became of a file: a received file that is not there
/// is marked so, one that failed too, and each by how it went.
pub proof fn rows_say_what_became(
    e: &HistoryEntry,
    exists: bool,
    style: RowStyle,
    marks: Vec<Badge>,
    open: bool,
)
    requires
        call_ensures(row_style, (e, exists), style),
        call_ensures(badges, (e, exists), marks),
        call_ensures(can_open_folder, (e, exists), open),
    ensures
        marks@.contains(Badge::Failed) <==> !e.success,
        marks@.contains(Badge::Deleted) <==> e.direction is Received && !exists,
        marks@.contains(Badge::Remote) <==> e.transfer_type is Remote,
        marks@.contains(Badge::Local) <==> !(e.transfer_type is Remote),
        !e.success ==> marks@[0] == Badge::Failed,
        marks@.last() == Badge::Remote || marks@.last() == Badge::Local,
        style is Missing <==> e.direction is Received && !exists,
        style is Plain <==> e.success && (!(e.direction is Received) || exists),
        open ==> style !is Missing && e.direction is Received && e.file_path is Some,
        e.direction is Received && exists && e.file_path is Some ==> open,
{
    let a: Seq<Badge> = if e.success {
        seq![]
    } else {
        seq![Badge::Failed]
    };
    let b: Seq<Badge> = if !exists && e.direction is Received {
        seq![Badge::Deleted]
    } else {
        seq![]
    };
    let last = if e.transfer_type is Remote {
        Badge::Remote
    } else {
        Badge::Local
    };
    let m = marks@;
    assert(m =~= (a + b).push(last));
    assert(m[m.len() - 1] == last);
    if !e.success {
        assert(m[0] == Badge::Failed);
    }
    if !exists && e.direction is Received {
        assert(m[a.len() as int] == Badge::Deleted);
    }
}

/// A path that fits stays; of a longer one the end is kept behind a mark.
pub proof fn ends_of_paths_are_kept(path: &str, limit: usize, keep: usize, r: String)
    requires
        call_ensures(shorten_path, (path, limit, keep), r),
        can_shorten(path@, limit as nat, keep as nat),
        keep <= limit,
    ensures
        vstd::utf8::encode_utf8(path@).len() <= limit ==> r@ == path@,
        vstd::utf8::encode_utf8(path@).len() > limit ==> r@ == "…"@ + vstd::utf8::decode_utf8(
            vstd::utf8::encode_utf8(path@).subrange(
                vstd::utf8::encode_utf8(path@).len() - keep,
                vstd::utf8::encode_utf8(path@).len() as int,
            ),
        ),
{
    let b = vstd::utf8::encode_utf8(path@);
    if b.len() > limit {
        assert(b.skip(b.len() - keep) =~= b.subrange(b.len() - keep, b.len() as int));
    }
}

/// The rows of the queue are drawn by the state of their files.
pub proof fn rows_of_the_queue(item: &QueueItem, r: ItemStyle)
    requires
        call_ensures(item_style, (item,), r),
    ensures
        item.progress is None && item.error is None ==> r is Waiting,
        item.progress is None && item.error is Some ==> r is Failed,
        item.progress matches Some(s) ==> s.bytes == s.size ==> r is Done,
        r is Sending ==> item.progress is Some && item.error is None,
{
}

/// A quicker device is not said to be slower.
pub proof fn quicker_is_not_slower(a: u32, b: u32, r: Pace, s: Pace)
    requires
        call_ensures(pace, (Some(a),), r),
        call_ensures(pace, (Some(b),), s),
        a <= b,
    ensures
        s is Quick ==> r is Quick,
        r is Slow ==> s is Slow,
        r is Quick <==> a <= 9,
        s is Slow <==> b >= 50,
        !(r is Unknown),
{
}

/// The page on a device shows the one that is chosen, else the one that was chosen last.
pub proof fn the_chosen_device_is_shown(book: &PeerBook, r: DevicePanel)
    requires
        call_ensures(device_panel, (book,), r),
    ensures
        book.selected matches Some(i) ==> i < book.peers@.len() ==> r is Connected
            && r->Connected_name@ == book.peers@[i as int].name@ && r->Connected_addr@
            == book.peers@[i as int].addr@,
        book.selected is None && book.saved_peer_name@.len() > 0 ==> r is LastUsed
            && r->LastUsed_name@ == book.saved_peer_name@ && r->LastUsed_addr@
            == book.saved_peer_addr@,
        book.selected is None && book.saved_peer_name@.len() == 0 ==> r is NoDevice,
{
    if book.selected is Some {
        let i = book.selected->0 as int;
        if i < book.peers@.len() {
            assert(book@.peers[i] == book.peers@[i]@);
        }
    }
}

/// The page on remote devices shows the state of the link.
pub proof fn the_link_is_shown(link: &Link, r: RemotePanel, bar: RelayBar)
    requires
        call_ensures(remote_panel, (link,), r),
        call_ensures(relay_bar, (&link.state,), bar),
    ensures
        link.state is Offline ==> r is Choice && r->Choice_error is None && bar is Offline,
        link.state matches RelayState::Error(e) ==> r is Choice && r->Choice_error is Some
            && r->Choice_error->0@ == e@ && bar is Offline,
        link.state is Connecting ==> r is Connecting && bar is Connecting,
        link.state matches RelayState::Online { code } ==> r is Code && r->Code_0@
            == code@ && bar is Online,
        link.state matches RelayState::Paired { peer_name } ==> r is Paired && r->Paired_0@
            == peer_name@ && bar is Online,
        r is Choice ==> r->offered == link.is_online,
        r is Choice && link.is_online ==> r->message is None,
{
}

/// What runs can be stopped; what does not can be started where a device and a folder are chosen.
pub proof fn actions_of_the_sync_page(active: bool, device: bool, folder: bool, r: SyncAction)
    requires
        call_ensures(sync_action, (active, device, folder), r),
    ensures
        r is Stop <==> active,
        r is Start <==> !active && device && folder,
{
}

/// Unread files are counted up to nine, and no badge is shown where there are none.
pub proof fn badges_count_to_nine(unread: usize, r: Option<String>)
    requires
        call_ensures(unread_badge, (unread,), r),
    ensures
        r is Some <==> unread > 0,
        1 <= unread <= 9 ==> r->0@ == numbers::decimal(unread as nat),
        unread > 9 ==> r->0@ == "9+"@,
{
}

/// A device goes by its name, and by its address where it has none.
pub proof fn devices_go_by_their_names(hostname: &str, ip: &str, r: &str)
    requires
        call_ensures(device_label, (hostname, ip), r),
    ensures
        hostname@.len() > 0 ==> r@ == hostname@,
        hostname@.len() == 0 ==> r@ == ip@,
{
}

/// A total is said with its size and its number of files; one entry with its direction, the other
/// device and its size.
pub proof fn totals_and_entries_are_said(
    t: Total,
    size: String,
    files: String,
    r: String,
    e: &HistoryEntry,
    bytes: String,
    line: String,
)
    requires
        call_ensures(numbers::size_string, (t.bytes,), size),
        call_ensures(count_label, (t.files, "file"), files),
        call_ensures(total_label, (t,), r),
        call_ensures(numbers::size_string, (e.file_size,), bytes),
        call_ensures(entry_line, (e,), line),
    ensures
        r@ == size@ + " · "@ + files@,
        e.direction is Sent ==> line@ == "to "@ + e.peer_name@ + "  ·  "@ + bytes@,
        e.direction is Received ==> line@ == "from "@ + e.peer_name@ + "  ·  "@ + bytes@,
{
}

/// A folder goes by the last part of its path.
pub proof fn folders_go_by_their_names(folder: &String, style: Style, r: String, none: String)
    requires
        call_ensures(folder_label, (Some(folder), style), r),
        call_ensures(folder_label, (None::<&String>, style), none),
    ensures
        paths::file_name(folder@, style) is Some ==> r@ == paths::name_or_empty(folder@, style),
        paths::file_name(folder@, style) is None ==> r@ == "None"@,
        none@ == "None"@,
{
}

/// Once the choice of a folder is taken back, there is nothing left to take back.
pub proof fn resetting_is_final(
    download: Option<&str>,
    style: Style,
    dir: String,
    now: &str,
    again: bool,
)
    requires
        call_ensures(reset_save_dir, (download,), dir),
        now@ == dir@,
        call_ensures(can_reset_save_dir, (now, download, style), again),
    ensures
        !again,
        download matches Some(d) ==> dir@ == d@,
        download is None ==> dir@ == "."@,
{
    paths::paths_lead_to_themselves(now@, style);
}

/// Another folder than the one for downloads can be taken back.
pub proof fn other_folders_can_be_reset(dir: &str, download: &str, style: Style, r: bool)
    requires
        call_ensures(can_reset_save_dir, (dir, Some(download), style), r),
    ensures
        r <==> !paths::are_same(dir@, download@, style),
        paths::is_plain(dir@, style) && paths::is_plain(download@, style) ==> (r <==> dir@
            != download@),
{
    if paths::is_plain(dir@, style) && paths::is_plain(download@, style) {
        paths::plain_names_differ(dir@, download@, style);
    }
}

/// The time that an answer took is said in milliseconds.
pub proof fn answers_are_timed(ms: u32, r: String, none: String)
    requires
        call_ensures(latency_label, (Some(ms),), r),
        call_ensures(latency_label, (None::<u32>,), none),
    ensures
        r@ == numbers::decimal(ms as nat) + " ms"@,
        none@ == "—"@,
{
}

/// The letter of a device is the first one of its name, as a capital.
pub proof fn letters_are_initials(name: &str, r: String)
    requires
        call_ensures(avatar_letter, (name,), r),
        text::is_ascii(name@),
    ensures
        r@.len() == 1,
        name@.len() == 0 ==> r@[0] == '?',
        name@.len() > 0 ==> r@ == text::ascii_upper(name@.take(1)),
{
    if name@.len() > 0 {
        assert(name@.take(1) =~= seq![name@[0]]);
    }
}

/// Devices of the local network are counted once a search has ended, where there are any.
pub proof fn local_devices_are_shown(book: &PeerBook, n: usize, r: LocalBar)
    requires
        call_ensures(PeerBook::local_count, (book,), n),
        call_ensures(local_bar, (book,), r),
    ensures
        r.search <==> n > 0,
        r.count is Some <==> n > 0 && book.scan_state is Done,
        r.count is Some ==> r.count->0 == n,
{
}

/// While no device is chosen, the page names the one that was chosen last, where there is one.
pub proof fn missing_devices_are_named(name: &str, r: String, remote: String)
    requires
        call_ensures(sync_warning, (false, name), r),
        call_ensures(sync_warning, (true, name), remote),
    ensures
        name@.len() > 0 ==> text::starts_with(r@, name@),
        name@.len() == 0 ==> r@ == "Select a device on the Send tab first"@,
        remote@ == "No remote connection active. Connect via remote mode first."@,
{
    text::parts_are_found(seq![], name@, " is not available  ·  scan to reconnect"@);
}

/// The line of a folder begins with its path and says how many files have gone.
pub proof fn folders_are_counted(path: &str, sent: usize, relay: bool, n: String, r: String)
    requires
        call_ensures(count_label, (sent, "file"), n),
        call_ensures(folder_line, (path, sent, relay), r),
    ensures
        !relay ==> r@ == path@ + "  ·  "@ + n@ + " synced"@,
        relay ==> r@ == path@ + "  ·  "@ + n@ + " synced remotely"@,
{
}

/// A device is noted as remote, else as one that was connected lately, else not at all.
pub proof fn devices_are_noted(remote: bool, recent: bool, r: &'static str)
    requires
        call_ensures(device_note, (remote, recent), r),
    ensures
        remote ==> r@ == "Remote device"@,
        !remote && recent ==> r@ == "Recently connected"@,
        !remote && !recent ==> r@.len() == 0,
{
    reveal_strlit("");
}

} // verus!
