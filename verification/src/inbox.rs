//! The files that have been received.
use vstd::prelude::*;

use crate::history::{HistoryEntry, TransferDir, TransferType, copy_option, text_in};
use crate::offer::Offer;
use crate::order;
use crate::utils;

verus! {

/// A file that has been received.
#[derive(Debug)]
pub struct ReceivedFile {
    pub name: String,
    pub size: u64,
    pub path: String,
    /// Whether the user has been told.
    pub seen: bool,
    pub peer_name: String,
}

/// What is known of a file that has been received.
pub struct Arrival {
    pub name: Seq<char>,
    pub size: u64,
    pub path: Seq<char>,
    pub seen: bool,
    pub peer_name: Seq<char>,
}

impl View for ReceivedFile {
    type V = Arrival;

    open spec fn view(&self) -> Arrival {
        Arrival {
            name: self.name@,
            size: self.size,
            path: self.path@,
            seen: self.seen,
            peer_name: self.peer_name@,
        }
    }
}

impl ReceivedFile {
    /// An offered file that has arrived at `path`.
    pub fn new(offer: Offer, path: String) -> (r: ReceivedFile)
        ensures
            r@ == (Arrival {
                name: offer.name@,
                size: offer.size,
                path: path@,
                seen: false,
                peer_name: offer.peer@,
            }),
    {
        ReceivedFile { name: offer.name, size: offer.size, path, seen: false, peer_name: offer.peer }
    }
}

/// What is known of the files of a list.
pub open spec fn arrivals(v: Seq<ReceivedFile>) -> Seq<Arrival> {
    Seq::new(v.len(), |i: int| v[i]@)
}

/// The files that have been received, and what the receiving side is to do with new ones.
pub struct RecvState {
    pub files: Vec<ReceivedFile>,
    pub error: Option<String>,
    pub recv_bytes: u64,
    pub recv_files: u32,
    pub notify_on_receive: bool,
    pub auto_open_folder: bool,
    pub save_dir: Option<String>,
}

/// The state of the receiving side.
pub struct Inbox {
    pub files: Seq<Arrival>,
    pub error: Option<Seq<char>>,
    pub recv_bytes: u64,
    pub recv_files: u32,
    pub notify_on_receive: bool,
    pub auto_open_folder: bool,
    pub save_dir: Option<Seq<char>>,
}

impl View for RecvState {
    type V = Inbox;

    open spec fn view(&self) -> Inbox {
        Inbox {
            files: arrivals(self.files@),
            error: text_in(self.error),
            recv_bytes: self.recv_bytes,
            recv_files: self.recv_files,
            notify_on_receive: self.notify_on_receive,
            auto_open_folder: self.auto_open_folder,
            save_dir: text_in(self.save_dir),
        }
    }
}

impl Inbox {
    /// Whether the counters can take a file of `size` bytes.
    pub open spec fn has_room(self, size: u64) -> bool {
        self.recv_bytes + size <= u64::MAX && self.recv_files < u32::MAX
    }

    /// Once a file has been received.
    pub open spec fn with(self, f: Arrival) -> Inbox {
        Inbox {
            files: self.files.push(f),
            recv_bytes: (self.recv_bytes + f.size) as u64,
            recv_files: (self.recv_files + 1) as u32,
            ..self
        }
    }
}

/// A file of which the user is told.
#[derive(Debug)]
pub struct Announcement {
    pub name: String,
    pub path: String,
}

/// The names and paths of files of which the user is told.
pub open spec fn announced(v: Seq<Announcement>) -> Seq<(Seq<char>, Seq<char>)> {
    Seq::new(v.len(), |i: int| (v[i].name@, v[i].path@))
}

/// The names and paths of those of the first `n` files that the user has not been told of.
pub open spec fn unseen(s: Seq<Arrival>, n: nat) -> Seq<(Seq<char>, Seq<char>)>
    decreases n,
{
    if n == 0 {
        seq![]
    } else {
        let before = unseen(s, (n - 1) as nat);
        if s[n - 1].seen {
            before
        } else {
            before.push((s[n - 1].name, s[n - 1].path))
        }
    }
}

/// The files, all of them told of.
pub open spec fn all_seen(s: Seq<Arrival>) -> Seq<Arrival> {
    s.map_values(|a: Arrival| Arrival { seen: true, ..a })
}

impl RecvState {
    /// A receiving side that has received nothing.
    pub fn new(notify_on_receive: bool, auto_open_folder: bool, save_dir: &Option<String>) -> (r:
        RecvState)
        ensures
            r@ == (Inbox {
                files: seq![],
                error: None,
                recv_bytes: 0,
                recv_files: 0,
                notify_on_receive,
                auto_open_folder,
                save_dir: text_in(*save_dir),
            }),
    {
        let r: RecvState = RecvState {
            files: Vec::new(),
            error: None,
            recv_bytes: 0,
            recv_files: 0,
            notify_on_receive,
            auto_open_folder,
            save_dir: copy_option(save_dir),
        };
        assert(r@.files =~= seq![]);
        r
    }

    /// Whether the counters can take a file of `size` bytes.
    pub fn accepts(&self, size: u64) -> (r: bool)
        ensures
            r == self@.has_room(size),
    {
        size <= u64::MAX - self.recv_bytes && self.recv_files < u32::MAX
    }

    /// Takes a file that has been received; whether its folder is to be opened.
    pub fn receive(&mut self, file: ReceivedFile) -> (open: bool)
        requires
            old(self)@.has_room(file.size),
        ensures
            final(self)@ == old(self)@.with(file@),
            open == old(self).auto_open_folder,
    {
        let ghost before = self@.files;
        self.recv_bytes = self.recv_bytes + file.size;
        self.recv_files = self.recv_files + 1;
        self.files.push(file);
        assert(self@.files =~= before.push(file@));
        self.auto_open_folder
    }

    /// Keeps in mind why a file could not be received.
    pub fn fail(&mut self, error: String)
        ensures
            final(self)@ == (Inbox { error: Some(error@), ..old(self)@ }),
    {
        self.error = Some(error);
    }

    /// How many files the user has not been told of.
    pub fn unread_count(&self) -> (r: usize)
        ensures
            r == unseen(self@.files, self@.files.len()).len(),
    {
        let ghost s = self@.files;
        let mut n: usize = 0;
        let mut count: usize = 0;
        while n < self.files.len()
            invariant
                n <= self.files@.len(),
                s == self@.files,
                count == unseen(s, n as nat).len(),
                count <= n,
            decreases self.files@.len() - n,
        {
            assert(s[n as int] == self.files@[n as int]@);
            if !self.files[n].seen {
                count = count + 1;
            }
            n = n + 1;
        }
        count
    }

    /// Marks every file as told of.
    pub fn mark_all_seen(&mut self)
        ensures
            final(self)@ == (Inbox { files: all_seen(old(self)@.files), ..old(self)@ }),
    {
        let ghost s = self@.files;
        let mut i: usize = 0;
        while i < self.files.len()
            invariant
                i <= self.files@.len(),
                s == old(self)@.files,
                self.files@.len() == s.len(),
                self@ == (Inbox { files: self@.files, ..old(self)@ }),
                forall|j: int|
                    0 <= j < i ==> (#[trigger] self.files@[j])@ == (Arrival {
                        seen: true,
                        ..s[j]
                    }),
                forall|j: int| i <= j < s.len() ==> (#[trigger] self.files@[j])@ == s[j],
            decreases self.files@.len() - i,
        {
            assert(self.files@[i as int]@ == s[i as int]);
            let f: ReceivedFile = ReceivedFile {
                name: self.files[i].name.clone(),
                size: self.files[i].size,
                path: self.files[i].path.clone(),
                seen: true,
                peer_name: self.files[i].peer_name.clone(),
            };
            self.files[i] = f;
            i = i + 1;
        }
        assert(self@.files =~= all_seen(s));
    }

    /// The files that the user is now told of; none where the user wants no notifications.
    pub fn announce(&mut self, notify: bool) -> (r: Vec<Announcement>)
        ensures
            final(self)@ == (Inbox {
                files: if notify {
                    all_seen(old(self)@.files)
                } else {
                    old(self)@.files
                },
                ..old(self)@
            }),
            announced(r@) == (if notify {
                unseen(old(self)@.files, old(self)@.files.len())
            } else {
                seq![]
            }),
    {
        let mut r: Vec<Announcement> = Vec::new();
        assert(announced(r@) =~= seq![]);
        if !notify {
            return r;
        }
        let ghost s = self@.files;
        let mut n: usize = 0;
        while n < self.files.len()
            invariant
                n <= self.files@.len(),
                *self == *old(self),
                s == self@.files,
                announced(r@) == unseen(s, n as nat),
            decreases self.files@.len() - n,
        {
            let ghost before = announced(r@);
            assert(s[n as int] == self.files@[n as int]@);
            if !self.files[n].seen {
                let a: Announcement = Announcement {
                    name: self.files[n].name.clone(),
                    path: self.files[n].path.clone(),
                };
                r.push(a);
                assert(announced(r@) =~= before.push((a.name@, a.path@)));
            }
            n = n + 1;
        }
        self.mark_all_seen();
        r
    }
}

/// The entry of the history for a file that has been received.
pub fn received_entry(now: u64, file: &ReceivedFile, transfer_type: TransferType) -> (r:
    HistoryEntry)
    ensures
        r@ == (crate::history::Entry {
            timestamp: now,
            direction: TransferDir::Received,
            file_name: file.name@,
            file_size: file.size,
            peer_name: file.peer_name@,
            success: true,
            error: None,
            transfer_type,
            file_path: Some(file.path@),
        }),
{
    HistoryEntry {
        timestamp: now,
        direction: TransferDir::Received,
        file_name: file.name.clone(),
        file_size: file.size,
        peer_name: file.peer_name.clone(),
        success: true,
        error: None,
        transfer_type,
        file_path: Some(file.path.clone()),
    }
}

/// What the notification of a file says that has been saved in `dir`.
pub fn received_notice(name: &str, dir: &str) -> (r: String)
    requires
        utils::can_truncate(name@, 45),
    ensures
        r@ == "'"@ + utils::truncated(name@, 45) + "' saved to "@ + dir@,
{
    let mut s: String = "'".to_string();
    s.append(utils::truncate_filename(name, 45).as_str());
    s.append("' saved to ");
    s.append(dir);
    s
}

// ---- laws ----

/// The user is told of every file once.
pub proof fn files_are_announced_once(s: Seq<Arrival>, n: nat)
    requires
        n <= s.len(),
    ensures
        unseen(all_seen(s), n) == Seq::<(Seq<char>, Seq<char>)>::empty(),
    decreases n,
{
    if n > 0 {
        files_are_announced_once(s, (n - 1) as nat);
    }
}

// ---- what the calls give ----

/// A file arrives under the name and with the size and the sender of its offer, and unseen.
pub proof fn files_arrive_as_offered(offer: Offer, path: String, r: ReceivedFile)
    requires
        call_ensures(ReceivedFile::new, (offer, path), r),
    ensures
        r.name@ == offer.name@,
        r.size == offer.size,
        r.path@ == path@,
        r.peer_name@ == offer.peer@,
        !r.seen,
{
}

/// A file that has been received is listed behind the others and counted with its bytes; its folder
/// is opened where that is wanted, and nothing else changes.
pub proof fn received_files_are_counted(s: &mut RecvState, file: ReceivedFile, open: bool)
    requires
        call_ensures(RecvState::receive, (s, file), open),
        old(s)@.has_room(file.size),
    ensures
        final(s).files@.len() == old(s).files@.len() + 1,
        forall|i: int|
            0 <= i < old(s).files@.len() ==> (#[trigger] final(s).files@[i])@ == old(s).files@[i]@,
        final(s).files@.last()@ == file@,
        final(s).recv_bytes == old(s).recv_bytes + file.size,
        final(s).recv_files == old(s).recv_files + 1,
        open == old(s).auto_open_folder,
        text_in(final(s).error) == text_in(old(s).error),
        final(s).notify_on_receive == old(s).notify_on_receive,
        final(s).auto_open_folder == old(s).auto_open_folder,
        text_in(final(s).save_dir) == text_in(old(s).save_dir),
{
    lemma_files(*old(s));
    lemma_files(*final(s));
}

proof fn lemma_files(s: RecvState)
    ensures
        s@.files.len() == s.files@.len(),
        forall|i: int| 0 <= i < s.files@.len() ==> s@.files[i] == (#[trigger] s.files@[i])@,
{
}

/// Why a file could not be received is kept; files and counters stay.
pub proof fn failures_are_kept(s: &mut RecvState, error: String)
    requires
        call_ensures(RecvState::fail, (s, error), ()),
    ensures
        final(s).error is Some,
        final(s).error->0@ == error@,
        arrivals(final(s).files@) == arrivals(old(s).files@),
        final(s).recv_bytes == old(s).recv_bytes,
        final(s).recv_files == old(s).recv_files,
{
}

/// Marking all files as seen changes nothing else of them, and leaves none unread.
pub proof fn seen_files_are_not_unread(s: &mut RecvState, after: &RecvState, unread: usize)
    requires
        call_ensures(RecvState::mark_all_seen, (s,), ()),
        after.files@ == final(s).files@,
        call_ensures(RecvState::unread_count, (after,), unread),
    ensures
        unread == 0,
        final(s).files@.len() == old(s).files@.len(),
        forall|i: int|
            0 <= i < old(s).files@.len() ==> {
                let (a, b) = (old(s).files@[i], #[trigger] final(s).files@[i]);
                &&& b.seen
                &&& b.name@ == a.name@
                &&& b.size == a.size
                &&& b.path@ == a.path@
                &&& b.peer_name@ == a.peer_name@
            },
        final(s).recv_bytes == old(s).recv_bytes,
        final(s).recv_files == old(s).recv_files,
{
    lemma_files(*old(s));
    lemma_files(*final(s));
    lemma_files(*after);
    assert(after@.files =~= final(s)@.files);
    files_are_announced_once(old(s)@.files, old(s)@.files.len());
}

proof fn lemma_unseen(s: Seq<Arrival>, n: nat)
    requires
        n <= s.len(),
    ensures
        unseen(s, n).len() <= n,
        unseen(s, n).len() == 0 <==> forall|i: int| 0 <= i < n ==> (#[trigger] s[i]).seen,
        unseen(s, n).len() == n <==> forall|i: int| 0 <= i < n ==> !(#[trigger] s[i]).seen,
        forall|i: int|
            0 <= i < n && !(#[trigger] s[i]).seen ==> unseen(s, n).contains((s[i].name, s[i].path)),
        forall|k: int|
            0 <= k < unseen(s, n).len() ==> exists|i: int|
                0 <= i < n && !(#[trigger] s[i]).seen && (s[i].name, s[i].path)
                    == #[trigger] unseen(s, n)[k],
    decreases n,
{
    if n > 0 {
        let m = (n - 1) as nat;
        let b = unseen(s, m);
        let u = unseen(s, n);
        lemma_unseen(s, m);
        assert forall|i: int| 0 <= i < n && !(#[trigger] s[i]).seen implies u.contains(
            (s[i].name, s[i].path),
        ) by {
            if i < m {
                assert(b.contains((s[i].name, s[i].path)));
                let k = choose|k: int| 0 <= k < b.len() && b[k] == (s[i].name, s[i].path);
                assert(u[k] == b[k]);
            } else {
                assert(u[b.len() as int] == (s[i].name, s[i].path));
            }
        }
        assert forall|k: int| 0 <= k < u.len() implies exists|i: int|
            0 <= i < n && !(#[trigger] s[i]).seen && (s[i].name, s[i].path) == #[trigger] u[k] by {
            if k < b.len() {
                assert(u[k] == b[k]);
                let i = choose|i: int|
                    0 <= i < m && !(#[trigger] s[i]).seen && (s[i].name, s[i].path) == b[k];
                assert(!s[i].seen);
            } else {
                assert(!s[m as int].seen);
            }
        }
    }
}

/// Files are unread until they are seen: none is where all have been seen, all are where none has.
pub proof fn unread_files_are_counted(s: &RecvState, r: usize)
    requires
        call_ensures(RecvState::unread_count, (s,), r),
    ensures
        r <= s.files@.len(),
        r == 0 <==> forall|i: int| 0 <= i < s.files@.len() ==> (#[trigger] s.files@[i]).seen,
        r == s.files@.len() <==> forall|i: int|
            0 <= i < s.files@.len() ==> !(#[trigger] s.files@[i]).seen,
{
    lemma_files(*s);
    lemma_unseen(s@.files, s@.files.len());
    let f = s@.files;
    if r > 0 {
        let i = choose|i: int| 0 <= i < f.len() && !(#[trigger] f[i]).seen;
        assert(!s.files@[i].seen);
    }
    if r < f.len() {
        let i = choose|i: int| 0 <= i < f.len() && (#[trigger] f[i]).seen;
        assert(s.files@[i].seen);
    }
}

/// Where notifications are wanted the user is told of each unseen file, by its name and path, and of
/// no other, and all are then seen. Where they are not, nothing is told and nothing changes.
#[verifier::rlimit(40)]
#[verifier::spinoff_prover]
pub proof fn unseen_files_are_announced(s: &mut RecvState, notify: bool, r: Vec<Announcement>)
    requires
        call_ensures(RecvState::announce, (s, notify), r),
    ensures
        !notify ==> r@.len() == 0,
        notify ==> forall|i: int|
            0 <= i < old(s).files@.len() && !(#[trigger] old(s).files@[i]).seen ==> exists|k: int|
                0 <= k < r@.len() && (#[trigger] r@[k]).name@ == old(s).files@[i].name@
                    && r@[k].path@ == old(s).files@[i].path@,
        forall|k: int|
            0 <= k < r@.len() ==> exists|i: int|
                0 <= i < old(s).files@.len() && !(#[trigger] old(s).files@[i]).seen && (
                #[trigger] r@[k]).name@ == old(s).files@[i].name@ && r@[k].path@
                    == old(s).files@[i].path@,
        final(s).files@.len() == old(s).files@.len(),
        forall|i: int|
            0 <= i < old(s).files@.len() ==> {
                let (a, b) = (old(s).files@[i], #[trigger] final(s).files@[i]);
                &&& b.seen == (notify || a.seen)
                &&& b.name@ == a.name@
                &&& b.size == a.size
                &&& b.path@ == a.path@
                &&& b.peer_name@ == a.peer_name@
            },
        final(s).recv_bytes == old(s).recv_bytes,
        final(s).recv_files == old(s).recv_files,
{
    lemma_files(*old(s));
    lemma_files(*final(s));
    let f = old(s)@.files;
    lemma_unseen(f, f.len());
    let u = announced(r@);
    assert(u.len() == r@.len());
    if notify {
        assert forall|i: int|
            0 <= i < old(s).files@.len() && !(#[trigger] old(s).files@[i]).seen implies exists|
            k: int,
        |
            0 <= k < r@.len() && (#[trigger] r@[k]).name@ == old(s).files@[i].name@ && r@[k].path@
                == old(s).files@[i].path@ by {
            assert(!f[i].seen);
            let k = choose|k: int| 0 <= k < u.len() && u[k] == (f[i].name, f[i].path);
            assert(r@[k].name@ == f[i].name);
        }
        assert forall|k: int| 0 <= k < r@.len() implies exists|i: int|
            0 <= i < old(s).files@.len() && !(#[trigger] old(s).files@[i]).seen && (
            #[trigger] r@[k]).name@ == old(s).files@[i].name@ && r@[k].path@
                == old(s).files@[i].path@ by {
            assert(u[k] == (r@[k].name@, r@[k].path@));
            let i = choose|i: int|
                0 <= i < f.len() && !(#[trigger] f[i]).seen && (f[i].name, f[i].path) == u[k];
            assert(!old(s).files@[i].seen);
        }
    }
}

/// A received file is kept in the history as received, with its name, size, sender and path.
pub proof fn received_files_are_entered(
    now: u64,
    file: &ReceivedFile,
    transfer_type: TransferType,
    r: HistoryEntry,
)
    requires
        call_ensures(received_entry, (now, file, transfer_type), r),
    ensures
        r.timestamp == now,
        r.direction is Received,
        r.file_name@ == file.name@,
        r.file_size == file.size,
        r.peer_name@ == file.peer_name@,
        r.success,
        r.error is None,
        r.transfer_type == transfer_type,
        r.file_path is Some,
        r.file_path->0@ == file.path@,
{
}

/// A new receiving side has received nothing and does what the settings say.
pub proof fn nothing_is_received_at_first(
    notify: bool,
    open: bool,
    dir: &Option<String>,
    r: RecvState,
)
    requires
        call_ensures(RecvState::new, (notify, open, dir), r),
    ensures
        r.files@.len() == 0,
        r.error is None,
        r.recv_bytes == 0,
        r.recv_files == 0,
        r.notify_on_receive == notify,
        r.auto_open_folder == open,
        text_in(r.save_dir) == text_in(*dir),
{
    lemma_files(r);
}

/// A file is accepted where the counters have room for it.
pub proof fn counters_have_room(s: &RecvState, size: u64, r: bool)
    requires
        call_ensures(RecvState::accepts, (s, size), r),
    ensures
        r <==> s.recv_bytes + size <= 0xffff_ffff_ffff_ffff && s.recv_files < 0xffff_ffff,
{
}

/// A notification names the file in quotes and the folder that it was saved in.
pub proof fn notifications_name_file_and_folder(name: &str, dir: &str, r: String)
    requires
        call_ensures(received_notice, (name, dir), r),
        vstd::utf8::encode_utf8(name@).len() <= 45,
    ensures
        r@ == "'"@ + name@ + "' saved to "@ + dir@,
{
}

/// Whether `kept` are the files of `s` that have not been seen, in their order, and `told` their
/// names and paths.
pub open spec fn tells_of(
    told: Seq<(Seq<char>, Seq<char>)>,
    s: Seq<Arrival>,
    kept: Seq<Arrival>,
) -> bool {
    &&& order::keeps(kept, s, |a: Arrival| !a.seen)
    &&& told.len() == kept.len()
    &&& forall|i: int|
        0 <= i < told.len() ==> (#[trigger] told[i]).0 == kept[i].name && told[i].1 == kept[i].path
}

proof fn lemma_unseen_kept(s: Seq<Arrival>, n: nat)
    requires
        n <= s.len(),
    ensures
        ({
            let kept = s.take(n as int).filter(|a: Arrival| !a.seen);
            &&& unseen(s, n).len() == kept.len()
            &&& forall|i: int|
                0 <= i < kept.len() ==> (#[trigger] unseen(s, n)[i]).0 == kept[i].name && unseen(
                    s,
                    n,
                )[i].1 == kept[i].path
        }),
    decreases n,
{
    reveal(Seq::filter);
    if n > 0 {
        let m = (n - 1) as nat;
        lemma_unseen_kept(s, m);
        assert(s.take(n as int).drop_last() =~= s.take(m as int));
        assert(s.take(n as int).last() == s[m as int]);
    }
}

/// The user is told of the unseen files in the order in which they came.
pub proof fn files_are_announced_in_order(s: &mut RecvState, r: Vec<Announcement>)
    requires
        call_ensures(RecvState::announce, (s, true), r),
    ensures
        exists|kept: Seq<Arrival>| tells_of(announced(r@), arrivals(old(s).files@), kept),
{
    let f = arrivals(old(s).files@);
    let keep = |a: Arrival| !a.seen;
    lemma_unseen_kept(f, f.len());
    assert(f.take(f.len() as int) =~= f);
    order::filtering_keeps(f, keep);
    assert(tells_of(announced(r@), f, f.filter(keep)));
}

} // verus!
