//! Folders that are kept in step with a device.
use vstd::prelude::*;

use crate::order;
use crate::paths;
use crate::peers::{Device, Peer};
use crate::text;
use crate::textmap::{texts_under, TextMap};

verus! {

/// How often a folder is looked at, in milliseconds.
pub const SYNC_POLL_MS: u64 = 2000;

/// The folder to keep in step with a device.
pub struct SyncJob {
    pub folder: String,
    pub peer_addr: String,
    pub peer_name: String,
    /// The files that have been sent, with the times of their last changes.
    pub file_mtimes: TextMap<u64>,
}

/// What is known of a folder to keep in step.
pub struct Job {
    pub folder: Seq<char>,
    pub peer_addr: Seq<char>,
    pub peer_name: Seq<char>,
    pub file_mtimes: Map<Seq<char>, u64>,
}

impl View for SyncJob {
    type V = Job;

    open spec fn view(&self) -> Job {
        Job {
            folder: self.folder@,
            peer_addr: self.peer_addr@,
            peer_name: self.peer_name@,
            file_mtimes: self.file_mtimes@,
        }
    }
}

pub open spec fn jobs(v: Seq<SyncJob>) -> Seq<Job> {
    Seq::new(v.len(), |i: int| v[i]@)
}

/// News of a folder that is kept in step.
#[derive(Debug)]
pub enum SyncMsg {
    FileFound { name: String },
    FileSent { name: String, path: String },
    FileError { name: String, error: String },
    FileSkipped { name: String },
}

// ---- which files are sent ----

/// What has been sent from a folder: the files with the times of their last changes.
pub struct Watch {
    pub mtimes: TextMap<u64>,
}

/// Whether the file at `path`, last changed at `mtime`, is to be sent: it has not been sent yet, or
/// has been changed since.
pub open spec fn is_new(sent: Map<Seq<char>, u64>, path: Seq<char>, mtime: u64) -> bool {
    !(sent.contains_key(path) && sent[path] >= mtime)
}

/// How the sending of a file ended.
#[derive(Debug)]
pub enum SyncResult {
    Sent,
    /// The device has the file already.
    Skipped,
    Failed(String),
}

impl Watch {
    pub open spec fn wf(self) -> bool {
        self.mtimes.wf()
    }

    /// A watch that has sent nothing.
    pub fn new() -> (r: Watch)
        ensures
            r.wf(),
            r.mtimes@ == Map::<Seq<char>, u64>::empty(),
    {
        Watch { mtimes: TextMap::new() }
    }

    /// Whether the file at `path`, last changed at `mtime`, is to be sent.
    pub fn wants(&self, path: &str, mtime: u64) -> (r: bool)
        requires
            self.wf(),
        ensures
            r == is_new(self.mtimes@, path@, mtime),
    {
        match self.mtimes.get(path) {
            Some(last) => *last < mtime,
            None => true,
        }
    }

    /// Notes how the sending of a file ended; one that failed is tried again.
    pub fn settle(&mut self, name: String, path: String, mtime: u64, result: SyncResult) -> (r:
        SyncMsg)
        requires
            old(self).wf(),
        ensures
            final(self).wf(),
            final(self).mtimes@ == (if result is Failed {
                old(self).mtimes@
            } else {
                old(self).mtimes@.insert(path@, mtime)
            }),
            match result {
                SyncResult::Sent => r == (SyncMsg::FileSent { name, path }),
                SyncResult::Skipped => r == (SyncMsg::FileSkipped { name }),
                SyncResult::Failed(error) => r == (SyncMsg::FileError { name, error }),
            },
    {
        match result {
            SyncResult::Sent => {
                self.mtimes.insert(path.clone(), mtime);
                SyncMsg::FileSent { name, path }
            },
            SyncResult::Skipped => {
                self.mtimes.insert(path, mtime);
                SyncMsg::FileSkipped { name }
            },
            SyncResult::Failed(error) => SyncMsg::FileError { name, error },
        }
    }
}

/// A file is sent once for each change: once it is sent or skipped it is not sent again with the
/// same or an earlier time of its last change, and it is with a later one. Other files are not
/// affected.
pub proof fn files_are_sent_once_per_change(
    sent: Map<Seq<char>, u64>,
    path: Seq<char>,
    mtime: u64,
    later: u64,
    other: Seq<char>,
)
    requires
        other != path,
    ensures
        is_new(sent.insert(path, mtime), path, later) <==> later > mtime,
        is_new(sent.insert(path, mtime), other, later) == is_new(sent, other, later),
{
}

// ---- the log ----

/// The log without its 50 oldest lines, where it has more than 100.
pub open spec fn capped(log: Seq<Seq<char>>) -> Seq<Seq<char>> {
    if log.len() > 100 {
        log.skip(50)
    } else {
        log
    }
}

/// The line that says that a file is being sent.
pub open spec fn sending_line(relay: bool, name: Seq<char>) -> Seq<char> {
    if relay {
        "... sending via relay "@ + name
    } else {
        "... sending "@ + name
    }
}

/// The log without the lines that say that a file is being sent.
pub open spec fn without_sending(log: Seq<Seq<char>>, relay: bool, name: Seq<char>) -> Seq<
    Seq<char>,
> {
    log.filter(|l: Seq<char>| !text::contains_text(l, sending_line(relay, name)))
}

/// The log after news.
pub open spec fn logged(log: Seq<Seq<char>>, relay: bool, msg: SyncMsg) -> Seq<Seq<char>> {
    match msg {
        SyncMsg::FileFound { name } => capped(log.push(sending_line(relay, name@))),
        SyncMsg::FileSent { name, .. } => capped(
            without_sending(log, relay, name@).push(
                (if relay {
                    "OK via relay: "@
                } else {
                    "OK "@
                }) + name@,
            ),
        ),
        SyncMsg::FileError { name, error } => capped(
            without_sending(log, relay, name@).push(
                (if relay {
                    "ERR via relay "@
                } else {
                    "ERR "@
                }) + name@ + " — "@ + error@,
            ),
        ),
        SyncMsg::FileSkipped { name } => without_sending(log, relay, name@),
    }
}

/// News keep the log at 100 lines, also where lines of other kinds have come in between.
pub proof fn the_log_stays_short(log: Seq<Seq<char>>, relay: bool, msg: SyncMsg)
    requires
        log.len() <= 100,
    ensures
        logged(log, relay, msg).len() <= 100,
{
    let name = match msg {
        SyncMsg::FileFound { name } => name@,
        SyncMsg::FileSent { name, .. } => name@,
        SyncMsg::FileError { name, .. } => name@,
        SyncMsg::FileSkipped { name } => name@,
    };
    lemma_filter_len(log, |l: Seq<char>| !text::contains_text(l, sending_line(relay, name)));
}

proof fn lemma_filter_len(s: Seq<Seq<char>>, keep: spec_fn(Seq<char>) -> bool)
    ensures
        s.filter(keep).len() <= s.len(),
    decreases s.len(),
{
    reveal(Seq::filter);
    if s.len() > 0 {
        lemma_filter_len(s.drop_last(), keep);
    }
}

fn sending_text(relay: bool, name: &str) -> (r: String)
    ensures
        r@ == sending_line(relay, name@),
{
    let mut s: String = if relay {
        "... sending via relay ".to_string()
    } else {
        "... sending ".to_string()
    };
    s.append(name);
    s
}

fn push_capped(log: &mut Vec<String>, line: String)
    ensures
        text::string_texts(final(log)@) == capped(text::string_texts(old(log)@).push(line@)),
{
    let ghost before = text::string_texts(log@);
    let ghost said = line@;
    log.push(line);
    let ghost all = text::string_texts(log@);
    assert(all =~= before.push(said));
    if log.len() > 100 {
        let rest: Vec<String> = log.split_off(50);
        assert(text::string_texts(rest@) =~= all.skip(50));
        *log = rest;
    }
}

fn drop_sending(log: &mut Vec<String>, relay: bool, name: &str)
    ensures
        text::string_texts(final(log)@) == without_sending(
            text::string_texts(old(log)@),
            relay,
            name@,
        ),
{
    let gone: String = sending_text(relay, name);
    let ghost all = text::string_texts(log@);
    let ghost keep = |l: Seq<char>| !text::contains_text(l, sending_line(relay, name@));
    let mut left: Vec<String> = Vec::new();
    let mut i: usize = 0;
    assert(all.take(0) =~= Seq::<Seq<char>>::empty());
    assert(text::string_texts(left@) =~= all.take(0).filter(keep)) by {
        reveal(Seq::filter);
    }
    while i < log.len()
        invariant
            i <= log@.len(),
            all == text::string_texts(log@),
            gone@ == sending_line(relay, name@),
            keep == (|l: Seq<char>| !text::contains_text(l, sending_line(relay, name@))),
            text::string_texts(left@) == all.take(i as int).filter(keep),
        decreases log@.len() - i,
    {
        let ghost before = text::string_texts(left@);
        proof {
            reveal(Seq::filter);
            assert(all.take(i + 1).drop_last() =~= all.take(i as int));
            assert(all[i as int] == log@[i as int]@);
        }
        if !text::has_text(log[i].as_str(), gone.as_str()) {
            let line: String = log[i].clone();
            left.push(line);
            assert(text::string_texts(left@) =~= before.push(line@));
        }
        i = i + 1;
    }
    assert(all.take(i as int) =~= all);
    *log = left;
}

// ---- folders ----

/// The folders that are kept in step with devices, over the local network or through the relay.
pub struct SyncSide {
    /// The folder for each device, by the device's address.
    pub map: TextMap<String>,
    pub jobs: Vec<SyncJob>,
    pub active: bool,
    pub log: Vec<String>,
    /// Whether this goes through the relay.
    pub relay: bool,
}

/// What is known of the folders that are kept in step.
pub struct Side {
    pub map: Map<Seq<char>, Seq<char>>,
    pub jobs: Seq<Job>,
    pub active: bool,
    pub log: Seq<Seq<char>>,
    pub relay: bool,
}

impl View for SyncSide {
    type V = Side;

    open spec fn view(&self) -> Side {
        Side {
            map: texts_under(self.map@),
            jobs: jobs(self.jobs@),
            active: self.active,
            log: text::string_texts(self.log@),
            relay: self.relay,
        }
    }
}

impl Side {
    /// The folder for the chosen device.
    pub open spec fn folder_for(self, chosen: Option<Device>) -> Option<Seq<char>> {
        match chosen {
            Some(d) => if self.map.contains_key(d.addr) {
                Some(self.map[d.addr])
            } else {
                None
            },
            None => None,
        }
    }

    /// The work for the chosen device: its folder, where there is one and it exists.
    pub open spec fn rebuilt(self, chosen: Option<Device>, exists: bool) -> Side {
        Side {
            jobs: match (chosen, self.folder_for(chosen)) {
                (Some(d), Some(folder)) if exists => seq![
                    Job {
                        folder,
                        peer_addr: d.addr,
                        peer_name: d.name,
                        file_mtimes: Map::empty(),
                    },
                ],
                _ => seq![],
            },
            ..self
        }
    }

    /// Whether `present`, asked about the folder for the chosen device, may answer `answer`.
    pub open spec fn may_find<F: Fn(&str) -> bool>(
        self,
        chosen: Option<Device>,
        present: F,
        answer: bool,
    ) -> bool {
        match self.folder_for(chosen) {
            Some(folder) => paths::may_answer(present, folder, answer),
            None => true,
        }
    }

    /// Whether this becomes `after` when the work for the chosen device is found.
    pub open spec fn may_become<F: Fn(&str) -> bool>(
        self,
        after: Side,
        chosen: Option<Device>,
        present: F,
    ) -> bool {
        exists|answer: bool| #[trigger]
            self.may_find(chosen, present, answer) && after == self.rebuilt(chosen, answer)
    }

    /// With another folder for the device at `addr`; what is going on ends.
    pub open spec fn with_folder(self, addr: Seq<char>, folder: Seq<char>) -> Side {
        Side { map: self.map.insert(addr, folder), active: false, ..self }
    }

    /// Without the folder for the device at `addr`; what is going on ends.
    pub open spec fn without_folder(self, addr: Seq<char>) -> Side {
        Side { map: self.map.remove(addr), active: false, ..self }
    }

    /// Once it has been stopped by hand.
    pub open spec fn stopped(self) -> Side {
        Side {
            active: false,
            log: self.log.push(
                if self.relay {
                    "-- Remote sync stopped"@
                } else {
                    "-- Watching stopped"@
                },
            ),
            ..self
        }
    }
}

/// What is known of a device, if there is one.
pub open spec fn device_of(p: Option<&Peer>) -> Option<Device> {
    match p {
        Some(d) => Some(d@),
        None => None,
    }
}

impl SyncSide {
    pub open spec fn wf(self) -> bool {
        self.map.wf()
    }

    /// Without folders but those in `map`.
    pub fn new(map: TextMap<String>, relay: bool) -> (r: SyncSide)
        requires
            map.wf(),
        ensures
            r.wf(),
            r@ == (Side {
                map: texts_under(map@),
                jobs: seq![],
                active: false,
                log: seq![],
                relay,
            }),
    {
        let r: SyncSide = SyncSide { map, jobs: Vec::new(), active: false, log: Vec::new(), relay };
        assert(r@.jobs =~= seq![]);
        assert(r@.log =~= seq![]);
        r
    }

    /// The folder for the chosen device.
    pub fn folder_for(&self, chosen: Option<&Peer>) -> (r: Option<&String>)
        requires
            self.wf(),
        ensures
            match (chosen, r) {
                (Some(p), Some(f)) => self@.folder_for(Some(p@)) == Some(f@),
                (Some(p), None) => self@.folder_for(Some(p@)) is None,
                (None, _) => r is None,
            },
    {
        match chosen {
            Some(p) => self.map.get(p.addr.as_str()),
            None => None,
        }
    }

    /// Finds the work for the chosen device; `present` says whether a folder exists.
    pub fn rebuild<F: Fn(&str) -> bool>(&mut self, chosen: Option<&Peer>, present: &F)
        requires
            old(self).wf(),
            forall|s: &str| call_requires(*present, (s,)),
        ensures
            final(self).wf(),
            old(self)@.may_become(final(self)@, device_of(chosen), *present),
    {
        let ghost before = self@;
        let ghost device = device_of(chosen);
        let mut list: Vec<SyncJob> = Vec::new();
        let ghost mut answer = false;
        match chosen {
            Some(p) => match self.map.get(p.addr.as_str()) {
                Some(folder) => {
                    let there: bool = present(folder.as_str());
                    proof {
                        answer = there;
                        assert(before.folder_for(device) == Some(folder@));
                        assert(paths::may_answer(*present, folder@, there));
                    }
                    if there {
                        let job: SyncJob = SyncJob {
                            folder: folder.clone(),
                            peer_addr: p.addr.clone(),
                            peer_name: p.name.clone(),
                            file_mtimes: TextMap::new(),
                        };
                        list.push(job);
                        assert(jobs(list@) =~= seq![job@]);
                    }
                },
                None => {},
            },
            None => {},
        }
        proof {
            assert(before.may_find(device, *present, answer));
            assert(jobs(list@) =~= before.rebuilt(device, answer).jobs);
        }
        self.jobs = list;
        assert(self@ == before.rebuilt(device, answer));
    }

    /// Sets the folder for the device at `addr`.
    pub fn set_folder(&mut self, addr: String, folder: String)
        requires
            old(self).wf(),
        ensures
            final(self).wf(),
            final(self)@ == old(self)@.with_folder(addr@, folder@),
    {
        let ghost before = self.map@;
        self.active = false;
        self.map.insert(addr, folder);
        assert(texts_under(self.map@) =~= texts_under(before).insert(addr@, folder@));
    }

    /// Forgets the folder for the device at `addr`.
    pub fn drop_folder(&mut self, addr: &str)
        requires
            old(self).wf(),
        ensures
            final(self).wf(),
            final(self)@ == old(self)@.without_folder(addr@),
    {
        let ghost before = self.map@;
        self.active = false;
        let _gone: Option<String> = self.map.remove(addr);
        assert(texts_under(self.map@) =~= texts_under(before).remove(addr@));
    }

    /// Stops what is going on, by hand.
    pub fn stop(&mut self)
        ensures
            final(self)@ == old(self)@.stopped(),
            final(self).map == old(self).map,
    {
        let ghost before = self@.log;
        self.active = false;
        let line: String = if self.relay {
            "-- Remote sync stopped".to_string()
        } else {
            "-- Watching stopped".to_string()
        };
        self.log.push(line);
        assert(self@.log =~= before.push(line@));
    }

    /// Writes news into the log.
    pub fn take_message(&mut self, msg: &SyncMsg)
        ensures
            final(self)@ == (Side { log: logged(old(self)@.log, old(self).relay, *msg), ..old(self)@ }),
            final(self).map == old(self).map,
    {
        match msg {
            SyncMsg::FileFound { name } => {
                let line: String = sending_text(self.relay, name.as_str());
                push_capped(&mut self.log, line);
            },
            SyncMsg::FileSent { name, .. } => {
                drop_sending(&mut self.log, self.relay, name.as_str());
                let mut line: String = if self.relay {
                    "OK via relay: ".to_string()
                } else {
                    "OK ".to_string()
                };
                line.append(name.as_str());
                push_capped(&mut self.log, line);
            },
            SyncMsg::FileError { name, error } => {
                drop_sending(&mut self.log, self.relay, name.as_str());
                let mut line: String = if self.relay {
                    "ERR via relay ".to_string()
                } else {
                    "ERR ".to_string()
                };
                line.append(name.as_str());
                line.append(" — ");
                line.append(error.as_str());
                push_capped(&mut self.log, line);
            },
            SyncMsg::FileSkipped { name } => {
                drop_sending(&mut self.log, self.relay, name.as_str());
            },
        }
    }

    /// Empties the log.
    pub fn clear_log(&mut self)
        ensures
            final(self)@ == (Side { log: seq![], ..old(self)@ }),
            final(self).map == old(self).map,
    {
        self.log.clear();
        assert(self@.log =~= seq![]);
    }

    /// How many files have been sent for the work at hand.
    pub fn sent_count(&self) -> (r: usize)
        ensures
            r == (if self.jobs@.len() == 0 {
                0
            } else {
                self.jobs@[0].file_mtimes.entries@.len()
            }),
    {
        if self.jobs.len() == 0 {
            0
        } else {
            self.jobs[0].file_mtimes.entries.len()
        }
    }
}

/// How a line of the log is marked.
#[derive(Clone, Copy, Debug, PartialEq, Eq, Structural)]
pub enum LineMark {
    Success,
    Pending,
    Problem,
}

pub open spec fn mark_of(line: Seq<char>) -> LineMark {
    if text::starts_with(line, "OK"@) {
        LineMark::Success
    } else if text::starts_with(line, "..."@) {
        LineMark::Pending
    } else {
        LineMark::Problem
    }
}

/// How a line of the log is marked.
pub fn line_mark(line: &str) -> (r: LineMark)
    ensures
        r == mark_of(line@),
{
    let v: Vec<char> = text::chars_of(line);
    if text::has_prefix(&v, "OK") {
        LineMark::Success
    } else if text::has_prefix(&v, "...") {
        LineMark::Pending
    } else {
        LineMark::Problem
    }
}

// ---- what the calls give ----

/// Whether two maps hold the same folders under the same addresses.
pub open spec fn same_folders(a: SyncSide, b: SyncSide) -> bool {
    forall|k: Seq<char>|
        {
            &&& #[trigger] a.map@.contains_key(k) <==> b.map@.contains_key(k)
            &&& a.map@.contains_key(k) ==> a.map@[k]@ == b.map@[k]@
        }
}

proof fn lemma_same_folders(a: SyncSide, b: SyncSide)
    requires
        texts_under(a.map@) == texts_under(b.map@),
    ensures
        same_folders(a, b),
{
    assert forall|k: Seq<char>|
        {
            &&& #[trigger] a.map@.contains_key(k) <==> b.map@.contains_key(k)
            &&& a.map@.contains_key(k) ==> a.map@[k]@ == b.map@[k]@
        } by {
        assert(texts_under(a.map@).contains_key(k) <==> a.map@.contains_key(k));
        assert(texts_under(b.map@).contains_key(k) <==> b.map@.contains_key(k));
        if a.map@.contains_key(k) {
            assert(texts_under(a.map@)[k] == a.map@[k]@);
            assert(texts_under(b.map@)[k] == b.map@[k]@);
        }
    }
}

/// The work goes to the address of the chosen device, under its name, and its folder is the one
/// kept for that address, which exists. There is no other work, and none has sent anything yet.
pub proof fn work_goes_to_the_chosen_device<F: Fn(&str) -> bool>(
    s: &mut SyncSide,
    chosen: Option<&Peer>,
    present: &F,
)
    requires
        call_ensures(SyncSide::rebuild::<F>, (s, chosen, present), ()),
    ensures
        final(s).jobs@.len() <= 1,
        forall|i: int|
            0 <= i < final(s).jobs@.len() ==> {
                let j = #[trigger] final(s).jobs@[i];
                &&& chosen is Some
                &&& j.peer_addr@ == chosen->0.addr@
                &&& j.peer_name@ == chosen->0.name@
                &&& final(s).map@.contains_key(j.peer_addr@)
                &&& j.folder@ == final(s).map@[j.peer_addr@]@
                &&& paths::may_answer(*present, j.folder@, true)
                &&& j.file_mtimes@ == Map::<Seq<char>, u64>::empty()
            },
        chosen matches Some(p) ==> old(s).map@.contains_key(p.addr@) && !paths::may_answer(
            *present,
            old(s).map@[p.addr@]@,
            false,
        ) ==> final(s).jobs@.len() == 1,
        same_folders(*final(s), *old(s)),
        final(s).active == old(s).active,
        final(s).relay == old(s).relay,
        text::string_texts(final(s).log@) == text::string_texts(old(s).log@),
{
    let a = old(s)@;
    let b = final(s)@;
    let device = device_of(chosen);
    let answer = choose|answer: bool| #[trigger]
        a.may_find(device, *present, answer) && b == a.rebuilt(device, answer);
    lemma_same_folders(*final(s), *old(s));
    assert(b.jobs.len() == final(s).jobs@.len());
    assert forall|i: int| 0 <= i < final(s).jobs@.len() implies {
        let j = #[trigger] final(s).jobs@[i];
        &&& chosen is Some
        &&& j.peer_addr@ == chosen->0.addr@
        &&& j.peer_name@ == chosen->0.name@
        &&& final(s).map@.contains_key(j.peer_addr@)
        &&& j.folder@ == final(s).map@[j.peer_addr@]@
        &&& paths::may_answer(*present, j.folder@, true)
        &&& j.file_mtimes@ == Map::<Seq<char>, u64>::empty()
    } by {
        let j = final(s).jobs@[i];
        assert(b.jobs[i] == j@);
        assert(texts_under(final(s).map@).contains_key(j.peer_addr@));
        assert(texts_under(final(s).map@)[j.peer_addr@] == final(s).map@[j.peer_addr@]@);
    }
    if chosen is Some {
        let k = chosen->0.addr@;
        if old(s).map@.contains_key(k) {
            assert(texts_under(old(s).map@).contains_key(k));
            assert(texts_under(old(s).map@)[k] == old(s).map@[k]@);
        }
    }
}

/// The folder for a device is the one that the map holds under the device's address.
pub proof fn folders_go_by_address(s: &SyncSide, chosen: Option<&Peer>, r: Option<&String>)
    requires
        call_ensures(SyncSide::folder_for, (s, chosen), r),
    ensures
        r is Some <==> chosen is Some && s.map@.contains_key(chosen->0.addr@),
        r is Some ==> r->0@ == s.map@[chosen->0.addr@]@,
{
    if chosen is Some {
        let k = chosen->0.addr@;
        assert(texts_under(s.map@).contains_key(k) <==> s.map@.contains_key(k));
        if s.map@.contains_key(k) {
            assert(texts_under(s.map@)[k] == s.map@[k]@);
        }
    }
}

/// The folder that is set for an address is kept under it; those of other addresses stay, and what
/// is going on ends.
pub proof fn folders_are_set(s: &mut SyncSide, addr: String, folder: String)
    requires
        call_ensures(SyncSide::set_folder, (s, addr, folder), ()),
    ensures
        final(s).map@.contains_key(addr@),
        final(s).map@[addr@]@ == folder@,
        forall|k: Seq<char>|
            k != addr@ ==> {
                &&& #[trigger] final(s).map@.contains_key(k) <==> old(s).map@.contains_key(k)
                &&& old(s).map@.contains_key(k) ==> final(s).map@[k]@ == old(s).map@[k]@
            },
        !final(s).active,
        final(s).relay == old(s).relay,
        jobs(final(s).jobs@) == jobs(old(s).jobs@),
        text::string_texts(final(s).log@) == text::string_texts(old(s).log@),
{
    let a = texts_under(old(s).map@);
    let b = texts_under(final(s).map@);
    assert(b == a.insert(addr@, folder@));
    assert(b.contains_key(addr@) && b[addr@] == folder@);
    assert(b[addr@] == final(s).map@[addr@]@);
    assert forall|k: Seq<char>| k != addr@ implies {
        &&& #[trigger] final(s).map@.contains_key(k) <==> old(s).map@.contains_key(k)
        &&& old(s).map@.contains_key(k) ==> final(s).map@[k]@ == old(s).map@[k]@
    } by {
        assert(b.contains_key(k) <==> final(s).map@.contains_key(k));
        assert(a.contains_key(k) <==> old(s).map@.contains_key(k));
        if a.contains_key(k) {
            assert(a[k] == old(s).map@[k]@ && b[k] == final(s).map@[k]@);
        }
    }
}

/// The folder of an address that is forgotten is gone; those of other addresses stay, and what is
/// going on ends.
pub proof fn folders_are_forgotten(s: &mut SyncSide, addr: &str)
    requires
        call_ensures(SyncSide::drop_folder, (s, addr), ()),
    ensures
        !final(s).map@.contains_key(addr@),
        forall|k: Seq<char>|
            k != addr@ ==> {
                &&& #[trigger] final(s).map@.contains_key(k) <==> old(s).map@.contains_key(k)
                &&& old(s).map@.contains_key(k) ==> final(s).map@[k]@ == old(s).map@[k]@
            },
        !final(s).active,
        final(s).relay == old(s).relay,
        jobs(final(s).jobs@) == jobs(old(s).jobs@),
        text::string_texts(final(s).log@) == text::string_texts(old(s).log@),
{
    let a = texts_under(old(s).map@);
    let b = texts_under(final(s).map@);
    assert(b == a.remove(addr@));
    assert(b.contains_key(addr@) <==> final(s).map@.contains_key(addr@));
    assert forall|k: Seq<char>| k != addr@ implies {
        &&& #[trigger] final(s).map@.contains_key(k) <==> old(s).map@.contains_key(k)
        &&& old(s).map@.contains_key(k) ==> final(s).map@[k]@ == old(s).map@[k]@
    } by {
        assert(b.contains_key(k) <==> final(s).map@.contains_key(k));
        assert(a.contains_key(k) <==> old(s).map@.contains_key(k));
        if a.contains_key(k) {
            assert(a[k] == old(s).map@[k]@ && b[k] == final(s).map@[k]@);
        }
    }
}

/// Stopping ends what is going on and adds a line to the log; folders and work stay.
pub proof fn stopping_is_logged(s: &mut SyncSide)
    requires
        call_ensures(SyncSide::stop, (s,), ()),
    ensures
        !final(s).active,
        final(s).map == old(s).map,
        final(s).relay == old(s).relay,
        jobs(final(s).jobs@) == jobs(old(s).jobs@),
        final(s).log@.len() == old(s).log@.len() + 1,
        forall|i: int|
            0 <= i < old(s).log@.len() ==> (#[trigger] final(s).log@[i])@ == old(s).log@[i]@,
        final(s).log@.last()@ == if old(s).relay {
            "-- Remote sync stopped"@
        } else {
            "-- Watching stopped"@
        },
{
    lemma_log(*old(s));
    lemma_log(*final(s));
}

proof fn lemma_log(s: SyncSide)
    ensures
        s@.log.len() == s.log@.len(),
        forall|i: int| 0 <= i < s.log@.len() ==> s@.log[i] == (#[trigger] s.log@[i])@,
{
}

/// A file that is found is noted at the end of the log.
pub proof fn found_files_are_noted(s: &mut SyncSide, name: String)
    requires
        call_ensures(SyncSide::take_message, (s, &SyncMsg::FileFound { name }), ()),
    ensures
        final(s).log@.len() > 0,
        final(s).log@.last()@ == if old(s).relay {
            "... sending via relay "@ + name@
        } else {
            "... sending "@ + name@
        },
        old(s).log@.len() < 100 ==> final(s).log@.len() == old(s).log@.len() + 1 && forall|i: int|
            0 <= i < old(s).log@.len() ==> (#[trigger] final(s).log@[i])@ == old(s).log@[i]@,
        old(s).log@.len() == 100 ==> final(s).log@.len() == 51 && forall|i: int|
            0 <= i < 50 ==> (#[trigger] final(s).log@[i])@ == old(s).log@[i + 50]@,
        final(s).map == old(s).map,
        final(s).active == old(s).active,
        jobs(final(s).jobs@) == jobs(old(s).jobs@),
{
    lemma_log(*old(s));
    lemma_log(*final(s));
}

/// Once a file has been sent, has failed or is skipped, no line says that it is being sent. One
/// that was sent or failed has a line at the end of the log; one that is skipped has none. All
/// other lines of a log that is not full stay, in their order.
pub proof fn settled_files_are_noted(s: &mut SyncSide, msg: SyncMsg, name: Seq<char>, said: Seq<
    char,
>)
    requires
        call_ensures(SyncSide::take_message, (s, &msg), ()),
        old(s).log@.len() < 100,
        msg matches SyncMsg::FileSent { name: n, .. } ==> name == n@ && said == (if old(s).relay {
            "OK via relay: "@
        } else {
            "OK "@
        }) + n@,
        msg matches SyncMsg::FileError { name: n, error } ==> name == n@ && said == (if old(s).relay {
            "ERR via relay "@
        } else {
            "ERR "@
        }) + n@ + " — "@ + error@,
        msg matches SyncMsg::FileSkipped { name: n } ==> name == n@,
        !(msg is FileFound),
    ensures
        ({
            let now = text::string_texts(final(s).log@);
            let kept = if msg is FileSkipped {
                now
            } else {
                now.drop_last()
            };
            let gone = (if old(s).relay {
                "... sending via relay "@
            } else {
                "... sending "@
            }) + name;
            &&& !(msg is FileSkipped) ==> now.len() > 0 && now.last() == said
            &&& order::keeps(
                kept,
                text::string_texts(old(s).log@),
                |l: Seq<char>| !text::contains_text(l, gone),
            )
        }),
        final(s).map == old(s).map,
        final(s).active == old(s).active,
        jobs(final(s).jobs@) == jobs(old(s).jobs@),
{
    lemma_log(*old(s));
    lemma_log(*final(s));
    let before = text::string_texts(old(s).log@);
    let now = text::string_texts(final(s).log@);
    let gone = (if old(s).relay {
        "... sending via relay "@
    } else {
        "... sending "@
    }) + name;
    let keep = |l: Seq<char>| !text::contains_text(l, gone);
    let kept = without_sending(before, old(s).relay, name);
    assert(sending_line(old(s).relay, name) == gone);
    assert(kept == before.filter(keep));
    lemma_filter_len(before, keep);
    order::filtering_keeps(before, keep);
    if !(msg is FileSkipped) {
        assert(now == kept.push(said));
        assert(now.drop_last() =~= kept);
    }
}

/// An emptied log holds nothing; everything else stays.
pub proof fn logs_are_emptied(s: &mut SyncSide)
    requires
        call_ensures(SyncSide::clear_log, (s,), ()),
    ensures
        final(s).log@.len() == 0,
        final(s).map == old(s).map,
        final(s).active == old(s).active,
        final(s).relay == old(s).relay,
        jobs(final(s).jobs@) == jobs(old(s).jobs@),
{
    lemma_log(*final(s));
}

/// A file that was sent or skipped is wanted again only once it has been changed later; one that
/// failed is wanted as before, and so is every other file. What is told is what came of it.
pub proof fn settled_files_are_not_wanted(
    w: &mut Watch,
    name: String,
    path: String,
    mtime: u64,
    result: SyncResult,
    told: SyncMsg,
    after: &Watch,
    other: &str,
    then: u64,
    wanted: bool,
)
    requires
        call_ensures(Watch::settle, (w, name, path, mtime, result), told),
        after.mtimes@ == final(w).mtimes@,
        call_ensures(Watch::wants, (after, other, then), wanted),
    ensures
        other@ == path@ && !(result is Failed) ==> (wanted <==> then > mtime),
        other@ != path@ || result is Failed ==> (wanted <==> (old(w).mtimes@.contains_key(other@)
            ==> old(w).mtimes@[other@] < then)),
        result is Sent ==> told is FileSent && told->FileSent_name@ == name@ && told->path@
            == path@,
        result is Skipped ==> told is FileSkipped && told->FileSkipped_name@ == name@,
        result matches SyncResult::Failed(e) ==> told is FileError && told->FileError_name@
            == name@ && told->error@ == e@,
{
}

/// A new watch wants every file.
pub proof fn new_watches_want_everything(w: Watch, path: &str, mtime: u64, wanted: bool)
    requires
        call_ensures(Watch::new, (), w),
        call_ensures(Watch::wants, (&w, path, mtime), wanted),
    ensures
        wanted,
{
}

/// The lines of the log are marked by what they say.
pub proof fn lines_are_marked(line: &str, rest: Seq<char>, r: LineMark)
    requires
        call_ensures(line_mark, (line,), r),
    ensures
        line@ == "OK "@ + rest || line@ == "OK via relay: "@ + rest ==> r == LineMark::Success,
        line@ == "... sending "@ + rest || line@ == "... sending via relay "@ + rest ==> r
            == LineMark::Pending,
        line@ == "ERR "@ + rest || line@ == "ERR via relay "@ + rest || line@ == "-- "@ + rest
            ==> r == LineMark::Problem,
{
    reveal_strlit("OK");
    reveal_strlit("...");
    reveal_strlit("OK ");
    reveal_strlit("OK via relay: ");
    reveal_strlit("... sending ");
    reveal_strlit("... sending via relay ");
    reveal_strlit("ERR ");
    reveal_strlit("ERR via relay ");
    reveal_strlit("-- ");
    let l = line@;
    if l.len() >= 3 {
        assert(l.take(2) =~= "OK"@ <==> l[0] == 'O' && l[1] == 'K') by {
            assert(l.take(2)[0] == l[0] && l.take(2)[1] == l[1]);
        }
        assert(l.take(3) =~= "..."@ <==> l[0] == '.' && l[1] == '.' && l[2] == '.') by {
            assert(l.take(3)[0] == l[0] && l.take(3)[1] == l[1] && l.take(3)[2] == l[2]);
        }
    }
}

/// What has been sent for the work at hand is counted; without work it is nothing.
pub proof fn sent_files_are_counted(s: &SyncSide, r: usize)
    requires
        call_ensures(SyncSide::sent_count, (s,), r),
    ensures
        s.jobs@.len() == 0 ==> r == 0,
        s.jobs@.len() > 0 ==> r == s.jobs@[0].file_mtimes.entries@.len(),
{
}

/// At first there are the folders that were kept, and no work is going on.
pub proof fn nothing_goes_on_at_first(map: TextMap<String>, relay: bool, r: SyncSide)
    requires
        call_ensures(SyncSide::new, (map, relay), r),
    ensures
        forall|k: Seq<char>| #[trigger] r.map@.contains_key(k) == map@.contains_key(k),
        forall|k: Seq<char>| map@.contains_key(k) ==> (#[trigger] r.map@[k])@ == map@[k]@,
        r.jobs@.len() == 0,
        r.log@.len() == 0,
        !r.active,
        r.relay == relay,
{
    assert(r@.jobs.len() == r.jobs@.len());
    lemma_log(r);
    let a = texts_under(r.map@);
    let b = texts_under(map@);
    assert forall|k: Seq<char>| #[trigger] r.map@.contains_key(k) == map@.contains_key(k) by {
        assert(a.contains_key(k) <==> r.map@.contains_key(k));
        assert(b.contains_key(k) <==> map@.contains_key(k));
    }
    assert forall|k: Seq<char>| map@.contains_key(k) implies (#[trigger] r.map@[k])@ == map@[k]@ by {
        assert(b.contains_key(k) && a.contains_key(k));
        assert(a[k] == r.map@[k]@ && b[k] == map@[k]@);
    }
}

} // verus!
