//! The queue of files to send.
use vstd::prelude::*;

use crate::history::{copy_option, text_in};
use crate::numbers;
use crate::order;
use crate::paths;
use crate::paths::Style;
use crate::sender::Sent;
use crate::text;

verus! {

/// A file to send.
#[derive(Debug)]
pub struct QueueItem {
    pub path: String,
    pub name: String,
    pub size: u64,
    /// How far it has been sent; `None` before it is started.
    pub progress: Option<Sent>,
    pub error: Option<String>,
}

/// What is known of a file to send.
pub struct Item {
    pub path: Seq<char>,
    pub name: Seq<char>,
    pub size: u64,
    pub progress: Option<Sent>,
    pub error: Option<Seq<char>>,
}

/// The share of a file that has been sent, where both numbers count as single-precision numbers:
/// whether it is all of it.
pub open spec fn is_whole(s: Sent) -> bool {
    numbers::round_to_bits(s.bytes as nat, 24) == numbers::round_to_bits(s.size as nat, 24)
}

/// Whether the share of a file that has been sent is less than all of it.
pub open spec fn is_part(s: Sent) -> bool {
    numbers::round_to_bits(s.bytes as nat, 24) < numbers::round_to_bits(s.size as nat, 24)
}

/// Nothing of a file has been sent yet.
pub open spec fn nothing_sent() -> Sent {
    Sent { bytes: 0, size: 1 }
}

/// All of a file has been sent.
pub open spec fn all_sent() -> Sent {
    Sent { bytes: 1, size: 1 }
}

impl Item {
    pub open spec fn done(self) -> bool {
        self.progress matches Some(s) && is_whole(s)
    }

    pub open spec fn failed(self) -> bool {
        self.error is Some
    }

    pub open spec fn pending(self) -> bool {
        self.progress is None && self.error is None
    }

    pub open spec fn active(self) -> bool {
        self.progress matches Some(s) && is_part(s) && self.error is None
    }

    /// Whether the file is to be sent once sending starts.
    pub open spec fn due(self) -> bool {
        self.active() || (self.progress matches Some(s) && s.bytes == 0)
    }
}

impl View for QueueItem {
    type V = Item;

    open spec fn view(&self) -> Item {
        Item {
            path: self.path@,
            name: self.name@,
            size: self.size,
            progress: self.progress,
            error: text_in(self.error),
        }
    }
}

impl Clone for QueueItem {
    fn clone(&self) -> (r: QueueItem)
        ensures
            r@ == self@,
    {
        QueueItem {
            path: self.path.clone(),
            name: self.name.clone(),
            size: self.size,
            progress: self.progress,
            error: copy_option(&self.error),
        }
    }
}

/// A new item for the file at `path`.
pub open spec fn new_item(path: Seq<char>, size: u64, style: Style) -> Item {
    Item {
        path,
        name: paths::name_or_empty(path, style),
        size,
        progress: None,
        error: None,
    }
}

fn share(s: Sent) -> (r: (u128, u128))
    ensures
        r.0 == numbers::round_to_bits(s.bytes as nat, 24),
        r.1 == numbers::round_to_bits(s.size as nat, 24),
{
    (numbers::nearest_single(s.bytes), numbers::nearest_single(s.size))
}

impl QueueItem {
    /// A new item for the file at `path`.
    pub fn new(path: String, size: u64, style: Style) -> (r: QueueItem)
        ensures
            r@ == new_item(path@, size, style),
    {
        let name: String = paths::last_part(path.as_str(), style);
        QueueItem { path, name, size, progress: None, error: None }
    }

    pub fn is_done(&self) -> (r: bool)
        ensures
            r == self@.done(),
    {
        match self.progress {
            Some(s) => {
                let (a, b): (u128, u128) = share(s);
                a == b
            },
            None => false,
        }
    }

    pub fn is_failed(&self) -> (r: bool)
        ensures
            r == self@.failed(),
    {
        self.error.is_some()
    }

    pub fn is_pending(&self) -> (r: bool)
        ensures
            r == self@.pending(),
    {
        self.progress.is_none() && self.error.is_none()
    }

    pub fn is_active(&self) -> (r: bool)
        ensures
            r == self@.active(),
    {
        match self.progress {
            Some(s) => {
                let (a, b): (u128, u128) = share(s);
                a < b && self.error.is_none()
            },
            None => false,
        }
    }

    fn is_due(&self) -> (r: bool)
        ensures
            r == self@.due(),
    {
        self.is_active() || match self.progress {
            Some(s) => s.bytes == 0,
            None => false,
        }
    }
}

/// News of a file that is being sent.
#[derive(Debug)]
pub enum QueueMsg {
    Progress { index: usize, progress: Sent },
    Done { index: usize },
    Failed { index: usize, error: String },
}

/// The queue, and what has been sent since the program was started.
pub struct Queue {
    pub items: Vec<QueueItem>,
    pub sent_bytes: u64,
    pub sent_files: u32,
}

/// What is known of the files of a list.
pub open spec fn items(v: Seq<QueueItem>) -> Seq<Item> {
    Seq::new(v.len(), |i: int| v[i]@)
}

/// Whether the file at `path` is in the list.
pub open spec fn has_path(s: Seq<Item>, path: Seq<char>, style: Style) -> bool {
    exists|i: int| 0 <= i < s.len() && paths::are_same((#[trigger] s[i]).path, path, style)
}

/// The list with the files at its end that are not in it yet.
pub open spec fn with_files(s: Seq<Item>, files: Seq<(Seq<char>, u64)>, style: Style) -> Seq<Item>
    decreases files.len(),
{
    if files.len() == 0 {
        s
    } else {
        let t = with_files(s, files.drop_last(), style);
        let (path, size) = files.last();
        if has_path(t, path, style) {
            t
        } else {
            t.push(new_item(path, size, style))
        }
    }
}

/// The paths and sizes of files.
pub open spec fn file_list(v: Seq<(String, u64)>) -> Seq<(Seq<char>, u64)> {
    Seq::new(v.len(), |i: int| (v[i].0@, v[i].1))
}

/// An item that failed, made ready to be sent again; another one unchanged.
pub open spec fn retried(i: Item) -> Item {
    if i.failed() {
        Item { error: None, progress: None, ..i }
    } else {
        i
    }
}

/// An item that waits, started; another one unchanged.
pub open spec fn started(i: Item) -> Item {
    if i.pending() {
        Item { progress: Some(nothing_sent()), ..i }
    } else {
        i
    }
}

/// The indices of the files that are to be sent.
pub open spec fn due_indices(s: Seq<Item>, n: nat) -> Seq<usize>
    decreases n,
{
    if n == 0 {
        seq![]
    } else {
        let before = due_indices(s, (n - 1) as nat);
        if s[n - 1].due() {
            before.push((n - 1) as usize)
        } else {
            before
        }
    }
}

/// A file that is to be sent, by its place in the queue.
#[derive(Debug)]
pub struct Outgoing {
    pub index: usize,
    pub path: String,
    pub name: String,
    pub size: u64,
}

impl Outgoing {
    /// Whether this is the file at the given place of the queue.
    pub open spec fn is(self, index: usize, i: Item) -> bool {
        self.index == index && self.path@ == i.path && self.name@ == i.name && self.size == i.size
    }
}

/// Whether `r` are those of the first `n` files that are to be sent, in their order.
pub open spec fn are_due(r: Seq<Outgoing>, s: Seq<Item>, n: nat) -> bool {
    &&& r.len() == due_indices(s, n).len()
    &&& forall|k: int|
        0 <= k < r.len() ==> (#[trigger] r[k]).index < s.len() && r[k].is(
            due_indices(s, n)[k],
            s[r[k].index as int],
        )
}

/// The state of a queue.
pub struct State {
    pub items: Seq<Item>,
    pub sent_bytes: u64,
    pub sent_files: u32,
}

impl View for Queue {
    type V = State;

    open spec fn view(&self) -> State {
        State { items: items(self.items@), sent_bytes: self.sent_bytes, sent_files: self.sent_files }
    }
}

impl State {
    /// Whether the counters can take the news.
    pub open spec fn can_take(self, msg: QueueMsg) -> bool {
        match msg {
            QueueMsg::Done { index } => index < self.items.len() ==> self.sent_bytes
                + self.items[index as int].size <= u64::MAX && self.sent_files < u32::MAX,
            _ => true,
        }
    }

    /// The state once news has come in; news of a file that has left the queue changes nothing.
    pub open spec fn told(self, msg: QueueMsg) -> State {
        match msg {
            QueueMsg::Progress { index, progress } => if index < self.items.len() {
                State {
                    items: self.items.update(
                        index as int,
                        Item { progress: Some(progress), ..self.items[index as int] },
                    ),
                    ..self
                }
            } else {
                self
            },
            QueueMsg::Done { index } => if index < self.items.len() {
                State {
                    items: self.items.update(
                        index as int,
                        Item { progress: Some(all_sent()), ..self.items[index as int] },
                    ),
                    sent_bytes: (self.sent_bytes + self.items[index as int].size) as u64,
                    sent_files: (self.sent_files + 1) as u32,
                }
            } else {
                self
            },
            QueueMsg::Failed { index, error } => if index < self.items.len() {
                State {
                    items: self.items.update(
                        index as int,
                        Item {
                            error: Some(error@),
                            progress: None,
                            ..self.items[index as int]
                        },
                    ),
                    ..self
                }
            } else {
                self
            },
        }
    }
}

impl Queue {
    /// A queue without files.
    pub fn new() -> (r: Queue)
        ensures
            r@ == (State { items: seq![], sent_bytes: 0, sent_files: 0 }),
    {
        let r: Queue = Queue { items: Vec::new(), sent_bytes: 0, sent_files: 0 };
        assert(r@.items =~= seq![]);
        r
    }

    fn holds(&self, path: &str, style: Style) -> (r: bool)
        ensures
            r == has_path(self@.items, path@, style),
    {
        let mut i: usize = 0;
        while i < self.items.len()
            invariant
                i <= self.items@.len(),
                forall|j: int|
                    0 <= j < i ==> !paths::are_same(
                        (#[trigger] self@.items[j]).path,
                        path@,
                        style,
                    ),
            decreases self.items@.len() - i,
        {
            assert(self@.items[i as int] == self.items@[i as int]@);
            if paths::same_path(self.items[i].path.as_str(), path, style) {
                return true;
            }
            i = i + 1;
        }
        false
    }

    /// Adds the files that are not in the queue yet, by their paths and sizes.
    pub fn add_files(&mut self, files: Vec<(String, u64)>, style: Style)
        ensures
            final(self)@ == (State {
                items: with_files(old(self)@.items, file_list(files@), style),
                ..old(self)@
            }),
    {
        let ghost start = self@.items;
        let ghost all = file_list(files@);
        let mut i: usize = 0;
        assert(all.take(0) =~= Seq::<(Seq<char>, u64)>::empty());
        while i < files.len()
            invariant
                i <= files@.len(),
                all == file_list(files@),
                start == old(self)@.items,
                self@ == (State { items: with_files(start, all.take(i as int), style), ..old(self)@ }),
            decreases files@.len() - i,
        {
            let ghost before = self@.items;
            proof {
                assert(all.take(i + 1).drop_last() =~= all.take(i as int));
                assert(all.take(i + 1).last() == (files@[i as int].0@, files@[i as int].1));
            }
            if !self.holds(files[i].0.as_str(), style) {
                let item: QueueItem = QueueItem::new(files[i].0.clone(), files[i].1, style);
                self.items.push(item);
                assert(self@.items =~= before.push(item@));
            }
            i = i + 1;
        }
        assert(all.take(i as int) =~= all);
    }

    /// Takes the file at `idx` out of the queue, where there is one.
    pub fn remove_queue_item(&mut self, idx: usize)
        ensures
            final(self)@ == (State {
                items: if idx < old(self)@.items.len() {
                    old(self)@.items.remove(idx as int)
                } else {
                    old(self)@.items
                },
                ..old(self)@
            }),
    {
        let ghost before = self@.items;
        if idx < self.items.len() {
            let _gone: QueueItem = self.items.remove(idx);
            assert(self@.items =~= before.remove(idx as int));
        }
    }

    /// Takes the files out of the queue that have been sent or have failed.
    pub fn clear_done(&mut self)
        ensures
            final(self)@ == (State {
                items: old(self)@.items.filter(|i: Item| !i.done() && !i.failed()),
                ..old(self)@
            }),
    {
        let ghost all = self@.items;
        let ghost keep = |i: Item| !i.done() && !i.failed();
        let mut left: Vec<QueueItem> = Vec::new();
        let mut i: usize = 0;
        assert(all.take(0) =~= Seq::<Item>::empty());
        assert(items(left@) =~= all.take(0).filter(keep)) by {
            reveal(Seq::filter);
        }
        while i < self.items.len()
            invariant
                i <= self.items@.len(),
                *self == *old(self),
                all == self@.items,
                keep == (|i: Item| !i.done() && !i.failed()),
                items(left@) == all.take(i as int).filter(keep),
            decreases self.items@.len() - i,
        {
            let ghost before = items(left@);
            proof {
                reveal(Seq::filter);
                assert(all.take(i + 1).drop_last() =~= all.take(i as int));
                assert(all[i as int] == self.items@[i as int]@);
            }
            if !self.items[i].is_done() && !self.items[i].is_failed() {
                let item: QueueItem = self.items[i].clone();
                left.push(item);
                assert(items(left@) =~= before.push(item@));
            }
            i = i + 1;
        }
        assert(all.take(i as int) =~= all);
        self.items = left;
    }

    /// Makes the files that failed ready to be sent again.
    pub fn retry_failed(&mut self)
        ensures
            final(self)@ == (State {
                items: old(self)@.items.map_values(|i: Item| retried(i)),
                ..old(self)@
            }),
    {
        let ghost all = self@.items;
        let mut i: usize = 0;
        while i < self.items.len()
            invariant
                i <= self.items@.len(),
                self.items@.len() == all.len(),
                all == old(self)@.items,
                self.sent_bytes == old(self).sent_bytes,
                self.sent_files == old(self).sent_files,
                forall|j: int| 0 <= j < i ==> (#[trigger] self.items@[j])@ == retried(all[j]),
                forall|j: int| i <= j < all.len() ==> (#[trigger] self.items@[j])@ == all[j],
            decreases self.items@.len() - i,
        {
            assert(self.items@[i as int]@ == all[i as int]);
            if self.items[i].is_failed() {
                let mut item: QueueItem = self.items[i].clone();
                item.error = None;
                item.progress = None;
                self.items[i] = item;
            }
            i = i + 1;
        }
        assert(self@.items =~= all.map_values(|i: Item| retried(i)));
    }

    /// Starts the files that wait, and says which ones are to be sent.
    pub fn start(&mut self) -> (r: Vec<Outgoing>)
        ensures
            final(self)@ == (State {
                items: old(self)@.items.map_values(|i: Item| started(i)),
                ..old(self)@
            }),
            are_due(r@, final(self)@.items, final(self)@.items.len()),
    {
        let ghost all = self@.items;
        let mut i: usize = 0;
        while i < self.items.len()
            invariant
                i <= self.items@.len(),
                self.items@.len() == all.len(),
                all == old(self)@.items,
                self.sent_bytes == old(self).sent_bytes,
                self.sent_files == old(self).sent_files,
                forall|j: int| 0 <= j < i ==> (#[trigger] self.items@[j])@ == started(all[j]),
                forall|j: int| i <= j < all.len() ==> (#[trigger] self.items@[j])@ == all[j],
            decreases self.items@.len() - i,
        {
            assert(self.items@[i as int]@ == all[i as int]);
            if self.items[i].is_pending() {
                let mut item: QueueItem = self.items[i].clone();
                item.progress = Some(Sent { bytes: 0, size: 1 });
                self.items[i] = item;
            }
            i = i + 1;
        }
        assert(self@.items =~= all.map_values(|i: Item| started(i)));
        let ghost now = self@.items;
        let mut r: Vec<Outgoing> = Vec::new();
        let mut n: usize = 0;
        while n < self.items.len()
            invariant
                n <= self.items@.len(),
                now == self@.items,
                now.len() == self.items@.len(),
                are_due(r@, now, n as nat),
            decreases self.items@.len() - n,
        {
            let ghost before = due_indices(now, n as nat);
            let ghost so_far = r@;
            assert(now[n as int] == self.items@[n as int]@);
            if self.items[n].is_due() {
                let o: Outgoing = Outgoing {
                    index: n,
                    path: self.items[n].path.clone(),
                    name: self.items[n].name.clone(),
                    size: self.items[n].size,
                };
                r.push(o);
                assert(due_indices(now, (n + 1) as nat) =~= before.push(n));
                assert forall|k: int| 0 <= k < r@.len() implies (#[trigger] r@[k]).index
                    < now.len() && r@[k].is(before.push(n)[k], now[r@[k].index as int]) by {
                    if k < so_far.len() {
                        assert(r@[k] == so_far[k]);
                        assert(so_far[k].is(before[k], now[so_far[k].index as int]));
                    }
                }
            }
            n = n + 1;
        }
        r
    }

    /// Whether the counters can take the news.
    pub fn accepts(&self, msg: &QueueMsg) -> (r: bool)
        ensures
            r == self@.can_take(*msg),
    {
        match msg {
            QueueMsg::Done { index } => {
                let index: usize = *index;
                if index < self.items.len() {
                    assert(self@.items[index as int] == self.items@[index as int]@);
                    self.items[index].size <= u64::MAX - self.sent_bytes && self.sent_files
                        < u32::MAX
                } else {
                    true
                }
            },
            _ => true,
        }
    }

    /// Takes news of a file that is being sent.
    pub fn take_message(&mut self, msg: QueueMsg)
        requires
            old(self)@.can_take(msg),
        ensures
            final(self)@ == old(self)@.told(msg),
    {
        let ghost before = self@.items;
        match msg {
            QueueMsg::Progress { index, progress } => if index < self.items.len() {
                let mut item: QueueItem = self.items[index].clone();
                assert(before[index as int] == item@);
                item.progress = Some(progress);
                self.items[index] = item;
                assert(self@.items =~= before.update(index as int, item@));
            },
            QueueMsg::Done { index } => if index < self.items.len() {
                let mut item: QueueItem = self.items[index].clone();
                assert(before[index as int] == item@);
                item.progress = Some(Sent { bytes: 1, size: 1 });
                self.sent_bytes = self.sent_bytes + item.size;
                self.sent_files = self.sent_files + 1;
                self.items[index] = item;
                assert(self@.items =~= before.update(index as int, item@));
            },
            QueueMsg::Failed { index, error } => if index < self.items.len() {
                let mut item: QueueItem = self.items[index].clone();
                assert(before[index as int] == item@);
                item.error = Some(error);
                item.progress = None;
                self.items[index] = item;
                assert(self@.items =~= before.update(index as int, item@));
            },
        }
    }

    /// How many files have been sent, have failed, and wait.
    pub fn tally(&self) -> (r: Tally)
        ensures
            r.done == self@.items.filter(|i: Item| i.done()).len(),
            r.failed == self@.items.filter(|i: Item| i.failed()).len(),
            r.pending == self@.items.filter(|i: Item| i.pending()).len(),
            r.total == self@.items.len(),
            r.active == exists|i: int|
                0 <= i < self@.items.len() && (#[trigger] self@.items[i]).active(),
    {
        let ghost all = self@.items;
        let ghost fd = |i: Item| i.done();
        let ghost ff = |i: Item| i.failed();
        let ghost fp = |i: Item| i.pending();
        let mut done: usize = 0;
        let mut failed: usize = 0;
        let mut pending: usize = 0;
        let mut active: bool = false;
        let mut i: usize = 0;
        assert(all.take(0) =~= Seq::<Item>::empty());
        proof {
            reveal(Seq::filter);
        }
        while i < self.items.len()
            invariant
                i <= self.items@.len(),
                all == self@.items,
                fd == (|i: Item| i.done()),
                ff == (|i: Item| i.failed()),
                fp == (|i: Item| i.pending()),
                done == all.take(i as int).filter(fd).len(),
                failed == all.take(i as int).filter(ff).len(),
                pending == all.take(i as int).filter(fp).len(),
                done <= i && failed <= i && pending <= i,
                active == exists|j: int| 0 <= j < i && (#[trigger] all[j]).active(),
            decreases self.items@.len() - i,
        {
            proof {
                reveal(Seq::filter);
                assert(all.take(i + 1).drop_last() =~= all.take(i as int));
                assert(all[i as int] == self.items@[i as int]@);
            }
            if self.items[i].is_done() {
                done = done + 1;
            }
            if self.items[i].is_failed() {
                failed = failed + 1;
            }
            if self.items[i].is_pending() {
                pending = pending + 1;
            }
            if self.items[i].is_active() {
                active = true;
            }
            i = i + 1;
        }
        assert(all.take(i as int) =~= all);
        Tally { total: self.items.len(), done, failed, pending, active }
    }

    /// Whether a file is being sent.
    pub fn any_active(&self) -> (r: bool)
        ensures
            r == exists|i: int|
                0 <= i < self@.items.len() && (#[trigger] self@.items[i]).active(),
    {
        self.tally().active
    }
}

/// How many files of a queue have been sent, have failed and wait, and whether one is being sent.
#[derive(Clone, Copy, Debug, PartialEq, Eq, Structural)]
pub struct Tally {
    pub total: usize,
    pub done: usize,
    pub failed: usize,
    pub pending: usize,
    pub active: bool,
}

/// What keeps the queue from being sent.
#[derive(Clone, Copy, Debug, PartialEq, Eq, Structural)]
pub enum Obstacle {
    NoDeviceNoFiles,
    NoDevice,
    NoFiles,
    NoPending,
}

impl Obstacle {
    pub open spec fn text(self) -> Seq<char> {
        match self {
            Obstacle::NoDeviceNoFiles => "Select a device and add files above"@,
            Obstacle::NoDevice => "Select a destination device above"@,
            Obstacle::NoFiles => "Add files to the queue above"@,
            Obstacle::NoPending => "No pending files to send"@,
        }
    }

    /// The hint for display.
    pub fn message(self) -> (r: &'static str)
        ensures
            r@ == self.text(),
    {
        match self {
            Obstacle::NoDeviceNoFiles => "Select a device and add files above",
            Obstacle::NoDevice => "Select a destination device above",
            Obstacle::NoFiles => "Add files to the queue above",
            Obstacle::NoPending => "No pending files to send",
        }
    }
}

impl Tally {
    /// Whether the queue can be sent: a device is chosen, a file waits and none is being sent.
    pub fn can_send(&self, device: bool) -> (r: bool)
        ensures
            r == (device && self.pending > 0 && !self.active),
    {
        device && self.pending > 0 && !self.active
    }

    /// The hint why the queue cannot be sent.
    pub fn obstacle(&self, device: bool) -> (r: Obstacle)
        ensures
            r == (if !device && self.total == 0 {
                Obstacle::NoDeviceNoFiles
            } else if !device {
                Obstacle::NoDevice
            } else if self.total == 0 {
                Obstacle::NoFiles
            } else {
                Obstacle::NoPending
            }),
    {
        if !device && self.total == 0 {
            Obstacle::NoDeviceNoFiles
        } else if !device {
            Obstacle::NoDevice
        } else if self.total == 0 {
            Obstacle::NoFiles
        } else {
            Obstacle::NoPending
        }
    }

    /// How many files are neither sent nor failed nor waiting.
    pub fn sending(&self) -> (r: usize)
        requires
            self.done + self.failed + self.pending <= usize::MAX,
        ensures
            r == if self.total >= self.done + self.failed + self.pending {
                self.total - self.done - self.failed - self.pending
            } else {
                0
            },
    {
        let rest: usize = self.done + self.failed + self.pending;
        if self.total >= rest {
            self.total - rest
        } else {
            0
        }
    }

    /// Whether every file has been sent or has failed.
    pub fn finished(&self) -> (r: bool)
        requires
            self.done + self.failed <= usize::MAX,
        ensures
            r == (self.done + self.failed == self.total),
    {
        self.done + self.failed == self.total
    }
}

// ---- laws ----

/// Whether no file occurs twice.
pub open spec fn distinct_paths(s: Seq<Item>, style: Style) -> bool {
    forall|i: int, j: int|
        0 <= i < j < s.len() ==> !paths::are_same(
            (#[trigger] s[i]).path,
            (#[trigger] s[j]).path,
            style,
        )
}

/// No file is queued twice.
pub proof fn files_are_queued_once(s: Seq<Item>, files: Seq<(Seq<char>, u64)>, style: Style)
    requires
        distinct_paths(s, style),
    ensures
        distinct_paths(with_files(s, files, style), style),
        forall|i: int|
            0 <= i < files.len() ==> has_path(
                with_files(s, files, style),
                (#[trigger] files[i]).0,
                style,
            ),
    decreases files.len(),
{
    if files.len() > 0 {
        let fewer = files.drop_last();
        files_are_queued_once(s, fewer, style);
        let t = with_files(s, fewer, style);
        let u = with_files(s, files, style);
        let path = files.last().0;
        assert forall|i: int| 0 <= i < files.len() implies has_path(
            u,
            (#[trigger] files[i]).0,
            style,
        ) by {
            if i < fewer.len() {
                assert(fewer[i] == files[i]);
                let j = choose|j: int|
                    0 <= j < t.len() && paths::are_same(
                        (#[trigger] t[j]).path,
                        files[i].0,
                        style,
                    );
                assert(u[j] == t[j]);
            } else if !has_path(t, path, style) {
                assert(u[t.len() as int].path == path);
            }
        }
        assert forall|i: int, j: int| 0 <= i < j < u.len() implies !paths::are_same(
            (#[trigger] u[i]).path,
            (#[trigger] u[j]).path,
            style,
        ) by {
            if j < t.len() {
                assert(u[i] == t[i] && u[j] == t[j]);
            } else {
                assert(u[i] == t[i]);
            }
        }
    }
}

/// Starting the queue leaves no file waiting, and every file that waited is sent.
pub proof fn starting_takes_all(s: Seq<Item>, i: int)
    requires
        0 <= i < s.len() <= usize::MAX,
        s[i].pending(),
    ensures
        ({
            let t = s.map_values(|i: Item| started(i));
            &&& !t[i].pending()
            &&& t[i].active()
            &&& due_indices(t, t.len()).contains(i as usize)
        }),
{
    let t = s.map_values(|i: Item| started(i));
    lemma_small_numbers();
    lemma_due(t, t.len(), i);
}

proof fn lemma_small_numbers()
    ensures
        is_part(nothing_sent()),
        is_whole(all_sent()),
{
    vstd::arithmetic::power2::lemma2_to64();
    assert(numbers::excess_bits(0, 24) == 0);
    assert(numbers::excess_bits(1, 24) == 0);
    assert(numbers::round_half_even(0, 1) == 0);
    assert(numbers::round_half_even(1, 1) == 1);
    assert(numbers::round_to_bits(0, 24) == 0);
    assert(numbers::round_to_bits(1, 24) == 1);
}

proof fn lemma_due(s: Seq<Item>, n: nat, i: int)
    requires
        0 <= i < n <= s.len(),
        s[i].due(),
    ensures
        due_indices(s, n).contains(i as usize),
    decreases n,
{
    let d = due_indices(s, n);
    if i == n - 1 {
        assert(d[d.len() - 1] == i as usize);
    } else {
        lemma_due(s, (n - 1) as nat, i);
        let before = due_indices(s, (n - 1) as nat);
        let k = choose|k: int| 0 <= k < before.len() && before[k] == i as usize;
        assert(d[k] == before[k]);
    }
}

/// A file that has been sent is done and one that has failed is not waiting; a failed file that is
/// retried waits again.
pub proof fn news_settle_a_file(q: State, index: usize, error: String)
    requires
        index < q.items.len(),
        q.can_take(QueueMsg::Done { index }),
    ensures
        q.told(QueueMsg::Done { index }).items[index as int].done(),
        ({
            let f = q.told(QueueMsg::Failed { index, error }).items[index as int];
            f.failed() && !f.done() && !f.pending() && !f.active() && retried(f).pending()
        }),
{
    lemma_small_numbers();
}

// ---- what the calls give ----

/// Whether two items agree in all that is known of them.
pub open spec fn agree(a: QueueItem, b: QueueItem) -> bool {
    &&& a.path@ == b.path@
    &&& a.name@ == b.name@
    &&& a.size == b.size
    &&& a.progress == b.progress
    &&& (a.error is Some <==> b.error is Some)
    &&& (a.error is Some ==> a.error->0@ == b.error->0@)
}

proof fn lemma_agree(a: QueueItem, b: QueueItem)
    ensures
        a@ == b@ <==> agree(a, b),
{
}

/// A new item waits under the last part of its path.
pub proof fn new_items_wait(path: String, size: u64, style: Style, r: QueueItem)
    requires
        call_ensures(QueueItem::new, (path, size, style), r),
    ensures
        r.path@ == path@,
        r.name@ == paths::name_or_empty(path@, style),
        r.size == size,
        r.progress is None,
        r.error is None,
{
}

pub proof fn lemma_with_files(s: Seq<Item>, files: Seq<(Seq<char>, u64)>, style: Style)
    ensures
        s.len() <= with_files(s, files, style).len() <= s.len() + files.len(),
        forall|i: int| 0 <= i < s.len() ==> #[trigger] with_files(s, files, style)[i] == s[i],
        forall|i: int|
            s.len() <= i < with_files(s, files, style).len() ==> {
                let f = #[trigger] with_files(s, files, style)[i];
                &&& files.contains((f.path, f.size))
                &&& f.name == paths::name_or_empty(f.path, style)
                &&& f.progress is None
                &&& f.error is None
            },
    decreases files.len(),
{
    if files.len() > 0 {
        let fewer = files.drop_last();
        lemma_with_files(s, fewer, style);
        let t = with_files(s, fewer, style);
        let u = with_files(s, files, style);
        assert forall|i: int| s.len() <= i < u.len() implies {
            let f = #[trigger] u[i];
            &&& files.contains((f.path, f.size))
            &&& f.name == paths::name_or_empty(f.path, style)
            &&& f.progress is None
            &&& f.error is None
        } by {
            if i < t.len() {
                assert(u[i] == t[i]);
                let k = choose|k: int| 0 <= k < fewer.len() && fewer[k] == (t[i].path, t[i].size);
                assert(files[k] == fewer[k]);
            } else {
                assert(files[files.len() - 1] == (u[i].path, u[i].size));
            }
        }
    }
}

/// Files are queued behind those that are there, which stay as they are. Each one queued is one
/// of the files given, with its size, waits, and goes by the last part of its path.
pub proof fn files_are_queued_as_they_are(q: &mut Queue, files: Vec<(String, u64)>, style: Style)
    requires
        call_ensures(Queue::add_files, (q, files, style), ()),
    ensures
        old(q).items@.len() <= final(q).items@.len() <= old(q).items@.len() + files@.len(),
        forall|i: int|
            0 <= i < old(q).items@.len() ==> agree(
                #[trigger] final(q).items@[i],
                old(q).items@[i],
            ),
        forall|i: int|
            old(q).items@.len() <= i < final(q).items@.len() ==> {
                let f = #[trigger] final(q).items@[i];
                &&& exists|k: int|
                    0 <= k < files@.len() && (#[trigger] files@[k]).0@ == f.path@ && files@[k].1
                        == f.size
                &&& f.name@ == paths::name_or_empty(f.path@, style)
                &&& f.progress is None
                &&& f.error is None
            },
        final(q).sent_bytes == old(q).sent_bytes,
        final(q).sent_files == old(q).sent_files,
{
    let s = old(q)@.items;
    let l = file_list(files@);
    lemma_with_files(s, l, style);
    let t = with_files(s, l, style);
    assert(final(q)@.items == t);
    assert forall|i: int| 0 <= i < s.len() implies agree(
        #[trigger] final(q).items@[i],
        old(q).items@[i],
    ) by {
        assert(final(q)@.items[i] == t[i]);
        assert(t[i] == s[i]);
        assert(final(q)@.items[i] == final(q).items@[i]@);
        lemma_agree(final(q).items@[i], old(q).items@[i]);
    }
    assert forall|i: int| s.len() <= i < t.len() implies {
        let f = #[trigger] final(q).items@[i];
        &&& exists|k: int|
            0 <= k < files@.len() && (#[trigger] files@[k]).0@ == f.path@ && files@[k].1 == f.size
        &&& f.name@ == paths::name_or_empty(f.path@, style)
        &&& f.progress is None
        &&& f.error is None
    } by {
        let f = final(q).items@[i];
        assert(final(q)@.items[i] == f@);
        assert(t[i] == f@);
        assert(l.contains((f.path@, f.size)));
        let k = choose|k: int| 0 <= k < l.len() && l[k] == (f.path@, f.size);
        assert(files@[k].0@ == f.path@ && files@[k].1 == f.size);
    }
}

/// Each file that is given is queued, under its path or one that leads to the same file.
pub proof fn no_file_is_left_out(
    q: &mut Queue,
    files: Vec<(String, u64)>,
    style: Style,
    k: int,
)
    requires
        call_ensures(Queue::add_files, (q, files, style), ()),
        0 <= k < files@.len(),
    ensures
        exists|i: int|
            0 <= i < final(q).items@.len() && paths::are_same(
                (#[trigger] final(q).items@[i]).path@,
                files@[k].0@,
                style,
            ),
{
    let l = file_list(files@);
    lemma_has_files(old(q)@.items, l, style, k);
    assert(l[k].0 == files@[k].0@);
    let t = with_files(old(q)@.items, l, style);
    let i = choose|i: int|
        0 <= i < t.len() && paths::are_same((#[trigger] t[i]).path, l[k].0, style);
    assert(final(q)@.items[i] == final(q).items@[i]@);
    assert(paths::are_same(final(q).items@[i].path@, files@[k].0@, style));
}

pub proof fn lemma_has_files(s: Seq<Item>, files: Seq<(Seq<char>, u64)>, style: Style, k: int)
    requires
        0 <= k < files.len(),
    ensures
        has_path(with_files(s, files, style), files[k].0, style),
    decreases files.len(),
{
    let fewer = files.drop_last();
    let t = with_files(s, fewer, style);
    let u = with_files(s, files, style);
    if k < fewer.len() {
        lemma_has_files(s, fewer, style, k);
        let i = choose|i: int|
            0 <= i < t.len() && paths::are_same((#[trigger] t[i]).path, fewer[k].0, style);
        assert(u[i] == t[i]);
    } else if !has_path(t, files[k].0, style) {
        assert(u[t.len() as int].path == files[k].0);
        paths::paths_lead_to_themselves(files[k].0, style);
    }
}

proof fn lemma_due_places(s: Seq<Item>, n: nat)
    requires
        n <= s.len() <= usize::MAX,
    ensures
        forall|k: int|
            0 <= k < due_indices(s, n).len() ==> #[trigger] due_indices(s, n)[k] < n
                && s[due_indices(s, n)[k] as int].due(),
        forall|j: int, k: int|
            0 <= j < k < due_indices(s, n).len() ==> #[trigger] due_indices(s, n)[j]
                < #[trigger] due_indices(s, n)[k],
        forall|i: int|
            0 <= i < n && (#[trigger] s[i]).due() ==> due_indices(s, n).contains(i as usize),
    decreases n,
{
    if n > 0 {
        let m = (n - 1) as nat;
        lemma_due_places(s, m);
        let b = due_indices(s, m);
        let d = due_indices(s, n);
        assert forall|k: int| 0 <= k < d.len() implies #[trigger] d[k] < n && s[d[k] as int].due() by {
            if k < b.len() {
                assert(d[k] == b[k]);
            }
        }
        assert forall|j: int, k: int| 0 <= j < k < d.len() implies #[trigger] d[j]
            < #[trigger] d[k] by {
            assert(d[j] == b[j]);
            if k < b.len() {
                assert(d[k] == b[k]);
            }
        }
        assert forall|i: int| 0 <= i < n && (#[trigger] s[i]).due() implies d.contains(
            i as usize,
        ) by {
            if i < m {
                assert(b.contains(i as usize));
                let k = choose|k: int| 0 <= k < b.len() && b[k] == i as usize;
                assert(d[k] == i as usize);
            } else {
                assert(d[b.len() as int] == i as usize);
            }
        }
    }
}

/// What is to be sent is in the queue: each file goes out from its own path, under its own name
/// and with its own size, and none goes out twice or before one that stands ahead of it.
pub proof fn files_go_out_under_their_names(q: &mut Queue, r: Vec<Outgoing>)
    requires
        call_ensures(Queue::start, (q,), r),
    ensures
        forall|k: int|
            0 <= k < r@.len() ==> {
                let i = (#[trigger] r@[k]).index as int;
                &&& 0 <= i < old(q).items@.len()
                &&& r@[k].path@ == old(q).items@[i].path@
                &&& r@[k].name@ == old(q).items@[i].name@
                &&& r@[k].size == old(q).items@[i].size
                &&& r@[k].path@ == final(q).items@[i].path@
                &&& r@[k].name@ == final(q).items@[i].name@
                &&& r@[k].size == final(q).items@[i].size
            },
        forall|j: int, k: int|
            0 <= j < k < r@.len() ==> (#[trigger] r@[j]).index < (#[trigger] r@[k]).index,
{
    let s = final(q)@.items;
    assert(final(q).items.len() == s.len());
    lemma_due_places(s, s.len());
    let d = due_indices(s, s.len());
    assert forall|k: int| 0 <= k < r@.len() implies ({
        let i = (#[trigger] r@[k]).index as int;
        &&& 0 <= i < old(q).items@.len()
        &&& r@[k].path@ == old(q).items@[i].path@
        &&& r@[k].name@ == old(q).items@[i].name@
        &&& r@[k].size == old(q).items@[i].size
        &&& r@[k].path@ == final(q).items@[i].path@
        &&& r@[k].name@ == final(q).items@[i].name@
        &&& r@[k].size == final(q).items@[i].size
    }) by {
        assert(r@[k].is(d[k], s[r@[k].index as int]));
        let i = r@[k].index as int;
        assert(s[i] == final(q).items@[i]@);
        assert(old(q)@.items[i] == old(q).items@[i]@);
        assert(s[i] == started(old(q)@.items[i]));
    }
    assert forall|j: int, k: int| 0 <= j < k < r@.len() implies (#[trigger] r@[j]).index < (
    #[trigger] r@[k]).index by {
        assert(r@[j].is(d[j], s[r@[j].index as int]));
        assert(r@[k].is(d[k], s[r@[k].index as int]));
        assert(d[j] < d[k]);
    }
}

/// A file that was queued by its path goes out under the last part of that path, which on Unix
/// holds no separator.
pub proof fn no_separator_goes_out(q: &mut Queue, r: Vec<Outgoing>, style: Style)
    requires
        call_ensures(Queue::start, (q,), r),
        forall|i: int|
            0 <= i < old(q).items@.len() ==> (#[trigger] old(q).items@[i]).name@
                == paths::name_or_empty(old(q).items@[i].path@, style),
    ensures
        forall|k: int|
            0 <= k < r@.len() ==> (#[trigger] r@[k]).name@ == paths::name_or_empty(
                r@[k].path@,
                style,
            ),
        style is Unix ==> forall|k: int|
            0 <= k < r@.len() ==> !(#[trigger] r@[k]).name@.contains('/'),
{
    files_go_out_under_their_names(q, r);
    assert forall|k: int| 0 <= k < r@.len() implies (#[trigger] r@[k]).name@
        == paths::name_or_empty(r@[k].path@, style) && (style is Unix ==> !r@[k].name@.contains(
        '/',
    )) by {
        let i = r@[k].index as int;
        assert(old(q).items@[i].name@ == paths::name_or_empty(old(q).items@[i].path@, style));
        if style is Unix {
            paths::last_parts_hold_no_separator(r@[k].path@);
        }
    }
}

/// A file that waits is started and goes out. One that failed before any of it was sent, and one
/// of which everything was sent, do not go out. What does not wait stays as it is.
pub proof fn waiting_files_go_out(q: &mut Queue, r: Vec<Outgoing>, i: int)
    requires
        call_ensures(Queue::start, (q,), r),
        0 <= i < old(q).items@.len(),
    ensures
        final(q).items@.len() == old(q).items@.len(),
        final(q).sent_bytes == old(q).sent_bytes,
        final(q).sent_files == old(q).sent_files,
        old(q).items@[i].progress is None && old(q).items@[i].error is None ==> {
            &&& final(q).items@[i].progress == Some(Sent { bytes: 0, size: 1 })
            &&& final(q).items@[i].error is None
            &&& exists|k: int| 0 <= k < r@.len() && (#[trigger] r@[k]).index == i
        },
        old(q).items@[i].progress is Some || old(q).items@[i].error is Some ==> agree(
            final(q).items@[i],
            old(q).items@[i],
        ),
        old(q).items@[i].progress is None && old(q).items@[i].error is Some ==> forall|k: int|
            0 <= k < r@.len() ==> (#[trigger] r@[k]).index != i,
        old(q).items@[i].progress matches Some(s) ==> s.bytes == s.size && s.bytes > 0
            ==> forall|k: int| 0 <= k < r@.len() ==> (#[trigger] r@[k]).index != i,
        old(q).items@[i].progress matches Some(s) ==> s.bytes < s.size < 0x100_0000
            && old(q).items@[i].error is None ==> exists|k: int|
            0 <= k < r@.len() && (#[trigger] r@[k]).index == i,
{
    let s = final(q)@.items;
    assert(final(q).items.len() == s.len());
    lemma_due_places(s, s.len());
    let d = due_indices(s, s.len());
    let a = old(q).items@[i];
    let b = final(q).items@[i];
    assert(s[i] == b@);
    assert(old(q)@.items[i] == a@);
    assert(s[i] == started(a@));
    lemma_agree(a, b);
    lemma_small_numbers();
    if a.progress is Some {
        let p = a.progress->0;
        if p.size < 0x100_0000 && p.bytes < p.size {
            vstd::arithmetic::power2::lemma2_to64();
            numbers::fitting_numbers_stay(p.bytes as nat, 24);
            numbers::fitting_numbers_stay(p.size as nat, 24);
        }
    }
    if s[i].due() {
        assert(d.contains(i as usize));
        let k = choose|k: int| 0 <= k < d.len() && d[k] == i as usize;
        assert(r@[k].is(d[k], s[r@[k].index as int]));
        assert(r@[k].index == i);
    } else {
        assert forall|k: int| 0 <= k < r@.len() implies (#[trigger] r@[k]).index != i by {
            assert(r@[k].is(d[k], s[r@[k].index as int]));
            assert(s[d[k] as int].due());
        }
    }
}

/// News of how far a file has been sent is kept with that file, and changes nothing else.
pub proof fn progress_is_kept(q: &mut Queue, index: usize, progress: Sent)
    requires
        call_ensures(Queue::take_message, (q, QueueMsg::Progress { index, progress }), ()),
    ensures
        final(q).items@.len() == old(q).items@.len(),
        final(q).sent_bytes == old(q).sent_bytes,
        final(q).sent_files == old(q).sent_files,
        index < old(q).items@.len() ==> {
            let (a, b) = (old(q).items@[index as int], final(q).items@[index as int]);
            &&& b.progress == Some(progress)
            &&& agree(b, QueueItem { progress: Some(progress), ..a })
        },
        forall|i: int|
            0 <= i < old(q).items@.len() && i != index ==> agree(
                #[trigger] final(q).items@[i],
                old(q).items@[i],
            ),
{
    lemma_told(q, QueueMsg::Progress { index, progress });
}

/// A file that has been sent is done, and is counted with its bytes.
pub proof fn sent_files_are_counted(q: &mut Queue, index: usize)
    requires
        call_ensures(Queue::take_message, (q, QueueMsg::Done { index }), ()),
        old(q)@.can_take(QueueMsg::Done { index }),
    ensures
        final(q).items@.len() == old(q).items@.len(),
        index < old(q).items@.len() ==> {
            let (a, b) = (old(q).items@[index as int], final(q).items@[index as int]);
            &&& agree(b, QueueItem { progress: Some(Sent { bytes: 1, size: 1 }), ..a })
            &&& final(q).sent_bytes == old(q).sent_bytes + a.size
            &&& final(q).sent_files == old(q).sent_files + 1
        },
        index >= old(q).items@.len() ==> final(q).sent_bytes == old(q).sent_bytes && final(q).sent_files == old(q).sent_files,
        forall|i: int|
            0 <= i < old(q).items@.len() && i != index ==> agree(
                #[trigger] final(q).items@[i],
                old(q).items@[i],
            ),
{
    lemma_told(q, QueueMsg::Done { index });
    if index < old(q).items@.len() {
        assert(old(q)@.items[index as int] == old(q).items@[index as int]@);
    }
}

/// A file that failed keeps the error and waits for being tried again; nothing is counted.
pub proof fn errors_are_kept(q: &mut Queue, index: usize, error: String)
    requires
        call_ensures(Queue::take_message, (q, QueueMsg::Failed { index, error }), ()),
    ensures
        final(q).items@.len() == old(q).items@.len(),
        final(q).sent_bytes == old(q).sent_bytes,
        final(q).sent_files == old(q).sent_files,
        index < old(q).items@.len() ==> {
            let (a, b) = (old(q).items@[index as int], final(q).items@[index as int]);
            agree(b, QueueItem { progress: None, error: Some(error), ..a })
        },
        forall|i: int|
            0 <= i < old(q).items@.len() && i != index ==> agree(
                #[trigger] final(q).items@[i],
                old(q).items@[i],
            ),
{
    lemma_told(q, QueueMsg::Failed { index, error });
}

proof fn lemma_told(q: &mut Queue, msg: QueueMsg)
    requires
        call_ensures(Queue::take_message, (q, msg), ()),
    ensures
        final(q)@ == old(q)@.told(msg),
        forall|i: int|
            0 <= i < old(q).items@.len() ==> (#[trigger] final(q).items@[i])@ == old(q)@.told(
                msg,
            ).items[i],
        forall|i: int|
            0 <= i < old(q).items@.len() ==> old(q)@.items[i] == (#[trigger] old(q).items@[i])@,
        final(q).items@.len() == old(q).items@.len(),
{
    assert(final(q)@.items.len() == final(q).items@.len());
    assert forall|i: int| 0 <= i < old(q).items@.len() implies (#[trigger] final(q).items@[i])@
        == old(q)@.told(msg).items[i] by {
        assert(final(q)@.items[i] == final(q).items@[i]@);
    }
}

/// The file at a place leaves the queue; those behind it move up.
pub proof fn one_file_is_removed(q: &mut Queue, idx: usize)
    requires
        call_ensures(Queue::remove_queue_item, (q, idx), ()),
    ensures
        idx < old(q).items@.len() ==> final(q).items@.len() == old(q).items@.len() - 1,
        idx >= old(q).items@.len() ==> final(q).items@.len() == old(q).items@.len(),
        forall|i: int|
            0 <= i < final(q).items@.len() ==> agree(
                #[trigger] final(q).items@[i],
                old(q).items@[if i < idx {
                    i
                } else {
                    i + 1
                }],
            ),
        final(q).sent_bytes == old(q).sent_bytes,
        final(q).sent_files == old(q).sent_files,
{
    assert(final(q)@.items.len() == final(q).items@.len());
    assert forall|i: int| 0 <= i < final(q).items@.len() implies agree(
        #[trigger] final(q).items@[i],
        old(q).items@[if i < idx {
            i
        } else {
            i + 1
        }],
    ) by {
        let j = if i < idx {
            i
        } else {
            i + 1
        };
        assert(final(q)@.items[i] == final(q).items@[i]@);
        assert(old(q)@.items[j] == old(q).items@[j]@);
    }
}

/// Clearing leaves the files that have no error and of which not everything was sent, in their
/// order: a file that waits stays, one that failed or of which everything was sent goes.
pub proof fn finished_files_are_cleared(q: &mut Queue)
    requires
        call_ensures(Queue::clear_done, (q,), ()),
    ensures
        order::keeps(
            items(final(q).items@),
            items(old(q).items@),
            |i: Item|
                i.error is None && (i.progress matches Some(s) ==> numbers::round_to_bits(
                    s.bytes as nat,
                    24,
                ) != numbers::round_to_bits(s.size as nat, 24)),
        ),
        forall|i: int|
            0 <= i < final(q).items@.len() ==> {
                let f = #[trigger] final(q).items@[i];
                f.error is None && (f.progress matches Some(s) ==> s.bytes != s.size)
            },
        forall|i: int|
            0 <= i < old(q).items@.len() && (#[trigger] old(q).items@[i]).error is None && old(q).items@[i].progress is None ==> exists|k: int|
                0 <= k < final(q).items@.len() && agree(
                    #[trigger] final(q).items@[k],
                    old(q).items@[i],
                ),
        final(q).sent_bytes == old(q).sent_bytes,
        final(q).sent_files == old(q).sent_files,
{
    let f = |i: Item| !i.done() && !i.failed();
    let g = |i: Item|
        i.error is None && (i.progress matches Some(s) ==> numbers::round_to_bits(
            s.bytes as nat,
            24,
        ) != numbers::round_to_bits(s.size as nat, 24));
    let a = items(old(q).items@);
    let b = items(final(q).items@);
    assert(f =~= g);
    order::filtering_keeps(a, g);
    order::kept_members(b, a, g);
    assert forall|i: int| 0 <= i < final(q).items@.len() implies {
        let f = #[trigger] final(q).items@[i];
        f.error is None && (f.progress matches Some(s) ==> s.bytes != s.size)
    } by {
        assert(g(b[i]));
    }
    assert forall|i: int|
        0 <= i < old(q).items@.len() && (#[trigger] old(q).items@[i]).error is None && old(q).items@[i].progress is None implies exists|k: int|
        0 <= k < final(q).items@.len() && agree(
            #[trigger] final(q).items@[k],
            old(q).items@[i],
        ) by {
        assert(g(a[i]));
        assert(b.contains(a[i]));
        let k = choose|k: int| 0 <= k < b.len() && b[k] == a[i];
        lemma_agree(final(q).items@[k], old(q).items@[i]);
        assert(agree(final(q).items@[k], old(q).items@[i]));
    }
}

/// Files that failed wait again, and no others change.
pub proof fn failed_files_wait_again(q: &mut Queue)
    requires
        call_ensures(Queue::retry_failed, (q,), ()),
    ensures
        final(q).items@.len() == old(q).items@.len(),
        forall|i: int|
            0 <= i < old(q).items@.len() ==> agree(
                #[trigger] final(q).items@[i],
                if old(q).items@[i].error is Some {
                    QueueItem { error: None, progress: None, ..old(q).items@[i] }
                } else {
                    old(q).items@[i]
                },
            ),
        final(q).sent_bytes == old(q).sent_bytes,
        final(q).sent_files == old(q).sent_files,
{
    assert(final(q)@.items.len() == final(q).items@.len());
    assert forall|i: int| 0 <= i < old(q).items@.len() implies agree(
        #[trigger] final(q).items@[i],
        if old(q).items@[i].error is Some {
            QueueItem { error: None, progress: None, ..old(q).items@[i] }
        } else {
            old(q).items@[i]
        },
    ) by {
        assert(final(q)@.items[i] == final(q).items@[i]@);
        assert(old(q)@.items[i] == old(q).items@[i]@);
    }
}

/// An item waits, is being sent, is done or has failed by what is known of it.
pub proof fn states_of_an_item(i: &QueueItem, waits: bool, active: bool, done: bool, failed: bool)
    requires
        call_ensures(QueueItem::is_pending, (i,), waits),
        call_ensures(QueueItem::is_active, (i,), active),
        call_ensures(QueueItem::is_done, (i,), done),
        call_ensures(QueueItem::is_failed, (i,), failed),
    ensures
        failed <==> i.error is Some,
        waits <==> i.error is None && i.progress is None,
        waits ==> !active && !done && !failed,
        active ==> !done && !failed,
        i.progress is None ==> !active && !done,
        i.progress matches Some(s) ==> s.bytes == s.size ==> done,
        i.progress matches Some(s) ==> s.bytes < s.size < 0x100_0000 ==> !done && (active
            <==> i.error is None),
{
    if i.progress is Some {
        let p = i.progress->0;
        if p.bytes < p.size && p.size < 0x100_0000 {
            vstd::arithmetic::power2::lemma2_to64();
            numbers::fitting_numbers_stay(p.bytes as nat, 24);
            numbers::fitting_numbers_stay(p.size as nat, 24);
        }
    }
}

/// A tally says of how many files it is, and whether any of them waits, has failed, is done or
/// is being sent, and whether all do.
pub proof fn tallies_count(q: &Queue, t: Tally)
    requires
        call_ensures(Queue::tally, (q,), t),
    ensures
        t.total == q.items@.len(),
        t.pending > 0 <==> exists|i: int|
            0 <= i < q.items@.len() && (#[trigger] q.items@[i]).error is None
                && q.items@[i].progress is None,
        t.failed > 0 <==> exists|i: int|
            0 <= i < q.items@.len() && (#[trigger] q.items@[i]).error is Some,
        t.done > 0 <==> exists|i: int|
            0 <= i < q.items@.len() && (#[trigger] q.items@[i]).progress is Some && is_whole(
                q.items@[i].progress->0,
            ),
        t.pending == t.total <==> forall|i: int|
            0 <= i < q.items@.len() ==> (#[trigger] q.items@[i]).error is None
                && q.items@[i].progress is None,
        t.failed == t.total <==> forall|i: int|
            0 <= i < q.items@.len() ==> (#[trigger] q.items@[i]).error is Some,
        t.done == t.total <==> forall|i: int|
            0 <= i < q.items@.len() ==> (#[trigger] q.items@[i]).progress is Some && is_whole(
                q.items@[i].progress->0,
            ),
        t.active <==> exists|i: int|
            0 <= i < q.items@.len() && (#[trigger] q.items@[i]).error is None
                && q.items@[i].progress is Some && is_part(q.items@[i].progress->0),
{
    let s = items(q.items@);
    assert(s == q@.items);
    lemma_count(s, |i: Item| i.pending());
    lemma_count(s, |i: Item| i.failed());
    lemma_count(s, |i: Item| i.done());
    assert forall|i: int| 0 <= i < q.items@.len() implies s[i] == (#[trigger] q.items@[i])@ by {}
    if t.pending > 0 {
        let i = choose|i: int| 0 <= i < s.len() && (#[trigger] s[i]).pending();
        assert(q.items@[i].error is None);
    }
    if t.failed > 0 {
        let i = choose|i: int| 0 <= i < s.len() && (#[trigger] s[i]).failed();
        assert(q.items@[i].error is Some);
    }
    if t.done > 0 {
        let i = choose|i: int| 0 <= i < s.len() && (#[trigger] s[i]).done();
        assert(q.items@[i].progress is Some);
    }
    if t.active {
        let i = choose|i: int| 0 <= i < s.len() && (#[trigger] s[i]).active();
        assert(q.items@[i].progress is Some);
    }
    if t.pending < t.total {
        let i = choose|i: int| 0 <= i < s.len() && !(#[trigger] s[i]).pending();
        assert(!(q.items@[i].error is None && q.items@[i].progress is None));
    }
    if t.failed < t.total {
        let i = choose|i: int| 0 <= i < s.len() && !(#[trigger] s[i]).failed();
        assert(!(q.items@[i].error is Some));
    }
    if t.done < t.total {
        let i = choose|i: int| 0 <= i < s.len() && !(#[trigger] s[i]).done();
        assert(!(q.items@[i].progress is Some && is_whole(q.items@[i].progress->0)));
    }
}

proof fn lemma_count(s: Seq<Item>, p: spec_fn(Item) -> bool)
    ensures
        s.filter(p).len() <= s.len(),
        s.filter(p).len() > 0 <==> exists|i: int| 0 <= i < s.len() && p(#[trigger] s[i]),
        s.filter(p).len() == s.len() <==> forall|i: int| 0 <= i < s.len() ==> p(#[trigger] s[i]),
    decreases s.len(),
{
    reveal(Seq::filter);
    if s.len() > 0 {
        let t = s.drop_last();
        lemma_count(t, p);
        assert(s.last() == s[s.len() - 1]);
        assert forall|i: int| 0 <= i < t.len() implies t[i] == #[trigger] s[i] by {}
        if t.filter(p).len() > 0 {
            let i = choose|i: int| 0 <= i < t.len() && p(#[trigger] t[i]);
            assert(p(s[i]));
        }
        if t.filter(p).len() < t.len() {
            let i = choose|i: int| 0 <= i < t.len() && !p(#[trigger] t[i]);
            assert(!p(s[i]));
        }
    }
}

/// A new queue is empty, and nothing has been sent.
pub proof fn queues_begin_empty(q: Queue)
    requires
        call_ensures(Queue::new, (), q),
    ensures
        q.items@.len() == 0,
        q.sent_bytes == 0,
        q.sent_files == 0,
{
    assert(q@.items.len() == q.items@.len());
}

/// News are refused only where a counter would overflow.
pub proof fn only_full_counters_refuse(q: &Queue, index: usize, r: bool)
    requires
        call_ensures(Queue::accepts, (q, &QueueMsg::Done { index }), r),
    ensures
        index >= q.items@.len() ==> r,
        index < q.items@.len() ==> (r <==> q.sent_bytes + q.items@[index as int].size
            <= 0xffff_ffff_ffff_ffff && q.sent_files < 0xffff_ffff),
{
    if index < q.items@.len() {
        assert(q@.items[index as int] == q.items@[index as int]@);
    }
}

/// A queue can be sent where a device is chosen, a file waits and none is being sent; where a device
/// or files are missing, the hint says which.
pub proof fn queues_can_be_sent(t: &Tally, device: bool, r: bool, o: Obstacle)
    requires
        call_ensures(Tally::can_send, (t, device), r),
        call_ensures(Tally::obstacle, (t, device), o),
    ensures
        r <==> device && t.pending > 0 && !t.active,
        o is NoDeviceNoFiles || o is NoDevice <==> !device,
        o is NoDeviceNoFiles || o is NoFiles <==> t.total == 0,
{
}

/// Files that are neither sent nor failed nor waiting are being sent; a queue is finished where each
/// has been sent or has failed.
pub proof fn tallies_add_up(t: &Tally, sending: usize, finished: bool)
    requires
        call_ensures(Tally::sending, (t,), sending),
        call_ensures(Tally::finished, (t,), finished),
        t.done + t.failed + t.pending <= t.total,
    ensures
        t.done + t.failed + t.pending + sending == t.total,
        finished <==> t.pending + sending == 0,
{
}

/// A file is being sent where the tally says so.
pub proof fn sending_is_told(q: &Queue, t: Tally, r: bool)
    requires
        call_ensures(Queue::tally, (q,), t),
        call_ensures(Queue::any_active, (q,), r),
    ensures
        r == t.active,
{
}

/// The numbers of a tally are those of the files that are done, have failed and wait.
pub proof fn tallies_are_exact(q: &Queue, t: Tally)
    requires
        call_ensures(Queue::tally, (q,), t),
    ensures
        order::counts(
            items(q.items@),
            |i: Item| i.progress is Some && is_whole(i.progress->0),
            t.done as int,
        ),
        order::counts(items(q.items@), |i: Item| i.error is Some, t.failed as int),
        order::counts(
            items(q.items@),
            |i: Item| i.progress is None && i.error is None,
            t.pending as int,
        ),
{
    let s = items(q.items@);
    let d = |i: Item| i.progress is Some && is_whole(i.progress->0);
    let f = |i: Item| i.error is Some;
    let p = |i: Item| i.progress is None && i.error is None;
    assert((|i: Item| i.done()) =~= d);
    assert((|i: Item| i.failed()) =~= f);
    assert((|i: Item| i.pending()) =~= p);
    order::filtering_counts(s, d);
    order::filtering_counts(s, f);
    order::filtering_counts(s, p);
}

/// Of a share that is more than all, nothing is done and nothing is being sent.
pub proof fn more_than_all_is_not_done(i: &QueueItem, active: bool, done: bool)
    requires
        call_ensures(QueueItem::is_active, (i,), active),
        call_ensures(QueueItem::is_done, (i,), done),
        i.progress is Some,
        i.progress->0.size < i.progress->0.bytes < 0x100_0000,
    ensures
        !active,
        !done,
{
    vstd::arithmetic::power2::lemma2_to64();
    numbers::fitting_numbers_stay(i.progress->0.bytes as nat, 24);
    numbers::fitting_numbers_stay(i.progress->0.size as nat, 24);
}

proof fn lemma_file_places(s: Seq<Item>, files: Seq<(Seq<char>, u64)>, style: Style) -> (at: Seq<
    int,
>)
    ensures
        order::are_places(at, files.len() as int),
        with_files(s, files, style).len() == s.len() + at.len(),
        forall|i: int|
            0 <= i < at.len() ==> with_files(s, files, style)[s.len() + i].path == files[
            #[trigger] at[i]].0 && with_files(s, files, style)[s.len() + i].size == files[at[i]].1,
    decreases files.len(),
{
    if files.len() == 0 {
        Seq::empty()
    } else {
        let fewer = files.drop_last();
        let before = lemma_file_places(s, fewer, style);
        let t = with_files(s, fewer, style);
        let u = with_files(s, files, style);
        let n = fewer.len() as int;
        if has_path(t, files.last().0, style) {
            before
        } else {
            let at = before.push(n);
            assert forall|i: int| 0 <= i < at.len() implies 0 <= #[trigger] at[i] < files.len() by {
                if i < before.len() {
                    assert(at[i] == before[i]);
                }
            }
            assert forall|i: int, j: int| 0 <= i < j < at.len() implies #[trigger] at[i]
                < #[trigger] at[j] by {
                assert(at[i] == before[i]);
                if j < before.len() {
                    assert(at[j] == before[j]);
                }
            }
            assert forall|i: int| 0 <= i < at.len() implies u[s.len() + i].path == files[
            #[trigger] at[i]].0 && u[s.len() + i].size == files[at[i]].1 by {
                if i < before.len() {
                    assert(at[i] == before[i]);
                    assert(u[s.len() + i] == t[s.len() + i]);
                }
            }
            at
        }
    }
}

/// Whether the items behind the first `n` are the files at the places `at`.
pub open spec fn are_files_at(
    v: Seq<QueueItem>,
    n: int,
    files: Seq<(String, u64)>,
    at: Seq<int>,
) -> bool {
    &&& order::are_places(at, files.len() as int)
    &&& v.len() == n + at.len()
    &&& forall|i: int|
        0 <= i < at.len() ==> v[n + i].path@ == files[#[trigger] at[i]].0@ && v[n + i].size
            == files[at[i]].1
}

/// Files are queued in the order in which they are given.
pub proof fn files_are_queued_in_order(q: &mut Queue, files: Vec<(String, u64)>, style: Style)
    requires
        call_ensures(Queue::add_files, (q, files, style), ()),
    ensures
        exists|at: Seq<int>|
            are_files_at(final(q).items@, old(q).items@.len() as int, files@, at),
{
    let l = file_list(files@);
    let s = old(q)@.items;
    let at = lemma_file_places(s, l, style);
    let t = with_files(s, l, style);
    assert(final(q)@.items == t);
    assert(final(q)@.items.len() == final(q).items@.len());
    let v = final(q).items@;
    let n = s.len() as int;
    assert forall|i: int| 0 <= i < at.len() implies v[n + i].path@ == files@[
    #[trigger] at[i]].0@ && v[n + i].size == files@[at[i]].1 by {
        assert(t[n + i] == v[n + i]@);
        assert(l[at[i]] == (files@[at[i]].0@, files@[at[i]].1));
    }
    assert(are_files_at(v, n, files@, at));
}

/// The hints are worded by what is missing.
pub proof fn hints_are_worded(o: Obstacle, r: &'static str)
    requires
        call_ensures(Obstacle::message, (o,), r),
    ensures
        o is NoDeviceNoFiles ==> r@ == "Select a device and add files above"@,
        o is NoDevice ==> r@ == "Select a destination device above"@,
        o is NoFiles ==> r@ == "Add files to the queue above"@,
        o is NoPending ==> r@ == "No pending files to send"@,
{
}

} // verus!
