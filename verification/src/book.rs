//! The list of devices, and the one that is chosen.
use vstd::prelude::*;

use crate::order;
use crate::peers;
use crate::peers::{Device, Peer, PeerKind};
use crate::text;

verus! {

#[derive(Clone, Copy, Debug, PartialEq, Eq, Structural)]
pub enum ScanState {
    Idle,
    Scanning,
    Done,
}

/// The devices that are known, and the one that is chosen.
pub struct PeerBook {
    pub peers: Vec<Peer>,
    /// The index of the chosen device.
    pub selected: Option<usize>,
    pub scan_state: ScanState,
    /// The device that was chosen last, also in an earlier run.
    pub saved_peer_name: String,
    pub saved_peer_addr: String,
    /// The devices entered by hand.
    pub manual_peers: Vec<Peer>,
    pub this_hostname: String,
    pub this_ip: String,
}

/// What a book of devices says.
pub struct Book {
    pub peers: Seq<Device>,
    pub selected: Option<usize>,
    pub scan_state: ScanState,
    pub saved_peer_name: Seq<char>,
    pub saved_peer_addr: Seq<char>,
    pub manual_peers: Seq<Device>,
    pub this_hostname: Seq<char>,
    pub this_ip: Seq<char>,
}

impl View for PeerBook {
    type V = Book;

    open spec fn view(&self) -> Book {
        Book {
            peers: peers::devices(self.peers@),
            selected: self.selected,
            scan_state: self.scan_state,
            saved_peer_name: self.saved_peer_name@,
            saved_peer_addr: self.saved_peer_addr@,
            manual_peers: peers::devices(self.manual_peers@),
            this_hostname: self.this_hostname@,
            this_ip: self.this_ip@,
        }
    }
}

impl Book {
    /// The chosen device, where it is still in the list.
    pub open spec fn chosen(self) -> Option<Device> {
        match self.selected {
            Some(i) => if i < self.peers.len() {
                Some(self.peers[i as int])
            } else {
                None
            },
            None => None,
        }
    }

    /// The book while devices are looked for.
    pub open spec fn scanning(self) -> Book {
        Book { peers: seq![], selected: None, scan_state: ScanState::Scanning, ..self }
    }

    /// The book once `found` has been found.
    pub open spec fn scanned(self, found: Seq<Device>) -> Book {
        Book {
            peers: with_missing(
                found.filter(
                    |d: Device| d.addr != self.this_ip && d.name != self.this_hostname,
                ),
                self.manual_peers,
            ),
            scan_state: ScanState::Done,
            ..self
        }
    }

    /// The book after a click on the device at `i`, which chooses it or gives the choice up.
    pub open spec fn clicked(self, i: usize) -> Book {
        if self.selected == Some(i) {
            Book { selected: None, ..self }
        } else {
            Book {
                selected: Some(i),
                saved_peer_name: self.peers[i as int].name,
                saved_peer_addr: self.peers[i as int].addr,
                ..self
            }
        }
    }

    /// The book once the relay has paired this device with `name`, which is then chosen.
    pub open spec fn paired(self, name: Seq<char>) -> Book {
        let relayed = Device {
            name,
            addr: peers::RELAY_PEER_ADDR@,
            kind: PeerKind::Remote,
            latency: None,
        };
        let all = if peers::has_addr(self.peers, relayed.addr) {
            self.peers
        } else {
            self.peers.push(relayed)
        };
        Book {
            peers: all,
            selected: Some(peers::addr_index(all, relayed.addr) as usize),
            saved_peer_name: name,
            saved_peer_addr: relayed.addr,
            ..self
        }
    }

    /// The book once the device with the address `addr` has answered within `ms`.
    pub open spec fn measured(self, addr: Seq<char>, ms: u32) -> Book {
        let i = peers::addr_index(self.peers, addr) as int;
        if i < self.peers.len() {
            Book {
                peers: self.peers.update(i, Device { latency: Some(ms), ..self.peers[i] }),
                ..self
            }
        } else {
            self
        }
    }

    /// The book once the device that was chosen last has been chosen again, where it is there.
    pub open spec fn reselected(self) -> Book {
        let i = peers::addr_index(self.peers, self.saved_peer_addr);
        if self.selected is Some || self.saved_peer_addr.len() == 0 || i >= self.peers.len() {
            self
        } else {
            Book { selected: Some(i as usize), ..self }
        }
    }
}

/// `s` with those of `more` at its end whose addresses are missing.
pub open spec fn with_missing(s: Seq<Device>, more: Seq<Device>) -> Seq<Device>
    decreases more.len(),
{
    if more.len() == 0 {
        s
    } else {
        let t = with_missing(s, more.drop_last());
        if peers::has_addr(t, more.last().addr) {
            t
        } else {
            t.push(more.last())
        }
    }
}

impl PeerBook {
    /// The chosen device.
    pub fn selected_peer(&self) -> (r: Option<&Peer>)
        ensures
            match r {
                Some(p) => self@.chosen() == Some(p@) && self.selected is Some && self.selected->0
                    < self.peers@.len() && *p == self.peers@[self.selected->0 as int],
                None => self@.chosen() is None,
            },
    {
        match self.selected {
            Some(i) => if i < self.peers.len() {
                assert(self@.peers[i as int] == self.peers@[i as int]@);
                Some(&self.peers[i])
            } else {
                None
            },
            None => None,
        }
    }

    /// Forgets the devices, to look for them anew.
    pub fn start_scan(&mut self)
        ensures
            final(self)@ == old(self)@.scanning(),
    {
        self.peers.clear();
        self.selected = None;
        self.scan_state = ScanState::Scanning;
        assert(peers::devices(self.peers@) =~= seq![]);
    }

    /// Takes the devices that have been found: all but this one, and those entered by hand.
    pub fn finish_scan(&mut self, found: Vec<Peer>)
        ensures
            final(self)@ == old(self)@.scanned(peers::devices(found@)),
    {
        let ghost all = peers::devices(found@);
        let ghost b = self@;
        let ghost keep = |d: Device| d.addr != b.this_ip && d.name != b.this_hostname;
        let mut list: Vec<Peer> = Vec::new();
        let mut i: usize = 0;
        assert(all.take(0) =~= Seq::<Device>::empty());
        assert(peers::devices(list@) =~= all.take(0).filter(keep)) by {
            reveal(Seq::filter);
        }
        while i < found.len()
            invariant
                i <= found@.len(),
                *self == *old(self),
                all == peers::devices(found@),
                b == self@,
                keep == (|d: Device| d.addr != b.this_ip && d.name != b.this_hostname),
                peers::devices(list@) == all.take(i as int).filter(keep),
            decreases found@.len() - i,
        {
            let ghost before = peers::devices(list@);
            proof {
                reveal(Seq::filter);
                assert(all.take(i + 1).drop_last() =~= all.take(i as int));
            }
            if !text::same_text(found[i].addr.as_str(), self.this_ip.as_str()) && !text::same_text(
                found[i].name.as_str(),
                self.this_hostname.as_str(),
            ) {
                let p: Peer = found[i].clone();
                list.push(p);
                assert(peers::devices(list@) =~= before.push(p@));
            }
            i = i + 1;
        }
        assert(all.take(i as int) =~= all);
        let ghost first = peers::devices(list@);
        let ghost manual = peers::devices(self.manual_peers@);
        let mut i: usize = 0;
        assert(manual.take(0) =~= Seq::<Device>::empty());
        while i < self.manual_peers.len()
            invariant
                i <= self.manual_peers@.len(),
                *self == *old(self),
                manual == peers::devices(self.manual_peers@),
                peers::devices(list@) == with_missing(first, manual.take(i as int)),
            decreases self.manual_peers@.len() - i,
        {
            let ghost before = peers::devices(list@);
            proof {
                assert(manual.take(i + 1).drop_last() =~= manual.take(i as int));
                assert(manual.take(i + 1).last() == self.manual_peers@[i as int]@);
            }
            if peers::find_addr(&list, self.manual_peers[i].addr.as_str()).is_none() {
                let p: Peer = self.manual_peers[i].clone();
                list.push(p);
                assert(peers::devices(list@) =~= before.push(p@));
            }
            i = i + 1;
        }
        assert(manual.take(i as int) =~= manual);
        self.peers = list;
        self.scan_state = ScanState::Done;
    }

    /// Chooses the device at `idx`, or gives the choice up where it was chosen.
    pub fn select_peer(&mut self, idx: usize)
        requires
            idx < old(self).peers@.len(),
        ensures
            final(self)@ == old(self)@.clicked(idx),
            final(self).peers == old(self).peers,
    {
        let again: bool = match self.selected {
            Some(i) => i == idx,
            None => false,
        };
        if again {
            self.selected = None;
        } else {
            self.selected = Some(idx);
            self.saved_peer_name = self.peers[idx].name.clone();
            self.saved_peer_addr = self.peers[idx].addr.clone();
            assert(self@.peers[idx as int] == self.peers@[idx as int]@);
        }
    }

    /// Chooses the device that was chosen last, where none is chosen and it is there.
    pub fn try_auto_select(&mut self)
        ensures
            final(self)@ == old(self)@.reselected(),
    {
        if self.selected.is_some() || text::same_text(self.saved_peer_addr.as_str(), "") {
            proof {
                reveal_strlit("");
            }
            return;
        }
        proof {
            reveal_strlit("");
            assert(self.saved_peer_addr@.len() == 0 ==> self.saved_peer_addr@ =~= ""@);
        }
        match peers::find_addr(&self.peers, self.saved_peer_addr.as_str()) {
            Some(i) => {
                self.selected = Some(i);
            },
            None => {},
        }
    }

    /// Notes how fast the device with the address `addr` has answered.
    pub fn set_latency(&mut self, addr: &str, ms: u32)
        ensures
            final(self)@ == old(self)@.measured(addr@, ms),
    {
        match peers::find_addr(&self.peers, addr) {
            Some(i) => {
                let ghost before = self@.peers;
                let p: Peer = self.peers[i].clone();
                let q: Peer = Peer { latency: Some(ms), ..p };
                self.peers[i] = q;
                assert(self@.peers =~= before.update(i as int, q@));
                assert(before[i as int] == p@);
            },
            None => {},
        }
    }

    /// Adds the device at the other end of the relay, and chooses it.
    pub fn add_relay_peer(&mut self, name: &str)
        requires
            old(self).peers@.len() < usize::MAX,
        ensures
            final(self)@ == old(self)@.paired(name@),
    {
        let ghost before = self@.peers;
        if peers::find_addr(&self.peers, peers::RELAY_PEER_ADDR).is_none() {
            let p: Peer = Peer {
                name: name.to_string(),
                addr: peers::RELAY_PEER_ADDR.to_string(),
                kind: PeerKind::Remote,
                latency: None,
            };
            self.peers.push(p);
            assert(self@.peers =~= before.push(p@));
            assert(self@.peers[before.len() as int].addr == peers::RELAY_PEER_ADDR@);
        }
        match peers::find_addr(&self.peers, peers::RELAY_PEER_ADDR) {
            Some(i) => {
                self.selected = Some(i);
                self.saved_peer_name = name.to_string();
                self.saved_peer_addr = peers::RELAY_PEER_ADDR.to_string();
            },
            None => {},
        }
    }
}

// ---- the order for display ----

/// Whether `a` comes before `b` in a dictionary, by the numbers of the characters.
pub open spec fn text_before(a: Seq<char>, b: Seq<char>) -> bool
    decreases a.len(),
{
    if b.len() == 0 {
        false
    } else if a.len() == 0 {
        true
    } else if a[0] != b[0] {
        a[0] < b[0]
    } else {
        text_before(a.drop_first(), b.drop_first())
    }
}

/// Whether `a` is shown before `b`: the device that was chosen last comes first, the others by name.
pub open spec fn shown_before(a: Device, b: Device, saved: Seq<char>) -> bool {
    let ra = a.addr == saved;
    let rb = b.addr == saved;
    (ra && !rb) || (ra == rb && text_before(a.name, b.name))
}

/// Where a device is put into a list for display: behind all that it does not come before.
pub open spec fn place(order: Seq<usize>, s: Seq<Device>, saved: Seq<char>, d: Device) -> nat
    decreases order.len(),
{
    if order.len() == 0 || !shown_before(d, s[order.last() as int], saved) {
        order.len()
    } else {
        place(order.drop_last(), s, saved, d)
    }
}

/// The indices of the first `n` devices that were found on the local network, in the order for
/// display.
pub open spec fn display_order(s: Seq<Device>, saved: Seq<char>, n: nat) -> Seq<usize>
    decreases n,
{
    if n == 0 {
        seq![]
    } else {
        let before = display_order(s, saved, (n - 1) as nat);
        let d = s[n - 1];
        if d.kind is Local {
            before.insert(place(before, s, saved, d) as int, (n - 1) as usize)
        } else {
            before
        }
    }
}

/// Whether a device passes a filter in small letters, by its name in small letters or its address.
pub open spec fn passes(lower_name: Seq<char>, addr: Seq<char>, filter: Seq<char>) -> bool {
    filter.len() == 0 || text::contains_text(lower_name, filter) || text::contains_text(
        addr,
        filter,
    )
}

/// Whether a device passes a filter in small letters.
pub fn passes_filter(lower_name: &str, addr: &str, filter: &str) -> (r: bool)
    ensures
        r == passes(lower_name@, addr@, filter@),
{
    proof {
        reveal_strlit("");
        assert(filter@.len() == 0 ==> filter@ =~= ""@);
    }
    text::same_text(filter, "") || text::has_text(lower_name, filter) || text::has_text(
        addr,
        filter,
    )
}

/// Whether `a` comes before `b` in a dictionary.
pub fn comes_before(a: &str, b: &str) -> (r: bool)
    ensures
        r == text_before(a@, b@),
{
    let x: Vec<char> = text::chars_of(a);
    let y: Vec<char> = text::chars_of(b);
    let mut i: usize = 0;
    assert(x@.skip(0) =~= x@);
    assert(y@.skip(0) =~= y@);
    while i < x.len() && i < y.len()
        invariant
            x@ == a@,
            y@ == b@,
            i <= x@.len(),
            i <= y@.len(),
            text_before(x@, y@) == text_before(x@.skip(i as int), y@.skip(i as int)),
        decreases x@.len() - i,
    {
        proof {
            assert(x@.skip(i as int).drop_first() =~= x@.skip(i + 1));
            assert(y@.skip(i as int).drop_first() =~= y@.skip(i + 1));
        }
        if x[i] != y[i] {
            return x[i] < y[i];
        }
        i = i + 1;
    }
    i < y.len()
}

impl PeerBook {
    fn is_shown_before(&self, a: &Peer, b: &Peer) -> (r: bool)
        ensures
            r == shown_before(a@, b@, self.saved_peer_addr@),
    {
        let ra: bool = text::same_text(a.addr.as_str(), self.saved_peer_addr.as_str());
        let rb: bool = text::same_text(b.addr.as_str(), self.saved_peer_addr.as_str());
        (ra && !rb) || (ra == rb && comes_before(a.name.as_str(), b.name.as_str()))
    }

    /// The indices of the devices on the local network, in the order for display.
    pub fn local_order(&self) -> (r: Vec<usize>)
        ensures
            r@ == display_order(self@.peers, self.saved_peer_addr@, self.peers@.len()),
    {
        let ghost s = self@.peers;
        let ghost saved = self.saved_peer_addr@;
        let mut r: Vec<usize> = Vec::new();
        let mut n: usize = 0;
        while n < self.peers.len()
            invariant
                n <= self.peers@.len(),
                s == self@.peers,
                s.len() == self.peers@.len(),
                saved == self.saved_peer_addr@,
                r@ == display_order(s, saved, n as nat),
                forall|i: int| 0 <= i < r@.len() ==> #[trigger] r@[i] < n,
            decreases self.peers@.len() - n,
        {
            let local: bool = match self.peers[n].kind {
                PeerKind::Local => true,
                PeerKind::Remote => false,
            };
            let ghost order = r@;
            assert(s[n as int] == self.peers@[n as int]@);
            if local {
                let mut at: usize = r.len();
                assert(order.take(at as int) =~= order);
                while at > 0 && self.is_shown_before(&self.peers[n], &self.peers[r[at - 1]])
                    invariant
                        at <= r@.len(),
                        r@ == order,
                        n < self.peers@.len(),
                        s == self@.peers,
                        s.len() == self.peers@.len(),
                        saved == self.saved_peer_addr@,
                        s[n as int] == self.peers@[n as int]@,
                        forall|i: int| 0 <= i < r@.len() ==> #[trigger] r@[i] < n,
                        place(order, s, saved, s[n as int]) == place(
                            order.take(at as int),
                            s,
                            saved,
                            s[n as int],
                        ),
                    decreases at,
                {
                    proof {
                        assert(order.take(at as int).last() == r@[at - 1]);
                        assert(s[r@[at - 1] as int] == self.peers@[r@[at - 1] as int]@);
                        assert(order.take(at as int).drop_last() =~= order.take(at - 1));
                    }
                    at = at - 1;
                }
                proof {
                    if at > 0 {
                        assert(order.take(at as int).last() == r@[at - 1]);
                        assert(s[r@[at - 1] as int] == self.peers@[r@[at - 1] as int]@);
                    }
                }
                r.insert(at, n);
                assert forall|i: int| 0 <= i < r@.len() implies #[trigger] r@[i] < n + 1 by {
                    if i < at {
                        assert(r@[i] == order[i]);
                    } else if i > at {
                        assert(r@[i] == order[i - 1]);
                    }
                }
            } else {
                assert forall|i: int| 0 <= i < r@.len() implies #[trigger] r@[i] < n + 1 by {
                    assert(r@[i] < n);
                }
            }
            n = n + 1;
        }
        r
    }

    /// The indices of the devices on the local network that pass a filter, in the order for display.
    pub fn visible_peers(&self, filter: &str) -> (r: Vec<usize>)
        ensures
            r@ == display_order(self@.peers, self.saved_peer_addr@, self.peers@.len()).filter(
                |i: usize|
                    passes(
                        text::lowercase(self@.peers[i as int].name),
                        self@.peers[i as int].addr,
                        text::lowercase(filter@),
                    ),
            ),
    {
        let filter_low: String = text::lowercased(filter);
        let order: Vec<usize> = self.local_order();
        let ghost s = self@.peers;
        let ghost keep = |i: usize|
            passes(
                text::lowercase(s[i as int].name),
                s[i as int].addr,
                text::lowercase(filter@),
            );
        let n: usize = self.peers.len();
        proof {
            lemma_order_in_range(s, self.saved_peer_addr@, n as nat);
        }
        let mut r: Vec<usize> = Vec::new();
        let mut i: usize = 0;
        assert(order@.take(0) =~= Seq::<usize>::empty());
        assert(r@ =~= order@.take(0).filter(keep)) by {
            reveal(Seq::filter);
        }
        while i < order.len()
            invariant
                i <= order@.len(),
                s == self@.peers,
                s.len() == self.peers@.len(),
                filter_low@ == text::lowercase(filter@),
                keep == (|i: usize|
                    passes(
                        text::lowercase(s[i as int].name),
                        s[i as int].addr,
                        text::lowercase(filter@),
                    )),
                forall|j: int| 0 <= j < order@.len() ==> #[trigger] order@[j] < s.len(),
                r@ == order@.take(i as int).filter(keep),
            decreases order@.len() - i,
        {
            let at: usize = order[i];
            proof {
                reveal(Seq::filter);
                assert(order@.take(i + 1).drop_last() =~= order@.take(i as int));
                assert(s[at as int] == self.peers@[at as int]@);
            }
            let name: String = text::lowercased(self.peers[at].name.as_str());
            if passes_filter(name.as_str(), self.peers[at].addr.as_str(), filter_low.as_str()) {
                r.push(at);
            }
            i = i + 1;
        }
        assert(order@.take(i as int) =~= order@);
        r
    }

    /// How many devices were found on the local network.
    pub fn local_count(&self) -> (r: usize)
        ensures
            r == display_order(self@.peers, self.saved_peer_addr@, self.peers@.len()).len(),
            r == self@.peers.filter(|d: Device| d.kind is Local).len(),
    {
        let r: Vec<usize> = self.local_order();
        proof {
            let s = self@.peers;
            lemma_order_count(s, self.saved_peer_addr@, s.len());
            assert(s.take(s.len() as int) =~= s);
        }
        r.len()
    }
}

proof fn lemma_place_bound(order: Seq<usize>, s: Seq<Device>, saved: Seq<char>, d: Device)
    ensures
        place(order, s, saved, d) <= order.len(),
    decreases order.len(),
{
    if order.len() > 0 && shown_before(d, s[order.last() as int], saved) {
        lemma_place_bound(order.drop_last(), s, saved, d);
    }
}

proof fn lemma_order_in_range(s: Seq<Device>, saved: Seq<char>, n: nat)
    requires
        n <= s.len(),
        n <= usize::MAX,
    ensures
        forall|j: int|
            0 <= j < display_order(s, saved, n).len() ==> #[trigger] display_order(s, saved, n)[j]
                < n,
    decreases n,
{
    if n > 0 {
        lemma_order_in_range(s, saved, (n - 1) as nat);
        let before = display_order(s, saved, (n - 1) as nat);
        lemma_place_bound(before, s, saved, s[n - 1]);
        let p = place(before, s, saved, s[n - 1]) as int;
        let after = display_order(s, saved, n);
        assert forall|j: int| 0 <= j < after.len() implies #[trigger] after[j] < n by {
            if s[n - 1].kind is Local {
                if j < p {
                    assert(after[j] == before[j]);
                } else if j > p {
                    assert(after[j] == before[j - 1]);
                }
            } else {
                assert(after[j] == before[j]);
            }
        }
    }
}

proof fn lemma_order_count(s: Seq<Device>, saved: Seq<char>, n: nat)
    requires
        n <= s.len(),
    ensures
        display_order(s, saved, n).len() == s.take(n as int).filter(
            |d: Device| d.kind is Local,
        ).len(),
    decreases n,
{
    reveal(Seq::filter);
    if n == 0 {
        assert(s.take(0) =~= Seq::<Device>::empty());
    } else {
        lemma_order_count(s, saved, (n - 1) as nat);
        assert(s.take(n as int).drop_last() =~= s.take(n - 1));
        lemma_place_bound(display_order(s, saved, (n - 1) as nat), s, saved, s[n - 1]);
    }
}

// ---- laws ----

/// A second click on a device undoes the choice, and keeps in mind which one it was.
pub proof fn second_click_undoes_the_choice(b: Book, i: usize)
    requires
        i < b.peers.len(),
        b.selected != Some(i),
    ensures
        b.clicked(i).selected == Some(i),
        b.clicked(i).clicked(i).selected is None,
        b.clicked(i).clicked(i).saved_peer_addr == b.peers[i as int].addr,
        b.clicked(i).clicked(i).peers == b.peers,
{
}

proof fn lemma_text_order(a: Seq<char>, b: Seq<char>, c: Seq<char>)
    ensures
        text_before(a, b) && text_before(b, c) ==> text_before(a, c),
        !(text_before(a, b) && text_before(b, a)),
        text_before(a, b) || text_before(b, a) || a == b,
    decreases a.len(),
{
    if a.len() > 0 && b.len() > 0 {
        lemma_text_order(
            a.drop_first(),
            b.drop_first(),
            if c.len() > 0 {
                c.drop_first()
            } else {
                c
            },
        );
        if a[0] == b[0] && a.drop_first() == b.drop_first() {
            assert(a =~= seq![a[0]] + a.drop_first());
            assert(b =~= seq![b[0]] + b.drop_first());
        }
    } else if a.len() == 0 && b.len() == 0 {
        assert(a =~= b);
    }
}

/// What comes before a device comes before all that do not come before that device.
proof fn lemma_shown_weakly(d: Device, e: Device, f: Device, saved: Seq<char>)
    requires
        shown_before(d, e, saved),
        !shown_before(f, e, saved),
    ensures
        shown_before(d, f, saved),
{
    lemma_text_order(d.name, e.name, f.name);
    lemma_text_order(f.name, e.name, d.name);
    lemma_text_order(e.name, f.name, d.name);
}

/// Whether no device of a list comes before one that stands before it.
pub open spec fn is_display_order(order: Seq<usize>, s: Seq<Device>, saved: Seq<char>) -> bool {
    forall|i: int, j: int|
        0 <= i <= j < order.len() ==> !shown_before(
            s[#[trigger] order[j] as int],
            s[#[trigger] order[i] as int],
            saved,
        )
}

proof fn lemma_place(order: Seq<usize>, s: Seq<Device>, saved: Seq<char>, d: Device)
    requires
        is_display_order(order, s, saved),
    ensures
        ({
            let p = place(order, s, saved, d) as int;
            &&& 0 <= p <= order.len()
            &&& forall|i: int|
                0 <= i < p ==> !shown_before(d, s[#[trigger] order[i] as int], saved)
            &&& forall|i: int|
                p <= i < order.len() ==> shown_before(d, s[#[trigger] order[i] as int], saved)
        }),
    decreases order.len(),
{
    if order.len() > 0 {
        let last = s[order.last() as int];
        if shown_before(d, last, saved) {
            let fewer = order.drop_last();
            assert forall|i: int, j: int| 0 <= i <= j < fewer.len() implies !shown_before(
                s[#[trigger] fewer[j] as int],
                s[#[trigger] fewer[i] as int],
                saved,
            ) by {
                assert(!shown_before(s[order[j] as int], s[order[i] as int], saved));
            }
            lemma_place(fewer, s, saved, d);
            let p = place(order, s, saved, d) as int;
            assert forall|i: int| 0 <= i < p implies !shown_before(
                d,
                s[#[trigger] order[i] as int],
                saved,
            ) by {
                assert(fewer[i] == order[i]);
            }
            assert forall|i: int| p <= i < order.len() implies shown_before(
                d,
                s[#[trigger] order[i] as int],
                saved,
            ) by {
                if i < fewer.len() {
                    assert(fewer[i] == order[i]);
                }
            }
        } else {
            assert forall|i: int| 0 <= i < order.len() implies !shown_before(
                d,
                s[#[trigger] order[i] as int],
                saved,
            ) by {
                let e = s[order[i] as int];
                assert(!shown_before(s[order[order.len() - 1] as int], e, saved));
                if shown_before(d, e, saved) {
                    lemma_shown_weakly(d, e, last, saved);
                }
            }
        }
    }
}

/// The devices are shown in their order: the one that was chosen last first, the others by name.
pub proof fn devices_are_shown_in_order(s: Seq<Device>, saved: Seq<char>, n: nat)
    requires
        n <= s.len(),
        n <= usize::MAX,
    ensures
        is_display_order(display_order(s, saved, n), s, saved),
    decreases n,
{
    if n > 0 {
        let before = display_order(s, saved, (n - 1) as nat);
        devices_are_shown_in_order(s, saved, (n - 1) as nat);
        let d = s[n - 1];
        if d.kind is Local {
            lemma_place(before, s, saved, d);
            let p = place(before, s, saved, d) as int;
            let after = before.insert(p, (n - 1) as usize);
            assert forall|i: int, j: int| 0 <= i <= j < after.len() implies !shown_before(
                s[#[trigger] after[j] as int],
                s[#[trigger] after[i] as int],
                saved,
            ) by {
                let a = if i < p {
                    i
                } else {
                    i - 1
                };
                let b = if j < p {
                    j
                } else {
                    j - 1
                };
                if i != p {
                    assert(after[i] == before[a]);
                }
                if j != p {
                    assert(after[j] == before[b]);
                }
                if i == p && j == p {
                    lemma_text_order(d.name, d.name, d.name);
                } else if i == p {
                    let f = s[before[b] as int];
                    assert(shown_before(d, f, saved));
                    lemma_text_order(d.name, f.name, d.name);
                } else if j == p {
                    assert(!shown_before(d, s[before[a] as int], saved));
                } else {
                    assert(!shown_before(s[before[b] as int], s[before[a] as int], saved));
                }
            }
        }
    }
}

/// Looking for devices never finds this one, and loses none that was entered by hand.
pub proof fn scans_find_others(b: Book, found: Seq<Device>)
    ensures
        forall|i: int|
            0 <= i < b.manual_peers.len() ==> peers::has_addr(
                b.scanned(found).peers,
                (#[trigger] b.manual_peers[i]).addr,
            ),
        forall|i: int|
            0 <= i < b.scanned(found).peers.len() ==> {
                let d = #[trigger] b.scanned(found).peers[i];
                (d.addr != b.this_ip && d.name != b.this_hostname) || b.manual_peers.contains(d)
            },
{
    let keep = |d: Device| d.addr != b.this_ip && d.name != b.this_hostname;
    let kept = found.filter(keep);
    lemma_with_missing(kept, b.manual_peers);
    assert forall|i: int| 0 <= i < b.scanned(found).peers.len() implies {
        let d = #[trigger] b.scanned(found).peers[i];
        (d.addr != b.this_ip && d.name != b.this_hostname) || b.manual_peers.contains(d)
    } by {
        let d = b.scanned(found).peers[i];
        if kept.contains(d) {
            let j = choose|j: int| 0 <= j < kept.len() && kept[j] == d;
            found.lemma_filter_pred(keep, j);
        }
    }
}

proof fn lemma_with_missing(s: Seq<Device>, more: Seq<Device>)
    ensures
        forall|i: int|
            0 <= i < more.len() ==> peers::has_addr(
                with_missing(s, more),
                (#[trigger] more[i]).addr,
            ),
        forall|i: int|
            0 <= i < with_missing(s, more).len() ==> s.contains(
                #[trigger] with_missing(s, more)[i],
            ) || more.contains(with_missing(s, more)[i]),
        with_missing(s, more).len() >= s.len(),
        forall|a: Seq<char>| peers::has_addr(s, a) ==> #[trigger] peers::has_addr(
            with_missing(s, more),
            a,
        ),
    decreases more.len(),
{
    if more.len() == 0 {
        assert forall|i: int| 0 <= i < s.len() implies s.contains(#[trigger] s[i]) by {}
    } else {
        let fewer = more.drop_last();
        lemma_with_missing(s, fewer);
        let t = with_missing(s, fewer);
        let u = with_missing(s, more);
        assert forall|a: Seq<char>| peers::has_addr(t, a) implies #[trigger] peers::has_addr(
            u,
            a,
        ) by {
            let j = choose|j: int| 0 <= j < t.len() && (#[trigger] t[j]).addr == a;
            assert(u[j].addr == a);
        }
        if !peers::has_addr(t, more.last().addr) {
            assert(u[t.len() as int].addr == more.last().addr);
        }
        assert forall|i: int| 0 <= i < more.len() implies peers::has_addr(
            u,
            (#[trigger] more[i]).addr,
        ) by {
            if i < fewer.len() {
                assert(fewer[i] == more[i]);
                assert(peers::has_addr(t, fewer[i].addr));
            }
        }
        assert forall|i: int| 0 <= i < u.len() implies s.contains(#[trigger] u[i])
            || more.contains(u[i]) by {
            if i < t.len() {
                assert(u[i] == t[i]);
                if fewer.contains(t[i]) {
                    let j = choose|j: int| 0 <= j < fewer.len() && fewer[j] == t[i];
                    assert(more[j] == t[i]);
                }
            } else {
                assert(more[more.len() - 1] == u[i]);
            }
        }
        assert forall|a: Seq<char>| peers::has_addr(s, a) implies #[trigger] peers::has_addr(
            u,
            a,
        ) by {
            assert(peers::has_addr(t, a));
        }
    }
}

// ---- what the calls give ----

/// The chosen device is the one at the index that was chosen.
pub proof fn the_choice_is_an_index(b: &PeerBook, r: Option<&Peer>)
    requires
        call_ensures(PeerBook::selected_peer, (b,), r),
    ensures
        b.selected matches Some(i) ==> i < b.peers@.len() ==> r is Some && r->0@
            == b.peers@[i as int]@,
        b.selected is None ==> r is None,
        b.selected matches Some(i) ==> i >= b.peers@.len() ==> r is None,
{
}

/// Looking for devices begins with none and with no choice; what was chosen last, and what was
/// entered by hand, stays.
pub proof fn scans_begin_empty(b: &mut PeerBook)
    requires
        call_ensures(PeerBook::start_scan, (b,), ()),
    ensures
        final(b).peers@.len() == 0,
        final(b).selected is None,
        final(b).scan_state is Scanning,
        final(b).saved_peer_name@ == old(b).saved_peer_name@,
        final(b).saved_peer_addr@ == old(b).saved_peer_addr@,
        peers::devices(final(b).manual_peers@) == peers::devices(old(b).manual_peers@),
{
    assert(final(b)@.peers.len() == final(b).peers@.len());
}

proof fn lemma_added(s: Seq<Device>, more: Seq<Device>)
    ensures
        ({
            let t = with_missing(s, more);
            &&& t.len() >= s.len()
            &&& t.take(s.len() as int) == s
            &&& forall|i: int|
                s.len() <= i < t.len() ==> more.contains(#[trigger] t[i]) && !peers::has_addr(
                    t.take(i),
                    t[i].addr,
                )
            &&& forall|i: int|
                0 <= i < more.len() ==> peers::has_addr(t, (#[trigger] more[i]).addr)
        }),
    decreases more.len(),
{
    let t = with_missing(s, more);
    if more.len() == 0 {
        assert(t.take(s.len() as int) =~= s);
    } else {
        let fewer = more.drop_last();
        let u = with_missing(s, fewer);
        lemma_added(s, fewer);
        assert(t.take(s.len() as int) =~= u.take(s.len() as int));
        assert(more[more.len() - 1] == more.last());
        assert forall|i: int| s.len() <= i < t.len() implies more.contains(#[trigger] t[i])
            && !peers::has_addr(t.take(i), t[i].addr) by {
            assert(t.take(i) =~= u.take(i));
            if i < u.len() {
                assert(t[i] == u[i]);
                assert(fewer.contains(u[i]));
                let k = choose|k: int| 0 <= k < fewer.len() && fewer[k] == u[i];
                assert(more[k] == u[i]);
            } else {
                assert(u.take(i) =~= u);
            }
        }
        assert forall|i: int| 0 <= i < more.len() implies peers::has_addr(
            t,
            (#[trigger] more[i]).addr,
        ) by {
            if i < fewer.len() {
                assert(fewer[i] == more[i]);
                assert(peers::has_addr(u, fewer[i].addr));
                let k = choose|k: int| 0 <= k < u.len() && (#[trigger] u[k]).addr == fewer[i].addr;
                assert(t[k] == u[k]);
            } else if !peers::has_addr(u, more[i].addr) {
                assert(t[u.len() as int] == more[i]);
            }
        }
    }
}

/// Whether the first `n` devices of `now` are those of `found` that have neither the address `ip` nor the name
/// `hostname`, in their order, and
/// the rest those entered by hand whose addresses are missing.
pub open spec fn found_before_entered(
    now: Seq<Device>,
    n: int,
    found: Seq<Device>,
    entered: Seq<Device>,
    ip: Seq<char>,
    hostname: Seq<char>,
) -> bool {
    &&& 0 <= n <= now.len()
    &&& order::keeps(now.take(n), found, |d: Device| d.addr != ip && d.name != hostname)
    &&& forall|i: int|
        n <= i < now.len() ==> entered.contains(#[trigger] now[i]) && !peers::has_addr(
            now.take(i),
            now[i].addr,
        )
    &&& forall|i: int|
        0 <= i < entered.len() ==> peers::has_addr(now, (#[trigger] entered[i]).addr)
}

/// A search ends with what was found, in its order, but for this device; behind it come those
/// entered by hand whose addresses are missing. The choice and what was chosen last stay.
pub proof fn scans_end_with_what_was_found(b: &mut PeerBook, found: Vec<Peer>)
    requires
        call_ensures(PeerBook::finish_scan, (b, found), ()),
    ensures
        exists|n: int|
            found_before_entered(
                peers::devices(final(b).peers@),
                n,
                peers::devices(found@),
                peers::devices(old(b).manual_peers@),
                old(b).this_ip@,
                old(b).this_hostname@,
            ),
        final(b).scan_state is Done,
        final(b).selected == old(b).selected,
        final(b).saved_peer_name@ == old(b).saved_peer_name@,
        final(b).saved_peer_addr@ == old(b).saved_peer_addr@,
        peers::devices(final(b).manual_peers@) == peers::devices(old(b).manual_peers@),
{
    let f = |d: Device| d.addr != old(b)@.this_ip && d.name != old(b)@.this_hostname;
    let g = |d: Device| d.addr != old(b).this_ip@ && d.name != old(b).this_hostname@;
    assert(f =~= g);
    let all = peers::devices(found@);
    let kept = all.filter(g);
    let manual = peers::devices(old(b).manual_peers@);
    let now = peers::devices(final(b).peers@);
    order::filtering_keeps(all, g);
    lemma_added(kept, manual);
    assert(now == with_missing(kept, manual));
    assert(now.take(kept.len() as int) == kept);
    assert(found_before_entered(now, kept.len() as int, all, manual, old(b).this_ip@, old(b).this_hostname@));
}

/// A click on a device chooses it and keeps it in mind; a click on the chosen one gives the choice
/// up. The devices stay.
pub proof fn clicks_choose(b: &mut PeerBook, idx: usize)
    requires
        call_ensures(PeerBook::select_peer, (b, idx), ()),
        idx < old(b).peers@.len(),
    ensures
        final(b).peers == old(b).peers,
        final(b).scan_state == old(b).scan_state,
        old(b).selected == Some(idx) ==> final(b).selected is None && final(b).saved_peer_name@
            == old(b).saved_peer_name@ && final(b).saved_peer_addr@ == old(b).saved_peer_addr@,
        old(b).selected != Some(idx) ==> final(b).selected == Some(idx)
            && final(b).saved_peer_name@ == old(b).peers@[idx as int].name@
            && final(b).saved_peer_addr@ == old(b).peers@[idx as int].addr@,
{
    assert(old(b)@.peers[idx as int] == old(b).peers@[idx as int]@);
}

/// The device that was chosen last is chosen again where it is there and no other is chosen.
pub proof fn the_last_choice_returns(b: &mut PeerBook)
    requires
        call_ensures(PeerBook::try_auto_select, (b,), ()),
        old(b).peers@.len() <= usize::MAX,
    ensures
        peers::devices(final(b).peers@) == peers::devices(old(b).peers@),
        final(b).saved_peer_name@ == old(b).saved_peer_name@,
        final(b).saved_peer_addr@ == old(b).saved_peer_addr@,
        final(b).scan_state == old(b).scan_state,
        old(b).selected is Some ==> final(b).selected == old(b).selected,
        old(b).saved_peer_addr@.len() == 0 ==> final(b).selected == old(b).selected,
        old(b).selected is None && old(b).saved_peer_addr@.len() > 0 ==> {
            &&& final(b).selected is Some <==> exists|i: int|
                0 <= i < old(b).peers@.len() && (#[trigger] old(b).peers@[i]).addr@
                    == old(b).saved_peer_addr@
            &&& final(b).selected is Some ==> final(b).selected->0 < old(b).peers@.len() && old(b).peers@[final(b).selected->0 as int].addr@ == old(b).saved_peer_addr@
        },
{
    let s = peers::devices(old(b).peers@);
    let a = old(b).saved_peer_addr@;
    peers::lemma_addr_index(s, a);
    if peers::has_addr(s, a) {
        let i = choose|i: int| 0 <= i < s.len() && (#[trigger] s[i]).addr == a;
        assert(old(b).peers@[i].addr@ == a);
    }
    if exists|i: int| 0 <= i < old(b).peers@.len() && (#[trigger] old(b).peers@[i]).addr@ == a {
        let i = choose|i: int|
            0 <= i < old(b).peers@.len() && (#[trigger] old(b).peers@[i]).addr@ == a;
        assert(s[i].addr == a);
    }
}

/// How fast a device has answered is noted with the first one of that address, and nowhere else.
pub proof fn answers_are_noted(b: &mut PeerBook, addr: &str, ms: u32)
    requires
        call_ensures(PeerBook::set_latency, (b, addr, ms), ()),
    ensures
        final(b).peers@.len() == old(b).peers@.len(),
        final(b).selected == old(b).selected,
        forall|i: int|
            0 <= i < old(b).peers@.len() ==> {
                let (p, q) = (old(b).peers@[i], #[trigger] final(b).peers@[i]);
                let first = p.addr@ == addr@ && forall|j: int|
                    0 <= j < i ==> (#[trigger] old(b).peers@[j]).addr@ != addr@;
                &&& q.name@ == p.name@
                &&& q.addr@ == p.addr@
                &&& q.kind == p.kind
                &&& q.latency == if first {
                    Some(ms)
                } else {
                    p.latency
                }
            },
{
    let s = old(b)@.peers;
    let t = final(b)@.peers;
    peers::lemma_addr_index(s, addr@);
    let n = peers::addr_index(s, addr@) as int;
    assert(t.len() == final(b).peers@.len());
    assert forall|i: int| 0 <= i < old(b).peers@.len() implies {
        let (p, q) = (old(b).peers@[i], #[trigger] final(b).peers@[i]);
        let first = p.addr@ == addr@ && forall|j: int|
            0 <= j < i ==> (#[trigger] old(b).peers@[j]).addr@ != addr@;
        &&& q.name@ == p.name@
        &&& q.addr@ == p.addr@
        &&& q.kind == p.kind
        &&& q.latency == if first {
            Some(ms)
        } else {
            p.latency
        }
    } by {
        assert(t[i] == final(b).peers@[i]@);
        assert(s[i] == old(b).peers@[i]@);
        if i == n {
            assert forall|j: int| 0 <= j < i implies (#[trigger] old(b).peers@[j]).addr@ != addr@ by {
                assert(s[j].addr != addr@);
            }
        } else if i > n {
            assert(s[n].addr == addr@);
            assert(old(b).peers@[n].addr@ == addr@);
        }
    }
}

/// The device at the other end of the relay is listed once and chosen; the others stay.
pub proof fn the_other_end_is_chosen(b: &mut PeerBook, name: &str)
    requires
        call_ensures(PeerBook::add_relay_peer, (b, name), ()),
        old(b).peers@.len() < usize::MAX,
    ensures
        final(b).selected is Some,
        final(b).selected->0 < final(b).peers@.len(),
        final(b).peers@[final(b).selected->0 as int].addr@ == peers::RELAY_PEER_ADDR@,
        forall|i: int|
            0 <= i < old(b).peers@.len() ==> (#[trigger] final(b).peers@[i])@ == old(b).peers@[i]@,
        final(b).peers@.len() > old(b).peers@.len() <==> forall|i: int|
            0 <= i < old(b).peers@.len() ==> (#[trigger] old(b).peers@[i]).addr@
                != peers::RELAY_PEER_ADDR@,
        final(b).peers@.len() > old(b).peers@.len() ==> {
            &&& final(b).peers@.len() == old(b).peers@.len() + 1
            &&& final(b).peers@.last().name@ == name@
            &&& final(b).peers@.last().kind is Remote
            &&& final(b).peers@.last().latency is None
            &&& final(b).selected->0 == old(b).peers@.len()
        },
        final(b).saved_peer_name@ == name@,
        final(b).saved_peer_addr@ == peers::RELAY_PEER_ADDR@,
{
    let s = old(b)@.peers;
    let t = final(b)@.peers;
    let a = peers::RELAY_PEER_ADDR@;
    peers::lemma_addr_index(s, a);
    peers::lemma_addr_index(t, a);
    assert(t.len() == final(b).peers@.len());
    assert forall|i: int| 0 <= i < t.len() implies t[i] == (#[trigger] final(b).peers@[i])@ by {}
    assert forall|i: int| 0 <= i < s.len() implies s[i] == (#[trigger] old(b).peers@[i])@ by {}
    if peers::has_addr(s, a) {
        let i = choose|i: int| 0 <= i < s.len() && (#[trigger] s[i]).addr == a;
        assert(old(b).peers@[i].addr@ == a);
    } else {
        assert(t[s.len() as int].addr == a);
        assert forall|i: int| 0 <= i < s.len() implies (#[trigger] old(b).peers@[i]).addr@ != a by {
            assert(s[i].addr != a);
        }
        let n = peers::addr_index(t, a) as int;
        if n < s.len() {
            assert(t[n] == s[n]);
        }
    }
}

proof fn lemma_order_holds(s: Seq<Device>, saved: Seq<char>, n: nat)
    requires
        n <= s.len() <= usize::MAX,
    ensures
        forall|i: int|
            0 <= i < n ==> ((#[trigger] s[i]).kind is Local <==> display_order(s, saved, n).contains(
                i as usize,
            )),
        display_order(s, saved, n).no_duplicates(),
    decreases n,
{
    if n > 0 {
        let m = (n - 1) as nat;
        let before = display_order(s, saved, m);
        let after = display_order(s, saved, n);
        lemma_order_holds(s, saved, m);
        lemma_order_in_range(s, saved, m);
        let d = s[n - 1];
        lemma_place_bound(before, s, saved, d);
        let p = place(before, s, saved, d) as int;
        if d.kind is Local {
            assert(after == before.insert(p, (n - 1) as usize));
            assert(after[p] == (n - 1) as usize);
            assert forall|i: int| 0 <= i < n implies ((#[trigger] s[i]).kind is Local
                <==> after.contains(i as usize)) by {
                if i < m {
                    if before.contains(i as usize) {
                        let k = choose|k: int| 0 <= k < before.len() && before[k] == i as usize;
                        if k < p {
                            assert(after[k] == i as usize);
                        } else {
                            assert(after[k + 1] == i as usize);
                        }
                    }
                    if after.contains(i as usize) {
                        let k = choose|k: int| 0 <= k < after.len() && after[k] == i as usize;
                        assert(k != p);
                        if k < p {
                            assert(before[k] == i as usize);
                        } else {
                            assert(before[k - 1] == i as usize);
                        }
                    }
                }
            }
            assert forall|i: int, j: int| 0 <= i < j < after.len() implies after[i] != after[j] by {
                let a = if i < p {
                    i
                } else {
                    i - 1
                };
                let b = if j < p {
                    j
                } else {
                    j - 1
                };
                if i != p {
                    assert(after[i] == before[a] && before[a] < m);
                }
                if j != p {
                    assert(after[j] == before[b] && before[b] < m);
                }
            }
        } else {
            assert forall|i: int| 0 <= i < n implies ((#[trigger] s[i]).kind is Local
                <==> after.contains(i as usize)) by {
                if i == m && after.contains(i as usize) {
                    let k = choose|k: int| 0 <= k < before.len() && before[k] == i as usize;
                    assert(before[k] < m);
                }
            }
        }
    }
}

/// Each device of the local network is listed once and no other is: the one that was chosen last
/// before all others, and those others by their names.
pub proof fn local_devices_are_listed(b: &PeerBook, r: Vec<usize>)
    requires
        call_ensures(PeerBook::local_order, (b,), r),
    ensures
        r@.no_duplicates(),
        forall|i: int| 0 <= i < r@.len() ==> #[trigger] r@[i] < b.peers@.len(),
        forall|i: int|
            0 <= i < b.peers@.len() ==> ((#[trigger] b.peers@[i]).kind is Local <==> r@.contains(
                i as usize,
            )),
        forall|i: int, j: int|
            0 <= i < j < r@.len() ==> {
                let p = b.peers@[#[trigger] r@[i] as int];
                let q = b.peers@[#[trigger] r@[j] as int];
                &&& q.addr@ == b.saved_peer_addr@ ==> p.addr@ == b.saved_peer_addr@
                &&& p.addr@ != b.saved_peer_addr@ ==> !text_before(q.name@, p.name@)
            },
{
    let s = b@.peers;
    let saved = b.saved_peer_addr@;
    assert(b.peers.len() == s.len());
    lemma_order_in_range(s, saved, s.len());
    lemma_order_holds(s, saved, s.len());
    devices_are_shown_in_order(s, saved, s.len());
    assert forall|i: int| 0 <= i < b.peers@.len() implies s[i] == (#[trigger] b.peers@[i])@ by {}
    assert forall|i: int, j: int| 0 <= i < j < r@.len() implies {
        let p = b.peers@[#[trigger] r@[i] as int];
        let q = b.peers@[#[trigger] r@[j] as int];
        &&& q.addr@ == saved ==> p.addr@ == saved
        &&& p.addr@ != saved ==> !text_before(q.name@, p.name@)
    } by {
        let p = b.peers@[r@[i] as int];
        let q = b.peers@[r@[j] as int];
        assert(s[r@[i] as int] == p@ && s[r@[j] as int] == q@);
        assert(!shown_before(q@, p@, saved));
    }
}

/// Of the listed devices those are visible whose names in small letters, or whose addresses, hold
/// the filter in small letters, in the same order.
pub proof fn devices_are_found_by_name_and_address(
    b: &PeerBook,
    filter: &str,
    all: Vec<usize>,
    r: Vec<usize>,
)
    requires
        call_ensures(PeerBook::local_order, (b,), all),
        call_ensures(PeerBook::visible_peers, (b, filter), r),
    ensures
        order::keeps(
            r@,
            all@,
            |i: usize|
                text::contains_text(
                    text::lowercase(peers::devices(b.peers@)[i as int].name),
                    text::lowercase(filter@),
                ) || text::contains_text(
                    peers::devices(b.peers@)[i as int].addr,
                    text::lowercase(filter@),
                ),
        ),
{
    let s = b@.peers;
    let low = text::lowercase(filter@);
    let f = |i: usize| passes(text::lowercase(s[i as int].name), s[i as int].addr, low);
    let g = |i: usize|
        text::contains_text(
            text::lowercase(peers::devices(b.peers@)[i as int].name),
            text::lowercase(filter@),
        ) || text::contains_text(
            peers::devices(b.peers@)[i as int].addr,
            text::lowercase(filter@),
        );
    assert forall|i: usize| #[trigger] f(i) == g(i) by {
        if low.len() == 0 {
            text::nothing_is_everywhere(s[i as int].addr, low);
        }
    }
    assert(f =~= g);
    order::filtering_keeps(all@, g);
}

/// Texts come in the order of the first characters in which they differ; a text comes before those
/// that it begins.
pub proof fn the_first_difference_decides(
    p: Seq<char>,
    x: char,
    s: Seq<char>,
    y: char,
    t: Seq<char>,
)
    requires
        x != y,
    ensures
        text_before(p.push(x) + s, p.push(y) + t) <==> x < y,
        text_before(p, p.push(y) + t),
        !text_before(p.push(y) + t, p),
        !text_before(p, p),
    decreases p.len(),
{
    let a = p.push(x) + s;
    let b = p.push(y) + t;
    if p.len() == 0 {
        assert(a[0] == x && b[0] == y);
    } else {
        let q = p.drop_first();
        the_first_difference_decides(q, x, s, y, t);
        assert(a[0] == p[0] && b[0] == p[0]);
        assert(a.drop_first() =~= q.push(x) + s);
        assert(b.drop_first() =~= q.push(y) + t);
    }
}

/// The devices of the local network are counted.
pub proof fn local_devices_are_counted(b: &PeerBook, all: Vec<usize>, n: usize)
    requires
        call_ensures(PeerBook::local_order, (b,), all),
        call_ensures(PeerBook::local_count, (b,), n),
    ensures
        n == all@.len(),
{
}

/// A device passes a filter where its name or its address holds it.
pub proof fn filters_look_at_names_and_addresses(name: &str, addr: &str, filter: &str, r: bool)
    requires
        call_ensures(passes_filter, (name, addr, filter), r),
    ensures
        r <==> text::contains_text(name@, filter@) || text::contains_text(addr@, filter@),
{
    if filter@.len() == 0 {
        text::nothing_is_everywhere(name@, filter@);
    }
}

/// Names are ordered by the first characters in which they differ.
pub proof fn names_are_ordered(
    a: &str,
    b: &str,
    p: Seq<char>,
    x: char,
    s: Seq<char>,
    y: char,
    t: Seq<char>,
    r: bool,
)
    requires
        call_ensures(comes_before, (a, b), r),
        a@ == p.push(x) + s,
        b@ == p.push(y) + t,
        x != y,
    ensures
        r <==> x < y,
{
    the_first_difference_decides(p, x, s, y, t);
}

} // verus!
