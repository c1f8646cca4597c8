//! The watch over the address of this device.
use vstd::prelude::*;

use crate::text;

verus! {

/// Tells each change of this device's address once.
pub struct NetworkMonitor {
    /// The address that was seen last.
    pub current_ip: String,
    /// The new addresses that have not been told, the earliest first.
    pub changes: Vec<String>,
}

/// The state of a watch.
pub struct State {
    pub current_ip: Seq<char>,
    pub changes: Seq<Seq<char>>,
}

impl View for NetworkMonitor {
    type V = State;

    open spec fn view(&self) -> State {
        State { current_ip: self.current_ip@, changes: text::string_texts(self.changes@) }
    }
}

impl State {
    /// Once the address is seen to be `ip`.
    pub open spec fn seen(self, ip: Seq<char>) -> State {
        if ip == self.current_ip {
            self
        } else {
            State { current_ip: ip, changes: self.changes.push(ip) }
        }
    }

    /// Once all of `ips` were seen, one after the other.
    pub open spec fn all_seen(self, ips: Seq<Seq<char>>) -> State
        decreases ips.len(),
    {
        if ips.len() == 0 {
            self
        } else {
            self.all_seen(ips.drop_last()).seen(ips.last())
        }
    }
}

impl NetworkMonitor {
    /// A watch that begins at the address `ip`.
    pub fn new(ip: String) -> (r: NetworkMonitor)
        ensures
            r@ == (State { current_ip: ip@, changes: seq![] }),
    {
        let r: NetworkMonitor = NetworkMonitor { current_ip: ip, changes: Vec::new() };
        assert(r@.changes =~= seq![]);
        r
    }

    /// Takes note of the address of this device.
    pub fn observe(&mut self, ip: String)
        ensures
            final(self)@ == old(self)@.seen(ip@),
    {
        if !text::same_text(ip.as_str(), self.current_ip.as_str()) {
            let ghost before = self@.changes;
            self.changes.push(ip.clone());
            self.current_ip = ip;
            assert(self@.changes =~= before.push(ip@));
        }
    }

    /// The earliest new address that has not been told, if there is one.
    pub fn has_changed(&mut self) -> (r: Option<String>)
        ensures
            match r {
                Some(ip) => {
                    &&& old(self)@.changes.len() > 0
                    &&& ip@ == old(self)@.changes[0]
                    &&& final(self)@ == (State {
                        changes: old(self)@.changes.drop_first(),
                        ..old(self)@
                    })
                },
                None => old(self)@.changes.len() == 0 && final(self)@ == old(self)@,
            },
    {
        if self.changes.len() == 0 {
            return None;
        }
        let ghost before = self@.changes;
        let ip: String = self.changes.remove(0);
        assert(self@.changes =~= before.drop_first());
        Some(ip)
    }
}

/// The last address that is told is the one that was seen last, and no two that are told one after
/// the other are the same.
pub proof fn changes_are_told_in_order(s: State, ips: Seq<Seq<char>>)
    requires
        s.changes == Seq::<Seq<char>>::empty(),
    ensures
        ({
            let t = s.all_seen(ips);
            &&& t.current_ip == if ips.len() == 0 {
                s.current_ip
            } else {
                ips.last()
            }
            &&& t.current_ip == if t.changes.len() == 0 {
                s.current_ip
            } else {
                t.changes.last()
            }
            &&& t.changes.len() > 0 ==> t.changes[0] != s.current_ip
            &&& forall|i: int|
                0 < i < t.changes.len() ==> #[trigger] t.changes[i] != t.changes[i - 1]
        }),
    decreases ips.len(),
{
    if ips.len() > 0 {
        changes_are_told_in_order(s, ips.drop_last());
    }
}

// ---- what the calls give ----

/// A new address is told once, behind those that wait to be told; one that is the same as before
/// is not told.
pub proof fn new_addresses_are_told(m: &mut NetworkMonitor, ip: String)
    requires
        call_ensures(NetworkMonitor::observe, (m, ip), ()),
    ensures
        final(m).current_ip@ == ip@,
        ip@ == old(m).current_ip@ ==> final(m).changes@.len() == old(m).changes@.len(),
        ip@ != old(m).current_ip@ ==> final(m).changes@.len() == old(m).changes@.len() + 1
            && final(m).changes@.last()@ == ip@,
        forall|i: int|
            0 <= i < old(m).changes@.len() ==> (#[trigger] final(m).changes@[i])@
                == old(m).changes@[i]@,
{
    lemma_changes(*old(m));
    lemma_changes(*final(m));
}

proof fn lemma_changes(m: NetworkMonitor)
    ensures
        m@.changes.len() == m.changes@.len(),
        forall|i: int| 0 <= i < m.changes@.len() ==> m@.changes[i] == (#[trigger] m.changes@[i])@,
{
}

/// Changes are told in the order in which they came, each once.
pub proof fn changes_are_told_once(m: &mut NetworkMonitor, r: Option<String>)
    requires
        call_ensures(NetworkMonitor::has_changed, (m,), r),
    ensures
        r is Some <==> old(m).changes@.len() > 0,
        r is Some ==> r->0@ == old(m).changes@[0]@ && final(m).changes@.len()
            == old(m).changes@.len() - 1,
        r is None ==> final(m).changes@.len() == 0,
        forall|i: int|
            0 <= i < final(m).changes@.len() ==> (#[trigger] final(m).changes@[i])@
                == old(m).changes@[i + 1]@,
        final(m).current_ip@ == old(m).current_ip@,
{
    lemma_changes(*old(m));
    lemma_changes(*final(m));
}

} // verus!
