//! The application: what it knows, and what it does when something happens.
//!
//! Threads, sockets, files and windows are the caller's part: a method that needs one of them done
//! says so in its result.
use vstd::prelude::*;

use crate::book::{Book, PeerBook, ScanState};
use crate::history::{Entry, HistoryEntry, TransferDir, TransferType, text_in};
use crate::license::License;
use crate::link;
use crate::link::{Link, LinkState, RelayMsg, RelayState};
use crate::paths::Style;
use crate::peers;
use crate::peers::{Device, Peer, PeerKind};
use crate::prefs;
use crate::prefs::{pair_texts, Prefs, SavedPrefs};
use crate::queue::{are_due, started, Item, Outgoing, Queue, Tally};
use crate::settings::{initial_dark_mode, Settings};
use crate::sync::{device_of, Side, SyncSide};
use crate::text;
use crate::textmap::{texts_under, TextMap};
use crate::update;

verus! {

#[derive(Clone, Copy, Debug, PartialEq, Eq, Structural)]
pub enum Tab {
    Scan,
    Send,
    History,
    Sync,
    Settings,
}

#[derive(Clone, Copy, Debug, PartialEq, Eq, Structural)]
pub enum SettingsTab {
    Device,
    License,
    About,
    Preferences,
}

#[derive(Clone, Copy, Debug, PartialEq, Eq, Structural)]
pub enum ScanMode {
    Local,
    Remote,
}

/// What was chosen from the menu of the tray icon.
#[derive(Clone, Copy, Debug, PartialEq, Eq, Structural)]
pub enum TrayEvent {
    ShowWindow,
    Quit,
}

/// What is on the screen.
pub struct Screen {
    pub tab: Tab,
    pub settings_tab: SettingsTab,
    pub scan_mode: ScanMode,
    /// Whether the offer to upgrade is shown.
    pub show_upgrade: bool,
    pub window_visible: bool,
    pub history_filter: String,
    pub scan_filter: String,
}

/// Looking for a newer release.
pub struct UpdateCheck {
    /// A release that is newer than this one.
    pub available: Option<String>,
    /// Whether one has been looked for.
    pub asked: bool,
    pub version: String,
}

/// The application.
pub struct App {
    pub book: PeerBook,
    pub queue: Queue,
    pub local_sync: SyncSide,
    pub relay_sync: SyncSide,
    pub link: Link,
    pub settings: Settings,
    pub screen: Screen,
    pub history: Vec<HistoryEntry>,
    pub updates: UpdateCheck,
}

/// What the application needs to know of the machine at its start.
pub struct Machine {
    pub hostname: String,
    pub ip: String,
    /// Where files are saved where nothing is set.
    pub default_dir: String,
    pub system_dark: bool,
}

/// What is to be sent, and where.
pub struct SendPlan {
    pub peer_name: String,
    pub peer_addr: String,
    pub use_relay: bool,
    pub files: Vec<Outgoing>,
}

/// The devices entered by hand whose addresses are addresses: `addrs` holds them, read and written
/// out again.
pub open spec fn manual_devices(
    peers: Seq<(Seq<char>, Seq<char>)>,
    addrs: Seq<Option<String>>,
    n: nat,
) -> Seq<Device>
    decreases n,
{
    if n == 0 {
        seq![]
    } else {
        let before = manual_devices(peers, addrs, (n - 1) as nat);
        match addrs[n - 1] {
            Some(a) => before.push(
                Device {
                    name: peers[n - 1].0,
                    addr: a@,
                    kind: PeerKind::Remote,
                    latency: None,
                },
            ),
            None => before,
        }
    }
}

/// The names and addresses of devices.
pub open spec fn name_pairs(s: Seq<Device>) -> Seq<(Seq<char>, Seq<char>)> {
    Seq::new(s.len(), |i: int| (s[i].name, s[i].addr))
}

fn read_manual(peers: &Vec<(String, String)>, addrs: &Vec<Option<String>>) -> (r: Vec<Peer>)
    requires
        addrs@.len() == peers@.len(),
    ensures
        peers::devices(r@) == manual_devices(pair_texts(peers@), addrs@, peers@.len()),
{
    let mut r: Vec<Peer> = Vec::new();
    let mut n: usize = 0;
    assert(peers::devices(r@) =~= manual_devices(pair_texts(peers@), addrs@, 0));
    while n < peers.len()
        invariant
            n <= peers@.len(),
            addrs@.len() == peers@.len(),
            peers::devices(r@) == manual_devices(pair_texts(peers@), addrs@, n as nat),
        decreases peers@.len() - n,
    {
        let ghost before = peers::devices(r@);
        match &addrs[n] {
            Some(a) => {
                let p: Peer = Peer {
                    name: peers[n].0.clone(),
                    addr: a.clone(),
                    kind: PeerKind::Remote,
                    latency: None,
                };
                r.push(p);
                assert(peers::devices(r@) =~= before.push(p@));
            },
            None => {},
        }
        n = n + 1;
    }
    r
}

impl App {
    pub open spec fn wf(self) -> bool {
        self.local_sync.wf() && self.relay_sync.wf() && !self.local_sync.relay
            && self.relay_sync.relay
    }

    /// The application at its start. `manual_addrs` holds the addresses of the devices that were
    /// entered by hand, where they are addresses.
    pub fn new(
        prefs: SavedPrefs,
        manual_addrs: Vec<Option<String>>,
        license: License,
        history: Vec<HistoryEntry>,
        machine: Machine,
    ) -> (r: App)
        requires
            prefs.sync_map.wf(),
            manual_addrs@.len() == prefs.manual_peers@.len(),
        ensures
            r.wf(),
            r.book@ == (Book {
                peers: seq![],
                selected: None,
                scan_state: ScanState::Idle,
                saved_peer_name: prefs.peer_name@,
                saved_peer_addr: prefs.peer_addr@,
                manual_peers: manual_devices(
                    prefs@.manual_peers,
                    manual_addrs@,
                    manual_addrs@.len(),
                ),
                this_hostname: machine.hostname@,
                this_ip: machine.ip@,
            }),
            r.queue@ == (crate::queue::State { items: seq![], sent_bytes: 0, sent_files: 0 }),
            r.local_sync@ == (Side {
                map: prefs@.sync_map,
                jobs: seq![],
                active: false,
                log: seq![],
                relay: false,
            }),
            r.relay_sync@ == (Side {
                map: Map::empty(),
                jobs: seq![],
                active: false,
                log: seq![],
                relay: true,
            }),
            r.link@ == (link::State {
                state: LinkState::Offline,
                listening: false,
                has_stream: false,
                relay_mode: false,
                receives: false,
                code_input: ""@,
                message: None,
                is_online: false,
            }),
            r.settings.license == license,
            r.settings.license_msg is None,
            r.settings.license_key_buf@ == ""@,
            r.settings.license_email_buf@ == ""@,
            r.settings.auto_detect_theme == prefs.auto_detect_theme,
            r.settings.dark_mode == (if prefs.auto_detect_theme {
                machine.system_dark
            } else {
                match prefs.dark_mode {
                    Some(dark) => dark,
                    None => true,
                }
            }),
            r.settings.save_dir@ == (match prefs.save_dir {
                Some(d) => d@,
                None => machine.default_dir@,
            }),
            r.settings.notify_on_receive == prefs.notify_on_receive,
            r.settings.auto_open_folder == prefs.auto_open_folder,
            r.settings.minimize_to_tray,
            r.screen.tab is Scan,
            r.screen.settings_tab is Device,
            r.screen.scan_mode is Local,
            !r.screen.show_upgrade,
            r.screen.window_visible,
            r.screen.history_filter@ == ""@,
            r.screen.scan_filter@ == ""@,
            r.history == history,
            r.updates.available is None,
            !r.updates.asked,
            r.updates.version@ == "v"@ + update::VERSION@,
    {
        let manual: Vec<Peer> = read_manual(&prefs.manual_peers, &manual_addrs);
        let dark: bool = initial_dark_mode(
            prefs.auto_detect_theme,
            machine.system_dark,
            prefs.dark_mode,
        );
        let save_dir: String = match &prefs.save_dir {
            Some(d) => d.clone(),
            None => machine.default_dir,
        };
        let book: PeerBook = PeerBook {
            peers: Vec::new(),
            selected: None,
            scan_state: ScanState::Idle,
            saved_peer_name: prefs.peer_name,
            saved_peer_addr: prefs.peer_addr,
            manual_peers: manual,
            this_hostname: machine.hostname,
            this_ip: machine.ip,
        };
        assert(book@.peers =~= seq![]);
        let relay_sync: SyncSide = SyncSide::new(TextMap::new(), true);
        assert(relay_sync@.map =~= Map::empty());
        App {
            book,
            queue: Queue::new(),
            local_sync: SyncSide::new(prefs.sync_map, false),
            relay_sync,
            link: Link::new(),
            settings: Settings {
                license,
                license_key_buf: "".to_string(),
                license_email_buf: "".to_string(),
                license_msg: None,
                auto_detect_theme: prefs.auto_detect_theme,
                dark_mode: dark,
                save_dir,
                notify_on_receive: prefs.notify_on_receive,
                auto_open_folder: prefs.auto_open_folder,
                minimize_to_tray: true,
            },
            screen: Screen {
                tab: Tab::Scan,
                settings_tab: SettingsTab::Device,
                scan_mode: ScanMode::Local,
                show_upgrade: false,
                window_visible: true,
                history_filter: "".to_string(),
                scan_filter: "".to_string(),
            },
            history,
            updates: UpdateCheck {
                available: None,
                asked: false,
                version: update::version_label(),
            },
        }
    }

    pub fn is_pro(&self) -> (r: bool)
        ensures
            r == (self.settings.license.plan is Pro),
    {
        self.settings.is_pro()
    }

    /// The preferences to keep. The folders that go through the relay are kept with the others.
    pub open spec fn prefs_to_keep(self) -> Prefs {
        Prefs {
            peer_name: match self.book@.chosen() {
                Some(d) => d.name,
                None => self.book.saved_peer_name@,
            },
            peer_addr: match self.book@.chosen() {
                Some(d) => d.addr,
                None => self.book.saved_peer_addr@,
            },
            sync_map: self.local_sync@.map.union_prefer_right(self.relay_sync@.map),
            save_dir: Some(self.settings.save_dir@),
            notify_on_receive: self.settings.notify_on_receive,
            auto_open_folder: self.settings.auto_open_folder,
            manual_peers: name_pairs(self.book@.manual_peers),
            auto_detect_theme: self.settings.auto_detect_theme,
            dark_mode: Some(self.settings.dark_mode),
        }
    }

    /// The preferences to keep.
    pub fn persist_prefs(&self) -> (r: SavedPrefs)
        requires
            self.wf(),
        ensures
            r.sync_map.wf(),
            r@ == self.prefs_to_keep(),
    {
        let (name, addr): (String, String) = match self.book.selected_peer() {
            Some(p) => (p.name.clone(), p.addr.clone()),
            None => (self.book.saved_peer_name.clone(), self.book.saved_peer_addr.clone()),
        };
        let mut map: TextMap<String> = TextMap::new();
        proof {
            assert(texts_under(map@).union_prefer_right(self.local_sync@.map)
                =~= self.local_sync@.map);
        }
        map.extend(&self.local_sync.map);
        map.extend(&self.relay_sync.map);
        let ghost manual = self.book@.manual_peers;
        let mut pairs: Vec<(String, String)> = Vec::new();
        let mut i: usize = 0;
        while i < self.book.manual_peers.len()
            invariant
                i <= self.book.manual_peers@.len(),
                manual == self.book@.manual_peers,
                manual.len() == self.book.manual_peers@.len(),
                pair_texts(pairs@) =~= name_pairs(manual).take(i as int),
            decreases self.book.manual_peers@.len() - i,
        {
            let p: &Peer = &self.book.manual_peers[i];
            assert(manual[i as int] == p@);
            pairs.push((p.name.clone(), p.addr.clone()));
            i = i + 1;
            assert(name_pairs(manual).take(i as int) =~= name_pairs(manual).take(i - 1).push(
                name_pairs(manual)[i - 1],
            ));
        }
        let r: SavedPrefs = SavedPrefs {
            peer_name: name,
            peer_addr: addr,
            sync_map: map,
            save_dir: Some(self.settings.save_dir.clone()),
            notify_on_receive: self.settings.notify_on_receive,
            auto_open_folder: self.settings.auto_open_folder,
            manual_peers: pairs,
            auto_detect_theme: self.settings.auto_detect_theme,
            dark_mode: Some(self.settings.dark_mode),
        };
        assert(name_pairs(manual).take(i as int) =~= name_pairs(manual));
        r
    }

    // ---- folders ----

    /// Starts keeping the folder in step over the local network; whether that is to be done. It
    /// takes a licence.
    pub fn start_sync_watcher(&mut self) -> (r: bool)
        requires
            old(self).wf(),
        ensures
            final(self).wf(),
            r == (old(self).settings.license.plan is Pro && old(self).local_sync@.jobs.len() > 0
                && !old(self).local_sync.active),
            final(self).local_sync@ == (Side {
                active: old(self).local_sync.active || r,
                ..old(self).local_sync@
            }),
            *final(self) == (App {
                local_sync: final(self).local_sync,
                screen: Screen {
                    show_upgrade: old(self).screen.show_upgrade || old(
                        self,
                    ).settings.license.plan !is Pro,
                    ..old(self).screen
                },
                ..*old(self)
            }),
    {
        if !self.is_pro() {
            self.screen.show_upgrade = true;
            return false;
        }
        if self.local_sync.jobs.len() == 0 || self.local_sync.active {
            return false;
        }
        self.local_sync.active = true;
        true
    }

    /// Starts keeping the folder in step through the relay; whether that is to be done. It takes a
    /// licence and a connection.
    pub fn start_relay_sync_watcher(&mut self) -> (r: bool)
        requires
            old(self).wf(),
        ensures
            final(self).wf(),
            ({
                let pro = old(self).settings.license.plan is Pro;
                let idle = old(self).relay_sync@.jobs.len() > 0 && !old(self).relay_sync.active;
                let connected = old(self).link.relay_mode && old(self).link.has_stream;
                &&& r == (pro && idle && connected)
                &&& final(self).link@ == (if pro && idle && !connected {
                    link::State {
                        message: Some(
                            ("Cannot start remote sync: No active relay connection"@, true),
                        ),
                        ..old(self).link@
                    }
                } else {
                    old(self).link@
                })
                &&& final(self).relay_sync@ == (Side {
                    active: old(self).relay_sync.active || r,
                    ..old(self).relay_sync@
                })
                &&& *final(self) == (App {
                    relay_sync: final(self).relay_sync,
                    link: final(self).link,
                    screen: Screen {
                        show_upgrade: old(self).screen.show_upgrade || !pro,
                        ..old(self).screen
                    },
                    ..*old(self)
                })
            }),
    {
        if !self.is_pro() {
            self.screen.show_upgrade = true;
            return false;
        }
        if self.relay_sync.jobs.len() == 0 || self.relay_sync.active {
            return false;
        }
        if !self.link.relay_mode || !self.link.has_stream {
            self.link.message = Some(
                ("Cannot start remote sync: No active relay connection".to_string(), true),
            );
            return false;
        }
        self.relay_sync.active = true;
        true
    }

    /// Finds the work for the chosen device over the local network.
    pub fn rebuild_sync_jobs<F: Fn(&str) -> bool>(&mut self, present: &F)
        requires
            old(self).wf(),
            forall|s: &str| call_requires(*present, (s,)),
        ensures
            final(self).wf(),
            old(self).local_sync@.may_become(
                final(self).local_sync@,
                old(self).book@.chosen(),
                *present,
            ),
            *final(self) == (App { local_sync: final(self).local_sync, ..*old(self) }),
    {
        let chosen: Option<&Peer> = self.book.selected_peer();
        assert(device_of(chosen) == self.book@.chosen());
        self.local_sync.rebuild(chosen, present);
    }

    /// Finds the work for the chosen device through the relay.
    pub fn rebuild_relay_sync_jobs<F: Fn(&str) -> bool>(&mut self, present: &F)
        requires
            old(self).wf(),
            forall|s: &str| call_requires(*present, (s,)),
        ensures
            final(self).wf(),
            old(self).relay_sync@.may_become(
                final(self).relay_sync@,
                old(self).book@.chosen(),
                *present,
            ),
            *final(self) == (App { relay_sync: final(self).relay_sync, ..*old(self) }),
    {
        let chosen: Option<&Peer> = self.book.selected_peer();
        assert(device_of(chosen) == self.book@.chosen());
        self.relay_sync.rebuild(chosen, present);
    }

    /// Sets the folder for the chosen device; whether the preferences are to be saved. It takes a
    /// licence.
    pub fn add_sync_folder<F: Fn(&str) -> bool>(&mut self, folder: String, present: &F) -> (r: bool)
        requires
            old(self).wf(),
            forall|s: &str| call_requires(*present, (s,)),
        ensures
            final(self).wf(),
            ({
                let pro = old(self).settings.license.plan is Pro;
                &&& r == (pro && old(self).book@.chosen() is Some)
                &&& if r {
                    old(self).local_sync@.with_folder(
                        old(self).book@.chosen()->0.addr,
                        folder@,
                    ).may_become(final(self).local_sync@, old(self).book@.chosen(), *present)
                } else {
                    final(self).local_sync == old(self).local_sync
                }
                &&& *final(self) == (App {
                    local_sync: final(self).local_sync,
                    screen: Screen {
                        show_upgrade: old(self).screen.show_upgrade || !pro,
                        ..old(self).screen
                    },
                    ..*old(self)
                })
            }),
    {
        if !self.is_pro() {
            self.screen.show_upgrade = true;
            return false;
        }
        match self.book.selected_peer() {
            Some(p) => {
                let addr: String = p.addr.clone();
                self.local_sync.set_folder(addr, folder);
                self.rebuild_sync_jobs(present);
                true
            },
            None => false,
        }
    }

    /// Sets the folder for the chosen device that goes through the relay; whether the preferences
    /// are to be saved. It takes a licence and a connection.
    pub fn add_relay_sync_folder<F: Fn(&str) -> bool>(&mut self, folder: String, present: &F) -> (r:
        bool)
        requires
            old(self).wf(),
            forall|s: &str| call_requires(*present, (s,)),
        ensures
            final(self).wf(),
            ({
                let pro = old(self).settings.license.plan is Pro;
                let connected = old(self).link.relay_mode;
                &&& r == (pro && connected && old(self).book@.chosen() is Some)
                &&& if r {
                    old(self).relay_sync@.with_folder(
                        old(self).book@.chosen()->0.addr,
                        folder@,
                    ).may_become(final(self).relay_sync@, old(self).book@.chosen(), *present)
                } else {
                    final(self).relay_sync == old(self).relay_sync
                }
                &&& final(self).link@ == (if pro && !connected {
                    link::State {
                        message: Some(
                            ("Remote sync requires an active relay connection"@, true),
                        ),
                        ..old(self).link@
                    }
                } else {
                    old(self).link@
                })
                &&& *final(self) == (App {
                    relay_sync: final(self).relay_sync,
                    link: final(self).link,
                    screen: Screen {
                        show_upgrade: old(self).screen.show_upgrade || !pro,
                        ..old(self).screen
                    },
                    ..*old(self)
                })
            }),
    {
        if !self.is_pro() {
            self.screen.show_upgrade = true;
            return false;
        }
        if !self.link.relay_mode {
            self.link.message = Some(
                ("Remote sync requires an active relay connection".to_string(), true),
            );
            return false;
        }
        match self.book.selected_peer() {
            Some(p) => {
                let addr: String = p.addr.clone();
                self.relay_sync.set_folder(addr, folder);
                self.rebuild_relay_sync_jobs(present);
                true
            },
            None => false,
        }
    }

    /// Forgets the folder for the chosen device; whether the preferences are to be saved.
    pub fn remove_sync_folder<F: Fn(&str) -> bool>(&mut self, present: &F) -> (r: bool)
        requires
            old(self).wf(),
            forall|s: &str| call_requires(*present, (s,)),
        ensures
            final(self).wf(),
            r == (old(self).book@.chosen() is Some),
            if r {
                final(self).local_sync@ == old(self).local_sync@.without_folder(
                    old(self).book@.chosen()->0.addr,
                ).rebuilt(None, false)
            } else {
                final(self).local_sync == old(self).local_sync
            },
            *final(self) == (App { local_sync: final(self).local_sync, ..*old(self) }),
    {
        match self.book.selected_peer() {
            Some(p) => {
                let addr: String = p.addr.clone();
                self.local_sync.drop_folder(addr.as_str());
                self.rebuild_sync_jobs(present);
                true
            },
            None => false,
        }
    }

    /// Forgets the folder for the chosen device that goes through the relay; whether the
    /// preferences are to be saved.
    pub fn remove_relay_sync_folder<F: Fn(&str) -> bool>(&mut self, present: &F) -> (r: bool)
        requires
            old(self).wf(),
            forall|s: &str| call_requires(*present, (s,)),
        ensures
            final(self).wf(),
            r == (old(self).book@.chosen() is Some),
            if r {
                final(self).relay_sync@ == old(self).relay_sync@.without_folder(
                    old(self).book@.chosen()->0.addr,
                ).rebuilt(None, false)
            } else {
                final(self).relay_sync == old(self).relay_sync
            },
            *final(self) == (App { relay_sync: final(self).relay_sync, ..*old(self) }),
    {
        match self.book.selected_peer() {
            Some(p) => {
                let addr: String = p.addr.clone();
                self.relay_sync.drop_folder(addr.as_str());
                self.rebuild_relay_sync_jobs(present);
                true
            },
            None => false,
        }
    }

    // ---- devices ----

    /// Takes the devices that have been found. Where one is chosen, the work for it is found, and
    /// started where there is a licence; whether it is to be started.
    pub fn finish_scan<F: Fn(&str) -> bool>(&mut self, found: Vec<Peer>, present: &F) -> (r: bool)
        requires
            old(self).wf(),
            forall|s: &str| call_requires(*present, (s,)),
        ensures
            final(self).wf(),
            final(self).book@ == old(self).book@.scanned(peers::devices(found@)),
            if old(self).book.selected is Some {
                exists|mid: Side| #[trigger]
                    old(self).local_sync@.may_become(
                        mid,
                        final(self).book@.chosen(),
                        *present,
                    ) && r == (old(self).settings.license.plan is Pro && mid.jobs.len() > 0
                        && !mid.active) && final(self).local_sync@ == (Side {
                        active: mid.active || r,
                        ..mid
                    })
            } else {
                !r && final(self).local_sync == old(self).local_sync
            },
            *final(self) == (App {
                book: final(self).book,
                local_sync: final(self).local_sync,
                ..*old(self)
            }),
    {
        self.book.finish_scan(found);
        if self.book.selected.is_none() {
            return false;
        }
        self.rebuild_sync_jobs(present);
        let ghost mid = self.local_sync@;
        if self.is_pro() {
            self.start_sync_watcher()
        } else {
            false
        }
    }

    /// Chooses the device at `idx`, or gives the choice up; whether the preferences are to be saved.
    pub fn select_peer<F: Fn(&str) -> bool>(&mut self, idx: usize, present: &F) -> (r: bool)
        requires
            old(self).wf(),
            idx < old(self).book.peers@.len(),
            forall|s: &str| call_requires(*present, (s,)),
        ensures
            final(self).wf(),
            final(self).book@ == old(self).book@.clicked(idx),
            old(self).local_sync@.may_become(
                final(self).local_sync@,
                final(self).book@.chosen(),
                *present,
            ),
            r == (old(self).book.selected != Some(idx)),
            *final(self) == (App {
                book: final(self).book,
                local_sync: final(self).local_sync,
                ..*old(self)
            }),
    {
        self.book.select_peer(idx);
        self.rebuild_sync_jobs(present);
        self.book.selected.is_some()
    }

    /// Turns to the search for devices on the local network.
    pub fn change_device(&mut self)
        ensures
            final(self).book@ == old(self).book@.scanning(),
            *final(self) == (App {
                book: final(self).book,
                screen: Screen { scan_mode: ScanMode::Local, tab: Tab::Scan, ..old(self).screen },
                ..*old(self)
            }),
    {
        self.screen.scan_mode = ScanMode::Local;
        self.screen.tab = Tab::Scan;
        self.book.start_scan();
    }

    // ---- sending ----

    /// Starts to send what waits; nothing where no device is chosen or no file is queued.
    pub fn start_send_queue(&mut self) -> (r: Option<SendPlan>)
        ensures
            match r {
                Some(plan) => {
                    &&& old(self).book@.chosen() matches Some(d)
                    &&& old(self).queue@.items.len() > 0
                    &&& plan.peer_name@ == d.name
                    &&& plan.peer_addr@ == d.addr
                    &&& plan.use_relay == (old(self).link.relay_mode && old(self).link.has_stream)
                    &&& final(self).queue@ == (crate::queue::State {
                        items: old(self).queue@.items.map_values(|i: Item| started(i)),
                        ..old(self).queue@
                    })
                    &&& are_due(
                        plan.files@,
                        final(self).queue@.items,
                        final(self).queue@.items.len(),
                    )
                },
                None => (old(self).book@.chosen() is None || old(self).queue@.items.len() == 0)
                    && final(self).queue == old(self).queue,
            },
            *final(self) == (App { queue: final(self).queue, ..*old(self) }),
    {
        if self.queue.items.len() == 0 {
            return None;
        }
        match self.book.selected_peer() {
            None => None,
            Some(p) => {
                let peer_name: String = p.name.clone();
                let peer_addr: String = p.addr.clone();
                let use_relay: bool = self.link.relay_mode && self.link.has_stream;
                let files: Vec<Outgoing> = self.queue.start();
                Some(SendPlan { peer_name, peer_addr, use_relay, files })
            },
        }
    }

    /// Takes files that were dropped onto the window, and shows the queue.
    pub fn drop_files(&mut self, files: Vec<(String, u64)>, style: Style)
        ensures
            final(self).queue@ == (crate::queue::State {
                items: crate::queue::with_files(
                    old(self).queue@.items,
                    crate::queue::file_list(files@),
                    style,
                ),
                ..old(self).queue@
            }),
            *final(self) == (App {
                queue: final(self).queue,
                screen: Screen { tab: Tab::Send, ..old(self).screen },
                ..*old(self)
            }),
    {
        self.queue.add_files(files, style);
        self.screen.tab = Tab::Send;
    }

    // ---- the relay ----

    /// Takes news of the connection to the relay. Once it can be used by a pair, the other device is
    /// chosen and the queue is shown; whether files are then to be received through it, which they are
    /// by the device that went online and waited.
    pub fn take_relay_message(&mut self, msg: RelayMsg) -> (r: bool)
        requires
            old(self).wf(),
            old(self).book.peers@.len() < usize::MAX,
        ensures
            final(self).wf(),
            final(self).link@ == old(self).link@.told(msg),
            r == (msg is Ready && old(self).link@.state is Paired && old(self).link@.receives),
            final(self).book@ == (if msg is Ready && old(self).link@.state is Paired {
                old(self).book@.paired(old(self).link@.state->Paired_0)
            } else {
                old(self).book@
            }),
            *final(self) == (App {
                link: final(self).link,
                book: final(self).book,
                screen: Screen {
                    tab: if msg is Ready && old(self).link@.state is Paired {
                        Tab::Send
                    } else {
                        old(self).screen.tab
                    },
                    ..old(self).screen
                },
                ..*old(self)
            }),
    {
        match self.link.take_message(msg) {
            Some(name) => {
                self.book.add_relay_peer(name.as_str());
                self.screen.tab = Tab::Send;
                self.link.receives
            },
            None => false,
        }
    }

    /// Takes the new address of this device. The search for devices that is shown starts anew, and a
    /// connection to the relay that waits or has failed is given up; what is to be done.
    pub fn network_changed(&mut self, ip: String) -> (r: NetworkStep)
        ensures
            r.rescan == (old(self).screen.tab is Scan && old(self).screen.scan_mode is Local),
            r.reconnect == (old(self).link@.state is Online || old(self).link@.state is Error),
            ({
                let moved = Book { this_ip: ip@, ..old(self).book@ };
                final(self).book@ == if r.rescan {
                    moved.scanning()
                } else {
                    moved
                }
            }),
            final(self).link@ == (if r.reconnect {
                old(self).link@.offline()
            } else {
                old(self).link@
            }),
            *final(self) == (App {
                book: final(self).book,
                link: final(self).link,
                ..*old(self)
            }),
    {
        self.book.this_ip = ip;
        let rescan: bool = match (self.screen.tab, self.screen.scan_mode) {
            (Tab::Scan, ScanMode::Local) => true,
            _ => false,
        };
        if rescan {
            self.book.start_scan();
        }
        let reconnect: bool = match &self.link.state {
            RelayState::Online { .. } => true,
            RelayState::Error(_) => true,
            _ => false,
        };
        if reconnect {
            self.link.go_offline();
        }
        NetworkStep { rescan, reconnect }
    }

    // ---- the window ----

    /// Shows a tab, or the offer to upgrade where the tab takes a licence; whether the history is to
    /// be loaded anew and its files are to count as seen.
    pub fn open_tab(&mut self, tab: Tab) -> (r: bool)
        ensures
            ({
                let locked = tab is Sync && old(self).settings.license.plan !is Pro;
                &&& r == (tab is History)
                &&& *final(self) == (App {
                    screen: if locked {
                        Screen { show_upgrade: true, ..old(self).screen }
                    } else {
                        Screen { tab, ..old(self).screen }
                    },
                    ..*old(self)
                })
            }),
    {
        if self.is_locked(tab) {
            self.screen.show_upgrade = true;
            return false;
        }
        self.screen.tab = tab;
        match tab {
            Tab::History => true,
            _ => false,
        }
    }

    /// Whether a tab takes a licence that is not there.
    pub fn is_locked(&self, tab: Tab) -> (r: bool)
        ensures
            r == (tab is Sync && self.settings.license.plan !is Pro),
    {
        match tab {
            Tab::Sync => !self.is_pro(),
            _ => false,
        }
    }

    /// Chooses where devices are looked for. The choice takes a licence; without one nothing changes.
    pub fn choose_scan_mode(&mut self, mode: ScanMode)
        ensures
            *final(self) == (App {
                screen: Screen {
                    scan_mode: if old(self).settings.license.plan is Pro {
                        mode
                    } else {
                        old(self).screen.scan_mode
                    },
                    ..old(self).screen
                },
                ..*old(self)
            }),
    {
        if self.is_pro() {
            self.screen.scan_mode = mode;
        }
    }

    /// Takes the wish to close the window: it is hidden, or the program ends.
    pub fn close_requested(&mut self) -> (r: CloseStep)
        ensures
            r == (if old(self).settings.minimize_to_tray {
                CloseStep::Hide
            } else {
                CloseStep::Quit
            }),
            *final(self) == (App {
                screen: Screen {
                    window_visible: old(self).screen.window_visible && r is Quit,
                    ..old(self).screen
                },
                ..*old(self)
            }),
    {
        if self.settings.minimize_to_tray {
            self.screen.window_visible = false;
            CloseStep::Hide
        } else {
            CloseStep::Quit
        }
    }

    /// Takes what was chosen from the menu of the tray icon; whether the program ends, once the
    /// preferences are saved. Else the window is shown.
    pub fn take_tray_event(&mut self, event: TrayEvent) -> (quit: bool)
        ensures
            quit == (event is Quit),
            *final(self) == (App {
                screen: Screen {
                    window_visible: old(self).screen.window_visible || event is ShowWindow,
                    ..old(self).screen
                },
                ..*old(self)
            }),
    {
        match event {
            TrayEvent::ShowWindow => {
                self.screen.window_visible = true;
                false
            },
            TrayEvent::Quit => true,
        }
    }

    /// Turns from the offer to upgrade to the licence panel.
    pub fn enter_key(&mut self)
        ensures
            *final(self) == (App {
                screen: Screen {
                    show_upgrade: false,
                    tab: Tab::Settings,
                    settings_tab: SettingsTab::License,
                    ..old(self).screen
                },
                ..*old(self)
            }),
    {
        self.screen.show_upgrade = false;
        self.screen.tab = Tab::Settings;
        self.screen.settings_tab = SettingsTab::License;
    }

    /// After how many milliseconds the window is to be drawn anew.
    pub fn repaint_after(&self) -> (r: u64)
        ensures
            ({
                let moving = self.book.scan_state is Scanning || (exists|i: int|
                    0 <= i < self.queue@.items.len()
                        && (#[trigger] self.queue@.items[i]).active()) || self.local_sync.active;
                r == if moving {
                    40u64
                } else if self.link@.state is Connecting {
                    100u64
                } else {
                    500u64
                }
            }),
    {
        if self.book.scan_state == ScanState::Scanning || self.queue.any_active()
            || self.local_sync.active {
            return 40;
        }
        match &self.link.state {
            RelayState::Connecting => 100,
            _ => 500,
        }
    }

    /// Empties the history that is shown.
    pub fn clear_history(&mut self)
        ensures
            final(self).history@ == Seq::<HistoryEntry>::empty(),
            final(self).screen.history_filter@ == ""@,
            *final(self) == (App {
                history: final(self).history,
                screen: Screen {
                    history_filter: final(self).screen.history_filter,
                    ..old(self).screen
                },
                ..*old(self)
            }),
    {
        self.history = Vec::new();
        self.screen.history_filter = "".to_string();
    }

    // ---- releases ----

    /// Whether a newer release is to be looked for: once, while the program runs.
    pub fn check_for_update(&mut self) -> (r: bool)
        ensures
            r == !old(self).updates.asked,
            *final(self) == (App {
                updates: UpdateCheck { asked: true, ..old(self).updates },
                ..*old(self)
            }),
    {
        let first: bool = !self.updates.asked;
        self.updates.asked = true;
        first
    }

    /// Takes the answer to the search for a newer release.
    pub fn take_update(&mut self, latest: Option<String>)
        ensures
            *final(self) == (App {
                updates: UpdateCheck { available: latest, ..old(self).updates },
                ..*old(self)
            }),
    {
        self.updates.available = latest;
    }
}

/// What is to be done once this device has another address.
#[derive(Clone, Copy, Debug, PartialEq, Eq, Structural)]
pub struct NetworkStep {
    /// Look for devices.
    pub rescan: bool,
    /// Go online again.
    pub reconnect: bool,
}

/// What becomes of the window.
#[derive(Clone, Copy, Debug, PartialEq, Eq, Structural)]
pub enum CloseStep {
    Hide,
    Quit,
}

/// The entry of the history for a file that was sent, or could not be.
pub fn sent_entry(now: u64, file: &Outgoing, peer_name: &str, error: Option<String>) -> (r:
    HistoryEntry)
    ensures
        r@ == (Entry {
            timestamp: now,
            direction: TransferDir::Sent,
            file_name: file.name@,
            file_size: file.size,
            peer_name: peer_name@,
            success: error is None,
            error: text_in(error),
            transfer_type: TransferType::Local,
            file_path: Some(file.path@),
        }),
{
    let success: bool = error.is_none();
    HistoryEntry {
        timestamp: now,
        direction: TransferDir::Sent,
        file_name: file.name.clone(),
        file_size: file.size,
        peer_name: peer_name.to_string(),
        success,
        error,
        transfer_type: TransferType::Local,
        file_path: Some(file.path.clone()),
    }
}

// ---- laws ----

/// The preferences survive a restart: what is loaded from the file that they were saved to is what
/// was to be kept. The texts must fit the lines of the file.
pub proof fn preferences_survive_a_restart(a: App, kept: SavedPrefs, loaded: Prefs)
    requires
        kept.sync_map.wf(),
        kept@ == a.prefs_to_keep(),
        prefs::fits_file(kept),
        prefs::is_said_by(loaded, text::unlines(prefs::pref_lines(kept))),
    ensures
        loaded == a.prefs_to_keep(),
{
    prefs::prefs_round_trip(kept, loaded);
}

/// Once the relay has found the other device and the connection can be used, that device is chosen
/// and files go to it through the relay.
pub proof fn pairs_are_served_by_the_relay(l: link::State, b: Book, peer: String)
    requires
        b.peers.len() < usize::MAX,
    ensures
        ({
            let paired = l.told(RelayMsg::Paired { peer });
            let ready = paired.told(RelayMsg::Ready);
            &&& paired.state == LinkState::Paired(peer@)
            &&& ready.state == paired.state
            &&& ready.relay_mode && ready.has_stream && !ready.listening
            &&& b.paired(peer@).chosen() matches Some(d) && d.addr == peers::RELAY_PEER_ADDR@
            &&& b.paired(peer@).saved_peer_name == peer@
        }),
{
    let addr = peers::RELAY_PEER_ADDR@;
    let all = b.paired(peer@).peers;
    assert(peers::has_addr(all, addr)) by {
        if !peers::has_addr(b.peers, addr) {
            assert(all.last().addr == addr);
        }
    }
    peers::lemma_addr_index(all, addr);
}

// ---- what the calls give ----

/// Whether the device at `i` of the list is the chosen one.
pub open spec fn is_chosen(b: PeerBook, i: int) -> bool {
    &&& 0 <= i < b.peers@.len()
    &&& b.selected is Some
    &&& b.selected->0 == i
}

proof fn lemma_chosen(b: PeerBook, i: int)
    requires
        is_chosen(b, i),
    ensures
        b@.chosen() == Some(b.peers@[i]@),
{
    assert(b@.peers[i] == b.peers@[i]@);
}

/// What is queued goes to the address of the chosen device, each file from its own path, under its
/// own name; through the relay exactly where that is in use and has a connection.
pub proof fn the_queue_goes_to_the_chosen_device(a: &mut App, i: int, r: Option<SendPlan>)
    requires
        call_ensures(App::start_send_queue, (a,), r),
        is_chosen(old(a).book, i),
        old(a).queue.items@.len() > 0,
    ensures
        r is Some,
        r->0.peer_addr@ == old(a).book.peers@[i].addr@,
        r->0.peer_name@ == old(a).book.peers@[i].name@,
        r->0.use_relay == (old(a).link.relay_mode && old(a).link.has_stream),
        forall|k: int|
            0 <= k < r->0.files@.len() ==> {
                let n = (#[trigger] r->0.files@[k]).index as int;
                &&& 0 <= n < old(a).queue.items@.len()
                &&& r->0.files@[k].path@ == old(a).queue.items@[n].path@
                &&& r->0.files@[k].name@ == old(a).queue.items@[n].name@
                &&& r->0.files@[k].size == old(a).queue.items@[n].size
            },
        final(a).book == old(a).book,
        final(a).link == old(a).link,
        final(a).screen == old(a).screen,
        final(a).settings == old(a).settings,
{
    lemma_chosen(old(a).book, i);
    assert(old(a).queue@.items.len() > 0);
    let files = r->0.files@;
    let s = final(a).queue@.items;
    let t = old(a).queue@.items;
    assert forall|k: int| 0 <= k < files.len() implies {
        let n = (#[trigger] files[k]).index as int;
        &&& 0 <= n < old(a).queue.items@.len()
        &&& files[k].path@ == old(a).queue.items@[n].path@
        &&& files[k].name@ == old(a).queue.items@[n].name@
        &&& files[k].size == old(a).queue.items@[n].size
    } by {
        let n = files[k].index as int;
        assert(files[k].index < s.len());
        assert(t[n] == old(a).queue.items@[n]@);
        assert(s[n] == started(t[n]));
    }
}

/// Nothing is sent where no device is chosen or nothing is queued.
pub proof fn nothing_goes_nowhere(a: &mut App, r: Option<SendPlan>)
    requires
        call_ensures(App::start_send_queue, (a,), r),
        old(a).book.selected is None || old(a).queue.items@.len() == 0,
    ensures
        r is None,
        *final(a) == *old(a),
{
    assert(old(a).queue@.items.len() == old(a).queue.items@.len());
}

/// With a licence, the folder that is set is kept for the address of the chosen device, and the
/// work found is for that device and that folder. Without one the upgrade is offered and no folder
/// is set.
pub proof fn folders_go_to_the_chosen_device<F: Fn(&str) -> bool>(
    a: &mut App,
    folder: String,
    present: &F,
    i: int,
    r: bool,
)
    requires
        call_ensures(App::add_sync_folder::<F>, (a, folder, present), r),
        is_chosen(old(a).book, i),
    ensures
        r <==> old(a).settings.license.plan is Pro,
        !r ==> final(a).screen.show_upgrade && final(a).local_sync == old(a).local_sync,
        r ==> {
            let addr = old(a).book.peers@[i].addr@;
            &&& final(a).local_sync.map@.contains_key(addr)
            &&& final(a).local_sync.map@[addr]@ == folder@
            &&& !final(a).local_sync.active
            &&& forall|k: int|
                0 <= k < final(a).local_sync.jobs@.len() ==> (#[trigger] final(a).local_sync.jobs@[k]).peer_addr@ == addr && final(a).local_sync.jobs@[k].folder@ == folder@ && final(a).local_sync.jobs@[k].peer_name@ == old(a).book.peers@[i].name@
        },
        final(a).book == old(a).book,
        final(a).queue == old(a).queue,
        final(a).relay_sync == old(a).relay_sync,
        final(a).screen.tab == old(a).screen.tab,
{
    lemma_chosen(old(a).book, i);
    if r {
        let d = old(a).book.peers@[i]@;
        lemma_work(
            old(a).local_sync@.with_folder(d.addr, folder@),
            final(a).local_sync,
            d,
            *present,
        );
    }
}

proof fn lemma_work<F: Fn(&str) -> bool>(before: Side, after: SyncSide, d: Device, present: F)
    requires
        before.may_become(after@, Some(d), present),
    ensures
        texts_under(after.map@) == before.map,
        after.active == before.active,
        after.jobs@.len() <= 1,
        before.map.contains_key(d.addr) ==> after.map@.contains_key(d.addr)
            && after.map@[d.addr]@ == before.map[d.addr],
        !before.map.contains_key(d.addr) ==> after.jobs@.len() == 0
            && !after.map@.contains_key(d.addr),
        forall|k: int|
            0 <= k < after.jobs@.len() ==> (#[trigger] after.jobs@[k]).peer_addr@ == d.addr
                && after.jobs@[k].peer_name@ == d.name && after.jobs@[k].folder@
                == before.map[d.addr],
{
    let m = texts_under(after.map@);
    assert(m.contains_key(d.addr) <==> after.map@.contains_key(d.addr));
    if before.map.contains_key(d.addr) {
        assert(m[d.addr] == after.map@[d.addr]@);
    }
    assert(after@.jobs.len() == after.jobs@.len());
    assert forall|k: int| 0 <= k < after.jobs@.len() implies (#[trigger] after.jobs@[k]).peer_addr@
        == d.addr && after.jobs@[k].peer_name@ == d.name && after.jobs@[k].folder@
        == before.map[d.addr] by {
        assert(after@.jobs[k] == after.jobs@[k]@);
    }
}

/// The same for a folder that goes through the relay, which also takes a connection.
pub proof fn relayed_folders_go_to_the_chosen_device<F: Fn(&str) -> bool>(
    a: &mut App,
    folder: String,
    present: &F,
    i: int,
    r: bool,
)
    requires
        call_ensures(App::add_relay_sync_folder::<F>, (a, folder, present), r),
        is_chosen(old(a).book, i),
    ensures
        r <==> old(a).settings.license.plan is Pro && old(a).link.relay_mode,
        !r ==> final(a).relay_sync == old(a).relay_sync,
        !(old(a).settings.license.plan is Pro) ==> final(a).screen.show_upgrade,
        old(a).settings.license.plan is Pro && !r ==> link::tells_of_error(final(a).link),
        r ==> {
            let addr = old(a).book.peers@[i].addr@;
            &&& final(a).relay_sync.map@.contains_key(addr)
            &&& final(a).relay_sync.map@[addr]@ == folder@
            &&& !final(a).relay_sync.active
            &&& forall|k: int|
                0 <= k < final(a).relay_sync.jobs@.len() ==> (#[trigger] final(a).relay_sync.jobs@[k]).peer_addr@ == addr && final(a).relay_sync.jobs@[k].folder@ == folder@ && final(a).relay_sync.jobs@[k].peer_name@ == old(a).book.peers@[i].name@
        },
        final(a).book == old(a).book,
        final(a).local_sync == old(a).local_sync,
{
    lemma_chosen(old(a).book, i);
    if r {
        let d = old(a).book.peers@[i]@;
        lemma_work(
            old(a).relay_sync@.with_folder(d.addr, folder@),
            final(a).relay_sync,
            d,
            *present,
        );
    }
}

/// A folder that is forgotten is not kept for the chosen device any more, and nothing is left to be
/// done.
pub proof fn forgotten_folders_are_left_alone<F: Fn(&str) -> bool>(
    a: &mut App,
    present: &F,
    i: int,
    r: bool,
)
    requires
        call_ensures(App::remove_sync_folder::<F>, (a, present), r),
        is_chosen(old(a).book, i),
    ensures
        r,
        !final(a).local_sync.map@.contains_key(old(a).book.peers@[i].addr@),
        final(a).local_sync.jobs@.len() == 0,
        !final(a).local_sync.active,
        final(a).book == old(a).book,
        final(a).relay_sync == old(a).relay_sync,
        final(a).screen == old(a).screen,
{
    lemma_chosen(old(a).book, i);
    let m = texts_under(final(a).local_sync.map@);
    let addr = old(a).book.peers@[i].addr@;
    assert(m.contains_key(addr) <==> final(a).local_sync.map@.contains_key(addr));
    assert(final(a).local_sync@.jobs.len() == final(a).local_sync.jobs@.len());
}

/// The same for a folder that goes through the relay.
pub proof fn forgotten_relayed_folders_are_left_alone<F: Fn(&str) -> bool>(
    a: &mut App,
    present: &F,
    i: int,
    r: bool,
)
    requires
        call_ensures(App::remove_relay_sync_folder::<F>, (a, present), r),
        is_chosen(old(a).book, i),
    ensures
        r,
        !final(a).relay_sync.map@.contains_key(old(a).book.peers@[i].addr@),
        final(a).relay_sync.jobs@.len() == 0,
        !final(a).relay_sync.active,
        final(a).book == old(a).book,
        final(a).local_sync == old(a).local_sync,
        final(a).screen == old(a).screen,
{
    lemma_chosen(old(a).book, i);
    let m = texts_under(final(a).relay_sync.map@);
    let addr = old(a).book.peers@[i].addr@;
    assert(m.contains_key(addr) <==> final(a).relay_sync.map@.contains_key(addr));
    assert(final(a).relay_sync@.jobs.len() == final(a).relay_sync.jobs@.len());
}

/// Folders are kept in step only with a licence, where there is work and it is not going on yet.
pub proof fn watching_takes_a_licence(a: &mut App, r: bool)
    requires
        call_ensures(App::start_sync_watcher, (a,), r),
    ensures
        r <==> old(a).settings.license.plan is Pro && old(a).local_sync.jobs@.len() > 0 && !old(a).local_sync.active,
        final(a).local_sync.active <==> old(a).local_sync.active || r,
        !(old(a).settings.license.plan is Pro) ==> final(a).screen.show_upgrade,
        final(a).screen.tab == old(a).screen.tab,
        final(a).book == old(a).book,
        final(a).relay_sync == old(a).relay_sync,
{
    assert(old(a).local_sync@.jobs.len() == old(a).local_sync.jobs@.len());
}

/// Through the relay that takes a connection as well; where only that is missing, the user is told.
pub proof fn relayed_watching_takes_a_connection(a: &mut App, r: bool)
    requires
        call_ensures(App::start_relay_sync_watcher, (a,), r),
    ensures
        r <==> old(a).settings.license.plan is Pro && old(a).relay_sync.jobs@.len() > 0 && !old(a).relay_sync.active && old(a).link.relay_mode && old(a).link.has_stream,
        final(a).relay_sync.active <==> old(a).relay_sync.active || r,
        !(old(a).settings.license.plan is Pro) ==> final(a).screen.show_upgrade,
        old(a).settings.license.plan is Pro && old(a).relay_sync.jobs@.len() > 0 && !old(a).relay_sync.active && !r ==> link::tells_of_error(final(a).link),
        final(a).local_sync == old(a).local_sync,
        final(a).book == old(a).book,
{
    assert(old(a).relay_sync@.jobs.len() == old(a).relay_sync.jobs@.len());
}

/// A click on a device that is not chosen chooses it, and the work found is for it and its folder.
pub proof fn chosen_devices_get_their_work<F: Fn(&str) -> bool>(
    a: &mut App,
    idx: usize,
    present: &F,
    r: bool,
)
    requires
        call_ensures(App::select_peer::<F>, (a, idx, present), r),
        idx < old(a).book.peers@.len(),
    ensures
        r <==> old(a).book.selected != Some(idx),
        r ==> final(a).book.selected == Some(idx),
        !r ==> final(a).book.selected is None && final(a).local_sync.jobs@.len() == 0,
        r ==> {
            let p = old(a).book.peers@[idx as int];
            &&& final(a).book.saved_peer_addr@ == p.addr@
            &&& final(a).book.saved_peer_name@ == p.name@
            &&& forall|k: int|
                0 <= k < final(a).local_sync.jobs@.len() ==> (#[trigger] final(a).local_sync.jobs@[k]).peer_addr@ == p.addr@ && final(a).local_sync.jobs@[k].peer_name@ == p.name@ && final(a).local_sync.map@.contains_key(p.addr@) && final(a).local_sync.jobs@[k].folder@ == final(a).local_sync.map@[p.addr@]@
        },
        final(a).queue == old(a).queue,
        final(a).screen == old(a).screen,
{
    let p = old(a).book.peers@[idx as int];
    assert(old(a).book@.peers[idx as int] == p@);
    assert(final(a).local_sync@.jobs.len() == final(a).local_sync.jobs@.len());
    if r {
        assert(final(a).book@.chosen() == Some(p@));
        lemma_work(old(a).local_sync@, final(a).local_sync, p@, *present);
    } else {
        assert(final(a).book@.chosen() is None);
    }
}

/// A search that ends starts the work for the chosen device only with a licence and where there is
/// work; without a choice the work stays as it is.
pub proof fn searches_start_work<F: Fn(&str) -> bool>(
    a: &mut App,
    found: Vec<Peer>,
    present: &F,
    r: bool,
)
    requires
        call_ensures(App::finish_scan::<F>, (a, found, present), r),
    ensures
        r ==> old(a).settings.license.plan is Pro && final(a).local_sync.active
            && final(a).local_sync.jobs@.len() > 0 && !old(a).local_sync.active,
        old(a).book.selected is Some && old(a).settings.license.plan is Pro && final(a).local_sync.jobs@.len() > 0 ==> final(a).local_sync.active,
        old(a).book.selected is None ==> !r && final(a).local_sync == old(a).local_sync,
        final(a).book.scan_state is Done,
        final(a).book.selected == old(a).book.selected,
        final(a).screen == old(a).screen,
        final(a).queue == old(a).queue,
{
    assert(final(a).local_sync@.jobs.len() == final(a).local_sync.jobs@.len());
}

/// Files that are dropped onto the window are queued, and the queue is shown.
pub proof fn dropped_files_are_shown(a: &mut App, files: Vec<(String, u64)>, style: Style)
    requires
        call_ensures(App::drop_files, (a, files, style), ()),
    ensures
        final(a).screen.tab is Send,
        old(a).queue.items@.len() <= final(a).queue.items@.len(),
        files@.len() == 1 && old(a).queue.items@.len() == 0 ==> final(a).queue.items@.len() == 1
            && final(a).queue.items@[0].path@ == files@[0].0@ && final(a).queue.items@[0].size
            == files@[0].1,
        final(a).queue.sent_bytes == old(a).queue.sent_bytes,
        final(a).queue.sent_files == old(a).queue.sent_files,
        final(a).book == old(a).book,
        final(a).link == old(a).link,
{
    let s = old(a).queue@.items;
    let l = crate::queue::file_list(files@);
    let t = final(a).queue@.items;
    crate::queue::lemma_with_files(s, l, style);
    assert(t.len() == final(a).queue.items@.len());
    if files@.len() == 1 && s.len() == 0 {
        crate::queue::lemma_has_files(s, l, style, 0);
        assert(t.len() == 1);
        assert(t[0] == final(a).queue.items@[0]@);
        assert(l.contains((t[0].path, t[0].size)));
        assert(l[0] == (files@[0].0@, files@[0].1));
    }
}

/// Once a pair's connection can be used, the other device is chosen under its name and the queue is
/// shown; files are then received by the side that waited. Other news leave choice and tab alone.
pub proof fn ready_pairs_are_chosen(a: &mut App, msg: RelayMsg, r: bool)
    requires
        call_ensures(App::take_relay_message, (a, msg), r),
        old(a).book.peers@.len() < usize::MAX,
    ensures
        r <==> msg is Ready && old(a).link.state is Paired && old(a).link.receives,
        msg is Ready && old(a).link.state is Paired ==> {
            &&& final(a).screen.tab is Send
            &&& final(a).book.selected is Some
            &&& final(a).book.selected->0 < final(a).book.peers@.len()
            &&& final(a).book.peers@[final(a).book.selected->0 as int].addr@
                == peers::RELAY_PEER_ADDR@
            &&& final(a).book.saved_peer_name@ == old(a).link.state->peer_name@
            &&& final(a).link.relay_mode
            &&& final(a).link.has_stream
        },
        !(msg is Ready && old(a).link.state is Paired) ==> final(a).screen == old(a).screen
            && final(a).book.selected == old(a).book.selected && peers::devices(
            final(a).book.peers@,
        ) == peers::devices(old(a).book.peers@),
        final(a).queue == old(a).queue,
{
    if msg is Ready && old(a).link.state is Paired {
        let addr = peers::RELAY_PEER_ADDR@;
        let s = old(a).book@.peers;
        let t = final(a).book@.peers;
        assert(peers::has_addr(t, addr)) by {
            if !peers::has_addr(s, addr) {
                assert(t[s.len() as int].addr == addr);
            }
        }
        peers::lemma_addr_index(t, addr);
        assert(t.len() == final(a).book.peers@.len());
        let n = peers::addr_index(t, addr) as int;
        assert(t[n] == final(a).book.peers@[n]@);
    }
}

/// A new address is kept. A search that is shown starts anew, and a connection that waits or has
/// failed is given up; a pair's connection stays.
pub proof fn moves_are_noticed(a: &mut App, ip: String, r: NetworkStep)
    requires
        call_ensures(App::network_changed, (a, ip), r),
    ensures
        final(a).book.this_ip@ == ip@,
        r.rescan <==> old(a).screen.tab is Scan && old(a).screen.scan_mode is Local,
        r.rescan ==> final(a).book.scan_state is Scanning && final(a).book.peers@.len() == 0
            && final(a).book.selected is None,
        !r.rescan ==> final(a).book.scan_state == old(a).book.scan_state && final(a).book.selected
            == old(a).book.selected && peers::devices(final(a).book.peers@) == peers::devices(
            old(a).book.peers@,
        ),
        r.reconnect <==> old(a).link.state is Online || old(a).link.state is Error,
        r.reconnect ==> final(a).link.state is Offline && !final(a).link.listening,
        old(a).link.state is Paired || old(a).link.state is Connecting ==> final(a).link@ == old(a).link@,
        final(a).screen == old(a).screen,
        final(a).queue == old(a).queue,
{
    assert(final(a).book@.peers.len() == final(a).book.peers@.len());
}

/// Turning to the search for devices shows the local one, which begins without devices.
pub proof fn devices_are_changed(a: &mut App)
    requires
        call_ensures(App::change_device, (a,), ()),
    ensures
        final(a).screen.tab is Scan,
        final(a).screen.scan_mode is Local,
        final(a).book.peers@.len() == 0,
        final(a).book.selected is None,
        final(a).book.scan_state is Scanning,
        final(a).book.saved_peer_addr@ == old(a).book.saved_peer_addr@,
        final(a).queue == old(a).queue,
{
    assert(final(a).book@.peers.len() == final(a).book.peers@.len());
}

/// A tab that is not locked is shown; for the one that is, the upgrade is offered and the tab
/// stays. Only folders take a licence. The history is loaded exactly when it is shown.
pub proof fn tabs_are_opened(a: &mut App, before: &App, tab: Tab, locked: bool, r: bool)
    requires
        *before == *old(a),
        call_ensures(App::is_locked, (before, tab), locked),
        call_ensures(App::open_tab, (a, tab), r),
    ensures
        locked <==> tab is Sync && !(old(a).settings.license.plan is Pro),
        locked ==> final(a).screen.tab == old(a).screen.tab && final(a).screen.show_upgrade,
        !locked ==> final(a).screen.tab == tab && final(a).screen.show_upgrade
            == old(a).screen.show_upgrade,
        r <==> tab is History,
        final(a).book == old(a).book,
        final(a).history == old(a).history,
{
}

/// Where devices are looked for can be chosen with a licence only.
pub proof fn the_mode_takes_a_licence(a: &mut App, mode: ScanMode)
    requires
        call_ensures(App::choose_scan_mode, (a, mode), ()),
    ensures
        old(a).settings.license.plan is Pro ==> final(a).screen.scan_mode == mode,
        !(old(a).settings.license.plan is Pro) ==> final(a).screen.scan_mode
            == old(a).screen.scan_mode,
        final(a).screen.tab == old(a).screen.tab,
{
}

/// Closing hides the window where the program stays in the tray, and ends it otherwise; from the
/// tray the window is shown again or the program ends.
pub proof fn windows_hide_and_return(
    a: &mut App,
    b: &mut App,
    step: CloseStep,
    event: TrayEvent,
    quit: bool,
)
    requires
        call_ensures(App::close_requested, (a,), step),
        call_ensures(App::take_tray_event, (b, event), quit),
    ensures
        step is Hide <==> old(a).settings.minimize_to_tray,
        step is Hide ==> !final(a).screen.window_visible,
        step is Quit ==> final(a).screen.window_visible == old(a).screen.window_visible,
        quit <==> event is Quit,
        event is ShowWindow ==> final(b).screen.window_visible,
        final(a).screen.tab == old(a).screen.tab,
        final(b).screen.tab == old(b).screen.tab,
{
}

/// Cleared histories show nothing, under no filter.
pub proof fn histories_are_cleared(a: &mut App)
    requires
        call_ensures(App::clear_history, (a,), ()),
    ensures
        final(a).history@.len() == 0,
        final(a).screen.history_filter@.len() == 0,
        final(a).screen.tab == old(a).screen.tab,
        final(a).queue == old(a).queue,
{
    reveal_strlit("");
}

/// A newer release is looked for once, and what is found is kept.
pub proof fn releases_are_looked_for_once(
    a: &mut App,
    b: &mut App,
    first: bool,
    second: bool,
    c: &mut App,
    latest: Option<String>,
)
    requires
        call_ensures(App::check_for_update, (a,), first),
        old(b).updates.asked == final(a).updates.asked,
        call_ensures(App::check_for_update, (b,), second),
        call_ensures(App::take_update, (c, latest), ()),
    ensures
        first <==> !old(a).updates.asked,
        !second,
        final(c).updates.available == latest,
        final(c).updates.asked == old(c).updates.asked,
{
}

/// What was sent is kept in the history as sent, with the error where it failed.
pub proof fn sent_files_are_entered(
    now: u64,
    file: &Outgoing,
    peer_name: &str,
    error: Option<String>,
    r: HistoryEntry,
)
    requires
        call_ensures(sent_entry, (now, file, peer_name, error), r),
    ensures
        r.timestamp == now,
        r.direction is Sent,
        r.file_name@ == file.name@,
        r.file_size == file.size,
        r.peer_name@ == peer_name@,
        r.success <==> error is None,
        text_in(r.error) == text_in(error),
        r.file_path is Some,
        r.file_path->0@ == file.path@,
{
}

/// The preferences that are kept are those in use: the chosen device, else the one chosen last, the
/// folders of both kinds, and the settings.
pub proof fn preferences_in_use_are_kept(a: &App, r: SavedPrefs, k: Seq<char>)
    requires
        call_ensures(App::persist_prefs, (a,), r),
    ensures
        forall|i: int|
            is_chosen(a.book, i) ==> r.peer_name@ == (#[trigger] a.book.peers@[i]).name@
                && r.peer_addr@ == a.book.peers@[i].addr@,
        a.book.selected is None ==> r.peer_name@ == a.book.saved_peer_name@ && r.peer_addr@
            == a.book.saved_peer_addr@,
        r.sync_map@.contains_key(k) <==> a.local_sync.map@.contains_key(k)
            || a.relay_sync.map@.contains_key(k),
        a.relay_sync.map@.contains_key(k) ==> r.sync_map@[k]@ == a.relay_sync.map@[k]@,
        a.local_sync.map@.contains_key(k) && !a.relay_sync.map@.contains_key(k) ==> r.sync_map@[k]@
            == a.local_sync.map@[k]@,
        r.save_dir is Some,
        r.save_dir->0@ == a.settings.save_dir@,
        r.notify_on_receive == a.settings.notify_on_receive,
        r.auto_open_folder == a.settings.auto_open_folder,
        r.auto_detect_theme == a.settings.auto_detect_theme,
        r.dark_mode == Some(a.settings.dark_mode),
        r.manual_peers@.len() == a.book.manual_peers@.len(),
        forall|i: int|
            0 <= i < r.manual_peers@.len() ==> (#[trigger] r.manual_peers@[i]).0@
                == a.book.manual_peers@[i].name@ && r.manual_peers@[i].1@
                == a.book.manual_peers@[i].addr@,
{
    assert forall|i: int| is_chosen(a.book, i) implies r.peer_name@ == (
    #[trigger] a.book.peers@[i]).name@ && r.peer_addr@ == a.book.peers@[i].addr@ by {
        lemma_chosen(a.book, i);
    }
    let m = texts_under(r.sync_map@);
    let l = texts_under(a.local_sync.map@);
    let q = texts_under(a.relay_sync.map@);
    assert(m == l.union_prefer_right(q));
    assert(m.contains_key(k) <==> r.sync_map@.contains_key(k));
    assert(l.contains_key(k) <==> a.local_sync.map@.contains_key(k));
    assert(q.contains_key(k) <==> a.relay_sync.map@.contains_key(k));
    if q.contains_key(k) {
        assert(q[k] == a.relay_sync.map@[k]@ && m[k] == r.sync_map@[k]@);
    } else if l.contains_key(k) {
        assert(l[k] == a.local_sync.map@[k]@ && m[k] == r.sync_map@[k]@);
    }
    let pairs = pair_texts(r.manual_peers@);
    let devices = a.book@.manual_peers;
    assert(pairs == name_pairs(devices));
    assert(pairs.len() == r.manual_peers@.len());
    assert forall|i: int| 0 <= i < r.manual_peers@.len() implies (#[trigger] r.manual_peers@[i]).0@
        == a.book.manual_peers@[i].name@ && r.manual_peers@[i].1@
        == a.book.manual_peers@[i].addr@ by {
        assert(pairs[i] == (r.manual_peers@[i].0@, r.manual_peers@[i].1@));
        assert(devices[i] == a.book.manual_peers@[i]@);
    }
}

proof fn lemma_manual(p: Seq<(Seq<char>, Seq<char>)>, addrs: Seq<Option<String>>, n: nat)
    requires
        n <= p.len(),
        n <= addrs.len(),
        forall|i: int| 0 <= i < n ==> (#[trigger] addrs[i]) is Some,
    ensures
        manual_devices(p, addrs, n).len() == n,
        forall|i: int|
            0 <= i < n ==> (#[trigger] manual_devices(p, addrs, n)[i]).name == p[i].0
                && manual_devices(p, addrs, n)[i].addr == addrs[i]->0@ && manual_devices(
                p,
                addrs,
                n,
            )[i].kind is Remote,
    decreases n,
{
    if n > 0 {
        let m = (n - 1) as nat;
        lemma_manual(p, addrs, m);
        assert(addrs[m as int] is Some);
        let b = manual_devices(p, addrs, m);
        let d = manual_devices(p, addrs, n);
        assert forall|i: int| 0 <= i < n implies (#[trigger] d[i]).name == p[i].0 && d[i].addr
            == addrs[i]->0@ && d[i].kind is Remote by {
            if i < m {
                assert(d[i] == b[i]);
            }
        }
    }
}

/// The program starts with what was kept: the device chosen last, the devices entered by hand under
/// their names, the folders, the settings, the licence and the history; nothing is chosen, queued or
/// going on.
pub proof fn starts_take_up_what_was_kept(
    kept: SavedPrefs,
    addrs: Vec<Option<String>>,
    license: License,
    history: Vec<HistoryEntry>,
    machine: Machine,
    a: App,
)
    requires
        call_ensures(App::new, (kept, addrs, license, history, machine), a),
        addrs@.len() == kept.manual_peers@.len(),
    ensures
        a.book.saved_peer_name@ == kept.peer_name@,
        a.book.saved_peer_addr@ == kept.peer_addr@,
        a.book.selected is None,
        a.book.peers@.len() == 0,
        a.book.this_ip@ == machine.ip@,
        a.book.this_hostname@ == machine.hostname@,
        (forall|i: int| 0 <= i < addrs@.len() ==> (#[trigger] addrs@[i]) is Some) ==> {
            &&& a.book.manual_peers@.len() == kept.manual_peers@.len()
            &&& forall|i: int|
                0 <= i < kept.manual_peers@.len() ==> (#[trigger] a.book.manual_peers@[i]).name@
                    == kept.manual_peers@[i].0@ && a.book.manual_peers@[i].addr@
                    == addrs@[i]->0@
        },
        forall|k: Seq<char>|
            #[trigger] a.local_sync.map@.contains_key(k) == kept.sync_map@.contains_key(k),
        forall|k: Seq<char>|
            kept.sync_map@.contains_key(k) ==> (#[trigger] a.local_sync.map@[k])@
                == kept.sync_map@[k]@,
        !a.local_sync.active && !a.relay_sync.active,
        a.queue.items@.len() == 0,
        a.link.state is Offline,
        a.settings.license == license,
        kept.save_dir matches Some(d) ==> a.settings.save_dir@ == d@,
        kept.save_dir is None ==> a.settings.save_dir@ == machine.default_dir@,
        a.settings.notify_on_receive == kept.notify_on_receive,
        a.settings.auto_open_folder == kept.auto_open_folder,
        kept.auto_detect_theme ==> a.settings.dark_mode == machine.system_dark,
        !kept.auto_detect_theme && kept.dark_mode is Some ==> a.settings.dark_mode
            == kept.dark_mode->0,
        a.history == history,
        a.screen.tab is Scan,
{
    assert(a.book@.peers.len() == a.book.peers@.len());
    assert(a.queue@.items.len() == a.queue.items@.len());
    let m = texts_under(a.local_sync.map@);
    let l = texts_under(kept.sync_map@);
    assert(m == l);
    assert forall|k: Seq<char>| #[trigger] a.local_sync.map@.contains_key(k)
        == kept.sync_map@.contains_key(k) by {
        assert(m.contains_key(k) <==> a.local_sync.map@.contains_key(k));
        assert(l.contains_key(k) <==> kept.sync_map@.contains_key(k));
    }
    assert forall|k: Seq<char>| kept.sync_map@.contains_key(k) implies (
    #[trigger] a.local_sync.map@[k])@ == kept.sync_map@[k]@ by {
        assert(l.contains_key(k) && m.contains_key(k));
        assert(m[k] == a.local_sync.map@[k]@ && l[k] == kept.sync_map@[k]@);
    }
    if forall|i: int| 0 <= i < addrs@.len() ==> (#[trigger] addrs@[i]) is Some {
        let p = pair_texts(kept.manual_peers@);
        let d = a.book@.manual_peers;
        lemma_manual(p, addrs@, addrs@.len());
        assert(d.len() == a.book.manual_peers@.len());
        assert forall|i: int| 0 <= i < kept.manual_peers@.len() implies (
        #[trigger] a.book.manual_peers@[i]).name@ == kept.manual_peers@[i].0@
            && a.book.manual_peers@[i].addr@ == addrs@[i]->0@ by {
            assert(d[i] == a.book.manual_peers@[i]@);
            assert(d[i].name == p[i].0);
        }
    }
}

/// The work that is found goes to the chosen device, over the local network and through the relay.
pub proof fn work_is_for_the_chosen_device<F: Fn(&str) -> bool>(
    a: &mut App,
    b: &mut App,
    present: &F,
    i: int,
)
    requires
        call_ensures(App::rebuild_sync_jobs::<F>, (a, present), ()),
        call_ensures(App::rebuild_relay_sync_jobs::<F>, (b, present), ()),
        is_chosen(old(a).book, i),
        is_chosen(old(b).book, i),
    ensures
        forall|k: int|
            0 <= k < final(a).local_sync.jobs@.len() ==> (#[trigger] final(a).local_sync.jobs@[k]).peer_addr@ == old(a).book.peers@[i].addr@,
        forall|k: int|
            0 <= k < final(b).relay_sync.jobs@.len() ==> (#[trigger] final(b).relay_sync.jobs@[k]).peer_addr@ == old(b).book.peers@[i].addr@,
        final(a).book == old(a).book,
        final(b).book == old(b).book,
        final(a).relay_sync == old(a).relay_sync,
        final(b).local_sync == old(b).local_sync,
{
    lemma_chosen(old(a).book, i);
    lemma_chosen(old(b).book, i);
    lemma_work(old(a).local_sync@, final(a).local_sync, old(a).book.peers@[i]@, *present);
    lemma_work(old(b).relay_sync@, final(b).relay_sync, old(b).book.peers@[i]@, *present);
}

/// Entering a key turns from the offer to upgrade to the licence panel.
pub proof fn keys_are_entered(a: &mut App)
    requires
        call_ensures(App::enter_key, (a,), ()),
    ensures
        !final(a).screen.show_upgrade,
        final(a).screen.tab is Settings,
        final(a).screen.settings_tab is License,
        final(a).settings == old(a).settings,
{
}

/// The window is drawn more often while something moves: a search, a file that is sent or a folder
/// that is watched, and less so while a connection is made; else twice a second.
pub proof fn motion_is_drawn(a: &App, t: Tally, r: u64)
    requires
        call_ensures(App::repaint_after, (a,), r),
        call_ensures(Queue::tally, (&a.queue,), t),
    ensures
        a.book.scan_state is Scanning || t.active || a.local_sync.active ==> r == 40,
        !(a.book.scan_state is Scanning) && !t.active && !a.local_sync.active ==> r == (
        if a.link.state is Connecting {
            100u64
        } else {
            500u64
        }),
{
    assert(a.link@.state is Connecting <==> a.link.state is Connecting);
    assert(t.active == exists|i: int|
        0 <= i < a.queue@.items.len() && (#[trigger] a.queue@.items[i]).active());
}

/// The work that is found once a search has ended goes to the chosen device.
pub proof fn searches_find_work_for_the_choice<F: Fn(&str) -> bool>(
    a: &mut App,
    found: Vec<Peer>,
    present: &F,
    i: int,
    r: bool,
)
    requires
        call_ensures(App::finish_scan::<F>, (a, found, present), r),
        is_chosen(final(a).book, i),
    ensures
        forall|k: int|
            0 <= k < final(a).local_sync.jobs@.len() ==> {
                let j = #[trigger] final(a).local_sync.jobs@[k];
                &&& j.peer_addr@ == final(a).book.peers@[i].addr@
                &&& j.peer_name@ == final(a).book.peers@[i].name@
                &&& final(a).local_sync.map@.contains_key(j.peer_addr@)
                &&& j.folder@ == final(a).local_sync.map@[j.peer_addr@]@
            },
{
    lemma_chosen(final(a).book, i);
    let d = final(a).book.peers@[i]@;
    assert(final(a).book@.selected == old(a).book@.selected);
    assert(old(a).book.selected is Some);
    let mid = choose|mid: Side| #[trigger]
        old(a).local_sync@.may_become(mid, final(a).book@.chosen(), *present) && r == (old(a).settings.license.plan is Pro && mid.jobs.len() > 0 && !mid.active) && final(a).local_sync@ == (Side { active: mid.active || r, ..mid });
    let answer = choose|answer: bool| #[trigger]
        old(a).local_sync@.may_find(Some(d), *present, answer) && mid == old(a).local_sync@.rebuilt(Some(d), answer);
    assert(old(a).local_sync@.may_become(mid, Some(d), *present));
    assert(mid == old(a).local_sync@.rebuilt(Some(d), answer));
    let m = texts_under(final(a).local_sync.map@);
    assert forall|k: int| 0 <= k < final(a).local_sync.jobs@.len() implies {
        let j = #[trigger] final(a).local_sync.jobs@[k];
        &&& j.peer_addr@ == final(a).book.peers@[i].addr@
        &&& j.peer_name@ == final(a).book.peers@[i].name@
        &&& final(a).local_sync.map@.contains_key(j.peer_addr@)
        &&& j.folder@ == final(a).local_sync.map@[j.peer_addr@]@
    } by {
        let j = final(a).local_sync.jobs@[k];
        assert(final(a).local_sync@.jobs[k] == j@);
        assert(mid.jobs[k] == j@);
        assert(m.contains_key(d.addr));
        assert(m[d.addr] == final(a).local_sync.map@[d.addr]@);
    }
}

} // verus!
