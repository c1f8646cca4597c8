//! What the user has set.
use vstd::prelude::*;

use crate::license;
use crate::license::{License, Plan};
use crate::link::notice;
use crate::text;

verus! {

/// What the user has set, and what stands in the fields of the licence panel.
pub struct Settings {
    pub license: License,
    pub license_key_buf: String,
    pub license_email_buf: String,
    pub license_msg: Option<(String, bool)>,
    pub auto_detect_theme: bool,
    pub dark_mode: bool,
    /// Where received files are saved.
    pub save_dir: String,
    pub notify_on_receive: bool,
    pub auto_open_folder: bool,
    pub minimize_to_tray: bool,
}

/// Whether the dark theme is shown at the start: that of the system where it is followed, else the
/// one that was chosen, and the dark one where none was.
pub fn initial_dark_mode(auto_detect: bool, system_dark: bool, chosen: Option<bool>) -> (r: bool)
    ensures
        r == (if auto_detect {
            system_dark
        } else {
            match chosen {
                Some(dark) => dark,
                None => true,
            }
        }),
{
    if auto_detect {
        system_dark
    } else {
        match chosen {
            Some(dark) => dark,
            None => true,
        }
    }
}

/// Where received files are saved where nothing is set: with the downloads, else at home, else here.
pub open spec fn default_dir_text(download: Option<Seq<char>>, home: Option<Seq<char>>) -> Seq<
    char,
> {
    match download {
        Some(d) => d,
        None => match home {
            Some(h) => h,
            None => "."@,
        },
    }
}

/// Where received files are saved where nothing is set.
pub fn default_save_dir(download: Option<String>, home: Option<String>) -> (r: String)
    ensures
        r@ == default_dir_text(
            crate::history::text_in(download),
            crate::history::text_in(home),
        ),
{
    match download {
        Some(d) => d,
        None => match home {
            Some(h) => h,
            None => ".".to_string(),
        },
    }
}

impl Settings {
    pub fn is_pro(&self) -> (r: bool)
        ensures
            r == (self.license.plan is Pro),
    {
        self.license.is_pro()
    }

    /// Whether the fields of the licence panel are filled in far enough to be tried.
    pub fn can_activate(&self) -> (r: bool)
        ensures
            r == (self.license_email_buf@.len() > 0 && vstd::utf8::encode_utf8(
                self.license_key_buf@,
            ).len() >= 29),
    {
        proof {
            reveal_strlit("");
            assert(self.license_email_buf@.len() == 0 ==> self.license_email_buf@ =~= ""@);
        }
        !text::same_text(self.license_email_buf.as_str(), "")
            && self.license_key_buf.as_str().as_bytes().len() >= 29
    }

    /// Tries the key that was entered; whether the licence is to be saved.
    pub fn activate(&mut self) -> (r: bool)
        ensures
            r == license::is_valid_key(old(self).license_key_buf@),
            if r {
                &&& final(self).license.plan is Pro
                &&& final(self).license.email@ == old(self).license_email_buf@
                &&& final(self).license.key@ == old(self).license_key_buf@
                &&& final(self).license_key_buf@ == ""@
                &&& notice(final(self).license_msg) == Some(
                    ("Pro activated! Enjoy rfshare Pro."@, false),
                )
            } else {
                &&& final(self).license == old(self).license
                &&& final(self).license_key_buf == old(self).license_key_buf
                &&& notice(final(self).license_msg) == Some(
                    ("Invalid license key. Check and try again."@, true),
                )
            },
            *final(self) == (Settings {
                license: final(self).license,
                license_key_buf: final(self).license_key_buf,
                license_msg: final(self).license_msg,
                ..*old(self)
            }),
    {
        let valid: bool = License::validate_key(self.license_key_buf.as_str());
        if valid {
            self.license = License {
                plan: Plan::Pro,
                email: self.license_email_buf.clone(),
                key: self.license_key_buf.clone(),
            };
            self.license_msg = Some(("Pro activated! Enjoy rfshare Pro.".to_string(), false));
            self.license_key_buf = "".to_string();
        } else {
            self.license_msg = Some(
                ("Invalid license key. Check and try again.".to_string(), true),
            );
        }
        valid
    }

    /// Gives the licence up.
    pub fn deactivate(&mut self)
        ensures
            final(self).license.plan is Free,
            final(self).license.email@ == ""@,
            final(self).license.key@ == ""@,
            notice(final(self).license_msg) == Some(("License deactivated."@, false)),
            *final(self) == (Settings {
                license: final(self).license,
                license_msg: final(self).license_msg,
                ..*old(self)
            }),
    {
        self.license = License::free();
        self.license_msg = Some(("License deactivated.".to_string(), false));
    }

    /// Turns following the system's theme on or off; once on, the theme is that of the system.
    pub fn toggle_auto_detect(&mut self, system_dark: bool)
        ensures
            *final(self) == (Settings {
                auto_detect_theme: !old(self).auto_detect_theme,
                dark_mode: if old(self).auto_detect_theme {
                    old(self).dark_mode
                } else {
                    system_dark
                },
                ..*old(self)
            }),
    {
        self.auto_detect_theme = !self.auto_detect_theme;
        if self.auto_detect_theme {
            self.dark_mode = system_dark;
        }
    }
}

// ---- what the calls give ----

/// A licence comes with a valid key, for the address and the key that were entered, and with no
/// other; a key that is not valid leaves the licence and the fields as they are.
pub proof fn valid_keys_make_licences(s: &mut Settings, key: &str, valid: bool, r: bool)
    requires
        key@ == old(s).license_key_buf@,
        call_ensures(License::validate_key, (key,), valid),
        call_ensures(Settings::activate, (s,), r),
    ensures
        r == valid,
        valid ==> final(s).license.plan is Pro && final(s).license.email@
            == old(s).license_email_buf@ && final(s).license.key@ == old(s).license_key_buf@
            && final(s).license_key_buf@.len() == 0,
        !valid ==> final(s).license == old(s).license && final(s).license_key_buf
            == old(s).license_key_buf,
        final(s).license_msg is Some,
        final(s).license_email_buf == old(s).license_email_buf,
        final(s).save_dir == old(s).save_dir,
        final(s).notify_on_receive == old(s).notify_on_receive,
        final(s).auto_open_folder == old(s).auto_open_folder,
        final(s).minimize_to_tray == old(s).minimize_to_tray,
        final(s).dark_mode == old(s).dark_mode,
{
    reveal_strlit("");
}

/// A licence that is given up is gone, and with it what takes one; the settings stay.
pub proof fn licences_are_given_up(s: &mut Settings, after: &Settings, pro: bool)
    requires
        call_ensures(Settings::deactivate, (s,), ()),
        *after == *final(s),
        call_ensures(Settings::is_pro, (after,), pro),
    ensures
        !pro,
        final(s).license.key@.len() == 0,
        final(s).license.email@.len() == 0,
        final(s).save_dir == old(s).save_dir,
        final(s).notify_on_receive == old(s).notify_on_receive,
        final(s).dark_mode == old(s).dark_mode,
{
    reveal_strlit("");
}

/// Following the system's theme is turned on and off in turn. Turned on, the theme is the system's;
/// turned off, it stays.
pub proof fn themes_follow_the_system(s: &mut Settings, system_dark: bool)
    requires
        call_ensures(Settings::toggle_auto_detect, (s, system_dark), ()),
    ensures
        final(s).auto_detect_theme != old(s).auto_detect_theme,
        final(s).auto_detect_theme ==> final(s).dark_mode == system_dark,
        old(s).auto_detect_theme ==> final(s).dark_mode == old(s).dark_mode,
        final(s).license == old(s).license,
        final(s).save_dir == old(s).save_dir,
{
}

/// At the start the theme is the system's where it is followed, else the chosen one, else dark.
pub proof fn themes_at_the_start(auto: bool, system: bool, chosen: Option<bool>, r: bool)
    requires
        call_ensures(initial_dark_mode, (auto, system, chosen), r),
    ensures
        auto ==> r == system,
        !auto && chosen is Some ==> r == chosen->0,
        !auto && chosen is None ==> r,
{
}

/// Files go with the downloads where there is such a place, else home.
pub proof fn files_go_with_the_downloads(
    download: Option<String>,
    home: Option<String>,
    r: String,
)
    requires
        call_ensures(default_save_dir, (download, home), r),
    ensures
        download matches Some(d) ==> r@ == d@,
        download is None && home is Some ==> r@ == home->0@,
        download is None && home is None ==> r@ == "."@,
{
}

/// A key can be tried where an address is entered and the key is long enough.
pub proof fn filled_fields_can_be_tried(s: &Settings, r: bool)
    requires
        call_ensures(Settings::can_activate, (s,), r),
    ensures
        r <==> s.license_email_buf@.len() > 0 && vstd::utf8::encode_utf8(s.license_key_buf@).len()
            >= 29,
{
}

} // verus!
