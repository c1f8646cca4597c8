use rfshare::license::{check_matches, key_parts, License, Plan};
use rfshare::paths::Style;
use rfshare::settings::Settings;

const KEY: &str = "29714-5B90A-54A40-254F4-B7B1C";

fn settings(email: &str, key: &str) -> Settings {
    Settings {
        license: License::free(),
        license_key_buf: key.to_string(),
        license_email_buf: email.to_string(),
        license_msg: None,
        auto_detect_theme: false,
        dark_mode: true,
        save_dir: "/d".to_string(),
        notify_on_receive: false,
        auto_open_folder: false,
        minimize_to_tray: true,
    }
}

#[test]
fn a_licence_key_is_valid() {
    assert!(License::validate_key(KEY));
    assert!(License::validate_key("29714-5B90A-54A40-254F4-b7b1c"));
}

#[test]
fn other_keys_are_not_valid() {
    for key in [
        "",
        "29714-5B90A-54A40-254F4-B7B1D",
        "29714-5B90A-54A40-254F5-B7B1C",
        "29714-5B90A-54A40-B7B1C",
        "29714-5B90A-54A40-254F4-B7B1C-00000",
        "29714-5B90A-54A40-254F-B7B1C",
    ] {
        assert!(!License::validate_key(key), "{}", key);
    }
}

#[test]
fn parts_of_a_key() {
    assert_eq!(
        key_parts(KEY),
        Some(("29714-5B90A-54A40-254F4".to_string(), "B7B1C".to_string()))
    );
    assert_eq!(key_parts("a-b"), None);
    let mut digest = [0u8; 32];
    digest[0] = 0xab;
    digest[1] = 0x0c;
    digest[2] = 0xd5;
    assert!(check_matches("AB0CD", &digest));
    assert!(!check_matches("AB0CE", &digest));
}

#[test]
fn a_licence_is_loaded_as_it_was_saved() {
    let l = License { plan: Plan::Pro, email: "me@example.org".to_string(), key: KEY.to_string() };
    let file = l.save();
    assert_eq!(file, "email=me@example.org\nkey=29714-5B90A-54A40-254F4-B7B1C\n");
    let r = License::load(Some(&file));
    assert_eq!(r.plan, Plan::Pro);
    assert!(r.is_pro());
    assert_eq!(r.email, "me@example.org");
    assert_eq!(r.key, KEY);
}

#[test]
fn without_a_valid_key_the_plan_is_free() {
    for file in [None, Some(""), Some("email=x\nkey=no\n")] {
        let r = License::load(file);
        assert_eq!(r.plan, Plan::Free);
        assert!(!r.is_pro());
        assert_eq!(r.email, "");
        assert_eq!(r.key, "");
    }
    let r = License::load(Some("key= 29714-5B90A-54A40-254F4-B7B1C \nemail= a \nemail=b"));
    assert!(r.is_pro());
    assert_eq!(r.email, "b");
    assert_eq!(r.key, KEY);
}

#[test]
fn where_the_licence_is_kept() {
    assert_eq!(License::config_path(Some("/c"), Style::Unix).unwrap(), "/c/rfshare/license");
    assert!(License::config_path(None, Style::Unix).is_none());
}

#[test]
fn a_licence_is_activated_and_given_back() {
    let mut s = settings("me@example.org", KEY);
    assert!(s.can_activate());
    assert!(s.activate());
    assert!(s.is_pro());
    assert_eq!(s.license.email, "me@example.org");
    assert_eq!(s.license_key_buf, "");
    assert_eq!(s.license_msg, Some(("Pro activated! Enjoy rfshare Pro.".to_string(), false)));
    s.deactivate();
    assert!(!s.is_pro());
    assert_eq!(s.license_msg, Some(("License deactivated.".to_string(), false)));
}

#[test]
fn a_wrong_key_is_refused() {
    let mut s = settings("me@example.org", "29714-5B90A-54A40-254F4-B7B1D");
    assert!(s.can_activate());
    assert!(!s.activate());
    assert!(!s.is_pro());
    assert_eq!(
        s.license_msg,
        Some(("Invalid license key. Check and try again.".to_string(), true))
    );
    assert!(!settings("", KEY).can_activate());
    assert!(!settings("me", "short").can_activate());
}

#[test]
fn one_check_group_belongs_to_a_body() {
    let body = "29714-5B90A-54A40-254F4";
    for (check, valid) in [("B7B1C", true), ("b7b1c", true), ("B7b1C", true), ("B7B1F", false)] {
        assert_eq!(License::validate_key(&format!("{}-{}", body, check)), valid);
    }
    assert!(!License::validate_key("29714-5B90A-54A40-\u{df}\u{df}\u{df}-B7B1C"));
}

#[test]
fn only_ascii_makes_a_check_group() {
    for c in '\u{80}'..=char::MAX {
        let upper: Vec<char> = c.to_uppercase().collect();
        let digits = upper.iter().all(|u| matches!(u, '0'..='9' | 'A'..='F'));
        assert!(!digits || upper.len() < c.len_utf8(), "{:?}", c);
    }
    for check in ["\u{fb00}AB", "\u{df}ABC", "B7B\u{131}"] {
        assert_eq!(check.len(), 5);
        assert!(!License::validate_key(&format!("29714-5B90A-54A40-254F4-{}", check)));
    }
}
