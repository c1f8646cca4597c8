use rfshare::paths::Style;
use rfshare::prefs::{load_prefs, prefs_path, save_prefs, SavedPrefs};

fn sample() -> SavedPrefs {
    let mut p = SavedPrefs::default();
    p.peer_name = "desk".to_string();
    p.peer_addr = "192.168.1.7".to_string();
    p.sync_map.insert("192.168.1.7".to_string(), "/home/u/sync".to_string());
    p.save_dir = Some("/home/u/Downloads".to_string());
    p.notify_on_receive = true;
    p.manual_peers.push(("office".to_string(), "10.0.0.2".to_string()));
    p.manual_peers.push(("lab".to_string(), "10.0.0.3".to_string()));
    p.auto_detect_theme = true;
    p.dark_mode = Some(false);
    p
}

#[test]
fn the_file_of_the_preferences() {
    assert_eq!(
        save_prefs(&sample()),
        "selected_peer_name=desk\n\
         selected_peer_addr=192.168.1.7\n\
         sync_device_192_168_1_7=/home/u/sync\n\
         manual_peer_0_name=office\n\
         manual_peer_0_addr=10.0.0.2\n\
         manual_peer_1_name=lab\n\
         manual_peer_1_addr=10.0.0.3\n\
         save_dir=/home/u/Downloads\n\
         notify_on_receive=1\n\
         auto_open_folder=0\n\
         auto_detect_theme=1\n\
         dark_mode=0\n"
    );
}

#[test]
fn preferences_are_loaded_as_they_were_saved() {
    let file = save_prefs(&sample());
    let p = load_prefs(Some(&file));
    assert_eq!(p.peer_name, "desk");
    assert_eq!(p.peer_addr, "192.168.1.7");
    assert_eq!(p.sync_map.get("192.168.1.7").unwrap(), "/home/u/sync");
    assert_eq!(p.sync_map.entries.len(), 1);
    assert_eq!(p.save_dir.as_deref(), Some("/home/u/Downloads"));
    assert!(p.notify_on_receive);
    assert!(!p.auto_open_folder);
    assert_eq!(p.manual_peers, sample().manual_peers);
    assert!(p.auto_detect_theme);
    assert_eq!(p.dark_mode, Some(false));
    assert_eq!(save_prefs(&p), file);
}

#[test]
fn no_file_means_no_preferences() {
    let p = load_prefs(None);
    assert_eq!(p.peer_name, "");
    assert!(p.sync_map.entries.is_empty());
    assert!(p.save_dir.is_none());
    assert!(p.manual_peers.is_empty());
    assert_eq!(p.dark_mode, None);
    let d = SavedPrefs::default();
    assert_eq!(save_prefs(&d), save_prefs(&p));
}

#[test]
fn odd_lines_are_passed_over() {
    let p = load_prefs(Some(
        "something\nsync_device_1_2=\nsync_device_x\nmanual_peer_zz_name=a\nmanual_peer_1_name=late\n\
         manual_peer_1_addr=1.1.1.1\nnotify_on_receive=yes\nselected_peer_name=a\nselected_peer_name=b\n",
    ));
    assert_eq!(p.peer_name, "b");
    assert_eq!(p.sync_map.get("1.2").unwrap(), "");
    assert_eq!(p.sync_map.entries.len(), 1);
    assert!(p.manual_peers.is_empty());
    assert!(!p.notify_on_receive);
}

#[test]
fn addresses_with_colons_come_back() {
    let mut p = SavedPrefs::default();
    for addr in ["fe80::1", "::ffff:10.0.0.1", "10.0.0.1"] {
        p.sync_map.insert(addr.to_string(), format!("/s/{}", addr));
    }
    let file = save_prefs(&p);
    assert!(file.contains("sync_device_fe80::1=/s/fe80::1\n"));
    assert!(file.contains("sync_device_::ffff:10_0_0_1=/s/::ffff:10.0.0.1\n"));
    let r = load_prefs(Some(&file));
    assert_eq!(r.sync_map.entries.len(), 3);
    for addr in ["fe80::1", "::ffff:10.0.0.1", "10.0.0.1"] {
        assert_eq!(r.sync_map.get(addr).unwrap(), &format!("/s/{}", addr));
    }
}

#[test]
fn where_the_preferences_are_kept() {
    assert_eq!(prefs_path(Some("/c/"), Style::Unix).unwrap(), "/c/rfshare/prefs.json");
    assert!(prefs_path(None, Style::Unix).is_none());
}
