use rfshare::paths::Style;
use rfshare::utils::{
    desktop_theme_is_dark, file_icon, format_size, gen_session_code, hides_tray_icons,
    hostname_from, icon_for_extension, interface_style_is_dark, is_dark_style, is_dark_theme_name,
    is_gnome, session_code_from, truncatable, truncate_filename,
};

#[test]
fn long_names_are_shortened() {
    assert_eq!(truncate_filename("short.txt", 32), "short.txt");
    assert_eq!(truncate_filename("abcdefghij.txt", 5), "abcde….txt");
    assert_eq!(truncate_filename("abc", 2), "ab…abc");
    assert!(truncatable("abc", 2));
    assert!(!truncatable("aéb", 2));
    assert!(truncatable("aéb", 3));
    assert!(!truncatable("xxxxxé123", 3));
}

#[test]
fn a_size_is_formatted() {
    assert_eq!(format_size(2048), "2.0 KB");
}

#[test]
fn icons_by_extension() {
    assert_eq!(file_icon("report.PDF", Style::Unix), "📕");
    assert_eq!(file_icon("a.jpeg", Style::Unix), egui_material_icons::icons::ICON_IMAGE);
    assert_eq!(file_icon("a.mp3", Style::Unix), "🎵");
    assert_eq!(file_icon("a.mkv", Style::Unix), "🎬");
    assert_eq!(file_icon("a.tar.gz", Style::Unix), "📦");
    assert_eq!(file_icon("main.rs", Style::Unix), "📄");
    assert_eq!(file_icon("a.docx", Style::Unix), "📝");
    assert_eq!(file_icon("a.csv", Style::Unix), "📊");
    assert_eq!(file_icon("a.pptx", Style::Unix), "📽️");
    assert_eq!(file_icon("README", Style::Unix), "📁");
    assert_eq!(file_icon(".png", Style::Unix), "📁");
    assert_eq!(icon_for_extension("PNG"), "📁");
}

fn wrapping_code(seed: u32) -> String {
    let chars: Vec<char> = "ABCDEFGHJKLMNPQRSTUVWXYZ23456789".chars().collect();
    let mut n = seed as u64;
    let mut code = String::new();
    for i in 0..8 {
        if i == 4 {
            code.push('-');
        }
        n = n.wrapping_mul(6364136223846793005).wrapping_add(1442695040888963407);
        code.push(chars[((n >> 33) as usize) % chars.len()]);
    }
    code
}

#[test]
fn session_codes_come_from_their_seed() {
    for seed in [0u32, 1, 999_999_999, 123_456_789, u32::MAX] {
        assert_eq!(session_code_from(seed), wrapping_code(seed));
    }
}

#[test]
fn session_codes_have_nine_characters() {
    for _ in 0..20 {
        let c = gen_session_code();
        assert_eq!(c.len(), 9);
        assert_eq!(c.as_bytes()[4], b'-');
        assert!(c.replace('-', "").chars().all(|x| "ABCDEFGHJKLMNPQRSTUVWXYZ23456789".contains(x)));
    }
}

#[test]
fn the_name_of_the_machine() {
    assert_eq!(hostname_from(Some(b"desk\n".to_vec())), "desk");
    assert_eq!(hostname_from(None), "this-device");
    assert_eq!(hostname_from(Some(vec![0xc3])), "this-device");
}

#[test]
fn dark_themes() {
    assert!(desktop_theme_is_dark(b"'Adwaita-Dark'\n"));
    assert!(!desktop_theme_is_dark(b"'Adwaita'\n"));
    assert!(is_dark_theme_name("yaru-dark"));
    assert!(!is_dark_theme_name("Yaru-Dark"));
    assert!(interface_style_is_dark(b" Dark\n"));
    assert!(!interface_style_is_dark(b"Darker"));
    assert!(is_dark_style("Dark"));
}

#[test]
fn desktops_that_hide_tray_icons() {
    assert!(is_gnome("UBUNTU:GNOME"));
    assert!(!is_gnome("ubuntu:gnome"));
    assert!(hides_tray_icons("ubuntu:GNOME"));
    assert!(!hides_tray_icons("KDE"));
}
