use rfshare::paths::{
    extension_of, joined, last_part, name_of, numbered, plain_name_of, same_path, separator_of,
    unique_path, Style,
};
use rfshare::text::string_of;
use std::path::Path;

const SAMPLES: [&str; 21] = [
    "", "a", "a.txt", ".hidden", "a.tar.gz", "/", "/a/b.c", "a/", "a/.", "a/..", "..", "a//b", "./x",
    "a.", "x/.y.z", ".", "/.", "C:\\d\\a.txt", "\\\\?\\x", "//a/b", "a\\b/c",
];

#[test]
fn names_are_those_of_std() {
    for s in SAMPLES {
        let own = name_of(s, Style::Unix).map(|v| string_of(&v));
        let std = Path::new(s).file_name().map(|n| n.to_str().unwrap().to_string());
        assert_eq!(own, std, "{:?}", s);
        assert_eq!(last_part(s, Style::Unix), std.unwrap_or_default());
    }
}

#[test]
fn extensions_are_those_of_std() {
    for s in SAMPLES {
        let std = Path::new(s).extension().map(|n| n.to_str().unwrap().to_string());
        assert_eq!(extension_of(s, Style::Unix), std, "{:?}", s);
    }
}

#[test]
fn joining_is_that_of_std() {
    for d in ["", "/", "/d", "/d/", "rel", "C:", "d\\"] {
        for n in ["x", "a.txt", ".rc", "a b", "/abs", "", "a/b", "/", "../x"] {
            let std = Path::new(d).join(n);
            assert_eq!(joined(d, n, Style::Unix), std.to_str().unwrap());
        }
    }
}

#[test]
fn paths_are_compared_as_std_compares_them() {
    for a in SAMPLES {
        for b in SAMPLES {
            let same = Path::new(a) == Path::new(b);
            assert_eq!(same_path(a, b, Style::Unix), same, "{:?} {:?}", a, b);
        }
    }
    assert!(same_path("/a//b/./c/", "/a/b/c", Style::Unix));
    assert!(!same_path("./a", "a", Style::Unix));
}

#[test]
fn names_of_windows() {
    for (path, name) in [
        ("C:\\d\\a.txt", Some("a.txt")),
        ("C:/d/a.txt", Some("a.txt")),
        ("c:\\d\\sub\\", Some("sub")),
        ("C:a.txt", Some("a.txt")),
        ("C:", None),
        ("C:\\", None),
        ("C:\\d\\..", None),
        ("C:\\d\\.", Some("d")),
        ("a\\b/c", Some("c")),
        ("\\\\server\\share", None),
        ("\\\\server\\share\\", None),
        ("\\\\server\\share\\d\\f", Some("f")),
        ("//server/share/f", Some("f")),
        ("\\\\server", Some("server")),
        ("\\\\.\\COM42", None),
        ("\\\\.\\dev\\f", Some("f")),
        ("\\\\?\\C:\\d\\f", Some("f")),
        ("\\\\?\\C:", None),
        ("\\\\?\\UNC\\server\\share", None),
        ("\\\\?\\UNC\\server\\share\\f", Some("f")),
        ("\\\\?\\pictures", None),
        ("\\\\?\\pictures\\cat", Some("cat")),
        ("\\\\?\\C:\\d\\.", None),
        ("\\\\?\\C:\\d\\a/b", Some("a/b")),
        ("", None),
    ] {
        let own = name_of(path, Style::Windows).map(|v| string_of(&v));
        assert_eq!(own.as_deref(), name, "{:?}", path);
    }
    assert_eq!(extension_of("C:\\a.b\\c", Style::Windows), None);
    assert_eq!(extension_of("C:\\a.b\\c.d", Style::Windows), Some("d".to_string()));
}

#[test]
fn joining_on_windows() {
    assert_eq!(separator_of(Style::Windows), '\\');
    assert_eq!(separator_of(Style::Unix), '/');
    for (dir, path) in [
        ("C:\\d", "C:\\d\\x"),
        ("C:\\d\\", "C:\\d\\x"),
        ("C:/d/", "C:/d/x"),
        ("C:", "C:x"),
        ("C:\\", "C:\\x"),
        ("", "x"),
        ("\\\\?\\C:\\d", "\\\\?\\C:\\d\\x"),
        ("\\\\server\\share", "\\\\server\\share\\x"),
    ] {
        assert_eq!(joined(dir, "x", Style::Windows), path);
    }
    for (dir, name, path) in [
        ("C:\\d", "D:\\x", "D:\\x"),
        ("C:\\d", "D:x", "D:x"),
        ("C:\\d", "\\x", "C:\\x"),
        ("C:/d", "/x", "C:/x"),
        ("d", "\\x", "\\x"),
        ("\\\\server\\share\\d", "\\x", "\\\\server\\share\\x"),
        ("C:\\d", "\\\\server\\share\\x", "\\\\server\\share\\x"),
    ] {
        assert_eq!(joined(dir, name, Style::Windows), path);
    }
}

#[test]
fn paths_of_windows_are_compared() {
    for (a, b, same) in [
        ("C:\\a\\b", "C:/a//b/", true),
        ("c:\\a", "C:\\a", true),
        ("C:\\a", "C:\\A", false),
        ("C:a", "C:\\a", false),
        ("C:\\a", "D:\\a", false),
        ("C:\\.\\a", "C:\\a", true),
        ("C:.\\a", "C:a", true),
        (".\\a", "a", false),
        ("\\\\server\\share", "//server/share/", true),
        ("\\\\?\\c:\\a", "\\\\?\\C:\\a", true),
        ("\\\\?\\C:\\a", "C:\\a", false),
        ("\\\\?\\C:", "\\\\?\\C:\\", false),
        ("\\\\?\\C:\\a\\.", "\\\\?\\C:\\a", false),
        ("//?/C:/a", "\\\\?\\C:\\a", false),
    ] {
        assert_eq!(same_path(a, b, Style::Windows), same, "{:?} {:?}", a, b);
        assert_eq!(same_path(b, a, Style::Windows), same, "{:?} {:?}", b, a);
    }
}

#[test]
fn plain_names_stay_in_their_directory() {
    for (path, unix, windows) in [
        ("a.txt", Some("a.txt"), Some("a.txt")),
        ("/x", Some("x"), Some("x")),
        ("../x", Some("x"), Some("x")),
        ("a/../x", Some("x"), Some("x")),
        ("..", None, None),
        ("a/..", None, None),
        ("/", None, None),
        ("", None, None),
        (".", None, None),
        ("..\\x", Some("..\\x"), Some("x")),
        ("C:\\x", Some("C:\\x"), Some("x")),
        ("d\\C:x", Some("d\\C:x"), None),
        ("\\\\?\\d\\../x", Some("x"), None),
    ] {
        assert_eq!(plain_name_of(path, Style::Unix).as_deref(), unix, "{:?}", path);
        assert_eq!(plain_name_of(path, Style::Windows).as_deref(), windows, "{:?}", path);
    }
}

#[test]
fn names_are_numbered() {
    assert_eq!(numbered("a.txt", 1, Style::Unix), "a (1).txt");
    assert_eq!(numbered("a.tar.gz", 12, Style::Unix), "a.tar (12).gz");
    assert_eq!(numbered(".rc", 2, Style::Unix), ".rc (2)");
    assert_eq!(numbered("plain", 3, Style::Windows), "plain (3)");
}

#[test]
fn the_first_free_name_is_taken() {
    let style = Style::Unix;
    assert_eq!(unique_path("/d", "a.txt", style, |_: &str| false), "/d/a.txt");
    assert_eq!(unique_path("/d", "a.txt", style, |p: &str| p == "/d/a.txt"), "/d/a (1).txt");
    let there = ["/d/a.txt", "/d/a (1).txt", "/d/a (2).txt", "/d/a (4).txt"];
    assert_eq!(unique_path("/d", "a.txt", style, |p: &str| there.contains(&p)), "/d/a (3).txt");
    assert_eq!(unique_path("d", "/x", style, |_: &str| false), "/x");
    let there = |p: &str| p == "C:\\d\\a.txt";
    assert_eq!(unique_path("C:\\d", "a.txt", Style::Windows, there), "C:\\d\\a (1).txt");
}
