use rfshare::app::sent_entry;
use rfshare::history::{
    append_history, delete_from_history, history_path, load_history, parse_entry, save_error,
    save_all_history, HistoryEntry, HistoryError, TransferDir, TransferType,
};
use rfshare::paths::Style;
use rfshare::queue::Outgoing;
use rfshare::text::chars_of;

fn entry(timestamp: u64, name: &str) -> HistoryEntry {
    HistoryEntry {
        timestamp,
        direction: TransferDir::Received,
        file_name: name.to_string(),
        file_size: 12,
        peer_name: "desk".to_string(),
        success: true,
        error: None,
        transfer_type: TransferType::Remote,
        file_path: Some("/d/a.txt".to_string()),
    }
}

const HEADER: &str = "timestamp,direction,type,name,size,peer,success,error,file_path\n";

#[test]
fn where_the_history_is_kept() {
    assert_eq!(history_path(Some("/home/u/.config"), Style::Unix).unwrap(), "/home/u/.config/rfshare/history.csv");
    assert!(history_path(None, Style::Unix).is_none());
}

#[test]
fn lines_of_the_history() {
    assert_eq!(entry(5, "a.txt").to_csv_line(), "5,received,remote,a.txt,12,desk,1,,/d/a.txt\n");
    let mut e = entry(7, "b");
    e.direction = TransferDir::Sent;
    e.transfer_type = TransferType::Local;
    e.success = false;
    e.error = Some("no, not there".to_string());
    e.file_path = Some("/a,b".to_string());
    assert_eq!(e.to_csv_line(), "7,sent,local,b,12,desk,0,no; not there,/a;b\n");
}

#[test]
fn entries_are_read_as_they_were_written() {
    let e = entry(5, "a.txt");
    let r = parse_entry(&chars_of(e.to_csv_line().trim_end())).unwrap();
    assert!(r.same(&e, Style::Unix));
    let mut other = entry(5, "a.txt");
    other.file_size = 13;
    assert!(!r.same(&other, Style::Unix));
}

#[test]
fn lines_of_the_old_format_are_read() {
    let h = load_history("h\n5,sent,a.txt,7,pc,1,\n6,received,b,8,pc,0,broken\n");
    assert_eq!(h.len(), 2);
    let (b, a) = (&h[0], &h[1]);
    assert_eq!((a.timestamp, a.direction, a.file_name.as_str()), (5, TransferDir::Sent, "a.txt"));
    assert_eq!((a.file_size, a.peer_name.as_str(), a.success), (7, "pc", true));
    assert_eq!(a.transfer_type, TransferType::Local);
    assert!(a.error.is_none() && a.file_path.is_none());
    assert_eq!((b.timestamp, b.direction, b.success), (6, TransferDir::Received, false));
    assert_eq!(b.error.as_deref(), Some("broken"));
}

#[test]
fn lines_with_few_columns_are_left_out() {
    assert!(parse_entry(&chars_of("1,sent,a,1,p,1")).is_none());
    assert!(parse_entry(&chars_of("")).is_none());
    let e = parse_entry(&chars_of("x,sent,?,a,y,p,2,")).unwrap();
    assert_eq!(e.timestamp, 0);
    assert_eq!(e.direction, TransferDir::Sent);
    assert_eq!(e.transfer_type, TransferType::Local);
    assert_eq!(e.file_size, 0);
    assert!(!e.success);
    assert!(e.error.is_none());
    assert!(e.file_path.is_none());
    let e = parse_entry(&chars_of("1,received,remote,a,1,p,1,bad,/p,q")).unwrap();
    assert_eq!(e.error.unwrap(), "bad");
    assert_eq!(e.file_path.unwrap(), "/p,q");
}

#[test]
fn the_history_is_latest_first() {
    let file = format!(
        "{}{}{}broken\n{}",
        HEADER,
        entry(5, "a").to_csv_line(),
        entry(9, "b").to_csv_line(),
        entry(5, "c").to_csv_line()
    );
    let h = load_history(&file);
    let names: Vec<&str> = h.iter().map(|e| e.file_name.as_str()).collect();
    assert_eq!(names, ["b", "a", "c"]);
    assert!(load_history("").is_empty());
    assert!(load_history(HEADER).is_empty());
}

#[test]
fn a_sorted_history_is_loaded_as_it_was_saved() {
    let list = vec![entry(9, "b"), entry(5, "a"), entry(5, "c")];
    let file = save_all_history(&list);
    assert!(file.starts_with(HEADER));
    let h = load_history(&file);
    assert_eq!(h.len(), 3);
    for i in 0..3 {
        assert!(h[i].same(&list[i], Style::Unix));
    }
}

#[test]
fn appending_extends_the_file_by_a_line() {
    let first = append_history(&entry(5, "a"), false);
    assert_eq!(first, save_all_history(&vec![entry(5, "a")]));
    let second = append_history(&entry(6, "b"), true);
    assert_eq!(second, entry(6, "b").to_csv_line());
    assert_eq!(first + &second, save_all_history(&vec![entry(5, "a"), entry(6, "b")]));
}

#[test]
fn deleting_takes_out_an_entry() {
    let list = vec![entry(9, "b"), entry(5, "a")];
    let left = delete_from_history(&list, &entry(9, "b"), Style::Unix).unwrap();
    assert_eq!(left.len(), 1);
    assert_eq!(left[0].file_name, "a");
    let left = delete_from_history(&list, &entry(1, "z"), Style::Unix).unwrap();
    assert_eq!(left.len(), 2);
    let e = delete_from_history(&Vec::new(), &entry(1, "z"), Style::Unix).unwrap_err();
    assert_eq!(e, HistoryError::AlreadyEmpty);
}

#[test]
fn ages_for_display() {
    let e = entry(1_000_000, "a");
    assert_eq!(e.time_display_at(999_999), "just now");
    assert_eq!(e.time_display_at(1_000_059), "just now");
    assert_eq!(e.time_display_at(1_000_060), "1 min ago");
    assert_eq!(e.time_display_at(1_003_599), "59 min ago");
    assert_eq!(e.time_display_at(1_003_600), "1 hr ago");
    assert_eq!(e.time_display_at(1_086_400), "1 days ago");
    assert_eq!(e.time_display_at(1_604_800), "1 wks ago");
    assert_eq!(entry(0, "a").time_display().ends_with(" wks ago"), true);
}

#[test]
fn files_may_be_gone() {
    let e = entry(1, "a");
    assert!(e.file_exists(|p: &str| p == "/d/a.txt"));
    assert!(!e.file_exists(|_: &str| false));
    let mut bare = entry(1, "a");
    bare.file_path = None;
    assert!(!bare.file_exists(|_: &str| true));
}

#[test]
fn copies_are_the_same() {
    let e = entry(4, "x");
    assert!(e.clone().same(&e, Style::Unix));
}

#[test]
fn entries_for_sent_files() {
    let f = Outgoing { index: 2, path: "/p/x".to_string(), name: "x".to_string(), size: 9 };
    let ok = sent_entry(50, &f, "desk", None);
    assert!(ok.success);
    assert_eq!(ok.to_csv_line(), "50,sent,local,x,9,desk,1,,/p/x\n");
    let bad = sent_entry(50, &f, "desk", Some("gone".to_string()));
    assert_eq!(bad.to_csv_line(), "50,sent,local,x,9,desk,0,gone,/p/x\n");
}

#[test]
fn paths_in_entries_are_compared_as_paths() {
    let e = entry(4, "x");
    let mut other = entry(4, "x");
    other.file_path = Some("/d//a.txt".to_string());
    assert!(e.same(&other, Style::Unix));
    assert_eq!(delete_from_history(&vec![e], &other, Style::Unix).unwrap().len(), 0);
    other.file_path = None;
    assert!(!entry(4, "x").same(&other, Style::Unix));
}

#[test]
fn a_failed_write_is_told() {
    assert_eq!(save_error("disk full"), "Failed to save updated history: disk full");
}

#[test]
fn paths_of_windows_may_be_written_differently() {
    let mut a = entry(1, "a");
    let mut b = entry(1, "a");
    a.file_path = Some("C:\\d\\a".to_string());
    b.file_path = Some("c:/d/a".to_string());
    assert!(a.same(&b, Style::Windows));
    assert!(!a.same(&b, Style::Unix));
}
