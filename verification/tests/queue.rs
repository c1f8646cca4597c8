use rfshare::paths::Style;
use rfshare::queue::{Obstacle, Queue, QueueItem, QueueMsg};
use rfshare::sender::Sent;

fn queue(n: usize) -> Queue {
    let mut q = Queue::new();
    q.add_files((0..n).map(|i| (format!("/d/{}.txt", i), 10 * i as u64)).collect(), Style::Unix);
    q
}

fn take(q: &mut Queue, m: QueueMsg) {
    assert!(q.accepts(&m));
    q.take_message(m);
}

#[test]
fn files_are_queued_once_each() {
    let mut q = queue(2);
    q.add_files(vec![("/d/1.txt".to_string(), 5), ("/e/1.txt".to_string(), 6), ("/e//1.txt".to_string(), 7)], Style::Unix);
    assert_eq!(q.items.len(), 3);
    assert_eq!(q.items[1].size, 10);
    assert_eq!(q.items[2].name, "1.txt");
    q.remove_queue_item(9);
    q.remove_queue_item(0);
    assert_eq!(q.items[0].path, "/d/1.txt");
}

#[test]
fn all_that_waits_is_started() {
    let mut q = queue(3);
    let out = q.start();
    assert_eq!(out.iter().map(|o| o.index).collect::<Vec<_>>(), [0, 1, 2]);
    assert_eq!(out[2].size, 20);
    assert_eq!(out[2].path, "/d/2.txt");
    assert!(q.items.iter().all(|i| i.is_active()));
    assert!(q.any_active());
}

#[test]
fn news_move_a_file_on() {
    let mut q = queue(3);
    q.start();
    take(&mut q, QueueMsg::Progress { index: 1, progress: Sent { bytes: 5, size: 10 } });
    assert!(q.items[1].is_active());
    take(&mut q, QueueMsg::Done { index: 1 });
    assert!(q.items[1].is_done());
    assert_eq!(q.sent_bytes, 10);
    assert_eq!(q.sent_files, 1);
    take(&mut q, QueueMsg::Failed { index: 2, error: "gone".to_string() });
    assert!(q.items[2].is_failed());
    assert_eq!(q.items[2].progress, None);
    take(&mut q, QueueMsg::Done { index: 7 });
    assert_eq!(q.sent_files, 1);
    let t = q.tally();
    assert_eq!((t.total, t.done, t.failed, t.pending, t.active), (3, 1, 1, 0, true));
    assert_eq!(t.sending(), 1);
    assert!(!t.finished());
}

#[test]
fn failed_files_are_tried_again() {
    let mut q = queue(2);
    q.start();
    take(&mut q, QueueMsg::Failed { index: 0, error: "gone".to_string() });
    take(&mut q, QueueMsg::Done { index: 1 });
    assert!(q.tally().finished());
    q.retry_failed();
    assert!(q.items[0].is_pending());
    let out = q.start();
    assert_eq!(out.len(), 1);
    assert_eq!(out[0].index, 0);
}

#[test]
fn files_that_are_done_leave() {
    let mut q = queue(3);
    q.start();
    take(&mut q, QueueMsg::Failed { index: 0, error: "gone".to_string() });
    take(&mut q, QueueMsg::Done { index: 1 });
    q.clear_done();
    assert_eq!(q.items.len(), 1);
    assert_eq!(q.items[0].path, "/d/2.txt");
}

#[test]
fn progress_is_judged_as_a_share() {
    let mut i = QueueItem::new("/x".to_string(), 10, Style::Unix);
    assert!(i.is_pending() && !i.is_active() && !i.is_done());
    i.progress = Some(Sent { bytes: 16_777_217, size: 16_777_216 });
    assert!(i.is_done());
    i.progress = Some(Sent { bytes: 11, size: 10 });
    assert!(!i.is_done() && !i.is_active() && !i.is_pending());
    i.progress = Some(Sent { bytes: 9, size: 10 });
    i.error = Some("e".to_string());
    assert!(i.is_failed() && !i.is_active());
    assert_eq!(i.clone().error.as_deref(), Some("e"));
}

#[test]
fn what_keeps_the_queue_from_being_sent() {
    let empty = Queue::new().tally();
    assert_eq!(empty.obstacle(false), Obstacle::NoDeviceNoFiles);
    assert_eq!(empty.obstacle(true), Obstacle::NoFiles);
    let mut q = queue(1);
    assert_eq!(q.tally().obstacle(false), Obstacle::NoDevice);
    assert!(q.tally().can_send(true));
    assert!(!q.tally().can_send(false));
    q.start();
    assert!(!q.tally().can_send(true));
    assert_eq!(q.tally().obstacle(true), Obstacle::NoPending);
    assert_eq!(Obstacle::NoDeviceNoFiles.message(), "Select a device and add files above");
    assert_eq!(Obstacle::NoDevice.message(), "Select a destination device above");
    assert_eq!(Obstacle::NoFiles.message(), "Add files to the queue above");
    assert_eq!(Obstacle::NoPending.message(), "No pending files to send");
}

#[test]
fn counters_that_are_full_take_no_more() {
    let mut q = queue(2);
    q.sent_bytes = u64::MAX;
    assert!(!q.accepts(&QueueMsg::Done { index: 1 }));
    assert!(q.accepts(&QueueMsg::Done { index: 0 }));
    assert!(q.accepts(&QueueMsg::Progress { index: 1, progress: Sent { bytes: 1, size: 1 } }));
    q.sent_files = u32::MAX;
    assert!(!q.accepts(&QueueMsg::Done { index: 0 }));
}

#[test]
fn files_of_windows_are_named_by_their_last_part() {
    let i = QueueItem::new("C:\\d\\a.txt".to_string(), 1, Style::Windows);
    assert_eq!(i.name, "a.txt");
    assert_eq!(i.path, "C:\\d\\a.txt");
    let mut q = Queue::new();
    q.add_files(vec![("C:\\d\\a".to_string(), 1), ("c:/d/a".to_string(), 1)], Style::Windows);
    assert_eq!(q.items.len(), 1);
}
