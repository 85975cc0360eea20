use gpfind::entries::{classify, Action, Entry, EntryKind};
use gpfind::paths::{is_dot_name, join_path};
use gpfind::queue::TaskQueue;

#[test]
fn join_inserts_separator() {
    let p = join_path(&"/a".to_string(), &"b".to_string());
    assert_eq!(p, "/a/b".to_string());
}

#[test]
fn join_under_volume_root_has_no_double_separator() {
    let p = join_path(&"/".to_string(), &"f1".to_string());
    assert_eq!(p, "/f1".to_string());
}

#[test]
fn dot_names_recognised() {
    assert!(is_dot_name(&".".to_string()));
    assert!(is_dot_name(&"..".to_string()));
    assert!(!is_dot_name(&"...".to_string()));
    assert!(!is_dot_name(&"a.".to_string()));
}

#[test]
fn classify_directory_becomes_task() {
    let e = Entry { name: "d1".to_string(), kind: EntryKind::Directory };
    match classify(&"/a".to_string(), &e) {
        Action::Expand(p) => assert_eq!(p, "/a/d1".to_string()),
        _ => panic!("expected a new directory task"),
    }
}

#[test]
fn classify_file_is_reported() {
    let e = Entry { name: "f1".to_string(), kind: EntryKind::File };
    match classify(&"/a".to_string(), &e) {
        Action::Report(p) => assert_eq!(p, "/a/f1".to_string()),
        _ => panic!("expected a reported file path"),
    }
}

#[test]
fn classify_ignores_self_parent_and_other() {
    let dot = Entry { name: ".".to_string(), kind: EntryKind::Directory };
    let dotdot = Entry { name: "..".to_string(), kind: EntryKind::Directory };
    let dev = Entry { name: "tty0".to_string(), kind: EntryKind::Other };
    assert!(matches!(classify(&"/a".to_string(), &dot), Action::Ignore));
    assert!(matches!(classify(&"/a".to_string(), &dotdot), Action::Ignore));
    assert!(matches!(classify(&"/a".to_string(), &dev), Action::Ignore));
}

#[test]
fn counter_not_queue_emptiness_decides_quiescence() {
    let mut q = TaskQueue::new();
    assert!(q.is_quiescent());
    q.enqueue("/a".to_string());
    assert!(!q.is_quiescent());
    assert_eq!(q.pending(), 1);
    let t = q.dequeue();
    assert_eq!(t, Some("/a".to_string()));
    // The queue is empty, but the dequeued task is still being expanded:
    // the counter keeps the traversal alive.
    assert_eq!(q.pending(), 0);
    assert!(!q.is_quiescent());
    q.enqueue("/a/d1".to_string());
    q.mark_done();
    assert!(!q.is_quiescent());
    let t2 = q.dequeue();
    assert_eq!(t2, Some("/a/d1".to_string()));
    q.mark_done();
    assert!(q.is_quiescent());
    q.close();
    assert_eq!(q.dequeue(), None);
}

#[test]
fn dequeue_on_fresh_queue_is_empty() {
    let mut q = TaskQueue::new();
    assert_eq!(q.dequeue(), None);
}
