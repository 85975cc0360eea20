use gpfind::engine::traverse;
use gpfind::entries::{Entry, EntryKind};
use gpfind::volume::{Listing, Volume};

fn entry(name: &str, kind: EntryKind) -> Entry {
    Entry { name: name.to_string(), kind }
}

fn listing(path: &str, entries: Vec<Entry>) -> Listing {
    Listing { path: path.to_string(), entries }
}

fn sorted(v: &[String]) -> Vec<String> {
    let mut out: Vec<String> = v.to_vec();
    out.sort();
    out
}

#[test]
fn concrete_two_level_tree() {
    let vol = Volume {
        dirs: vec![
            listing(
                "/a",
                vec![entry("f1", EntryKind::File), entry("d1", EntryKind::Directory)],
            ),
            listing("/a/d1", vec![entry("f2", EntryKind::File)]),
        ],
    };
    let out = traverse(&vol, &"/a".to_string());
    assert_eq!(sorted(&out.files), vec!["/a/d1/f2".to_string(), "/a/f1".to_string()]);
    assert_eq!(out.failed.len(), 0);
    assert_eq!(out.failed_count(), 0);
}

#[test]
fn injected_open_failure_contained() {
    let vol = Volume {
        dirs: vec![listing(
            "/a",
            vec![entry("f1", EntryKind::File), entry("d1", EntryKind::Directory)],
        )],
    };
    let out = traverse(&vol, &"/a".to_string());
    assert_eq!(sorted(&out.files), vec!["/a/f1".to_string()]);
    assert_eq!(out.failed, vec!["/a/d1".to_string()]);
    assert_eq!(out.failed_count(), 1);
}

#[test]
fn empty_directory_terminates() {
    let vol = Volume { dirs: vec![listing("/", vec![])] };
    let out = traverse(&vol, &"/".to_string());
    assert_eq!(out.files.len(), 0);
    assert_eq!(out.failed.len(), 0);
}

#[test]
fn single_file_under_volume_root() {
    let vol = Volume { dirs: vec![listing("/", vec![entry("only", EntryKind::File)])] };
    let out = traverse(&vol, &"/".to_string());
    assert_eq!(out.files, vec!["/only".to_string()]);
    assert_eq!(out.failed.len(), 0);
}

#[test]
fn missing_root_is_one_failure() {
    let vol = Volume { dirs: vec![] };
    let out = traverse(&vol, &"/a".to_string());
    assert_eq!(out.files.len(), 0);
    assert_eq!(out.failed, vec!["/a".to_string()]);
}

#[test]
fn completeness_on_deeper_tree() {
    let vol = Volume {
        dirs: vec![
            listing(
                "/",
                vec![
                    entry("top", EntryKind::File),
                    entry("d1", EntryKind::Directory),
                    entry("d2", EntryKind::Directory),
                    entry("dev", EntryKind::Other),
                ],
            ),
            listing(
                "/d1",
                vec![entry("x", EntryKind::File), entry("sub", EntryKind::Directory)],
            ),
            listing("/d1/sub", vec![entry("deep", EntryKind::File)]),
            listing("/d2", vec![entry("y", EntryKind::File)]),
        ],
    };
    let out = traverse(&vol, &"/".to_string());
    assert_eq!(
        sorted(&out.files),
        vec![
            "/d1/sub/deep".to_string(),
            "/d1/x".to_string(),
            "/d2/y".to_string(),
            "/top".to_string(),
        ]
    );
    assert_eq!(out.failed.len(), 0);
}

#[test]
fn self_and_parent_entries_excluded() {
    let vol = Volume {
        dirs: vec![listing(
            "/a",
            vec![
                entry(".", EntryKind::Directory),
                entry("..", EntryKind::Directory),
                entry("f", EntryKind::File),
            ],
        )],
    };
    let out = traverse(&vol, &"/a".to_string());
    assert_eq!(out.files, vec!["/a/f".to_string()]);
    // Were `.` or `..` expanded, their paths would show up as failed opens.
    assert_eq!(out.failed.len(), 0);
}

#[test]
fn repeated_runs_yield_same_multiset() {
    let vol = Volume {
        dirs: vec![
            listing(
                "/a",
                vec![entry("f1", EntryKind::File), entry("d1", EntryKind::Directory)],
            ),
            listing("/a/d1", vec![entry("f2", EntryKind::File)]),
        ],
    };
    let first = traverse(&vol, &"/a".to_string());
    let second = traverse(&vol, &"/a".to_string());
    assert_eq!(sorted(&first.files), sorted(&second.files));
    assert_eq!(first.files.len(), 2);
}

#[test]
fn failed_subtree_does_not_stop_siblings() {
    let vol = Volume {
        dirs: vec![
            listing(
                "/",
                vec![
                    entry("bad", EntryKind::Directory),
                    entry("good", EntryKind::Directory),
                ],
            ),
            listing("/good", vec![entry("kept", EntryKind::File)]),
        ],
    };
    let out = traverse(&vol, &"/".to_string());
    assert_eq!(out.files, vec!["/good/kept".to_string()]);
    assert_eq!(out.failed, vec!["/bad".to_string()]);
}
