use disk_visualizer::records::{
    DuplicateGroup, FileRecord, FolderAggregate, HashError, ScanError,
};
use disk_visualizer::session::ScanSession;

fn record(path: &str, size: u64, digest: Option<&str>) -> FileRecord {
    FileRecord {
        path: String::from(path),
        size,
        digest: match digest {
            Some(d) => Ok(String::from(d)),
            None => Err(HashError::UnreadableFile),
        },
    }
}

fn total(folder: &str, total_size: u128) -> FolderAggregate {
    FolderAggregate { folder: String::from(folder), total_size }
}

fn duplicates(hash: &str, members: &[&str]) -> DuplicateGroup {
    DuplicateGroup {
        hash: String::from(hash),
        members: members.iter().map(|m| String::from(*m)).collect(),
    }
}

fn loaded() -> ScanSession {
    let mut session = ScanSession::new();
    let found = vec![
        record("/data/small", 1, Some("h1")),
        record("/data/big", 900, Some("h2")),
        record("/data/in/twin", 30, Some("h1")),
        record("/data/in/locked", 30, None),
    ];
    assert_eq!(session.load_scan(Ok(found)), Ok(()));
    session
}

#[test]
fn a_new_session_lists_nothing() {
    let session = ScanSession::new();
    assert!(session.files().is_empty());
    assert!(session.folders().is_empty());
    assert!(session.duplicates().is_empty());
    assert!(!session.is_populated());
    assert_eq!(session.total_size(), 0);
}

#[test]
fn loading_a_scan_orders_the_files_and_derives_both_views() {
    let session = loaded();
    assert!(session.is_populated());
    assert_eq!(
        session.files(),
        &vec![
            record("/data/big", 900, Some("h2")),
            record("/data/in/twin", 30, Some("h1")),
            record("/data/in/locked", 30, None),
            record("/data/small", 1, Some("h1")),
        ]
    );
    assert_eq!(session.folders(), &vec![total("/data", 901), total("/data/in", 60)]);
    assert_eq!(
        session.duplicates(),
        &vec![duplicates("h1", &["/data/in/twin", "/data/small"])]
    );
    assert_eq!(session.total_size(), 961);
}

#[test]
fn a_failed_scan_leaves_the_session_as_it_was() {
    let mut session = loaded();
    assert_eq!(session.load_scan(Err(ScanError::PermissionDenied)), Err(ScanError::PermissionDenied));
    assert_eq!(session.load_scan(Ok(vec![])), Err(ScanError::EmptyOrInaccessible));
    assert!(session.is_populated());
    assert_eq!(session.files().len(), 4);
    assert_eq!(session.folders(), &vec![total("/data", 901), total("/data/in", 60)]);

    let mut empty = ScanSession::new();
    assert_eq!(empty.load_scan(Ok(vec![])), Err(ScanError::EmptyOrInaccessible));
    assert!(!empty.is_populated());
    assert!(empty.files().is_empty());
}

#[test]
fn removing_a_path_takes_its_file_out_of_all_three() {
    let mut session = loaded();
    session.remove(&String::from("/data/in/twin"));
    assert_eq!(
        session.files(),
        &vec![
            record("/data/big", 900, Some("h2")),
            record("/data/in/locked", 30, None),
            record("/data/small", 1, Some("h1")),
        ]
    );
    assert_eq!(session.folders(), &vec![total("/data", 901), total("/data/in", 30)]);
    assert!(session.duplicates().is_empty());
    assert_eq!(session.total_size(), 931);
    assert!(session.is_populated());
}

#[test]
fn removing_a_path_that_is_not_listed_changes_nothing() {
    let mut session = loaded();
    session.remove(&String::from("/data/in"));
    session.remove(&String::from(""));
    assert_eq!(session.files().len(), 4);
    assert_eq!(session.folders(), &vec![total("/data", 901), total("/data/in", 60)]);
}

#[test]
fn removing_the_last_file_of_a_folder_drops_the_folder() {
    let mut session = loaded();
    session.remove(&String::from("/data/in/twin"));
    session.remove(&String::from("/data/in/locked"));
    assert_eq!(session.folders(), &vec![total("/data", 901)]);
}

#[test]
fn removing_every_file_leaves_a_populated_session_without_files() {
    let mut session = loaded();
    for path in ["/data/small", "/data/big", "/data/in/twin", "/data/in/locked"] {
        session.remove(&String::from(path));
    }
    assert!(session.files().is_empty());
    assert!(session.folders().is_empty());
    assert!(session.duplicates().is_empty());
    assert!(session.is_populated());
}

#[test]
fn a_path_listed_twice_is_removed_twice() {
    let mut session = ScanSession::new();
    session.add(record("/x/a", 5, Some("h")));
    session.add(record("/x/b", 6, Some("h")));
    session.add(record("/x/a", 5, Some("h")));
    assert_eq!(session.duplicates(), &vec![duplicates("h", &["/x/a", "/x/b", "/x/a"])]);
    session.remove(&String::from("/x/a"));
    assert_eq!(session.files(), &vec![record("/x/b", 6, Some("h"))]);
    assert!(session.duplicates().is_empty());
    assert_eq!(session.folders(), &vec![total("/x", 6)]);
}

#[test]
fn an_added_file_stands_last_and_is_counted() {
    let mut session = loaded();
    session.add(record("/data/in/huge", 5000, Some("h2")));
    assert_eq!(session.files().len(), 5);
    assert_eq!(session.files()[4], record("/data/in/huge", 5000, Some("h2")));
    assert_eq!(session.files()[0], record("/data/big", 900, Some("h2")));
    assert_eq!(session.folders(), &vec![total("/data/in", 5060), total("/data", 901)]);
    assert_eq!(
        session.duplicates(),
        &vec![
            duplicates("h2", &["/data/big", "/data/in/huge"]),
            duplicates("h1", &["/data/in/twin", "/data/small"]),
        ]
    );
    assert_eq!(session.total_size(), 5961);
}

#[test]
fn the_total_of_many_large_files_does_not_wrap() {
    let mut session = ScanSession::new();
    session.add(record("/a", u64::MAX, None));
    session.add(record("/b", u64::MAX, None));
    session.add(record("/c", u64::MAX, None));
    assert_eq!(session.total_size(), 3 * (u64::MAX as u128));
}
