use disk_visualizer::aggregate::{aggregate_folder_sizes, tally_folders, PlacedFile};
use disk_visualizer::records::{FileRecord, FolderAggregate, HashError};

fn file(path: &str, size: u64) -> FileRecord {
    FileRecord { path: String::from(path), size, digest: Err(HashError::UnreadableFile) }
}

fn folder(folder: &str, total_size: u128) -> FolderAggregate {
    FolderAggregate { folder: String::from(folder), total_size }
}

fn total_of(folders: &[FolderAggregate], name: &str) -> Option<u128> {
    let mut found = None;
    for f in folders {
        if f.folder == name {
            assert!(found.is_none(), "folder listed twice: {}", name);
            found = Some(f.total_size);
        }
    }
    found
}

#[test]
fn no_files_give_no_folders() {
    assert_eq!(aggregate_folder_sizes(&[]), vec![]);
}

#[test]
fn each_file_counts_towards_the_folder_that_holds_it() {
    let files =
        vec![file("/root/sub/b.txt", 200), file("/root/c.txt", 200), file("/root/a.txt", 100)];
    let folders = aggregate_folder_sizes(&files);
    assert_eq!(folders, vec![folder("/root", 300), folder("/root/sub", 200)]);
}

#[test]
fn a_file_does_not_count_towards_the_folders_further_up() {
    let files = vec![file("/root/sub/deep/x.bin", 7), file("/root/y.bin", 1)];
    let folders = aggregate_folder_sizes(&files);
    assert_eq!(total_of(&folders, "/root/sub/deep"), Some(7));
    assert_eq!(total_of(&folders, "/root/sub"), None);
    assert_eq!(total_of(&folders, "/root"), Some(1));
    assert_eq!(folders.len(), 2);
}

#[test]
fn folders_come_largest_total_first() {
    let files = vec![
        file("/a/1", 1),
        file("/b/1", 50),
        file("/c/1", 20),
        file("/a/2", 2),
        file("/c/2", 40),
        file("/d/1", 3),
    ];
    let folders = aggregate_folder_sizes(&files);
    assert_eq!(
        folders,
        vec![folder("/c", 60), folder("/b", 50), folder("/a", 3), folder("/d", 3)]
    );
}

#[test]
fn a_path_without_parent_counts_towards_no_folder() {
    let files = vec![file("/", 4096), file("", 1), file("/root/a.txt", 100)];
    assert_eq!(aggregate_folder_sizes(&files), vec![folder("/root", 100)]);
}

#[test]
fn a_file_named_by_one_component_lies_in_the_empty_folder() {
    let files = vec![file("a.txt", 5), file("b.txt", 6)];
    assert_eq!(aggregate_folder_sizes(&files), vec![folder("", 11)]);
}

#[test]
fn empty_files_still_list_their_folder() {
    let files = vec![file("/root/empty", 0)];
    assert_eq!(aggregate_folder_sizes(&files), vec![folder("/root", 0)]);
}

#[test]
fn totals_beyond_sixty_four_bits_are_exact() {
    let files = vec![file("/big/a", u64::MAX), file("/big/b", u64::MAX), file("/big/c", 2)];
    let folders = aggregate_folder_sizes(&files);
    assert_eq!(folders, vec![folder("/big", 36_893_488_147_419_103_232)]);
}

#[test]
fn the_same_path_listed_twice_counts_twice() {
    let files = vec![file("/root/a.txt", 100), file("/root/a.txt", 100)];
    assert_eq!(aggregate_folder_sizes(&files), vec![folder("/root", 200)]);
}

fn placed(folder: Option<&str>, size: u64) -> PlacedFile {
    PlacedFile { folder: folder.map(String::from), size }
}

#[test]
fn sizes_are_summed_by_the_folder_given_with_each_file() {
    let files = vec![
        placed(Some("sub"), 200),
        placed(Some("root"), 200),
        placed(None, 999),
        placed(Some("root"), 100),
    ];
    assert_eq!(tally_folders(&files), vec![folder("root", 300), folder("sub", 200)]);
}

#[test]
fn folders_of_equal_total_stand_in_the_order_in_which_they_are_met() {
    let files = vec![
        placed(Some("c"), 1),
        placed(Some("a"), 2),
        placed(Some("b"), 2),
        placed(Some("c"), 1),
        placed(Some("d"), 9),
    ];
    assert_eq!(
        tally_folders(&files),
        vec![folder("d", 9), folder("c", 2), folder("a", 2), folder("b", 2)]
    );
}

#[test]
fn files_without_folder_give_no_entry() {
    assert_eq!(tally_folders(&[placed(None, 1), placed(None, 2)]), vec![]);
    assert_eq!(tally_folders(&[]), vec![]);
}
