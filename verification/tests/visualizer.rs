use disk_visualizer::hashing::ContentHasher;
use disk_visualizer::messages::{Command, Message, Screen, Theme};
use disk_visualizer::records::{
    DuplicateGroup, Failure, FileRecord, FolderAggregate, HashError, MutationError, ScanError,
};
use disk_visualizer::visualizer::DiskVisualizer;

fn hash_of(content: &[u8]) -> String {
    let mut hasher = ContentHasher::new();
    hasher.absorb(content);
    hasher.finish()
}

fn file(path: &str, size: u64, content: &[u8]) -> FileRecord {
    FileRecord { path: String::from(path), size, digest: Ok(hash_of(content)) }
}

fn folder(folder: &str, total_size: u128) -> FolderAggregate {
    FolderAggregate { folder: String::from(folder), total_size }
}

fn group(content: &[u8], members: &[&str]) -> DuplicateGroup {
    DuplicateGroup {
        hash: hash_of(content),
        members: members.iter().map(|m| String::from(*m)).collect(),
    }
}

fn strings(items: &[&str]) -> Vec<String> {
    items.iter().map(|s| String::from(*s)).collect()
}

fn a_txt() -> FileRecord {
    file("/root/a.txt", 100, b"only in a")
}

fn b_txt() -> FileRecord {
    file("/root/sub/b.txt", 200, b"content X")
}

fn c_txt() -> FileRecord {
    file("/root/c.txt", 200, b"content X")
}

/// A session into which the walk of `/root` has been loaded, which met
/// `a.txt`, `sub/b.txt` and `c.txt` in this order.
fn scanned() -> DiskVisualizer {
    let mut session = DiskVisualizer::new();
    assert_eq!(
        session.update(Message::FolderPicked(Some(String::from("/root")))),
        Ok(Command::Scan(String::from("/root")))
    );
    assert_eq!(
        session.update(Message::ScanCompleted(Ok(vec![a_txt(), b_txt(), c_txt()]))),
        Ok(Command::Idle)
    );
    session
}

fn trashed(path: &str, remaining: &[&str], outcome: Result<(), MutationError>) -> Message {
    Message::FileTrashed { path: String::from(path), remaining: strings(remaining), outcome }
}

fn trash(path: &str, remaining: &[&str]) -> Command {
    Command::Trash { path: String::from(path), remaining: strings(remaining) }
}

#[test]
fn a_new_session_is_empty_and_shows_the_home_screen() {
    let session = DiskVisualizer::new();
    assert_eq!(session.screen(), Screen::Home);
    assert_eq!(session.theme(), Theme::Light);
    assert_eq!(session.selected_folder(), &None);
    assert!(session.files().is_empty());
    assert!(session.folders().is_empty());
    assert!(session.duplicates().is_empty());
    assert!(!session.is_populated());
    assert!(!session.is_scanning());
    assert_eq!(session.total_size(), 0);
}

#[test]
fn the_window_has_its_title() {
    assert_eq!(DiskVisualizer::new().title(), "Disk Usage Visualizer");
}

#[test]
fn going_to_a_screen_shows_it() {
    let mut session = DiskVisualizer::new();
    assert_eq!(session.update(Message::GoTo(Screen::FolderSelect)), Ok(Command::Idle));
    assert_eq!(session.screen(), Screen::FolderSelect);
    assert_eq!(session.update(Message::ViewDuplicates), Ok(Command::Idle));
    assert_eq!(session.screen(), Screen::Duplicates);
    assert_eq!(session.update(Message::GoTo(Screen::Home)), Ok(Command::Idle));
    assert_eq!(session.screen(), Screen::Home);
}

#[test]
fn the_theme_toggles_between_light_and_dark() {
    let mut session = DiskVisualizer::new();
    assert_eq!(session.update(Message::ToggleTheme), Ok(Command::Idle));
    assert_eq!(session.theme(), Theme::Dark);
    assert_eq!(session.update(Message::ToggleTheme), Ok(Command::Idle));
    assert_eq!(session.theme(), Theme::Light);
}

#[test]
fn leaving_is_left_to_the_shell() {
    let mut session = scanned();
    assert_eq!(session.update(Message::ExitApp), Ok(Command::Exit));
    assert_eq!(session.files().len(), 3);
}

#[test]
fn picking_a_folder_opens_the_dialog_and_a_cancelled_dialog_changes_nothing() {
    let mut session = DiskVisualizer::new();
    assert_eq!(session.update(Message::PickFolder), Ok(Command::PickFolder));
    assert_eq!(session.update(Message::FolderPicked(None)), Ok(Command::Idle));
    assert_eq!(session.selected_folder(), &None);
    assert!(!session.is_scanning());
}

#[test]
fn a_picked_folder_is_scanned() {
    let mut session = DiskVisualizer::new();
    assert_eq!(
        session.update(Message::FolderPicked(Some(String::from("/root")))),
        Ok(Command::Scan(String::from("/root")))
    );
    assert_eq!(session.selected_folder(), &Some(String::from("/root")));
    assert!(session.is_scanning());
    assert!(!session.is_populated());
}

#[test]
fn a_scan_lists_the_files_largest_first_and_finds_the_duplicates() {
    let session = scanned();
    assert_eq!(session.files(), &vec![b_txt(), c_txt(), a_txt()]);
    assert_eq!(
        session.duplicates(),
        &vec![group(b"content X", &["/root/sub/b.txt", "/root/c.txt"])]
    );
    assert_eq!(session.screen(), Screen::Visualization);
    assert!(session.is_populated());
    assert!(!session.is_scanning());
    assert_eq!(session.total_size(), 500);
}

#[test]
fn a_scan_sums_the_sizes_by_folder() {
    let session = scanned();
    assert_eq!(session.folders(), &vec![folder("/root", 300), folder("/root/sub", 200)]);
}

#[test]
fn a_moved_file_leaves_the_list() {
    let mut session = scanned();
    assert_eq!(
        session.update(Message::MoveFile(String::from("/root/a.txt"))),
        Ok(Command::PickDestination(String::from("/root/a.txt")))
    );
    assert_eq!(
        session.update(Message::MoveDestinationPicked(
            String::from("/root/a.txt"),
            Some(String::from("/archive"))
        )),
        Ok(Command::Rename {
            from: String::from("/root/a.txt"),
            to: String::from("/archive/a.txt")
        })
    );
    assert_eq!(session.files().len(), 3);
    assert_eq!(
        session.update(Message::FileMoved { path: String::from("/root/a.txt"), outcome: Ok(()) }),
        Ok(Command::Idle)
    );
    assert_eq!(session.files(), &vec![b_txt(), c_txt()]);
    assert!(session.files().iter().all(|f| f.path != "/root/a.txt"));
    assert_eq!(session.folders(), &vec![folder("/root/sub", 200), folder("/root", 200)]);
    assert_eq!(session.total_size(), 400);
}

#[test]
fn a_cancelled_move_changes_nothing() {
    let mut session = scanned();
    assert_eq!(
        session.update(Message::MoveDestinationPicked(String::from("/root/a.txt"), None)),
        Ok(Command::Idle)
    );
    assert_eq!(session.files(), &vec![b_txt(), c_txt(), a_txt()]);
}

#[test]
fn a_failed_move_changes_nothing() {
    let mut session = scanned();
    assert_eq!(
        session.update(Message::FileMoved {
            path: String::from("/root/a.txt"),
            outcome: Err(MutationError::RenameFailed)
        }),
        Err(Failure::Mutation(MutationError::RenameFailed))
    );
    assert_eq!(session.files(), &vec![b_txt(), c_txt(), a_txt()]);
    assert_eq!(session.folders(), &vec![folder("/root", 300), folder("/root/sub", 200)]);
}

#[test]
fn a_request_to_move_a_path_without_file_name_fails() {
    let mut session = scanned();
    assert_eq!(
        session.update(Message::MoveDestinationPicked(
            String::from("/"),
            Some(String::from("/archive"))
        )),
        Err(Failure::Mutation(MutationError::InvalidPath))
    );
    assert_eq!(session.files().len(), 3);
}

#[test]
fn a_copy_joins_the_list_and_forms_a_group_with_its_original() {
    let mut session = scanned();
    assert_eq!(
        session.update(Message::MakeDuplicate(String::from("/root/a.txt"))),
        Ok(Command::Copy {
            from: String::from("/root/a.txt"),
            to: String::from("/root/a.txt_copy")
        })
    );
    assert_eq!(session.files().len(), 3);
    let copy = file("/root/a.txt_copy", 100, b"only in a");
    assert_eq!(copy.digest, a_txt().digest);
    assert_eq!(session.update(Message::FileCopied { copied: Ok(copy.clone()) }), Ok(Command::Idle));
    assert_eq!(session.files(), &vec![b_txt(), c_txt(), a_txt(), copy]);
    assert_eq!(
        session.duplicates(),
        &vec![
            group(b"content X", &["/root/sub/b.txt", "/root/c.txt"]),
            group(b"only in a", &["/root/a.txt", "/root/a.txt_copy"]),
        ]
    );
    assert_eq!(session.folders(), &vec![folder("/root", 400), folder("/root/sub", 200)]);
}

#[test]
fn a_failed_copy_changes_nothing() {
    let mut session = scanned();
    assert_eq!(
        session.update(Message::FileCopied { copied: Err(MutationError::CopyFailed) }),
        Err(Failure::Mutation(MutationError::CopyFailed))
    );
    assert_eq!(session.files(), &vec![b_txt(), c_txt(), a_txt()]);
}

#[test]
fn a_request_to_copy_a_path_without_parent_fails() {
    let mut session = scanned();
    assert_eq!(
        session.update(Message::MakeDuplicate(String::from("/"))),
        Err(Failure::Mutation(MutationError::InvalidPath))
    );
    assert_eq!(session.files().len(), 3);
}

#[test]
fn a_copy_that_could_not_be_read_joins_no_group() {
    let mut session = scanned();
    let copy = FileRecord {
        path: String::from("/root/a.txt_copy"),
        size: 0,
        digest: Err(HashError::UnreadableFile),
    };
    assert_eq!(session.update(Message::FileCopied { copied: Ok(copy) }), Ok(Command::Idle));
    assert_eq!(session.files().len(), 4);
    assert_eq!(session.duplicates().len(), 1);
}

#[test]
fn a_deleted_file_leaves_the_list_and_its_group_is_dropped() {
    let mut session = scanned();
    session
        .update(Message::FileMoved { path: String::from("/root/a.txt"), outcome: Ok(()) })
        .unwrap();
    assert_eq!(
        session.update(Message::DeleteFile(String::from("/root/sub/b.txt"))),
        Ok(trash("/root/sub/b.txt", &[]))
    );
    assert_eq!(session.files().len(), 2);
    assert_eq!(session.update(trashed("/root/sub/b.txt", &[], Ok(()))), Ok(Command::Idle));
    assert_eq!(session.files(), &vec![c_txt()]);
    assert!(session.duplicates().is_empty());
    assert_eq!(session.folders(), &vec![folder("/root", 200)]);
}

#[test]
fn a_failed_deletion_changes_nothing() {
    let mut session = scanned();
    assert_eq!(
        session.update(trashed("/root/a.txt", &[], Err(MutationError::TrashUnavailable))),
        Err(Failure::Mutation(MutationError::TrashUnavailable))
    );
    assert_eq!(session.files(), &vec![b_txt(), c_txt(), a_txt()]);
    assert_eq!(session.duplicates().len(), 1);
}

#[test]
fn a_batch_is_deleted_one_file_after_the_other() {
    let mut session = scanned();
    assert_eq!(
        session.update(Message::DeleteDuplicates(strings(&["/root/sub/b.txt", "/root/c.txt"]))),
        Ok(trash("/root/sub/b.txt", &["/root/c.txt"]))
    );
    assert_eq!(session.files().len(), 3);
    assert_eq!(
        session.update(trashed("/root/sub/b.txt", &["/root/c.txt"], Ok(()))),
        Ok(trash("/root/c.txt", &[]))
    );
    assert_eq!(session.files(), &vec![c_txt(), a_txt()]);
    assert_eq!(session.update(trashed("/root/c.txt", &[], Ok(()))), Ok(Command::Idle));
    assert_eq!(session.files(), &vec![a_txt()]);
    assert!(session.duplicates().is_empty());
    assert_eq!(session.folders(), &vec![folder("/root", 100)]);
}

#[test]
fn a_batch_halts_at_the_first_failure_and_keeps_what_was_deleted() {
    let mut session = scanned();
    let batch = ["/root/sub/b.txt", "/root/c.txt", "/root/a.txt"];
    assert_eq!(
        session.update(Message::DeleteDuplicates(strings(&batch))),
        Ok(trash(batch[0], &batch[1..]))
    );
    assert_eq!(
        session.update(trashed(batch[0], &batch[1..], Ok(()))),
        Ok(trash(batch[1], &batch[2..]))
    );
    assert_eq!(
        session.update(trashed(batch[1], &batch[2..], Err(MutationError::TrashUnavailable))),
        Err(Failure::Mutation(MutationError::TrashUnavailable))
    );
    assert_eq!(session.files(), &vec![c_txt(), a_txt()]);
    assert_eq!(session.folders(), &vec![folder("/root", 300)]);
}

#[test]
fn an_empty_batch_asks_for_nothing() {
    let mut session = scanned();
    assert_eq!(session.update(Message::DeleteDuplicates(vec![])), Ok(Command::Idle));
    assert_eq!(session.files().len(), 3);
}

#[test]
fn deleting_a_file_that_is_not_listed_removes_nothing() {
    let mut session = scanned();
    assert_eq!(session.update(trashed("/elsewhere/x", &[], Ok(()))), Ok(Command::Idle));
    assert_eq!(session.files(), &vec![b_txt(), c_txt(), a_txt()]);
}

#[test]
fn a_scan_that_found_nothing_fails_and_leaves_an_empty_session_empty() {
    let mut session = DiskVisualizer::new();
    session.update(Message::FolderPicked(Some(String::from("/empty")))).unwrap();
    assert_eq!(
        session.update(Message::ScanCompleted(Ok(vec![]))),
        Err(Failure::Scan(ScanError::EmptyOrInaccessible))
    );
    assert!(!session.is_populated());
    assert!(!session.is_scanning());
    assert!(session.files().is_empty());
    assert_eq!(session.screen(), Screen::Home);
}

#[test]
fn a_scan_that_found_nothing_leaves_a_loaded_session_as_it_was() {
    let mut session = scanned();
    session.update(Message::FolderPicked(Some(String::from("/empty")))).unwrap();
    assert_eq!(
        session.update(Message::ScanCompleted(Ok(vec![]))),
        Err(Failure::Scan(ScanError::EmptyOrInaccessible))
    );
    assert!(session.is_populated());
    assert_eq!(session.files(), &vec![b_txt(), c_txt(), a_txt()]);
    assert_eq!(session.folders(), &vec![folder("/root", 300), folder("/root/sub", 200)]);
    assert_eq!(session.duplicates().len(), 1);
}

#[test]
fn a_failed_walk_is_reported_as_it_is() {
    let mut session = scanned();
    assert_eq!(
        session.update(Message::ScanCompleted(Err(ScanError::PathNotFound))),
        Err(Failure::Scan(ScanError::PathNotFound))
    );
    assert_eq!(
        session.update(Message::ScanCompleted(Err(ScanError::PermissionDenied))),
        Err(Failure::Scan(ScanError::PermissionDenied))
    );
    assert_eq!(session.files().len(), 3);
}

#[test]
fn a_new_scan_replaces_the_old_one() {
    let mut session = scanned();
    session.update(Message::FolderPicked(Some(String::from("/other")))).unwrap();
    let only = file("/other/z.bin", 9, b"z");
    session.update(Message::ScanCompleted(Ok(vec![only.clone()]))).unwrap();
    assert_eq!(session.files(), &vec![only]);
    assert_eq!(session.folders(), &vec![folder("/other", 9)]);
    assert!(session.duplicates().is_empty());
    assert_eq!(session.selected_folder(), &Some(String::from("/other")));
}

#[test]
fn while_a_scan_is_under_way_a_second_one_is_refused() {
    let mut session = DiskVisualizer::new();
    session.update(Message::FolderPicked(Some(String::from("/root")))).unwrap();
    assert_eq!(
        session.update(Message::FolderPicked(Some(String::from("/other")))),
        Ok(Command::Idle)
    );
    assert_eq!(session.selected_folder(), &Some(String::from("/root")));
    assert!(session.is_scanning());
}

#[test]
fn while_a_scan_is_under_way_no_change_on_disk_is_asked_for() {
    let mut session = scanned();
    session.update(Message::FolderPicked(Some(String::from("/root")))).unwrap();
    assert_eq!(session.update(Message::DeleteFile(String::from("/root/a.txt"))), Ok(Command::Idle));
    assert_eq!(
        session.update(Message::DeleteDuplicates(strings(&["/root/a.txt"]))),
        Ok(Command::Idle)
    );
    assert_eq!(
        session.update(Message::MakeDuplicate(String::from("/root/a.txt"))),
        Ok(Command::Idle)
    );
    assert_eq!(
        session.update(Message::MoveDestinationPicked(
            String::from("/root/a.txt"),
            Some(String::from("/archive"))
        )),
        Ok(Command::Idle)
    );
    assert_eq!(
        session.update(trashed("/root/sub/b.txt", &["/root/c.txt"], Ok(()))),
        Ok(Command::Idle)
    );
    assert_eq!(session.files(), &vec![c_txt(), a_txt()]);
}

#[test]
fn messages_can_be_copied() {
    let message = Message::FileTrashed {
        path: String::from("/p"),
        remaining: strings(&["/q", "/r"]),
        outcome: Err(MutationError::TrashUnavailable),
    };
    assert_eq!(message.clone(), message);
    let scan = Message::ScanCompleted(Ok(vec![a_txt()]));
    assert_eq!(scan.clone(), scan);
    let copied = Message::FileCopied { copied: Ok(b_txt()) };
    assert_eq!(copied.clone(), copied);
}
