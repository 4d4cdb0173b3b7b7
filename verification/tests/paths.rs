use disk_visualizer::paths::{duplicate_target, move_target, target_in};
use disk_visualizer::records::MutationError;

#[test]
fn a_copy_goes_beside_the_file_under_the_name_with_the_suffix() {
    assert_eq!(duplicate_target("/root/a.txt"), Ok(String::from("/root/a.txt_copy")));
    assert_eq!(duplicate_target("/root/sub/b.txt"), Ok(String::from("/root/sub/b.txt_copy")));
}

#[test]
fn a_copy_of_a_file_without_extension_gets_the_suffix_too() {
    assert_eq!(duplicate_target("/data/notes"), Ok(String::from("/data/notes_copy")));
}

#[test]
fn a_copy_of_a_file_named_by_one_component_stays_relative() {
    assert_eq!(duplicate_target("a.txt"), Ok(String::from("a.txt_copy")));
}

#[test]
fn a_copy_of_a_file_directly_under_the_root_lies_under_the_root() {
    assert_eq!(duplicate_target("/a.txt"), Ok(String::from("/a.txt_copy")));
}

#[test]
fn a_path_without_parent_cannot_be_copied() {
    assert_eq!(duplicate_target("/"), Err(MutationError::InvalidPath));
    assert_eq!(duplicate_target(""), Err(MutationError::InvalidPath));
}

#[test]
fn a_path_without_file_name_cannot_be_copied() {
    assert_eq!(duplicate_target("/root/.."), Err(MutationError::InvalidPath));
}

#[test]
fn a_moved_file_keeps_its_name_in_the_destination() {
    assert_eq!(move_target("/root/a.txt", "/archive"), Ok(String::from("/archive/a.txt")));
    assert_eq!(
        move_target("/root/sub/b.txt", "/archive/old"),
        Ok(String::from("/archive/old/b.txt"))
    );
}

#[test]
fn a_destination_with_a_trailing_separator_gets_no_second_one() {
    assert_eq!(move_target("/root/a.txt", "/archive/"), Ok(String::from("/archive/a.txt")));
}

#[test]
fn a_path_without_file_name_cannot_be_moved() {
    assert_eq!(move_target("/", "/archive"), Err(MutationError::InvalidPath));
    assert_eq!(move_target("", "/archive"), Err(MutationError::InvalidPath));
    assert_eq!(move_target("/root/..", "/archive"), Err(MutationError::InvalidPath));
}

#[test]
fn a_target_is_the_folder_and_the_name_with_the_suffix() {
    assert_eq!(
        target_in(Some(String::from("/root")), Some(String::from("a.txt")), "_copy"),
        Ok((String::from("/root"), String::from("a.txt_copy")))
    );
    assert_eq!(
        target_in(Some(String::from("")), Some(String::from("notes")), ""),
        Ok((String::from(""), String::from("notes")))
    );
}

#[test]
fn a_target_without_folder_or_name_is_invalid() {
    assert_eq!(target_in(None, Some(String::from("a.txt")), "_copy"), Err(MutationError::InvalidPath));
    assert_eq!(target_in(Some(String::from("/root")), None, "_copy"), Err(MutationError::InvalidPath));
    assert_eq!(target_in(None, None, ""), Err(MutationError::InvalidPath));
}
