//! Where a copy of a file goes and where a moved file lands.
//!
//! Folder and file names are taken apart and put together by
//! `std::path::Path`; this module states what it relies on from it. What a
//! path means is fixed by the platform the crate is built for, and depends
//! on nothing but the text of the path.

use crate::records::MutationError;
use vstd::prelude::*;
use vstd::string::StringExecFns;

verus! {

/// The folder that directly holds `path`, as `Path::parent` reads the text;
/// `None` for a root and for the empty path.
pub uninterp spec fn parent_of(path: Seq<char>) -> Option<Seq<char>>;

/// The last component of `path`, as `Path::file_name` reads the text; `None`
/// where the path ends in a root or in `..`.
pub uninterp spec fn file_name_of(path: Seq<char>) -> Option<Seq<char>>;

/// The path of the entry called `name` inside `folder`, as `Path::join`
/// builds it.
pub uninterp spec fn joined(folder: Seq<char>, name: Seq<char>) -> Seq<char>;

/// What is appended to a file's name to name its copy.
pub open spec fn copy_suffix() -> Seq<char> {
    "_copy"@
}

/// Calls `std::path::Path::parent`. Trusted: the answer depends on the text of
/// `path` alone, which gives it the name `parent_of`.
#[verifier::external_body]
pub(crate) fn parent_folder(path: &str) -> (folder: Option<String>)
    ensures
        match folder {
            Some(f) => parent_of(path@) == Some(f@),
            None => parent_of(path@) is None,
        },
{
    match std::path::Path::new(path).parent() {
        Some(p) => Some(p.display().to_string()),
        None => None,
    }
}

/// Calls `std::path::Path::file_name`. Trusted: the answer depends on the
/// text of `path` alone, which gives it the name `file_name_of`.
#[verifier::external_body]
pub(crate) fn file_name(path: &str) -> (name: Option<String>)
    ensures
        match name {
            Some(n) => file_name_of(path@) == Some(n@),
            None => file_name_of(path@) is None,
        },
{
    match std::path::Path::new(path).file_name() {
        Some(n) => Some(n.to_string_lossy().into_owned()),
        None => None,
    }
}

/// Calls `std::path::Path::join`. Trusted: the answer depends on the two
/// texts alone, which gives it the name `joined`.
#[verifier::external_body]
pub(crate) fn join(folder: &str, name: &str) -> (path: String)
    ensures
        path@ == joined(folder@, name@),
{
    std::path::Path::new(folder).join(name).display().to_string()
}

/// The path a copy of `path` would get: `None` where `path` has no parent
/// folder or no file name, else the sibling whose name is the file's name
/// followed by the copy suffix.
pub open spec fn copy_path(path: Seq<char>) -> Option<Seq<char>> {
    match (parent_of(path), file_name_of(path)) {
        (Some(folder), Some(name)) => Some(joined(folder, name + copy_suffix())),
        _ => None,
    }
}

/// The path `path` would have after a move into `destination`: `None` where
/// `path` has no file name, else the entry of that name inside `destination`.
pub open spec fn moved_path(path: Seq<char>, destination: Seq<char>) -> Option<Seq<char>> {
    match file_name_of(path) {
        Some(name) => Some(joined(destination, name)),
        None => None,
    }
}

/// The folder and the name under which a file is to be written: the given
/// folder, and the given name followed by `suffix`.
///
/// Fails with `InvalidPath` exactly when the folder or the name is missing.
pub fn target_in(folder: Option<String>, name: Option<String>, suffix: &str) -> (target: Result<
    (String, String),
    MutationError,
>)
    ensures
        match (folder, name) {
            (Some(f), Some(n)) => target matches Ok(parts) && parts.0@ == f@ && parts.1@ == n@
                + suffix@,
            _ => target == Err::<(String, String), MutationError>(MutationError::InvalidPath),
        },
{
    match (folder, name) {
        (Some(folder), Some(name)) => Ok((folder, name.concat(suffix))),
        _ => Err(MutationError::InvalidPath),
    }
}

/// Where the copy of `path` is to be written.
///
/// Fails with `InvalidPath` exactly when `path` has no parent folder or no
/// file name. Nothing is looked up on disk: a file already at the returned
/// path is not noticed here.
pub fn duplicate_target(path: &str) -> (target: Result<String, MutationError>)
    ensures
        match target {
            Ok(t) => copy_path(path@) == Some(t@),
            Err(e) => e == MutationError::InvalidPath && copy_path(path@) is None,
        },
{
    match target_in(parent_folder(path), file_name(path), "_copy") {
        Ok((folder, name)) => Ok(join(folder.as_str(), name.as_str())),
        Err(e) => Err(e),
    }
}

/// Where `path` is to be renamed to when it moves into `destination`.
///
/// Fails with `InvalidPath` exactly when `path` has no file name.
pub fn move_target(path: &str, destination: &str) -> (target: Result<String, MutationError>)
    ensures
        match target {
            Ok(t) => moved_path(path@, destination@) == Some(t@),
            Err(e) => e == MutationError::InvalidPath && moved_path(path@, destination@) is None,
        },
{
    proof {
        reveal_strlit("");
    }
    match target_in(Some(destination.to_owned()), file_name(path), "") {
        Ok((folder, name)) => {
            assert(name@ =~= file_name_of(path@)->0);
            Ok(join(folder.as_str(), name.as_str()))
        },
        Err(e) => Err(e),
    }
}

} // verus!
