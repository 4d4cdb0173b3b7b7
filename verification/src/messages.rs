//! What the interface and the shell tell the session, and what the session
//! asks the shell to do.
//!
//! The session never touches the disk. It answers each message with a
//! command; the shell carries the command out and reports back with the
//! message named at the command.

use crate::records::{clone_strings, FileRecord, MutationError, ScanError};
use vstd::prelude::*;

verus! {

/// The screen the interface is showing.
#[derive(Debug, Clone, Copy, PartialEq, Eq, Structural)]
pub enum Screen {
    Home,
    FolderSelect,
    Visualization,
    Duplicates,
}

/// The colours of the interface.
#[derive(Debug, Clone, Copy, PartialEq, Eq, Structural)]
pub enum Theme {
    Light,
    Dark,
}

/// A request from the interface, or the shell's report on a command.
#[derive(Debug, PartialEq, Eq)]
pub enum Message {
    /// Show this screen.
    GoTo(Screen),
    /// The user wants to choose the folder to scan.
    PickFolder,
    /// The folder the user chose, or `None` if the dialog was cancelled.
    FolderPicked(Option<String>),
    /// A scan has ended: the files it found, in the order found, or why the
    /// root could not be walked.
    ScanCompleted(Result<Vec<FileRecord>, ScanError>),
    /// The user wants this file deleted.
    DeleteFile(String),
    /// The user wants these files deleted, one after the other.
    DeleteDuplicates(Vec<String>),
    /// The user wants a copy of this file beside it.
    MakeDuplicate(String),
    /// The user wants to move this file and has yet to say where.
    MoveFile(String),
    /// The folder the user chose for the file to move into, or `None` if
    /// the dialog was cancelled.
    MoveDestinationPicked(String, Option<String>),
    /// The user wants to leave.
    ExitApp,
    /// Show the duplicate groups.
    ViewDuplicates,
    /// Switch between the light and the dark theme.
    ToggleTheme,
    /// The report on [`Command::Trash`], with the command's `path` and
    /// `remaining`.
    FileTrashed { path: String, remaining: Vec<String>, outcome: Result<(), MutationError> },
    /// The report on [`Command::Copy`]: the copy as it now lies on disk.
    FileCopied { copied: Result<FileRecord, MutationError> },
    /// The report on [`Command::Rename`], with the command's `from`.
    FileMoved { path: String, outcome: Result<(), MutationError> },
}

/// What the shell is to do next.
#[derive(Debug, PartialEq, Eq)]
pub enum Command {
    /// Nothing.
    Idle,
    /// Let the user choose a folder; report with [`Message::FolderPicked`].
    PickFolder,
    /// Walk this folder and hash the files in it; report with
    /// [`Message::ScanCompleted`].
    Scan(String),
    /// Move `path` to the trash; report with [`Message::FileTrashed`].
    Trash { path: String, remaining: Vec<String> },
    /// Copy the bytes of `from` to `to`, then measure and hash the copy;
    /// report with [`Message::FileCopied`].
    Copy { from: String, to: String },
    /// Let the user choose the folder this file moves into; report with
    /// [`Message::MoveDestinationPicked`].
    PickDestination(String),
    /// Rename `from` to `to`; report with [`Message::FileMoved`].
    Rename { from: String, to: String },
    /// End the process.
    Exit,
}

impl Clone for Message {
    fn clone(&self) -> (copy: Message) {
        match self {
            Message::GoTo(screen) => Message::GoTo(*screen),
            Message::PickFolder => Message::PickFolder,
            Message::FolderPicked(folder) => Message::FolderPicked(folder.clone()),
            Message::ScanCompleted(outcome) => Message::ScanCompleted(
                match outcome {
                    Ok(found) => Ok(found.clone()),
                    Err(e) => Err(*e),
                },
            ),
            Message::DeleteFile(path) => Message::DeleteFile(path.clone()),
            Message::DeleteDuplicates(paths) => Message::DeleteDuplicates(clone_strings(paths)),
            Message::MakeDuplicate(path) => Message::MakeDuplicate(path.clone()),
            Message::MoveFile(path) => Message::MoveFile(path.clone()),
            Message::MoveDestinationPicked(path, folder) => Message::MoveDestinationPicked(
                path.clone(),
                folder.clone(),
            ),
            Message::ExitApp => Message::ExitApp,
            Message::ViewDuplicates => Message::ViewDuplicates,
            Message::ToggleTheme => Message::ToggleTheme,
            Message::FileTrashed { path, remaining, outcome } => Message::FileTrashed {
                path: path.clone(),
                remaining: clone_strings(remaining),
                outcome: *outcome,
            },
            Message::FileCopied { copied } => Message::FileCopied {
                copied: match copied {
                    Ok(copy) => Ok(copy.clone()),
                    Err(e) => Err(*e),
                },
            },
            Message::FileMoved { path, outcome } => Message::FileMoved {
                path: path.clone(),
                outcome: *outcome,
            },
        }
    }
}

} // verus!
