//! What the interface shows of a scan session, and the one function through
//! which the session changes.
//!
//! [`DiskVisualizer::update`] never touches the disk. It answers a request
//! with the command the shell is to carry out, and a change on disk reaches
//! the file list only through the shell's report that it was carried out.

use crate::messages::{Command, Message, Screen, Theme};
use crate::paths::{copy_path, duplicate_target, move_target, moved_path};
use crate::records::{
    texts, views, DuplicateGroup, Failure, FileRecord, FileRecordView, FolderAggregate,
    MutationError, ScanError,
};
use crate::scanner::is_scan_order;
use crate::session::{
    consistent, lemma_added_file_is_listed, lemma_removed_path_is_absent, total_bytes,
    without_path, ScanSession, ScanSessionView,
};
use vstd::prelude::*;
use vstd::string::StringExecFns;

verus! {

/// A scan session and what the interface shows of it.
pub struct DiskVisualizer {
    screen: Screen,
    selected_folder: Option<String>,
    session: ScanSession,
    theme: Theme,
    scanning: bool,
}

/// The mathematical value of a [`DiskVisualizer`].
pub struct VisualizerView {
    pub screen: Screen,
    pub selected_folder: Option<Seq<char>>,
    pub session: ScanSessionView,
    pub theme: Theme,
    /// A scan was asked of the shell and has not been reported yet.
    pub scan_in_flight: bool,
}

impl View for DiskVisualizer {
    type V = VisualizerView;

    closed spec fn view(&self) -> VisualizerView {
        VisualizerView {
            screen: self.screen,
            selected_folder: match self.selected_folder {
                Some(folder) => Some(folder@),
                None => None,
            },
            session: self.session@,
            theme: self.theme,
            scan_in_flight: self.scanning,
        }
    }
}

/// The other of the two themes.
pub open spec fn other_theme(theme: Theme) -> Theme {
    match theme {
        Theme::Light => Theme::Dark,
        Theme::Dark => Theme::Light,
    }
}

/// The shell is asked to do nothing.
pub open spec fn idle(reply: Result<Command, Failure>) -> bool {
    reply == Ok::<Command, Failure>(Command::Idle)
}

/// The shell is asked to trash `path`, with `remaining` still to follow.
pub open spec fn asks_to_trash(
    reply: Result<Command, Failure>,
    path: Seq<char>,
    remaining: Seq<Seq<char>>,
) -> bool {
    match reply {
        Ok(Command::Trash { path: p, remaining: r }) => p@ == path && texts(r@) == remaining,
        _ => false,
    }
}

/// The shell is asked to trash the first path of `queue`, with the rest
/// still to follow; or to do nothing, where `queue` is empty.
pub open spec fn asks_for_next(reply: Result<Command, Failure>, queue: Seq<Seq<char>>) -> bool {
    if queue.len() == 0 {
        idle(reply)
    } else {
        asks_to_trash(reply, queue[0], queue.skip(1))
    }
}

/// `post` differs from `pre` at most in the file list and in what is
/// derived from it.
pub open spec fn same_but_files(pre: VisualizerView, post: VisualizerView) -> bool {
    &&& post.screen == pre.screen
    &&& post.selected_folder == pre.selected_folder
    &&& post.theme == pre.theme
    &&& post.scan_in_flight == pre.scan_in_flight
    &&& post.session.populated == pre.session.populated
}

/// What [`DiskVisualizer::update`] makes of `message` in state `pre`: the
/// state `post` it leaves and the `reply` it gives.
pub open spec fn transition(
    pre: VisualizerView,
    message: Message,
    post: VisualizerView,
    reply: Result<Command, Failure>,
) -> bool {
    match message {
        Message::GoTo(screen) => post == (VisualizerView { screen, ..pre }) && idle(reply),
        Message::PickFolder => post == pre && reply == Ok::<Command, Failure>(Command::PickFolder),
        Message::FolderPicked(None) => post == pre && idle(reply),
        Message::FolderPicked(Some(folder)) => if pre.scan_in_flight {
            post == pre && idle(reply)
        } else {
            &&& post == (VisualizerView {
                selected_folder: Some(folder@),
                scan_in_flight: true,
                ..pre
            })
            &&& reply matches Ok(Command::Scan(root)) && root@ == folder@
        },
        Message::ScanCompleted(Err(e)) => {
            &&& post == (VisualizerView { scan_in_flight: false, ..pre })
            &&& reply == Err::<Command, Failure>(Failure::Scan(e))
        },
        Message::ScanCompleted(Ok(found)) => if found.len() == 0 {
            &&& post == (VisualizerView { scan_in_flight: false, ..pre })
            &&& reply == Err::<Command, Failure>(Failure::Scan(ScanError::EmptyOrInaccessible))
        } else {
            &&& is_scan_order(views(found@), post.session.files)
            &&& post.screen == Screen::Visualization
            &&& post.selected_folder == pre.selected_folder
            &&& post.theme == pre.theme
            &&& !post.scan_in_flight
            &&& post.session.populated
            &&& idle(reply)
        },
        Message::DeleteFile(path) => post == pre && if pre.scan_in_flight {
            idle(reply)
        } else {
            asks_to_trash(reply, path@, Seq::empty())
        },
        Message::DeleteDuplicates(paths) => post == pre && if pre.scan_in_flight {
            idle(reply)
        } else {
            asks_for_next(reply, texts(paths@))
        },
        Message::FileTrashed { path, remaining, outcome: Ok(_) } => {
            &&& same_but_files(pre, post)
            &&& post.session.files == without_path(pre.session.files, path@)
            &&& if pre.scan_in_flight {
                idle(reply)
            } else {
                asks_for_next(reply, texts(remaining@))
            }
        },
        Message::FileTrashed { path, remaining, outcome: Err(e) } => {
            post == pre && reply == Err::<Command, Failure>(Failure::Mutation(e))
        },
        Message::MakeDuplicate(path) => post == pre && if pre.scan_in_flight {
            idle(reply)
        } else {
            match copy_path(path@) {
                Some(target) => reply matches Ok(Command::Copy { from, to }) && from@ == path@
                    && to@ == target,
                None => reply == Err::<Command, Failure>(
                    Failure::Mutation(MutationError::InvalidPath),
                ),
            }
        },
        Message::FileCopied { copied: Ok(copy) } => {
            &&& same_but_files(pre, post)
            &&& post.session.files == pre.session.files.push(copy@)
            &&& idle(reply)
        },
        Message::FileCopied { copied: Err(e) } => {
            post == pre && reply == Err::<Command, Failure>(Failure::Mutation(e))
        },
        Message::MoveFile(path) => {
            &&& post == pre
            &&& reply matches Ok(Command::PickDestination(file)) && file@ == path@
        },
        Message::MoveDestinationPicked(path, None) => post == pre && idle(reply),
        Message::MoveDestinationPicked(path, Some(folder)) => post == pre
            && if pre.scan_in_flight {
            idle(reply)
        } else {
            match moved_path(path@, folder@) {
                Some(target) => reply matches Ok(Command::Rename { from, to }) && from@ == path@
                    && to@ == target,
                None => reply == Err::<Command, Failure>(
                    Failure::Mutation(MutationError::InvalidPath),
                ),
            }
        },
        Message::FileMoved { path, outcome: Ok(_) } => {
            &&& same_but_files(pre, post)
            &&& post.session.files == without_path(pre.session.files, path@)
            &&& idle(reply)
        },
        Message::FileMoved { path, outcome: Err(e) } => {
            post == pre && reply == Err::<Command, Failure>(Failure::Mutation(e))
        },
        Message::ViewDuplicates => {
            post == (VisualizerView { screen: Screen::Duplicates, ..pre }) && idle(reply)
        },
        Message::ToggleTheme => {
            post == (VisualizerView { theme: other_theme(pre.theme), ..pre }) && idle(reply)
        },
        Message::ExitApp => post == pre && reply == Ok::<Command, Failure>(Command::Exit),
    }
}

/// After the report that the file at `path` was trashed or moved, no listed
/// file is at `path`, and every file at another path is still listed.
pub proof fn lemma_absent_after_removal(
    pre: VisualizerView,
    message: Message,
    post: VisualizerView,
    reply: Result<Command, Failure>,
    path: Seq<char>,
)
    requires
        transition(pre, message, post, reply),
        match message {
            Message::FileTrashed { path: p, outcome: Ok(_), .. } => p@ == path,
            Message::FileMoved { path: p, outcome: Ok(_) } => p@ == path,
            _ => false,
        },
    ensures
        forall|k: int|
            0 <= k < post.session.files.len() ==> (#[trigger] post.session.files[k]).path != path,
        forall|i: int|
            0 <= i < pre.session.files.len() && (#[trigger] pre.session.files[i]).path != path
                ==> post.session.files.contains(pre.session.files[i]),
{
    lemma_removed_path_is_absent(pre.session.files, path);
}

/// After the report that a copy was made, the copy is listed, and every file
/// listed before is still listed, at the place it had.
pub proof fn lemma_listed_after_copy(
    pre: VisualizerView,
    message: Message,
    post: VisualizerView,
    reply: Result<Command, Failure>,
    copy: FileRecordView,
)
    requires
        transition(pre, message, post, reply),
        message matches Message::FileCopied { copied: Ok(c) } && c@ == copy,
    ensures
        post.session.files.contains(copy),
        post.session.files.len() == pre.session.files.len() + 1,
        forall|i: int|
            0 <= i < pre.session.files.len() ==> #[trigger] post.session.files[i]
                == pre.session.files[i],
{
    lemma_added_file_is_listed(pre.session.files, copy);
}

/// After a failure was reported, the session is as it was before.
pub proof fn lemma_unchanged_after_failure(
    pre: VisualizerView,
    message: Message,
    post: VisualizerView,
    reply: Result<Command, Failure>,
)
    requires
        transition(pre, message, post, reply),
        match message {
            Message::ScanCompleted(Err(_)) => true,
            Message::ScanCompleted(Ok(found)) => found.len() == 0,
            Message::FileTrashed { outcome: Err(_), .. } => true,
            Message::FileCopied { copied: Err(_) } => true,
            Message::FileMoved { outcome: Err(_), .. } => true,
            _ => false,
        },
    ensures
        post.session == pre.session,
        reply is Err,
{
}

/// The command that trashes the first path of `queue` and carries the rest.
fn next_trash(queue: Vec<String>) -> (command: Command)
    ensures
        asks_for_next(Ok(command), texts(queue@)),
{
    let mut queue = queue;
    let ghost all = texts(queue@);
    if queue.len() == 0 {
        Command::Idle
    } else {
        let path = queue.remove(0);
        assert(texts(queue@) =~= all.skip(1));
        Command::Trash { path, remaining: queue }
    }
}

impl DiskVisualizer {
    /// A visualizer with an empty session, showing the home screen in the
    /// light theme.
    pub fn new() -> (fresh: DiskVisualizer)
        ensures
            fresh@.screen == Screen::Home,
            fresh@.selected_folder is None,
            fresh@.session.files.len() == 0,
            fresh@.session.folders.len() == 0,
            fresh@.session.duplicates.len() == 0,
            !fresh@.session.populated,
            fresh@.theme == Theme::Light,
            !fresh@.scan_in_flight,
    {
        DiskVisualizer {
            screen: Screen::Home,
            selected_folder: None,
            session: ScanSession::new(),
            theme: Theme::Light,
            scanning: false,
        }
    }

    /// The title of the window.
    pub fn title(&self) -> (title: String)
        ensures
            title@ == "Disk Usage Visualizer"@,
    {
        String::from_str("Disk Usage Visualizer")
    }

    /// The screen to show.
    pub fn screen(&self) -> (screen: Screen)
        ensures
            screen == self@.screen,
    {
        self.screen
    }

    /// The theme to show it in.
    pub fn theme(&self) -> (theme: Theme)
        ensures
            theme == self@.theme,
    {
        self.theme
    }

    /// The folder last chosen for a scan.
    pub fn selected_folder(&self) -> (folder: &Option<String>)
        ensures
            match *folder {
                Some(f) => self@.selected_folder == Some(f@),
                None => self@.selected_folder is None,
            },
    {
        &self.selected_folder
    }

    /// The session.
    pub fn session(&self) -> (session: &ScanSession)
        ensures
            session@ == self@.session,
    {
        &self.session
    }

    /// The file list of the session.
    pub fn files(&self) -> (files: &Vec<FileRecord>)
        ensures
            views(files@) == self@.session.files,
    {
        self.session.files()
    }

    /// The folder totals of the session, largest first.
    pub fn folders(&self) -> (folders: &Vec<FolderAggregate>)
        ensures
            views(folders@) == self@.session.folders,
    {
        self.session.folders()
    }

    /// The duplicate groups of the session.
    pub fn duplicates(&self) -> (duplicates: &Vec<DuplicateGroup>)
        ensures
            views(duplicates@) == self@.session.duplicates,
    {
        self.session.duplicates()
    }

    /// The bytes of all listed files together.
    pub fn total_size(&self) -> (total: u128)
        ensures
            total == total_bytes(self@.session.files),
    {
        self.session.total_size()
    }

    /// Whether a scan has been loaded.
    pub fn is_populated(&self) -> (populated: bool)
        ensures
            populated == self@.session.populated,
    {
        self.session.is_populated()
    }

    /// Whether a scan is under way.
    pub fn is_scanning(&self) -> (scanning: bool)
        ensures
            scanning == self@.scan_in_flight,
    {
        self.scanning
    }

    /// Takes in a message and says what the shell is to do next.
    ///
    /// A request that needs work on disk changes nothing here: it is answered
    /// with the command for that work, or with `InvalidPath` where the path
    /// allows none. The file list changes when the shell reports that the
    /// work was done: a trashed or moved file leaves the list, a copy joins
    /// it at the end, a finished scan replaces it. A reported failure is
    /// returned as it is and changes nothing; of a batch of deletions the
    /// files trashed before the failure stay removed and those after it are
    /// not attempted. While a scan is under way, a second scan and every
    /// change on disk are refused with [`Command::Idle`].
    pub fn update(&mut self, message: Message) -> (reply: Result<Command, Failure>)
        ensures
            transition(old(self)@, message, final(self)@, reply),
            consistent(final(self)@.session),
    {
        proof {
            use_type_invariant(&self.session);
        }
        match message {
            Message::GoTo(screen) => {
                self.screen = screen;
                Ok(Command::Idle)
            },
            Message::PickFolder => Ok(Command::PickFolder),
            Message::FolderPicked(None) => Ok(Command::Idle),
            Message::FolderPicked(Some(folder)) => {
                if self.scanning {
                    Ok(Command::Idle)
                } else {
                    self.selected_folder = Some(folder.clone());
                    self.scanning = true;
                    Ok(Command::Scan(folder))
                }
            },
            Message::ScanCompleted(outcome) => {
                self.scanning = false;
                match self.session.load_scan(outcome) {
                    Ok(_) => {
                        self.screen = Screen::Visualization;
                        Ok(Command::Idle)
                    },
                    Err(e) => Err(Failure::Scan(e)),
                }
            },
            Message::DeleteFile(path) => {
                if self.scanning {
                    Ok(Command::Idle)
                } else {
                    let remaining: Vec<String> = Vec::new();
                    assert(texts(remaining@) =~= Seq::<Seq<char>>::empty());
                    Ok(Command::Trash { path, remaining })
                }
            },
            Message::DeleteDuplicates(paths) => {
                if self.scanning {
                    Ok(Command::Idle)
                } else {
                    Ok(next_trash(paths))
                }
            },
            Message::FileTrashed { path, remaining, outcome } => {
                match outcome {
                    Ok(_) => {
                        self.session.remove(&path);
                        if self.scanning {
                            Ok(Command::Idle)
                        } else {
                            Ok(next_trash(remaining))
                        }
                    },
                    Err(e) => Err(Failure::Mutation(e)),
                }
            },
            Message::MakeDuplicate(path) => {
                if self.scanning {
                    Ok(Command::Idle)
                } else {
                    match duplicate_target(path.as_str()) {
                        Ok(to) => Ok(Command::Copy { from: path, to }),
                        Err(e) => Err(Failure::Mutation(e)),
                    }
                }
            },
            Message::FileCopied { copied } => {
                match copied {
                    Ok(copy) => {
                        self.session.add(copy);
                        Ok(Command::Idle)
                    },
                    Err(e) => Err(Failure::Mutation(e)),
                }
            },
            Message::MoveFile(path) => Ok(Command::PickDestination(path)),
            Message::MoveDestinationPicked(path, None) => Ok(Command::Idle),
            Message::MoveDestinationPicked(path, Some(folder)) => {
                if self.scanning {
                    Ok(Command::Idle)
                } else {
                    match move_target(path.as_str(), folder.as_str()) {
                        Ok(to) => Ok(Command::Rename { from: path, to }),
                        Err(e) => Err(Failure::Mutation(e)),
                    }
                }
            },
            Message::FileMoved { path, outcome } => {
                match outcome {
                    Ok(_) => {
                        self.session.remove(&path);
                        Ok(Command::Idle)
                    },
                    Err(e) => Err(Failure::Mutation(e)),
                }
            },
            Message::ViewDuplicates => {
                self.screen = Screen::Duplicates;
                Ok(Command::Idle)
            },
            Message::ToggleTheme => {
                self.theme = match self.theme {
                    Theme::Light => Theme::Dark,
                    Theme::Dark => Theme::Light,
                };
                Ok(Command::Idle)
            },
            Message::ExitApp => Ok(Command::Exit),
        }
    }
}

} // verus!
