//! The scan session: the authoritative file list together with the folder
//! totals and duplicate groups derived from it.
//!
//! The derived views are never patched. Whenever the list changes they are
//! computed anew from the whole list, and no value of [`ScanSession`] exists
//! in which they differ from what the list says.

use crate::aggregate::{aggregate_folder_sizes, is_aggregation, placements};
use crate::duplicates::{find_duplicates, is_duplicate_report, lemma_same_hash_same_group};
use crate::records::{
    views, DuplicateGroup, DuplicateGroupView, FileRecord, FileRecordView, FolderAggregate,
    FolderAggregateView, ScanError,
};
use crate::scanner::{complete_scan, is_scan_order};
use vstd::prelude::*;

verus! {

/// The file list of a scan and what is derived from it.
pub struct ScanSession {
    files: Vec<FileRecord>,
    folders: Vec<FolderAggregate>,
    duplicates: Vec<DuplicateGroup>,
    populated: bool,
}

/// The mathematical value of a [`ScanSession`].
pub struct ScanSessionView {
    /// The authoritative file list.
    pub files: Seq<FileRecordView>,
    pub folders: Seq<FolderAggregateView>,
    pub duplicates: Seq<DuplicateGroupView>,
    /// A scan has been loaded.
    pub populated: bool,
}

impl View for ScanSession {
    type V = ScanSessionView;

    closed spec fn view(&self) -> ScanSessionView {
        ScanSessionView {
            files: views(self.files@),
            folders: views(self.folders@),
            duplicates: views(self.duplicates@),
            populated: self.populated,
        }
    }
}

/// The folder totals and the duplicate groups are those of the file list.
pub open spec fn consistent(session: ScanSessionView) -> bool {
    &&& is_aggregation(placements(session.files), session.folders)
    &&& is_duplicate_report(session.files, session.duplicates)
}

/// Whether a file is at another path than `path`.
pub open spec fn not_at(path: Seq<char>) -> spec_fn(FileRecordView) -> bool {
    |file: FileRecordView| file.path != path
}

/// The files that are not at `path`, in the order of `files`.
pub open spec fn without_path(files: Seq<FileRecordView>, path: Seq<char>) -> Seq<FileRecordView> {
    files.filter(not_at(path))
}

/// The sum of the sizes of `files`.
pub open spec fn total_bytes(files: Seq<FileRecordView>) -> nat
    decreases files.len(),
{
    if files.len() == 0 {
        0
    } else {
        total_bytes(files.drop_last()) + files.last().size
    }
}

/// After the files at `path` are taken out, no file is at `path`, every
/// file at another path is still listed, and nothing is listed that was not
/// listed before.
pub proof fn lemma_removed_path_is_absent(files: Seq<FileRecordView>, path: Seq<char>)
    ensures
        forall|k: int|
            0 <= k < without_path(files, path).len() ==> (#[trigger] without_path(
                files,
                path,
            )[k]).path != path,
        forall|i: int|
            0 <= i < files.len() && (#[trigger] files[i]).path != path ==> without_path(
                files,
                path,
            ).contains(files[i]),
        forall|k: int|
            0 <= k < without_path(files, path).len() ==> files.contains(
                #[trigger] without_path(files, path)[k],
            ),
{
    let rest = without_path(files, path);
    assert forall|k: int| 0 <= k < rest.len() implies (#[trigger] rest[k]).path != path
        && files.contains(rest[k]) by {
        files.lemma_filter_pred(not_at(path), k);
        assert(rest.contains(rest[k]));
        files.lemma_filter_contains_rev(not_at(path), rest[k]);
    }
    assert forall|i: int| 0 <= i < files.len() && (#[trigger] files[i]).path
        != path implies rest.contains(files[i]) by {
        files.lemma_filter_contains(not_at(path), i);
    }
}

/// After a file is added, it is listed, and every file listed before is
/// still listed, at the place it had.
pub proof fn lemma_added_file_is_listed(files: Seq<FileRecordView>, file: FileRecordView)
    ensures
        files.push(file).contains(file),
        forall|i: int| 0 <= i < files.len() ==> #[trigger] files.push(file)[i] == files[i],
{
    assert(files.push(file)[files.len() as int] == file);
}

/// Where a copy with the same digest as a listed file has been added at the
/// end of the list, the duplicate groups of the longer list hold one group
/// with both paths.
pub proof fn lemma_copy_joins_original(
    files: Seq<FileRecordView>,
    copy: FileRecordView,
    groups: Seq<DuplicateGroupView>,
    i: int,
)
    requires
        is_duplicate_report(files.push(copy), groups),
        0 <= i < files.len(),
        files[i].digest is Some,
        files[i].digest == copy.digest,
    ensures
        exists|g: int|
            0 <= g < groups.len() && (#[trigger] groups[g]).hash == copy.digest->0
                && groups[g].members.contains(files[i].path) && groups[g].members.contains(
                copy.path,
            ),
{
    lemma_same_hash_same_group(files.push(copy), groups, i, files.len() as int);
}

/// Takes the records at `path` out of `files`.
fn remove_path(files: &mut Vec<FileRecord>, path: &String)
    ensures
        views(final(files)@) == without_path(views(old(files)@), path@),
{
    let ghost original = views(files@);
    let ghost mut k: int = 0;
    let mut i: usize = 0;
    proof {
        reveal(Seq::filter);
        assert(original.take(0) =~= Seq::<FileRecordView>::empty());
        assert(views(files@).take(0) =~= without_path(original.take(0), path@));
        assert(views(files@).skip(0) =~= original.skip(0));
    }
    while i < files.len()
        invariant
            i <= files.len(),
            0 <= k <= original.len(),
            files.len() - i == original.len() - k,
            views(files@).take(i as int) == without_path(original.take(k), path@),
            views(files@).skip(i as int) == original.skip(k),
        decreases files.len() - i,
    {
        let ghost current = views(files@);
        proof {
            assert(current[i as int] == current.skip(i as int)[0]);
            assert(current[i as int] == original[k]);
            assert(original.take(k + 1) =~= original.take(k).push(original[k]));
            original.take(k).lemma_filter_push(original[k], not_at(path@));
        }
        if files[i].path == *path {
            files.remove(i);
            proof {
                let after = views(files@);
                assert(after =~= current.remove(i as int));
                assert(after.take(i as int) =~= current.take(i as int));
                assert(after.skip(i as int) =~= current.skip(i as int).skip(1));
                assert(original.skip(k).skip(1) =~= original.skip(k + 1));
                k = k + 1;
            }
        } else {
            proof {
                assert(current.take(i + 1) =~= current.take(i as int).push(current[i as int]));
                assert(current.skip(i + 1) =~= current.skip(i as int).skip(1));
                assert(original.skip(k).skip(1) =~= original.skip(k + 1));
                k = k + 1;
            }
            i += 1;
        }
    }
    proof {
        assert(views(files@).take(i as int) =~= views(files@));
        assert(original.take(k) =~= original);
    }
}

impl ScanSession {
    /// Holds of every session: what is derived is derived from the list.
    #[verifier::type_invariant]
    pub open spec fn derived_from_files(&self) -> bool {
        consistent(self@)
    }

    /// The session that lists `files` as they stand.
    fn of(files: Vec<FileRecord>, populated: bool) -> (session: ScanSession)
        ensures
            session@.files == views(files@),
            session@.populated == populated,
            consistent(session@),
    {
        let folders = aggregate_folder_sizes(files.as_slice());
        let duplicates = find_duplicates(files.as_slice());
        ScanSession { files, folders, duplicates, populated }
    }

    /// The file list, given up by the session.
    fn into_files(self) -> (files: Vec<FileRecord>)
        ensures
            views(files@) == self@.files,
    {
        self.files
    }

    /// Takes the file list out of the session, which is left empty.
    fn take_files(&mut self) -> (files: Vec<FileRecord>)
        ensures
            views(files@) == old(self)@.files,
    {
        let mut taken = ScanSession::of(Vec::new(), self.populated);
        proof {
            use_type_invariant(&*self);
            use_type_invariant(&taken);
        }
        std::mem::swap(self, &mut taken);
        taken.into_files()
    }

    /// The session into which no scan has been loaded.
    pub fn new() -> (session: ScanSession)
        ensures
            session@.files.len() == 0,
            session@.folders.len() == 0,
            session@.duplicates.len() == 0,
            !session@.populated,
            consistent(session@),
    {
        let session = ScanSession::of(Vec::new(), false);
        proof {
            if session@.folders.len() > 0 {
                assert(crate::aggregate::holds_a_file(
                    placements(session@.files),
                    session@.folders[0].folder,
                ));
            }
            if session@.duplicates.len() > 0 {
                reveal(Seq::filter);
                assert(session@.duplicates[0].members.len() >= 2);
            }
        }
        session
    }

    /// Loads what a finished walk reports.
    ///
    /// Where the walk failed or found no file, the failure is returned and
    /// the session stays as it was. Otherwise the files found replace the
    /// list, largest first and files of equal size in the order found, and
    /// the session is populated.
    pub fn load_scan(&mut self, outcome: Result<Vec<FileRecord>, ScanError>) -> (loaded: Result<
        (),
        ScanError,
    >)
        ensures
            consistent(final(self)@),
            match outcome {
                Err(e) => loaded == Err::<(), ScanError>(e) && final(self)@ == old(self)@,
                Ok(found) => if found.len() == 0 {
                    loaded == Err::<(), ScanError>(ScanError::EmptyOrInaccessible) && final(self)@
                        == old(self)@
                } else {
                    &&& loaded is Ok
                    &&& is_scan_order(views(found@), final(self)@.files)
                    &&& final(self)@.populated
                },
            },
    {
        proof {
            use_type_invariant(&*self);
        }
        match complete_scan(outcome) {
            Ok(files) => {
                *self = ScanSession::of(files, true);
                Ok(())
            },
            Err(e) => Err(e),
        }
    }

    /// Takes the files at `path` out of the list.
    pub fn remove(&mut self, path: &String)
        ensures
            consistent(final(self)@),
            final(self)@.files == without_path(old(self)@.files, path@),
            final(self)@.populated == old(self)@.populated,
    {
        let populated = self.populated;
        let mut files = self.take_files();
        remove_path(&mut files, path);
        *self = ScanSession::of(files, populated);
    }

    /// Adds `file` at the end of the list.
    pub fn add(&mut self, file: FileRecord)
        ensures
            consistent(final(self)@),
            final(self)@.files == old(self)@.files.push(file@),
            final(self)@.populated == old(self)@.populated,
    {
        let populated = self.populated;
        let mut files = self.take_files();
        let ghost before = views(files@);
        files.push(file);
        assert(views(files@) =~= before.push(file@));
        *self = ScanSession::of(files, populated);
    }

    /// The file list.
    pub fn files(&self) -> (files: &Vec<FileRecord>)
        ensures
            views(files@) == self@.files,
    {
        &self.files
    }

    /// The total of each folder that holds files, largest first.
    pub fn folders(&self) -> (folders: &Vec<FolderAggregate>)
        ensures
            views(folders@) == self@.folders,
            is_aggregation(placements(self@.files), self@.folders),
    {
        proof {
            use_type_invariant(self);
        }
        &self.folders
    }

    /// The groups of files with identical contents.
    pub fn duplicates(&self) -> (duplicates: &Vec<DuplicateGroup>)
        ensures
            views(duplicates@) == self@.duplicates,
            is_duplicate_report(self@.files, self@.duplicates),
    {
        proof {
            use_type_invariant(self);
        }
        &self.duplicates
    }

    /// Whether a scan has been loaded.
    pub fn is_populated(&self) -> (populated: bool)
        ensures
            populated == self@.populated,
    {
        self.populated
    }

    /// The bytes of all listed files together.
    pub fn total_size(&self) -> (total: u128)
        ensures
            total == total_bytes(self@.files),
    {
        let ghost all = views(self.files@);
        let mut total: u128 = 0;
        let mut i: usize = 0;
        while i < self.files.len()
            invariant
                i <= self.files.len(),
                all == views(self.files@),
                total == total_bytes(all.take(i as int)),
                total <= i * u64::MAX,
            decreases self.files.len() - i,
        {
            proof {
                assert(all.take(i + 1).drop_last() =~= all.take(i as int));
                assert(i * u64::MAX + u64::MAX <= u128::MAX) by (nonlinear_arith)
                    requires
                        i <= u64::MAX,
                ;
            }
            total = total + self.files[i].size as u128;
            i += 1;
        }
        proof {
            assert(all.take(i as int) =~= all);
        }
        total
    }
}

} // verus!
