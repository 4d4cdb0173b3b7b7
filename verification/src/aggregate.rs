//! Storage use per folder: every file counts towards the folder that
//! directly holds it.

use crate::ordering::{
    descending, has_weight, lemma_filter_keeps_order, lemma_filter_places, of_weight,
    sort_descending, Weighted,
};
use crate::paths::{parent_folder, parent_of};
use crate::records::{
    lemma_met_before_one_way, lemma_met_before_push, lemma_same_items_same_order, met_before,
    views, FileRecord, FileRecordView, FolderAggregate, FolderAggregateView,
};
use vstd::prelude::*;

verus! {

impl Weighted for FolderAggregate {
    open spec fn weight(&self) -> nat {
        self.total_size as nat
    }

    fn weigh(&self) -> (w: u128) {
        self.total_size
    }

    fn replica(&self) -> (copy: FolderAggregate) {
        self.clone()
    }
}

/// A file as the aggregation sees it: the folder that directly holds it, if
/// its path has one, and its size.
#[derive(Debug, PartialEq, Eq)]
pub struct PlacedFile {
    pub folder: Option<String>,
    pub size: u64,
}

/// The mathematical value of a [`PlacedFile`].
pub struct PlacedFileView {
    pub folder: Option<Seq<char>>,
    pub size: nat,
}

impl View for PlacedFile {
    type V = PlacedFileView;

    open spec fn view(&self) -> PlacedFileView {
        PlacedFileView {
            folder: match self.folder {
                Some(folder) => Some(folder@),
                None => None,
            },
            size: self.size as nat,
        }
    }
}

/// Each file of `files` with the folder that directly holds it.
pub open spec fn placements(files: Seq<FileRecordView>) -> Seq<PlacedFileView> {
    files.map_values(
        |file: FileRecordView| PlacedFileView { folder: parent_of(file.path), size: file.size },
    )
}

/// Whether `folder` is the folder that directly holds `file`.
pub open spec fn lies_in(file: PlacedFileView, folder: Seq<char>) -> bool {
    file.folder == Some(folder)
}

/// The sum of the sizes of the files that lie directly in `folder`.
pub open spec fn folder_total(files: Seq<PlacedFileView>, folder: Seq<char>) -> nat
    decreases files.len(),
{
    if files.len() == 0 {
        0
    } else if lies_in(files.last(), folder) {
        folder_total(files.drop_last(), folder) + files.last().size
    } else {
        folder_total(files.drop_last(), folder)
    }
}

/// Whether at least one file lies directly in `folder`.
pub open spec fn holds_a_file(files: Seq<PlacedFileView>, folder: Seq<char>) -> bool {
    exists|k: int| 0 <= k < files.len() && lies_in(#[trigger] files[k], folder)
}

/// Whether `folder` has an entry in `folders`.
pub open spec fn listed(folders: Seq<FolderAggregateView>, folder: Seq<char>) -> bool {
    exists|i: int| 0 <= i < folders.len() && (#[trigger] folders[i]).folder == folder
}

/// `folders` has one entry for each folder that directly holds a file of
/// `files`, none for any other folder, and each entry carries the exact sum
/// of the sizes of the files in its folder.
pub open spec fn tallies(files: Seq<PlacedFileView>, folders: Seq<FolderAggregateView>) -> bool {
    &&& forall|i: int|
        0 <= i < folders.len() ==> holds_a_file(files, (#[trigger] folders[i]).folder)
    &&& forall|i: int|
        0 <= i < folders.len() ==> (#[trigger] folders[i]).total_size == folder_total(
            files,
            folders[i].folder,
        )
    &&& forall|i: int, j: int|
        0 <= i < j < folders.len() ==> (#[trigger] folders[i]).folder != (
        #[trigger] folders[j]).folder
    &&& forall|k: int|
        0 <= k < files.len() ==> match (#[trigger] files[k]).folder {
            Some(folder) => listed(folders, folder),
            None => true,
        }
}

/// For each file the folder that directly holds it, if any.
pub open spec fn folders_of(files: Seq<PlacedFileView>) -> Seq<Option<Seq<char>>> {
    files.map_values(|file: PlacedFileView| file.folder)
}

/// The entries stand in the order in which their folders are first met in
/// `files`.
pub open spec fn as_met(files: Seq<PlacedFileView>, folders: Seq<FolderAggregateView>) -> bool {
    forall|t: int, u: int|
        #![trigger folders[t], folders[u]]
        0 <= t < u < folders.len() ==> met_before(
            folders_of(files),
            folders[t].folder,
            folders[u].folder,
        )
}

/// Entries with equal totals stand in the order in which their folders are
/// first met in `files`.
pub open spec fn ties_as_met(
    files: Seq<PlacedFileView>,
    folders: Seq<FolderAggregateView>,
) -> bool {
    forall|i: int, j: int|
        #![trigger folders[i], folders[j]]
        0 <= i < j < folders.len() && folders[i].total_size == folders[j].total_size
            ==> met_before(folders_of(files), folders[i].folder, folders[j].folder)
}

/// No entry stands before one with a larger total.
pub open spec fn largest_total_first(folders: Seq<FolderAggregateView>) -> bool {
    forall|i: int, j: int|
        0 <= i < j < folders.len() ==> folders[i].total_size >= folders[j].total_size
}

/// `folders` is the aggregation of `files`: the folders that hold files, each
/// once and with its exact total, largest total first, and folders of equal
/// total in the order in which they are first met in `files`.
pub open spec fn is_aggregation(
    files: Seq<PlacedFileView>,
    folders: Seq<FolderAggregateView>,
) -> bool {
    &&& tallies(files, folders)
    &&& largest_total_first(folders)
    &&& ties_as_met(files, folders)
}

/// One more file adds its size to the total of the folder it lies in and
/// leaves every other total as it was.
pub proof fn lemma_total_push(files: Seq<PlacedFileView>, file: PlacedFileView, folder: Seq<char>)
    ensures
        folder_total(files.push(file), folder) == if lies_in(file, folder) {
            folder_total(files, folder) + file.size
        } else {
            folder_total(files, folder)
        },
{
    assert(files.push(file).drop_last() =~= files);
}

/// A folder in which no file lies has total zero.
pub proof fn lemma_total_of_unused_folder(files: Seq<PlacedFileView>, folder: Seq<char>)
    requires
        !holds_a_file(files, folder),
    ensures
        folder_total(files, folder) == 0,
    decreases files.len(),
{
    if files.len() > 0 {
        assert(!lies_in(files[files.len() - 1], folder));
        assert forall|k: int| 0 <= k < files.drop_last().len() implies !lies_in(
            #[trigger] files.drop_last()[k],
            folder,
        ) by {
            assert(!lies_in(files[k], folder));
        }
        lemma_total_of_unused_folder(files.drop_last(), folder);
    }
}

/// A total is at most the number of files times the largest size a file
/// can have.
pub proof fn lemma_total_bound(files: Seq<PlacedFileView>, folder: Seq<char>)
    requires
        forall|k: int| 0 <= k < files.len() ==> (#[trigger] files[k]).size <= u64::MAX,
    ensures
        folder_total(files, folder) <= files.len() * u64::MAX,
    decreases files.len(),
{
    if files.len() > 0 {
        assert forall|k: int| 0 <= k < files.drop_last().len() implies (
        #[trigger] files.drop_last()[k]).size <= u64::MAX by {
            assert(files[k].size <= u64::MAX);
        }
        lemma_total_bound(files.drop_last(), folder);
        assert(files.last().size <= u64::MAX);
    }
}

/// Every entry of one aggregation of `files` is an entry of every other.
proof fn lemma_entry_is_in_every_aggregation(
    files: Seq<PlacedFileView>,
    first: Seq<FolderAggregateView>,
    second: Seq<FolderAggregateView>,
    entry: FolderAggregateView,
)
    requires
        is_aggregation(files, first),
        is_aggregation(files, second),
        first.contains(entry),
    ensures
        second.contains(entry),
{
    let i = choose|i: int| 0 <= i < first.len() && first[i] == entry;
    assert(holds_a_file(files, first[i].folder));
    let k = choose|k: int| 0 <= k < files.len() && lies_in(#[trigger] files[k], entry.folder);
    assert(listed(second, entry.folder));
    let j = choose|j: int| 0 <= j < second.len() && (#[trigger] second[j]).folder == entry.folder;
    assert(second[j].total_size == folder_total(files, entry.folder));
    assert(first[i].total_size == folder_total(files, entry.folder));
    assert(second[j] == entry);
}

/// A list of placed files has one aggregation and no other.
pub proof fn lemma_aggregation_is_unique(
    files: Seq<PlacedFileView>,
    first: Seq<FolderAggregateView>,
    second: Seq<FolderAggregateView>,
)
    requires
        is_aggregation(files, first),
        is_aggregation(files, second),
    ensures
        first == second,
{
    let goes_before = |x: FolderAggregateView, y: FolderAggregateView|
        x.total_size > y.total_size || (x.total_size == y.total_size && met_before(
            folders_of(files),
            x.folder,
            y.folder,
        ));
    assert forall|item: FolderAggregateView| first.contains(item) <==> second.contains(item) by {
        if first.contains(item) {
            lemma_entry_is_in_every_aggregation(files, first, second, item);
        }
        if second.contains(item) {
            lemma_entry_is_in_every_aggregation(files, second, first, item);
        }
    }
    assert(first.no_duplicates()) by {
        assert forall|i: int, j: int|
            0 <= i < first.len() && 0 <= j < first.len() && i != j implies first[i]
            != first[j] by {
            if i < j {
                assert(first[i].folder != first[j].folder);
            } else {
                assert(first[j].folder != first[i].folder);
            }
        }
    }
    assert(second.no_duplicates()) by {
        assert forall|i: int, j: int|
            0 <= i < second.len() && 0 <= j < second.len() && i != j implies second[i]
            != second[j] by {
            if i < j {
                assert(second[i].folder != second[j].folder);
            } else {
                assert(second[j].folder != second[i].folder);
            }
        }
    }
    assert forall|x: FolderAggregateView, y: FolderAggregateView| #[trigger]
        goes_before(x, y) implies !goes_before(y, x) by {
        if x.total_size == y.total_size {
            lemma_met_before_one_way(folders_of(files), x.folder, y.folder);
        }
    }
    assert forall|i: int, j: int| 0 <= i < j < first.len() implies goes_before(
        #[trigger] first[i],
        #[trigger] first[j],
    ) by {
        assert(first[i].total_size >= first[j].total_size);
    }
    assert forall|i: int, j: int| 0 <= i < j < second.len() implies goes_before(
        #[trigger] second[i],
        #[trigger] second[j],
    ) by {
        assert(second[i].total_size >= second[j].total_size);
    }
    lemma_same_items_same_order(first, second, goes_before);
}

/// A folder that holds a file goes on holding it when more files follow.
proof fn lemma_holds_push(files: Seq<PlacedFileView>, file: PlacedFileView, folder: Seq<char>)
    requires
        holds_a_file(files, folder),
    ensures
        holds_a_file(files.push(file), folder),
{
    let k = choose|k: int| 0 <= k < files.len() && lies_in(#[trigger] files[k], folder);
    assert(lies_in(files.push(file)[k], folder));
}

/// The order in which folders were met stays when more files follow.
proof fn lemma_as_met_push(
    files: Seq<PlacedFileView>,
    file: PlacedFileView,
    folders: Seq<FolderAggregateView>,
)
    requires
        as_met(files, folders),
    ensures
        as_met(files.push(file), folders),
{
    assert(folders_of(files.push(file)) =~= folders_of(files).push(file.folder));
    assert forall|t: int, u: int|
        #![trigger folders[t], folders[u]]
        0 <= t < u < folders.len() implies met_before(
        folders_of(files.push(file)),
        folders[t].folder,
        folders[u].folder,
    ) by {
        lemma_met_before_push(
            folders_of(files),
            file.folder,
            folders[t].folder,
            folders[u].folder,
        );
    }
}

/// A file without folder changes no tally.
proof fn lemma_file_without_parent(
    seen: Seq<PlacedFileView>,
    file: PlacedFileView,
    tally: Seq<FolderAggregateView>,
)
    requires
        tallies(seen, tally),
        as_met(seen, tally),
        file.folder is None,
    ensures
        tallies(seen.push(file), tally),
        as_met(seen.push(file), tally),
{
    let more = seen.push(file);
    lemma_as_met_push(seen, file, tally);
    assert forall|t: int| 0 <= t < tally.len() implies holds_a_file(
        more,
        (#[trigger] tally[t]).folder,
    ) && tally[t].total_size == folder_total(more, tally[t].folder) by {
        lemma_holds_push(seen, file, tally[t].folder);
        lemma_total_push(seen, file, tally[t].folder);
    }
    assert forall|k: int| 0 <= k < more.len() implies match (#[trigger] more[k]).folder {
        Some(folder) => listed(tally, folder),
        None => true,
    } by {
        if k < seen.len() {
            assert(more[k] == seen[k]);
        }
    }
}

/// A file in a folder that has an entry adds its size to that entry.
proof fn lemma_file_in_listed_folder(
    seen: Seq<PlacedFileView>,
    file: PlacedFileView,
    tally: Seq<FolderAggregateView>,
    credited: Seq<FolderAggregateView>,
    t: int,
)
    requires
        tallies(seen, tally),
        as_met(seen, tally),
        0 <= t < tally.len(),
        lies_in(file, tally[t].folder),
        credited == tally.update(
            t,
            FolderAggregateView {
                folder: tally[t].folder,
                total_size: tally[t].total_size + file.size,
            },
        ),
    ensures
        tallies(seen.push(file), credited),
        as_met(seen.push(file), credited),
{
    let more = seen.push(file);
    lemma_as_met_push(seen, file, tally);
    assert forall|u: int| 0 <= u < credited.len() implies (#[trigger] credited[u]).folder
        == tally[u].folder by {}
    assert forall|u: int| 0 <= u < credited.len() implies holds_a_file(
        more,
        (#[trigger] credited[u]).folder,
    ) && credited[u].total_size == folder_total(more, credited[u].folder) by {
        lemma_holds_push(seen, file, tally[u].folder);
        lemma_total_push(seen, file, tally[u].folder);
        assert(tally[u].total_size == folder_total(seen, tally[u].folder));
        if u < t {
            assert(tally[u].folder != tally[t].folder);
        } else if t < u {
            assert(tally[t].folder != tally[u].folder);
        }
    }
    assert forall|u: int, v: int| 0 <= u < v < credited.len() implies (
    #[trigger] credited[u]).folder != (#[trigger] credited[v]).folder by {
        assert(tally[u].folder != tally[v].folder);
    }
    assert forall|k: int| 0 <= k < more.len() implies match (#[trigger] more[k]).folder {
        Some(folder) => listed(credited, folder),
        None => true,
    } by {
        if k < seen.len() {
            assert(more[k] == seen[k]);
            if let Some(folder) = seen[k].folder {
                let u = choose|u: int| 0 <= u < tally.len() && (#[trigger] tally[u]).folder == folder;
                assert(credited[u].folder == folder);
            }
        } else {
            assert(credited[t].folder == tally[t].folder);
        }
    }
    assert forall|u: int, v: int|
        #![trigger credited[u], credited[v]]
        0 <= u < v < credited.len() implies met_before(
        folders_of(more),
        credited[u].folder,
        credited[v].folder,
    ) by {
        assert(met_before(folders_of(more), tally[u].folder, tally[v].folder));
    }
}

/// A file in a folder that has no entry yet opens one, behind the others,
/// with its own size.
proof fn lemma_file_in_new_folder(
    seen: Seq<PlacedFileView>,
    file: PlacedFileView,
    tally: Seq<FolderAggregateView>,
    folder: Seq<char>,
)
    requires
        tallies(seen, tally),
        as_met(seen, tally),
        lies_in(file, folder),
        !listed(tally, folder),
    ensures
        tallies(
            seen.push(file),
            tally.push(FolderAggregateView { folder, total_size: file.size }),
        ),
        as_met(seen.push(file), tally.push(FolderAggregateView { folder, total_size: file.size })),
{
    let more = seen.push(file);
    let opened = tally.push(FolderAggregateView { folder, total_size: file.size });
    let last = tally.len() as int;
    lemma_as_met_push(seen, file, tally);
    assert(folders_of(more) =~= folders_of(seen).push(file.folder));
    assert(!holds_a_file(seen, folder)) by {
        if holds_a_file(seen, folder) {
            let k = choose|k: int| 0 <= k < seen.len() && lies_in(#[trigger] seen[k], folder);
            assert(listed(tally, folder));
        }
    }
    lemma_total_of_unused_folder(seen, folder);
    assert(lies_in(more[seen.len() as int], folder));
    assert forall|u: int| 0 <= u < opened.len() implies holds_a_file(
        more,
        (#[trigger] opened[u]).folder,
    ) && opened[u].total_size == folder_total(more, opened[u].folder) by {
        lemma_total_push(seen, file, opened[u].folder);
        if u < last {
            lemma_holds_push(seen, file, tally[u].folder);
            assert(tally[u].total_size == folder_total(seen, tally[u].folder));
            assert(listed(tally, tally[u].folder));
        }
    }
    assert forall|u: int, v: int| 0 <= u < v < opened.len() implies (#[trigger] opened[u]).folder
        != (#[trigger] opened[v]).folder by {
        if v == last {
            assert(listed(tally, tally[u].folder));
        } else {
            assert(tally[u].folder != tally[v].folder);
        }
    }
    assert forall|k: int| 0 <= k < more.len() implies match (#[trigger] more[k]).folder {
        Some(f) => listed(opened, f),
        None => true,
    } by {
        if k < seen.len() {
            assert(more[k] == seen[k]);
            if let Some(f) = seen[k].folder {
                let u = choose|u: int| 0 <= u < tally.len() && (#[trigger] tally[u]).folder == f;
                assert(opened[u].folder == f);
            }
        } else {
            assert(opened[last].folder == folder);
        }
    }
    assert forall|u: int, v: int|
        #![trigger opened[u], opened[v]]
        0 <= u < v < opened.len() implies met_before(
        folders_of(more),
        opened[u].folder,
        opened[v].folder,
    ) by {
        if v < last {
            assert(met_before(folders_of(more), tally[u].folder, tally[v].folder));
        } else {
            assert(holds_a_file(seen, tally[u].folder));
            let k = choose|k: int|
                0 <= k < seen.len() && lies_in(#[trigger] seen[k], tally[u].folder);
            assert(folders_of(more)[k] == Some(tally[u].folder));
            assert forall|j: int| 0 <= j <= k implies #[trigger] folders_of(more)[j] != Some(
                folder,
            ) by {
                if folders_of(more)[j] == Some(folder) {
                    assert(lies_in(seen[j], folder));
                }
            }
        }
    }
}

/// Sorting a tally by total, entries of equal total left as they stood,
/// makes it the aggregation.
proof fn lemma_sorted_tally(
    files: Seq<PlacedFileView>,
    tally: Seq<FolderAggregate>,
    sorted: Seq<FolderAggregate>,
)
    requires
        tallies(files, views(tally)),
        as_met(files, views(tally)),
        descending(sorted),
        sorted.to_multiset() == tally.to_multiset(),
        forall|w: nat| #[trigger] of_weight(sorted, w) == of_weight(tally, w),
    ensures
        is_aggregation(files, views(sorted)),
{
    let before = views(tally);
    let after = views(sorted);
    assert(tally.no_duplicates()) by {
        assert forall|a: int, b: int| 0 <= a < tally.len() && 0 <= b < tally.len() && a
            != b implies tally[a] != tally[b] by {
            if a < b {
                assert(before[a].folder != before[b].folder);
            } else {
                assert(before[b].folder != before[a].folder);
            }
        }
    }
    tally.lemma_multiset_has_no_duplicates();
    sorted.lemma_multiset_has_no_duplicates_conv();
    assert forall|i: int| 0 <= i < sorted.len() implies exists|t: int|
        0 <= t < tally.len() && tally[t] == #[trigger] sorted[i] by {
        assert(sorted.contains(sorted[i]));
        vstd::seq_lib::to_multiset_contains(sorted, sorted[i]);
        vstd::seq_lib::to_multiset_contains(tally, sorted[i]);
    }
    assert forall|i: int| 0 <= i < after.len() implies holds_a_file(
        files,
        (#[trigger] after[i]).folder,
    ) && after[i].total_size == folder_total(files, after[i].folder) by {
        let t = choose|t: int| 0 <= t < tally.len() && tally[t] == sorted[i];
        assert(before[t] == after[i]);
    }
    assert forall|i: int, j: int| 0 <= i < j < after.len() implies (#[trigger] after[i]).folder
        != (#[trigger] after[j]).folder by {
        let t = choose|t: int| 0 <= t < tally.len() && tally[t] == sorted[i];
        let u = choose|u: int| 0 <= u < tally.len() && tally[u] == sorted[j];
        assert(sorted[i] != sorted[j]);
        assert(before[t] == after[i] && before[u] == after[j]);
        if t < u {
            assert(before[t].folder != before[u].folder);
        } else if u < t {
            assert(before[u].folder != before[t].folder);
        }
    }
    assert forall|k: int| 0 <= k < files.len() implies match (#[trigger] files[k]).folder {
        Some(folder) => listed(after, folder),
        None => true,
    } by {
        if let Some(folder) = files[k].folder {
            assert(listed(before, folder));
            let t = choose|t: int| 0 <= t < before.len() && (#[trigger] before[t]).folder == folder;
            assert(tally.contains(tally[t]));
            vstd::seq_lib::to_multiset_contains(tally, tally[t]);
            vstd::seq_lib::to_multiset_contains(sorted, tally[t]);
            let i = choose|i: int| 0 <= i < sorted.len() && sorted[i] == tally[t];
            assert(after[i].folder == folder);
        }
    }
    assert forall|i: int, j: int| 0 <= i < j < after.len() implies after[i].total_size
        >= after[j].total_size by {
        assert(sorted[i].weight() >= sorted[j].weight());
    }
    assert forall|i: int, j: int|
        #![trigger after[i], after[j]]
        0 <= i < j < after.len() && after[i].total_size == after[j].total_size implies met_before(
        folders_of(files),
        after[i].folder,
        after[j].folder,
    ) by {
        let w = sorted[i].weight();
        let keep = has_weight::<FolderAggregate>(w);
        lemma_filter_places(sorted, keep, i, j);
        let (p, q) = choose|p: int, q: int|
            #![trigger sorted.filter(keep)[p], sorted.filter(keep)[q]]
            0 <= p < q < sorted.filter(keep).len() && sorted.filter(keep)[p] == sorted[i]
                && sorted.filter(keep)[q] == sorted[j];
        assert(of_weight(sorted, w) == of_weight(tally, w));
        lemma_filter_keeps_order(tally, keep, p, q);
        let (t, u) = choose|t: int, u: int|
            #![trigger tally[t], tally[u]]
            0 <= t < u < tally.len() && tally[t] == tally.filter(keep)[p] && tally[u]
                == tally.filter(keep)[q];
        assert(before[t] == after[i] && before[u] == after[j]);
        assert(met_before(folders_of(files), before[t].folder, before[u].folder));
    }
}

/// The place of `folder` in `tally`, if it has an entry.
fn position_of(tally: &Vec<FolderAggregate>, folder: &String) -> (found: Option<usize>)
    ensures
        match found {
            Some(t) => t < tally.len() && tally[t as int].folder@ == folder@,
            None => !listed(views(tally@), folder@),
        },
{
    let mut t: usize = 0;
    while t < tally.len()
        invariant
            t <= tally.len(),
            forall|u: int| 0 <= u < t ==> tally[u].folder@ != folder@,
        decreases tally.len() - t,
    {
        if tally[t].folder == *folder {
            return Some(t);
        }
        t += 1;
    }
    None
}

/// Sums the sizes of `files` by the folder given with each.
///
/// A file without folder counts towards no folder. The result has one entry
/// for each folder that holds a file, with the exact sum of the sizes of its
/// files; it is ordered by total, largest first, and folders of equal total
/// stand in the order in which they are first met in `files`.
pub fn tally_folders(files: &[PlacedFile]) -> (folders: Vec<FolderAggregate>)
    ensures
        is_aggregation(views(files@), views(folders@)),
{
    let ghost all = views(files@);
    let mut tally: Vec<FolderAggregate> = Vec::new();
    let mut i: usize = 0;
    while i < files.len()
        invariant
            i <= files.len(),
            all == views(files@),
            tallies(all.take(i as int), views(tally@)),
            as_met(all.take(i as int), views(tally@)),
        decreases files.len() - i,
    {
        let file = &files[i];
        let ghost seen = all.take(i as int);
        let ghost before = views(tally@);
        proof {
            assert(all.take(i + 1) =~= seen.push(file@));
        }
        match &file.folder {
            None => {
                proof {
                    lemma_file_without_parent(seen, file@, before);
                }
            },
            Some(folder) => {
                match position_of(&tally, folder) {
                    Some(t) => {
                        proof {
                            assert forall|k: int| 0 <= k < seen.len() implies (
                            #[trigger] seen[k]).size <= u64::MAX by {
                                assert(seen[k] == files@[k]@);
                            }
                            lemma_total_bound(seen, folder@);
                            assert(before[t as int].total_size == folder_total(seen, folder@));
                            assert(seen.len() * u64::MAX + u64::MAX <= u128::MAX)
                                by (nonlinear_arith)
                                requires
                                    seen.len() <= u64::MAX,
                            ;
                        }
                        tally[t].total_size = tally[t].total_size + file.size as u128;
                        proof {
                            let credited = views(tally@);
                            assert(credited =~= before.update(
                                t as int,
                                FolderAggregateView {
                                    folder: before[t as int].folder,
                                    total_size: before[t as int].total_size + file@.size,
                                },
                            ));
                            lemma_file_in_listed_folder(seen, file@, before, credited, t as int);
                        }
                    },
                    None => {
                        tally.push(
                            FolderAggregate { folder: folder.clone(), total_size: file.size as u128 },
                        );
                        proof {
                            assert(views(tally@) =~= before.push(
                                FolderAggregateView { folder: folder@, total_size: file@.size },
                            ));
                            lemma_file_in_new_folder(seen, file@, before, folder@);
                        }
                    },
                }
            },
        }
        i += 1;
    }
    let folders = sort_descending(&tally);
    proof {
        assert(all.take(i as int) =~= all);
        lemma_sorted_tally(all, tally@, folders@);
    }
    folders
}

/// Sums the sizes of `files` by the folder that directly holds each.
///
/// The folder of a file is the parent of its path; a file whose path has no
/// parent counts towards no folder. The result is the aggregation of the
/// files so placed: one entry for each folder that holds a file, with the
/// exact sum of the sizes of its files, largest total first.
pub fn aggregate_folder_sizes(files: &[FileRecord]) -> (folders: Vec<FolderAggregate>)
    ensures
        is_aggregation(placements(views(files@)), views(folders@)),
{
    let mut placed: Vec<PlacedFile> = Vec::new();
    let mut i: usize = 0;
    while i < files.len()
        invariant
            i <= files.len(),
            views(placed@) == placements(views(files@)).take(i as int),
        decreases files.len() - i,
    {
        let ghost before = views(placed@);
        let entry = PlacedFile { folder: parent_folder(files[i].path.as_str()), size: files[i].size };
        proof {
            assert(entry@ == placements(views(files@))[i as int]);
        }
        placed.push(entry);
        proof {
            assert(views(placed@) =~= before.push(placements(views(files@))[i as int]));
            assert(placements(views(files@)).take(i + 1) =~= before.push(
                placements(views(files@))[i as int],
            ));
        }
        i += 1;
    }
    proof {
        assert(placements(views(files@)).take(i as int) =~= placements(views(files@)));
    }
    tally_folders(placed.as_slice())
}

} // verus!
