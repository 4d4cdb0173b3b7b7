//! The data a scan session is made of: tracked files, per-folder totals,
//! groups of identical files, and the reasons an operation can fail.

use vstd::prelude::*;

verus! {

/// Why a content hash could not be computed.
#[derive(Debug, Clone, Copy, PartialEq, Eq, Structural)]
pub enum HashError {
    /// The file could not be opened or read to its end.
    UnreadableFile,
}

/// Why a scan produced no file list.
#[derive(Debug, Clone, Copy, PartialEq, Eq, Structural)]
pub enum ScanError {
    /// The root folder does not exist.
    PathNotFound,
    /// The root folder may not be read.
    PermissionDenied,
    /// No regular file was found or could be read under the root.
    EmptyOrInaccessible,
}

/// Why a change to a file was not carried out.
#[derive(Debug, Clone, Copy, PartialEq, Eq, Structural)]
pub enum MutationError {
    /// The recoverable-delete facility refused or is missing.
    TrashUnavailable,
    /// The bytes could not be copied.
    CopyFailed,
    /// The file could not be renamed into the destination.
    RenameFailed,
    /// The path has no parent folder or no file name.
    InvalidPath,
}

/// A failure reported by [`crate::visualizer::DiskVisualizer::update`].
#[derive(Debug, Clone, Copy, PartialEq, Eq, Structural)]
pub enum Failure {
    Scan(ScanError),
    Mutation(MutationError),
}

/// A tracked file as it was last observed: where it is, how many bytes it
/// holds, and the hash of those bytes if they could be read.
#[derive(Debug, PartialEq, Eq)]
pub struct FileRecord {
    pub path: String,
    pub size: u64,
    pub digest: Result<String, HashError>,
}

/// The mathematical value of a [`FileRecord`].
pub struct FileRecordView {
    pub path: Seq<char>,
    pub size: nat,
    /// `None` where the file could not be read.
    pub digest: Option<Seq<char>>,
}

impl View for FileRecord {
    type V = FileRecordView;

    open spec fn view(&self) -> FileRecordView {
        FileRecordView {
            path: self.path@,
            size: self.size as nat,
            digest: match self.digest {
                Ok(hash) => Some(hash@),
                Err(_) => None,
            },
        }
    }
}

/// The bytes held by all tracked files directly inside one folder.
#[derive(Debug, PartialEq, Eq)]
pub struct FolderAggregate {
    pub folder: String,
    pub total_size: u128,
}

/// The mathematical value of a [`FolderAggregate`].
pub struct FolderAggregateView {
    pub folder: Seq<char>,
    pub total_size: nat,
}

impl View for FolderAggregate {
    type V = FolderAggregateView;

    open spec fn view(&self) -> FolderAggregateView {
        FolderAggregateView { folder: self.folder@, total_size: self.total_size as nat }
    }
}

/// Two or more files whose contents have the same hash.
#[derive(Debug, PartialEq, Eq)]
pub struct DuplicateGroup {
    pub hash: String,
    pub members: Vec<String>,
}

/// The mathematical value of a [`DuplicateGroup`].
pub struct DuplicateGroupView {
    pub hash: Seq<char>,
    pub members: Seq<Seq<char>>,
}

impl View for DuplicateGroup {
    type V = DuplicateGroupView;

    open spec fn view(&self) -> DuplicateGroupView {
        DuplicateGroupView { hash: self.hash@, members: texts(self.members@) }
    }
}

/// The values of a sequence of items, in the same order.
pub open spec fn views<T: View>(items: Seq<T>) -> Seq<T::V> {
    items.map_values(|item: T| item@)
}

/// The texts of a sequence of strings, in the same order.
pub open spec fn texts(strings: Seq<String>) -> Seq<Seq<char>> {
    strings.map_values(|s: String| s@)
}

/// Whether, going through `keys` from the front, `first` is met before
/// `second`: some place holds `first`, and neither it nor any place before it
/// holds `second`.
pub open spec fn met_before(
    keys: Seq<Option<Seq<char>>>,
    first: Seq<char>,
    second: Seq<char>,
) -> bool {
    exists|i: int|
        0 <= i < keys.len() && #[trigger] keys[i] == Some(first) && forall|j: int|
            0 <= j <= i ==> #[trigger] keys[j] != Some(second)
}

/// What was met before stays met before when more keys follow.
pub proof fn lemma_met_before_push(
    keys: Seq<Option<Seq<char>>>,
    key: Option<Seq<char>>,
    first: Seq<char>,
    second: Seq<char>,
)
    requires
        met_before(keys, first, second),
    ensures
        met_before(keys.push(key), first, second),
{
    let i = choose|i: int|
        0 <= i < keys.len() && #[trigger] keys[i] == Some(first) && forall|j: int|
            0 <= j <= i ==> #[trigger] keys[j] != Some(second);
    let more = keys.push(key);
    assert(more[i] == Some(first));
    assert forall|j: int| 0 <= j <= i implies #[trigger] more[j] != Some(second) by {
        assert(more[j] == keys[j]);
    }
}

/// Of two keys at most one is met before the other.
pub proof fn lemma_met_before_one_way(
    keys: Seq<Option<Seq<char>>>,
    first: Seq<char>,
    second: Seq<char>,
)
    requires
        met_before(keys, first, second),
    ensures
        !met_before(keys, second, first),
{
    let i = choose|i: int|
        0 <= i < keys.len() && #[trigger] keys[i] == Some(first) && forall|j: int|
            0 <= j <= i ==> #[trigger] keys[j] != Some(second);
    if met_before(keys, second, first) {
        let k = choose|k: int|
            0 <= k < keys.len() && #[trigger] keys[k] == Some(second) && forall|j: int|
                0 <= j <= k ==> #[trigger] keys[j] != Some(first);
        if i <= k {
            assert(keys[i] != Some(first));
        } else {
            assert(keys[k] != Some(second));
        }
    }
}

/// Two sequences without repetition that hold the same items, each in an
/// order in which no item stands before one that goes before it, are the
/// same sequence.
pub proof fn lemma_same_items_same_order<T>(
    first: Seq<T>,
    second: Seq<T>,
    goes_before: spec_fn(T, T) -> bool,
)
    requires
        first.no_duplicates(),
        second.no_duplicates(),
        forall|item: T| first.contains(item) <==> second.contains(item),
        forall|i: int, j: int|
            0 <= i < j < first.len() ==> goes_before(#[trigger] first[i], #[trigger] first[j]),
        forall|i: int, j: int|
            0 <= i < j < second.len() ==> goes_before(#[trigger] second[i], #[trigger] second[j]),
        forall|x: T, y: T| #[trigger] goes_before(x, y) ==> !goes_before(y, x),
    ensures
        first == second,
    decreases first.len(),
{
    if first.len() == 0 {
        if second.len() > 0 {
            assert(second.contains(second[0]));
        }
        assert(first =~= second);
    } else {
        let head = first[0];
        assert(first.contains(head));
        let p = choose|p: int| 0 <= p < second.len() && second[p] == head;
        if p > 0 {
            let other = second[0];
            assert(goes_before(second[0], second[p]));
            assert(second.contains(other));
            let q = choose|q: int| 0 <= q < first.len() && first[q] == other;
            assert(q > 0);
            assert(goes_before(first[0], first[q]));
        }
        let rest = first.drop_first();
        let others = second.drop_first();
        assert forall|item: T| rest.contains(item) <==> others.contains(item) by {
            if rest.contains(item) {
                let i = choose|i: int| 0 <= i < rest.len() && rest[i] == item;
                assert(first[i + 1] == item);
                assert(first.contains(item));
                let j = choose|j: int| 0 <= j < second.len() && second[j] == item;
                assert(j > 0);
                assert(others[j - 1] == item);
            }
            if others.contains(item) {
                let j = choose|j: int| 0 <= j < others.len() && others[j] == item;
                assert(second[j + 1] == item);
                assert(second.contains(item));
                let i = choose|i: int| 0 <= i < first.len() && first[i] == item;
                assert(i > 0);
                assert(rest[i - 1] == item);
            }
        }
        assert forall|i: int, j: int| 0 <= i < j < rest.len() implies goes_before(
            #[trigger] rest[i],
            #[trigger] rest[j],
        ) by {
            assert(goes_before(first[i + 1], first[j + 1]));
        }
        assert forall|i: int, j: int| 0 <= i < j < others.len() implies goes_before(
            #[trigger] others[i],
            #[trigger] others[j],
        ) by {
            assert(goes_before(second[i + 1], second[j + 1]));
        }
        assert(rest.no_duplicates()) by {
            assert forall|i: int, j: int|
                0 <= i < rest.len() && 0 <= j < rest.len() && i != j implies rest[i]
                != rest[j] by {
                assert(first[i + 1] != first[j + 1]);
            }
        }
        assert(others.no_duplicates()) by {
            assert forall|i: int, j: int|
                0 <= i < others.len() && 0 <= j < others.len() && i != j implies others[i]
                != others[j] by {
                assert(second[i + 1] != second[j + 1]);
            }
        }
        lemma_same_items_same_order(rest, others, goes_before);
        assert(first =~= seq![head] + rest);
        assert(second =~= seq![head] + others);
    }
}

/// Filtering items and then taking their values gives what filtering the
/// values gives, where the two tests agree on every item.
pub proof fn lemma_views_of_filtered<T: View>(
    items: Seq<T>,
    keep: spec_fn(T) -> bool,
    keep_value: spec_fn(T::V) -> bool,
)
    requires
        forall|item: T| keep(item) == keep_value(item@),
    ensures
        views(items.filter(keep)) == views(items).filter(keep_value),
    decreases items.len(),
{
    reveal(Seq::filter);
    if items.len() == 0 {
        assert(views(items.filter(keep)) =~= views(items).filter(keep_value));
    } else {
        let rest = items.drop_last();
        let last = items.last();
        assert(items =~= rest.push(last));
        assert(views(items) =~= views(rest).push(last@));
        rest.lemma_filter_push(last, keep);
        views(rest).lemma_filter_push(last@, keep_value);
        lemma_views_of_filtered(rest, keep, keep_value);
        assert(views(rest.filter(keep).push(last)) =~= views(rest.filter(keep)).push(last@));
    }
}

impl Clone for FileRecord {
    fn clone(&self) -> (copy: FileRecord)
        ensures
            copy == *self,
    {
        let digest = match &self.digest {
            Ok(hash) => Ok(hash.clone()),
            Err(e) => Err(*e),
        };
        FileRecord { path: self.path.clone(), size: self.size, digest }
    }
}

impl Clone for FolderAggregate {
    fn clone(&self) -> (copy: FolderAggregate)
        ensures
            copy == *self,
    {
        FolderAggregate { folder: self.folder.clone(), total_size: self.total_size }
    }
}

impl Clone for DuplicateGroup {
    fn clone(&self) -> (copy: DuplicateGroup)
        ensures
            copy@ == self@,
    {
        DuplicateGroup { hash: self.hash.clone(), members: clone_strings(&self.members) }
    }
}

/// A vector of the same strings in the same order.
pub(crate) fn clone_strings(strings: &Vec<String>) -> (copy: Vec<String>)
    ensures
        copy@ == strings@,
{
    let mut copy: Vec<String> = Vec::new();
    let mut i: usize = 0;
    while i < strings.len()
        invariant
            i <= strings.len(),
            copy@ == strings@.take(i as int),
        decreases strings.len() - i,
    {
        copy.push(strings[i].clone());
        i += 1;
    }
    copy
}

} // verus!
