//! Finding files with identical contents: files are grouped by the hash of
//! their bytes, and a group is reported once it has two members.
//!
//! Two contents with the same hash are taken to be the same content.

use crate::hashing::blake3_hex;
use crate::records::{
    lemma_met_before_one_way, lemma_met_before_push, lemma_same_items_same_order, met_before,
    views, DuplicateGroup, DuplicateGroupView, FileRecord, FileRecordView,
};
use vstd::prelude::*;

verus! {

/// Whether a file's bytes were read and hash to `hash`.
pub open spec fn has_digest(hash: Seq<char>) -> spec_fn(FileRecordView) -> bool {
    |file: FileRecordView| file.digest == Some(hash)
}

/// The paths of `files`, in the same order.
pub open spec fn paths_of(files: Seq<FileRecordView>) -> Seq<Seq<char>> {
    files.map_values(|file: FileRecordView| file.path)
}

/// The paths of the files whose bytes hash to `hash`, in the order of
/// `files`.
pub open spec fn files_hashing_to(files: Seq<FileRecordView>, hash: Seq<char>) -> Seq<Seq<char>> {
    paths_of(files.filter(has_digest(hash)))
}

/// Whether `groups` has a group for `hash`.
pub open spec fn has_group(groups: Seq<DuplicateGroupView>, hash: Seq<char>) -> bool {
    exists|g: int| 0 <= g < groups.len() && (#[trigger] groups[g]).hash == hash
}

/// For each file the hash of its bytes, if they were read.
pub open spec fn digests_of(files: Seq<FileRecordView>) -> Seq<Option<Seq<char>>> {
    files.map_values(|file: FileRecordView| file.digest)
}

/// The groups stand in the order in which their hashes are first met in
/// `files`.
pub open spec fn groups_as_met(
    files: Seq<FileRecordView>,
    groups: Seq<DuplicateGroupView>,
) -> bool {
    forall|g: int, h: int|
        #![trigger groups[g], groups[h]]
        0 <= g < h < groups.len() ==> met_before(digests_of(files), groups[g].hash, groups[h].hash)
}

/// `groups` has one group for each hash that at least `least` of `files`
/// have, none for any other hash; the members of a group are the paths of
/// all the files with its hash, in the order of `files`; and the groups
/// stand in the order in which their hashes are first met in `files`.
pub open spec fn groups_by_hash(
    files: Seq<FileRecordView>,
    groups: Seq<DuplicateGroupView>,
    least: nat,
) -> bool {
    &&& forall|g: int|
        0 <= g < groups.len() ==> (#[trigger] groups[g]).members == files_hashing_to(
            files,
            groups[g].hash,
        )
    &&& forall|g: int| 0 <= g < groups.len() ==> (#[trigger] groups[g]).members.len() >= least
    &&& forall|g: int, h: int|
        0 <= g < h < groups.len() ==> (#[trigger] groups[g]).hash != (#[trigger] groups[h]).hash
    &&& forall|hash: Seq<char>|
        (#[trigger] files_hashing_to(files, hash)).len() >= least ==> has_group(groups, hash)
    &&& groups_as_met(files, groups)
}

/// `groups` reports the duplicates among `files`: one group for each hash
/// that two or more files have.
pub open spec fn is_duplicate_report(
    files: Seq<FileRecordView>,
    groups: Seq<DuplicateGroupView>,
) -> bool {
    groups_by_hash(files, groups, 2)
}

/// No path occurs twice in `files`.
pub open spec fn distinct_paths(files: Seq<FileRecordView>) -> bool {
    forall|i: int, j: int|
        0 <= i < j < files.len() ==> (#[trigger] files[i]).path != (#[trigger] files[j]).path
}

/// One more file adds its path to the files of its own hash, at the end, and
/// to no others.
pub proof fn lemma_hashing_to_push(
    files: Seq<FileRecordView>,
    file: FileRecordView,
    hash: Seq<char>,
)
    ensures
        files_hashing_to(files.push(file), hash) == if file.digest == Some(hash) {
            files_hashing_to(files, hash).push(file.path)
        } else {
            files_hashing_to(files, hash)
        },
{
    files.lemma_filter_push(file, has_digest(hash));
    if file.digest == Some(hash) {
        assert(paths_of(files.filter(has_digest(hash)).push(file)) =~= paths_of(
            files.filter(has_digest(hash)),
        ).push(file.path));
    }
}

/// Every file with a hash is counted among the files of that hash, and two
/// of them make at least two.
pub proof fn lemma_hashing_to_counts(files: Seq<FileRecordView>, hash: Seq<char>, i: int, j: int)
    requires
        0 <= i <= j < files.len(),
        files[i].digest == Some(hash),
        files[j].digest == Some(hash),
    ensures
        files_hashing_to(files, hash).contains(files[i].path),
        files_hashing_to(files, hash).contains(files[j].path),
        i < j ==> files_hashing_to(files, hash).len() >= 2,
    decreases files.len(),
{
    let rest = files.drop_last();
    let last = files.last();
    assert(files =~= rest.push(last));
    lemma_hashing_to_push(rest, last, hash);
    let prior = files_hashing_to(rest, hash);
    if j < files.len() - 1 {
        lemma_hashing_to_counts(rest, hash, i, j);
        let a = choose|a: int| 0 <= a < prior.len() && prior[a] == files[i].path;
        let b = choose|b: int| 0 <= b < prior.len() && prior[b] == files[j].path;
        if last.digest == Some(hash) {
            assert(prior.push(last.path)[a] == files[i].path);
            assert(prior.push(last.path)[b] == files[j].path);
        }
    } else {
        assert(prior.push(last.path)[prior.len() as int] == files[j].path);
        if i < j {
            lemma_hashing_to_counts(rest, hash, i, i);
            let a = choose|a: int| 0 <= a < prior.len() && prior[a] == files[i].path;
            assert(prior.push(last.path)[a] == files[i].path);
        }
    }
}

/// Every path counted among the files of a hash is the path of a file with
/// that hash.
pub proof fn lemma_hashing_to_origin(files: Seq<FileRecordView>, hash: Seq<char>, path: Seq<char>)
    requires
        files_hashing_to(files, hash).contains(path),
    ensures
        exists|k: int|
            0 <= k < files.len() && (#[trigger] files[k]).path == path && files[k].digest == Some(
                hash,
            ),
    decreases files.len(),
{
    reveal(Seq::filter);
    if files.len() > 0 {
        let rest = files.drop_last();
        let last = files.last();
        assert(files =~= rest.push(last));
        lemma_hashing_to_push(rest, last, hash);
        let prior = files_hashing_to(rest, hash);
        let a = choose|a: int|
            0 <= a < files_hashing_to(files, hash).len() && files_hashing_to(files, hash)[a]
                == path;
        if last.digest == Some(hash) && a == prior.len() {
            assert(files[files.len() - 1].path == path);
        } else {
            assert(prior[a] == path);
            lemma_hashing_to_origin(rest, hash, path);
            let k = choose|k: int|
                0 <= k < rest.len() && (#[trigger] rest[k]).path == path && rest[k].digest == Some(
                    hash,
                );
            assert(files[k].path == path);
        }
    }
}

/// Two files with the same hash are members of one group of a duplicate
/// report: the group of that hash.
pub proof fn lemma_same_hash_same_group(
    files: Seq<FileRecordView>,
    groups: Seq<DuplicateGroupView>,
    i: int,
    j: int,
)
    requires
        is_duplicate_report(files, groups),
        0 <= i < j < files.len(),
        files[i].digest is Some,
        files[i].digest == files[j].digest,
    ensures
        exists|g: int|
            0 <= g < groups.len() && (#[trigger] groups[g]).hash == files[i].digest->0
                && groups[g].members.contains(files[i].path) && groups[g].members.contains(
                files[j].path,
            ),
{
    let hash = files[i].digest->0;
    lemma_hashing_to_counts(files, hash, i, j);
    assert(has_group(groups, hash));
    let g = choose|g: int| 0 <= g < groups.len() && (#[trigger] groups[g]).hash == hash;
    assert(groups[g].members == files_hashing_to(files, hash));
}

/// Two files with different hashes, or of which one could not be read, are
/// not members of one group of a duplicate report, where no path occurs twice
/// in the file list.
pub proof fn lemma_different_hash_different_group(
    files: Seq<FileRecordView>,
    groups: Seq<DuplicateGroupView>,
    i: int,
    j: int,
    g: int,
)
    requires
        is_duplicate_report(files, groups),
        distinct_paths(files),
        0 <= i < files.len(),
        0 <= j < files.len(),
        files[i].digest != files[j].digest,
        0 <= g < groups.len(),
    ensures
        !(groups[g].members.contains(files[i].path) && groups[g].members.contains(files[j].path)),
{
    let hash = groups[g].hash;
    assert(groups[g].members == files_hashing_to(files, hash));
    if groups[g].members.contains(files[i].path) && groups[g].members.contains(files[j].path) {
        lemma_hashing_to_origin(files, hash, files[i].path);
        let a = choose|a: int|
            0 <= a < files.len() && (#[trigger] files[a]).path == files[i].path && files[a].digest
                == Some(hash);
        lemma_hashing_to_origin(files, hash, files[j].path);
        let b = choose|b: int|
            0 <= b < files.len() && (#[trigger] files[b]).path == files[j].path && files[b].digest
                == Some(hash);
        assert(a == i) by {
            if a < i {
                assert(files[a].path != files[i].path);
            } else if i < a {
                assert(files[i].path != files[a].path);
            }
        }
        assert(b == j) by {
            if b < j {
                assert(files[b].path != files[j].path);
            } else if j < b {
                assert(files[j].path != files[b].path);
            }
        }
    }
}

/// Two files with the same bytes are members of one group of a duplicate
/// report, where both were read and hashed.
pub proof fn lemma_identical_content_same_group(
    files: Seq<FileRecordView>,
    groups: Seq<DuplicateGroupView>,
    i: int,
    j: int,
    first: Seq<u8>,
    second: Seq<u8>,
)
    requires
        is_duplicate_report(files, groups),
        0 <= i < j < files.len(),
        files[i].digest == Some(blake3_hex(first)),
        files[j].digest == Some(blake3_hex(second)),
        first == second,
    ensures
        exists|g: int|
            0 <= g < groups.len() && (#[trigger] groups[g]).members.contains(files[i].path)
                && groups[g].members.contains(files[j].path),
{
    lemma_same_hash_same_group(files, groups, i, j);
    let g = choose|g: int|
        0 <= g < groups.len() && (#[trigger] groups[g]).hash == files[i].digest->0
            && groups[g].members.contains(files[i].path) && groups[g].members.contains(
            files[j].path,
        );
    assert(groups[g].members.contains(files[i].path));
}

/// Two files with different bytes are not members of one group of a
/// duplicate report, where the two contents do not have the same hash and no
/// path occurs twice in the file list.
pub proof fn lemma_different_content_different_group(
    files: Seq<FileRecordView>,
    groups: Seq<DuplicateGroupView>,
    i: int,
    j: int,
    first: Seq<u8>,
    second: Seq<u8>,
    g: int,
)
    requires
        is_duplicate_report(files, groups),
        distinct_paths(files),
        0 <= i < files.len(),
        0 <= j < files.len(),
        files[i].digest == Some(blake3_hex(first)),
        files[j].digest == Some(blake3_hex(second)),
        first != second,
        blake3_hex(first) != blake3_hex(second),
        0 <= g < groups.len(),
    ensures
        !(groups[g].members.contains(files[i].path) && groups[g].members.contains(files[j].path)),
{
    lemma_different_hash_different_group(files, groups, i, j, g);
}

/// Every group of one duplicate report of `files` is a group of every other.
proof fn lemma_group_is_in_every_report(
    files: Seq<FileRecordView>,
    first: Seq<DuplicateGroupView>,
    second: Seq<DuplicateGroupView>,
    group: DuplicateGroupView,
)
    requires
        is_duplicate_report(files, first),
        is_duplicate_report(files, second),
        first.contains(group),
    ensures
        second.contains(group),
{
    let g = choose|g: int| 0 <= g < first.len() && first[g] == group;
    assert(first[g].members == files_hashing_to(files, group.hash));
    assert(has_group(second, group.hash));
    let h = choose|h: int| 0 <= h < second.len() && (#[trigger] second[h]).hash == group.hash;
    assert(second[h].members == files_hashing_to(files, group.hash));
    assert(second[h] == group);
}

/// A file list has one duplicate report and no other.
pub proof fn lemma_duplicate_report_is_unique(
    files: Seq<FileRecordView>,
    first: Seq<DuplicateGroupView>,
    second: Seq<DuplicateGroupView>,
)
    requires
        is_duplicate_report(files, first),
        is_duplicate_report(files, second),
    ensures
        first == second,
{
    let goes_before = |x: DuplicateGroupView, y: DuplicateGroupView|
        met_before(digests_of(files), x.hash, y.hash);
    assert forall|item: DuplicateGroupView| first.contains(item) <==> second.contains(item) by {
        if first.contains(item) {
            lemma_group_is_in_every_report(files, first, second, item);
        }
        if second.contains(item) {
            lemma_group_is_in_every_report(files, second, first, item);
        }
    }
    assert(first.no_duplicates()) by {
        assert forall|i: int, j: int|
            0 <= i < first.len() && 0 <= j < first.len() && i != j implies first[i]
            != first[j] by {
            if i < j {
                assert(first[i].hash != first[j].hash);
            } else {
                assert(first[j].hash != first[i].hash);
            }
        }
    }
    assert(second.no_duplicates()) by {
        assert forall|i: int, j: int|
            0 <= i < second.len() && 0 <= j < second.len() && i != j implies second[i]
            != second[j] by {
            if i < j {
                assert(second[i].hash != second[j].hash);
            } else {
                assert(second[j].hash != second[i].hash);
            }
        }
    }
    assert forall|x: DuplicateGroupView, y: DuplicateGroupView| #[trigger]
        goes_before(x, y) implies !goes_before(y, x) by {
        lemma_met_before_one_way(digests_of(files), x.hash, y.hash);
    }
    lemma_same_items_same_order(first, second, goes_before);
}

/// The order in which hashes were met stays when more files follow.
proof fn lemma_groups_as_met_push(
    files: Seq<FileRecordView>,
    file: FileRecordView,
    groups: Seq<DuplicateGroupView>,
)
    requires
        groups_as_met(files, groups),
    ensures
        groups_as_met(files.push(file), groups),
{
    assert(digests_of(files.push(file)) =~= digests_of(files).push(file.digest));
    assert forall|g: int, h: int|
        #![trigger groups[g], groups[h]]
        0 <= g < h < groups.len() implies met_before(
        digests_of(files.push(file)),
        groups[g].hash,
        groups[h].hash,
    ) by {
        lemma_met_before_push(digests_of(files), file.digest, groups[g].hash, groups[h].hash);
    }
}

/// A file that could not be read changes no group.
proof fn lemma_unread_file(
    seen: Seq<FileRecordView>,
    file: FileRecordView,
    groups: Seq<DuplicateGroupView>,
)
    requires
        groups_by_hash(seen, groups, 1),
        file.digest is None,
    ensures
        groups_by_hash(seen.push(file), groups, 1),
{
    let more = seen.push(file);
    lemma_groups_as_met_push(seen, file, groups);
    assert forall|hash: Seq<char>| #[trigger]
        files_hashing_to(more, hash) == files_hashing_to(seen, hash) by {
        lemma_hashing_to_push(seen, file, hash);
    }
    assert forall|g: int| 0 <= g < groups.len() implies (#[trigger] groups[g]).members
        == files_hashing_to(more, groups[g].hash) by {
        assert(groups[g].members == files_hashing_to(seen, groups[g].hash));
    }
    assert forall|hash: Seq<char>|
        (#[trigger] files_hashing_to(more, hash)).len() >= 1 implies has_group(groups, hash) by {
        assert(files_hashing_to(seen, hash).len() >= 1);
    }
}

/// A file whose hash has a group becomes the last member of that group.
proof fn lemma_file_joins_group(
    seen: Seq<FileRecordView>,
    file: FileRecordView,
    groups: Seq<DuplicateGroupView>,
    joined: Seq<DuplicateGroupView>,
    g: int,
)
    requires
        groups_by_hash(seen, groups, 1),
        0 <= g < groups.len(),
        file.digest == Some(groups[g].hash),
        joined == groups.update(
            g,
            DuplicateGroupView {
                hash: groups[g].hash,
                members: groups[g].members.push(file.path),
            },
        ),
    ensures
        groups_by_hash(seen.push(file), joined, 1),
{
    let more = seen.push(file);
    lemma_groups_as_met_push(seen, file, groups);
    assert forall|h: int| 0 <= h < joined.len() implies (#[trigger] joined[h]).hash
        == groups[h].hash by {}
    assert forall|h: int| 0 <= h < joined.len() implies (#[trigger] joined[h]).members
        == files_hashing_to(more, joined[h].hash) && joined[h].members.len() >= 1 by {
        lemma_hashing_to_push(seen, file, groups[h].hash);
        assert(groups[h].members == files_hashing_to(seen, groups[h].hash));
        if h < g {
            assert(groups[h].hash != groups[g].hash);
        } else if g < h {
            assert(groups[g].hash != groups[h].hash);
        }
    }
    assert forall|h: int, k: int| 0 <= h < k < joined.len() implies (#[trigger] joined[h]).hash
        != (#[trigger] joined[k]).hash by {
        assert(groups[h].hash != groups[k].hash);
    }
    assert forall|hash: Seq<char>|
        (#[trigger] files_hashing_to(more, hash)).len() >= 1 implies has_group(joined, hash) by {
        lemma_hashing_to_push(seen, file, hash);
        if hash == groups[g].hash {
            assert(joined[g].hash == hash);
        } else {
            assert(files_hashing_to(seen, hash).len() >= 1);
            let h = choose|h: int| 0 <= h < groups.len() && (#[trigger] groups[h]).hash == hash;
            assert(joined[h].hash == hash);
        }
    }
    assert forall|h: int, k: int|
        #![trigger joined[h], joined[k]]
        0 <= h < k < joined.len() implies met_before(
        digests_of(more),
        joined[h].hash,
        joined[k].hash,
    ) by {
        assert(met_before(digests_of(more), groups[h].hash, groups[k].hash));
    }
}

/// A file whose hash has no group yet opens one, behind the others, with
/// itself as the only member.
proof fn lemma_file_opens_group(
    seen: Seq<FileRecordView>,
    file: FileRecordView,
    groups: Seq<DuplicateGroupView>,
    hash: Seq<char>,
)
    requires
        groups_by_hash(seen, groups, 1),
        file.digest == Some(hash),
        !has_group(groups, hash),
    ensures
        groups_by_hash(
            seen.push(file),
            groups.push(DuplicateGroupView { hash, members: seq![file.path] }),
            1,
        ),
{
    let more = seen.push(file);
    let opened = groups.push(DuplicateGroupView { hash, members: seq![file.path] });
    let last = groups.len() as int;
    lemma_groups_as_met_push(seen, file, groups);
    assert(digests_of(more) =~= digests_of(seen).push(file.digest));
    assert(files_hashing_to(seen, hash).len() == 0);
    assert forall|h: int| 0 <= h < opened.len() implies (#[trigger] opened[h]).members
        == files_hashing_to(more, opened[h].hash) && opened[h].members.len() >= 1 by {
        lemma_hashing_to_push(seen, file, opened[h].hash);
        if h < last {
            assert(groups[h].members == files_hashing_to(seen, groups[h].hash));
            assert(has_group(groups, groups[h].hash));
        } else {
            assert(files_hashing_to(seen, hash).push(file.path) =~= seq![file.path]);
        }
    }
    assert forall|h: int, k: int| 0 <= h < k < opened.len() implies (#[trigger] opened[h]).hash
        != (#[trigger] opened[k]).hash by {
        if k == last {
            assert(has_group(groups, groups[h].hash));
        } else {
            assert(groups[h].hash != groups[k].hash);
        }
    }
    assert forall|other: Seq<char>|
        (#[trigger] files_hashing_to(more, other)).len() >= 1 implies has_group(opened, other) by {
        lemma_hashing_to_push(seen, file, other);
        if other == hash {
            assert(opened[last].hash == other);
        } else {
            assert(files_hashing_to(seen, other).len() >= 1);
            let h = choose|h: int| 0 <= h < groups.len() && (#[trigger] groups[h]).hash == other;
            assert(opened[h].hash == other);
        }
    }
    assert forall|h: int, k: int|
        #![trigger opened[h], opened[k]]
        0 <= h < k < opened.len() implies met_before(
        digests_of(more),
        opened[h].hash,
        opened[k].hash,
    ) by {
        if k < last {
            assert(met_before(digests_of(more), groups[h].hash, groups[k].hash));
        } else {
            let first = groups[h].members[0];
            assert(groups[h].members == files_hashing_to(seen, groups[h].hash));
            assert(files_hashing_to(seen, groups[h].hash).contains(first));
            lemma_hashing_to_origin(seen, groups[h].hash, first);
            let i = choose|i: int|
                0 <= i < seen.len() && (#[trigger] seen[i]).path == first && seen[i].digest
                    == Some(groups[h].hash);
            assert(digests_of(more)[i] == Some(groups[h].hash));
            assert forall|j: int| 0 <= j <= i implies #[trigger] digests_of(more)[j] != Some(
                hash,
            ) by {
                if digests_of(more)[j] == Some(hash) {
                    lemma_hashing_to_counts(seen, hash, j, j);
                }
            }
        }
    }
}

/// Leaving out groups keeps the others as they were; what is left of the
/// groups by hash, once those with a single member are out, is the report.
proof fn lemma_groups_of_two(
    files: Seq<FileRecordView>,
    groups: Seq<DuplicateGroupView>,
    report: Seq<DuplicateGroupView>,
    origin: Seq<int>,
)
    requires
        groups_by_hash(files, groups, 1),
        origin.len() == report.len(),
        forall|r: int| 0 <= r < report.len() ==> 0 <= #[trigger] origin[r] < groups.len(),
        forall|r: int, s: int| 0 <= r < s < report.len() ==> #[trigger] origin[r] < #[trigger] origin[s],
        forall|r: int| 0 <= r < report.len() ==> #[trigger] report[r] == groups[origin[r]],
        forall|r: int| 0 <= r < report.len() ==> (#[trigger] report[r]).members.len() >= 2,
        forall|k: int|
            0 <= k < groups.len() && (#[trigger] groups[k]).members.len() >= 2 ==> has_group(
                report,
                groups[k].hash,
            ),
    ensures
        is_duplicate_report(files, report),
{
    assert forall|r: int| 0 <= r < report.len() implies (#[trigger] report[r]).members
        == files_hashing_to(files, report[r].hash) by {
        assert(report[r] == groups[origin[r]]);
    }
    assert forall|r: int, s: int| 0 <= r < s < report.len() implies (#[trigger] report[r]).hash
        != (#[trigger] report[s]).hash by {
        assert(origin[r] < origin[s]);
        assert(groups[origin[r]].hash != groups[origin[s]].hash);
    }
    assert forall|hash: Seq<char>|
        (#[trigger] files_hashing_to(files, hash)).len() >= 2 implies has_group(report, hash) by {
        assert(has_group(groups, hash));
        let k = choose|k: int| 0 <= k < groups.len() && (#[trigger] groups[k]).hash == hash;
        assert(groups[k].members == files_hashing_to(files, hash));
    }
    assert forall|r: int, s: int|
        #![trigger report[r], report[s]]
        0 <= r < s < report.len() implies met_before(
        digests_of(files),
        report[r].hash,
        report[s].hash,
    ) by {
        assert(origin[r] < origin[s]);
        assert(met_before(
            digests_of(files),
            groups[origin[r]].hash,
            groups[origin[s]].hash,
        ));
    }
}

/// The place of the group for `hash` in `groups`, if it has one.
fn group_of(groups: &Vec<DuplicateGroup>, hash: &String) -> (found: Option<usize>)
    ensures
        match found {
            Some(g) => g < groups.len() && groups[g as int].hash@ == hash@,
            None => !has_group(views(groups@), hash@),
        },
{
    let mut g: usize = 0;
    while g < groups.len()
        invariant
            g <= groups.len(),
            forall|h: int| 0 <= h < g ==> groups[h].hash@ != hash@,
        decreases groups.len() - g,
    {
        if groups[g].hash == *hash {
            return Some(g);
        }
        g += 1;
    }
    None
}

/// Groups the files that were read by the hash of their bytes.
fn group_by_hash(files: &[FileRecord]) -> (groups: Vec<DuplicateGroup>)
    ensures
        groups_by_hash(views(files@), views(groups@), 1),
{
    let ghost all = views(files@);
    let mut groups: Vec<DuplicateGroup> = Vec::new();
    let mut i: usize = 0;
    proof {
        assert forall|hash: Seq<char>|
            (#[trigger] files_hashing_to(all.take(0), hash)).len() >= 1 implies has_group(
            views(groups@),
            hash,
        ) by {
            reveal(Seq::filter);
        }
    }
    while i < files.len()
        invariant
            i <= files.len(),
            all == views(files@),
            groups_by_hash(all.take(i as int), views(groups@), 1),
        decreases files.len() - i,
    {
        let file = &files[i];
        let ghost seen = all.take(i as int);
        let ghost before = views(groups@);
        proof {
            assert(all.take(i + 1) =~= seen.push(file@));
        }
        match &file.digest {
            Err(_) => {
                proof {
                    lemma_unread_file(seen, file@, before);
                }
            },
            Ok(digest) => {
                match group_of(&groups, digest) {
                    Some(g) => {
                        groups[g].members.push(file.path.clone());
                        proof {
                            let joined = views(groups@);
                            assert(joined[g as int].members =~= before[g as int].members.push(
                                file@.path,
                            ));
                            assert(joined =~= before.update(
                                g as int,
                                DuplicateGroupView {
                                    hash: before[g as int].hash,
                                    members: before[g as int].members.push(file@.path),
                                },
                            ));
                            lemma_file_joins_group(seen, file@, before, joined, g as int);
                        }
                    },
                    None => {
                        let mut members: Vec<String> = Vec::new();
                        members.push(file.path.clone());
                        let group = DuplicateGroup { hash: digest.clone(), members };
                        proof {
                            assert(group@.members =~= seq![file@.path]);
                        }
                        groups.push(group);
                        proof {
                            assert(views(groups@) =~= before.push(
                                DuplicateGroupView { hash: digest@, members: seq![file@.path] },
                            ));
                            lemma_file_opens_group(seen, file@, before, digest@);
                        }
                    },
                }
            },
        }
        i += 1;
    }
    proof {
        assert(all.take(i as int) =~= all);
    }
    groups
}

/// Reports the files with identical contents.
///
/// Files are taken to have the same contents when their digests are equal. A
/// file that could not be read belongs to no group. Each group holds all the
/// files of one digest, in the order of `files`, and has at least two
/// members; the groups stand in the order in which their digests are first
/// met in `files`.
pub fn find_duplicates(files: &[FileRecord]) -> (report: Vec<DuplicateGroup>)
    ensures
        is_duplicate_report(views(files@), views(report@)),
{
    let groups = group_by_hash(files);
    let ghost grouped = views(groups@);
    let ghost mut origin: Seq<int> = Seq::empty();
    let mut report: Vec<DuplicateGroup> = Vec::new();
    let mut g: usize = 0;
    while g < groups.len()
        invariant
            g <= groups.len(),
            grouped == views(groups@),
            origin.len() == report.len(),
            forall|r: int| 0 <= r < report.len() ==> 0 <= #[trigger] origin[r] < g,
            forall|r: int, s: int|
                0 <= r < s < report.len() ==> #[trigger] origin[r] < #[trigger] origin[s],
            forall|r: int|
                0 <= r < report.len() ==> #[trigger] views(report@)[r] == grouped[origin[r]],
            forall|r: int|
                0 <= r < report.len() ==> (#[trigger] views(report@)[r]).members.len() >= 2,
            forall|k: int|
                0 <= k < g && (#[trigger] grouped[k]).members.len() >= 2 ==> has_group(
                    views(report@),
                    grouped[k].hash,
                ),
        decreases groups.len() - g,
    {
        if groups[g].members.len() >= 2 {
            let ghost before = views(report@);
            let ghost origin_before = origin;
            report.push(groups[g].clone());
            proof {
                origin = origin.push(g as int);
                let after = views(report@);
                assert(after =~= before.push(grouped[g as int]));
                assert forall|k: int|
                    0 <= k < g + 1 && (#[trigger] grouped[k]).members.len() >= 2 implies has_group(
                    after,
                    grouped[k].hash,
                ) by {
                    if k < g {
                        let r = choose|r: int|
                            0 <= r < before.len() && (#[trigger] before[r]).hash == grouped[k].hash;
                        assert(after[r].hash == grouped[k].hash);
                    } else {
                        assert(after[before.len() as int].hash == grouped[k].hash);
                    }
                }
            }
        }
        g += 1;
    }
    proof {
        lemma_groups_of_two(views(files@), grouped, views(report@), origin);
    }
    report
}

} // verus!
