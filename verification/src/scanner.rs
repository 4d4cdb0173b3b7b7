//! Turning what a walk of a folder tree found into the file list of a
//! session.

use crate::ordering::{has_weight, of_weight, sort_descending, Weighted};
use crate::records::{lemma_views_of_filtered, views, FileRecord, FileRecordView, ScanError};
use vstd::prelude::*;

verus! {

impl Weighted for FileRecord {
    open spec fn weight(&self) -> nat {
        self.size as nat
    }

    fn weigh(&self) -> (w: u128) {
        self.size as u128
    }

    fn replica(&self) -> (copy: FileRecord) {
        self.clone()
    }
}

/// Whether a file holds `size` bytes.
pub open spec fn has_size(size: nat) -> spec_fn(FileRecordView) -> bool {
    |file: FileRecordView| file.size == size
}

/// The files of `size` bytes, in the order in which they stand in `files`.
pub open spec fn of_size(files: Seq<FileRecordView>, size: nat) -> Seq<FileRecordView> {
    files.filter(has_size(size))
}

/// No file stands before a larger one.
pub open spec fn largest_first(files: Seq<FileRecordView>) -> bool {
    forall|i: int, j: int| 0 <= i < j < files.len() ==> files[i].size >= files[j].size
}

/// `files` lists what was `found`, largest first, and files of equal size
/// stand in it in the order in which they were found.
pub open spec fn is_scan_order(found: Seq<FileRecordView>, files: Seq<FileRecordView>) -> bool {
    &&& files.len() == found.len()
    &&& largest_first(files)
    &&& forall|size: nat| #[trigger] of_size(files, size) == of_size(found, size)
}

/// Two lists of the same length, each largest first, in which the files of
/// every size are the same and in the same order, are the same list.
pub proof fn lemma_sizes_fix_the_order(first: Seq<FileRecordView>, second: Seq<FileRecordView>)
    requires
        first.len() == second.len(),
        largest_first(first),
        largest_first(second),
        forall|size: nat| #[trigger] of_size(first, size) == of_size(second, size),
    ensures
        first == second,
    decreases first.len(),
{
    if first.len() == 0 {
        assert(first =~= second);
    } else {
        let a = first.drop_last();
        let b = second.drop_last();
        let x = first.last();
        let y = second.last();
        assert(first =~= a.push(x));
        assert(second =~= b.push(y));
        a.lemma_filter_push(x, has_size(x.size));
        b.lemma_filter_push(y, has_size(y.size));
        a.lemma_filter_push(x, has_size(y.size));
        b.lemma_filter_push(y, has_size(x.size));
        // a file of the size of `x` stands in `second`, so `y` is no larger
        assert(of_size(first, x.size).last() == x);
        assert(of_size(second, x.size).contains(x));
        second.lemma_filter_contains_rev(has_size(x.size), x);
        let k = choose|k: int| 0 <= k < second.len() && second[k] == x;
        assert(k < second.len() - 1 ==> second[k].size >= second[second.len() - 1].size);
        assert(y.size <= x.size);
        // and the other way round
        assert(of_size(second, y.size).last() == y);
        assert(of_size(first, y.size).contains(y));
        first.lemma_filter_contains_rev(has_size(y.size), y);
        let l = choose|l: int| 0 <= l < first.len() && first[l] == y;
        assert(l < first.len() - 1 ==> first[l].size >= first[first.len() - 1].size);
        assert(x.size <= y.size);
        assert(x == y);
        assert forall|size: nat| #[trigger] of_size(a, size) == of_size(b, size) by {
            a.lemma_filter_push(x, has_size(size));
            b.lemma_filter_push(y, has_size(size));
            assert(of_size(first, size) == of_size(second, size));
            if x.size == size {
                assert(of_size(a, size) =~= of_size(first, size).drop_last());
                assert(of_size(b, size) =~= of_size(second, size).drop_last());
            }
        }
        assert forall|i: int, j: int| 0 <= i < j < a.len() implies a[i].size >= a[j].size by {
            assert(first[i].size >= first[j].size);
        }
        assert forall|i: int, j: int| 0 <= i < j < b.len() implies b[i].size >= b[j].size by {
            assert(second[i].size >= second[j].size);
        }
        lemma_sizes_fix_the_order(a, b);
    }
}

/// What a walk found has one scan order and no other.
pub proof fn lemma_scan_order_is_unique(
    found: Seq<FileRecordView>,
    first: Seq<FileRecordView>,
    second: Seq<FileRecordView>,
)
    requires
        is_scan_order(found, first),
        is_scan_order(found, second),
    ensures
        first == second,
{
    assert forall|size: nat| #[trigger] of_size(first, size) == of_size(second, size) by {
        assert(of_size(first, size) == of_size(found, size));
        assert(of_size(second, size) == of_size(found, size));
    }
    lemma_sizes_fix_the_order(first, second);
}

/// Decides what a finished walk amounts to.
///
/// `outcome` is what the walk reports: the regular files it could read, in
/// the order in which it met them, or the reason why the root could not be
/// walked. A walk that found no file fails with `EmptyOrInaccessible`; a
/// failure of the walk is passed on as it is. Otherwise the files are
/// returned largest first, files of equal size in the order found.
pub fn complete_scan(outcome: Result<Vec<FileRecord>, ScanError>) -> (scan: Result<
    Vec<FileRecord>,
    ScanError,
>)
    ensures
        match outcome {
            Err(e) => scan == Err::<Vec<FileRecord>, ScanError>(e),
            Ok(found) => match scan {
                Ok(files) => found.len() > 0 && is_scan_order(views(found@), views(files@)),
                Err(e) => found.len() == 0 && e == ScanError::EmptyOrInaccessible,
            },
        },
{
    match outcome {
        Err(e) => Err(e),
        Ok(found) => {
            if found.len() == 0 {
                Err(ScanError::EmptyOrInaccessible)
            } else {
                let files = sort_descending(&found);
                proof {
                    assert forall|size: nat| #[trigger]
                        of_size(views(files@), size) == of_size(views(found@), size) by {
                        lemma_views_of_filtered(files@, has_weight(size), has_size(size));
                        lemma_views_of_filtered(found@, has_weight(size), has_size(size));
                        assert(of_weight(files@, size) == of_weight(found@, size));
                    }
                    assert forall|i: int, j: int| 0 <= i < j < files.len() implies views(
                        files@,
                    )[i].size >= views(files@)[j].size by {
                        assert(files[i].weight() >= files[j].weight());
                    }
                }
                Ok(files)
            }
        },
    }
}

} // verus!
