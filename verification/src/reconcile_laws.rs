//! What holds of every scan.

use crate::filters::{
    lemma_filter_agree, lemma_filter_all, lemma_filter_keeps, lemma_filter_places,
};
use crate::library::{track_id_of, tune_of, FileEntryView, TuneView};
use crate::reconcile::{
    has_path, is_audio_file, is_listed, is_pending, lists, pending_paths, read_for, reconciled,
    retained, with_file, with_new_files, TagReadView,
};
use crate::sorting::{
    is_ordered, lemma_ordered_by_title_has_same_tunes, lemma_ordered_by_title_is_ordered,
    lemma_ordered_by_title_of_ordered, lemma_place_of, ordered_by_title, place_of, placed,
    title_le,
};
use vstd::prelude::*;

verus! {

/// Every record belongs to an audio file of the directory.
pub open spec fn all_listed(index: Seq<TuneView>, entries: Seq<FileEntryView>) -> bool {
    forall|i: int| 0 <= i < index.len() ==> lists(entries, (#[trigger] index[i]).path)
}

/// No two records share a path.
pub open spec fn distinct_paths(index: Seq<TuneView>) -> bool {
    forall|i: int, j: int|
        0 <= i < j < index.len() ==> (#[trigger] index[i]).path != (#[trigger] index[j]).path
}

/// Every audio file whose metadata the table holds has a record.
pub open spec fn covers_reads(
    index: Seq<TuneView>,
    entries: Seq<FileEntryView>,
    reads: Seq<TagReadView>,
) -> bool {
    forall|i: int|
        0 <= i < entries.len() && is_audio_file(#[trigger] entries[i]) && read_for(
            reads,
            entries[i].info.path,
        ) is Some ==> has_path(index, entries[i].info.path)
}

/// The entries that lie elsewhere than at `path`.
pub open spec fn is_elsewhere(path: Seq<char>) -> spec_fn(FileEntryView) -> bool {
    |entry: FileEntryView| entry.info.path != path
}

/// The records of files that lie elsewhere than at `path`.
pub open spec fn is_record_elsewhere(path: Seq<char>) -> spec_fn(TuneView) -> bool {
    |tune: TuneView| tune.path != path
}

/// Two tables say the same of every path whose metadata a scan needs.
pub open spec fn same_pending_reads(
    index: Seq<TuneView>,
    entries: Seq<FileEntryView>,
    first: Seq<TagReadView>,
    second: Seq<TagReadView>,
) -> bool {
    forall|k: int|
        0 <= k < pending_paths(index, entries).len() ==> read_for(
            first,
            #[trigger] pending_paths(index, entries)[k],
        ) == read_for(second, pending_paths(index, entries)[k])
}

/// Dropping records leaves the rest in title order.
pub proof fn lemma_filter_is_ordered(tunes: Seq<TuneView>, keep: spec_fn(TuneView) -> bool)
    requires
        is_ordered(tunes),
    ensures
        is_ordered(tunes.filter(keep)),
{
    let places = lemma_filter_places(tunes, keep);
    let kept = tunes.filter(keep);
    assert forall|i: int, j: int| 0 <= i <= j < kept.len() implies title_le(
        #[trigger] kept[i],
        #[trigger] kept[j],
    ) by {
        assert(kept[i] == tunes[places[i]] && kept[j] == tunes[places[j]]);
        if i < j {
            assert(places[i] < places[j]);
        }
    }
}

/// Dropping records leaves the paths distinct.
pub proof fn lemma_filter_is_distinct(tunes: Seq<TuneView>, keep: spec_fn(TuneView) -> bool)
    requires
        distinct_paths(tunes),
    ensures
        distinct_paths(tunes.filter(keep)),
{
    let places = lemma_filter_places(tunes, keep);
    let kept = tunes.filter(keep);
    assert forall|i: int, j: int| 0 <= i < j < kept.len() implies (#[trigger] kept[i]).path != (
    #[trigger] kept[j]).path by {
        assert(kept[i] == tunes[places[i]] && kept[j] == tunes[places[j]]);
        assert(places[i] < places[j]);
    }
}

/// Title order keeps the paths: the ordered index has a record for a path
/// exactly if the index has one.
pub proof fn lemma_ordered_has_same_paths(tunes: Seq<TuneView>, path: Seq<char>)
    ensures
        has_path(ordered_by_title(tunes), path) <==> has_path(tunes, path),
{
    let ordered = ordered_by_title(tunes);
    if has_path(ordered, path) {
        let i = choose|i: int| 0 <= i < ordered.len() && (#[trigger] ordered[i]).path == path;
        lemma_ordered_by_title_has_same_tunes(tunes, ordered[i]);
        assert(ordered.contains(ordered[i]));
        let j = choose|j: int| 0 <= j < tunes.len() && tunes[j] == ordered[i];
        assert(tunes[j].path == path);
    }
    if has_path(tunes, path) {
        let i = choose|i: int| 0 <= i < tunes.len() && (#[trigger] tunes[i]).path == path;
        lemma_ordered_by_title_has_same_tunes(tunes, tunes[i]);
        assert(tunes.contains(tunes[i]));
        let j = choose|j: int| 0 <= j < ordered.len() && ordered[j] == tunes[i];
        assert(ordered[j].path == path);
    }
}

/// Title order leaves the paths distinct.
pub proof fn lemma_ordered_is_distinct(tunes: Seq<TuneView>)
    requires
        distinct_paths(tunes),
    ensures
        distinct_paths(ordered_by_title(tunes)),
    decreases tunes.len(),
{
    if tunes.len() != 0 {
        let front = tunes.drop_last();
        let last = tunes.last();
        let before = ordered_by_title(front);
        assert(distinct_paths(front)) by {
            assert forall|i: int, j: int| 0 <= i < j < front.len() implies (
            #[trigger] front[i]).path != (#[trigger] front[j]).path by {
                assert(front[i] == tunes[i] && front[j] == tunes[j]);
            }
        }
        lemma_ordered_is_distinct(front);
        lemma_ordered_has_same_paths(front, last.path);
        assert(!has_path(front, last.path)) by {
            if has_path(front, last.path) {
                let i = choose|i: int| 0 <= i < front.len() && (#[trigger] front[i]).path
                    == last.path;
                assert(front[i] == tunes[i]);
                assert(tunes[tunes.len() - 1] == last);
            }
        }
        lemma_place_of(before, last);
        let at = place_of(before, last);
        let after = placed(before, last);
        assert forall|i: int, j: int| 0 <= i < j < after.len() implies (
        #[trigger] after[i]).path != (#[trigger] after[j]).path by {
            let from = if i < at { i } else { i - 1 };
            let to = if j < at { j } else { j - 1 };
            if i == at {
                assert(after[j] == before[to]);
            } else if j == at {
                assert(after[i] == before[from]);
            } else {
                assert(after[i] == before[from] && after[j] == before[to]);
            }
        }
    }
}

/// Looking at an entry keeps the records that were there, in their places.
proof fn lemma_with_file_extends(
    index: Seq<TuneView>,
    entry: FileEntryView,
    reads: Seq<TagReadView>,
)
    ensures
        index.is_prefix_of(with_file(index, entry, reads)),
        forall|path: Seq<char>|
            has_path(index, path) ==> #[trigger] has_path(with_file(index, entry, reads), path),
{
    let after = with_file(index, entry, reads);
    assert(index.is_prefix_of(after));
    assert forall|path: Seq<char>| has_path(index, path) implies #[trigger] has_path(
        after,
        path,
    ) by {
        let i = choose|i: int| 0 <= i < index.len() && (#[trigger] index[i]).path == path;
        assert(after[i] == index[i]);
    }
}

/// Looking at the entries keeps the records that were there, in their
/// places.
pub proof fn lemma_new_files_extend(
    index: Seq<TuneView>,
    entries: Seq<FileEntryView>,
    reads: Seq<TagReadView>,
)
    ensures
        index.is_prefix_of(with_new_files(index, entries, reads)),
        forall|path: Seq<char>|
            has_path(index, path) ==> #[trigger] has_path(
                with_new_files(index, entries, reads),
                path,
            ),
    decreases entries.len(),
{
    if entries.len() != 0 {
        let before = with_new_files(index, entries.drop_last(), reads);
        lemma_new_files_extend(index, entries.drop_last(), reads);
        lemma_with_file_extends(before, entries.last(), reads);
    }
}

/// Where every record belongs to an audio file of the directory, the same
/// holds once the first `n` entries have been looked at.
proof fn lemma_new_files_are_listed(
    index: Seq<TuneView>,
    entries: Seq<FileEntryView>,
    reads: Seq<TagReadView>,
    n: int,
)
    requires
        0 <= n <= entries.len(),
        all_listed(index, entries),
    ensures
        all_listed(with_new_files(index, entries.take(n), reads), entries),
    decreases n,
{
    if n == 0 {
        assert(entries.take(0) =~= Seq::<FileEntryView>::empty());
    } else {
        lemma_new_files_are_listed(index, entries, reads, n - 1);
        let before = with_new_files(index, entries.take(n - 1), reads);
        let after = with_new_files(index, entries.take(n), reads);
        assert(entries.take(n).drop_last() =~= entries.take(n - 1));
        assert(entries.take(n).last() == entries[n - 1]);
        assert(after == with_file(before, entries[n - 1], reads));
        assert forall|i: int| 0 <= i < after.len() implies lists(
            entries,
            (#[trigger] after[i]).path,
        ) by {
            if i < before.len() {
                assert(after[i] == before[i]);
            } else {
                assert(after[i].path == entries[n - 1].info.path);
                assert(is_audio_file(entries[n - 1]));
            }
        }
    }
}

/// Once the first `n` entries have been looked at, each audio file among
/// them whose metadata the table holds has a record.
proof fn lemma_new_files_cover_reads(
    index: Seq<TuneView>,
    entries: Seq<FileEntryView>,
    reads: Seq<TagReadView>,
    n: int,
)
    requires
        0 <= n <= entries.len(),
    ensures
        covers_reads(with_new_files(index, entries.take(n), reads), entries.take(n), reads),
    decreases n,
{
    if n == 0 {
        assert(entries.take(0) =~= Seq::<FileEntryView>::empty());
    } else {
        lemma_new_files_cover_reads(index, entries, reads, n - 1);
        let before = with_new_files(index, entries.take(n - 1), reads);
        let after = with_new_files(index, entries.take(n), reads);
        let entry = entries[n - 1];
        assert(entries.take(n).drop_last() =~= entries.take(n - 1));
        assert(entries.take(n).last() == entry);
        assert(after == with_file(before, entry, reads));
        lemma_with_file_extends(before, entry, reads);
        assert forall|i: int|
            0 <= i < n && is_audio_file(#[trigger] entries.take(n)[i]) && read_for(
                reads,
                entries.take(n)[i].info.path,
            ) is Some implies has_path(after, entries.take(n)[i].info.path) by {
            if i < n - 1 {
                assert(entries.take(n - 1)[i] == entries.take(n)[i]);
                assert(has_path(before, entries.take(n - 1)[i].info.path));
            } else if !has_path(before, entry.info.path) {
                assert(after[before.len() as int].path == entry.info.path);
            }
        }
    }
}

/// Where each audio file whose metadata the table holds has a record,
/// looking at the entries adds nothing.
pub proof fn lemma_new_files_add_nothing(
    index: Seq<TuneView>,
    entries: Seq<FileEntryView>,
    reads: Seq<TagReadView>,
)
    requires
        covers_reads(index, entries, reads),
    ensures
        with_new_files(index, entries, reads) == index,
    decreases entries.len(),
{
    if entries.len() != 0 {
        let front = entries.drop_last();
        assert(covers_reads(index, front, reads)) by {
            assert forall|i: int|
                0 <= i < front.len() && is_audio_file(#[trigger] front[i]) && read_for(
                    reads,
                    front[i].info.path,
                ) is Some implies has_path(index, front[i].info.path) by {
                assert(front[i] == entries[i]);
            }
        }
        lemma_new_files_add_nothing(index, front, reads);
        assert(entries.last() == entries[entries.len() - 1]);
    }
}

/// Looking at the entries leaves the paths distinct.
pub proof fn lemma_new_files_are_distinct(
    index: Seq<TuneView>,
    entries: Seq<FileEntryView>,
    reads: Seq<TagReadView>,
)
    requires
        distinct_paths(index),
    ensures
        distinct_paths(with_new_files(index, entries, reads)),
    decreases entries.len(),
{
    if entries.len() != 0 {
        let before = with_new_files(index, entries.drop_last(), reads);
        let after = with_new_files(index, entries, reads);
        lemma_new_files_are_distinct(index, entries.drop_last(), reads);
        assert forall|i: int, j: int| 0 <= i < j < after.len() implies (
        #[trigger] after[i]).path != (#[trigger] after[j]).path by {
            assert(after[i] == before[i]);
            if j < before.len() {
                assert(after[j] == before[j]);
            }
        }
    }
}

/// What two tables agree on for the pending files, they agree on for the
/// scan: the first `n` entries add the same records under both.
proof fn lemma_new_files_need_pending_reads_only(
    index: Seq<TuneView>,
    entries: Seq<FileEntryView>,
    first: Seq<TagReadView>,
    second: Seq<TagReadView>,
    n: int,
)
    requires
        0 <= n <= entries.len(),
        same_pending_reads(index, entries, first, second),
    ensures
        with_new_files(retained(index, entries), entries.take(n), first) == with_new_files(
            retained(index, entries),
            entries.take(n),
            second,
        ),
    decreases n,
{
    if n == 0 {
        assert(entries.take(0) =~= Seq::<FileEntryView>::empty());
    } else {
        lemma_new_files_need_pending_reads_only(index, entries, first, second, n - 1);
        let kept = retained(index, entries);
        let before = with_new_files(kept, entries.take(n - 1), first);
        let entry = entries[n - 1];
        assert(entries.take(n).drop_last() =~= entries.take(n - 1));
        assert(entries.take(n).last() == entry);
        if is_audio_file(entry) && !has_path(before, entry.info.path) {
            // The file has no record in the old index either: its record
            // would have been kept.
            if has_path(index, entry.info.path) {
                let i = choose|i: int|
                    0 <= i < index.len() && (#[trigger] index[i]).path == entry.info.path;
                assert(is_listed(entries)(index[i]));
                let place = lemma_filter_keeps(index, is_listed(entries), i);
                assert(kept[place].path == entry.info.path);
                lemma_new_files_extend(kept, entries.take(n - 1), first);
                assert(has_path(kept, entry.info.path));
            }
            assert(is_pending(index)(entry));
            let place = lemma_filter_keeps(entries, is_pending(index), n - 1);
            assert(pending_paths(index, entries)[place] == entry.info.path);
        }
    }
}

/// A scan indexes audio files only: every record of the scanned index
/// belongs to an entry of the directory that is a regular file with a
/// supported extension, other than the index file. No file with another
/// extension gets or keeps a record, whatever the table says of it.
pub proof fn lemma_scan_indexes_audio_files_only(
    index: Seq<TuneView>,
    entries: Seq<FileEntryView>,
    reads: Seq<TagReadView>,
)
    ensures
        all_listed(reconciled(index, entries, reads), entries),
        forall|path: Seq<char>|
            !lists(entries, path) ==> !#[trigger] has_path(reconciled(index, entries, reads), path),
{
    let kept = retained(index, entries);
    let merged = with_new_files(kept, entries, reads);
    let scanned = reconciled(index, entries, reads);
    assert(all_listed(kept, entries)) by {
        assert forall|i: int| 0 <= i < kept.len() implies lists(
            entries,
            (#[trigger] kept[i]).path,
        ) by {
            index.lemma_filter_pred(is_listed(entries), i);
        }
    }
    lemma_new_files_are_listed(kept, entries, reads, entries.len() as int);
    assert(entries.take(entries.len() as int) =~= entries);
    assert forall|i: int| 0 <= i < scanned.len() implies lists(
        entries,
        (#[trigger] scanned[i]).path,
    ) by {
        lemma_ordered_by_title_has_same_tunes(merged, scanned[i]);
        assert(scanned.contains(scanned[i]));
        let j = choose|j: int| 0 <= j < merged.len() && merged[j] == scanned[i];
        assert(lists(entries, merged[j].path));
    }
    assert forall|path: Seq<char>| !lists(entries, path) implies !#[trigger] has_path(
        scanned,
        path,
    ) by {
        if has_path(scanned, path) {
            let i = choose|i: int| 0 <= i < scanned.len() && (#[trigger] scanned[i]).path == path;
            assert(lists(entries, scanned[i].path));
        }
    }
}

/// The record was made for an audio file of the directory, from the
/// metadata that the table holds for its path.
pub open spec fn is_made_from_read(
    tune: TuneView,
    entries: Seq<FileEntryView>,
    reads: Seq<TagReadView>,
) -> bool {
    exists|i: int|
        0 <= i < entries.len() && is_audio_file(#[trigger] entries[i]) && (read_for(
            reads,
            entries[i].info.path,
        ) matches Some(tags) && tune == tune_of(entries[i].info, tags))
}

/// Once the first `n` entries have been looked at, every record behind those
/// that were there was made from a read.
proof fn lemma_new_files_are_made_from_reads(
    index: Seq<TuneView>,
    entries: Seq<FileEntryView>,
    reads: Seq<TagReadView>,
    n: int,
)
    requires
        0 <= n <= entries.len(),
    ensures
        forall|k: int|
            index.len() <= k < with_new_files(index, entries.take(n), reads).len()
                ==> is_made_from_read(
                #[trigger] with_new_files(index, entries.take(n), reads)[k],
                entries,
                reads,
            ),
    decreases n,
{
    if n == 0 {
        assert(entries.take(0) =~= Seq::<FileEntryView>::empty());
    } else {
        lemma_new_files_are_made_from_reads(index, entries, reads, n - 1);
        let before = with_new_files(index, entries.take(n - 1), reads);
        let after = with_new_files(index, entries.take(n), reads);
        let entry = entries[n - 1];
        assert(entries.take(n).drop_last() =~= entries.take(n - 1));
        assert(entries.take(n).last() == entry);
        assert(after == with_file(before, entry, reads));
        assert forall|k: int| index.len() <= k < after.len() implies is_made_from_read(
            #[trigger] after[k],
            entries,
            reads,
        ) by {
            if k < before.len() {
                assert(after[k] == before[k]);
            } else {
                assert(is_audio_file(entries[n - 1]));
                assert(after[k] == tune_of(entry.info, read_for(reads, entry.info.path)->0));
            }
        }
    }
}

/// A scan makes no record up: every record of the scanned index is a record
/// of the index as it was, or was made for an audio file of the directory
/// from the metadata that the table holds for its path.
pub proof fn lemma_scan_adds_read_records_only(
    index: Seq<TuneView>,
    entries: Seq<FileEntryView>,
    reads: Seq<TagReadView>,
)
    ensures
        forall|k: int|
            0 <= k < reconciled(index, entries, reads).len() ==> index.contains(
                #[trigger] reconciled(index, entries, reads)[k],
            ) || is_made_from_read(reconciled(index, entries, reads)[k], entries, reads),
{
    let kept = retained(index, entries);
    let merged = with_new_files(kept, entries, reads);
    let scanned = reconciled(index, entries, reads);
    let places = lemma_filter_places(index, is_listed(entries));
    lemma_new_files_extend(kept, entries, reads);
    lemma_new_files_are_made_from_reads(kept, entries, reads, entries.len() as int);
    assert(entries.take(entries.len() as int) =~= entries);
    assert forall|k: int| 0 <= k < scanned.len() implies index.contains(#[trigger] scanned[k])
        || is_made_from_read(scanned[k], entries, reads) by {
        lemma_ordered_by_title_has_same_tunes(merged, scanned[k]);
        assert(scanned.contains(scanned[k]));
        let j = choose|j: int| 0 <= j < merged.len() && merged[j] == scanned[k];
        if j < kept.len() {
            assert(merged[j] == kept[j]);
            assert(index[places[j]] == kept[j]);
        }
    }
}

/// Every record carries the identifier of its path.
pub open spec fn has_path_ids(index: Seq<TuneView>) -> bool {
    forall|i: int| 0 <= i < index.len() ==> (#[trigger] index[i]).id == track_id_of(index[i].path)
}

/// Every record that a scan adds carries the identifier of its path, so an
/// index in which every record does, such as the empty one, stays such an
/// index, run after run.
pub proof fn lemma_scan_keeps_path_ids(
    index: Seq<TuneView>,
    entries: Seq<FileEntryView>,
    reads: Seq<TagReadView>,
)
    requires
        has_path_ids(index),
    ensures
        has_path_ids(reconciled(index, entries, reads)),
{
    let scanned = reconciled(index, entries, reads);
    lemma_scan_adds_read_records_only(index, entries, reads);
    assert forall|k: int| 0 <= k < scanned.len() implies (#[trigger] scanned[k]).id
        == track_id_of(scanned[k].path) by {
        if index.contains(scanned[k]) {
            let i = choose|i: int| 0 <= i < index.len() && index[i] == scanned[k];
            assert(index[i].id == track_id_of(index[i].path));
        }
    }
}

/// After a scan, each audio file whose metadata the table holds has a
/// record.
pub proof fn lemma_scan_covers_reads(
    index: Seq<TuneView>,
    entries: Seq<FileEntryView>,
    reads: Seq<TagReadView>,
)
    ensures
        covers_reads(reconciled(index, entries, reads), entries, reads),
{
    let kept = retained(index, entries);
    let merged = with_new_files(kept, entries, reads);
    lemma_new_files_cover_reads(kept, entries, reads, entries.len() as int);
    assert(entries.take(entries.len() as int) =~= entries);
    assert forall|i: int|
        0 <= i < entries.len() && is_audio_file(#[trigger] entries[i]) && read_for(
            reads,
            entries[i].info.path,
        ) is Some implies has_path(reconciled(index, entries, reads), entries[i].info.path) by {
        lemma_ordered_has_same_paths(merged, entries[i].info.path);
    }
}

/// A scan is in title order.
pub proof fn lemma_scan_is_ordered(
    index: Seq<TuneView>,
    entries: Seq<FileEntryView>,
    reads: Seq<TagReadView>,
)
    ensures
        is_ordered(reconciled(index, entries, reads)),
{
    lemma_ordered_by_title_is_ordered(with_new_files(retained(index, entries), entries, reads));
}

/// The paths of the index stay unique: a scan of an index in which no two
/// records share a path gives such an index.
pub proof fn lemma_scan_keeps_paths_distinct(
    index: Seq<TuneView>,
    entries: Seq<FileEntryView>,
    reads: Seq<TagReadView>,
)
    requires
        distinct_paths(index),
    ensures
        distinct_paths(reconciled(index, entries, reads)),
{
    lemma_filter_is_distinct(index, is_listed(entries));
    lemma_new_files_are_distinct(retained(index, entries), entries, reads);
    lemma_ordered_is_distinct(with_new_files(retained(index, entries), entries, reads));
}

/// A scan leaves the records of the files that are still there untouched:
/// each is in the scanned index as it was.
pub proof fn lemma_scan_keeps_listed_records(
    index: Seq<TuneView>,
    entries: Seq<FileEntryView>,
    reads: Seq<TagReadView>,
    i: int,
)
    requires
        0 <= i < index.len(),
        lists(entries, index[i].path),
    ensures
        reconciled(index, entries, reads).contains(index[i]),
{
    let kept = retained(index, entries);
    let merged = with_new_files(kept, entries, reads);
    assert(is_listed(entries)(index[i]));
    let place = lemma_filter_keeps(index, is_listed(entries), i);
    lemma_new_files_extend(kept, entries, reads);
    assert(merged[place] == index[i]);
    assert(merged.contains(index[i]));
    lemma_ordered_by_title_has_same_tunes(merged, index[i]);
}

/// A scan needs the metadata of the pending files only: two tables that say
/// the same of each pending path give the same scan.
pub proof fn lemma_scan_needs_pending_reads_only(
    index: Seq<TuneView>,
    entries: Seq<FileEntryView>,
    first: Seq<TagReadView>,
    second: Seq<TagReadView>,
)
    requires
        same_pending_reads(index, entries, first, second),
    ensures
        reconciled(index, entries, first) == reconciled(index, entries, second),
{
    lemma_new_files_need_pending_reads_only(index, entries, first, second, entries.len() as int);
    assert(entries.take(entries.len() as int) =~= entries);
}

/// Scanning is idempotent: a second scan of an unchanged directory, with the
/// same outcomes of reading, gives the index that the first scan gave.
pub proof fn lemma_scan_is_idempotent(
    index: Seq<TuneView>,
    entries: Seq<FileEntryView>,
    reads: Seq<TagReadView>,
)
    ensures
        reconciled(reconciled(index, entries, reads), entries, reads) == reconciled(
            index,
            entries,
            reads,
        ),
{
    let scanned = reconciled(index, entries, reads);
    lemma_scan_indexes_audio_files_only(index, entries, reads);
    assert forall|i: int| 0 <= i < scanned.len() implies is_listed(entries)(
        #[trigger] scanned[i],
    ) by {}
    lemma_filter_all(scanned, is_listed(entries));
    lemma_scan_covers_reads(index, entries, reads);
    lemma_new_files_add_nothing(scanned, entries, reads);
    lemma_scan_is_ordered(index, entries, reads);
    lemma_ordered_by_title_of_ordered(scanned);
}

/// Where no two records share a path, exactly one record lies at a path that
/// has one: without it the index is one record shorter.
pub proof fn lemma_one_record_per_path(index: Seq<TuneView>, path: Seq<char>)
    requires
        distinct_paths(index),
        has_path(index, path),
    ensures
        index.filter(is_record_elsewhere(path)).len() == index.len() - 1,
    decreases index.len(),
{
    reveal(Seq::filter);
    let front = index.drop_last();
    let last = index[index.len() - 1];
    assert(distinct_paths(front)) by {
        assert forall|i: int, j: int| 0 <= i < j < front.len() implies (#[trigger] front[i]).path
            != (#[trigger] front[j]).path by {
            assert(front[i] == index[i] && front[j] == index[j]);
        }
    }
    if last.path == path {
        assert forall|i: int| 0 <= i < front.len() implies is_record_elsewhere(path)(
            #[trigger] front[i],
        ) by {
            assert(front[i] == index[i]);
        }
        lemma_filter_all(front, is_record_elsewhere(path));
    } else {
        let i = choose|i: int| 0 <= i < index.len() && (#[trigger] index[i]).path == path;
        assert(front[i] == index[i]);
        lemma_one_record_per_path(front, path);
    }
}

/// When the file at `path` has left the directory, the next scan gives the
/// scanned index without the records for `path`, and with every other record
/// in its place. Where the paths of the index were
/// unique and the file had a record, that is one record less.
pub proof fn lemma_scan_after_removal(
    index: Seq<TuneView>,
    entries: Seq<FileEntryView>,
    reads: Seq<TagReadView>,
    path: Seq<char>,
)
    ensures
        reconciled(
            reconciled(index, entries, reads),
            entries.filter(is_elsewhere(path)),
            reads,
        ) == reconciled(index, entries, reads).filter(is_record_elsewhere(path)),
        distinct_paths(index) && has_path(reconciled(index, entries, reads), path) ==> reconciled(
            reconciled(index, entries, reads),
            entries.filter(is_elsewhere(path)),
            reads,
        ).len() == reconciled(index, entries, reads).len() - 1,
{
    if distinct_paths(index) && has_path(reconciled(index, entries, reads), path) {
        lemma_scan_keeps_paths_distinct(index, entries, reads);
        lemma_one_record_per_path(reconciled(index, entries, reads), path);
    }
    let scanned = reconciled(index, entries, reads);
    let left = entries.filter(is_elsewhere(path));
    let rest = scanned.filter(is_record_elsewhere(path));
    lemma_scan_indexes_audio_files_only(index, entries, reads);
    // The records that stay are those of the files elsewhere.
    assert forall|i: int| 0 <= i < scanned.len() implies is_listed(left)(#[trigger] scanned[i])
        == is_record_elsewhere(path)(scanned[i]) by {
        let tune = scanned[i];
        assert(lists(entries, tune.path));
        if tune.path != path {
            let j = choose|j: int|
                0 <= j < entries.len() && is_audio_file(#[trigger] entries[j])
                    && entries[j].info.path == tune.path;
            assert(is_elsewhere(path)(entries[j]));
            let place = lemma_filter_keeps(entries, is_elsewhere(path), j);
            assert(is_audio_file(left[place]) && left[place].info.path == tune.path);
        }
        if lists(left, tune.path) {
            let j = choose|j: int|
                0 <= j < left.len() && is_audio_file(#[trigger] left[j]) && left[j].info.path
                    == tune.path;
            entries.lemma_filter_pred(is_elsewhere(path), j);
        }
    }
    lemma_filter_agree(scanned, is_listed(left), is_record_elsewhere(path));
    assert(retained(scanned, left) == rest);
    // No file that is left lacks a record.
    lemma_scan_covers_reads(index, entries, reads);
    let places = lemma_filter_places(entries, is_elsewhere(path));
    assert forall|i: int|
        0 <= i < left.len() && is_audio_file(#[trigger] left[i]) && read_for(
            reads,
            left[i].info.path,
        ) is Some implies has_path(rest, left[i].info.path) by {
        entries.lemma_filter_pred(is_elsewhere(path), i);
        assert(left[i] == entries[places[i]]);
        assert(has_path(scanned, entries[places[i]].info.path));
        let j = choose|j: int|
            0 <= j < scanned.len() && (#[trigger] scanned[j]).path == left[i].info.path;
        assert(is_record_elsewhere(path)(scanned[j]));
        let place = lemma_filter_keeps(scanned, is_record_elsewhere(path), j);
        assert(rest[place].path == left[i].info.path);
    }
    lemma_new_files_add_nothing(rest, left, reads);
    // And the rest is in title order as it stands.
    lemma_scan_is_ordered(index, entries, reads);
    lemma_filter_is_ordered(scanned, is_record_elsewhere(path));
    lemma_ordered_by_title_of_ordered(rest);
}

} // verus!
