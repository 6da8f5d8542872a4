//! Reconciliation: bringing the index in line with the directory.
//!
//! A scan drops the records of files that are gone, adds a record for each
//! audio file that has none and whose metadata could be read, and puts the
//! index into title order. Reading metadata is the caller's part:
//! [`pending_reads`] says which files need it, and [`scan_library`] takes the
//! outcomes as a table of [`TagRead`] values.

use crate::library::{
    has_supported_extension, is_audio_path, tune_of, views, FileEntry, FileEntryView, Library,
    TrackTags, TrackTagsView, Tune, TuneView,
};
use crate::reconcile_laws::{
    all_listed, covers_reads, distinct_paths, lemma_scan_covers_reads,
    lemma_scan_indexes_audio_files_only, lemma_scan_is_ordered, lemma_scan_keeps_paths_distinct,
};
use crate::sorting::{is_ordered, ordered_by_title, sort_by_title};
use vstd::prelude::*;
use vstd::seq_lib::*;

verus! {

/// The outcome of reading the metadata of the file at `path`: the tags, or
/// `None` where the file could not be read.
#[derive(Debug, Clone)]
pub struct TagRead {
    pub path: String,
    pub tags: Option<TrackTags>,
}

/// The mathematical content of a [`TagRead`].
pub struct TagReadView {
    pub path: Seq<char>,
    pub tags: Option<TrackTagsView>,
}

impl View for TagRead {
    type V = TagReadView;

    open spec fn view(&self) -> TagReadView {
        TagReadView {
            path: self.path@,
            tags: match self.tags {
                Some(tags) => Some(tags@),
                None => None,
            },
        }
    }
}

/// Whether an entry of the directory is an audio file: a regular file whose
/// path names one.
pub open spec fn is_audio_file(entry: FileEntryView) -> bool {
    entry.is_file && is_audio_path(entry.info)
}

/// Whether the directory holds an audio file at `path`.
pub open spec fn lists(entries: Seq<FileEntryView>, path: Seq<char>) -> bool {
    exists|i: int|
        0 <= i < entries.len() && is_audio_file(#[trigger] entries[i]) && entries[i].info.path
            == path
}

/// Whether the index holds a record for `path`.
pub open spec fn has_path(index: Seq<TuneView>, path: Seq<char>) -> bool {
    exists|i: int| 0 <= i < index.len() && (#[trigger] index[i]).path == path
}

/// The records whose file the directory still holds.
pub open spec fn is_listed(entries: Seq<FileEntryView>) -> spec_fn(TuneView) -> bool {
    |tune: TuneView| lists(entries, tune.path)
}

/// The index without the records of files that are gone, the others in
/// their order.
pub open spec fn retained(index: Seq<TuneView>, entries: Seq<FileEntryView>) -> Seq<TuneView> {
    index.filter(is_listed(entries))
}

/// What the table says of `path`, looking from the row `from` on: the tags
/// of the first row for that path, `None` where that read failed or the
/// table has no such row.
pub open spec fn read_from(reads: Seq<TagReadView>, path: Seq<char>, from: int) -> Option<
    TrackTagsView,
>
    decreases reads.len() - from,
{
    if from < 0 || from >= reads.len() {
        None
    } else if reads[from].path == path {
        reads[from].tags
    } else {
        read_from(reads, path, from + 1)
    }
}

/// What the table says of `path`.
pub open spec fn read_for(reads: Seq<TagReadView>, path: Seq<char>) -> Option<TrackTagsView> {
    read_from(reads, path, 0)
}

/// The index after one entry of the directory has been looked at: an audio
/// file without a record gets one at the end, if its metadata was read.
pub open spec fn with_file(
    index: Seq<TuneView>,
    entry: FileEntryView,
    reads: Seq<TagReadView>,
) -> Seq<TuneView> {
    if is_audio_file(entry) && !has_path(index, entry.info.path) {
        match read_for(reads, entry.info.path) {
            Some(tags) => index.push(tune_of(entry.info, tags)),
            None => index,
        }
    } else {
        index
    }
}

/// The index after the entries of the directory have been looked at in turn.
pub open spec fn with_new_files(
    index: Seq<TuneView>,
    entries: Seq<FileEntryView>,
    reads: Seq<TagReadView>,
) -> Seq<TuneView>
    decreases entries.len(),
{
    if entries.len() == 0 {
        index
    } else {
        with_file(with_new_files(index, entries.drop_last(), reads), entries.last(), reads)
    }
}

/// The index after a scan: the records of vanished files dropped, the new
/// files added, the whole in title order.
pub open spec fn reconciled(
    index: Seq<TuneView>,
    entries: Seq<FileEntryView>,
    reads: Seq<TagReadView>,
) -> Seq<TuneView> {
    ordered_by_title(with_new_files(retained(index, entries), entries, reads))
}

/// The entries whose metadata a scan needs: the audio files without a
/// record.
pub open spec fn is_pending(index: Seq<TuneView>) -> spec_fn(FileEntryView) -> bool {
    |entry: FileEntryView| is_audio_file(entry) && !has_path(index, entry.info.path)
}

/// The path of an entry.
pub open spec fn path_of() -> spec_fn(FileEntryView) -> Seq<char> {
    |entry: FileEntryView| entry.info.path
}

/// The paths whose metadata a scan needs, in the order of the directory.
pub open spec fn pending_paths(index: Seq<TuneView>, entries: Seq<FileEntryView>) -> Seq<
    Seq<char>,
> {
    entries.filter(is_pending(index)).map_values(path_of())
}

/// For each entry, whether it is an audio file.
fn audio_flags(entries: &Vec<FileEntry>) -> (flags: Vec<bool>)
    ensures
        flags.len() == entries.len(),
        forall|i: int| 0 <= i < entries.len() ==> flags[i] == is_audio_file(#[trigger] entries[i]@),
{
    let mut flags: Vec<bool> = Vec::new();
    let mut i: usize = 0;
    while i < entries.len()
        invariant
            i <= entries.len(),
            flags.len() == i,
            forall|k: int| 0 <= k < i ==> flags[k] == is_audio_file(#[trigger] entries[k]@),
        decreases entries.len() - i,
    {
        let entry = &entries[i];
        flags.push(entry.is_file && has_supported_extension(&entry.info));
        i += 1;
    }
    flags
}

/// Whether the directory holds an audio file at `path`.
fn lists_path(entries: &Vec<FileEntry>, flags: &Vec<bool>, path: &String) -> (listed: bool)
    requires
        flags.len() == entries.len(),
        forall|i: int| 0 <= i < entries.len() ==> flags[i] == is_audio_file(#[trigger] entries[i]@),
    ensures
        listed == lists(views(entries@), path@),
{
    let mut i: usize = 0;
    while i < entries.len()
        invariant
            i <= entries.len(),
            flags.len() == entries.len(),
            forall|k: int|
                0 <= k < entries.len() ==> flags[k] == is_audio_file(#[trigger] entries[k]@),
            forall|k: int|
                0 <= k < i ==> !(is_audio_file(#[trigger] views(entries@)[k]) && views(
                    entries@,
                )[k].info.path == path@),
        decreases entries.len() - i,
    {
        if flags[i] && entries[i].info.path == *path {
            assert(is_audio_file(views(entries@)[i as int]));
            return true;
        }
        i += 1;
    }
    false
}

/// Whether the index holds a record for `path`.
pub fn index_has_path(tunes: &Vec<Tune>, path: &String) -> (found: bool)
    ensures
        found == has_path(views(tunes@), path@),
{
    let mut i: usize = 0;
    while i < tunes.len()
        invariant
            i <= tunes.len(),
            forall|k: int| 0 <= k < i ==> (#[trigger] views(tunes@)[k]).path != path@,
        decreases tunes.len() - i,
    {
        if tunes[i].path == *path {
            assert(views(tunes@)[i as int].path == path@);
            return true;
        }
        i += 1;
    }
    false
}

/// What the table says of `path`.
pub fn find_read<'a>(reads: &'a Vec<TagRead>, path: &String) -> (found: Option<&'a TrackTags>)
    ensures
        match found {
            Some(tags) => read_for(views(reads@), path@) == Some(tags@),
            None => read_for(views(reads@), path@) is None,
        },
{
    let mut i: usize = 0;
    while i < reads.len()
        invariant
            i <= reads.len(),
            read_for(views(reads@), path@) == read_from(views(reads@), path@, i as int),
        decreases reads.len() - i,
    {
        if reads[i].path == *path {
            assert(views(reads@)[i as int] == reads[i as int]@);
            return reads[i].tags.as_ref();
        }
        assert(views(reads@)[i as int] == reads[i as int]@);
        i += 1;
    }
    None
}

/// Drops the records of files that the directory no longer holds.
fn retain_listed(tunes: &mut Vec<Tune>, entries: &Vec<FileEntry>, flags: &Vec<bool>)
    requires
        flags.len() == entries.len(),
        forall|i: int| 0 <= i < entries.len() ==> flags[i] == is_audio_file(#[trigger] entries[i]@),
    ensures
        views(final(tunes)@) == retained(views(old(tunes)@), views(entries@)),
{
    broadcast use Seq::lemma_filter_push;

    let ghost given = views(tunes@);
    let ghost keep = is_listed(views(entries@));
    let ghost mut seen: int = 0;
    let mut i: usize = 0;
    assert(given.take(0).filter(keep) =~= Seq::<TuneView>::empty()) by {
        reveal(Seq::filter);
    }
    assert(views(tunes@) =~= given.take(0).filter(keep) + given.skip(0));
    while i < tunes.len()
        invariant
            0 <= seen <= given.len(),
            flags.len() == entries.len(),
            forall|k: int|
                0 <= k < entries.len() ==> flags[k] == is_audio_file(#[trigger] entries[k]@),
            keep == is_listed(views(entries@)),
            i == given.take(seen).filter(keep).len(),
            views(tunes@) == given.take(seen).filter(keep) + given.skip(seen),
        decreases tunes.len() - i,
    {
        let ghost before = views(tunes@);
        assert(before.len() == i + (given.len() - seen));
        assert(before[i as int] == given.skip(seen)[0]);
        assert(given.take(seen + 1) =~= given.take(seen).push(given[seen]));
        let listed = lists_path(entries, flags, &tunes[i].path);
        proof {
            assert(listed == keep(given[seen]));
            given.take(seen).lemma_filter_push(given[seen], keep);
            assert forall|k: int| 0 <= k < given.len() - seen - 1 implies #[trigger] before[i
                + 1 + k] == given.skip(seen + 1)[k] by {
                assert(before[i + 1 + k] == given.skip(seen)[k + 1]);
            }
        }
        if listed {
            assert(before =~= given.take(seen + 1).filter(keep) + given.skip(seen + 1));
            i += 1;
        } else {
            tunes.remove(i);
            assert(views(tunes@) =~= before.remove(i as int));
            assert(before.remove(i as int) =~= given.take(seen + 1).filter(keep)
                + given.skip(seen + 1));
        }
        proof {
            seen = seen + 1;
        }
    }
    assert(given.take(seen) =~= given);
    assert(views(tunes@) =~= given.filter(keep));
}

/// Adds a record for each audio file that has none and whose metadata the
/// table holds.
fn add_new_files(
    tunes: &mut Vec<Tune>,
    entries: &Vec<FileEntry>,
    flags: &Vec<bool>,
    reads: &Vec<TagRead>,
)
    requires
        flags.len() == entries.len(),
        forall|i: int| 0 <= i < entries.len() ==> flags[i] == is_audio_file(#[trigger] entries[i]@),
    ensures
        views(final(tunes)@) == with_new_files(
            views(old(tunes)@),
            views(entries@),
            views(reads@),
        ),
{
    let ghost given = views(tunes@);
    let ghost files = views(entries@);
    let mut i: usize = 0;
    assert(files.take(0) =~= Seq::<FileEntryView>::empty());
    while i < entries.len()
        invariant
            i <= entries.len(),
            flags.len() == entries.len(),
            files == views(entries@),
            forall|k: int|
                0 <= k < entries.len() ==> flags[k] == is_audio_file(#[trigger] entries[k]@),
            views(tunes@) == with_new_files(given, files.take(i as int), views(reads@)),
        decreases entries.len() - i,
    {
        let entry = &entries[i];
        proof {
            let next = files.take(i + 1);
            assert(next.drop_last() =~= files.take(i as int));
            assert(next.last() == entry@);
        }
        let ghost before = views(tunes@);
        if flags[i] && !index_has_path(tunes, &entry.info.path) {
            match find_read(reads, &entry.info.path) {
                Some(tags) => {
                    let tune = Tune::from_tags(&entry.info, tags);
                    tunes.push(tune);
                    assert(views(tunes@) =~= before.push(tune_of(entry.info@, tags@)));
                },
                None => {},
            }
        }
        i += 1;
    }
    assert(files.take(i as int) =~= files);
}

/// Brings the index in line with the directory: drops the records of files
/// that are gone, adds a record for each audio file that has none and whose
/// metadata `reads` holds, and puts the whole into title order. A file whose
/// read failed, or for which `reads` has no row, gets no record; the next
/// scan asks for it again.
///
/// The scanned index is in title order and holds records of audio files of
/// the directory only, one for each file whose metadata `reads` holds. Where
/// the paths of the index were unique, they still are.
pub fn scan_library(library: Library, entries: &Vec<FileEntry>, reads: &Vec<TagRead>) -> (scanned:
    Library)
    ensures
        scanned@ == reconciled(library@, views(entries@), views(reads@)),
        is_ordered(scanned@),
        all_listed(scanned@, views(entries@)),
        covers_reads(scanned@, views(entries@), views(reads@)),
        distinct_paths(library@) ==> distinct_paths(scanned@),
{
    proof {
        lemma_scan_is_ordered(library@, views(entries@), views(reads@));
        lemma_scan_indexes_audio_files_only(library@, views(entries@), views(reads@));
        lemma_scan_covers_reads(library@, views(entries@), views(reads@));
        if distinct_paths(library@) {
            lemma_scan_keeps_paths_distinct(library@, views(entries@), views(reads@));
        }
    }
    let mut tunes = library.tunes;
    let flags = audio_flags(entries);
    retain_listed(&mut tunes, entries, &flags);
    add_new_files(&mut tunes, entries, &flags, reads);
    sort_by_title(&mut tunes);
    Library { tunes }
}

/// The paths whose metadata the next scan needs: the audio files of the
/// directory that have no record yet, in the order of the directory.
pub fn pending_reads(library: &Library, entries: &Vec<FileEntry>) -> (paths: Vec<String>)
    ensures
        views(paths@) == pending_paths(library@, views(entries@)),
{
    broadcast use {Seq::lemma_filter_push, Seq::lemma_push_map_commute};

    let ghost files = views(entries@);
    let ghost pending = is_pending(library@);
    let mut paths: Vec<String> = Vec::new();
    let mut i: usize = 0;
    assert(files.take(0).filter(pending) =~= Seq::<FileEntryView>::empty()) by {
        reveal(Seq::filter);
    }
    assert(views(paths@) =~= files.take(0).filter(pending).map_values(path_of()));
    while i < entries.len()
        invariant
            i <= entries.len(),
            files == views(entries@),
            pending == is_pending(library@),
            views(paths@) == files.take(i as int).filter(pending).map_values(path_of()),
        decreases entries.len() - i,
    {
        let entry = &entries[i];
        let ghost before = views(paths@);
        proof {
            assert(files.take(i + 1) =~= files.take(i as int).push(entry@));
            files.take(i as int).lemma_filter_push(entry@, pending);
            files.take(i as int).filter(pending).lemma_push_map_commute(path_of(), entry@);
        }
        if entry.is_file && has_supported_extension(&entry.info) && !index_has_path(
            &library.tunes,
            &entry.info.path,
        ) {
            paths.push(entry.info.path.clone());
            assert(views(paths@) =~= before.push(entry@.info.path));
        }
        i += 1;
    }
    assert(files.take(i as int) =~= files);
    paths
}

} // verus!
