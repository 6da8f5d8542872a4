//! The records of the index and what they are made from.
//!
//! A [`Tune`] is one audio file with the metadata that was read from it. Its
//! identifier is derived from its path alone. Files come in as
//! [`FileEntry`] values, metadata as [`TrackTags`]: the caller lists the
//! directory and reads the tags, and this module decides what counts as an
//! audio file and what the record of one looks like.

use crate::text::{clone_text, lowercase_of, same_text, text_of, to_hex, to_lowercase, hex_of};
use vstd::prelude::*;
use vstd::string::*;
use vstd::utf8::*;

verus! {

/// One track of the index.
#[derive(Debug, Clone)]
pub struct Tune {
    pub id: String,
    pub filename: String,
    pub path: String,
    pub title: Option<String>,
    pub artist: Option<String>,
    pub album: Option<String>,
    pub year: Option<u32>,
    pub track_number: Option<u32>,
    pub genre: Option<String>,
    pub duration_secs: u64,
}

/// The mathematical content of a [`Tune`].
pub struct TuneView {
    pub id: Seq<char>,
    pub filename: Seq<char>,
    pub path: Seq<char>,
    pub title: Option<Seq<char>>,
    pub artist: Option<Seq<char>>,
    pub album: Option<Seq<char>>,
    pub year: Option<u32>,
    pub track_number: Option<u32>,
    pub genre: Option<Seq<char>>,
    pub duration_secs: u64,
}

impl View for Tune {
    type V = TuneView;

    open spec fn view(&self) -> TuneView {
        TuneView {
            id: self.id@,
            filename: self.filename@,
            path: self.path@,
            title: text_of(self.title),
            artist: text_of(self.artist),
            album: text_of(self.album),
            year: self.year,
            track_number: self.track_number,
            genre: text_of(self.genre),
            duration_secs: self.duration_secs,
        }
    }
}

/// The content of each item of a sequence, in the same order.
pub open spec fn views<T: View>(items: Seq<T>) -> Seq<T::V> {
    items.map_values(|item: T| item@)
}

/// The index: the tunes of one directory.
#[derive(Debug, Clone)]
pub struct Library {
    pub tunes: Vec<Tune>,
}

impl View for Library {
    type V = Seq<TuneView>;

    open spec fn view(&self) -> Seq<TuneView> {
        views(self.tunes@)
    }
}

impl Library {
    /// The index to start a scan from: the one that was loaded, or the empty
    /// one where none exists or it could not be loaded.
    pub fn or_empty(loaded: Option<Library>) -> (library: Library)
        ensures
            library@ == match loaded {
                Some(index) => index@,
                None => Seq::<TuneView>::empty(),
            },
    {
        match loaded {
            Some(index) => index,
            None => Library::default(),
        }
    }
}

impl Default for Library {
    /// The empty index.
    fn default() -> (library: Library)
        ensures
            library@ == Seq::<TuneView>::empty(),
    {
        let library = Library { tunes: Vec::new() };
        assert(library@ =~= Seq::<TuneView>::empty());
        library
    }
}

/// A path as the index reads it: the whole path as text, and its last
/// component and that component's extension where they are valid text.
#[derive(Debug, Clone)]
pub struct PathInfo {
    pub path: String,
    pub file_name: Option<String>,
    pub extension: Option<String>,
}

/// The mathematical content of a [`PathInfo`].
pub struct PathInfoView {
    pub path: Seq<char>,
    pub file_name: Option<Seq<char>>,
    pub extension: Option<Seq<char>>,
}

impl View for PathInfo {
    type V = PathInfoView;

    open spec fn view(&self) -> PathInfoView {
        PathInfoView {
            path: self.path@,
            file_name: text_of(self.file_name),
            extension: text_of(self.extension),
        }
    }
}

/// One child of the scanned directory.
#[derive(Debug, Clone)]
pub struct FileEntry {
    pub info: PathInfo,
    /// Whether it is a regular file.
    pub is_file: bool,
}

/// The mathematical content of a [`FileEntry`].
pub struct FileEntryView {
    pub info: PathInfoView,
    pub is_file: bool,
}

impl View for FileEntry {
    type V = FileEntryView;

    open spec fn view(&self) -> FileEntryView {
        FileEntryView { info: self.info@, is_file: self.is_file }
    }
}

/// The metadata read from one file. A duration that could not be determined
/// is 0.
#[derive(Debug, Clone)]
pub struct TrackTags {
    pub title: Option<String>,
    pub artist: Option<String>,
    pub album: Option<String>,
    pub year: Option<u32>,
    pub track_number: Option<u32>,
    pub genre: Option<String>,
    pub duration_secs: u64,
}

/// The mathematical content of a [`TrackTags`].
pub struct TrackTagsView {
    pub title: Option<Seq<char>>,
    pub artist: Option<Seq<char>>,
    pub album: Option<Seq<char>>,
    pub year: Option<u32>,
    pub track_number: Option<u32>,
    pub genre: Option<Seq<char>>,
    pub duration_secs: u64,
}

impl View for TrackTags {
    type V = TrackTagsView;

    open spec fn view(&self) -> TrackTagsView {
        TrackTagsView {
            title: text_of(self.title),
            artist: text_of(self.artist),
            album: text_of(self.album),
            year: self.year,
            track_number: self.track_number,
            genre: text_of(self.genre),
            duration_secs: self.duration_secs,
        }
    }
}

/// The name of the file that holds the persisted index. It lies in the
/// scanned directory and is never a track.
pub open spec fn library_file() -> Seq<char> {
    "library.json"@
}

/// Whether a lower-case extension is one of the supported audio formats.
pub open spec fn is_supported_format(lower: Seq<char>) -> bool {
    ||| lower == "mp3"@
    ||| lower == "flac"@
    ||| lower == "wav"@
    ||| lower == "m4a"@
    ||| lower == "ogg"@
    ||| lower == "aac"@
}

/// Whether a path names an audio file: it is not the index file, and its
/// extension, in lower case, is a supported format.
pub open spec fn is_audio_path(info: PathInfoView) -> bool {
    &&& info.file_name != Some(library_file())
    &&& info.extension matches Some(extension)
    &&& is_supported_format(lowercase_of(extension))
}

/// Whether `lower`, an extension already in lower case, is one of the
/// supported audio formats.
pub fn is_supported_lowercase(lower: &str) -> (supported: bool)
    ensures
        supported == is_supported_format(lower@),
{
    same_text(lower, "mp3") || same_text(lower, "flac") || same_text(lower, "wav") || same_text(
        lower,
        "m4a",
    ) || same_text(lower, "ogg") || same_text(lower, "aac")
}

/// Whether a path names an audio file.
pub fn has_supported_extension(info: &PathInfo) -> (supported: bool)
    ensures
        supported == is_audio_path(info@),
{
    match &info.file_name {
        Some(name) => {
            if same_text(name.as_str(), "library.json") {
                return false;
            }
        },
        None => {},
    }
    match &info.extension {
        Some(extension) => {
            let lower = to_lowercase(extension.as_str());
            is_supported_lowercase(lower.as_str())
        },
        None => false,
    }
}

/// The hash of a byte string: starting from 0, each byte in turn takes the
/// hash `h` to `31 * h + byte`, cut to 64 bits.
pub open spec fn hash_of(bytes: Seq<u8>) -> u64
    decreases bytes.len(),
{
    if bytes.len() == 0 {
        0
    } else {
        ((31 * hash_of(bytes.drop_last()) + bytes.last()) % 0x1_0000_0000_0000_0000) as u64
    }
}

/// The hash of the UTF-8 bytes of `input`.
pub fn simple_hash(input: &str) -> (hash: u64)
    ensures
        hash == hash_of(encode_utf8(input@)),
{
    let bytes = input.as_bytes();
    let mut hash: u64 = 0;
    let mut i: usize = 0;
    while i < bytes.len()
        invariant
            i <= bytes.len(),
            bytes@ == encode_utf8(input@),
            hash == hash_of(bytes@.take(i as int)),
        decreases bytes.len() - i,
    {
        let byte = bytes[i];
        proof {
            let next = bytes@.take(i + 1);
            assert(next.drop_last() =~= bytes@.take(i as int));
            assert(next.last() == byte);
            let product = hash.wrapping_mul(31);
            assert(product == (hash * 31) % 0x1_0000_0000_0000_0000);
            assert(product.wrapping_add(byte as u64) == (31 * hash + byte)
                % 0x1_0000_0000_0000_0000) by {
                let whole = (hash * 31) / 0x1_0000_0000_0000_0000;
                assert(hash * 31 == whole * 0x1_0000_0000_0000_0000 + product);
                if product + byte > u64::MAX {
                    assert(31 * hash + byte == (whole + 1) * 0x1_0000_0000_0000_0000 + (product
                        + byte - 0x1_0000_0000_0000_0000));
                    vstd::arithmetic::div_mod::lemma_fundamental_div_mod_converse(
                        31 * hash + byte,
                        0x1_0000_0000_0000_0000,
                        whole + 1,
                        product + byte - 0x1_0000_0000_0000_0000,
                    );
                } else {
                    vstd::arithmetic::div_mod::lemma_fundamental_div_mod_converse(
                        31 * hash + byte,
                        0x1_0000_0000_0000_0000,
                        whole,
                        product + byte,
                    );
                }
            }
        }
        hash = hash.wrapping_mul(31).wrapping_add(byte as u64);
        i += 1;
    }
    assert(bytes@.take(i as int) =~= bytes@);
    hash
}

/// The identifier of the track at a path: the hash of the path as a
/// hexadecimal numeral.
pub open spec fn track_id_of(path: Seq<char>) -> Seq<char> {
    hex_of(hash_of(encode_utf8(path)) as nat)
}

/// The identifier of the track at `path`.
pub fn track_id(path: &str) -> (id: String)
    ensures
        id@ == track_id_of(path@),
{
    to_hex(simple_hash(path))
}

/// The file name shown for a path whose last component is missing or is not
/// valid text.
pub open spec fn unknown_name() -> Seq<char> {
    "Unknown"@
}

/// The record of the file at `info` whose metadata is `tags`: identifier and
/// names from the path, all the rest from the tags.
pub open spec fn tune_of(info: PathInfoView, tags: TrackTagsView) -> TuneView {
    TuneView {
        id: track_id_of(info.path),
        filename: match info.file_name {
            Some(name) => name,
            None => unknown_name(),
        },
        path: info.path,
        title: tags.title,
        artist: tags.artist,
        album: tags.album,
        year: tags.year,
        track_number: tags.track_number,
        genre: tags.genre,
        duration_secs: tags.duration_secs,
    }
}

impl Tune {
    /// The record of the file at `info` whose metadata is `tags`.
    pub fn from_tags(info: &PathInfo, tags: &TrackTags) -> (tune: Tune)
        ensures
            tune@ == tune_of(info@, tags@),
    {
        let filename = match &info.file_name {
            Some(name) => name.clone(),
            None => String::from_str("Unknown"),
        };
        Tune {
            id: track_id(info.path.as_str()),
            filename,
            path: info.path.clone(),
            title: clone_text(&tags.title),
            artist: clone_text(&tags.artist),
            album: clone_text(&tags.album),
            year: tags.year,
            track_number: tags.track_number,
            genre: clone_text(&tags.genre),
            duration_secs: tags.duration_secs,
        }
    }
}

/// The identifier of a track is a function of its path: two records made for
/// the same path carry the same identifier, whatever the file is called and
/// whatever its tags say.
pub proof fn lemma_id_depends_on_path_only(
    first: PathInfoView,
    first_tags: TrackTagsView,
    second: PathInfoView,
    second_tags: TrackTagsView,
)
    requires
        first.path == second.path,
    ensures
        tune_of(first, first_tags).id == tune_of(second, second_tags).id,
        tune_of(first, first_tags).id == track_id_of(first.path),
{
}

} // verus!
