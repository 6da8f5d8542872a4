use tunes::library::{
    has_supported_extension, is_supported_lowercase, simple_hash, track_id, Library, PathInfo,
    TrackTags, Tune,
};

fn info(path: &str, file_name: Option<&str>, extension: Option<&str>) -> PathInfo {
    PathInfo {
        path: path.to_string(),
        file_name: file_name.map(|s| s.to_string()),
        extension: extension.map(|s| s.to_string()),
    }
}

fn full_tags() -> TrackTags {
    TrackTags {
        title: Some("Blue in Green".to_string()),
        artist: Some("Miles Davis".to_string()),
        album: Some("Kind of Blue".to_string()),
        year: Some(1959),
        track_number: Some(3),
        genre: Some("Jazz".to_string()),
        duration_secs: 337,
    }
}

fn no_tags() -> TrackTags {
    TrackTags {
        title: None,
        artist: None,
        album: None,
        year: None,
        track_number: None,
        genre: None,
        duration_secs: 0,
    }
}

#[test]
fn hash_of_short_texts() {
    assert_eq!(simple_hash(""), 0);
    assert_eq!(simple_hash("a"), 97);
    assert_eq!(simple_hash("ab"), 3105);
}

#[test]
fn hash_wraps_at_64_bits() {
    assert_eq!(simple_hash("/home/user/Music/tunes/song.mp3"), 16858166397371793016);
    assert_eq!(
        simple_hash(
            "/home/user/Music/tunes/a very long file name that wraps around the hash.flac"
        ),
        5036445153548497995
    );
}

#[test]
fn hash_takes_the_bytes_of_the_text() {
    assert_eq!(simple_hash("/music/müsli.flac"), 9845716612971742131);
}

#[test]
fn track_id_is_the_hash_in_hex() {
    assert_eq!(track_id(""), "0");
    assert_eq!(track_id("a"), "61");
    assert_eq!(track_id("/home/user/Music/tunes/song.mp3"), "e9f43d051fc5be78");
    assert_eq!(track_id("/music/tunes/Beta.mp3"), "65a52b12db83a5ff");
}

#[test]
fn track_id_is_the_same_each_time() {
    let first = track_id("/music/tunes/Beta.mp3");
    let second = track_id("/music/tunes/Beta.mp3");
    assert_eq!(first, second);
    assert_ne!(first, track_id("/music/tunes/beta.mp3"));
}

#[test]
fn supported_formats() {
    for format in ["mp3", "flac", "wav", "m4a", "ogg", "aac"] {
        assert!(is_supported_lowercase(format), "{}", format);
    }
    for format in ["", "txt", "json", "mp4", "mp", "mp33", "MP3", "wma", "opus"] {
        assert!(!is_supported_lowercase(format), "{}", format);
    }
}

#[test]
fn audio_paths_by_extension() {
    assert!(has_supported_extension(&info("/m/a.mp3", Some("a.mp3"), Some("mp3"))));
    assert!(has_supported_extension(&info("/m/a.flac", Some("a.flac"), Some("flac"))));
    assert!(!has_supported_extension(&info("/m/a.txt", Some("a.txt"), Some("txt"))));
    assert!(!has_supported_extension(&info("/m/a", Some("a"), None)));
    assert!(!has_supported_extension(&info("/m/mp3", Some("mp3"), None)));
}

#[test]
fn extension_is_matched_in_lower_case() {
    assert!(has_supported_extension(&info("/m/a.MP3", Some("a.MP3"), Some("MP3"))));
    assert!(has_supported_extension(&info("/m/a.Flac", Some("a.Flac"), Some("Flac"))));
    assert!(has_supported_extension(&info("/m/a.OGG", Some("a.OGG"), Some("OGG"))));
    assert!(!has_supported_extension(&info("/m/a.TXT", Some("a.TXT"), Some("TXT"))));
}

#[test]
fn index_file_is_no_audio_file() {
    assert!(!has_supported_extension(&info(
        "/m/library.json",
        Some("library.json"),
        Some("json")
    )));
    // Even with a supported extension handed in, the name decides.
    assert!(!has_supported_extension(&info("/m/library.json", Some("library.json"), Some("mp3"))));
    // Another name that only resembles it is judged by its extension.
    assert!(has_supported_extension(&info(
        "/m/library.json.mp3",
        Some("library.json.mp3"),
        Some("mp3")
    )));
}

#[test]
fn a_path_without_a_readable_name_is_judged_by_its_extension() {
    assert!(has_supported_extension(&info("/m/\u{fffd}.mp3", None, Some("mp3"))));
    assert!(!has_supported_extension(&info("/m/..", None, None)));
}

#[test]
fn tune_from_full_tags() {
    let tune = Tune::from_tags(
        &info("/music/tunes/Beta.mp3", Some("Beta.mp3"), Some("mp3")),
        &full_tags(),
    );
    assert_eq!(tune.id, "65a52b12db83a5ff");
    assert_eq!(tune.filename, "Beta.mp3");
    assert_eq!(tune.path, "/music/tunes/Beta.mp3");
    assert_eq!(tune.title.as_deref(), Some("Blue in Green"));
    assert_eq!(tune.artist.as_deref(), Some("Miles Davis"));
    assert_eq!(tune.album.as_deref(), Some("Kind of Blue"));
    assert_eq!(tune.year, Some(1959));
    assert_eq!(tune.track_number, Some(3));
    assert_eq!(tune.genre.as_deref(), Some("Jazz"));
    assert_eq!(tune.duration_secs, 337);
}

#[test]
fn tune_from_empty_tags() {
    let tune = Tune::from_tags(&info("/m/a.mp3", Some("a.mp3"), Some("mp3")), &no_tags());
    assert_eq!(tune.filename, "a.mp3");
    assert_eq!(tune.title, None);
    assert_eq!(tune.artist, None);
    assert_eq!(tune.album, None);
    assert_eq!(tune.year, None);
    assert_eq!(tune.track_number, None);
    assert_eq!(tune.genre, None);
    assert_eq!(tune.duration_secs, 0);
}

#[test]
fn tune_without_a_readable_name_is_called_unknown() {
    let tune = Tune::from_tags(&info("/m/\u{fffd}.mp3", None, Some("mp3")), &no_tags());
    assert_eq!(tune.filename, "Unknown");
    assert_eq!(tune.path, "/m/\u{fffd}.mp3");
}

#[test]
fn identifier_depends_on_the_path_only() {
    let first = Tune::from_tags(&info("/m/a.mp3", Some("a.mp3"), Some("mp3")), &full_tags());
    let second = Tune::from_tags(&info("/m/a.mp3", None, None), &no_tags());
    assert_eq!(first.id, second.id);
    assert_eq!(first.id, track_id("/m/a.mp3"));
}

#[test]
fn default_library_is_empty() {
    assert!(Library::default().tunes.is_empty());
}

#[test]
fn a_missing_index_is_the_empty_index() {
    assert!(Library::or_empty(None).tunes.is_empty());
    let tune = Tune::from_tags(&info("/m/a.mp3", Some("a.mp3"), Some("mp3")), &full_tags());
    let loaded = Library::or_empty(Some(Library { tunes: vec![tune] }));
    assert_eq!(loaded.tunes.len(), 1);
    assert_eq!(loaded.tunes[0].path, "/m/a.mp3");
}
