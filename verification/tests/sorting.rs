use tunes::library::Tune;
use tunes::sorting::{key_no_later, sort_by_title, title_sort_key};

fn tune(filename: &str, title: Option<&str>) -> Tune {
    Tune {
        id: filename.to_string(),
        filename: filename.to_string(),
        path: format!("/music/tunes/{}", filename),
        title: title.map(|s| s.to_string()),
        artist: None,
        album: None,
        year: None,
        track_number: None,
        genre: None,
        duration_secs: 0,
    }
}

fn filenames(tunes: &Vec<Tune>) -> Vec<String> {
    tunes.iter().map(|t| t.filename.clone()).collect()
}

#[test]
fn sort_is_by_title_ignoring_case_with_filename_for_the_untitled() {
    let mut tunes = vec![
        tune("1.mp3", Some("Beta")),
        tune("2.mp3", Some("alpha")),
        tune("3.mp3", Some("Gamma")),
        tune("zzz.mp3", None),
    ];
    sort_by_title(&mut tunes);
    let shown: Vec<String> = tunes
        .iter()
        .map(|t| t.title.clone().unwrap_or(t.filename.clone()))
        .collect();
    assert_eq!(shown, vec!["alpha", "Beta", "Gamma", "zzz.mp3"]);
}

#[test]
fn sort_key_is_the_title_in_lower_case() {
    assert_eq!(title_sort_key(&tune("a.mp3", Some("Beta"))), "beta");
    assert_eq!(title_sort_key(&tune("a.mp3", Some("ÄRGER"))), "ärger");
    assert_eq!(title_sort_key(&tune("a.mp3", Some("already lower"))), "already lower");
}

#[test]
fn sort_key_of_the_untitled_is_the_filename_in_lower_case() {
    assert_eq!(title_sort_key(&tune("ZZZ.MP3", None)), "zzz.mp3");
    // An empty title is a title.
    assert_eq!(title_sort_key(&tune("ZZZ.MP3", Some(""))), "");
}

#[test]
fn keys_are_compared_as_texts() {
    assert!(key_no_later("alpha", "beta"));
    assert!(key_no_later("beta", "beta"));
    assert!(!key_no_later("gamma", "beta"));
    assert!(key_no_later("beta", "beta 2"));
}

#[test]
fn sort_is_stable() {
    let mut tunes = vec![
        tune("1.mp3", Some("same")),
        tune("2.mp3", Some("Other")),
        tune("3.mp3", Some("SAME")),
        tune("4.mp3", Some("Same")),
        tune("5.mp3", Some("other")),
    ];
    sort_by_title(&mut tunes);
    assert_eq!(filenames(&tunes), vec!["2.mp3", "5.mp3", "1.mp3", "3.mp3", "4.mp3"]);
}

#[test]
fn sort_of_nothing_and_of_one() {
    let mut none: Vec<Tune> = Vec::new();
    sort_by_title(&mut none);
    assert!(none.is_empty());
    let mut one = vec![tune("a.mp3", Some("A"))];
    sort_by_title(&mut one);
    assert_eq!(filenames(&one), vec!["a.mp3"]);
}

#[test]
fn sort_of_the_sorted_changes_nothing() {
    let mut tunes = vec![
        tune("1.mp3", Some("alpha")),
        tune("2.mp3", Some("Beta")),
        tune("3.mp3", Some("beta")),
        tune("4.mp3", Some("Gamma")),
    ];
    sort_by_title(&mut tunes);
    assert_eq!(filenames(&tunes), vec!["1.mp3", "2.mp3", "3.mp3", "4.mp3"]);
}

#[test]
fn sort_of_the_reversed() {
    let mut tunes = vec![
        tune("4.mp3", Some("d")),
        tune("3.mp3", Some("c")),
        tune("2.mp3", Some("b")),
        tune("1.mp3", Some("a")),
    ];
    sort_by_title(&mut tunes);
    assert_eq!(filenames(&tunes), vec!["1.mp3", "2.mp3", "3.mp3", "4.mp3"]);
}

#[test]
fn sort_agrees_with_the_standard_stable_sort() {
    let titles = [
        "Zebra", "apple", "Apple", "mango", "", "10", "9", "Élan", "elan", "apple", "Mango",
        "zebra", "banana", "Banana split", "banana",
    ];
    let mut tunes: Vec<Tune> = titles
        .iter()
        .enumerate()
        .map(|(i, t)| tune(&format!("{}.mp3", i), Some(t)))
        .collect();
    let mut expected = tunes.clone();
    expected.sort_by(|a, b| {
        let x = a.title.clone().unwrap().to_lowercase();
        let y = b.title.clone().unwrap().to_lowercase();
        x.cmp(&y)
    });
    sort_by_title(&mut tunes);
    assert_eq!(filenames(&tunes), filenames(&expected));
}
