use tunes::text::{clone_text, same_text, text_no_later, to_hex};

#[test]
fn hex_of_small_numbers() {
    assert_eq!(to_hex(0), "0");
    assert_eq!(to_hex(9), "9");
    assert_eq!(to_hex(10), "a");
    assert_eq!(to_hex(15), "f");
    assert_eq!(to_hex(16), "10");
    assert_eq!(to_hex(255), "ff");
    assert_eq!(to_hex(256), "100");
}

#[test]
fn hex_of_large_numbers() {
    assert_eq!(to_hex(0xdead_beef), "deadbeef");
    assert_eq!(to_hex(u64::MAX), "ffffffffffffffff");
    assert_eq!(to_hex(0x1000_0000_0000_0000), "1000000000000000");
    assert_eq!(to_hex(16858166397371793016), "e9f43d051fc5be78");
}

#[test]
fn hex_agrees_with_the_standard_format() {
    let samples: [u64; 6] = [0, 1, 31, 4096, 0x0123_4567_89ab_cdef, u64::MAX - 1];
    for value in samples {
        assert_eq!(to_hex(value), format!("{:x}", value));
    }
}

#[test]
fn same_text_compares_whole_texts() {
    assert!(same_text("", ""));
    assert!(same_text("mp3", "mp3"));
    assert!(!same_text("mp3", "mp4"));
    assert!(!same_text("mp3", "mp"));
    assert!(!same_text("mp", "mp3"));
    assert!(!same_text("MP3", "mp3"));
    assert!(same_text("müsli", "müsli"));
    assert!(!same_text("müsli", "musli"));
}

#[test]
fn text_order_is_lexicographic() {
    assert!(text_no_later("", ""));
    assert!(text_no_later("", "a"));
    assert!(!text_no_later("a", ""));
    assert!(text_no_later("alpha", "beta"));
    assert!(!text_no_later("beta", "alpha"));
    assert!(text_no_later("beta", "beta"));
    assert!(text_no_later("bet", "beta"));
    assert!(!text_no_later("beta", "bet"));
    // Upper case comes before lower case, digits before both.
    assert!(text_no_later("Zeta", "alpha"));
    assert!(!text_no_later("alpha", "Zeta"));
    assert!(text_no_later("10", "9"));
}

#[test]
fn text_order_agrees_with_the_standard_order() {
    let samples = ["", "a", "ab", "b", "B", "zzz.mp3", "müsli", "muesli", "日本", "éa", "z"];
    for first in samples {
        for second in samples {
            assert_eq!(text_no_later(first, second), first <= second, "{:?} {:?}", first, second);
        }
    }
}

#[test]
fn clone_text_copies() {
    assert_eq!(clone_text(&None), None);
    assert_eq!(clone_text(&Some("Beta".to_string())), Some("Beta".to_string()));
}
