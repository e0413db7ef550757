use albumprep::text::{
    ascii_lowercase, compare_keys, dec_string, has_prefix, padded_dec_string, path_extension,
    strip_path_separators, KeyOrder,
};

#[test]
fn decimal_rendering() {
    assert_eq!(dec_string(0), "0");
    assert_eq!(dec_string(7), "7");
    assert_eq!(dec_string(10), "10");
    assert_eq!(dec_string(90210), "90210");
}

#[test]
fn decimal_padding() {
    assert_eq!(padded_dec_string(3, 0), "3");
    assert_eq!(padded_dec_string(3, 1), "3");
    assert_eq!(padded_dec_string(3, 3), "003");
    assert_eq!(padded_dec_string(123, 2), "123");
}

#[test]
fn lowercasing_is_ascii_only() {
    assert_eq!(ascii_lowercase("TRACKNUMBER"), "tracknumber");
    assert_eq!(ascii_lowercase("MixedCase09"), "mixedcase09");
    // Non-ASCII characters pass through unchanged.
    assert_eq!(ascii_lowercase("PEÓN"), "peÓn");
}

#[test]
fn separator_stripping() {
    assert_eq!(strip_path_separators("AC/DC"), "ACDC");
    assert_eq!(strip_path_separators("///"), "");
    assert_eq!(strip_path_separators("clean"), "clean");
}

#[test]
fn key_comparison_is_lexicographic() {
    assert!(matches!(compare_keys("album", "artist"), KeyOrder::Before));
    assert!(matches!(compare_keys("artist", "album"), KeyOrder::After));
    assert!(matches!(compare_keys("album", "album"), KeyOrder::Same));
    // A proper prefix comes first.
    assert!(matches!(compare_keys("disc", "discnumber"), KeyOrder::Before));
    assert!(matches!(compare_keys("", "a"), KeyOrder::Before));
}

#[test]
fn prefix_matching() {
    assert!(has_prefix("replaygain_track_gain", "replaygain_"));
    assert!(has_prefix("anything", ""));
    assert!(!has_prefix("replay", "replaygain_"));
    assert!(!has_prefix("xreplaygain_", "replaygain_"));
}

#[test]
fn extension_edge_cases() {
    assert_eq!(path_extension("x.flac").unwrap(), "flac");
    assert_eq!(path_extension("dir.d/x.tar.gz").unwrap(), "gz");
    assert!(path_extension("dir.d/noext").is_none());
    assert!(path_extension("").is_none());
}
