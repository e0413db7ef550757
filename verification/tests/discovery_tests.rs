use albumprep::discovery::{discover_tracks, parse_track_number, validate_track_numbers};
use albumprep::error::Error;
use albumprep::helpers::expect_one;

fn file(path: &str, nums: &[&str]) -> (String, Vec<String>) {
    (
        String::from(path),
        nums.iter().map(|s| String::from(*s)).collect(),
    )
}

#[test]
fn parse_accepts_plain_and_signed_numbers() {
    assert_eq!(parse_track_number("7").unwrap(), 7);
    assert_eq!(parse_track_number("12").unwrap(), 12);
    assert_eq!(parse_track_number("+3").unwrap(), 3);
    assert_eq!(parse_track_number("0").unwrap(), 0);
    assert_eq!(parse_track_number("007").unwrap(), 7);
}

#[test]
fn parse_rejects_malformed_numbers() {
    assert!(matches!(
        parse_track_number(""),
        Err(Error::InvalidTrackNumber { .. })
    ));
    assert!(matches!(
        parse_track_number("+"),
        Err(Error::InvalidTrackNumber { .. })
    ));
    assert!(matches!(
        parse_track_number("x1"),
        Err(Error::InvalidTrackNumber { .. })
    ));
    assert!(matches!(
        parse_track_number("1 "),
        Err(Error::InvalidTrackNumber { .. })
    ));
    assert!(matches!(
        parse_track_number("-1"),
        Err(Error::InvalidTrackNumber { .. })
    ));
    // Larger than any machine integer.
    assert!(matches!(
        parse_track_number("99999999999999999999999999"),
        Err(Error::InvalidTrackNumber { .. })
    ));
}

#[test]
fn validate_accepts_exact_range() {
    assert!(validate_track_numbers(&vec![1, 2, 3]).is_ok());
    assert!(validate_track_numbers(&vec![3, 1, 2]).is_ok());
    assert!(validate_track_numbers(&vec![1]).is_ok());
    assert!(validate_track_numbers(&Vec::new()).is_ok());
}

#[test]
fn validate_rejects_gap() {
    // Files tagged 1, 2, 4 for N = 3 must fail.
    assert!(matches!(
        validate_track_numbers(&vec![1, 2, 4]),
        Err(Error::TrackNumberMismatch)
    ));
}

#[test]
fn validate_rejects_duplicate() {
    // Files tagged 1, 2, 2 for N = 3 must fail the same way.
    assert!(matches!(
        validate_track_numbers(&vec![1, 2, 2]),
        Err(Error::TrackNumberMismatch)
    ));
}

#[test]
fn validate_rejects_zero_and_out_of_range() {
    assert!(matches!(
        validate_track_numbers(&vec![0, 1]),
        Err(Error::TrackNumberMismatch)
    ));
    assert!(matches!(
        validate_track_numbers(&vec![2, 3]),
        Err(Error::TrackNumberMismatch)
    ));
}

#[test]
fn discover_sorts_tracks_by_index() {
    let files = vec![
        file("dir/b.flac", &["2"]),
        file("dir/c.flac", &["3"]),
        file("dir/a.flac", &["1"]),
    ];
    let tracks = discover_tracks(files).unwrap();
    assert_eq!(tracks.len(), 3);
    assert_eq!(tracks[0].index, 1);
    assert_eq!(tracks[0].path, "dir/a.flac");
    assert_eq!(tracks[1].index, 2);
    assert_eq!(tracks[1].path, "dir/b.flac");
    assert_eq!(tracks[2].index, 3);
    assert_eq!(tracks[2].path, "dir/c.flac");
}

#[test]
fn discover_rejects_missing_and_multiple_values() {
    let files = vec![file("a.flac", &[])];
    assert!(matches!(
        discover_tracks(files),
        Err(Error::AmbiguousField { .. })
    ));

    let files = vec![file("a.flac", &["1", "2"])];
    assert!(matches!(
        discover_tracks(files),
        Err(Error::AmbiguousField { .. })
    ));
}

#[test]
fn discover_rejects_unparsable_number() {
    let files = vec![file("a.flac", &["one"])];
    assert!(matches!(
        discover_tracks(files),
        Err(Error::InvalidTrackNumber { .. })
    ));
}

#[test]
fn discover_rejects_incomplete_range() {
    let files = vec![file("a.flac", &["1"]), file("b.flac", &["3"])];
    assert!(matches!(
        discover_tracks(files),
        Err(Error::TrackNumberMismatch)
    ));
}

#[test]
fn expect_one_requires_exactly_one() {
    let none: Vec<u32> = Vec::new();
    assert!(matches!(
        expect_one(&none, "field"),
        Err(Error::AmbiguousField { .. })
    ));
    assert_eq!(*expect_one(&[5u32], "field").unwrap(), 5);
    match expect_one(&[1u32, 2u32], "field") {
        Err(Error::AmbiguousField { key }) => assert_eq!(key, "field"),
        _ => panic!("expected an ambiguous-field error"),
    }
}
