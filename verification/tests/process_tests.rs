use albumprep::discovery::{discover_tracks, Track};
use albumprep::error::Error;
use albumprep::helpers::{generate_output_file_name, normalizer_args};
use albumprep::merge::default_merge_config;
use albumprep::metadata::{MetaVal, Metadata};
use albumprep::process::plan_tracks;
use albumprep::tagmap::{MetaBlock, TagMap};
use albumprep::text::path_extension;

fn one(s: &str) -> MetaVal {
    MetaVal::One(String::from(s))
}

fn block(pairs: &[(&str, &str)]) -> MetaBlock {
    let mut b: MetaBlock = TagMap::new();
    for (k, v) in pairs {
        b.set(String::from(*k), one(v));
    }
    b
}

fn get_single(b: &MetaBlock, key: &str) -> String {
    b.get(key).expect("key missing").to_display_string()
}

#[test]
fn end_to_end_album_plan() {
    // Three input files tagged 1, 2, 3; an album block and one block per
    // track.  Every plan must carry the album fields, its own track fields,
    // the computed positional fields, and the staged file name.
    let files = vec![
        (String::from("in/second.flac"), vec![String::from("2")]),
        (String::from("in/first.flac"), vec![String::from("1")]),
        (String::from("in/third.flac"), vec![String::from("3")]),
    ];
    let tracks = discover_tracks(files).unwrap();

    let metadata = Metadata {
        album: block(&[("album", "X"), ("albumartist", "Y")]),
        tracks: vec![
            block(&[("artist", "A"), ("title", "T1")]),
            block(&[("artist", "A"), ("title", "T2")]),
            block(&[("artist", "A"), ("title", "T3")]),
        ],
    };

    let config = default_merge_config();
    let plans = plan_tracks(&config, tracks, metadata).unwrap();
    assert_eq!(plans.len(), 3);

    for (i, plan) in plans.iter().enumerate() {
        let n = i + 1;
        assert_eq!(plan.track_index, n);
        assert_eq!(get_single(&plan.tags, "album"), "X");
        assert_eq!(get_single(&plan.tags, "albumartist"), "Y");
        assert_eq!(get_single(&plan.tags, "artist"), "A");
        assert_eq!(get_single(&plan.tags, "title"), format!("T{}", n));
        assert_eq!(get_single(&plan.tags, "tracknumber"), format!("{}", n));
        assert_eq!(get_single(&plan.tags, "totaltracks"), "3");
        assert_eq!(plan.file_name, format!("{}. A - T{}.flac", n, n));
    }
    assert_eq!(plans[0].source_path, "in/first.flac");
    assert_eq!(plans[1].source_path, "in/second.flac");
    assert_eq!(plans[2].source_path, "in/third.flac");
}

#[test]
fn plan_rejects_count_mismatch() {
    let config = default_merge_config();
    let tracks = vec![
        Track {
            index: 1,
            path: String::from("a.flac"),
        },
        Track {
            index: 2,
            path: String::from("b.flac"),
        },
    ];
    let metadata = Metadata {
        album: TagMap::new(),
        tracks: vec![block(&[("artist", "A"), ("title", "T")])],
    };
    assert!(matches!(
        plan_tracks(&config, tracks, metadata),
        Err(Error::CountMismatch {
            tracks: 2,
            blocks: 1
        })
    ));
}

#[test]
fn plan_requires_artist_and_title() {
    let config = default_merge_config();
    let tracks = vec![Track {
        index: 1,
        path: String::from("a.flac"),
    }];
    let metadata = Metadata {
        album: TagMap::new(),
        tracks: vec![block(&[("title", "T")])],
    };
    match plan_tracks(&config, tracks, metadata) {
        Err(Error::AmbiguousField { key }) => assert_eq!(key, "artist"),
        _ => panic!("expected a missing-artist error"),
    }

    let tracks = vec![Track {
        index: 1,
        path: String::from("a.flac"),
    }];
    let metadata = Metadata {
        album: TagMap::new(),
        tracks: vec![block(&[("artist", "A")])],
    };
    match plan_tracks(&config, tracks, metadata) {
        Err(Error::AmbiguousField { key }) => assert_eq!(key, "title"),
        _ => panic!("expected a missing-title error"),
    }
}

#[test]
fn output_name_pads_and_strips_separators() {
    assert_eq!(generate_output_file_name(7, 2, "AC", "DC", "flac"), "07. AC - DC.flac");
    assert_eq!(generate_output_file_name(12, 2, "A", "B", "flac"), "12. A - B.flac");
    // Path separators embedded in tag fields are removed from the name.
    assert_eq!(
        generate_output_file_name(1, 1, "A/B", "C/D", "flac"),
        "1. AB - CD.flac"
    );
}

#[test]
fn extension_extraction() {
    assert_eq!(path_extension("dir/song.flac").unwrap(), "flac");
    assert_eq!(path_extension("a.b.c").unwrap(), "c");
    assert!(path_extension("dir/noext").is_none());
    assert!(path_extension("dir/.hidden").is_none());
}

#[test]
fn normalizer_invocation_arguments() {
    let args = normalizer_args("out", "staging");
    assert_eq!(args, vec!["--replaygain", "-irt", "--output", "out", "staging"]);
}
