use albumprep::merge::{build_existing_block, default_merge_config, merged_tags};
use albumprep::metadata::MetaVal;
use albumprep::tagmap::{MetaBlock, TagMap};

fn one(s: &str) -> MetaVal {
    MetaVal::One(String::from(s))
}

fn block(pairs: &[(&str, &str)]) -> MetaBlock {
    let mut b: MetaBlock = TagMap::new();
    for (k, v) in pairs {
        b.set(String::from(*k), one(v));
    }
    b
}

fn get_single(b: &MetaBlock, key: &str) -> String {
    b.get(key).expect("key missing").to_display_string()
}

#[test]
fn track_value_wins_on_collision() {
    let config = default_merge_config();
    let album = block(&[("genre", "Pop")]);
    let track = block(&[("genre", "Latin Pop"), ("title", "X")]);
    let merged = merged_tags(&config, album, track, 1, 3);
    assert_eq!(get_single(&merged, "genre"), "Latin Pop");
    assert_eq!(get_single(&merged, "title"), "X");
}

#[test]
fn positional_fields_always_computed() {
    let config = default_merge_config();
    // Both inputs supply conflicting positional values; the computed ones win.
    let album = block(&[("tracknumber", "9"), ("album", "A")]);
    let track = block(&[("tracknumber", "8"), ("totaltracks", "99")]);
    let merged = merged_tags(&config, album, track, 2, 7);
    assert_eq!(get_single(&merged, "tracknumber"), "2");
    assert_eq!(get_single(&merged, "totaltracks"), "7");
    assert_eq!(get_single(&merged, "album"), "A");
}

#[test]
fn album_value_kept_when_track_silent() {
    let config = default_merge_config();
    let album = block(&[("albumartist", "Y"), ("genre", "Pop")]);
    let track = block(&[("title", "T")]);
    let merged = merged_tags(&config, album, track, 1, 1);
    assert_eq!(get_single(&merged, "albumartist"), "Y");
    assert_eq!(get_single(&merged, "genre"), "Pop");
    assert_eq!(get_single(&merged, "title"), "T");
    assert!(merged.get("missing").is_none());
}

#[test]
fn merged_keys_are_sorted() {
    let config = default_merge_config();
    let album = block(&[("zed", "1"), ("alpha", "2")]);
    let track = block(&[("mid", "3")]);
    let merged = merged_tags(&config, album, track, 1, 1);
    let mut keys: Vec<String> = Vec::new();
    for i in 0..merged.len() {
        keys.push(merged.key_at(i).clone());
    }
    let mut sorted = keys.clone();
    sorted.sort();
    assert_eq!(keys, sorted);
}

#[test]
fn existing_block_lowercases_and_strips() {
    let config = default_merge_config();
    let pairs: Vec<(String, Vec<String>)> = vec![
        (String::from("TITLE"), vec![String::from("Keep Me")]),
        (String::from("Genre"), vec![String::from("Dropped")]),
        (String::from("REPLAYGAIN_TRACK_GAIN"), vec![String::from("-3 dB")]),
        (
            String::from("performer"),
            vec![String::from("A"), String::from("B")],
        ),
        (String::from("tracknumber"), vec![String::from("4")]),
    ];
    let b = build_existing_block(&config, pairs);
    assert_eq!(get_single(&b, "title"), "Keep Me");
    assert!(b.get("genre").is_none());
    assert!(b.get("replaygain_track_gain").is_none());
    assert!(b.get("tracknumber").is_none());
    assert_eq!(get_single(&b, "performer"), "A, B");
    assert_eq!(b.len(), 2);
}

#[test]
fn existing_block_collapses_single_values() {
    let config = default_merge_config();
    let pairs: Vec<(String, Vec<String>)> =
        vec![(String::from("title"), vec![String::from("Solo")])];
    let b = build_existing_block(&config, pairs);
    assert!(matches!(b.get("title"), Some(MetaVal::One(_))));
}

#[test]
fn existing_block_keeps_undenied_keys_only() {
    let config = default_merge_config();
    let pairs: Vec<(String, Vec<String>)> = vec![
        (String::from("album"), vec![String::from("X")]),
        (String::from("artist"), vec![String::from("A")]),
        (String::from("replaygain_album_peak"), vec![String::from("1.0")]),
        (String::from("title"), vec![String::from("T")]),
    ];
    let b = build_existing_block(&config, pairs);
    assert!(b.get("album").is_none());
    assert!(b.get("replaygain_album_peak").is_none());
    assert_eq!(get_single(&b, "artist"), "A");
    assert_eq!(get_single(&b, "title"), "T");
    assert_eq!(b.len(), 2);
}
