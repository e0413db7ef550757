use albumprep::metadata::{collapse_values, MetaVal, Metadata};
use albumprep::tagmap::{MetaBlock, TagMap};

fn one(s: &str) -> MetaVal {
    MetaVal::One(String::from(s))
}

fn many(vs: &[&str]) -> MetaVal {
    MetaVal::Many(vs.iter().map(|s| String::from(*s)).collect())
}

fn block(pairs: &[(&str, MetaVal)]) -> MetaBlock {
    let mut b: MetaBlock = TagMap::new();
    for (k, v) in pairs {
        b.set(String::from(*k), v.duplicate());
    }
    b
}

fn meta_val_eq(a: &MetaVal, b: &MetaVal) -> bool {
    match (a, b) {
        (MetaVal::One(x), MetaVal::One(y)) => x == y,
        (MetaVal::Many(xs), MetaVal::Many(ys)) => xs == ys,
        _ => false,
    }
}

fn block_eq(a: &MetaBlock, b: &MetaBlock) -> bool {
    if a.len() != b.len() {
        return false;
    }
    for i in 0..a.len() {
        if a.key_at(i) != b.key_at(i) || !meta_val_eq(a.val_at(i), b.val_at(i)) {
            return false;
        }
    }
    true
}

fn metadata_eq(a: &Metadata, b: &Metadata) -> bool {
    if !block_eq(&a.album, &b.album) || a.tracks.len() != b.tracks.len() {
        return false;
    }
    for i in 0..a.tracks.len() {
        if !block_eq(&a.tracks[i], &b.tracks[i]) {
            return false;
        }
    }
    true
}

/// Converts a parsed JSON object into a metadata block, normalizing each
/// value through the library's collapse.
fn json_object_to_block(v: &serde_json::Value) -> MetaBlock {
    let mut b: MetaBlock = TagMap::new();
    let obj = v.as_object().expect("expected a JSON object");
    for (k, val) in obj {
        let vals: Vec<String> = match val {
            serde_json::Value::String(s) => vec![s.clone()],
            serde_json::Value::Array(items) => items
                .iter()
                .map(|i| i.as_str().expect("expected a string").to_string())
                .collect(),
            _ => panic!("expected a string or an array of strings"),
        };
        b.set(k.clone(), collapse_values(vals));
    }
    b
}

fn json_to_metadata(v: &serde_json::Value) -> Metadata {
    let album = json_object_to_block(&v["album"]);
    let tracks = v["tracks"]
        .as_array()
        .expect("expected an array of track blocks")
        .iter()
        .map(json_object_to_block)
        .collect();
    Metadata { album, tracks }
}

fn block_to_json(b: &MetaBlock) -> serde_json::Value {
    let mut obj = serde_json::Map::new();
    for i in 0..b.len() {
        let vals: Vec<String> = b.val_at(i).duplicate().into_vec();
        let val = if vals.len() == 1 {
            serde_json::Value::String(vals[0].clone())
        } else {
            serde_json::Value::Array(
                vals.into_iter().map(serde_json::Value::String).collect(),
            )
        };
        obj.insert(b.key_at(i).clone(), val);
    }
    serde_json::Value::Object(obj)
}

fn metadata_to_json(m: &Metadata) -> serde_json::Value {
    let mut top = serde_json::Map::new();
    top.insert(String::from("album"), block_to_json(&m.album));
    top.insert(
        String::from("tracks"),
        serde_json::Value::Array(m.tracks.iter().map(block_to_json).collect()),
    );
    serde_json::Value::Object(top)
}

fn sample_metadata() -> Metadata {
    Metadata {
        album: block(&[
            ("album", one("Villano")),
            ("albumartist", one("Dani J")),
            ("date", one("2023-05-30")),
            ("vendor", one("Qobuz")),
        ]),
        tracks: vec![
            block(&[("artist", one("Dani J")), ("title", one("Villano"))]),
            block(&[("artist", one("Dani J")), ("title", one("7 Pecados"))]),
            block(&[("artist", one("Dani J")), ("title", one("Caprichito"))]),
            block(&[
                ("artist", many(&["Dani J", "Caluu C."])),
                ("title", one("Peón")),
            ]),
            block(&[("artist", one("Dani J")), ("title", one("Voy a Robarte"))]),
        ],
    }
}

#[test]
fn test_deserialize() {
    let serialized: &'static str = r#"
        {
            "album": {
                "album": "Villano",
                "albumartist": "Dani J",
                "date": "2023-05-30",
                "vendor": "Qobuz"
            },
            "tracks": [
                {
                    "artist": "Dani J",
                    "title": "Villano"
                },
                {
                    "artist": "Dani J",
                    "title": "7 Pecados"
                },
                {
                    "artist": "Dani J",
                    "title": "Caprichito"
                },
                {
                    "artist": [
                        "Dani J",
                        "Caluu C."
                    ],
                    "title": "Peón"
                },
                {
                    "artist": "Dani J",
                    "title": "Voy a Robarte"
                }
            ]
        }
    "#;

    let value: serde_json::Value = serde_json::from_str(serialized).unwrap();
    let deserialized = json_to_metadata(&value);

    assert!(metadata_eq(&deserialized, &sample_metadata()));
}

#[test]
fn test_round_trip() {
    let metadata = sample_metadata();

    let serialized = serde_json::to_string(&metadata_to_json(&metadata)).unwrap();
    let value: serde_json::Value = serde_json::from_str(&serialized).unwrap();
    let deserialized = json_to_metadata(&value);

    assert!(metadata_eq(&deserialized, &metadata));
}

#[test]
fn test_display() {
    let meta_val = MetaVal::One(String::from("VALUE"));
    assert_eq!(meta_val.to_display_string(), "VALUE");

    let meta_val = MetaVal::Many(vec![
        String::from("VALUE_A"),
        String::from("VALUE_B"),
        String::from("VALUE_C"),
    ]);
    assert_eq!(meta_val.to_display_string(), "VALUE_A, VALUE_B, VALUE_C");
}

#[test]
fn collapse_normalizes_single_element_lists() {
    // A one-element list and its scalar equivalent collapse identically.
    let from_list = collapse_values(vec![String::from("x")]);
    let from_scalar = collapse_values(MetaVal::One(String::from("x")).into_vec());
    assert!(meta_val_eq(&from_list, &from_scalar));
    assert!(matches!(from_list, MetaVal::One(_)));

    // Longer lists stay lists; the empty list stays a list.
    let two = collapse_values(vec![String::from("a"), String::from("b")]);
    assert!(matches!(two, MetaVal::Many(_)));
    let empty = collapse_values(Vec::new());
    assert!(matches!(empty, MetaVal::Many(_)));
}

#[test]
fn as_slice_and_into_vec_expose_values() {
    let v = one("solo");
    assert_eq!(v.as_slice(), &[String::from("solo")]);
    assert_eq!(v.into_vec(), vec![String::from("solo")]);

    let v = many(&["a", "b"]);
    assert_eq!(v.as_slice(), &[String::from("a"), String::from("b")]);
    assert_eq!(v.into_vec(), vec![String::from("a"), String::from("b")]);
}
