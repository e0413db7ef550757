use albumprep::block::{
    collapse_block_values, BlockListWrapper, BlockRepr, BlockReprVal, BlockWrapper,
};

fn one(s: &str) -> BlockReprVal {
    BlockReprVal::One(String::from(s))
}

fn many(vs: &[&str]) -> BlockReprVal {
    BlockReprVal::Many(vs.iter().map(|s| String::from(*s)).collect())
}

fn repr(pairs: Vec<(&str, BlockReprVal)>) -> BlockRepr {
    pairs
        .into_iter()
        .map(|(k, v)| (String::from(k), v))
        .collect()
}

#[test]
fn into_many_expands_bare_values() {
    assert_eq!(one("x").into_many(), vec![String::from("x")]);
    assert_eq!(
        many(&["a", "b"]).into_many(),
        vec![String::from("a"), String::from("b")]
    );
    let empty: Vec<String> = Vec::new();
    assert_eq!(many(&[]).into_many(), empty);
}

#[test]
fn collapse_block_values_normalizes() {
    assert!(matches!(
        collapse_block_values(vec![String::from("x")]),
        BlockReprVal::One(_)
    ));
    assert!(matches!(
        collapse_block_values(vec![String::from("a"), String::from("b")]),
        BlockReprVal::Many(_)
    ));
}

#[test]
fn block_from_repr_expands_and_sorts() {
    let b = BlockWrapper::from_repr(repr(vec![
        ("title", one("T")),
        ("artist", many(&["A", "B"])),
    ]));
    assert_eq!(b.0.len(), 2);
    assert_eq!(b.0.key_at(0), "artist");
    assert_eq!(
        b.0.val_at(0),
        &vec![String::from("A"), String::from("B")]
    );
    assert_eq!(b.0.key_at(1), "title");
    assert_eq!(b.0.val_at(1), &vec![String::from("T")]);
}

#[test]
fn block_from_repr_later_entry_wins() {
    let b = BlockWrapper::from_repr(repr(vec![
        ("genre", one("Pop")),
        ("genre", one("Latin Pop")),
    ]));
    assert_eq!(b.0.len(), 1);
    assert_eq!(b.0.val_at(0), &vec![String::from("Latin Pop")]);
}

#[test]
fn block_round_trip_collapses_single_values() {
    // A one-element list comes back as the bare variant; everything else is
    // unchanged.
    let b = BlockWrapper::from_repr(repr(vec![
        ("artist", many(&["A", "B"])),
        ("performer", many(&["Solo"])),
        ("title", one("T")),
    ]));
    let back = b.into_repr();
    assert_eq!(back.len(), 3);
    assert_eq!(back[0].0, "artist");
    assert!(matches!(&back[0].1, BlockReprVal::Many(vs) if vs == &["A", "B"]));
    assert_eq!(back[1].0, "performer");
    assert!(matches!(&back[1].1, BlockReprVal::One(s) if s == "Solo"));
    assert_eq!(back[2].0, "title");
    assert!(matches!(&back[2].1, BlockReprVal::One(s) if s == "T"));
}

#[test]
fn block_list_round_trip() {
    let list = BlockListWrapper::from_repr(vec![
        repr(vec![("title", one("T1"))]),
        repr(vec![("title", many(&["T2"]))]),
    ]);
    assert_eq!(list.0.len(), 2);
    let back = list.into_repr();
    assert_eq!(back.len(), 2);
    assert!(matches!(&back[0][0].1, BlockReprVal::One(s) if s == "T1"));
    assert!(matches!(&back[1][0].1, BlockReprVal::One(s) if s == "T2"));
}
