use datapack_tree::serialize::to_pretty_bytes;
use datapack_tree::transform::yaml_to_json;
use datapack_tree::tree::DiskData;
use datapack_tree::value::{JsonValue, SourceValue, TransformError};

fn s(text: &str) -> String {
    String::from(text)
}

fn src_str(text: &str) -> SourceValue {
    SourceValue::Str(s(text))
}

/// A small document: {"pack.mcmeta": {"pack": {"format": 18}}, "data": {...}}
fn sample_source() -> SourceValue {
    SourceValue::Mapping(vec![
        (
            src_str("pack.mcmeta"),
            SourceValue::Mapping(vec![(
                src_str("pack"),
                SourceValue::Mapping(vec![(src_str("format"), SourceValue::Number(s("18")))]),
            )]),
        ),
        (
            src_str("data"),
            SourceValue::Mapping(vec![(
                src_str("tags/items/swords.json"),
                SourceValue::Mapping(vec![(
                    src_str("values"),
                    SourceValue::Sequence(vec![src_str("a:sword")]),
                )]),
            )]),
        ),
    ])
}

#[test]
fn pretty_prints_scalars() {
    assert_eq!(to_pretty_bytes(&JsonValue::Null), b"null".to_vec());
    assert_eq!(to_pretty_bytes(&JsonValue::Bool(false)), b"false".to_vec());
    assert_eq!(to_pretty_bytes(&JsonValue::Number(s("42"))), b"42".to_vec());
    assert_eq!(to_pretty_bytes(&JsonValue::Str(s("hi"))), b"\"hi\"".to_vec());
}

#[test]
fn pretty_printing_matches_reference_encoder() {
    // Keys in alphabetical order, since the reference encoder sorts its maps.
    let ours = JsonValue::Object(vec![
        (s("empty"), JsonValue::Object(vec![])),
        (
            s("list"),
            JsonValue::Array(vec![
                JsonValue::Number(s("1")),
                JsonValue::Object(vec![(s("inner"), JsonValue::Null)]),
                JsonValue::Array(vec![]),
            ]),
        ),
        (s("name"), JsonValue::Str(s("quote \" and \\ backslash"))),
    ]);
    let mut reference = serde_json::Map::new();
    reference.insert(
        s("name"),
        serde_json::Value::String(s("quote \" and \\ backslash")),
    );
    let mut inner = serde_json::Map::new();
    inner.insert(s("inner"), serde_json::Value::Null);
    reference.insert(
        s("list"),
        serde_json::Value::Array(vec![
            serde_json::Value::Number(serde_json::Number::from(1)),
            serde_json::Value::Object(inner),
            serde_json::Value::Array(vec![]),
        ]),
    );
    reference.insert(s("empty"), serde_json::Value::Object(serde_json::Map::new()));
    let expected = serde_json::to_vec_pretty(&serde_json::Value::Object(reference)).unwrap();
    assert_eq!(to_pretty_bytes(&ours), expected);
}

#[test]
fn produced_bytes_parse_back_to_the_same_value() {
    let v = yaml_to_json(&sample_source()).unwrap();
    let bytes = to_pretty_bytes(&v);
    let parsed: serde_json::Value = serde_json::from_slice(&bytes).unwrap();

    let mut pack_inner = serde_json::Map::new();
    pack_inner.insert(s("format"), serde_json::Value::Number(serde_json::Number::from(18)));
    let mut pack = serde_json::Map::new();
    pack.insert(s("pack"), serde_json::Value::Object(pack_inner));
    let mut swords = serde_json::Map::new();
    swords.insert(
        s("values"),
        serde_json::Value::Array(vec![serde_json::Value::String(s("a:sword"))]),
    );
    let mut data = serde_json::Map::new();
    data.insert(s("tags/items/swords.json"), serde_json::Value::Object(swords));
    let mut top = serde_json::Map::new();
    top.insert(s("pack.mcmeta"), serde_json::Value::Object(pack));
    top.insert(s("data"), serde_json::Value::Object(data));
    assert_eq!(parsed, serde_json::Value::Object(top));
}

#[test]
fn non_ascii_strings_round_trip_through_escapes() {
    let v = JsonValue::Array(vec![
        JsonValue::Str(s("caf\u{e9} \u{1f600} \u{7}")),
        JsonValue::Str(s("line\nbreak\ttab")),
    ]);
    let bytes = to_pretty_bytes(&v);
    assert!(bytes.iter().all(|b| b.is_ascii()));
    let parsed: serde_json::Value = serde_json::from_slice(&bytes).unwrap();
    assert_eq!(
        parsed,
        serde_json::Value::Array(vec![
            serde_json::Value::String(s("caf\u{e9} \u{1f600} \u{7}")),
            serde_json::Value::String(s("line\nbreak\ttab")),
        ])
    );
}

#[test]
fn file_key_yields_file_and_folder_key_yields_folder() {
    let tree = DiskData::from_yaml(&sample_source()).unwrap();
    let DiskData::Folder(children) = tree else {
        panic!("root must be a folder");
    };
    assert_eq!(children.len(), 2);
    assert_eq!(children[0].0, s("pack.mcmeta"));
    assert!(matches!(children[0].1, DiskData::File(_)));
    assert_eq!(children[1].0, s("data"));
    assert!(matches!(children[1].1, DiskData::Folder(_)));
}

#[test]
fn path_key_decomposes_into_nested_folders() {
    let source = SourceValue::Mapping(vec![(src_str("a/b/c.json"), SourceValue::Bool(true))]);
    let tree = DiskData::from_yaml(&source).unwrap();
    let expected = DiskData::Folder(vec![(
        s("a"),
        DiskData::Folder(vec![(
            s("b"),
            DiskData::Folder(vec![(s("c.json"), DiskData::File(b"true".to_vec()))]),
        )]),
    )]);
    assert_eq!(tree, expected);
}

#[test]
fn mid_path_dot_does_not_make_a_file() {
    // Only the terminal segment decides: "a.b/c" is a folder key.
    let source = SourceValue::Mapping(vec![(
        src_str("a.b/c"),
        SourceValue::Mapping(vec![(src_str("f.json"), SourceValue::Null)]),
    )]);
    let tree = DiskData::from_yaml(&source).unwrap();
    let expected = DiskData::Folder(vec![(
        s("a.b"),
        DiskData::Folder(vec![(
            s("c"),
            DiskData::Folder(vec![(s("f.json"), DiskData::File(b"null".to_vec()))]),
        )]),
    )]);
    assert_eq!(tree, expected);
}

#[test]
fn colliding_top_names_keep_the_later_subtree() {
    let source = SourceValue::Mapping(vec![
        (
            src_str("x/first.json"),
            SourceValue::Bool(true),
        ),
        (
            src_str("x"),
            SourceValue::Mapping(vec![(src_str("second.json"), SourceValue::Bool(false))]),
        ),
    ]);
    let tree = DiskData::from_yaml(&source).unwrap();
    let expected = DiskData::Folder(vec![(
        s("x"),
        DiskData::Folder(vec![(s("second.json"), DiskData::File(b"false".to_vec()))]),
    )]);
    assert_eq!(tree, expected);
}

#[test]
fn folder_key_requires_a_mapping_value() {
    let source = SourceValue::Mapping(vec![(src_str("dir"), SourceValue::Bool(true))]);
    assert_eq!(DiskData::from_yaml(&source), Err(TransformError::ShapeError));
}

#[test]
fn non_mapping_top_level_is_a_shape_error() {
    assert_eq!(
        DiskData::from_yaml(&SourceValue::Sequence(vec![])),
        Err(TransformError::ShapeError)
    );
    assert_eq!(
        DiskData::from_yaml(&src_str("scalar")),
        Err(TransformError::ShapeError)
    );
    assert_eq!(
        DiskData::from_yaml(&SourceValue::Null),
        Err(TransformError::ShapeError)
    );
}

#[test]
fn non_string_top_level_key_is_a_key_type_error() {
    let source = SourceValue::Mapping(vec![(SourceValue::Number(s("1")), SourceValue::Null)]);
    assert_eq!(DiskData::from_yaml(&source), Err(TransformError::KeyTypeError));
}

#[test]
fn unknown_tag_fails_the_whole_build() {
    let source = SourceValue::Mapping(vec![(
        src_str("f.json"),
        SourceValue::Sequence(vec![SourceValue::Tagged(
            s("mystery"),
            Box::new(SourceValue::Null),
        )]),
    )]);
    assert_eq!(
        DiskData::from_yaml(&source),
        Err(TransformError::UnsupportedTagError(s("mystery")))
    );
}

#[test]
fn building_twice_is_byte_identical() {
    let first = DiskData::from_yaml(&sample_source()).unwrap();
    let second = DiskData::from_yaml(&sample_source()).unwrap();
    assert_eq!(first, second);
}

#[test]
fn trailing_separator_puts_entry_under_top_name() {
    // "a/" splits into top "a" with an empty rest: the folder sits directly
    // under "a".
    let source = SourceValue::Mapping(vec![(
        src_str("a/"),
        SourceValue::Mapping(vec![(src_str("f.json"), SourceValue::Null)]),
    )]);
    let tree = DiskData::from_yaml(&source).unwrap();
    let expected = DiskData::Folder(vec![(
        s("a"),
        DiskData::Folder(vec![(s("f.json"), DiskData::File(b"null".to_vec()))]),
    )]);
    assert_eq!(tree, expected);
}
