use datapack_tree::transform::{parse_tag, yaml_to_json, yaml_to_json_flattable};
use datapack_tree::value::{JsonValue, SourceValue, TransformError};

fn s(text: &str) -> String {
    String::from(text)
}

fn src_str(text: &str) -> SourceValue {
    SourceValue::Str(s(text))
}

fn json_str(text: &str) -> JsonValue {
    JsonValue::Str(s(text))
}

/// The tagged node `!namespaced {ns1: [x, y]}`.
fn namespaced_ns1_xy() -> SourceValue {
    SourceValue::Tagged(
        s("namespaced"),
        Box::new(SourceValue::Mapping(vec![(
            src_str("ns1"),
            SourceValue::Sequence(vec![src_str("x"), src_str("y")]),
        )])),
    )
}

#[test]
fn scalars_pass_through() {
    assert_eq!(yaml_to_json(&SourceValue::Null), Ok(JsonValue::Null));
    assert_eq!(yaml_to_json(&SourceValue::Bool(true)), Ok(JsonValue::Bool(true)));
    assert_eq!(
        yaml_to_json(&SourceValue::Number(s("42"))),
        Ok(JsonValue::Number(s("42")))
    );
    assert_eq!(yaml_to_json(&src_str("hi")), Ok(json_str("hi")));
}

#[test]
fn mapping_keeps_key_order() {
    let m = SourceValue::Mapping(vec![
        (src_str("b"), SourceValue::Number(s("1"))),
        (src_str("a"), SourceValue::Number(s("2"))),
    ]);
    assert_eq!(
        yaml_to_json(&m),
        Ok(JsonValue::Object(vec![
            (s("b"), JsonValue::Number(s("1"))),
            (s("a"), JsonValue::Number(s("2"))),
        ]))
    );
}

#[test]
fn repeated_key_replaces_value_in_place() {
    let m = SourceValue::Mapping(vec![
        (src_str("k"), SourceValue::Number(s("1"))),
        (src_str("other"), SourceValue::Null),
        (src_str("k"), SourceValue::Number(s("2"))),
    ]);
    assert_eq!(
        yaml_to_json(&m),
        Ok(JsonValue::Object(vec![
            (s("k"), JsonValue::Number(s("2"))),
            (s("other"), JsonValue::Null),
        ]))
    );
}

#[test]
fn non_string_key_fails() {
    let m = SourceValue::Mapping(vec![(SourceValue::Bool(true), SourceValue::Null)]);
    assert_eq!(yaml_to_json(&m), Err(TransformError::KeyTypeError));
}

#[test]
fn namespaced_tag_expands_in_sequence() {
    let seq = SourceValue::Sequence(vec![namespaced_ns1_xy()]);
    assert_eq!(
        yaml_to_json(&seq),
        Ok(JsonValue::Array(vec![json_str("ns1:x"), json_str("ns1:y")]))
    );
}

#[test]
fn namespaced_tag_expands_several_namespaces_in_order() {
    let payload = SourceValue::Mapping(vec![
        (src_str("alpha"), SourceValue::Sequence(vec![src_str("one")])),
        (
            src_str("beta"),
            SourceValue::Sequence(vec![src_str("two"), src_str("three")]),
        ),
    ]);
    let out = parse_tag(&s("namespaced"), &payload).unwrap();
    assert_eq!(
        out,
        vec![json_str("alpha:one"), json_str("beta:two"), json_str("beta:three")]
    );
}

#[test]
fn single_tagged_key_mapping_is_rewritten() {
    // {!namespaced ns: [a, b]} as a sequence element carries the tag out.
    let element = SourceValue::Mapping(vec![(
        SourceValue::Tagged(s("namespaced"), Box::new(src_str("ns"))),
        SourceValue::Sequence(vec![src_str("a"), src_str("b")]),
    )]);
    let seq = SourceValue::Sequence(vec![element]);
    assert_eq!(
        yaml_to_json(&seq),
        Ok(JsonValue::Array(vec![json_str("ns:a"), json_str("ns:b")]))
    );
}

#[test]
fn fan_out_keeps_neighbours_in_order() {
    let seq = SourceValue::Sequence(vec![
        SourceValue::Number(s("1")),
        namespaced_ns1_xy(),
        SourceValue::Bool(true),
    ]);
    assert_eq!(
        yaml_to_json(&seq),
        Ok(JsonValue::Array(vec![
            JsonValue::Number(s("1")),
            json_str("ns1:x"),
            json_str("ns1:y"),
            JsonValue::Bool(true),
        ]))
    );
}

#[test]
fn empty_expansion_vanishes_from_sequence() {
    let empty_tag = SourceValue::Tagged(
        s("namespaced"),
        Box::new(SourceValue::Mapping(vec![])),
    );
    let seq = SourceValue::Sequence(vec![empty_tag]);
    assert_eq!(yaml_to_json(&seq), Ok(JsonValue::Array(vec![])));
}

#[test]
fn unknown_tag_fails_by_name_in_sequence() {
    let seq = SourceValue::Sequence(vec![SourceValue::Tagged(
        s("custom"),
        Box::new(SourceValue::Null),
    )]);
    assert_eq!(
        yaml_to_json(&seq),
        Err(TransformError::UnsupportedTagError(s("custom")))
    );
}

#[test]
fn any_tag_fails_outside_sequences() {
    // Even the supported tag has no meaning as a mapping value.
    let m = SourceValue::Mapping(vec![(
        src_str("k"),
        SourceValue::Tagged(s("namespaced"), Box::new(SourceValue::Null)),
    )]);
    assert_eq!(
        yaml_to_json(&m),
        Err(TransformError::UnsupportedTagError(s("namespaced")))
    );
}

#[test]
fn unknown_tag_fails_deep_in_the_tree() {
    let deep = SourceValue::Mapping(vec![(
        src_str("outer"),
        SourceValue::Sequence(vec![
            SourceValue::Null,
            SourceValue::Tagged(s("weird"), Box::new(SourceValue::Bool(false))),
        ]),
    )]);
    assert_eq!(
        yaml_to_json(&deep),
        Err(TransformError::UnsupportedTagError(s("weird")))
    );
}

#[test]
fn namespaced_payload_must_be_a_mapping() {
    let bad = SourceValue::Sequence(vec![SourceValue::Tagged(
        s("namespaced"),
        Box::new(SourceValue::Null),
    )]);
    assert_eq!(yaml_to_json(&bad), Err(TransformError::ShapeError));
}

#[test]
fn namespaced_entries_must_be_strings() {
    let bad_payload = SourceValue::Mapping(vec![(
        src_str("ns"),
        SourceValue::Sequence(vec![SourceValue::Number(s("3"))]),
    )]);
    assert_eq!(
        parse_tag(&s("namespaced"), &bad_payload),
        Err(TransformError::ShapeError)
    );
}

#[test]
fn plain_element_expands_to_itself() {
    let out = yaml_to_json_flattable(&src_str("solo")).unwrap();
    assert_eq!(out, vec![json_str("solo")]);
}

#[test]
fn parse_tag_rejects_other_tags() {
    assert_eq!(
        parse_tag(&s("other"), &SourceValue::Null),
        Err(TransformError::UnsupportedTagError(s("other")))
    );
}
