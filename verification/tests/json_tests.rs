use mockd::json::{to_json_string, JsonValue};

#[test]
fn scalars_render_exactly() {
    assert_eq!(to_json_string(&JsonValue::Null), "null");
    assert_eq!(to_json_string(&JsonValue::Bool(true)), "true");
    assert_eq!(to_json_string(&JsonValue::Bool(false)), "false");
    assert_eq!(to_json_string(&JsonValue::Int(0)), "0");
    assert_eq!(to_json_string(&JsonValue::Int(42)), "42");
    assert_eq!(to_json_string(&JsonValue::Int(-7)), "-7");
    assert_eq!(
        to_json_string(&JsonValue::Int(i64::MIN)),
        "-9223372036854775808"
    );
    assert_eq!(
        to_json_string(&JsonValue::Int(i64::MAX)),
        "9223372036854775807"
    );
}

#[test]
fn strings_are_escaped() {
    assert_eq!(
        to_json_string(&JsonValue::Str(String::from("plain"))),
        "\"plain\""
    );
    assert_eq!(
        to_json_string(&JsonValue::Str(String::from("a\"b\\c"))),
        "\"a\\\"b\\\\c\""
    );
    assert_eq!(
        to_json_string(&JsonValue::Str(String::from("line\nbreak\ttab"))),
        "\"line\\nbreak\\ttab\""
    );
    assert_eq!(
        to_json_string(&JsonValue::Str(String::from("\u{1}"))),
        "\"\\u0001\""
    );
}

#[test]
fn composites_render_compactly() {
    let arr = JsonValue::Arr(vec![
        JsonValue::Int(1),
        JsonValue::Str(String::from("x")),
        JsonValue::Null,
    ]);
    assert_eq!(to_json_string(&arr), "[1,\"x\",null]");

    let obj = JsonValue::Obj(vec![
        (String::from("ok"), JsonValue::Bool(true)),
        (
            String::from("items"),
            JsonValue::Arr(vec![JsonValue::Int(1), JsonValue::Int(2)]),
        ),
    ]);
    assert_eq!(to_json_string(&obj), "{\"ok\":true,\"items\":[1,2]}");

    assert_eq!(to_json_string(&JsonValue::Arr(vec![])), "[]");
    assert_eq!(to_json_string(&JsonValue::Obj(vec![])), "{}");
}

#[test]
fn rendering_matches_serde_json() {
    // Keys in sorted order, since serde_json's object reorders its keys.
    let obj = JsonValue::Obj(vec![
        (String::from("a b"), JsonValue::Str(String::from("x\"y"))),
        (
            String::from("l"),
            JsonValue::Arr(vec![JsonValue::Bool(false), JsonValue::Null]),
        ),
        (String::from("n"), JsonValue::Int(-12)),
    ]);
    let ours = to_json_string(&obj);
    let parsed: serde_json::Value = serde_json::from_str(&ours).unwrap();
    assert_eq!(serde_json::to_string(&parsed).unwrap(), ours);
}

#[test]
fn clone_renders_identically() {
    let obj = JsonValue::Obj(vec![(
        String::from("deep"),
        JsonValue::Arr(vec![JsonValue::Obj(vec![(
            String::from("k"),
            JsonValue::Int(3),
        )])]),
    )]);
    let copy = obj.clone();
    assert_eq!(to_json_string(&obj), to_json_string(&copy));
}
