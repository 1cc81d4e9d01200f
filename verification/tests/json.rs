use serverify::json::{clone_items, from_serde, to_serde, Json, Member};

fn serde(text: &str) -> serde_json::Value {
    serde_json::from_str(text).unwrap()
}

fn member(name: &str, value: Json) -> Member {
    Member { name: name.to_string(), value }
}

#[test]
fn a_value_is_read_as_it_stands() {
    assert_eq!(Json::Null, from_serde(&serde("null")));
    assert_eq!(Json::Bool(true), from_serde(&serde("true")));
    assert_eq!(Json::Number("12".to_string()), from_serde(&serde("12")));
    assert_eq!(Json::Number("-3".to_string()), from_serde(&serde("-3")));
    assert_eq!(Json::Number("1.5".to_string()), from_serde(&serde("1.5")));
    assert_eq!(Json::Str("a\"b".to_string()), from_serde(&serde(r#""a\"b""#)));
    assert_eq!(
        Json::Array(vec![Json::Number("1".to_string()), Json::Array(vec![]), Json::Null]),
        from_serde(&serde("[1, [], null]"))
    );
    assert_eq!(
        Json::Object(vec![
            member("z", Json::Number("1".to_string())),
            member("a", Json::Object(vec![member("b", Json::Bool(false))])),
        ]),
        from_serde(&serde(r#"{"z": 1, "a": {"b": false}}"#))
    );
}

#[test]
fn a_value_is_built_as_it_stands() {
    for text in [
        "null",
        "false",
        "0",
        "-7",
        "18446744073709551615",
        "2.5",
        "0.1",
        "0.30000000000000004",
        "1e-7",
        "5e-324",
        "1.7976931348623157e308",
        "123456789.12345679",
        "-2.2250738585072014e-308",
        "[9007199254740993.0, 0.000001, 1e21]",
        r#""text""#,
        "[]",
        "{}",
        r#"{"z": [1, {"y": null}], "a": "b"}"#,
    ] {
        assert_eq!(serde(text), to_serde(&from_serde(&serde(text))), "{}", text);
        assert_eq!(
            serde(text).to_string(),
            to_serde(&from_serde(&serde(text))).to_string(),
            "{}",
            text
        );
    }
}

#[test]
fn a_text_that_is_no_number_is_built_as_null() {
    assert_eq!(serde("null"), to_serde(&Json::Number("twelve".to_string())));
    assert_eq!(serde("null"), to_serde(&Json::Number("".to_string())));
    assert_eq!(serde("[null, 1]"), to_serde(&Json::Array(vec![
        Json::Number("1 2".to_string()),
        Json::Number("1".to_string()),
    ])));
}

#[test]
fn a_name_that_comes_again_takes_the_place_of_the_one_before() {
    let value = Json::Object(vec![
        member("a", Json::Number("1".to_string())),
        member("b", Json::Number("2".to_string())),
        member("a", Json::Number("3".to_string())),
    ]);
    assert_eq!(r#"{"a":3,"b":2}"#, to_serde(&value).to_string());
}

#[test]
fn copies_are_deep() {
    let value = from_serde(&serde(r#"{"a": [1, {"b": "c"}], "d": null}"#));
    assert_eq!(value, value.clone());
    let items = vec![value.clone(), Json::Null];
    assert_eq!(items, clone_items(&items));
    let one = member("n", value);
    assert_eq!(one, one.clone());
}
