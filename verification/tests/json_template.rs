use indexmap::IndexMap;
use serverify::json::{Json, Member};
use serverify::json_template::{overwrite, JsonTemplate, Step};

fn json_of(value: &serde_json::Value) -> Json {
    match value {
        serde_json::Value::Null => Json::Null,
        serde_json::Value::Bool(b) => Json::Bool(*b),
        serde_json::Value::Number(n) => Json::Number(n.to_string()),
        serde_json::Value::String(s) => Json::Str(s.clone()),
        serde_json::Value::Array(items) => Json::Array(items.iter().map(json_of).collect()),
        serde_json::Value::Object(members) => Json::Object(
            members.iter().map(|(k, v)| Member { name: k.clone(), value: json_of(v) }).collect(),
        ),
    }
}

fn json(text: &str) -> Json {
    json_of(&serde_json::from_str::<serde_json::Value>(text).unwrap())
}

fn values(pairs: Vec<(&str, &str)>) -> IndexMap<String, Json> {
    let mut map = IndexMap::new();
    for (k, v) in pairs {
        map.insert(k.to_string(), json(v));
    }
    map
}

fn expand_case(template: &str, bound: Vec<(&str, &str)>, expected: &str) {
    let template = JsonTemplate::parse(
        json(template),
        vec!["_index".to_string(), "_value".to_string()],
        "_text".to_string(),
    )
    .unwrap();
    let actual = template.expand(values(bound)).unwrap();
    assert_eq!(json(expected), actual);
}

#[test]
fn expand_value_at_root() {
    expand_case(r#""$_value""#, vec![("_value", "[1, 2, 3]")], "[1, 2, 3]");
}

#[test]
fn expand_value_in_object() {
    expand_case(r#"{"a": 1, "b": "$_value"}"#, vec![("_value", "42")], r#"{"a": 1, "b": 42}"#);
}

#[test]
fn expand_values_in_array_of_objects() {
    expand_case(
        r#"[{"index": "$_index", "value": 41}, {"index": 1, "value": "$_value"}]"#,
        vec![("_index", "0"), ("_value", "42")],
        r#"[{"index": 0, "value": 41}, {"index": 1, "value": 42}]"#,
    );
}

#[test]
fn expand_text_placeholder() {
    expand_case(
        r#"{"text": { "$_text": "index: {{ _index }}, value: {{ _value }}" }}"#,
        vec![("_index", "0"), ("_value", "42")],
        r#"{"text": "index: 0, value: 42"}"#,
    );
}

#[test]
fn expand_text_with_loop_and_condition() {
    expand_case(
        r#"{"text": { "$_text": "{% for x in _value %}{% if x > 1 %}<{{ x }}>{% endif %}{% endfor %}" }}"#,
        vec![("_value", "[1, 2, 3]")],
        r#"{"text": "<2><3>"}"#,
    );
}

#[test]
fn expand_keeps_everything_else() {
    expand_case(
        r#"{"n": null, "b": true, "f": 1.5, "s": "$other", "d": "$", "o": {"$_text": 1}, "a": [[], {}]}"#,
        vec![("_index", "0"), ("_value", "42")],
        r#"{"n": null, "b": true, "f": 1.5, "s": "$other", "d": "$", "o": {"$_text": 1}, "a": [[], {}]}"#,
    );
}

#[test]
fn expand_keeps_the_order_of_members() {
    let template =
        JsonTemplate::parse(json(r#"{"z": "$_value", "a": 1}"#), vec!["_value".to_string()], "_text".to_string())
            .unwrap();
    let actual = template.expand(values(vec![("_value", "2")])).unwrap();
    match actual {
        Json::Object(members) => {
            let names: Vec<&str> = members.iter().map(|m| m.name.as_str()).collect();
            assert_eq!(vec!["z", "a"], names);
            assert_eq!(Json::Number("2".to_string()), members[0].value);
        }
        other => panic!("{:?}", other),
    }
}

#[test]
fn expand_twice_gives_the_same() {
    let template = JsonTemplate::parse(
        json(r#"{"a": "$_value", "t": {"$_text": "{{ _value }}!"}}"#),
        vec!["_value".to_string()],
        "_text".to_string(),
    )
    .unwrap();
    let bound = values(vec![("_value", "7")]);
    assert_eq!(template.expand(bound.clone()), template.expand(bound.clone()));
    assert_eq!(json(r#"{"a": 7, "t": "7!"}"#), template.expand(bound.clone()).unwrap());
}

#[test]
fn expand_reports_a_text_that_does_not_render() {
    let template = JsonTemplate::parse(
        json(r#"{"t": {"$_text": "{% if %}"}}"#),
        vec!["_value".to_string()],
        "_text".to_string(),
    )
    .unwrap();
    assert!(template.expand(values(vec![("_value", "7")])).is_err());
}

#[test]
fn an_object_with_more_members_is_no_text_placeholder() {
    expand_case(
        r#"{"t": {"$_text": "{{ _value }}", "more": "$_value"}}"#,
        vec![("_value", "7")],
        r#"{"t": {"$_text": "{{ _value }}", "more": 7}}"#,
    );
}

fn failure_case(value_placeholders: Vec<&str>, text_placeholder: &str, expected: &str) {
    let template = json(r#"{"a": 1, "b": "$_value", "c": { "$_text": "value: {{ _value }}" }}"#);
    let result = JsonTemplate::parse(
        template,
        value_placeholders.iter().map(|s| s.to_string()).collect(),
        text_placeholder.to_string(),
    );
    assert_eq!(result, Err(expected.to_string()));
}

#[test]
fn failure_cases_empty_value_name() {
    failure_case(vec![""], "_text", "placeholder name cannot be empty");
}

#[test]
fn failure_cases_empty_text_name() {
    failure_case(vec!["_value"], "", "placeholder name cannot be empty");
}

#[test]
fn failure_cases_invalid_value_name() {
    failure_case(vec!["$abc"], "_text", "invalid placeholder name: `$abc`");
}

#[test]
fn failure_cases_invalid_text_name() {
    failure_case(vec!["_value"], "0x", "invalid placeholder name: `0x`");
}

#[test]
fn failure_cases_invalid_value_name_with_digit_in_front() {
    failure_case(vec!["0x"], "_text", "invalid placeholder name: `0x`");
}

#[test]
fn failure_cases_duplicated_value_name() {
    failure_case(vec!["abc", "def", "abc"], "_text", "duplicated placeholder name: `abc`");
}

#[test]
fn failure_cases_two_equal_names() {
    failure_case(vec!["a", "a"], "_text", "duplicated placeholder name: `a`");
}

#[test]
fn failure_cases_text_name_given_before() {
    failure_case(vec!["abc", "def"], "abc", "duplicated placeholder name: `abc`");
}

#[test]
fn the_first_fault_wins() {
    failure_case(vec!["ok", "", "0x"], "ok", "placeholder name cannot be empty");
}

#[test]
fn validate_placeholder_name_accepts_letters_digits_and_underscores() {
    let none: Vec<String> = vec![];
    assert_eq!(Ok(()), JsonTemplate::validate_placeholder_name("_aZ09_", &none));
    assert_eq!(
        Err("invalid placeholder name: `a-b`".to_string()),
        JsonTemplate::validate_placeholder_name("a-b", &none)
    );
    assert_eq!(
        Err("invalid placeholder name: `a\n`".to_string()),
        JsonTemplate::validate_placeholder_name("a\n", &none)
    );
}

#[test]
fn placeholder_names_agree_with_the_pattern() {
    let pattern = regex::Regex::new(r"^[A-Za-z_][A-Za-z0-9_]*$").unwrap();
    let none: Vec<String> = vec![];
    for name in ["a", "_", "A1", "1a", "a b", "é", "a_b_c", "a.b", "x\n", "-"] {
        assert_eq!(
            pattern.is_match(name),
            JsonTemplate::validate_placeholder_name(name, &none).is_ok(),
            "{}",
            name
        );
    }
}

#[test]
fn overwrite_replaces_one_place() {
    let target = json(r#"{"a": [1, {"b": 2}], "c": 3}"#);
    let steps = vec![Step::Field(0), Step::Index(1), Step::Field(0)];
    let actual = overwrite(target, &steps, json(r#""new""#));
    assert_eq!(json(r#"{"a": [1, {"b": "new"}], "c": 3}"#), actual);
}

#[test]
fn overwrite_leaves_a_value_without_the_place_unchanged() {
    let target = json(r#"{"a": [1]}"#);
    assert_eq!(target.clone(), overwrite(target.clone(), &vec![Step::Index(0)], Json::Null));
    assert_eq!(
        target.clone(),
        overwrite(target.clone(), &vec![Step::Field(0), Step::Index(5)], Json::Null)
    );
    assert_eq!(Json::Null, overwrite(target, &vec![], Json::Null));
}

#[test]
fn a_template_keeps_what_it_was_read_with() {
    let template = JsonTemplate::parse(
        json(r#"{"a": "$x"}"#),
        vec!["x".to_string(), "y".to_string()],
        "t".to_string(),
    )
    .unwrap();
    assert_eq!(&vec!["x".to_string(), "y".to_string()], template.value_placeholders());
    assert_eq!("t", template.text_placeholder());
    assert_eq!(&json(r#"{"a": "$x"}"#), template.value());
    let copy = template.clone();
    assert_eq!(template, copy);
    let bound = values(vec![("x", "[1]")]);
    assert_eq!(template.expand(bound.clone()), copy.expand(bound.clone()));
    assert_eq!(json(r#"{"a": [1]}"#), copy.expand(bound.clone()).unwrap());
}

#[test]
fn the_scope_of_a_text_holds_every_value() {
    let template = JsonTemplate::parse(
        json(r#"{"t": {"$t": "{{ b }}-{{ a }}-{{ c | length }}"}}"#),
        vec!["a".to_string()],
        "t".to_string(),
    )
    .unwrap();
    assert_eq!(
        json(r#"{"t": "2-1-3"}"#),
        template.expand(values(vec![("a", "1"), ("b", "2"), ("c", "[1, 2, 3]")])).unwrap()
    );
}

#[test]
fn a_value_placeholder_under_a_text_placeholder_is_not_found() {
    let template = JsonTemplate::parse(
        json(r#"{"t": "$x", "$t": "$x"}"#),
        vec!["x".to_string()],
        "t".to_string(),
    )
    .unwrap();
    assert_eq!(
        json(r#"{"t": 1, "$t": 1}"#),
        template.expand(values(vec![("x", "1")])).unwrap()
    );
    let template =
        JsonTemplate::parse(json(r#"[{"$t": "$x"}]"#), vec!["x".to_string()], "t".to_string())
            .unwrap();
    assert_eq!(json(r#"["$x"]"#), template.expand(values(vec![("x", "1")])).unwrap());
}
