use slint_dart::convert::{TypeShape, ValueFromJson};
use slint_dart::json::{JsonNumber, JsonValue};
use slint_dart::runtime::{
    definition_api, envelope, err, fallback, find_callback, find_invokable, find_property, lookup_type,
    ok, ok_void, panic_message, parse_args, result_component, translated, translation_request,
    MemberKind,
};

fn s(text: &str) -> String {
    text.to_string()
}

fn string(text: &str) -> JsonValue {
    JsonValue::String(s(text))
}

fn number(n: u64) -> JsonValue {
    JsonValue::Number(JsonNumber::Unsigned(n))
}

fn members() -> Vec<(String, MemberKind)> {
    vec![
        (s("status-message"), MemberKind::Property),
        (s("did-something"), MemberKind::Callback(1)),
        (s("do-work"), MemberKind::Function(1)),
    ]
}

#[test]
fn underscores_and_hyphens_name_the_same_member() {
    let members = members();
    assert_eq!(lookup_type(Some(&members), "status_message"), Some(0));
    assert_eq!(lookup_type(Some(&members), "status-message"), Some(0));
    assert_eq!(lookup_type(Some(&members), "do_work"), Some(2));
    assert_eq!(lookup_type(Some(&members), "do-work"), Some(2));
    let global = vec![(s("some_offset"), MemberKind::Property)];
    assert_eq!(lookup_type(Some(&global), "some-offset"), Some(0));
    assert_eq!(lookup_type(Some(&global), "some_offset"), Some(0));
    assert_eq!(lookup_type(Some(&members), "nope"), None);
    // A global that does not exist has no members at all.
    assert_eq!(lookup_type(None, "some_offset"), None);
}

#[test]
fn unknown_names_report_errors_instead_of_panicking() {
    let members = members();
    assert_eq!(find_property(Some(&members), "nope").unwrap_err(), "no such property: nope");
    assert_eq!(find_property(Some(&members), "status_message").unwrap(), 0);
    assert_eq!(
        find_invokable(Some(&members), "nope").unwrap_err(),
        "no such callback or function: nope"
    );
    assert_eq!(
        find_invokable(Some(&members), "status_message").unwrap_err(),
        "status_message is a property, not a callback or function"
    );
    assert_eq!(find_invokable(Some(&members), "do_work").unwrap(), (2, 1));
    assert_eq!(find_callback(None, "shout").unwrap_err(), "no such callback: shout");
    assert_eq!(
        find_callback(Some(&members), "status-message").unwrap_err(),
        "status-message is a property, not a callback"
    );
    assert_eq!(find_callback(Some(&members), "did_something").unwrap(), (1, 1));
}

#[test]
fn invoke_checks_the_argument_count() {
    let types: Vec<TypeShape<&str>> = vec![TypeShape::Other("int")];
    let parsed = Ok(JsonValue::Array(vec![]));
    assert_eq!(parse_args(&parsed, &types).unwrap_err(), "expected 1 argument(s), got 0");
}

#[test]
fn arguments_are_read_by_their_parameter_types() {
    let types: Vec<TypeShape<&str>> = vec![TypeShape::Other("int"), TypeShape::Image];
    let parsed = Ok(JsonValue::Array(vec![number(21), JsonValue::Null]));
    let args = parse_args(&parsed, &types).unwrap();
    assert_eq!(args.len(), 2);
    assert!(matches!(args[0], ValueFromJson::Other(&"int", &JsonValue::Number(JsonNumber::Unsigned(21)))));
    assert!(matches!(args[1], ValueFromJson::Image(slint_dart::values::ImageRequest::Empty)));

    let bad = Ok(JsonValue::Array(vec![number(1), number(2)]));
    assert_eq!(
        parse_args(&bad, &types).unwrap_err(),
        "an image must be a path string, null, or an object"
    );
    assert_eq!(
        parse_args(&Ok(string("x")), &types).unwrap_err(),
        "arguments must be a JSON array"
    );
    assert_eq!(
        parse_args(&Err(s("expected value at line 1 column 1")), &types).unwrap_err(),
        "invalid argument list: expected value at line 1 column 1"
    );
}

#[test]
fn envelopes_carry_a_value_or_an_error() {
    assert_eq!(ok(number(42)), JsonValue::Object(vec![(s("ok"), number(42))]));
    assert_eq!(ok_void(), JsonValue::Object(vec![(s("ok"), JsonValue::Null)]));
    assert_eq!(err("boom"), JsonValue::Object(vec![(s("err"), string("boom"))]));
    assert_eq!(envelope(Ok(string("x"))), JsonValue::Object(vec![(s("ok"), string("x"))]));
    assert_eq!(envelope(Err(s("bad"))), JsonValue::Object(vec![(s("err"), string("bad"))]));
}

#[test]
fn a_panic_becomes_an_error_envelope_instead_of_aborting() {
    let message = panic_message(Some("boom"));
    assert!(message.contains("boom"), "{message}");
    assert_eq!(message, "Slint panicked: boom");
    assert_eq!(panic_message(None), "Slint panicked: unknown reason");
}

#[test]
fn untranslated_text_picks_the_plural_form_when_it_applies() {
    assert_eq!(fallback("apple", Some("apples"), 1), "apple");
    assert_eq!(fallback("apple", Some("apples"), 2), "apples");
    assert_eq!(fallback("apple", None, 2), "apple");
    assert_eq!(fallback("apple", Some("apples"), 0), "apples");
}

#[test]
fn translations_replace_tr_strings() {
    let request = translation_request("greeting", None, None, 1);
    assert_eq!(
        request,
        JsonValue::Object(vec![
            (s("string"), string("greeting")),
            (s("context"), JsonValue::Null),
            (s("plural"), JsonValue::Null),
            (s("n"), number(1)),
        ])
    );
    assert_eq!(translated(Some(Ok(string("HELLO"))), "Hello", None, 1), "HELLO");
    assert_eq!(translated(None, "Hello", None, 1), "Hello");
    assert_eq!(translated(Some(Ok(number(3))), "Hello", None, 1), "Hello");
    assert_eq!(translated(Some(Err(s("bad json"))), "one", Some("many"), 5), "many");
}

#[test]
fn the_api_of_a_definition_lists_its_members() {
    let api = definition_api(
        &vec![(s("value"), s("Int32"))],
        &vec![s("add")],
        &vec![s("double")],
        &vec![s("Logic")],
    );
    assert_eq!(
        api,
        JsonValue::Object(vec![
            (s("properties"), JsonValue::Object(vec![(s("value"), string("Int32"))])),
            (s("callbacks"), JsonValue::Array(vec![string("add")])),
            (s("functions"), JsonValue::Array(vec![string("double")])),
            (s("globals"), JsonValue::Array(vec![string("Logic")])),
        ])
    );
}

#[test]
fn a_missing_component_returns_null() {
    let names = vec![s("Shared"), s("App")];
    assert_eq!(result_component(&names, Some("App")), Some(1));
    assert_eq!(result_component(&names, Some("Nope")), None);
    assert_eq!(result_component(&names, None), Some(1));
    assert_eq!(result_component(&vec![], None), None);
}
