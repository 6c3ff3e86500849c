use slint_dart::json::JsonValue;
use slint_dart::options::{
    dependencies_of, diagnostic_json, failed, finished_generation, generation_error, generation_json,
    next_step, parse_options, sorted_set, watch_candidates, Diagnostic, Generation, NextStep,
    StageReport,
};

fn s(text: &str) -> String {
    text.to_string()
}

fn object(members: Vec<(&str, JsonValue)>) -> JsonValue {
    JsonValue::Object(members.into_iter().map(|(k, v)| (s(k), v)).collect())
}

fn member<'a>(value: &'a JsonValue, key: &str) -> &'a JsonValue {
    match value {
        JsonValue::Object(entries) => &entries.iter().find(|(k, _)| k == key).unwrap().1,
        _ => panic!("not an object"),
    }
}

#[test]
fn invalid_options_are_rejected() {
    let parsed = Ok(object(vec![("include_paths", JsonValue::String(s("not-a-list")))]));
    let error = parse_options(r#"{"include_paths":"not-a-list"}"#, &parsed).unwrap_err();
    assert!(error.contains("include_paths"), "{error}");
    assert!(error.contains("list of strings"), "{error}");
    let parsed = Ok(object(vec![(
        "nope",
        JsonValue::Number(slint_dart::json::JsonNumber::Unsigned(1)),
    )]));
    assert!(parse_options(r#"{"nope":1}"#, &parsed).unwrap_err().contains("nope"));
    assert!(parse_options("", &Err(s("EOF while parsing a value"))).is_ok());
}

#[test]
fn options_read_style_and_include_paths() {
    let parsed = Ok(object(vec![
        ("include_paths", JsonValue::Array(vec![JsonValue::String(s("includes"))])),
        ("style", JsonValue::String(s("material"))),
    ]));
    let options =
        parse_options(r#"{"include_paths":["includes"],"style":"material"}"#, &parsed).unwrap();
    assert_eq!(options.include_paths, vec![s("includes")]);
    assert_eq!(options.style, Some(s("material")));
}

#[test]
fn option_errors_name_what_is_wrong() {
    assert_eq!(
        parse_options("{", &Err(s("EOF while parsing an object at line 1 column 1"))).unwrap_err(),
        "Invalid Dart generation options: EOF while parsing an object at line 1 column 1"
    );
    assert_eq!(
        parse_options("[]", &Ok(JsonValue::Array(vec![]))).unwrap_err(),
        "Dart generation options must be a JSON object"
    );
    assert_eq!(
        parse_options(r#"{"nope":1}"#, &Ok(object(vec![("nope", JsonValue::Null)]))).unwrap_err(),
        "Unknown Dart generation option \"nope\""
    );
    assert_eq!(
        parse_options(r#"{"style":1}"#, &Ok(object(vec![("style", JsonValue::Bool(true))])))
            .unwrap_err(),
        "Dart generation option \"style\" must be a string"
    );
    assert_eq!(
        parse_options(
            r#"{"include_paths":[1]}"#,
            &Ok(object(vec![("include_paths", JsonValue::Array(vec![JsonValue::Null]))]))
        )
        .unwrap_err(),
        "Dart generation option \"include_paths\" must be a list of strings"
    );
}

#[test]
fn a_failed_generation_joins_diagnostics_and_the_extra_message() {
    let generation = failed(
        Some(s("bundling failed")),
        &vec![s("app.slint:1: error one"), s("app.slint:2: error two")],
        vec![],
        vec![s("/tmp/app.slint")],
    );
    assert!(generation.dart.is_none());
    assert_eq!(
        generation.error.as_deref(),
        Some("app.slint:1: error one\napp.slint:2: error two\nbundling failed")
    );
    assert_eq!(generation.dependencies, vec![s("/tmp/app.slint")]);

    let only_extra = failed(Some(s("no document")), &vec![], vec![], vec![]);
    assert_eq!(only_extra.error.as_deref(), Some("no document"));
    let nothing = failed(None, &vec![], vec![], vec![]);
    assert!(nothing.error.is_none());
}

#[test]
fn the_stages_of_a_generation_decide_what_follows() {
    assert!(matches!(
        next_step(StageReport::Parsed { has_errors: true, has_document: true }),
        NextStep::Fail { extra: None, watch_imports: false }
    ));
    match next_step(StageReport::Parsed { has_errors: false, has_document: false }) {
        NextStep::Fail { extra: Some(m), watch_imports: false } => {
            assert_eq!(m, "The Slint parser produced no document")
        }
        other => panic!("unexpected {other:?}"),
    }
    assert!(matches!(
        next_step(StageReport::Parsed { has_errors: false, has_document: true }),
        NextStep::Compile
    ));
    assert!(matches!(
        next_step(StageReport::Compiled { has_errors: true }),
        NextStep::Fail { extra: None, watch_imports: true }
    ));
    assert!(matches!(next_step(StageReport::Compiled { has_errors: false }), NextStep::Bundle));
    match next_step(StageReport::Bundled(Ok(s("blob")))) {
        NextStep::Emit(module) => assert_eq!(module, "blob"),
        other => panic!("unexpected {other:?}"),
    }
    match next_step(StageReport::Bundled(Err(s("Cannot read font x")))) {
        NextStep::Fail { extra: Some(m), watch_imports: true } => assert_eq!(m, "Cannot read font x"),
        other => panic!("unexpected {other:?}"),
    }
    match next_step(StageReport::Emitted(Ok(s("class App {}")))) {
        NextStep::Done(dart) => assert_eq!(dart, "class App {}"),
        other => panic!("unexpected {other:?}"),
    }
    match next_step(StageReport::Emitted(Err(s("collision")))) {
        NextStep::Fail { extra: Some(m), watch_imports: true } => assert_eq!(m, "collision"),
        other => panic!("unexpected {other:?}"),
    }
}

#[test]
fn the_generation_envelope_lists_every_field() {
    let generation = Generation {
        dart: Some(s("// dart")),
        error: None,
        dependencies: vec![s("/a/app.slint")],
        diagnostics: vec![],
    };
    let json = generation_json(generation);
    assert_eq!(member(&json, "source"), &JsonValue::String(s("// dart")));
    assert_eq!(member(&json, "error"), &JsonValue::Null);
    assert_eq!(
        member(&json, "dependencies"),
        &JsonValue::Array(vec![JsonValue::String(s("/a/app.slint"))])
    );
    assert_eq!(member(&json, "diagnostics"), &JsonValue::Array(vec![]));

    let error = generation_json(generation_error(s("No such file")));
    assert_eq!(member(&error, "source"), &JsonValue::Null);
    assert_eq!(member(&error, "error"), &JsonValue::String(s("No such file")));
}

#[test]
fn a_diagnostic_becomes_an_object() {
    let d = Diagnostic {
        is_error: true,
        message: s("unknown property"),
        file: Some(s("/a/app.slint")),
        line: 3,
        column: 7,
    };
    let json = diagnostic_json(&d);
    assert_eq!(member(&json, "level"), &JsonValue::String(s("error")));
    assert_eq!(member(&json, "message"), &JsonValue::String(s("unknown property")));
    assert_eq!(member(&json, "file"), &JsonValue::String(s("/a/app.slint")));
    assert_eq!(
        member(&json, "line"),
        &JsonValue::Number(slint_dart::json::JsonNumber::Unsigned(3))
    );
    let warning = diagnostic_json(&Diagnostic {
        is_error: false,
        message: s("deprecated"),
        file: None,
        line: 0,
        column: 0,
    });
    assert_eq!(member(&warning, "level"), &JsonValue::String(s("warning")));
    assert_eq!(member(&warning, "file"), &JsonValue::Null);
}

#[test]
fn watched_files_leave_out_builtins_and_end_with_the_input() {
    let deps = vec![s("/a/shared.slint"), s("builtin:/std-widgets.slint"), s("/a/b.slint")];
    assert_eq!(
        watch_candidates("/a/app.slint", &deps),
        vec![s("/a/shared.slint"), s("/a/b.slint"), s("/a/app.slint")]
    );
}

#[test]
fn watched_files_are_sorted_without_repeats() {
    let deps = vec![s("/z/b.slint"), s("/a/c.slint"), s("/z/b.slint"), s("builtin:/x.slint")];
    assert_eq!(
        dependencies_of("/m/app.slint", &deps),
        vec![s("/a/c.slint"), s("/m/app.slint"), s("/z/b.slint")]
    );
    assert_eq!(
        sorted_set(&vec![s("b"), s("a"), s("b"), s("ab")]),
        vec![s("a"), s("ab"), s("b")]
    );
}

#[test]
fn watched_files_drop_builtins_and_keep_the_input_once() {
    let deps = vec![s("builtin:/std-widgets.slint"), s("/p/shared.slint"), s("/p/app.slint")];
    assert_eq!(dependencies_of("/p/app.slint", &deps), vec![s("/p/app.slint"), s("/p/shared.slint")]);
    assert_eq!(dependencies_of("/p/app.slint", &vec![]), vec![s("/p/app.slint")]);
}

#[test]
fn a_finished_generation_watches_what_its_stop_asks_for() {
    let imports = vec![s("/p/shared.slint"), s("builtin:/std-widgets.slint")];
    let done = finished_generation(NextStep::Done(s("// dart")), &vec![], vec![], "/p/app.slint", &imports)
        .unwrap();
    assert_eq!(done.dart.as_deref(), Some("// dart"));
    assert!(done.error.is_none());
    assert_eq!(done.dependencies, vec![s("/p/app.slint"), s("/p/shared.slint")]);

    // A compile error still watches the imported files, so watch mode can run again.
    let failed_compile = finished_generation(
        NextStep::Fail { extra: None, watch_imports: true },
        &vec![s("/p/shared.slint:1: error: Syntax error")],
        vec![JsonValue::Null],
        "/p/app.slint",
        &imports,
    )
    .unwrap();
    assert!(failed_compile.dart.is_none());
    assert_eq!(failed_compile.error.as_deref(), Some("/p/shared.slint:1: error: Syntax error"));
    assert_eq!(failed_compile.dependencies, vec![s("/p/app.slint"), s("/p/shared.slint")]);
    assert_eq!(failed_compile.diagnostics, vec![JsonValue::Null]);

    // Before compiling has run only the input is watched.
    let early = finished_generation(
        NextStep::Fail { extra: Some(s("no input")), watch_imports: false },
        &vec![],
        vec![],
        "/p/app.slint",
        &imports,
    )
    .unwrap();
    assert_eq!(early.error.as_deref(), Some("no input"));
    assert_eq!(early.dependencies, vec![s("/p/app.slint")]);

    assert!(finished_generation(NextStep::Compile, &vec![], vec![], "/p/app.slint", &imports).is_none());
    assert!(finished_generation(NextStep::Bundle, &vec![], vec![], "/p/app.slint", &imports).is_none());
}
