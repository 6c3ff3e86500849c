use slint_dart::blob::{decode_module, encode_json};
use slint_dart::json::{JsonNumber, JsonValue};
use slint_dart::module::{
    blob_hash, lookup_file, module_assets, pick_component, read_module, ModuleCache,
};

fn s(text: &str) -> String {
    text.to_string()
}

fn object(members: Vec<(&str, JsonValue)>) -> JsonValue {
    JsonValue::Object(members.into_iter().map(|(k, v)| (s(k), v)).collect())
}

fn string(text: &str) -> JsonValue {
    JsonValue::String(s(text))
}

fn module(version: u64, main: Option<&str>, files: Option<JsonValue>, style: Option<&str>) -> JsonValue {
    let mut members = vec![("v", JsonValue::Number(JsonNumber::Unsigned(version)))];
    if let Some(style) = style {
        members.push(("style", string(style)));
    }
    if let Some(main) = main {
        members.push(("main", string(main)));
    }
    if let Some(files) = files {
        members.push(("files", files));
    }
    object(members)
}

#[test]
fn a_blob_gives_back_the_json_it_was_made_from() {
    let json = br#"{"v":1,"main":"/slint-aot/app.slint","files":{}}"#;
    let blob = encode_json(json).unwrap();
    assert!(blob.chars().all(|c| c.is_ascii_alphanumeric() || c == '+' || c == '/' || c == '='));
    assert_eq!(decode_module(&blob).unwrap(), json.to_vec());
    // Surrounding whitespace is ignored.
    assert_eq!(decode_module(&format!("  {blob}\n")).unwrap(), json.to_vec());
}

#[test]
fn a_blob_that_is_not_base64_or_not_gzip_is_refused() {
    assert!(decode_module("not base64!").is_err());
    // Valid base64 of bytes that are no gzip stream.
    assert!(decode_module("AAAA").is_err());
}

#[test]
fn a_module_is_read_with_its_files_keyed_by_forward_slashes() {
    let files = object(vec![
        ("/slint-aot/app.slint", string("export component App {}")),
        (r"\slint-aot\shared.slint", string("export component Shared {}")),
    ]);
    let read = read_module(&module(1, Some("/slint-aot/app.slint"), Some(files), Some("material")))
        .unwrap();
    assert_eq!(read.main, "/slint-aot/app.slint");
    assert_eq!(read.main_source, "export component App {}");
    assert_eq!(read.style.as_deref(), Some("material"));
    assert!(read
        .files
        .iter()
        .any(|(k, v)| k == "/slint-aot/shared.slint" && v == "export component Shared {}"));
    assert_eq!(read.files.len(), 2);
}

#[test]
fn an_empty_style_is_no_style() {
    let files = object(vec![("/slint-aot/app.slint", string(""))]);
    let read = read_module(&module(1, Some("/slint-aot/app.slint"), Some(files), Some(""))).unwrap();
    assert!(read.style.is_none());
}

#[test]
fn a_module_the_runtime_cannot_read_is_refused_with_the_reason() {
    let files = || object(vec![("/slint-aot/app.slint", string("x"))]);
    assert_eq!(
        read_module(&module(2, Some("/slint-aot/app.slint"), Some(files()), None)).unwrap_err(),
        "unsupported compiled Slint module version 2"
    );
    assert_eq!(
        read_module(&object(vec![("main", string("x"))])).unwrap_err(),
        "unsupported compiled Slint module version 0"
    );
    assert_eq!(
        read_module(&module(1, None, Some(files()), None)).unwrap_err(),
        "compiled module is missing main"
    );
    assert_eq!(
        read_module(&module(1, Some("/slint-aot/app.slint"), None, None)).unwrap_err(),
        "compiled module is missing files"
    );
    assert_eq!(
        read_module(&module(
            1,
            Some("/slint-aot/app.slint"),
            Some(object(vec![("/slint-aot/app.slint", JsonValue::Null)])),
            None
        ))
        .unwrap_err(),
        "compiled module file /slint-aot/app.slint is not a string"
    );
    assert_eq!(
        read_module(&module(1, Some("/slint-aot/other.slint"), Some(files()), None)).unwrap_err(),
        "compiled module is missing its main file"
    );
}

#[test]
fn the_loader_finds_files_exactly_or_by_suffix() {
    let files = vec![
        (s("/slint-aot/app.slint"), s("app")),
        (s("/slint-aot/shared.slint"), s("shared")),
    ];
    assert_eq!(lookup_file(&files, "/slint-aot/shared.slint").as_deref(), Some("shared"));
    assert_eq!(lookup_file(&files, "shared.slint").as_deref(), Some("shared"));
    assert_eq!(lookup_file(&files, "/x/slint-aot/app.slint").as_deref(), Some("app"));
    assert!(lookup_file(&files, "missing.slint").is_none());
}

#[test]
fn the_component_is_picked_by_name_or_the_last_one() {
    let names = vec![s("Shared"), s("App")];
    assert_eq!(pick_component(&names, Some("Shared")).unwrap(), 0);
    assert_eq!(pick_component(&names, None).unwrap(), 1);
    assert_eq!(pick_component(&names, Some("")).unwrap(), 1);
    assert_eq!(
        pick_component(&names, Some("Nope")).unwrap_err(),
        "no component named \"Nope\"; the module exports [Shared, App]"
    );
    assert_eq!(
        pick_component(&vec![], None).unwrap_err(),
        "the compiled module exports no instantiable component"
    );
}

#[test]
fn a_blob_hashes_the_same_every_time() {
    assert_eq!(blob_hash("abc"), blob_hash("abc"));
    assert_ne!(blob_hash("abc"), blob_hash("abd"));
}

#[test]
fn a_remembered_module_is_not_compiled_again() {
    let mut cache: ModuleCache<String> = ModuleCache::new();
    let hash = blob_hash("blob");
    assert!(cache.needs_compile(hash));
    cache.remember(hash, s("compiled"));
    assert!(!cache.needs_compile(hash));
    assert_eq!(cache.module(hash).map(String::as_str), Some("compiled"));
    assert!(cache.needs_compile(blob_hash("other")));
    assert!(cache.module(blob_hash("other")).is_none());
}

#[test]
fn the_assets_of_a_module_are_decoded_under_their_paths() {
    let with_assets = object(vec![
        ("v", JsonValue::Number(JsonNumber::Unsigned(1))),
        (
            "assets",
            object(vec![("/slint-aot/ui/icon.png", string("SUNPTg==")), ("/slint-aot/x.ttf", string(""))]),
        ),
    ]);
    assert_eq!(
        module_assets(&with_assets).unwrap(),
        vec![(s("/slint-aot/ui/icon.png"), b"ICON".to_vec()), (s("/slint-aot/x.ttf"), vec![])]
    );
    let without = object(vec![("v", JsonValue::Number(JsonNumber::Unsigned(1)))]);
    assert_eq!(module_assets(&without).unwrap(), vec![]);
}

#[test]
fn assets_that_cannot_be_decoded_are_refused() {
    let not_object = object(vec![("assets", JsonValue::Array(vec![]))]);
    assert_eq!(module_assets(&not_object).unwrap_err(), "compiled module assets are not an object");
    let not_string = object(vec![("assets", object(vec![("/slint-aot/a.png", JsonValue::Null)]))]);
    assert_eq!(module_assets(&not_string).unwrap_err(), "compiled module asset /slint-aot/a.png is not a string");
    let not_base64 = object(vec![("assets", object(vec![("/slint-aot/a.png", string("***"))]))]);
    assert_eq!(module_assets(&not_base64).unwrap_err(), "compiled module asset /slint-aot/a.png is not base64");
}
