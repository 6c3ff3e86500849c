use base64::Engine;
use slint_dart::bundle::{
    bundle_module, bundle_module_inlined, data_uri, inline_absolute_image_urls, resource_locations, rewrite_image_urls,
    rewrite_imports, BundledFile, Resource,
};
use slint_dart::json::JsonValue;
use slint_dart::module::module_assets;

fn s(text: &str) -> String {
    text.to_string()
}

fn b64(bytes: &[u8]) -> String {
    base64::engine::general_purpose::STANDARD.encode(bytes)
}

fn read(path: &str, bytes: &[u8]) -> Resource {
    Resource { path: s(path), contents: Ok(bytes.to_vec()) }
}

fn member<'a>(value: &'a JsonValue, key: &str) -> Option<&'a JsonValue> {
    match value {
        JsonValue::Object(entries) => entries.iter().find(|(k, _)| k == key).map(|(_, v)| v),
        _ => None,
    }
}

fn text_of(value: Option<&JsonValue>) -> &str {
    match value {
        Some(JsonValue::String(t)) => t,
        other => panic!("not a string: {other:?}"),
    }
}

#[test]
fn a_data_uri_is_typed_by_the_file_extension() {
    assert_eq!(data_uri("/a/x.PNG", b"hi"), format!("data:image/png;base64,{}", b64(b"hi")));
    assert_eq!(data_uri("/a/x.jpeg", b""), "data:image/jpeg;base64,");
    assert_eq!(data_uri("/a/x.svg", b"<"), format!("data:image/svg+xml;base64,{}", b64(b"<")));
    assert_eq!(data_uri("/a/x", b"z"), format!("data:application/octet-stream;base64,{}", b64(b"z")));
}

#[test]
fn imports_are_rewritten_to_virtual_paths_once() {
    let source = r#"import { Shared } from "shared.slint"; import { Shared } from "shared.slint";"#;
    let imports = vec![(s("\"shared.slint\""), s("/p/ui/shared.slint"))];
    let mapping = vec![(s("/p/ui/shared.slint"), s("/slint-aot/shared.slint"))];
    assert_eq!(
        rewrite_imports(source, &imports, &mapping),
        r#"import { Shared } from "/slint-aot/shared.slint"; import { Shared } from "shared.slint";"#
    );
    // The resolved path is cleaned before it is looked up.
    let dotted = vec![(s("\"../lib/shared.slint\""), s("/p/ui/../ui/shared.slint"))];
    assert_eq!(
        rewrite_imports("import { Shared } from \"../lib/shared.slint\";", &dotted, &mapping),
        "import { Shared } from \"/slint-aot/shared.slint\";"
    );
    // Imports that are not bundled stay as written.
    let builtin = vec![(s("\"std-widgets.slint\""), s("builtin:/std-widgets.slint"))];
    assert_eq!(rewrite_imports("import \"std-widgets.slint\";", &builtin, &mapping), "import \"std-widgets.slint\";");
}

#[test]
fn absolute_images_are_inlined_and_relative_ones_left_alone() {
    let source = r#"a: @image-url("/abs/i.png"); b: @image-url("rel.png"); c: @image-url("/abs/missing.png");"#;
    let resources = vec![read("/abs/i.png", b"PNG"), read("/p/rel.png", b"REL")];
    let inlined = inline_absolute_image_urls(source, &resources);
    assert_eq!(
        inlined,
        format!(
            r#"a: @image-url("data:image/png;base64,{}"); b: @image-url("rel.png"); c: @image-url("/abs/missing.png");"#,
            b64(b"PNG")
        )
    );
    let rewritten = rewrite_image_urls(source, "/p", &resources);
    assert_eq!(
        rewritten,
        format!(
            r#"a: @image-url("data:image/png;base64,{}"); b: @image-url("data:image/png;base64,{}"); c: @image-url("/abs/missing.png");"#,
            b64(b"PNG"),
            b64(b"REL")
        )
    );
}

fn files() -> Vec<BundledFile> {
    vec![
        BundledFile {
            path: s("/p/ui/app.slint"),
            source: s("import \"fonts/x.ttf\";\nimport { Shared } from \"../lib/shared.slint\";\nexport component App inherits Shared { Image { source: @image-url(\"icon.png\"); } Image { source: @image-url(\"icon.png\"); } }"),
            imports: vec![(s("\"../lib/shared.slint\""), s("/p/lib/shared.slint"))],
        },
        BundledFile {
            path: s("/p/lib/shared.slint"),
            source: s("export component Shared { Image { source: @image-url(\"../ui/icon.png\"); } }"),
            imports: vec![],
        },
    ]
}

#[test]
fn a_generated_wrapper_bundles_repeated_images_once() {
    let resources = vec![read("/p/ui/fonts/x.ttf", b"FONT"), read("/p/ui/icon.png", b"ICON")];
    let module = bundle_module(&files(), Some("/p/ui/app.slint"), Some("material"), &resources).unwrap();
    assert_eq!(member(&module, "v"), Some(&JsonValue::Number(slint_dart::json::JsonNumber::Unsigned(1))));
    assert_eq!(text_of(member(&module, "style")), "material");
    assert_eq!(text_of(member(&module, "main")), "/slint-aot/ui/app.slint");
    let bundled = member(&module, "files").unwrap();
    assert!(text_of(member(bundled, "/slint-aot/ui/app.slint")).contains("from \"/slint-aot/lib/shared.slint\""));
    assert!(!text_of(member(bundled, "/slint-aot/ui/app.slint")).contains("data:image"));
    assert!(member(bundled, "/slint-aot/lib/shared.slint").is_some());
    let assets = member(&module, "assets").unwrap();
    match assets {
        JsonValue::Object(entries) => assert_eq!(entries.len(), 2, "{entries:?}"),
        other => panic!("not an object: {other:?}"),
    }
    assert_eq!(text_of(member(assets, "/slint-aot/ui/icon.png")), b64(b"ICON"));
    assert_eq!(text_of(member(assets, "/slint-aot/ui/fonts/x.ttf")), b64(b"FONT"));
    // Loading the module materialises each asset, once, under its virtual path.
    let decoded = module_assets(&module).unwrap();
    assert_eq!(decoded.len(), 2);
    assert!(decoded.contains(&(s("/slint-aot/ui/icon.png"), b"ICON".to_vec())));
    assert!(decoded.contains(&(s("/slint-aot/ui/fonts/x.ttf"), b"FONT".to_vec())));
}

#[test]
fn a_module_without_assets_has_no_assets_member() {
    let only = vec![BundledFile { path: s("/p/app.slint"), source: s("export component App {}"), imports: vec![] }];
    let module = bundle_module(&only, Some("/p/app.slint"), None, &vec![]).unwrap();
    assert_eq!(member(&module, "style"), Some(&JsonValue::Null));
    assert!(member(&module, "assets").is_none());
    assert_eq!(text_of(member(&module, "main")), "/slint-aot/app.slint");
}

#[test]
fn a_module_that_cannot_be_bundled_says_why() {
    assert_eq!(
        bundle_module(&vec![], Some("/p/app.slint"), None, &vec![]).unwrap_err(),
        "The Slint compiler produced no files to embed"
    );
    assert_eq!(
        bundle_module(&files(), None, None, &vec![]).unwrap_err(),
        "Cannot determine the path of the main Slint file"
    );
    assert_eq!(
        bundle_module(&files(), Some("/p/other.slint"), None, &vec![]).unwrap_err(),
        "The main Slint file was not bundled"
    );
    assert_eq!(
        bundle_module(&files(), Some("/p/ui/app.slint"), None, &vec![]).unwrap_err(),
        "Cannot read font /p/ui/fonts/x.ttf: it was not read"
    );
    let broken = vec![Resource { path: s("/p/ui/fonts/x.ttf"), contents: Err(s("No such file or directory (os error 2)")) }];
    assert_eq!(
        bundle_module(&files(), Some("/p/ui/app.slint"), None, &broken).unwrap_err(),
        "Cannot read font /p/ui/fonts/x.ttf: No such file or directory (os error 2)"
    );
}

#[test]
fn the_files_to_read_are_the_fonts_then_the_images_of_each_file() {
    let mut all = files();
    all[1].source.push_str(" Image { source: @image-url(\"/abs/logo.svg\"); }");
    assert_eq!(
        resource_locations(&all),
        vec![
            s("/p/ui/fonts/x.ttf"),
            s("/p/ui/icon.png"),
            s("/p/ui/icon.png"),
            s("/p/ui/icon.png"),
            s("/abs/logo.svg"),
        ]
    );
}

#[test]
fn a_module_with_inlined_images_carries_no_assets() {
    let resources = vec![read("/p/ui/icon.png", b"ICON")];
    let module = bundle_module_inlined(&files(), Some("/p/ui/app.slint"), None, &resources).unwrap();
    assert!(member(&module, "assets").is_none());
    let bundled = member(&module, "files").unwrap();
    let app = text_of(member(bundled, "/slint-aot/ui/app.slint"));
    assert_eq!(app.matches(&format!("data:image/png;base64,{}", b64(b"ICON"))).count(), 2);
    assert!(app.contains("from \"/slint-aot/lib/shared.slint\""));
    // The shared file's reference resolves to a path that was not read.
    assert!(text_of(member(bundled, "/slint-aot/lib/shared.slint")).contains("@image-url(\"../ui/icon.png\")"));
    assert_eq!(
        bundle_module_inlined(&vec![], None, None, &vec![]).unwrap_err(),
        "The Slint compiler produced no files to embed"
    );
}

#[test]
fn a_bundled_module_reads_back_with_every_file() {
    let resources = vec![read("/p/ui/fonts/x.ttf", b"FONT"), read("/p/ui/icon.png", b"ICON")];
    let module = bundle_module(&files(), Some("/p/ui/app.slint"), Some("fluent"), &resources).unwrap();
    let read_back = slint_dart::module::read_module(&module).unwrap();
    assert_eq!(read_back.main, "/slint-aot/ui/app.slint");
    assert_eq!(read_back.main_source, text_of(member(member(&module, "files").unwrap(), "/slint-aot/ui/app.slint")));
    assert_eq!(read_back.files.len(), 2);
    assert_eq!(read_back.style.as_deref(), Some("fluent"));
    assert!(read_back.files.iter().any(|(k, _)| k == "/slint-aot/lib/shared.slint"));
}
