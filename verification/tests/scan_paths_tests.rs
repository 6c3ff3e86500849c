use slint_dart::paths::{
    common_directory, is_builtin, normalize_key, virtual_path, virtual_resource_path,
};
use slint_dart::scan::{extract_font_imports, find_image_urls, is_font_import};

fn s(text: &str) -> String {
    text.to_string()
}

#[test]
fn image_urls_are_found_with_their_byte_ranges() {
    let source = r#"Image { source: @image-url("icons/a.png"); }
Image { source: @image-url ( 'b.svg' ); }"#;
    let urls = find_image_urls(source);
    assert_eq!(urls.len(), 2);
    assert_eq!(urls[0].path, "icons/a.png");
    assert_eq!(&source[urls[0].start..urls[0].end], "icons/a.png");
    assert_eq!(urls[1].path, "b.svg");
    assert_eq!(&source[urls[1].start..urls[1].end], "b.svg");
}

#[test]
fn image_urls_count_bytes_past_multibyte_characters() {
    let source = "// größe é\n@image-url(\"ü.png\")";
    let urls = find_image_urls(source);
    assert_eq!(urls.len(), 1);
    assert_eq!(urls[0].path, "ü.png");
    assert_eq!(&source[urls[0].start..urls[0].end], "ü.png");
}

#[test]
fn data_and_builtin_image_urls_need_no_embedding() {
    let source = r#"@image-url("data:image/png;base64,AAAA") @image-url("builtin:/x.svg") @image-url("c.png")"#;
    let urls = find_image_urls(source);
    assert_eq!(urls.len(), 1);
    assert_eq!(urls[0].path, "c.png");
}

#[test]
fn malformed_image_urls_are_skipped_or_end_the_scan() {
    // No parenthesis, then an unquoted argument: both skipped.
    let urls = find_image_urls(r#"@image-url; @image-url(x) @image-url("d.png")"#);
    assert_eq!(urls.len(), 1);
    assert_eq!(urls[0].path, "d.png");
    // An unterminated string ends the scan.
    assert!(find_image_urls(r#"@image-url("e.png"#).is_empty());
    assert!(find_image_urls("@image-url(").is_empty());
}

#[test]
fn font_imports_are_read_line_by_line() {
    let source = "import \"fonts/Inter.ttf\";\n  import 'a/B.OTF' ;\nimport { X } from \"x.slint\";\nimport c.ttc;\nimport \"no-semicolon.ttf\"\nexport component A {}";
    assert_eq!(
        extract_font_imports(source),
        vec![s("fonts/Inter.ttf"), s("a/B.OTF"), s("c.ttc")]
    );
}

#[test]
fn font_files_are_recognized_by_extension() {
    assert!(is_font_import("a.ttf"));
    assert!(is_font_import("A.TTC"));
    assert!(is_font_import("x/y.OtF"));
    assert!(!is_font_import("x.slint"));
    assert!(!is_font_import("ttf"));
}

#[test]
fn builtin_paths_are_recognized_by_prefix() {
    assert!(is_builtin("builtin:/std-widgets.slint"));
    assert!(!is_builtin("/a/builtin:/x"));
    assert!(!is_builtin("builtin"));
}

#[test]
fn keys_use_forward_slashes() {
    assert_eq!(normalize_key(r"a\b\c.slint"), "a/b/c.slint");
    assert_eq!(normalize_key("/a/b"), "/a/b");
}

#[test]
fn the_common_directory_of_files_is_their_shared_parent() {
    assert_eq!(
        common_directory(&vec![s("/p/ui/app.slint"), s("/p/ui/w/b.slint"), s("/p/lib/c.slint")]),
        "/p"
    );
    assert_eq!(common_directory(&vec![s("/p/ui/app.slint")]), "/p/ui");
    assert_eq!(common_directory(&vec![]), ".");
    assert_eq!(common_directory(&vec![s("a.slint"), s("/abs/b.slint")]), ".");
}

#[test]
fn virtual_paths_live_under_the_virtual_root() {
    assert_eq!(virtual_path("/p/ui/app.slint", "/p"), "/slint-aot/ui/app.slint");
    assert_eq!(virtual_path("/p/app.slint", "/p"), "/slint-aot/app.slint");
    assert_eq!(
        virtual_resource_path("/slint-aot/ui/app.slint", "../img/a.png"),
        "/slint-aot/img/a.png"
    );
    assert_eq!(
        virtual_resource_path("/slint-aot/ui/app.slint", "fonts/x.ttf"),
        "/slint-aot/ui/fonts/x.ttf"
    );
}
