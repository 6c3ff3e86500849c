use base64::Engine;
use slint_dart::convert::{
    callback_result, dart_value_from_json, dart_value_from_json_str, dart_value_to_json,
    values_to_json, TypeShape, ValueForJson, ValueFromJson,
};
use slint_dart::json::{JsonNumber, JsonValue};
use slint_dart::values::{image_request, image_to_json, json_bytes, struct_field, ImageRequest};

fn s(text: &str) -> String {
    text.to_string()
}

fn string(text: &str) -> JsonValue {
    JsonValue::String(s(text))
}

fn number(n: u64) -> JsonValue {
    JsonValue::Number(JsonNumber::Unsigned(n))
}

fn object(members: Vec<(&str, JsonValue)>) -> JsonValue {
    JsonValue::Object(members.into_iter().map(|(k, v)| (s(k), v)).collect())
}

fn b64(bytes: &[u8]) -> String {
    base64::engine::general_purpose::STANDARD.encode(bytes)
}

const RGBA: [u8; 16] = [255, 0, 0, 255, 0, 255, 0, 255, 0, 0, 255, 255, 255, 255, 0, 255];

#[test]
fn images_round_trip_from_pixels_and_from_a_path() {
    let json = object(vec![("width", number(2)), ("height", number(2)), ("rgba", string(&b64(&RGBA)))]);
    assert_eq!(image_request(&json).unwrap(), ImageRequest::Rgba(2, 2, RGBA.to_vec()));

    let back = image_to_json(None, 2, 2, Some((2, 2, &RGBA))).unwrap();
    assert_eq!(back, json);
    assert_eq!(image_request(&back).unwrap(), ImageRequest::Rgba(2, 2, RGBA.to_vec()));

    let from_file = image_to_json(Some("/a/icon.png"), 16, 8, None).unwrap();
    assert_eq!(
        from_file,
        object(vec![("path", string("/a/icon.png")), ("width", number(16)), ("height", number(8))])
    );
    assert_eq!(image_request(&from_file).unwrap(), ImageRequest::Path(s("/a/icon.png")));

    assert_eq!(image_to_json(None, 0, 0, None).unwrap(), JsonValue::Null);
    assert_eq!(image_request(&JsonValue::Null).unwrap(), ImageRequest::Empty);
    assert_eq!(image_to_json(None, 3, 3, None).unwrap_err(), "Cannot serialize this image");
}

#[test]
fn image_json_names_what_to_load() {
    assert_eq!(
        image_request(&string("/definitely/not/here.png")).unwrap(),
        ImageRequest::Path(s("/definitely/not/here.png"))
    );
    let svg = r##"<svg xmlns="http://www.w3.org/2000/svg" width="2" height="2"/>"##;
    assert_eq!(
        image_request(&object(vec![("svg", string(svg))])).unwrap(),
        ImageRequest::Svg(svg.as_bytes().to_vec())
    );
    assert_eq!(
        image_request(&object(vec![("svg", string(&b64(b"<svg/>")))])).unwrap(),
        ImageRequest::Svg(b"<svg/>".to_vec())
    );
    assert_eq!(
        image_request(&object(vec![("data", string(&b64(b"PNG"))), ("format", string("png"))])).unwrap(),
        ImageRequest::Data(b"PNG".to_vec(), s("png"))
    );
    assert_eq!(
        image_request(&object(vec![("data", string(&b64(b"X")))])).unwrap(),
        ImageRequest::Data(b"X".to_vec(), s(""))
    );
}

#[test]
fn image_json_that_cannot_be_loaded_is_refused() {
    assert_eq!(
        image_request(&number(1)).unwrap_err(),
        "an image must be a path string, null, or an object"
    );
    assert_eq!(
        image_request(&object(vec![])).unwrap_err(),
        "an image object needs a path, svg, data, or width/height/rgba"
    );
    assert_eq!(
        image_request(&object(vec![("width", number(2))])).unwrap_err(),
        "an image object needs width and height for rgba data"
    );
    assert_eq!(
        image_request(&object(vec![("width", number(2)), ("height", number(2))])).unwrap_err(),
        "an image object needs a path, svg, data, or width/height/rgba"
    );
    assert_eq!(
        image_request(&object(vec![("width", number(2)), ("height", number(2)), ("rgba", string(&b64(&RGBA[..4])))]))
            .unwrap_err(),
        "rgba image data has 4 bytes, expected 16 for 2x2"
    );
    assert!(image_request(&object(vec![("data", string("%%%"))]))
        .unwrap_err()
        .starts_with("data is not base64: "));
    assert_eq!(
        image_request(&object(vec![("data", number(1))])).unwrap_err(),
        "data must be a base64 string"
    );
}

#[test]
fn json_bytes_take_svg_text_as_is_and_decode_the_rest() {
    assert_eq!(json_bytes(&string("<svg/>"), "svg").unwrap(), b"<svg/>".to_vec());
    assert_eq!(json_bytes(&string(&b64(b"abc")), "rgba").unwrap(), b"abc".to_vec());
    assert!(json_bytes(&string("<svg/>"), "rgba").unwrap_err().starts_with("rgba is not base64: "));
    assert_eq!(json_bytes(&JsonValue::Null, "svg").unwrap_err(), "svg must be a base64 string");
}

#[test]
fn struct_members_find_their_field_with_either_spelling() {
    let fields = vec![s("title"), s("is-checked")];
    assert_eq!(struct_field(&fields, "title").unwrap(), 0);
    assert_eq!(struct_field(&fields, "is_checked").unwrap(), 1);
    assert_eq!(struct_field(&fields, "is-checked").unwrap(), 1);
    assert_eq!(struct_field(&fields, "nope").unwrap_err(), "Found unknown field in struct: nope");
}

fn item_type() -> TypeShape<&'static str> {
    TypeShape::Struct(vec![(s("title"), TypeShape::Other("string")), (s("checked"), TypeShape::Other("bool"))])
}

#[test]
fn models_round_trip_as_json_arrays() {
    let ty = TypeShape::Array(Box::new(item_type()));
    let json = JsonValue::Array(vec![
        object(vec![("title", string("b")), ("checked", JsonValue::Bool(false))]),
        object(vec![("title", string("c")), ("checked", JsonValue::Bool(true))]),
    ]);
    match dart_value_from_json(&ty, &json).unwrap() {
        ValueFromJson::Model(items) => {
            assert_eq!(items.len(), 2);
            match &items[1] {
                ValueFromJson::Struct(members) => {
                    assert_eq!(members[0].0, "title");
                    assert!(matches!(members[0].1, ValueFromJson::Other(&"string", JsonValue::String(t)) if t == "c"));
                    assert!(matches!(members[1].1, ValueFromJson::Other(&"bool", JsonValue::Bool(true))));
                }
                other => panic!("unexpected {other:?}"),
            }
        }
        other => panic!("unexpected {other:?}"),
    }

    let out = dart_value_to_json(ValueForJson::Model(vec![ValueForJson::Struct(vec![
        (s("title"), ValueForJson::Other(Ok(string("b")))),
        (s("checked"), ValueForJson::Other(Ok(JsonValue::Bool(false)))),
    ])]))
    .unwrap();
    assert_eq!(
        out,
        JsonValue::Array(vec![object(vec![("title", string("b")), ("checked", JsonValue::Bool(false))])])
    );
}

#[test]
fn values_that_do_not_fit_their_type_are_refused() {
    let ty = TypeShape::Array(Box::new(item_type()));
    assert_eq!(
        dart_value_from_json(&ty, &number(1)).unwrap_err(),
        "Got an array where none was expected"
    );
    assert_eq!(
        dart_value_from_json(&item_type(), &JsonValue::Array(vec![])).unwrap_err(),
        "Got a struct where none was expected"
    );
    let unknown = JsonValue::Array(vec![object(vec![("title", string("a"))]), object(vec![("size", number(1))])]);
    assert_eq!(
        dart_value_from_json(&ty, &unknown).unwrap_err(),
        "Found unknown field in struct: size"
    );
    let images: TypeShape<&str> = TypeShape::Array(Box::new(TypeShape::Image));
    assert_eq!(
        dart_value_from_json(&images, &JsonValue::Array(vec![JsonValue::Null, number(3), JsonValue::Bool(true)]))
            .unwrap_err(),
        "an image must be a path string, null, or an object"
    );
    assert_eq!(
        dart_value_from_json_str(&images, &Err(s("trailing characters"))).unwrap_err(),
        "Failed to parse JSON: trailing characters"
    );
}

#[test]
fn struct_members_spelled_with_underscores_keep_their_json_name() {
    let ty: TypeShape<&str> = TypeShape::Struct(vec![(s("is-done"), TypeShape::Other("bool"))]);
    match dart_value_from_json(&ty, &object(vec![("is_done", JsonValue::Bool(true))])).unwrap() {
        ValueFromJson::Struct(members) => {
            assert_eq!(members.len(), 1);
            assert_eq!(members[0].0, "is_done");
        }
        other => panic!("unexpected {other:?}"),
    }
}

#[test]
fn the_first_value_that_cannot_be_turned_into_json_fails_the_whole() {
    let out = values_to_json(vec![
        ValueForJson::Other(Ok(number(1))),
        ValueForJson::Other(Err(s("first"))),
        ValueForJson::Image { path: None, width: 2, height: 2, pixels: None },
    ]);
    assert_eq!(out.unwrap_err(), "first");
    let image = values_to_json(vec![ValueForJson::Image { path: None, width: 1, height: 1, pixels: Some((1, 1, vec![1, 2, 3, 4])) }])
        .unwrap();
    assert_eq!(
        image,
        JsonValue::Array(vec![object(vec![("width", number(1)), ("height", number(1)), ("rgba", string(&b64(&[1, 2, 3, 4])))])])
    );
}

#[test]
fn a_callback_answer_becomes_a_value_or_nothing() {
    let ty: TypeShape<&str> = TypeShape::Other("int");
    assert!(callback_result(&ty, &None).is_none());
    let answer = Some(Ok(number(17)));
    assert!(matches!(
        callback_result(&ty, &answer),
        Some(ValueFromJson::Other(&"int", &JsonValue::Number(JsonNumber::Unsigned(17))))
    ));
    assert!(callback_result(&ty, &Some(Err(s("not json")))).is_none());
    let image: TypeShape<&str> = TypeShape::Image;
    assert!(callback_result(&image, &Some(Ok(number(1)))).is_none());
}

#[test]
fn values_round_trip_through_json() {
    let value = ValueForJson::Model(vec![
        ValueForJson::Image { path: Some(s("/a/icon.png")), width: 4, height: 4, pixels: None },
        ValueForJson::Image { path: None, width: 0, height: 0, pixels: None },
        ValueForJson::Image { path: None, width: 2, height: 2, pixels: Some((2, 2, RGBA.to_vec())) },
    ]);
    let json = dart_value_to_json(value).unwrap();
    let ty: TypeShape<&str> = TypeShape::Array(Box::new(TypeShape::Image));
    match dart_value_from_json(&ty, &json).unwrap() {
        ValueFromJson::Model(items) => {
            assert_eq!(items.len(), 3);
            assert!(matches!(&items[0], ValueFromJson::Image(ImageRequest::Path(p)) if p == "/a/icon.png"));
            assert!(matches!(&items[1], ValueFromJson::Image(ImageRequest::Empty)));
            assert!(matches!(&items[2], ValueFromJson::Image(ImageRequest::Rgba(2, 2, b)) if b == &RGBA.to_vec()));
        }
        other => panic!("unexpected {other:?}"),
    }

    let record = ValueForJson::Struct(vec![
        (s("title"), ValueForJson::Other(Ok(string("milk")))),
        (s("icon"), ValueForJson::Image { path: Some(s("/i.png")), width: 1, height: 1, pixels: None }),
    ]);
    let json = dart_value_to_json(record).unwrap();
    let ty: TypeShape<&str> =
        TypeShape::Struct(vec![(s("title"), TypeShape::Other("string")), (s("icon"), TypeShape::Image)]);
    match dart_value_from_json(&ty, &json).unwrap() {
        ValueFromJson::Struct(members) => {
            assert_eq!(members[0].0, "title");
            assert!(matches!(members[0].1, ValueFromJson::Other(&"string", JsonValue::String(t)) if t == "milk"));
            assert_eq!(members[1].0, "icon");
            assert!(matches!(&members[1].1, ValueFromJson::Image(ImageRequest::Path(p)) if p == "/i.png"));
        }
        other => panic!("unexpected {other:?}"),
    }
}
