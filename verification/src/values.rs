//! The JSON forms of values the interpreter's own JSON helpers do not
//! round-trip: images (by path, from SVG or encoded data, or from raw RGBA
//! pixels) and struct members spelled with `_` where Slint uses `-`.

use vstd::prelude::*;

use crate::blob::{base64_decode, base64_encode, base64_standard};
use crate::json::{JsonNumber, JsonValue};
use crate::module::{as_str, as_u64, get};
use crate::text::{chars_of, decimal, push_all, str_eq, string_of, text};

verus! {

/// The bytes a JSON field of an image object carries: an SVG text as it
/// is (when the field is `svg` and the text starts with `<`), otherwise the
/// base64 text decoded.
pub open spec fn json_bytes_of(value: JsonValue, field: Seq<char>) -> Result<Seq<u8>, Seq<char>> {
    match value {
        JsonValue::String(text) => if field == "svg"@ && text@.len() > 0 && text@[0] == '<' {
            Ok(vstd::utf8::encode_utf8(text@))
        } else if exists|b: Seq<u8>| base64_standard(b) == text@ {
            Ok(choose|b: Seq<u8>| base64_standard(b) == text@)
        } else {
            Err(field + " is not base64: "@)
        },
        _ => Err(field + " must be a base64 string"@),
    }
}

/// Take the bytes out of a field of an image object (see
/// [`json_bytes_of`]). A base64 error carries the decoder's message after
/// the prefix that the contract states.
pub fn json_bytes(value: &JsonValue, field: &str) -> (r: Result<Vec<u8>, String>)
    ensures
        match json_bytes_of(*value, field@) {
            Ok(b) => r matches Ok(v) && v@ == b,
            Err(e) => r matches Err(m) && (if e == field@ + " is not base64: "@ {
                e.is_prefix_of(m@)
            } else {
                m@ == e
            }),
        },
{
    match value {
        JsonValue::String(text) => {
            let chars = chars_of(text.as_str());
            if str_eq(field, "svg") && chars.len() > 0 && chars[0] == '<' {
                let bytes = text.as_str().as_bytes();
                let mut out: Vec<u8> = Vec::new();
                let mut i: usize = 0;
                while i < bytes.len()
                    invariant
                        i <= bytes.len(),
                        out@ == bytes@.take(i as int),
                    decreases bytes.len() - i,
                {
                    out.push(bytes[i]);
                    i = i + 1;
                    assert(out@ =~= bytes@.take(i as int));
                }
                assert(bytes@.take(bytes.len() as int) =~= bytes@);
                return Ok(out);
            }
            match base64_decode(text.as_str()) {
                Ok(b) => {
                    proof {
                        let w = choose|x: Seq<u8>| base64_standard(x) == text@;
                        crate::blob::lemma_base64_injective(b@, w);
                    }
                    Ok(b)
                },
                Err(e) => {
                    let mut out = chars_of(field);
                    push_all(&mut out, chars_of(" is not base64: ").as_slice());
                    let ghost prefix = out@;
                    push_all(&mut out, chars_of(e.as_str()).as_slice());
                    assert(prefix.is_prefix_of(out@)) by {
                        assert(out@.subrange(0, prefix.len() as int) =~= prefix);
                    }
                    Err(string_of(out.as_slice()))
                },
            }
        },
        _ => {
            let mut out = chars_of(field);
            push_all(&mut out, chars_of(" must be a base64 string").as_slice());
            Err(string_of(out.as_slice()))
        },
    }
}

} // verus!

verus! {

/// What an image's JSON asks the runtime to load.
#[derive(Debug, PartialEq)]
pub enum ImageRequest {
    /// The empty image (`null`).
    Empty,
    /// The image file at a path.
    Path(String),
    /// An SVG document.
    Svg(Vec<u8>),
    /// Encoded image data, with its format (possibly empty).
    Data(Vec<u8>, String),
    /// Raw RGBA pixels: width, height, and four bytes per pixel.
    Rgba(u32, u32, Vec<u8>),
}

/// `m` is the error `json_bytes` gives for the error `e` of [`json_bytes_of`].
pub open spec fn bytes_error(e: Seq<char>, field: Seq<char>, m: Seq<char>) -> bool {
    if e == field + " is not base64: "@ {
        e.is_prefix_of(m)
    } else {
        m == e
    }
}

pub open spec fn needs_source_error() -> Seq<char> {
    "an image object needs a path, svg, data, or width/height/rgba"@
}

pub open spec fn needs_size_error() -> Seq<char> {
    "an image object needs width and height for rgba data"@
}

pub open spec fn not_an_image_error() -> Seq<char> {
    "an image must be a path string, null, or an object"@
}

/// The format an image object declares; empty when it declares none.
pub open spec fn format_of(value: JsonValue) -> Seq<char> {
    match as_str(get(value, "format"@)) {
        Some(f) => f,
        None => ""@,
    }
}

/// The number of bytes `width` × `height` RGBA pixels take.
pub open spec fn rgba_len(width: u32, height: u32) -> int {
    width as int * height as int * 4
}

/// The message for RGBA data of the wrong size.
pub open spec fn rgba_size_error(len: nat, width: u32, height: u32) -> Seq<char> {
    "rgba image data has "@ + decimal(len) + " bytes, expected "@ + decimal(rgba_len(width, height) as nat)
        + " for "@ + decimal(width as nat) + "x"@ + decimal(height as nat)
}

/// What [`image_request`] makes of `value`: `null` is the empty image; a
/// string is a path; an object is, in this order of preference, a `path`,
/// an `svg` document, encoded `data` (with its `format`), or
/// `width`/`height` (truncated to 32 bits) and `rgba` pixels whose size must
/// match; anything else is refused.
pub open spec fn image_request_of(value: JsonValue, r: Result<ImageRequest, String>) -> bool {
    match value {
        JsonValue::Null => r matches Ok(ImageRequest::Empty),
        JsonValue::String(p) => r matches Ok(ImageRequest::Path(q)) && q@ == p@,
        JsonValue::Object(_) => {
            if as_str(get(value, "path"@)) is Some {
                r matches Ok(ImageRequest::Path(q)) && q@ == as_str(get(value, "path"@))->0
            } else if get(value, "svg"@) is Some {
                match json_bytes_of(get(value, "svg"@)->0, "svg"@) {
                    Ok(b) => r matches Ok(ImageRequest::Svg(v)) && v@ == b,
                    Err(e) => r matches Err(m) && bytes_error(e, "svg"@, m@),
                }
            } else if get(value, "data"@) is Some {
                match json_bytes_of(get(value, "data"@)->0, "data"@) {
                    Ok(b) => r matches Ok(ImageRequest::Data(v, f)) && v@ == b && f@ == format_of(value),
                    Err(e) => r matches Err(m) && bytes_error(e, "data"@, m@),
                }
            } else {
                match as_u64(get(value, "width"@)) {
                    None => r matches Err(m) && m@ == needs_source_error(),
                    Some(w) => match as_u64(get(value, "height"@)) {
                        None => r matches Err(m) && m@ == needs_size_error(),
                        Some(h) => match get(value, "rgba"@) {
                            None => r matches Err(m) && m@ == needs_source_error(),
                            Some(rgba) => match json_bytes_of(rgba, "rgba"@) {
                                Err(e) => r matches Err(m) && bytes_error(e, "rgba"@, m@),
                                Ok(b) => if b.len() == rgba_len(w as u32, h as u32) {
                                    r matches Ok(ImageRequest::Rgba(ww, hh, v)) && ww == w as u32 && hh
                                        == h as u32 && v@ == b
                                } else {
                                    r matches Err(m) && m@ == rgba_size_error(b.len(), w as u32, h as u32)
                                },
                            },
                        },
                    },
                }
            }
        },
        _ => r matches Err(m) && m@ == not_an_image_error(),
    }
}

fn get_member<'a>(value: &'a JsonValue, key: &str) -> (r: Option<&'a JsonValue>)
    ensures
        match r {
            Some(v) => get(*value, key@) == Some(*v),
            None => get(*value, key@) is None,
        },
{
    match value {
        JsonValue::Object(e) => match crate::json::find_member(e, key) {
            Some(i) => Some(&e[i].1),
            None => None,
        },
        _ => None,
    }
}

/// Decide what an image's JSON asks to load (see [`image_request_of`]).
pub fn image_request(value: &JsonValue) -> (r: Result<ImageRequest, String>)
    ensures
        image_request_of(*value, r),
{
    match value {
        JsonValue::Null => Ok(ImageRequest::Empty),
        JsonValue::String(p) => Ok(ImageRequest::Path(p.clone())),
        JsonValue::Object(_) => {
            if let Some(JsonValue::String(p)) = get_member(value, "path") {
                return Ok(ImageRequest::Path(p.clone()));
            }
            if let Some(svg) = get_member(value, "svg") {
                return match json_bytes(svg, "svg") {
                    Ok(b) => Ok(ImageRequest::Svg(b)),
                    Err(e) => Err(e),
                };
            }
            if let Some(data) = get_member(value, "data") {
                let format = match get_member(value, "format") {
                    Some(JsonValue::String(f)) => f.clone(),
                    _ => text(""),
                };
                return match json_bytes(data, "data") {
                    Ok(b) => Ok(ImageRequest::Data(b, format)),
                    Err(e) => Err(e),
                };
            }
            let width: u32 = match get_member(value, "width") {
                Some(JsonValue::Number(JsonNumber::Unsigned(w))) => *w as u32,
                _ => return Err(text("an image object needs a path, svg, data, or width/height/rgba")),
            };
            let height: u32 = match get_member(value, "height") {
                Some(JsonValue::Number(JsonNumber::Unsigned(h))) => *h as u32,
                _ => return Err(text("an image object needs width and height for rgba data")),
            };
            let rgba = match get_member(value, "rgba") {
                Some(v) => v,
                None => return Err(text("an image object needs a path, svg, data, or width/height/rgba")),
            };
            let bytes = match json_bytes(rgba, "rgba") {
                Ok(b) => b,
                Err(e) => return Err(e),
            };
            assert((width as u128) * (height as u128) <= 0xffff_ffff_ffff_ffffu128 * 1) by (nonlinear_arith)
                requires width <= 0xffff_ffff, height <= 0xffff_ffff;
            let expected: u128 = (width as u128) * (height as u128) * 4;
            if bytes.len() as u128 != expected {
                let mut out = chars_of("rgba image data has ");
                push_all(&mut out, crate::text::decimal_of(bytes.len() as u64).as_slice());
                push_all(&mut out, chars_of(" bytes, expected ").as_slice());
                push_all(&mut out, crate::text::decimal_of_u128(expected).as_slice());
                push_all(&mut out, chars_of(" for ").as_slice());
                push_all(&mut out, crate::text::decimal_of(width as u64).as_slice());
                push_all(&mut out, chars_of("x").as_slice());
                push_all(&mut out, crate::text::decimal_of(height as u64).as_slice());
                return Err(string_of(out.as_slice()));
            }
            Ok(ImageRequest::Rgba(width, height, bytes))
        },
        _ => Err(text("an image must be a path string, null, or an object")),
    }
}

} // verus!

verus! {

/// `s` with every `_` turned into `-`.
pub open spec fn hyphenated(s: Seq<char>) -> Seq<char> {
    s.map_values(|c: char| if c == '_' { '-' } else { c })
}

/// The index of the first of `fields` that equals `name`.
pub open spec fn field_index(fields: Seq<Seq<char>>, name: Seq<char>) -> Option<int> {
    if exists|i: int| 0 <= i < fields.len() && fields[i] == name {
        Some(choose|i: int| 0 <= i < fields.len() && fields[i] == name && forall|j: int| 0 <= j < i ==> fields[j] != name)
    } else {
        None
    }
}

/// The struct field a JSON member names: the field spelled exactly so,
/// else the field spelled with `-` for each `_`; else the member is unknown.
pub open spec fn struct_field_of(fields: Seq<Seq<char>>, name: Seq<char>) -> Result<int, Seq<char>> {
    match field_index(fields, name) {
        Some(i) => Ok(i),
        None => match field_index(fields, hyphenated(name)) {
            Some(i) => Ok(i),
            None => Err("Found unknown field in struct: "@ + name),
        },
    }
}

/// [`field_index`] finds the first of `fields` that equals `name`.
pub proof fn lemma_field_index(fields: Seq<Seq<char>>, name: Seq<char>)
    ensures
        match field_index(fields, name) {
            Some(i) => 0 <= i < fields.len() && fields[i] == name && forall|j: int| 0 <= j < i ==> fields[j] != name,
            None => forall|j: int| 0 <= j < fields.len() ==> fields[j] != name,
        },
{
    if exists|i: int| 0 <= i < fields.len() && fields[i] == name {
        let k = choose|i: int| 0 <= i < fields.len() && fields[i] == name;
        lemma_first_match(fields, name, k);
    }
}

/// Where some of `fields` equals `name`, a first one does.
proof fn lemma_first_match(fields: Seq<Seq<char>>, name: Seq<char>, k: int)
    requires
        0 <= k < fields.len(),
        fields[k] == name,
    ensures
        exists|i: int| 0 <= i < fields.len() && fields[i] == name && forall|j: int| 0 <= j < i ==> fields[j] != name,
    decreases k,
{
    if exists|j: int| 0 <= j < k && fields[j] == name {
        let j = choose|j: int| 0 <= j < k && fields[j] == name;
        lemma_first_match(fields, name, j);
    } else {
        assert(forall|j: int| 0 <= j < k ==> fields[j] != name);
    }
}

/// The field [`struct_field_of`] finds is one of `fields`.
pub proof fn lemma_struct_field_in_range(fields: Seq<Seq<char>>, name: Seq<char>)
    ensures
        struct_field_of(fields, name) matches Ok(i) ==> 0 <= i < fields.len(),
{
    lemma_field_index(fields, name);
    lemma_field_index(fields, hyphenated(name));
}

fn find_field(fields: &Vec<String>, name: &str) -> (r: Option<usize>)
    ensures
        match r {
            Some(i) => field_index(crate::paths::views(fields@), name@) == Some(i as int),
            None => field_index(crate::paths::views(fields@), name@) is None,
        },
{
    let ghost v = crate::paths::views(fields@);
    let mut i: usize = 0;
    while i < fields.len()
        invariant
            v == crate::paths::views(fields@),
            i <= fields.len(),
            forall|j: int| 0 <= j < i ==> v[j] != name@,
        decreases fields.len() - i,
    {
        if str_eq(fields[i].as_str(), name) {
            assert(v[i as int] == name@);
            let ghost w = choose|k: int| 0 <= k < v.len() && v[k] == name@ && forall|j: int| 0 <= j < k ==> v[j] != name@;
            assert(w == i) by {
                if w < i {
                    assert(v[w] != name@);
                } else if w > i {
                    assert(v[i as int] != name@);
                }
            }
            return Some(i);
        }
        i = i + 1;
    }
    None
}

/// Find the struct field a JSON member names (see [`struct_field_of`]).
pub fn struct_field(fields: &Vec<String>, name: &str) -> (r: Result<usize, String>)
    ensures
        match struct_field_of(crate::paths::views(fields@), name@) {
            Ok(i) => r == Ok::<usize, String>(i as usize),
            Err(e) => r matches Err(m) && m@ == e,
        },
{
    match find_field(fields, name) {
        Some(i) => Ok(i),
        None => {
            let chars = chars_of(name);
            let mut h: Vec<char> = Vec::new();
            let mut k: usize = 0;
            while k < chars.len()
                invariant
                    chars@ == name@,
                    k <= chars.len(),
                    h@ == hyphenated(name@).take(k as int),
                decreases chars.len() - k,
            {
                let c = chars[k];
                h.push(if c == '_' { '-' } else { c });
                k = k + 1;
                assert(h@ =~= hyphenated(name@).take(k as int));
            }
            assert(hyphenated(name@).take(chars.len() as int) =~= hyphenated(name@));
            let alt = string_of(h.as_slice());
            match find_field(fields, alt.as_str()) {
                Some(i) => Ok(i),
                None => {
                    let mut out = chars_of("Found unknown field in struct: ");
                    push_all(&mut out, chars.as_slice());
                    Err(string_of(out.as_slice()))
                },
            }
        },
    }
}

/// What an image is turned into for Dart: `{path, width, height}` when it
/// comes from a file; `null` when it is empty; else its pixels as
/// `{width, height, rgba}` with the pixels base64-encoded, and an error when
/// they cannot be had.
pub open spec fn image_json_of(
    path: Option<Seq<char>>,
    width: u32,
    height: u32,
    pixels: Option<(u32, u32, Seq<u8>)>,
    r: Result<JsonValue, String>,
) -> bool {
    match path {
        Some(p) => r matches Ok(JsonValue::Object(e)) && e.len() == 3 && e[0].0@ == "path"@ && (e[0].1 matches JsonValue::String(s) && s@ == p)
            && e[1].0@ == "width"@ && e[1].1 == JsonValue::Number(JsonNumber::Unsigned(width as u64))
            && e[2].0@ == "height"@ && e[2].1 == JsonValue::Number(JsonNumber::Unsigned(height as u64)),
        None => if width == 0 && height == 0 {
            r matches Ok(JsonValue::Null)
        } else {
            match pixels {
                None => r matches Err(m) && m@ == "Cannot serialize this image"@,
                Some((w, h, bytes)) => r matches Ok(JsonValue::Object(e)) && e.len() == 3 && e[0].0@ == "width"@
                    && e[0].1 == JsonValue::Number(JsonNumber::Unsigned(w as u64))
                    && e[1].0@ == "height"@ && e[1].1 == JsonValue::Number(JsonNumber::Unsigned(h as u64))
                    && e[2].0@ == "rgba"@ && (e[2].1 matches JsonValue::String(s) && s@ == base64_standard(bytes)),
            }
        },
    }
}

/// Turn an image into its JSON form (see [`image_json_of`]). `pixels` is
/// the image converted to RGBA, when it can be.
pub fn image_to_json(path: Option<&str>, width: u32, height: u32, pixels: Option<(u32, u32, &[u8])>) -> (r: Result<JsonValue, String>)
    ensures
        image_json_of(
            match path {
                Some(p) => Some(p@),
                None => None,
            },
            width,
            height,
            match pixels {
                Some((w, h, b)) => Some((w, h, b@)),
                None => None,
            },
            r,
        ),
{
    match path {
        Some(p) => {
            let mut e: Vec<(String, JsonValue)> = Vec::new();
            e.push((text("path"), JsonValue::String(text(p))));
            e.push((text("width"), JsonValue::Number(JsonNumber::Unsigned(width as u64))));
            e.push((text("height"), JsonValue::Number(JsonNumber::Unsigned(height as u64))));
            Ok(JsonValue::Object(e))
        },
        None => {
            if width == 0 && height == 0 {
                return Ok(JsonValue::Null);
            }
            match pixels {
                None => Err(text("Cannot serialize this image")),
                Some((w, h, bytes)) => {
                    let mut e: Vec<(String, JsonValue)> = Vec::new();
                    e.push((text("width"), JsonValue::Number(JsonNumber::Unsigned(w as u64))));
                    e.push((text("height"), JsonValue::Number(JsonNumber::Unsigned(h as u64))));
                    e.push((text("rgba"), JsonValue::String(base64_encode(bytes))));
                    Ok(JsonValue::Object(e))
                },
            }
        },
    }
}

} // verus!

verus! {

/// An image that [`image_to_json`] turns into JSON reads back, through
/// [`image_request`], as the same image: one loaded from a file as that
/// file, an empty one as the empty image, and one held as pixels as those
/// pixels, when there are four bytes for each of them.
pub proof fn law_image_json_round_trip(
    path: Option<Seq<char>>,
    width: u32,
    height: u32,
    pixels: Option<(u32, u32, Seq<u8>)>,
    json: Result<JsonValue, String>,
    back: Result<ImageRequest, String>,
)
    requires
        image_json_of(path, width, height, pixels, json),
        json is Ok,
        image_request_of(json->Ok_0, back),
        pixels matches Some((w, h, b)) ==> b.len() == rgba_len(w, h),
    ensures
        match path {
            Some(p) => back matches Ok(ImageRequest::Path(q)) && q@ == p,
            None => if width == 0 && height == 0 {
                back matches Ok(ImageRequest::Empty)
            } else {
                pixels matches Some((w, h, b)) && back matches Ok(ImageRequest::Rgba(ww, hh, v)) && ww == w && hh
                    == h && v@ == b
            },
        },
{
    reveal_strlit("path");
    reveal_strlit("width");
    reveal_strlit("height");
    reveal_strlit("rgba");
    reveal_strlit("svg");
    reveal_strlit("data");
    assert("path"@.len() == 4 && "width"@.len() == 5 && "height"@.len() == 6 && "rgba"@.len() == 4);
    assert("svg"@.len() == 3 && "data"@.len() == 4);
    assert("rgba"@[0] != "path"@[0] && "data"@[0] != "rgba"@[0] && "data"@[0] != "path"@[0]);
    let j = json->Ok_0;
    match path {
        Some(p) => {
            let e = j->Object_0@;
            crate::json::lemma_member_from(e, "path"@, 0);
            assert(crate::json::member(e, "path"@) == Some(e[0].1));
        },
        None => {
            if !(width == 0 && height == 0) {
                assert(pixels is Some);
                let (w, h, b) = pixels->Some_0;
                let e = j->Object_0@;
                assert(e.len() == 3);
                assert(e[0].0@ == "width"@);
                assert(e[1].0@ == "height"@);
                assert(e[2].0@ == "rgba"@);
                assert(e[0].0@ != "path"@);
                assert(e[1].0@ != "path"@);
                assert(e[2].0@ != "path"@);
                crate::json::lemma_member_from(e, "path"@, 0);
                assert(e[0].0@ != "svg"@);
                assert(e[1].0@ != "svg"@);
                assert(e[2].0@ != "svg"@);
                crate::json::lemma_member_from(e, "svg"@, 0);
                assert(e[0].0@ != "data"@);
                assert(e[1].0@ != "data"@);
                assert(e[2].0@ != "data"@);
                crate::json::lemma_member_from(e, "data"@, 0);
                crate::json::lemma_member_from(e, "width"@, 0);
                assert(e[1].0@ != "width"@);
                assert(e[0].0@ != "height"@);
                crate::json::lemma_member_from(e, "height"@, 0);
                assert(e[0].0@ != "rgba"@);
                assert(e[1].0@ != "rgba"@);
                crate::json::lemma_member_from(e, "rgba"@, 0);
                let text = e[2].1->String_0;
                assert("rgba"@ != "svg"@);
                assert(crate::blob::base64_standard(b) == text@);
                let chosen = choose|x: Seq<u8>| crate::blob::base64_standard(x) == text@;
                crate::blob::lemma_base64_injective(chosen, b);
                assert(json_bytes_of(e[2].1, "rgba"@) == Ok::<Seq<u8>, Seq<char>>(b));
                assert(w as u64 as u32 == w);
                assert(h as u64 as u32 == h);
            }
        },
    }
}

} // verus!
