//! Packing the compiled `.slint` files into the module a generated wrapper
//! embeds: imports rewritten to the virtual root, absolute images inlined as
//! data URIs, relative images and fonts carried once each as assets.
//!
//! Reading files is left to the caller: it hands in what each requested path
//! held, as [`Resource`]s.

use vstd::prelude::*;

use crate::blob::{base64_encode, base64_standard};
use crate::paths::{extension_of, is_absolute, path_extension, path_is_absolute, path_join, join_path};
use crate::scan::{char_ranges, url_ranges, lemma_url_ranges_ordered};
use crate::text::{chars_of, eq_chars, ascii_lowercase, to_ascii_lowercase, push_all, slice_chars, splice, splice_exec, string_of, str_eq};

verus! {

/// What reading the file at `path` gave: its bytes, or the error's text.
#[derive(Debug)]
pub struct Resource {
    pub path: String,
    pub contents: Result<Vec<u8>, String>,
}

/// What the first resource for `path` holds; `None` when none was read.
pub open spec fn read_from(res: Seq<Resource>, path: Seq<char>, i: int) -> Option<
    Result<Seq<u8>, Seq<char>>,
>
    decreases res.len() - i,
{
    if i < 0 || i >= res.len() {
        None
    } else if res[i].path@ == path {
        match res[i].contents {
            Ok(b) => Some(Ok(b@)),
            Err(e) => Some(Err(e@)),
        }
    } else {
        read_from(res, path, i + 1)
    }
}

pub open spec fn read_of(res: Seq<Resource>, path: Seq<char>) -> Option<Result<Seq<u8>, Seq<char>>> {
    read_from(res, path, 0)
}

/// The bytes of `path`, when it was read successfully.
pub open spec fn bytes_of(res: Seq<Resource>, path: Seq<char>) -> Option<Seq<u8>> {
    match read_of(res, path) {
        Some(Ok(b)) => Some(b),
        _ => None,
    }
}

/// The index of the first resource for `path`.
fn find_resource(res: &Vec<Resource>, path: &str) -> (r: Option<usize>)
    ensures
        match r {
            Some(i) => i < res.len() && res@[i as int].path@ == path@ && read_of(res@, path@)
                == match res@[i as int].contents {
                Ok(b) => Some(Ok(b@)),
                Err(e) => Some(Err::<Seq<u8>, Seq<char>>(e@)),
            },
            None => read_of(res@, path@) is None,
        },
{
    let mut i: usize = 0;
    while i < res.len()
        invariant
            i <= res.len(),
            read_of(res@, path@) == read_from(res@, path@, i as int),
        decreases res.len() - i,
    {
        if str_eq(res[i].path.as_str(), path) {
            return Some(i);
        }
        i = i + 1;
    }
    None
}

/// The bytes read for `path`, if it was read successfully.
fn read_bytes<'a>(res: &'a Vec<Resource>, path: &str) -> (r: Option<&'a Vec<u8>>)
    ensures
        match r {
            Some(b) => bytes_of(res@, path@) == Some(b@),
            None => bytes_of(res@, path@) is None,
        },
{
    match find_resource(res, path) {
        Some(i) => match &res[i].contents {
            Ok(b) => Some(b),
            Err(_) => None,
        },
        None => None,
    }
}

/// The media type `data_uri` declares for a file extension.
pub open spec fn mime_of(extension: Option<Seq<char>>) -> Seq<char> {
    match extension {
        Some(e) => {
            let l = ascii_lowercase(e);
            if l == "png"@ {
                "image/png"@
            } else if l == "jpg"@ || l == "jpeg"@ {
                "image/jpeg"@
            } else if l == "gif"@ {
                "image/gif"@
            } else if l == "webp"@ {
                "image/webp"@
            } else if l == "svg"@ {
                "image/svg+xml"@
            } else if l == "bmp"@ {
                "image/bmp"@
            } else {
                "application/octet-stream"@
            }
        },
        None => "application/octet-stream"@,
    }
}

/// The `data:` URI that carries `bytes`, typed by the extension of `path`.
pub open spec fn data_uri_of(path: Seq<char>, bytes: Seq<u8>) -> Seq<char> {
    "data:"@ + mime_of(path_extension(path)) + ";base64,"@ + base64_standard(bytes)
}

/// The media types of image files, by extension (lower case).
pub open spec fn media_types() -> Seq<(Seq<char>, Seq<char>)> {
    seq![
        ("png"@, "image/png"@),
        ("jpg"@, "image/jpeg"@),
        ("jpeg"@, "image/jpeg"@),
        ("gif"@, "image/gif"@),
        ("webp"@, "image/webp"@),
        ("svg"@, "image/svg+xml"@),
        ("bmp"@, "image/bmp"@),
    ]
}

/// `e` spells the lower-case ASCII word `w`, each letter in either case.
pub open spec fn spells_in_any_case(e: Seq<char>, w: Seq<char>) -> bool {
    &&& e.len() == w.len()
    &&& forall|i: int| 0 <= i < e.len() ==> (#[trigger] e[i] == w[i] || e[i] == ((w[i] as int) - 32) as char)
}

/// A word of lower-case ASCII letters.
pub open spec fn lower_word(w: Seq<char>) -> bool {
    forall|i: int| 0 <= i < w.len() ==> 'a' <= #[trigger] w[i] <= 'z'
}

proof fn lemma_spells_in_any_case(e: Seq<char>, w: Seq<char>)
    requires
        lower_word(w),
    ensures
        spells_in_any_case(e, w) <==> crate::text::ascii_lowercase(e) == w,
{
    let l = crate::text::ascii_lowercase(e);
    if spells_in_any_case(e, w) {
        assert forall|i: int| 0 <= i < e.len() implies l[i] == w[i] by {
            assert('a' <= w[i] <= 'z');
            if e[i] != w[i] {
                assert(e[i] == ((w[i] as int) - 32) as char);
                assert('A' <= e[i] <= 'Z');
            }
        }
        assert(l =~= w);
    }
    if l == w {
        assert forall|i: int| 0 <= i < e.len() implies (#[trigger] e[i] == w[i] || e[i] == ((w[i] as int) - 32) as char) by {
            assert(l[i] == w[i]);
            assert('a' <= w[i] <= 'z');
        }
    }
}

/// A `data:` URI is typed by the file's extension, in any letter case, as
/// the table [`media_types`] says; any other extension, or none, is
/// `application/octet-stream`. The bytes follow in standard base64.
pub proof fn law_data_uri_media_type(path: Seq<char>, bytes: Seq<u8>)
    ensures
        match path_extension(path) {
            Some(e) => {
                &&& forall|i: int| 0 <= i < media_types().len() && spells_in_any_case(e, #[trigger] media_types()[i].0)
                    ==> data_uri_of(path, bytes) == "data:"@ + media_types()[i].1 + ";base64,"@ + base64_standard(bytes)
                &&& (forall|i: int| 0 <= i < media_types().len() ==> !spells_in_any_case(e, #[trigger] media_types()[i].0))
                    ==> data_uri_of(path, bytes) == "data:application/octet-stream;base64,"@ + base64_standard(bytes)
            },
            None => data_uri_of(path, bytes) == "data:application/octet-stream;base64,"@ + base64_standard(bytes),
        },
{
    reveal_strlit("png");
    reveal_strlit("jpg");
    reveal_strlit("jpeg");
    reveal_strlit("gif");
    reveal_strlit("webp");
    reveal_strlit("svg");
    reveal_strlit("bmp");
    reveal_strlit("data:");
    reveal_strlit(";base64,");
    reveal_strlit("application/octet-stream");
    reveal_strlit("data:application/octet-stream;base64,");
    assert("data:application/octet-stream;base64,"@ =~= "data:"@ + "application/octet-stream"@ + ";base64,"@);
    let t = media_types();
    if let Some(e) = path_extension(path) {
        assert forall|i: int| 0 <= i < t.len() implies lower_word(#[trigger] t[i].0) by {
            assert(lower_word(t[i].0));
        }
        assert forall|i: int| 0 <= i < t.len() implies (spells_in_any_case(e, #[trigger] t[i].0)
            <==> crate::text::ascii_lowercase(e) == t[i].0) by {
            lemma_spells_in_any_case(e, t[i].0);
        }
        assert(t[0].0 == "png"@ && t[1].0 == "jpg"@ && t[2].0 == "jpeg"@ && t[3].0 == "gif"@);
        assert(t[4].0 == "webp"@ && t[5].0 == "svg"@ && t[6].0 == "bmp"@);
        let l = crate::text::ascii_lowercase(e);
        // The words differ in their first letter, or in their length.
        assert(t[0].0[0] == 'p' && t[1].0[0] == 'j' && t[2].0[0] == 'j' && t[3].0[0] == 'g');
        assert(t[4].0[0] == 'w' && t[5].0[0] == 's' && t[6].0[0] == 'b');
        assert(t[1].0.len() == 3 && t[2].0.len() == 4);
        assert forall|i: int| 0 <= i < t.len() && spells_in_any_case(e, #[trigger] t[i].0) implies mime_of(
            Some(e),
        ) == t[i].1 by {
            assert(l == t[i].0);
            assert(l[0] == t[i].0[0]);
        }
        if forall|i: int| 0 <= i < t.len() ==> !spells_in_any_case(e, #[trigger] t[i].0) {
            assert(!spells_in_any_case(e, t[0].0));
            assert(!spells_in_any_case(e, t[1].0));
            assert(!spells_in_any_case(e, t[2].0));
            assert(!spells_in_any_case(e, t[3].0));
            assert(!spells_in_any_case(e, t[4].0));
            assert(!spells_in_any_case(e, t[5].0));
            assert(!spells_in_any_case(e, t[6].0));
            assert(mime_of(Some(e)) == "application/octet-stream"@);
        }
    }
}

fn mime(path: &str) -> (r: Vec<char>)
    ensures
        r@ == mime_of(path_extension(path@)),
{
    match extension_of(path) {
        Some(e) => {
            let chars = chars_of(e.as_str());
            let l = to_ascii_lowercase(chars.as_slice());
            if eq_chars(l.as_slice(), chars_of("png").as_slice()) {
                chars_of("image/png")
            } else if eq_chars(l.as_slice(), chars_of("jpg").as_slice()) || eq_chars(
                l.as_slice(),
                chars_of("jpeg").as_slice(),
            ) {
                chars_of("image/jpeg")
            } else if eq_chars(l.as_slice(), chars_of("gif").as_slice()) {
                chars_of("image/gif")
            } else if eq_chars(l.as_slice(), chars_of("webp").as_slice()) {
                chars_of("image/webp")
            } else if eq_chars(l.as_slice(), chars_of("svg").as_slice()) {
                chars_of("image/svg+xml")
            } else if eq_chars(l.as_slice(), chars_of("bmp").as_slice()) {
                chars_of("image/bmp")
            } else {
                chars_of("application/octet-stream")
            }
        },
        None => chars_of("application/octet-stream"),
    }
}

/// `data:<mime>;base64,<bytes>` for the file at `path`.
pub fn data_uri(path: &str, bytes: &[u8]) -> (r: String)
    ensures
        r@ == data_uri_of(path@, bytes@),
{
    let mut out = chars_of("data:");
    push_all(&mut out, mime(path).as_slice());
    push_all(&mut out, chars_of(";base64,").as_slice());
    let encoded = base64_encode(bytes);
    push_all(&mut out, chars_of(encoded.as_str()).as_slice());
    string_of(out.as_slice())
}

/// What an image reference with path `p` becomes when absolute images are
/// inlined: a data URI when `p` is absolute and was read, else `p`.
pub open spec fn inlined_reference(p: Seq<char>, res: Seq<Resource>) -> Seq<char> {
    if path_is_absolute(p) && bytes_of(res, p) is Some {
        data_uri_of(p, bytes_of(res, p)->0)
    } else {
        p
    }
}

/// A relative image reference is never inlined: it stays as written and
/// is shipped as an asset instead.
pub proof fn law_relative_images_are_not_inlined(p: Seq<char>, res: Seq<Resource>)
    requires
        !path_is_absolute(p),
    ensures
        inlined_reference(p, res) == p,
{
}

/// The paths of the references in `s`, in order.
pub open spec fn reference_paths(s: Seq<char>) -> Seq<Seq<char>> {
    url_ranges(s).map_values(|r: (int, int)| s.subrange(r.0, r.1))
}

/// `s` with every absolute image reference that could be read inlined as
/// a data URI.
pub open spec fn inline_absolute_of(s: Seq<char>, res: Seq<Resource>) -> Seq<char> {
    splice(s, url_ranges(s), reference_paths(s).map_values(|p: Seq<char>| inlined_reference(p, res)))
}

/// What an image reference with path `p` in a file in `dir` becomes when
/// every image is inlined: a data URI for the resolved file when it was
/// read, else `p`.
pub open spec fn resolved_image(p: Seq<char>, dir: Seq<char>) -> Seq<char> {
    if path_is_absolute(p) {
        p
    } else {
        path_join(dir, p)
    }
}

pub open spec fn embedded_reference(p: Seq<char>, dir: Seq<char>, res: Seq<Resource>) -> Seq<char> {
    let f = resolved_image(p, dir);
    if bytes_of(res, f) is Some {
        data_uri_of(f, bytes_of(res, f)->0)
    } else {
        p
    }
}

/// `s`, from a file in `dir`, with every image that could be read inlined.
pub open spec fn rewrite_image_urls_of(s: Seq<char>, dir: Seq<char>, res: Seq<Resource>) -> Seq<
    char,
> {
    splice(s, url_ranges(s), reference_paths(s).map_values(|p: Seq<char>| embedded_reference(p, dir, res)))
}

/// Replace each reference of `source` by what `pick` says, splicing the
/// results in.
fn replace_references(
    s: &[char],
    ranges: &Vec<(usize, usize)>,
    reps: &Vec<Vec<char>>,
) -> (r: String)
    requires
        ranges.len() == reps.len(),
        ranges@.len() == url_ranges(s@).len(),
        forall|i: int|
            0 <= i < ranges@.len() ==> (#[trigger] ranges@[i]).0 as int == url_ranges(s@)[i].0
                && ranges@[i].1 as int == url_ranges(s@)[i].1,
    ensures
        r@ == splice(s@, url_ranges(s@), reps@.map_values(|v: Vec<char>| v@)),
{
    proof {
        lemma_url_ranges_ordered(s@, 0);
        assert forall|i: int, j: int| 0 <= i < j < ranges.len() implies (#[trigger] ranges@[i]).1
            <= (#[trigger] ranges@[j]).0 by {
            assert(url_ranges(s@)[i].1 < url_ranges(s@)[j].0);
        }
        assert(ranges@.map_values(|p: (usize, usize)| (p.0 as int, p.1 as int)) =~= url_ranges(s@));
    }
    let out = splice_exec(s, ranges, reps);
    string_of(out.as_slice())
}

/// Inline every absolute `@image-url` whose file was read as a data URI.
/// Relative references are left alone: they travel as assets.
pub fn inline_absolute_image_urls(source: &str, resources: &Vec<Resource>) -> (r: String)
    ensures
        r@ == inline_absolute_of(source@, resources@),
{
    let s = chars_of(source);
    let ranges = char_ranges(s.as_slice());
    let mut reps: Vec<Vec<char>> = Vec::new();
    let ghost want = reference_paths(s@).map_values(|p: Seq<char>| inlined_reference(p, resources@));
    let mut k: usize = 0;
    proof {
        lemma_url_ranges_ordered(s@, 0);
    }
    while k < ranges.len()
        invariant
            s@ == source@,
            want == reference_paths(s@).map_values(|p: Seq<char>| inlined_reference(p, resources@)),
            ranges@.len() == url_ranges(s@).len(),
            forall|i: int|
                0 <= i < ranges@.len() ==> (#[trigger] ranges@[i]).0 as int == url_ranges(s@)[i].0
                    && ranges@[i].1 as int == url_ranges(s@)[i].1,
            crate::scan::ordered_ranges(url_ranges(s@), 0, s@.len() as int),
            k <= ranges.len(),
            reps.len() == k,
            forall|i: int| 0 <= i < k ==> (#[trigger] reps@[i])@ == want[i],
        decreases ranges.len() - k,
    {
        let (a, b) = ranges[k];
        assert(url_ranges(s@)[k as int].0 <= url_ranges(s@)[k as int].1 <= s@.len());
        let p = slice_chars(s.as_slice(), a, b);
        let path = string_of(p.as_slice());
        let mut rep = p;
        if is_absolute(path.as_str()) {
            match read_bytes(resources, path.as_str()) {
                Some(bytes) => {
                    rep = chars_of(data_uri(path.as_str(), bytes.as_slice()).as_str());
                },
                None => {},
            }
        }
        reps.push(rep);
        k = k + 1;
    }
    assert(reps@.map_values(|v: Vec<char>| v@) =~= want);
    replace_references(s.as_slice(), &ranges, &reps)
}

/// Inline every `@image-url` of `source`, from a file in `source_dir`,
/// whose file was read as a data URI (absolute paths as they are, relative
/// ones joined to `source_dir`).
pub fn rewrite_image_urls(source: &str, source_dir: &str, resources: &Vec<Resource>) -> (r: String)
    ensures
        r@ == rewrite_image_urls_of(source@, source_dir@, resources@),
{
    let s = chars_of(source);
    let ranges = char_ranges(s.as_slice());
    let mut reps: Vec<Vec<char>> = Vec::new();
    let ghost want = reference_paths(s@).map_values(
        |p: Seq<char>| embedded_reference(p, source_dir@, resources@),
    );
    let mut k: usize = 0;
    proof {
        lemma_url_ranges_ordered(s@, 0);
    }
    while k < ranges.len()
        invariant
            s@ == source@,
            want == reference_paths(s@).map_values(
                |p: Seq<char>| embedded_reference(p, source_dir@, resources@),
            ),
            ranges@.len() == url_ranges(s@).len(),
            forall|i: int|
                0 <= i < ranges@.len() ==> (#[trigger] ranges@[i]).0 as int == url_ranges(s@)[i].0
                    && ranges@[i].1 as int == url_ranges(s@)[i].1,
            crate::scan::ordered_ranges(url_ranges(s@), 0, s@.len() as int),
            k <= ranges.len(),
            reps.len() == k,
            forall|i: int| 0 <= i < k ==> (#[trigger] reps@[i])@ == want[i],
        decreases ranges.len() - k,
    {
        let (a, b) = ranges[k];
        assert(url_ranges(s@)[k as int].0 <= url_ranges(s@)[k as int].1 <= s@.len());
        let p = slice_chars(s.as_slice(), a, b);
        let path = string_of(p.as_slice());
        let resolved = if is_absolute(path.as_str()) {
            path
        } else {
            join_path(source_dir, path.as_str())
        };
        let rep = match read_bytes(resources, resolved.as_str()) {
            Some(bytes) => chars_of(data_uri(resolved.as_str(), bytes.as_slice()).as_str()),
            None => p,
        };
        reps.push(rep);
        k = k + 1;
    }
    assert(reps@.map_values(|v: Vec<char>| v@) =~= want);
    replace_references(s.as_slice(), &ranges, &reps)
}

} // verus!

verus! {

/// A `.slint` file the compiler read: its (cleaned) path, its text, and its
/// imports as they are spelled in the text (with quotes) together with the
/// file each resolved to.
#[derive(Debug)]
pub struct BundledFile {
    pub path: String,
    pub source: String,
    pub imports: Vec<(String, String)>,
}

/// The views of a list of string pairs.
pub open spec fn pair_views(v: Seq<(String, String)>) -> Seq<(Seq<char>, Seq<char>)> {
    v.map_values(|p: (String, String)| (p.0@, p.1@))
}

/// The virtual path of the first entry of `mapping` whose real path equals
/// `p` (as paths), searching from `i`.
pub open spec fn lookup_from(mapping: Seq<(Seq<char>, Seq<char>)>, p: Seq<char>, i: int) -> Option<
    Seq<char>,
>
    decreases mapping.len() - i,
{
    if i < 0 || i >= mapping.len() {
        None
    } else if crate::paths::path_eq(mapping[i].0, p) {
        Some(mapping[i].1)
    } else {
        lookup_from(mapping, p, i + 1)
    }
}

pub open spec fn lookup(mapping: Seq<(Seq<char>, Seq<char>)>, p: Seq<char>) -> Option<Seq<char>> {
    lookup_from(mapping, p, 0)
}

/// Executable [`lookup`].
pub fn lookup_mapping(mapping: &Vec<(String, String)>, p: &str) -> (r: Option<String>)
    ensures
        match r {
            Some(v) => lookup(pair_views(mapping@), p@) == Some(v@),
            None => lookup(pair_views(mapping@), p@) is None,
        },
{
    let mut i: usize = 0;
    while i < mapping.len()
        invariant
            i <= mapping.len(),
            lookup(pair_views(mapping@), p@) == lookup_from(pair_views(mapping@), p@, i as int),
        decreases mapping.len() - i,
    {
        if crate::paths::same_path(mapping[i].0.as_str(), p) {
            return Some(mapping[i].1.clone());
        }
        i = i + 1;
    }
    None
}

/// `s` with the first occurrence of `pat` replaced by `rep`.
pub open spec fn replace_first(s: Seq<char>, pat: Seq<char>, rep: Seq<char>) -> Seq<char> {
    match crate::text::find_from(s, pat, 0) {
        Some(i) => s.take(i) + rep + s.skip(i + pat.len()),
        None => s,
    }
}

/// The import spellings of `source` replaced, one import after the other,
/// by the quoted virtual path of the file they resolve to. Imports of
/// built-in files, and of files that were not bundled, stay as written.
pub open spec fn rewrite_imports_of(
    source: Seq<char>,
    imports: Seq<(Seq<char>, Seq<char>)>,
    mapping: Seq<(Seq<char>, Seq<char>)>,
) -> Seq<char>
    decreases imports.len(),
{
    if imports.len() == 0 {
        source
    } else {
        let prev = rewrite_imports_of(source, imports.drop_last(), mapping);
        let quoted = imports.last().0;
        let resolved = crate::paths::clean_path(imports.last().1);
        if crate::paths::is_builtin_path(resolved) {
            prev
        } else {
            match lookup(mapping, resolved) {
                None => prev,
                Some(v) => replace_first(prev, quoted, seq!['"'] + v + seq!['"']),
            }
        }
    }
}

/// One import: when the file it resolves to (cleaned) is bundled and not
/// built in, the first occurrence of its spelling becomes the quoted
/// virtual path of that file; otherwise the source stays as it is.
pub proof fn law_an_import_is_rewritten_to_its_virtual_path(
    source: Seq<char>,
    quoted: Seq<char>,
    resolved: Seq<char>,
    mapping: Seq<(Seq<char>, Seq<char>)>,
)
    ensures
        ({
            let r = rewrite_imports_of(source, seq![(quoted, resolved)], mapping);
            let target = crate::paths::clean_path(resolved);
            match (crate::paths::is_builtin_path(target), lookup(mapping, target), crate::text::find_from(source, quoted, 0)) {
                (false, Some(v), Some(i)) => r == source.take(i) + seq!['"'] + v + seq!['"'] + source.skip(i + quoted.len()),
                _ => r == source,
            }
        }),
{
    let one = seq![(quoted, resolved)];
    assert(one.drop_last() =~= Seq::<(Seq<char>, Seq<char>)>::empty());
    assert(one.last() == (quoted, resolved));
    assert(rewrite_imports_of(source, one.drop_last(), mapping) == source);
    let r = rewrite_imports_of(source, one, mapping);
    let target = crate::paths::clean_path(resolved);
    if !crate::paths::is_builtin_path(target) {
        if let Some(v) = lookup(mapping, target) {
            if let Some(i) = crate::text::find_from(source, quoted, 0) {
                assert(r =~= source.take(i) + seq!['"'] + v + seq!['"'] + source.skip(i + quoted.len()));
            }
        }
    }
}

/// Rewriting with a list of imports is rewriting with its first part and
/// then, on that result, with the rest: every import is applied, wherever
/// it stands in the list.
pub proof fn law_imports_are_rewritten_one_after_the_other(
    source: Seq<char>,
    first: Seq<(Seq<char>, Seq<char>)>,
    rest: Seq<(Seq<char>, Seq<char>)>,
    mapping: Seq<(Seq<char>, Seq<char>)>,
)
    ensures
        rewrite_imports_of(source, first + rest, mapping) == rewrite_imports_of(
            rewrite_imports_of(source, first, mapping),
            rest,
            mapping,
        ),
    decreases rest.len(),
{
    if rest.len() == 0 {
        assert(first + rest =~= first);
    } else {
        law_imports_are_rewritten_one_after_the_other(source, first, rest.drop_last(), mapping);
        assert((first + rest).drop_last() =~= first + rest.drop_last());
        assert((first + rest).last() == rest.last());
    }
}

/// Every import is applied, whatever its place in the list: the import at
/// `k` rewrites what the imports before it left (its spelling's first
/// occurrence becomes the quoted virtual path of its bundled, non-built-in
/// file), and the imports after it go on from there.
pub proof fn law_every_import_is_applied(
    source: Seq<char>,
    imports: Seq<(Seq<char>, Seq<char>)>,
    mapping: Seq<(Seq<char>, Seq<char>)>,
    k: int,
)
    requires
        0 <= k < imports.len(),
    ensures
        ({
            let before = rewrite_imports_of(source, imports.take(k), mapping);
            let quoted = imports[k].0;
            let target = crate::paths::clean_path(imports[k].1);
            let after = match (crate::paths::is_builtin_path(target), lookup(mapping, target), crate::text::find_from(before, quoted, 0)) {
                (false, Some(v), Some(i)) => before.take(i) + seq!['"'] + v + seq!['"'] + before.skip(i + quoted.len()),
                _ => before,
            };
            rewrite_imports_of(source, imports, mapping) == rewrite_imports_of(after, imports.skip(k + 1), mapping)
        }),
{
    let head = imports.take(k);
    let one = seq![imports[k]];
    let tail = imports.skip(k + 1);
    assert(imports =~= (head + one) + tail);
    law_imports_are_rewritten_one_after_the_other(source, head + one, tail, mapping);
    law_imports_are_rewritten_one_after_the_other(source, head, one, mapping);
    let before = rewrite_imports_of(source, head, mapping);
    law_an_import_is_rewritten_to_its_virtual_path(before, imports[k].0, imports[k].1, mapping);
}

fn replace_first_exec(s: Vec<char>, pat: &[char], rep: &[char]) -> (r: Vec<char>)
    ensures
        r@ == replace_first(s@, pat@, rep@),
{
    match crate::text::find_seq(s.as_slice(), pat, 0) {
        Some(i) => {
            proof {
                crate::text::lemma_find_from_found(s@, pat@, 0);
                assert(crate::text::matches_at(s@, pat@, i as int));
                assert(i + pat@.len() <= s@.len());
            }
            let n = pat.len();
            let total = s.len();
            let mut out = slice_chars(s.as_slice(), 0, i);
            push_all(&mut out, rep);
            let tail = slice_chars(s.as_slice(), i + n, total);
            push_all(&mut out, tail.as_slice());
            assert(out@ =~= replace_first(s@, pat@, rep@));
            out
        },
        None => s,
    }
}

/// Point each import of `source` at the virtual path of the file it
/// resolves to (see [`rewrite_imports_of`]).
pub fn rewrite_imports(source: &str, imports: &Vec<(String, String)>, mapping: &Vec<(String, String)>) -> (r: String)
    ensures
        r@ == rewrite_imports_of(source@, pair_views(imports@), pair_views(mapping@)),
{
    let mut result = chars_of(source);
    let mut k: usize = 0;
    while k < imports.len()
        invariant
            k <= imports.len(),
            result@ == rewrite_imports_of(source@, pair_views(imports@).take(k as int), pair_views(mapping@)),
        decreases imports.len() - k,
    {
        proof {
            assert(pair_views(imports@).take(k + 1).drop_last() =~= pair_views(imports@).take(k as int));
        }
        let resolved = crate::paths::cleaned(imports[k].1.as_str());
        if !crate::paths::is_builtin(resolved.as_str()) {
            match lookup_mapping(mapping, resolved.as_str()) {
                Some(v) => {
                    let mut rep = vec!['"'];
                    push_all(&mut rep, chars_of(v.as_str()).as_slice());
                    rep.push('"');
                    assert(rep@ =~= seq!['"'] + v@ + seq!['"']);
                    let quoted = chars_of(imports[k].0.as_str());
                    result = replace_first_exec(result, quoted.as_slice(), rep.as_slice());
                },
                None => {},
            }
        }
        k = k + 1;
    }
    assert(pair_views(imports@).take(imports.len() as int) =~= pair_views(imports@));
    string_of(result.as_slice())
}

} // verus!

verus! {

/// The directory a file's relative references resolve against: its parent,
/// or the path itself when it has none.
pub open spec fn source_dir_of(path: Seq<char>) -> Seq<char> {
    match crate::paths::path_parent(path) {
        Some(d) => d,
        None => path,
    }
}

/// Where a relative resource `p` of a file in `dir` is read from.
pub open spec fn relative_location(dir: Seq<char>, p: Seq<char>) -> Seq<char> {
    match crate::paths::slint_join(dir, p) {
        Some(j) => j,
        None => path_join(dir, p),
    }
}

/// Where the font import `p` of a file in `dir` is read from.
pub open spec fn font_location(dir: Seq<char>, p: Seq<char>) -> Seq<char> {
    if path_is_absolute(p) {
        p
    } else {
        relative_location(dir, p)
    }
}

/// The message for a font that could not be read.
pub open spec fn font_error(location: Seq<char>, reason: Seq<char>) -> Seq<char> {
    "Cannot read font "@ + location + ": "@ + reason
}

/// The reason given for a file that the caller did not read.
pub open spec fn not_read() -> Seq<char> {
    "it was not read"@
}

/// The font assets of one file's imports `imports`, added to `acc`: each
/// font under its virtual path, base64-encoded; the first font that cannot
/// be read is an error.
pub open spec fn fonts_of(
    imports: Seq<Seq<char>>,
    virtual_slint: Seq<char>,
    dir: Seq<char>,
    res: Seq<Resource>,
    acc: Map<Seq<char>, Seq<char>>,
) -> Result<Map<Seq<char>, Seq<char>>, Seq<char>>
    decreases imports.len(),
{
    if imports.len() == 0 {
        Ok(acc)
    } else {
        match fonts_of(imports.drop_last(), virtual_slint, dir, res, acc) {
            Err(e) => Err(e),
            Ok(m) => {
                let p = imports.last();
                let loc = font_location(dir, p);
                match read_of(res, loc) {
                    Some(Ok(b)) => Ok(
                        m.insert(
                            crate::paths::virtual_resource_path_of(virtual_slint, p),
                            base64_standard(b),
                        ),
                    ),
                    Some(Err(e)) => Err(font_error(loc, e)),
                    None => Err(font_error(loc, not_read())),
                }
            },
        }
    }
}

/// The font assets of all `files` (those that are mapped), in order.
pub open spec fn font_assets_of(
    files: Seq<BundledFile>,
    mapping: Seq<(Seq<char>, Seq<char>)>,
    res: Seq<Resource>,
) -> Result<Map<Seq<char>, Seq<char>>, Seq<char>>
    decreases files.len(),
{
    if files.len() == 0 {
        Ok(Map::empty())
    } else {
        match font_assets_of(files.drop_last(), mapping, res) {
            Err(e) => Err(e),
            Ok(m) => {
                let f = files.last();
                match lookup(mapping, f.path@) {
                    None => Ok(m),
                    Some(v) => fonts_of(
                        crate::scan::font_imports(f.source@),
                        v,
                        source_dir_of(f.path@),
                        res,
                        m,
                    ),
                }
            },
        }
    }
}

/// The image assets of one file's references `paths`, added to `acc`:
/// each relative image that could be read, under its virtual path, once.
pub open spec fn images_of(
    paths: Seq<Seq<char>>,
    virtual_slint: Seq<char>,
    dir: Seq<char>,
    res: Seq<Resource>,
    acc: Map<Seq<char>, Seq<char>>,
) -> Map<Seq<char>, Seq<char>>
    decreases paths.len(),
{
    if paths.len() == 0 {
        acc
    } else {
        let m = images_of(paths.drop_last(), virtual_slint, dir, res, acc);
        let p = paths.last();
        if path_is_absolute(p) {
            m
        } else {
            let key = crate::paths::virtual_resource_path_of(virtual_slint, p);
            match bytes_of(res, relative_location(dir, p)) {
                None => m,
                Some(b) => if m.contains_key(key) {
                    m
                } else {
                    m.insert(key, base64_standard(b))
                },
            }
        }
    }
}

/// An image asset is bundled once: a key already among the assets keeps
/// its bytes, however many later references resolve to it.
pub proof fn law_an_image_asset_is_bundled_once(
    paths: Seq<Seq<char>>,
    virtual_slint: Seq<char>,
    dir: Seq<char>,
    res: Seq<Resource>,
    acc: Map<Seq<char>, Seq<char>>,
    key: Seq<char>,
)
    requires
        acc.contains_key(key),
    ensures
        images_of(paths, virtual_slint, dir, res, acc).contains_key(key),
        images_of(paths, virtual_slint, dir, res, acc)[key] == acc[key],
    decreases paths.len(),
{
    if paths.len() > 0 {
        law_an_image_asset_is_bundled_once(paths.drop_last(), virtual_slint, dir, res, acc, key);
    }
}

/// The image assets of all `files`, added to `acc`.
pub open spec fn image_assets_of(
    files: Seq<BundledFile>,
    mapping: Seq<(Seq<char>, Seq<char>)>,
    res: Seq<Resource>,
    acc: Map<Seq<char>, Seq<char>>,
) -> Map<Seq<char>, Seq<char>>
    decreases files.len(),
{
    if files.len() == 0 {
        acc
    } else {
        let m = image_assets_of(files.drop_last(), mapping, res, acc);
        let f = files.last();
        match lookup(mapping, f.path@) {
            None => m,
            Some(v) => images_of(reference_paths(f.source@), v, source_dir_of(f.path@), res, m),
        }
    }
}

/// Every value of `m` is the base64 text of some bytes, and `m` is finite.
pub open spec fn base64_values(m: Map<Seq<char>, Seq<char>>) -> bool {
    &&& m.dom().finite()
    &&& forall|k: Seq<char>| #[trigger] m.contains_key(k) ==> exists|b: Seq<u8>| base64_standard(b) == m[k]
}

proof fn lemma_insert_base64(m: Map<Seq<char>, Seq<char>>, key: Seq<char>, b: Seq<u8>)
    requires
        base64_values(m),
    ensures
        base64_values(m.insert(key, base64_standard(b))),
{
    let n = m.insert(key, base64_standard(b));
    assert forall|k: Seq<char>| #[trigger] n.contains_key(k) implies exists|c: Seq<u8>| base64_standard(c) == n[k] by {
        if k == key {
            assert(base64_standard(b) == n[k]);
        } else {
            assert(m.contains_key(k));
        }
    }
}

proof fn lemma_fonts_base64(
    imports: Seq<Seq<char>>,
    virtual_slint: Seq<char>,
    dir: Seq<char>,
    res: Seq<Resource>,
    acc: Map<Seq<char>, Seq<char>>,
)
    requires
        base64_values(acc),
    ensures
        fonts_of(imports, virtual_slint, dir, res, acc) matches Ok(m) ==> base64_values(m),
    decreases imports.len(),
{
    if imports.len() > 0 {
        lemma_fonts_base64(imports.drop_last(), virtual_slint, dir, res, acc);
        if let Ok(m) = fonts_of(imports.drop_last(), virtual_slint, dir, res, acc) {
            let p = imports.last();
            if let Some(Ok(b)) = read_of(res, font_location(dir, p)) {
                lemma_insert_base64(m, crate::paths::virtual_resource_path_of(virtual_slint, p), b);
            }
        }
    }
}

proof fn lemma_font_assets_base64(
    files: Seq<BundledFile>,
    mapping: Seq<(Seq<char>, Seq<char>)>,
    res: Seq<Resource>,
)
    ensures
        font_assets_of(files, mapping, res) matches Ok(m) ==> base64_values(m),
    decreases files.len(),
{
    if files.len() == 0 {
        assert(Map::<Seq<char>, Seq<char>>::empty().dom() =~= Set::empty());
    } else {
        lemma_font_assets_base64(files.drop_last(), mapping, res);
        if let Ok(m) = font_assets_of(files.drop_last(), mapping, res) {
            let f = files.last();
            if let Some(v) = lookup(mapping, f.path@) {
                lemma_fonts_base64(crate::scan::font_imports(f.source@), v, source_dir_of(f.path@), res, m);
            }
        }
    }
}

proof fn lemma_images_base64(
    paths: Seq<Seq<char>>,
    virtual_slint: Seq<char>,
    dir: Seq<char>,
    res: Seq<Resource>,
    acc: Map<Seq<char>, Seq<char>>,
)
    requires
        base64_values(acc),
    ensures
        base64_values(images_of(paths, virtual_slint, dir, res, acc)),
    decreases paths.len(),
{
    if paths.len() > 0 {
        lemma_images_base64(paths.drop_last(), virtual_slint, dir, res, acc);
        let m = images_of(paths.drop_last(), virtual_slint, dir, res, acc);
        let p = paths.last();
        if let Some(b) = bytes_of(res, relative_location(dir, p)) {
            lemma_insert_base64(m, crate::paths::virtual_resource_path_of(virtual_slint, p), b);
        }
    }
}

proof fn lemma_image_assets_base64(
    files: Seq<BundledFile>,
    mapping: Seq<(Seq<char>, Seq<char>)>,
    res: Seq<Resource>,
    acc: Map<Seq<char>, Seq<char>>,
)
    requires
        base64_values(acc),
    ensures
        base64_values(image_assets_of(files, mapping, res, acc)),
    decreases files.len(),
{
    if files.len() > 0 {
        lemma_image_assets_base64(files.drop_last(), mapping, res, acc);
        let m = image_assets_of(files.drop_last(), mapping, res, acc);
        let f = files.last();
        if let Some(v) = lookup(mapping, f.path@) {
            lemma_images_base64(reference_paths(f.source@), v, source_dir_of(f.path@), res, m);
        }
    }
}

/// The assets of a bundle are base64 texts, finitely many.
pub proof fn lemma_bundle_assets_base64(files: Seq<BundledFile>, main_path: Option<Seq<char>>, res: Seq<Resource>)
    requires
        bundle_of(files, main_path, res) is Ok,
    ensures
        base64_values(bundle_of(files, main_path, res)->Ok_0.2),
{
    let root = crate::paths::common_directory_of(file_paths(files));
    let mapping = mapping_of(files, root);
    lemma_font_assets_base64(files, mapping, res);
    lemma_image_assets_base64(files, mapping, res, font_assets_of(files, mapping, res)->Ok_0);
}

/// Executable [`source_dir_of`].
fn source_dir(path: &str) -> (r: String)
    ensures
        r@ == source_dir_of(path@),
{
    match crate::paths::parent_of(path) {
        Some(d) => d,
        None => string_of(chars_of(path).as_slice()),
    }
}

fn relative_location_exec(dir: &str, p: &str) -> (r: String)
    ensures
        r@ == relative_location(dir@, p@),
{
    match crate::paths::slint_joined(dir, p) {
        Some(j) => j,
        None => join_path(dir, p),
    }
}

/// Add the fonts that `file` imports to `assets`.
fn collect_file_fonts(
    file: &BundledFile,
    virtual_slint: &str,
    resources: &Vec<Resource>,
    assets: &mut crate::strmap::StrMap,
) -> (r: Result<(), String>)
    requires
        old(assets).wf(),
    ensures
        final(assets).wf(),
        match fonts_of(
            crate::scan::font_imports(file.source@),
            virtual_slint@,
            source_dir_of(file.path@),
            resources@,
            old(assets)@,
        ) {
            Ok(m) => r is Ok && final(assets)@ == m,
            Err(e) => r matches Err(msg) && msg@ == e,
        },
{
    let imports = crate::scan::extract_font_imports(file.source.as_str());
    let dir = source_dir(file.path.as_str());
    let ghost start = assets@;
    let ghost all = crate::scan::font_imports(file.source@);
    let mut k: usize = 0;
    while k < imports.len()
        invariant
            imports.len() == all.len(),
            forall|i: int| 0 <= i < imports.len() ==> (#[trigger] imports@[i])@ == all[i],
            dir@ == source_dir_of(file.path@),
            start == old(assets)@,
            all == crate::scan::font_imports(file.source@),
            k <= imports.len(),
            assets.wf(),
            fonts_of(all.take(k as int), virtual_slint@, dir@, resources@, start) == Ok::<
                Map<Seq<char>, Seq<char>>,
                Seq<char>,
            >(assets@),
        decreases imports.len() - k,
    {
        proof {
            assert(all.take(k + 1).drop_last() =~= all.take(k as int));
        }
        let import = imports[k].as_str();
        let loc = if is_absolute(import) {
            string_of(chars_of(import).as_slice())
        } else {
            relative_location_exec(dir.as_str(), import)
        };
        match find_resource(resources, loc.as_str()) {
            Some(i) => match &resources[i].contents {
                Ok(bytes) => {
                    let key = crate::paths::virtual_resource_path(virtual_slint, import);
                    assets.insert(key, base64_encode(bytes.as_slice()));
                },
                Err(e) => {
                    let mut msg = chars_of("Cannot read font ");
                    push_all(&mut msg, chars_of(loc.as_str()).as_slice());
                    push_all(&mut msg, chars_of(": ").as_slice());
                    push_all(&mut msg, chars_of(e.as_str()).as_slice());
                    proof {
                        assert(all.take(k + 1).last() == all[k as int]);
                        assert(loc@ == font_location(dir@, all[k as int]));
                        assert(msg@ =~= font_error(loc@, e@));
                        assert(fonts_of(all.take(k + 1), virtual_slint@, dir@, resources@, start)
                            == Err::<Map<Seq<char>, Seq<char>>, Seq<char>>(font_error(loc@, e@)));
                        lemma_fonts_stuck(all, virtual_slint@, dir@, resources@, start, k + 1);
                    }
                    let out = string_of(msg.as_slice());
                    assert(fonts_of(all, virtual_slint@, dir@, resources@, start) == Err::<
                        Map<Seq<char>, Seq<char>>,
                        Seq<char>,
                    >(out@));
                    assert(start == old(assets)@);
return Err(out);
                },
            },
            None => {
                let mut msg = chars_of("Cannot read font ");
                push_all(&mut msg, chars_of(loc.as_str()).as_slice());
                push_all(&mut msg, chars_of(": ").as_slice());
                push_all(&mut msg, chars_of("it was not read").as_slice());
                proof {
                    assert(all.take(k + 1).last() == all[k as int]);
                    assert(loc@ == font_location(dir@, all[k as int]));
                    assert(msg@ =~= font_error(loc@, not_read()));
                    assert(fonts_of(all.take(k + 1), virtual_slint@, dir@, resources@, start)
                        == Err::<Map<Seq<char>, Seq<char>>, Seq<char>>(font_error(loc@, not_read())));
                    lemma_fonts_stuck(all, virtual_slint@, dir@, resources@, start, k + 1);
                }
                let out = string_of(msg.as_slice());
                assert(fonts_of(all, virtual_slint@, dir@, resources@, start) == Err::<
                    Map<Seq<char>, Seq<char>>,
                    Seq<char>,
                >(out@));
                assert(start == old(assets)@);
                return Err(out);
            },
        }
        k = k + 1;
    }
    assert(all.take(imports.len() as int) =~= all);
    Ok(())
}

/// Once the fold over a prefix of `imports` fails, the whole fold fails the
/// same way.
proof fn lemma_fonts_stuck(
    imports: Seq<Seq<char>>,
    virtual_slint: Seq<char>,
    dir: Seq<char>,
    res: Seq<Resource>,
    acc: Map<Seq<char>, Seq<char>>,
    k: int,
)
    requires
        0 <= k <= imports.len(),
        fonts_of(imports.take(k), virtual_slint, dir, res, acc) is Err,
    ensures
        fonts_of(imports, virtual_slint, dir, res, acc) == fonts_of(
            imports.take(k),
            virtual_slint,
            dir,
            res,
            acc,
        ),
    decreases imports.len() - k,
{
    if k < imports.len() {
        assert(imports.take(k + 1).drop_last() =~= imports.take(k));
        lemma_fonts_stuck(imports, virtual_slint, dir, res, acc, k + 1);
    } else {
        assert(imports.take(k) =~= imports);
    }
}

} // verus!

verus! {

/// The views of the files' paths.
pub open spec fn file_paths(files: Seq<BundledFile>) -> Seq<Seq<char>> {
    files.map_values(|f: BundledFile| f.path@)
}

/// Every font that the mapped `files` import, read and base64-encoded
/// under its virtual path; the first font that cannot be read is an error.
pub fn collect_font_assets(
    files: &Vec<BundledFile>,
    mapping: &Vec<(String, String)>,
    resources: &Vec<Resource>,
) -> (r: Result<crate::strmap::StrMap, String>)
    ensures
        match font_assets_of(files@, pair_views(mapping@), resources@) {
            Ok(m) => r matches Ok(a) && a.wf() && a@ == m,
            Err(e) => r matches Err(msg) && msg@ == e,
        },
{
    let mut assets = crate::strmap::StrMap::new();
    let mut i: usize = 0;
    while i < files.len()
        invariant
            i <= files.len(),
            assets.wf(),
            font_assets_of(files@.take(i as int), pair_views(mapping@), resources@) == Ok::<
                Map<Seq<char>, Seq<char>>,
                Seq<char>,
            >(assets@),
        decreases files.len() - i,
    {
        proof {
            assert(files@.take(i + 1).drop_last() =~= files@.take(i as int));
        }
        let file = &files[i];
        match lookup_mapping(mapping, file.path.as_str()) {
            None => {},
            Some(virtual_slint) => {
                match collect_file_fonts(file, virtual_slint.as_str(), resources, &mut assets) {
                    Ok(()) => {},
                    Err(e) => {
                        proof {
                            lemma_font_assets_stuck(files@, pair_views(mapping@), resources@, i + 1);
                        }
                        return Err(e);
                    },
                }
            },
        }
        i = i + 1;
    }
    assert(files@.take(files.len() as int) =~= files@);
    Ok(assets)
}

proof fn lemma_font_assets_stuck(
    files: Seq<BundledFile>,
    mapping: Seq<(Seq<char>, Seq<char>)>,
    res: Seq<Resource>,
    k: int,
)
    requires
        0 <= k <= files.len(),
        font_assets_of(files.take(k), mapping, res) is Err,
    ensures
        font_assets_of(files, mapping, res) == font_assets_of(files.take(k), mapping, res),
    decreases files.len() - k,
{
    if k < files.len() {
        assert(files.take(k + 1).drop_last() =~= files.take(k));
        lemma_font_assets_stuck(files, mapping, res, k + 1);
    } else {
        assert(files.take(k) =~= files);
    }
}

/// Add the relative images that `file` references to `assets`, each once.
fn collect_file_images(
    file: &BundledFile,
    virtual_slint: &str,
    resources: &Vec<Resource>,
    assets: &mut crate::strmap::StrMap,
)
    requires
        old(assets).wf(),
    ensures
        final(assets).wf(),
        final(assets)@ == images_of(
            reference_paths(file.source@),
            virtual_slint@,
            source_dir_of(file.path@),
            resources@,
            old(assets)@,
        ),
{
    let s = chars_of(file.source.as_str());
    let ranges = char_ranges(s.as_slice());
    let dir = source_dir(file.path.as_str());
    let ghost start = assets@;
    let ghost all = reference_paths(file.source@);
    proof {
        lemma_url_ranges_ordered(s@, 0);
    }
    let mut k: usize = 0;
    while k < ranges.len()
        invariant
            s@ == file.source@,
            all == reference_paths(file.source@),
            start == old(assets)@,
            dir@ == source_dir_of(file.path@),
            ranges@.len() == url_ranges(s@).len(),
            forall|i: int|
                0 <= i < ranges@.len() ==> (#[trigger] ranges@[i]).0 as int == url_ranges(s@)[i].0
                    && ranges@[i].1 as int == url_ranges(s@)[i].1,
            crate::scan::ordered_ranges(url_ranges(s@), 0, s@.len() as int),
            k <= ranges.len(),
            assets.wf(),
            images_of(all.take(k as int), virtual_slint@, dir@, resources@, start) == assets@,
        decreases ranges.len() - k,
    {
        proof {
            assert(all.take(k + 1).drop_last() =~= all.take(k as int));
            assert(all.take(k + 1).last() == all[k as int]);
        }
        let (a, b) = ranges[k];
        assert(url_ranges(s@)[k as int].0 <= url_ranges(s@)[k as int].1 <= s@.len());
        let path = string_of(slice_chars(s.as_slice(), a, b).as_slice());
        if !is_absolute(path.as_str()) {
            let key = crate::paths::virtual_resource_path(virtual_slint, path.as_str());
            let loc = relative_location_exec(dir.as_str(), path.as_str());
            match read_bytes(resources, loc.as_str()) {
                None => {},
                Some(bytes) => {
                    if !assets.contains_key(key.as_str()) {
                        assets.insert(key, base64_encode(bytes.as_slice()));
                    }
                },
            }
        }
        k = k + 1;
    }
    assert(all.take(ranges.len() as int) =~= all);
}

/// Where an image reference `p` of a file in `dir` is read from: `p`
/// itself when it is absolute, else resolved against `dir`.
pub open spec fn image_location(dir: Seq<char>, p: Seq<char>) -> Seq<char> {
    if path_is_absolute(p) {
        p
    } else {
        relative_location(dir, p)
    }
}

/// The files one bundled file needs read: its font imports, then its image
/// references, each where it is read from.
pub open spec fn locations_of(f: BundledFile) -> Seq<Seq<char>> {
    let dir = source_dir_of(f.path@);
    crate::scan::font_imports(f.source@).map_values(|p: Seq<char>| font_location(dir, p))
        + reference_paths(f.source@).map_values(|p: Seq<char>| image_location(dir, p))
}

/// The files all of `files` need read, file after file.
pub open spec fn all_locations(files: Seq<BundledFile>) -> Seq<Seq<char>>
    decreases files.len(),
{
    if files.len() == 0 {
        seq![]
    } else {
        all_locations(files.drop_last()) + locations_of(files.last())
    }
}

fn file_locations(file: &BundledFile, out: &mut Vec<String>)
    ensures
        crate::paths::views(final(out)@) == crate::paths::views(old(out)@) + locations_of(*file),
{
    let dir = source_dir(file.path.as_str());
    let imports = crate::scan::extract_font_imports(file.source.as_str());
    let ghost start = crate::paths::views(out@);
    let ghost fonts = crate::scan::font_imports(file.source@).map_values(|p: Seq<char>| font_location(dir@, p));
    let mut k: usize = 0;
    while k < imports.len()
        invariant
            dir@ == source_dir_of(file.path@),
            imports.len() == crate::scan::font_imports(file.source@).len(),
            forall|i: int| 0 <= i < imports.len() ==> (#[trigger] imports@[i])@ == crate::scan::font_imports(file.source@)[i],
            fonts == crate::scan::font_imports(file.source@).map_values(|p: Seq<char>| font_location(dir@, p)),
            k <= imports.len(),
            crate::paths::views(out@) == start + fonts.take(k as int),
        decreases imports.len() - k,
    {
        let import = imports[k].as_str();
        let loc = if is_absolute(import) {
            string_of(chars_of(import).as_slice())
        } else {
            relative_location_exec(dir.as_str(), import)
        };
        let ghost before = out@;
        out.push(loc);
        assert(crate::paths::views(out@) =~= crate::paths::views(before).push(loc@));
        k = k + 1;
        assert(fonts.take(k as int) =~= fonts.take(k - 1).push(fonts[k - 1]));
    }
    assert(fonts.take(imports.len() as int) =~= fonts);
    let s = chars_of(file.source.as_str());
    let ranges = char_ranges(s.as_slice());
    let ghost middle = crate::paths::views(out@);
    let ghost images = reference_paths(file.source@).map_values(|p: Seq<char>| image_location(dir@, p));
    proof {
        lemma_url_ranges_ordered(s@, 0);
    }
    let mut k: usize = 0;
    while k < ranges.len()
        invariant
            s@ == file.source@,
            dir@ == source_dir_of(file.path@),
            images == reference_paths(file.source@).map_values(|p: Seq<char>| image_location(dir@, p)),
            ranges@.len() == url_ranges(s@).len(),
            forall|i: int|
                0 <= i < ranges@.len() ==> (#[trigger] ranges@[i]).0 as int == url_ranges(s@)[i].0
                    && ranges@[i].1 as int == url_ranges(s@)[i].1,
            crate::scan::ordered_ranges(url_ranges(s@), 0, s@.len() as int),
            k <= ranges.len(),
            crate::paths::views(out@) == middle + images.take(k as int),
        decreases ranges.len() - k,
    {
        let (a, b) = ranges[k];
        assert(url_ranges(s@)[k as int].0 <= url_ranges(s@)[k as int].1 <= s@.len());
        let path = string_of(slice_chars(s.as_slice(), a, b).as_slice());
        assert(path@ == reference_paths(file.source@)[k as int]);
        let loc = if is_absolute(path.as_str()) {
            path
        } else {
            relative_location_exec(dir.as_str(), path.as_str())
        };
        let ghost before = out@;
        out.push(loc);
        assert(crate::paths::views(out@) =~= crate::paths::views(before).push(loc@));
        k = k + 1;
        assert(images.take(k as int) =~= images.take(k - 1).push(images[k - 1]));
    }
    assert(images.take(ranges.len() as int) =~= images);
    assert(crate::paths::views(out@) =~= start + locations_of(*file));
}

/// The files to read before bundling `files`: every font each imports and
/// every image each references, where it is read from (see
/// [`all_locations`]); `bundle_module` needs nothing else read.
pub fn resource_locations(files: &Vec<BundledFile>) -> (r: Vec<String>)
    ensures
        crate::paths::views(r@) == all_locations(files@),
{
    let mut out: Vec<String> = Vec::new();
    let mut i: usize = 0;
    while i < files.len()
        invariant
            i <= files.len(),
            crate::paths::views(out@) == all_locations(files@.take(i as int)),
        decreases files.len() - i,
    {
        proof {
            assert(files@.take(i + 1).drop_last() =~= files@.take(i as int));
        }
        file_locations(&files[i], &mut out);
        i = i + 1;
    }
    assert(files@.take(files.len() as int) =~= files@);
    out
}

/// Every relative image the mapped `files` reference, read and
/// base64-encoded under its virtual path, added to `assets` unless its key
/// is already there.
pub fn collect_image_assets(
    files: &Vec<BundledFile>,
    mapping: &Vec<(String, String)>,
    resources: &Vec<Resource>,
    assets: &mut crate::strmap::StrMap,
)
    requires
        old(assets).wf(),
    ensures
        final(assets).wf(),
        final(assets)@ == image_assets_of(files@, pair_views(mapping@), resources@, old(assets)@),
{
    let ghost start = assets@;
    let mut i: usize = 0;
    while i < files.len()
        invariant
            i <= files.len(),
            start == old(assets)@,
            assets.wf(),
            image_assets_of(files@.take(i as int), pair_views(mapping@), resources@, start)
                == assets@,
        decreases files.len() - i,
    {
        proof {
            assert(files@.take(i + 1).drop_last() =~= files@.take(i as int));
        }
        let file = &files[i];
        match lookup_mapping(mapping, file.path.as_str()) {
            None => {},
            Some(virtual_slint) => {
                collect_file_images(file, virtual_slint.as_str(), resources, assets);
            },
        }
        i = i + 1;
    }
    assert(files@.take(files.len() as int) =~= files@);
}

} // verus!

verus! {

/// Each file's path paired with its virtual path under the shared `root`.
pub open spec fn mapping_of(files: Seq<BundledFile>, root: Seq<char>) -> Seq<(Seq<char>, Seq<char>)> {
    files.map_values(|f: BundledFile| (f.path@, crate::paths::virtual_path_of(f.path@, root)))
}

/// What each file contributes to the module: its imports rewritten and its
/// absolute images inlined, under its virtual path; a later file with the
/// same virtual path replaces an earlier one.
pub open spec fn bundled_sources_of(
    files: Seq<BundledFile>,
    root: Seq<char>,
    mapping: Seq<(Seq<char>, Seq<char>)>,
    res: Seq<Resource>,
) -> Map<Seq<char>, Seq<char>>
    decreases files.len(),
{
    if files.len() == 0 {
        Map::empty()
    } else {
        let f = files.last();
        bundled_sources_of(files.drop_last(), root, mapping, res).insert(
            crate::paths::virtual_path_of(f.path@, root),
            inline_absolute_of(rewrite_imports_of(f.source@, pair_views(f.imports@), mapping), res),
        )
    }
}

/// The message when nothing was compiled.
pub open spec fn no_files_error() -> Seq<char> {
    "The Slint compiler produced no files to embed"@
}

/// The message when the main document has no path.
pub open spec fn no_main_path_error() -> Seq<char> {
    "Cannot determine the path of the main Slint file"@
}

/// The message when the main document is not among the bundled files.
pub open spec fn main_not_bundled_error() -> Seq<char> {
    "The main Slint file was not bundled"@
}

/// What a module holds: the virtual path of the main file, the bundled
/// sources, and the assets.
pub open spec fn bundle_of(
    files: Seq<BundledFile>,
    main_path: Option<Seq<char>>,
    res: Seq<Resource>,
) -> Result<(Seq<char>, Map<Seq<char>, Seq<char>>, Map<Seq<char>, Seq<char>>), Seq<char>> {
    if files.len() == 0 {
        Err(no_files_error())
    } else {
        let root = crate::paths::common_directory_of(file_paths(files));
        let mapping = mapping_of(files, root);
        match main_path {
            None => Err(no_main_path_error()),
            Some(mp) => match lookup(mapping, mp) {
                None => Err(main_not_bundled_error()),
                Some(main) => match font_assets_of(files, mapping, res) {
                    Err(e) => Err(e),
                    Ok(fonts) => Ok(
                        (
                            main,
                            bundled_sources_of(files, root, mapping, res),
                            image_assets_of(files, mapping, res, fonts),
                        ),
                    ),
                },
            },
        }
    }
}

/// `j` is a JSON object whose members are exactly the entries of `m`, each
/// value a string.
pub open spec fn is_string_object(j: crate::json::JsonValue, m: Map<Seq<char>, Seq<char>>) -> bool {
    match j {
        crate::json::JsonValue::Object(e) => {
            &&& e.len() == m.len()
            &&& forall|i: int|
                0 <= i < e.len() ==> ((#[trigger] e[i]).1 matches crate::json::JsonValue::String(v)
                    && m.contains_key(e[i].0@) && m[e[i].0@] == v@)
            &&& forall|i: int, k: int|
                0 <= i < k < e.len() ==> (#[trigger] e[i]).0@ != (#[trigger] e[k]).0@
            &&& forall|key: Seq<char>|
                #[trigger] m.contains_key(key) ==> exists|i: int| 0 <= i < e.len() && (#[trigger] e[i]).0@ == key
        },
        _ => false,
    }
}

/// The members of `map` as a JSON object of strings.
pub fn string_object(map: &crate::strmap::StrMap) -> (j: crate::json::JsonValue)
    requires
        map.wf(),
    ensures
        is_string_object(j, map@),
{
    proof {
        crate::strmap::lemma_map_of(map.entries@);
    }
    let mut out: Vec<(String, crate::json::JsonValue)> = Vec::new();
    let mut i: usize = 0;
    while i < map.entries.len()
        invariant
            map.wf(),
            i <= map.entries.len(),
            out.len() == i,
            forall|k: int|
                0 <= k < i ==> (#[trigger] out@[k]).0@ == map.entries@[k].0@ && (out@[k].1
                    matches crate::json::JsonValue::String(v) && v@ == map.entries@[k].1@),
        decreases map.entries.len() - i,
    {
        let key = map.entries[i].0.clone();
        let value = map.entries[i].1.clone();
        out.push((key, crate::json::JsonValue::String(value)));
        i = i + 1;
    }
    proof {
        assert forall|a: int, b: int| 0 <= a < b < out.len() implies (#[trigger] out@[a]).0@ != (
        #[trigger] out@[b]).0@ by {
            assert(map.entries@[a].0@ != map.entries@[b].0@);
        }
        assert forall|key: Seq<char>| #[trigger] map@.contains_key(key) implies exists|k: int|
            0 <= k < out.len() && (#[trigger] out@[k]).0@ == key by {
            let k = choose|k: int| 0 <= k < map.entries@.len() && (#[trigger] map.entries@[k]).0@ == key;
            assert(out@[k].0@ == key);
        }
    }
    crate::json::JsonValue::Object(out)
}

/// `j` is the module: version 1, the style (or null), the virtual path of
/// the main file, the bundled sources, and the assets when there are any.
pub open spec fn module_json(
    j: crate::json::JsonValue,
    main: Seq<char>,
    style: Option<Seq<char>>,
    files: Map<Seq<char>, Seq<char>>,
    assets: Map<Seq<char>, Seq<char>>,
) -> bool {
    match j {
        crate::json::JsonValue::Object(e) => {
            &&& e.len() == if assets.len() == 0 { 4int } else { 5int }
            &&& e[0].0@ == "v"@
            &&& e[0].1 == crate::json::JsonValue::Number(crate::json::JsonNumber::Unsigned(1))
            &&& e[1].0@ == "style"@
            &&& match style {
                None => e[1].1 is Null,
                Some(s) => e[1].1 matches crate::json::JsonValue::String(t) && t@ == s,
            }
            &&& e[2].0@ == "main"@
            &&& e[2].1 matches crate::json::JsonValue::String(t) && t@ == main
            &&& e[3].0@ == "files"@
            &&& is_string_object(e[3].1, files)
            &&& assets.len() > 0 ==> e[4].0@ == "assets"@ && is_string_object(e[4].1, assets)
        },
        _ => false,
    }
}

/// The directory the `files` share and each file's virtual path under it.
fn file_mapping(files: &Vec<BundledFile>) -> (r: (String, Vec<(String, String)>))
    ensures
        r.0@ == crate::paths::common_directory_of(file_paths(files@)),
        pair_views(r.1@) == mapping_of(files@, r.0@),
{
    let mut paths: Vec<String> = Vec::new();
    let mut i: usize = 0;
    while i < files.len()
        invariant
            i <= files.len(),
            crate::paths::views(paths@) == file_paths(files@).take(i as int),
        decreases files.len() - i,
    {
        let p = files[i].path.clone();
        assert(p@ == files@[i as int].path@);
        let ghost before = paths@;
        paths.push(p);
        assert(crate::paths::views(paths@) =~= crate::paths::views(before).push(p@));
        assert(file_paths(files@).take(i + 1) =~= file_paths(files@).take(i as int).push(p@));
        i = i + 1;
        assert(crate::paths::views(paths@) =~= file_paths(files@).take(i as int));
    }
    assert(file_paths(files@).take(files.len() as int) =~= file_paths(files@));
    let root = crate::paths::common_directory(&paths);
    let mut mapping: Vec<(String, String)> = Vec::new();
    let mut i: usize = 0;
    while i < files.len()
        invariant
            i <= files.len(),
            pair_views(mapping@) == mapping_of(files@, root@).take(i as int),
        decreases files.len() - i,
    {
        let v = crate::paths::virtual_path(files[i].path.as_str(), root.as_str());
        let p = files[i].path.clone();
        assert(p@ == files@[i as int].path@);
        let ghost before = mapping@;
        mapping.push((p, v));
        assert(pair_views(mapping@) =~= pair_views(before).push((p@, v@)));
        assert(mapping_of(files@, root@).take(i + 1) =~= mapping_of(files@, root@).take(i as int).push((p@, v@)));
        i = i + 1;
        assert(pair_views(mapping@) =~= mapping_of(files@, root@).take(i as int));
    }
    assert(mapping_of(files@, root@).take(files.len() as int) =~= mapping_of(files@, root@));
    (root, mapping)
}

/// Pack the compiled `.slint` files into the module a generated wrapper
/// embeds, as a JSON value (see [`bundle_of`] and [`module_json`]).
/// `main_path` is the cleaned path of the main document, if it has one;
/// `resources` holds what the images and fonts that the files reference
/// held when read.
pub fn bundle_module(
    files: &Vec<BundledFile>,
    main_path: Option<&str>,
    style: Option<&str>,
    resources: &Vec<Resource>,
) -> (r: Result<crate::json::JsonValue, String>)
    ensures
        match bundle_of(
            files@,
            match main_path {
                Some(p) => Some(p@),
                None => None,
            },
            resources@,
        ) {
            Ok((main, sources, assets)) => r matches Ok(j) && module_json(
                j,
                main,
                match style {
                    Some(s) => Some(s@),
                    None => None,
                },
                sources,
                assets,
            ),
            Err(e) => r matches Err(msg) && msg@ == e,
        },
{
    if files.len() == 0 {
        return Err(string_of(chars_of("The Slint compiler produced no files to embed").as_slice()));
    }
    let (root, mapping) = file_mapping(files);
    let mut bundled = crate::strmap::StrMap::new();
    let mut i: usize = 0;
    while i < files.len()
        invariant
            i <= files.len(),
            pair_views(mapping@) == mapping_of(files@, root@),
            bundled.wf(),
            bundled@ == bundled_sources_of(files@.take(i as int), root@, pair_views(mapping@), resources@),
        decreases files.len() - i,
    {
        proof {
            assert(files@.take(i + 1).drop_last() =~= files@.take(i as int));
        }
        let file = &files[i];
        let virtual_url = crate::paths::virtual_path(file.path.as_str(), root.as_str());
        let source = rewrite_imports(file.source.as_str(), &file.imports, &mapping);
        let source = inline_absolute_image_urls(source.as_str(), resources);
        bundled.insert(virtual_url, source);
        i = i + 1;
    }
    assert(files@.take(files.len() as int) =~= files@);
    let main_path = match main_path {
        Some(p) => p,
        None => {
            return Err(
                string_of(chars_of("Cannot determine the path of the main Slint file").as_slice()),
            )
        },
    };
    let main = match lookup_mapping(&mapping, main_path) {
        Some(m) => m,
        None => {
            return Err(string_of(chars_of("The main Slint file was not bundled").as_slice()))
        },
    };
    let mut assets = match collect_font_assets(files, &mapping, resources) {
        Ok(a) => a,
        Err(e) => return Err(e),
    };
    collect_image_assets(files, &mapping, resources, &mut assets);
    let style_value = match style {
        Some(s) => crate::json::JsonValue::String(string_of(chars_of(s).as_slice())),
        None => crate::json::JsonValue::Null,
    };
    let mut members: Vec<(String, crate::json::JsonValue)> = Vec::new();
    members.push(
        (
            string_of(chars_of("v").as_slice()),
            crate::json::JsonValue::Number(crate::json::JsonNumber::Unsigned(1)),
        ),
    );
    members.push((string_of(chars_of("style").as_slice()), style_value));
    members.push((string_of(chars_of("main").as_slice()), crate::json::JsonValue::String(main)));
    members.push((string_of(chars_of("files").as_slice()), string_object(&bundled)));
    proof {
        crate::strmap::lemma_map_of(assets.entries@);
    }
    if assets.entries.len() > 0 {
        members.push((string_of(chars_of("assets").as_slice()), string_object(&assets)));
    }
    Ok(crate::json::JsonValue::Object(members))
}

} // verus!

verus! {

/// What each file contributes when every image is inlined: its imports
/// rewritten and each image reference that could be read replaced by a
/// data URI, under its virtual path; a later file with the same virtual path
/// replaces an earlier one.
pub open spec fn inlined_sources_of(
    files: Seq<BundledFile>,
    root: Seq<char>,
    mapping: Seq<(Seq<char>, Seq<char>)>,
    res: Seq<Resource>,
) -> Map<Seq<char>, Seq<char>>
    decreases files.len(),
{
    if files.len() == 0 {
        Map::empty()
    } else {
        let f = files.last();
        inlined_sources_of(files.drop_last(), root, mapping, res).insert(
            crate::paths::virtual_path_of(f.path@, root),
            rewrite_image_urls_of(rewrite_imports_of(f.source@, pair_views(f.imports@), mapping), source_dir_of(f.path@), res),
        )
    }
}

/// What a module with every image inlined holds: the virtual path of the
/// main file and the bundled sources.
pub open spec fn inlined_bundle_of(
    files: Seq<BundledFile>,
    main_path: Option<Seq<char>>,
    res: Seq<Resource>,
) -> Result<(Seq<char>, Map<Seq<char>, Seq<char>>), Seq<char>> {
    if files.len() == 0 {
        Err(no_files_error())
    } else {
        let root = crate::paths::common_directory_of(file_paths(files));
        let mapping = mapping_of(files, root);
        match main_path {
            None => Err(no_main_path_error()),
            Some(mp) => match lookup(mapping, mp) {
                None => Err(main_not_bundled_error()),
                Some(main) => Ok((main, inlined_sources_of(files, root, mapping, res))),
            },
        }
    }
}

/// Pack the compiled `.slint` files into a module with every image that
/// could be read inlined as a data URI, and no assets (see
/// [`inlined_bundle_of`]). `resources` holds what the images held when
/// read, each at the path it resolves to (absolute as written, relative
/// joined to the directory of the file that references it).
pub fn bundle_module_inlined(
    files: &Vec<BundledFile>,
    main_path: Option<&str>,
    style: Option<&str>,
    resources: &Vec<Resource>,
) -> (r: Result<crate::json::JsonValue, String>)
    ensures
        match inlined_bundle_of(
            files@,
            match main_path {
                Some(p) => Some(p@),
                None => None,
            },
            resources@,
        ) {
            Ok((main, sources)) => r matches Ok(j) && module_json(
                j,
                main,
                match style {
                    Some(s) => Some(s@),
                    None => None,
                },
                sources,
                Map::empty(),
            ),
            Err(e) => r matches Err(msg) && msg@ == e,
        },
{
    if files.len() == 0 {
        return Err(string_of(chars_of("The Slint compiler produced no files to embed").as_slice()));
    }
    let (root, mapping) = file_mapping(files);
    let mut bundled = crate::strmap::StrMap::new();
    let mut i: usize = 0;
    while i < files.len()
        invariant
            i <= files.len(),
            pair_views(mapping@) == mapping_of(files@, root@),
            bundled.wf(),
            bundled@ == inlined_sources_of(files@.take(i as int), root@, pair_views(mapping@), resources@),
        decreases files.len() - i,
    {
        proof {
            assert(files@.take(i + 1).drop_last() =~= files@.take(i as int));
        }
        let file = &files[i];
        let virtual_url = crate::paths::virtual_path(file.path.as_str(), root.as_str());
        let source = rewrite_imports(file.source.as_str(), &file.imports, &mapping);
        let dir = source_dir(file.path.as_str());
        let source = rewrite_image_urls(source.as_str(), dir.as_str(), resources);
        bundled.insert(virtual_url, source);
        i = i + 1;
    }
    assert(files@.take(files.len() as int) =~= files@);
    let main_path = match main_path {
        Some(p) => p,
        None => {
            return Err(
                string_of(chars_of("Cannot determine the path of the main Slint file").as_slice()),
            )
        },
    };
    let main = match lookup_mapping(&mapping, main_path) {
        Some(m) => m,
        None => {
            return Err(string_of(chars_of("The main Slint file was not bundled").as_slice()))
        },
    };
    let style_value = match style {
        Some(s) => crate::json::JsonValue::String(string_of(chars_of(s).as_slice())),
        None => crate::json::JsonValue::Null,
    };
    let mut members: Vec<(String, crate::json::JsonValue)> = Vec::new();
    members.push(
        (
            string_of(chars_of("v").as_slice()),
            crate::json::JsonValue::Number(crate::json::JsonNumber::Unsigned(1)),
        ),
    );
    members.push((string_of(chars_of("style").as_slice()), style_value));
    members.push((string_of(chars_of("main").as_slice()), crate::json::JsonValue::String(main)));
    members.push((string_of(chars_of("files").as_slice()), string_object(&bundled)));
    Ok(crate::json::JsonValue::Object(members))
}

} // verus!

verus! {

/// A virtual path has no backslash: normalizing its slashes keeps it.
pub proof fn lemma_virtual_path_normalized(file: Seq<char>, root: Seq<char>)
    ensures
        crate::paths::forward_slashes(crate::paths::virtual_path_of(file, root)) == crate::paths::virtual_path_of(file, root),
{
    let v = crate::paths::virtual_path_of(file, root);
    let w = crate::paths::forward_slashes(v);
    assert forall|i: int| 0 <= i < v.len() implies w[i] == v[i] by {
        let n = crate::paths::virtual_root().len() + 1;
        if i >= n {
            let relative = match crate::paths::diff_paths(file, root) {
                Some(r) => r,
                None => match crate::paths::path_file_name(file) {
                    Some(n) => n,
                    None => crate::paths::default_component_file(),
                },
            };
            assert(v[i] == crate::paths::forward_slashes(relative)[i - n]);
        }
    }
    assert(w =~= v);
}

/// The virtual path a real path maps to is the virtual path of one of the
/// files.
pub proof fn lemma_lookup_is_a_virtual_path(files: Seq<BundledFile>, root: Seq<char>, p: Seq<char>, i: int)
    requires
        0 <= i,
        lookup_from(mapping_of(files, root), p, i) is Some,
    ensures
        exists|k: int| 0 <= k < files.len() && lookup_from(mapping_of(files, root), p, i)->0 == crate::paths::virtual_path_of(
            (#[trigger] files[k]).path@,
            root,
        ),
    decreases files.len() - i,
{
    let mapping = mapping_of(files, root);
    if !crate::paths::path_eq(mapping[i].0, p) {
        lemma_lookup_is_a_virtual_path(files, root, p, i + 1);
    } else {
        assert(mapping[i].1 == crate::paths::virtual_path_of(files[i].path@, root));
    }
}

/// The bundled sources are keyed by the virtual paths of the files, every
/// one of them.
pub proof fn lemma_bundled_keys(
    files: Seq<BundledFile>,
    root: Seq<char>,
    mapping: Seq<(Seq<char>, Seq<char>)>,
    res: Seq<Resource>,
)
    ensures
        forall|k: int| 0 <= k < files.len() ==> bundled_sources_of(files, root, mapping, res).contains_key(
            crate::paths::virtual_path_of((#[trigger] files[k]).path@, root),
        ),
        forall|key: Seq<char>| #[trigger] bundled_sources_of(files, root, mapping, res).contains_key(key) ==> exists|k: int|
            0 <= k < files.len() && key == crate::paths::virtual_path_of((#[trigger] files[k]).path@, root),
    decreases files.len(),
{
    if files.len() > 0 {
        let rest = files.drop_last();
        lemma_bundled_keys(rest, root, mapping, res);
        assert forall|k: int| 0 <= k < files.len() implies bundled_sources_of(files, root, mapping, res).contains_key(
            crate::paths::virtual_path_of((#[trigger] files[k]).path@, root),
        ) by {
            if k < files.len() - 1 {
                assert(files[k] == rest[k]);
            }
        }
        assert forall|key: Seq<char>| #[trigger] bundled_sources_of(files, root, mapping, res).contains_key(key) implies exists|k: int|
            0 <= k < files.len() && key == crate::paths::virtual_path_of((#[trigger] files[k]).path@, root) by {
            if key != crate::paths::virtual_path_of(files.last().path@, root) {
                assert(bundled_sources_of(rest, root, mapping, res).contains_key(key));
                let k = choose|k: int| 0 <= k < rest.len() && key == crate::paths::virtual_path_of((#[trigger] rest[k]).path@, root);
                assert(files[k] == rest[k]);
            } else {
                assert(files[files.len() - 1] == files.last());
            }
        }
    }
}

} // verus!
