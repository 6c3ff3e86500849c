//! Scanning `.slint` source text for `@image-url(...)` references and font
//! imports.

use vstd::prelude::*;

use crate::text::{
    ascii_lowercase, ends_with, ends_with_exec, to_ascii_lowercase, trim, trim_chars,
    byte_offset, byte_offsets, chars_of, find_char_from, find_from, find_seq, fits_usize, lemma_find_from_found,
    lemma_skip_ws, skip_ws, skip_ws_exec, slice_chars, starts_with, starts_with_exec, string_of,
};

verus! {

/// The keyword that introduces an image reference.
pub open spec fn image_url_keyword() -> Seq<char> {
    seq!['@', 'i', 'm', 'a', 'g', 'e', '-', 'u', 'r', 'l']
}

pub open spec fn data_scheme() -> Seq<char> {
    seq!['d', 'a', 't', 'a', ':']
}

pub open spec fn builtin_scheme() -> Seq<char> {
    seq!['b', 'u', 'i', 'l', 't', 'i', 'n', ':']
}

/// A referenced path that needs embedding: not a `data:` URI and not a
/// `builtin:` resource.
pub open spec fn needs_embedding(path: Seq<char>) -> bool {
    !starts_with(path, data_scheme()) && !starts_with(path, builtin_scheme())
}

/// The quote characters an `@image-url` argument may use.
pub open spec fn is_quote(c: char) -> bool {
    c == '"' || c == '\''
}

/// The character ranges `(start, end)` of the quoted paths of every
/// `@image-url(...)` reference that needs embedding, scanning `s` left to
/// right from index `from`. A reference is the keyword, optional whitespace,
/// `(`, optional whitespace, and a string in `"` or `'` quotes. A keyword not
/// followed by `(` is skipped; one followed by a character other than a quote
/// is skipped past that character; an argument that is missing or never
/// closed ends the scan.
pub open spec fn url_ranges_from(s: Seq<char>, from: int) -> Seq<(int, int)>
    decreases s.len() + 1 - from,
{
    if from < 0 || from > s.len() {
        seq![]
    } else {
        match find_from(s, image_url_keyword(), from) {
            None => seq![],
            Some(start) => {
                proof {
                    lemma_find_from_found(s, image_url_keyword(), from);
                }
                let after_name = start + 10;
                let p = skip_ws(s, after_name);
                proof {
                    lemma_skip_ws(s, after_name);
                }
                if p >= s.len() || s[p] != '(' {
                    url_ranges_from(s, after_name)
                } else {
                    let q = skip_ws(s, p + 1);
                    proof {
                        lemma_skip_ws(s, p + 1);
                    }
                    if q >= s.len() {
                        seq![]
                    } else if !is_quote(s[q]) {
                        url_ranges_from(s, q + 1)
                    } else {
                        match find_char_from(s, s[q], q + 1) {
                            None => seq![],
                            Some(e) => {
                                proof {
                                    lemma_find_from_found(s, seq![s[q]], q + 1);
                                }
                                let rest = url_ranges_from(s, e + 1);
                                if needs_embedding(s.subrange(q + 1, e)) {
                                    seq![(q + 1, e)] + rest
                                } else {
                                    rest
                                }
                            },
                        }
                    }
                }
            },
        }
    }
}

/// The ranges found in all of `s`.
pub open spec fn url_ranges(s: Seq<char>) -> Seq<(int, int)> {
    url_ranges_from(s, 0)
}

/// Ranges that lie in `[lo, hi]`, in increasing order, and do not overlap.
pub open spec fn ordered_ranges(r: Seq<(int, int)>, lo: int, hi: int) -> bool {
    &&& forall|i: int| 0 <= i < r.len() ==> lo <= (#[trigger] r[i]).0 <= r[i].1 <= hi
    &&& forall|i: int, j: int| 0 <= i < j < r.len() ==> (#[trigger] r[i]).1 < (#[trigger] r[j]).0
}

/// Every range found from `from` lies in `[from, s.len()]`; the ranges are
/// increasing and disjoint.
pub proof fn lemma_url_ranges_ordered(s: Seq<char>, from: int)
    requires
        0 <= from <= s.len(),
    ensures
        ordered_ranges(url_ranges_from(s, from), from, s.len() as int),
    decreases s.len() + 1 - from,
{
    match find_from(s, image_url_keyword(), from) {
        None => {},
        Some(start) => {
            lemma_find_from_found(s, image_url_keyword(), from);
            let after_name = start + 10;
            let p = skip_ws(s, after_name);
            lemma_skip_ws(s, after_name);
            if p >= s.len() || s[p] != '(' {
                lemma_url_ranges_ordered(s, after_name);
            } else {
                let q = skip_ws(s, p + 1);
                lemma_skip_ws(s, p + 1);
                if q >= s.len() {
                } else if !is_quote(s[q]) {
                    lemma_url_ranges_ordered(s, q + 1);
                } else {
                    match find_char_from(s, s[q], q + 1) {
                        None => {},
                        Some(e) => {
                            lemma_find_from_found(s, seq![s[q]], q + 1);
                            lemma_url_ranges_ordered(s, e + 1);
                            let rest = url_ranges_from(s, e + 1);
                            if needs_embedding(s.subrange(q + 1, e)) {
                                let all = seq![(q + 1, e)] + rest;
                                assert(all == url_ranges_from(s, from));
                                assert forall|i: int, j: int| 0 <= i < j < all.len() implies (
                                #[trigger] all[i]).1 < (#[trigger] all[j]).0 by {
                                    if i == 0 {
                                        assert(all[j] == rest[j - 1]);
                                    } else {
                                        assert(all[i] == rest[i - 1]);
                                        assert(all[j] == rest[j - 1]);
                                    }
                                }
                                assert forall|i: int| 0 <= i < all.len() implies from <= (
                                #[trigger] all[i]).0 <= all[i].1 <= s.len() by {
                                    if i > 0 {
                                        assert(all[i] == rest[i - 1]);
                                    }
                                }
                            }
                        },
                    }
                }
            }
        },
    }
}

/// One `@image-url("…")` reference: the byte range of the quoted path within
/// the scanned source, and the path itself.
#[derive(Debug, PartialEq)]
pub struct ImageUrl {
    pub start: usize,
    pub end: usize,
    pub path: String,
}

/// The reference that the character range `r` of `s` describes.
pub open spec fn describes(u: ImageUrl, s: Seq<char>, r: (int, int)) -> bool {
    &&& u.start == byte_offset(s, r.0)
    &&& u.end == byte_offset(s, r.1)
    &&& u.path@ == s.subrange(r.0, r.1)
}

/// The byte range of a found reference cuts exactly its path out of the
/// source's UTF-8 bytes: `source[start..end]` is `path`.
pub proof fn law_a_found_range_is_its_path(s: Seq<char>, u: ImageUrl, i: int)
    requires
        0 <= i < url_ranges(s).len(),
        describes(u, s, url_ranges(s)[i]),
    ensures
        u.start <= u.end <= vstd::utf8::encode_utf8(s).len(),
        vstd::utf8::encode_utf8(s).subrange(u.start as int, u.end as int) == vstd::utf8::encode_utf8(u.path@),
{
    lemma_url_ranges_ordered(s, 0);
    let (a, b) = url_ranges(s)[i];
    let head = s.take(a);
    let mid = s.subrange(a, b);
    let tail = s.skip(b);
    assert(s.take(b) =~= head + mid);
    assert(s =~= s.take(b) + tail);
    crate::text::lemma_encode_utf8_concat(head, mid);
    crate::text::lemma_encode_utf8_concat(s.take(b), tail);
    let eh = vstd::utf8::encode_utf8(head);
    let em = vstd::utf8::encode_utf8(mid);
    assert(vstd::utf8::encode_utf8(s).subrange(eh.len() as int, (eh.len() + em.len()) as int) =~= em);
}

/// Scan from character index `from` for the next reference; returns its
/// character range (if it needs embedding) and where the scan goes on, or
/// `None` when the scan ends.
fn next_reference(s: &[char], from: usize) -> (r: Option<(Option<(usize, usize)>, usize)>)
    requires
        from <= s.len(),
    ensures
        match r {
            None => url_ranges_from(s@, from as int) == Seq::<(int, int)>::empty(),
            Some((found, next)) => {
                &&& from < next <= s.len()
                &&& match found {
                    None => url_ranges_from(s@, from as int) == url_ranges_from(s@, next as int),
                    Some((a, b)) => {
                        &&& a <= b < next
                        &&& url_ranges_from(s@, from as int) == seq![(a as int, b as int)]
                            + url_ranges_from(s@, next as int)
                    },
                }
            },
        },
{
    let keyword = vec!['@', 'i', 'm', 'a', 'g', 'e', '-', 'u', 'r', 'l'];
    assert(keyword@ =~= image_url_keyword());
    let start = match find_seq(s, keyword.as_slice(), from) {
        None => return None,
        Some(start) => start,
    };
    proof {
        lemma_find_from_found(s@, image_url_keyword(), from as int);
    }
    let after_name = start + 10;
    let p = skip_ws_exec(s, after_name);
    proof {
        lemma_skip_ws(s@, after_name as int);
    }
    if p >= s.len() || s[p] != '(' {
        return Some((None, after_name));
    }
    let q = skip_ws_exec(s, p + 1);
    proof {
        lemma_skip_ws(s@, p + 1);
    }
    if q >= s.len() {
        return None;
    }
    let quote = s[q];
    if quote != '"' && quote != '\'' {
        return Some((None, q + 1));
    }
    let closing = vec![quote];
    assert(closing@ =~= seq![s@[q as int]]);
    let e = match find_seq(s, closing.as_slice(), q + 1) {
        None => return None,
        Some(e) => e,
    };
    proof {
        lemma_find_from_found(s@, seq![s@[q as int]], q + 1);
    }
    let data = vec!['d', 'a', 't', 'a', ':'];
    let builtin = vec!['b', 'u', 'i', 'l', 't', 'i', 'n', ':'];
    assert(data@ =~= data_scheme());
    assert(builtin@ =~= builtin_scheme());
    let path = slice_chars(s, q + 1, e);
    if !starts_with_exec(path.as_slice(), data.as_slice()) && !starts_with_exec(
        path.as_slice(),
        builtin.as_slice(),
    ) {
        Some((Some((q + 1, e)), e + 1))
    } else {
        Some((None, e + 1))
    }
}

/// Every `@image-url("…")` reference in `source` whose path needs embedding
/// (not `data:`, not `builtin:`), in source order. The ranges index `source`
/// itself in bytes: `source[start..end]` is exactly `path`.
pub fn find_image_urls(source: &str) -> (urls: Vec<ImageUrl>)
    requires
        fits_usize(source@),
    ensures
        urls.len() == url_ranges(source@).len(),
        forall|i: int|
            0 <= i < urls.len() ==> describes(#[trigger] urls@[i], source@, url_ranges(source@)[i]),
{
    let chars = chars_of(source);
    let offsets = byte_offsets(source, chars.as_slice());
    let ranges = char_ranges(chars.as_slice());
    let mut urls: Vec<ImageUrl> = Vec::new();
    let mut k: usize = 0;
    proof {
        lemma_url_ranges_ordered(source@, 0);
    }
    while k < ranges.len()
        invariant
            chars@ == source@,
            offsets.len() == chars.len() + 1,
            forall|i: int| 0 <= i <= chars.len() ==> offsets@[i] == byte_offset(source@, i),
            ranges@.len() == url_ranges(source@).len(),
            forall|i: int|
                0 <= i < ranges@.len() ==> (#[trigger] ranges@[i]).0 as int == url_ranges(
                    source@,
                )[i].0 && ranges@[i].1 as int == url_ranges(source@)[i].1,
            ordered_ranges(url_ranges(source@), 0, source@.len() as int),
            k <= ranges.len(),
            urls.len() == k,
            forall|i: int|
                0 <= i < k ==> describes(#[trigger] urls@[i], source@, url_ranges(source@)[i]),
        decreases ranges.len() - k,
    {
        let (a, b) = ranges[k];
        assert(url_ranges(source@)[k as int].0 <= url_ranges(source@)[k as int].1 <= source@.len());
        let path = string_of(slice_chars(chars.as_slice(), a, b).as_slice());
        urls.push(ImageUrl { start: offsets[a], end: offsets[b], path });
        k = k + 1;
    }
    urls
}

/// The character ranges of [`url_ranges`], computed.
pub fn char_ranges(s: &[char]) -> (ranges: Vec<(usize, usize)>)
    ensures
        ranges@.len() == url_ranges(s@).len(),
        forall|i: int|
            0 <= i < ranges@.len() ==> (#[trigger] ranges@[i]).0 as int == url_ranges(s@)[i].0
                && ranges@[i].1 as int == url_ranges(s@)[i].1,
{
    let mut ranges: Vec<(usize, usize)> = Vec::new();
    let mut from: usize = 0;
    let ghost mut done: Seq<(int, int)> = Seq::empty();
    loop
        invariant
            from <= s.len(),
            ranges@.len() == done.len(),
            forall|i: int|
                0 <= i < ranges@.len() ==> (#[trigger] ranges@[i]).0 as int == done[i].0
                    && ranges@[i].1 as int == done[i].1,
            done + url_ranges_from(s@, from as int) == url_ranges(s@),
        decreases s.len() - from,
    {
        match next_reference(s, from) {
            None => {
                assert(done + Seq::<(int, int)>::empty() =~= done);
                return ranges;
            },
            Some((found, next)) => {
                match found {
                    None => {},
                    Some((a, b)) => {
                        ranges.push((a, b));
                        proof {
                            let rest = url_ranges_from(s@, next as int);
                            assert(done + (seq![(a as int, b as int)] + rest) =~= done.push(
                                (a as int, b as int),
                            ) + rest);
                            done = done.push((a as int, b as int));
                        }
                    },
                }
                from = next;
            },
        }
    }
}

} // verus!

verus! {

/// Font files that an `import "…";` line brings in: `.ttf`, `.ttc`, `.otf`,
/// in any letter case.
pub open spec fn is_font_path(path: Seq<char>) -> bool {
    let lower = ascii_lowercase(path);
    ||| ends_with(lower, seq!['.', 't', 't', 'f'])
    ||| ends_with(lower, seq!['.', 't', 't', 'c'])
    ||| ends_with(lower, seq!['.', 'o', 't', 'f'])
}

/// Is `path` a font file?
pub fn is_font_import(path: &str) -> (b: bool)
    ensures
        b == is_font_path(path@),
{
    let chars = chars_of(path);
    let lower = to_ascii_lowercase(chars.as_slice());
    let ttf = vec!['.', 't', 't', 'f'];
    let ttc = vec!['.', 't', 't', 'c'];
    let otf = vec!['.', 'o', 't', 'f'];
    assert(ttf@ =~= seq!['.', 't', 't', 'f']);
    assert(ttc@ =~= seq!['.', 't', 't', 'c']);
    assert(otf@ =~= seq!['.', 'o', 't', 'f']);
    ends_with_exec(lower.as_slice(), ttf.as_slice()) || ends_with_exec(
        lower.as_slice(),
        ttc.as_slice(),
    ) || ends_with_exec(lower.as_slice(), otf.as_slice())
}

pub open spec fn import_keyword() -> Seq<char> {
    seq!['i', 'm', 'p', 'o', 'r', 't', ' ']
}

/// `p` without one pair of surrounding `"` quotes, or else `'` quotes; `p`
/// itself when it has neither.
pub open spec fn unquote(p: Seq<char>) -> Seq<char> {
    if p.len() >= 2 && p[0] == '"' && p[p.len() - 1] == '"' {
        p.subrange(1, p.len() - 1)
    } else if p.len() >= 2 && p[0] == '\'' && p[p.len() - 1] == '\'' {
        p.subrange(1, p.len() - 1)
    } else {
        p
    }
}

/// The font a single line imports: a trimmed line `import <path>;` that
/// does not import `{ … }` names, whose path (trimmed, unquoted) names a font.
pub open spec fn font_import_of_line(line: Seq<char>) -> Option<Seq<char>> {
    let l = trim(line);
    if !starts_with(l, import_keyword()) {
        None
    } else {
        let rest = trim(l.skip(7));
        if starts_with(rest, seq!['{']) {
            None
        } else {
            match find_char_from(rest, ';', 0) {
                None => None,
                Some(semi) => {
                    let path = unquote(trim(rest.take(semi)));
                    if is_font_path(path) {
                        Some(path)
                    } else {
                        None
                    }
                },
            }
        }
    }
}

/// The fonts imported by the lines of `s` starting at index `i`. Lines end
/// at `\n`; a `\r` before it is whitespace that trimming removes; a final
/// `\n` starts no further line.
pub open spec fn font_imports_from(s: Seq<char>, i: int) -> Seq<Seq<char>>
    decreases s.len() + 1 - i,
{
    if i < 0 || i >= s.len() {
        seq![]
    } else {
        let end = match find_char_from(s, '\n', i) {
            Some(e) => e,
            None => s.len() as int,
        };
        proof {
            if find_char_from(s, '\n', i) is Some {
                lemma_find_from_found(s, seq!['\n'], i);
            }
        }
        let here = match font_import_of_line(s.subrange(i, end)) {
            Some(p) => seq![p],
            None => seq![],
        };
        here + font_imports_from(s, end + 1)
    }
}

/// The fonts `source` imports, in order.
pub open spec fn font_imports(source: Seq<char>) -> Seq<Seq<char>> {
    font_imports_from(source, 0)
}

fn unquote_exec(p: &[char]) -> (r: Vec<char>)
    ensures
        r@ == unquote(p@),
{
    let n = p.len();
    if n >= 2 && p[0] == '"' && p[n - 1] == '"' {
        slice_chars(p, 1, n - 1)
    } else if n >= 2 && p[0] == '\'' && p[n - 1] == '\'' {
        slice_chars(p, 1, n - 1)
    } else {
        slice_chars(p, 0, n)
    }
}

fn font_import_of_line_exec(line: &[char]) -> (r: Option<Vec<char>>)
    ensures
        match r {
            Some(p) => font_import_of_line(line@) == Some(p@),
            None => font_import_of_line(line@) is None,
        },
{
    let l = trim_chars(line);
    let keyword = vec!['i', 'm', 'p', 'o', 'r', 't', ' '];
    assert(keyword@ =~= import_keyword());
    if !starts_with_exec(l.as_slice(), keyword.as_slice()) {
        return None;
    }
    let after = slice_chars(l.as_slice(), 7, l.len());
    assert(after@ =~= l@.skip(7));
    let rest = trim_chars(after.as_slice());
    let brace = vec!['{'];
    assert(brace@ =~= seq!['{']);
    if starts_with_exec(rest.as_slice(), brace.as_slice()) {
        return None;
    }
    let semicolon = vec![';'];
    assert(semicolon@ =~= seq![';']);
    let semi = match find_seq(rest.as_slice(), semicolon.as_slice(), 0) {
        None => return None,
        Some(semi) => semi,
    };
    proof {
        lemma_find_from_found(rest@, seq![';'], 0);
    }
    let head = slice_chars(rest.as_slice(), 0, semi);
    assert(head@ =~= rest@.take(semi as int));
    let trimmed = trim_chars(head.as_slice());
    let path = unquote_exec(trimmed.as_slice());
    let text = string_of(path.as_slice());
    if is_font_import(text.as_str()) {
        Some(path)
    } else {
        None
    }
}

/// The paths of the font files that `import "…";` lines of `source` bring
/// in, in source order.
pub fn extract_font_imports(source: &str) -> (imports: Vec<String>)
    ensures
        imports.len() == font_imports(source@).len(),
        forall|i: int|
            0 <= i < imports.len() ==> (#[trigger] imports@[i])@ == font_imports(source@)[i],
{
    let s = chars_of(source);
    let mut imports: Vec<String> = Vec::new();
    let ghost mut done: Seq<Seq<char>> = Seq::empty();
    let mut i: usize = 0;
    let newline = vec!['\n'];
    assert(newline@ =~= seq!['\n']);
    while i < s.len()
        invariant
            s@ == source@,
            newline@ == seq!['\n'],
            i <= s.len(),
            imports.len() == done.len(),
            forall|k: int| 0 <= k < imports.len() ==> (#[trigger] imports@[k])@ == done[k],
            done + font_imports_from(s@, i as int) == font_imports(s@),
        decreases s.len() - i,
    {
        let end = match find_seq(s.as_slice(), newline.as_slice(), i) {
            Some(e) => e,
            None => s.len(),
        };
        proof {
            if find_char_from(s@, '\n', i as int) is Some {
                lemma_find_from_found(s@, seq!['\n'], i as int);
            }
        }
        let line = slice_chars(s.as_slice(), i, end);
        match font_import_of_line_exec(line.as_slice()) {
            Some(p) => {
                imports.push(string_of(p.as_slice()));
                proof {
                    let rest = font_imports_from(s@, end + 1);
                    assert(done + (seq![p@] + rest) =~= done.push(p@) + rest);
                    done = done.push(p@);
                }
            },
            None => {
                proof {
                    let rest = font_imports_from(s@, end + 1);
                    assert(done + (Seq::<Seq<char>>::empty() + rest) =~= done + rest);
                }
            },
        }
        if end >= s.len() {
            proof {
                assert(font_imports_from(s@, end + 1) == Seq::<Seq<char>>::empty());
                assert(done + Seq::<Seq<char>>::empty() =~= done);
            }
            return imports;
        }
        i = end + 1;
    }
    assert(done + Seq::<Seq<char>>::empty() =~= done);
    imports
}

} // verus!
