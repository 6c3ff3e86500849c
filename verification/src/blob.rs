//! The compiled-module blob: JSON bytes, gzip-compressed, then base64
//! encoded. The code generator writes it into the Dart wrapper; the runtime
//! reads it back.

use vstd::prelude::*;

use base64::Engine;
use std::io::{Read, Write};

use crate::text::{chars_of, is_ws, lemma_trim_unchanged, trim, trim_chars};

verus! {

/// The character of the standard base64 alphabet for the 6-bit value `v`.
pub open spec fn base64_char(v: int) -> char {
    if v < 26 {
        (65 + v) as char
    } else if v < 52 {
        (97 + v - 26) as char
    } else if v < 62 {
        (48 + v - 52) as char
    } else if v == 62 {
        '+'
    } else {
        '/'
    }
}

/// Standard base64 (RFC 4648 alphabet, `=` padding) of `b`.
pub open spec fn base64_standard(b: Seq<u8>) -> Seq<char>
    decreases b.len(),
{
    if b.len() == 0 {
        seq![]
    } else if b.len() == 1 {
        seq![base64_char((b[0] as int) / 4), base64_char(((b[0] as int) % 4) * 16), '=', '=']
    } else if b.len() == 2 {
        seq![
            base64_char((b[0] as int) / 4),
            base64_char(((b[0] as int) % 4) * 16 + (b[1] as int) / 16),
            base64_char(((b[1] as int) % 16) * 4),
            '=',
        ]
    } else {
        seq![
            base64_char((b[0] as int) / 4),
            base64_char(((b[0] as int) % 4) * 16 + (b[1] as int) / 16),
            base64_char(((b[1] as int) % 16) * 4 + (b[2] as int) / 64),
            base64_char((b[2] as int) % 64),
        ] + base64_standard(b.skip(3))
    }
}

/// `base64::engine::general_purpose::STANDARD.encode`: standard alphabet,
/// with padding.
#[verifier::external_body]
pub(crate) fn base64_encode(bytes: &[u8]) -> (r: String)
    ensures
        r@ == base64_standard(bytes@),
{
    base64::engine::general_purpose::STANDARD.encode(bytes)
}

/// `base64::engine::general_purpose::STANDARD.decode`. That engine requires
/// canonical padding and no trailing bits, so it accepts exactly the texts
/// that its encoder produces, and gives back what was encoded. The text of
/// an error is not stated.
#[verifier::external_body]
pub(crate) fn base64_decode(text: &str) -> (r: Result<Vec<u8>, String>)
    ensures
        r is Ok <==> exists|b: Seq<u8>| base64_standard(b) == text@,
        r matches Ok(v) ==> base64_standard(v@) == text@,
{
    base64::engine::general_purpose::STANDARD.decode(text).map_err(|error| error.to_string())
}

/// What `flate2`'s `GzEncoder` with the default compression level writes for
/// `data`, or `None` when compressing fails.
pub uninterp spec fn gzip(data: Seq<u8>) -> Option<Seq<u8>>;

/// What `flate2`'s `GzDecoder` reads out of `data`, or `None` when `data` is
/// not a gzip stream.
pub uninterp spec fn gunzip(data: Seq<u8>) -> Option<Seq<u8>>;

/// Compresses `data` with `flate2::write::GzEncoder` at the default level
/// into memory. A gzip stream decodes to the data that was compressed into
/// it. When compressing fails, the error's text is returned and nothing is
/// stated of it.
#[verifier::external_body]
pub(crate) fn gzip_compress(data: &[u8]) -> (r: Result<Vec<u8>, String>)
    ensures
        match r {
            Ok(v) => gzip(data@) == Some(v@) && gunzip(v@) == Some(data@),
            Err(_) => gzip(data@) is None,
        },
{
    let mut encoder = flate2::write::GzEncoder::new(Vec::new(), flate2::Compression::default());
    encoder.write_all(data).map_err(|error| error.to_string())?;
    encoder.finish().map_err(|error| error.to_string())
}

/// Decompresses `data` with `flate2::read::GzDecoder`, reading to the end.
/// The text of an error is not stated.
#[verifier::external_body]
pub(crate) fn gzip_decompress(data: &[u8]) -> (r: Result<Vec<u8>, String>)
    ensures
        match r {
            Ok(v) => gunzip(data@) == Some(v@),
            Err(_) => gunzip(data@) is None,
        },
{
    let mut out = Vec::new();
    flate2::read::GzDecoder::new(data).read_to_end(&mut out).map_err(|error| error.to_string())?;
    Ok(out)
}

/// The blob that carries the JSON text `json`: gzip, then base64; `None`
/// when compressing fails.
pub open spec fn blob_of(json: Seq<u8>) -> Option<Seq<char>> {
    match gzip(json) {
        Some(c) => Some(base64_standard(c)),
        None => None,
    }
}

/// Frame JSON bytes as a module blob (gzip, then standard base64). The blob
/// unpacks to `json` again; an error comes with the compressor's message.
pub fn encode_json(json: &[u8]) -> (r: Result<String, String>)
    ensures
        match blob_of(json@) {
            Some(b) => r matches Ok(s) && s@ == b && blob_contents(b) == Some(json@),
            None => r is Err,
        },
{
    let compressed = gzip_compress(json)?;
    proof {
        law_a_blob_gives_back_its_json(json@);
    }
    Ok(base64_encode(compressed.as_slice()))
}

/// The JSON bytes a blob carries: the blob is trimmed of surrounding
/// whitespace, base64-decoded, then gunzipped.
pub open spec fn blob_contents(blob: Seq<char>) -> Option<Seq<u8>> {
    if exists|c: Seq<u8>| base64_standard(c) == trim(blob) {
        gunzip(choose|c: Seq<u8>| base64_standard(c) == trim(blob))
    } else {
        None
    }
}

/// Unpack a module blob into the JSON bytes it carries. An error comes with
/// the decoder's message.
pub fn decode_module(blob: &str) -> (r: Result<Vec<u8>, String>)
    ensures
        r matches Ok(v) ==> blob_contents(blob@) == Some(v@),
        blob_contents(blob@) is Some ==> r is Ok,
{
    let chars = chars_of(blob);
    let trimmed = trim_chars(chars.as_slice());
    let text = crate::text::string_of(trimmed.as_slice());
    let compressed = base64_decode(text.as_str());
    match compressed {
        Ok(c) => {
            proof {
                let w = choose|x: Seq<u8>| base64_standard(x) == trim(blob@);
                assert(base64_standard(c@) == trim(blob@));
                lemma_base64_injective(c@, w);
            }
            let r = gzip_decompress(c.as_slice());
            r
        },
        Err(e) => Err(e),
    }
}

/// No character of a base64 text is whitespace.
pub proof fn lemma_base64_no_ws(b: Seq<u8>)
    ensures
        forall|i: int| 0 <= i < base64_standard(b).len() ==> !is_ws(#[trigger] base64_standard(b)[i]),
    decreases b.len(),
{
    assert forall|v: int| 0 <= v < 64 implies !is_ws(#[trigger] base64_char(v)) by {}
    let e = base64_standard(b);
    if b.len() >= 3 {
        lemma_base64_no_ws(b.skip(3));
        let head = seq![
            base64_char((b[0] as int) / 4),
            base64_char(((b[0] as int) % 4) * 16 + (b[1] as int) / 16),
            base64_char(((b[1] as int) % 16) * 4 + (b[2] as int) / 64),
            base64_char((b[2] as int) % 64),
        ];
        assert(e == head + base64_standard(b.skip(3)));
        assert forall|i: int| 0 <= i < e.len() implies !is_ws(#[trigger] e[i]) by {
            if i >= 4 {
                assert(e[i] == base64_standard(b.skip(3))[i - 4]);
            } else {
                assert(e[i] == head[i]);
            }
        }
    }
}

/// Unpacking a blob gives back the JSON it was made from: what
/// [`encode_json`] makes of `json`, [`decode_module`] turns back into `json`.
pub proof fn law_a_blob_gives_back_its_json(json: Seq<u8>)
    requires
        gzip(json) matches Some(c) && gunzip(c) == Some(json),
    ensures
        blob_contents(blob_of(json)->0) == Some(json),
{
    let z = gzip(json)->0;
    let b = blob_of(json)->0;
    lemma_base64_no_ws(z);
    lemma_trim_unchanged(b);
    assert(base64_standard(z) == trim(b));
    let c = choose|c: Seq<u8>| base64_standard(c) == trim(b);
    lemma_base64_injective(c, z);
}

/// The 6-bit values map to distinct characters, none of them `=`.
pub proof fn lemma_base64_char(v: int, w: int)
    requires
        0 <= v < 64,
        0 <= w < 64,
    ensures
        base64_char(v) != '=',
        base64_char(v) == base64_char(w) ==> v == w,
{
}

proof fn lemma_group3(a0: u8, a1: u8, a2: u8, b0: u8, b1: u8, b2: u8)
    by (bit_vector)
    requires
        a0 / 4 == b0 / 4,
        (a0 % 4) * 16 + a1 / 16 == (b0 % 4) * 16 + b1 / 16,
        (a1 % 16) * 4 + a2 / 64 == (b1 % 16) * 4 + b2 / 64,
        a2 % 64 == b2 % 64,
    ensures
        a0 == b0,
        a1 == b1,
        a2 == b2,
{
}

proof fn lemma_group2(a0: u8, a1: u8, b0: u8, b1: u8)
    by (bit_vector)
    requires
        a0 / 4 == b0 / 4,
        (a0 % 4) * 16 + a1 / 16 == (b0 % 4) * 16 + b1 / 16,
        (a1 % 16) * 4 == (b1 % 16) * 4,
    ensures
        a0 == b0,
        a1 == b1,
{
}

proof fn lemma_group1(a0: u8, b0: u8)
    by (bit_vector)
    requires
        a0 / 4 == b0 / 4,
        (a0 % 4) * 16 == (b0 % 4) * 16,
    ensures
        a0 == b0,
{
}

proof fn lemma_base64_len(b: Seq<u8>)
    ensures
        b.len() == 0 ==> base64_standard(b).len() == 0,
        b.len() > 0 ==> base64_standard(b).len() >= 4,
        b.len() == 1 ==> base64_standard(b)[2] == '=' && base64_standard(b)[3] == '=',
        b.len() == 2 ==> base64_standard(b)[2] != '=' && base64_standard(b)[3] == '=',
        b.len() >= 3 ==> base64_standard(b)[2] != '=' && base64_standard(b)[3] != '=',
{
    if b.len() >= 3 {
        lemma_base64_char(((b[1] as int) % 16) * 4 + (b[2] as int) / 64, 0);
        lemma_base64_char((b[2] as int) % 64, 0);
    } else if b.len() == 2 {
        lemma_base64_char(((b[1] as int) % 16) * 4, 0);
    }
}

/// Different bytes have different base64 texts.
pub proof fn lemma_base64_injective(a: Seq<u8>, b: Seq<u8>)
    requires
        base64_standard(a) == base64_standard(b),
    ensures
        a == b,
    decreases a.len(),
{
    let ea = base64_standard(a);
    lemma_base64_len(a);
    lemma_base64_len(b);
    if a.len() == 0 {
        assert(a =~= b);
    } else {
        assert(ea[0] == base64_standard(b)[0]);
        assert(ea[1] == base64_standard(b)[1]);
        lemma_base64_char((a[0] as int) / 4, (b[0] as int) / 4);
        if a.len() == 1 {
            lemma_base64_char(((a[0] as int) % 4) * 16, ((b[0] as int) % 4) * 16);
            lemma_group1(a[0], b[0]);
            assert(a =~= b);
        } else if a.len() == 2 {
            lemma_base64_char(((a[0] as int) % 4) * 16 + (a[1] as int) / 16, ((b[0] as int) % 4) * 16 + (b[1] as int) / 16);
            assert(ea[2] == base64_standard(b)[2]);
            lemma_base64_char(((a[1] as int) % 16) * 4, ((b[1] as int) % 16) * 4);
            lemma_group2(a[0], a[1], b[0], b[1]);
            assert(a =~= b);
        } else {
            lemma_base64_char(((a[0] as int) % 4) * 16 + (a[1] as int) / 16, ((b[0] as int) % 4) * 16 + (b[1] as int) / 16);
            let eb = base64_standard(b);
            assert(ea[0] == base64_char((a[0] as int) / 4));
            assert(eb[0] == base64_char((b[0] as int) / 4));
            assert(ea[1] == base64_char(((a[0] as int) % 4) * 16 + (a[1] as int) / 16));
            assert(eb[1] == base64_char(((b[0] as int) % 4) * 16 + (b[1] as int) / 16));
            assert(ea[2] == base64_char(((a[1] as int) % 16) * 4 + (a[2] as int) / 64));
            assert(eb[2] == base64_char(((b[1] as int) % 16) * 4 + (b[2] as int) / 64));
            assert(ea[3] == base64_char((a[2] as int) % 64));
            assert(eb[3] == base64_char((b[2] as int) % 64));
            lemma_base64_char((a[0] as int) / 4, (b[0] as int) / 4);
            lemma_base64_char(((a[1] as int) % 16) * 4 + (a[2] as int) / 64, ((b[1] as int) % 16) * 4 + (b[2] as int) / 64);
            lemma_base64_char((a[2] as int) % 64, (b[2] as int) % 64);
            lemma_group3(a[0], a[1], a[2], b[0], b[1], b[2]);
            assert(base64_standard(a.skip(3)) =~= ea.skip(4));
            assert(base64_standard(b.skip(3)) =~= base64_standard(b).skip(4));
            lemma_base64_injective(a.skip(3), b.skip(3));
            assert(a =~= a.take(3) + a.skip(3));
            assert(b =~= b.take(3) + b.skip(3));
            assert(a.take(3) =~= b.take(3));
        }
    }
}

} // verus!
