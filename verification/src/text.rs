//! Character-level helpers over `Seq<char>`, the view of `str` and `String`.

use vstd::prelude::*;

verus! {

broadcast use vstd::string::group_string_axioms;

/// `char::is_whitespace`: the Unicode `White_Space` property.
pub open spec fn is_ws(c: char) -> bool {
    let u = c as u32;
    ||| 0x09 <= u <= 0x0D
    ||| u == 0x20
    ||| u == 0x85
    ||| u == 0xA0
    ||| u == 0x1680
    ||| 0x2000 <= u <= 0x200A
    ||| u == 0x2028
    ||| u == 0x2029
    ||| u == 0x202F
    ||| u == 0x205F
    ||| u == 0x3000
}

/// Executable form of [`is_ws`].
pub fn is_whitespace(c: char) -> (b: bool)
    ensures
        b == is_ws(c),
{
    let u = c as u32;
    (0x09 <= u && u <= 0x0D) || u == 0x20 || u == 0x85 || u == 0xA0 || u == 0x1680 || (0x2000
        <= u && u <= 0x200A) || u == 0x2028 || u == 0x2029 || u == 0x202F || u == 0x205F || u
        == 0x3000
}

/// The characters of `s`, in order.
pub fn chars_of(s: &str) -> (r: Vec<char>)
    ensures
        r@ == s@,
{
    let mut r: Vec<char> = Vec::new();
    for c in it: s.chars()
        invariant
            r@ == it.seq().take(it.index() as int),
            it.seq() == s@,
    {
        r.push(c);
    }
    r
}

} // verus!

verus! {

/// The text of `v` as a `String` (`FromIterator<char>`).
#[verifier::external_body]
pub(crate) fn string_of(v: &[char]) -> (r: String)
    ensures
        r@ == v@,
{
    v.iter().collect()
}

/// An owned copy of `s`.
pub fn text(s: &str) -> (r: String)
    ensures
        r@ == s@,
{
    string_of(chars_of(s).as_slice())
}

/// `pat` occurs in `s` starting at index `i`.
pub open spec fn matches_at(s: Seq<char>, pat: Seq<char>, i: int) -> bool {
    &&& 0 <= i
    &&& i + pat.len() <= s.len()
    &&& s.subrange(i, i + pat.len()) == pat
}

/// `s` begins with `pat` (`str::starts_with`).
pub open spec fn starts_with(s: Seq<char>, pat: Seq<char>) -> bool {
    matches_at(s, pat, 0)
}

/// `s` ends with `pat` (`str::ends_with`).
pub open spec fn ends_with(s: Seq<char>, pat: Seq<char>) -> bool {
    matches_at(s, pat, s.len() - pat.len())
}

/// The first index at or after `from` where `pat` occurs (`str::find` on
/// the suffix starting at `from`, counted from the start of `s`).
pub open spec fn find_from(s: Seq<char>, pat: Seq<char>, from: int) -> Option<int>
    decreases s.len() + 1 - from,
{
    if from < 0 || from + pat.len() > s.len() {
        None
    } else if matches_at(s, pat, from) {
        Some(from)
    } else {
        find_from(s, pat, from + 1)
    }
}

/// The first index at or after `from` that holds `c`.
pub open spec fn find_char_from(s: Seq<char>, c: char, from: int) -> Option<int> {
    find_from(s, seq![c], from)
}

/// `s` contains `pat` somewhere.
pub open spec fn contains(s: Seq<char>, pat: Seq<char>) -> bool {
    find_from(s, pat, 0) is Some
}

/// The first index at or after `i` that is not whitespace, or `s.len()`.
pub open spec fn skip_ws(s: Seq<char>, i: int) -> int
    decreases s.len() - i,
{
    if i < 0 || i >= s.len() {
        i
    } else if is_ws(s[i]) {
        skip_ws(s, i + 1)
    } else {
        i
    }
}

pub proof fn lemma_find_from_found(s: Seq<char>, pat: Seq<char>, from: int)
    requires
        find_from(s, pat, from) is Some,
    ensures
        from <= find_from(s, pat, from)->0,
        matches_at(s, pat, find_from(s, pat, from)->0),
        forall|j: int| from <= j < find_from(s, pat, from)->0 ==> !matches_at(s, pat, j),
    decreases s.len() + 1 - from,
{
    if !matches_at(s, pat, from) {
        lemma_find_from_found(s, pat, from + 1);
    }
}

pub proof fn lemma_find_from_none(s: Seq<char>, pat: Seq<char>, from: int)
    requires
        0 <= from,
        find_from(s, pat, from) is None,
    ensures
        forall|j: int| from <= j ==> !matches_at(s, pat, j),
    decreases s.len() + 1 - from,
{
    if from + pat.len() <= s.len() {
        lemma_find_from_none(s, pat, from + 1);
    }
}

pub proof fn lemma_skip_ws(s: Seq<char>, i: int)
    requires
        0 <= i <= s.len(),
    ensures
        i <= skip_ws(s, i) <= s.len(),
        forall|j: int| i <= j < skip_ws(s, i) ==> is_ws(#[trigger] s[j]),
        skip_ws(s, i) < s.len() ==> !is_ws(s[skip_ws(s, i)]),
    decreases s.len() - i,
{
    if i < s.len() && is_ws(s[i]) {
        lemma_skip_ws(s, i + 1);
    }
}

/// Does `pat` occur in `s` at index `i`?
pub fn matches_at_exec(s: &[char], pat: &[char], i: usize) -> (b: bool)
    ensures
        b == matches_at(s@, pat@, i as int),
{
    if pat.len() > s.len() || i > s.len() - pat.len() {
        return false;
    }
    let mut k: usize = 0;
    while k < pat.len()
        invariant
            k <= pat.len(),
            i + pat.len() <= s.len(),
            forall|m: int| 0 <= m < k ==> s@[i + m] == pat@[m],
        decreases pat.len() - k,
    {
        if s[i + k] != pat[k] {
            assert(s@.subrange(i as int, i + pat.len())[k as int] != pat@[k as int]);
            return false;
        }
        k = k + 1;
    }
    assert(s@.subrange(i as int, i + pat.len()) =~= pat@);
    true
}

/// Executable [`find_from`].
pub fn find_seq(s: &[char], pat: &[char], from: usize) -> (r: Option<usize>)
    ensures
        match r {
            Some(i) => find_from(s@, pat@, from as int) == Some(i as int),
            None => find_from(s@, pat@, from as int) is None,
        },
{
    if pat.len() > s.len() || from > s.len() - pat.len() {
        return None;
    }
    if pat.len() == 0 {
        assert(s@.subrange(from as int, from as int) =~= pat@);
        return Some(from);
    }
    let mut i = from;
    while i <= s.len() - pat.len()
        invariant
            0 < pat.len() <= s.len(),
            from <= i,
            find_from(s@, pat@, from as int) == find_from(s@, pat@, i as int),
        decreases s.len() - i,
    {
        if matches_at_exec(s, pat, i) {
            return Some(i);
        }
        i = i + 1;
    }
    None
}

/// Executable [`starts_with`].
pub fn starts_with_exec(s: &[char], pat: &[char]) -> (b: bool)
    ensures
        b == starts_with(s@, pat@),
{
    matches_at_exec(s, pat, 0)
}

/// Executable [`ends_with`].
pub fn ends_with_exec(s: &[char], pat: &[char]) -> (b: bool)
    ensures
        b == ends_with(s@, pat@),
{
    if pat.len() > s.len() {
        return false;
    }
    matches_at_exec(s, pat, s.len() - pat.len())
}

/// Executable [`skip_ws`].
pub fn skip_ws_exec(s: &[char], i: usize) -> (r: usize)
    requires
        i <= s.len(),
    ensures
        r == skip_ws(s@, i as int),
{
    let mut j = i;
    while j < s.len() && is_whitespace(s[j])
        invariant
            i <= j <= s.len(),
            skip_ws(s@, i as int) == skip_ws(s@, j as int),
        decreases s.len() - j,
    {
        j = j + 1;
    }
    j
}

/// A copy of `s[from..to]`.
pub fn slice_chars(s: &[char], from: usize, to: usize) -> (r: Vec<char>)
    requires
        from <= to <= s.len(),
    ensures
        r@ == s@.subrange(from as int, to as int),
{
    let mut r: Vec<char> = Vec::new();
    let mut k = from;
    while k < to
        invariant
            from <= k <= to <= s.len(),
            r@ == s@.subrange(from as int, k as int),
        decreases to - k,
    {
        r.push(s[k]);
        k = k + 1;
        assert(r@ =~= s@.subrange(from as int, k as int));
    }
    r
}

/// Append all of `t` to `r`.
pub fn push_all(r: &mut Vec<char>, t: &[char])
    ensures
        final(r)@ == old(r)@ + t@,
{
    let ghost start = r@;
    let mut k: usize = 0;
    while k < t.len()
        invariant
            k <= t.len(),
            r@ == start + t@.subrange(0, k as int),
        decreases t.len() - k,
    {
        r.push(t[k]);
        k = k + 1;
        assert(r@ =~= start + t@.subrange(0, k as int));
    }
    assert(t@.subrange(0, t.len() as int) =~= t@);
}

} // verus!

verus! {

/// Number of bytes `c` takes in UTF-8 (`char::len_utf8`).
pub open spec fn utf8_width(c: char) -> nat {
    vstd::utf8::encode_scalar(c as u32).len()
}

/// Byte offset of the character index `i` in the UTF-8 encoding of `s`.
pub open spec fn byte_offset(s: Seq<char>, i: int) -> nat {
    vstd::utf8::encode_utf8(s.take(i)).len()
}

pub proof fn lemma_encode_utf8_concat(a: Seq<char>, b: Seq<char>)
    ensures
        vstd::utf8::encode_utf8(a + b) == vstd::utf8::encode_utf8(a) + vstd::utf8::encode_utf8(b),
    decreases a.len(),
{
    if a.len() == 0 {
        assert(a + b =~= b);
        assert(vstd::utf8::encode_utf8(a) =~= Seq::<u8>::empty());
        assert(vstd::utf8::encode_utf8(a) + vstd::utf8::encode_utf8(b) =~= vstd::utf8::encode_utf8(b));
    } else {
        assert((a + b).drop_first() =~= a.drop_first() + b);
        lemma_encode_utf8_concat(a.drop_first(), b);
        assert((a + b)[0] == a[0]);
        assert(vstd::utf8::encode_utf8(a + b) =~= vstd::utf8::encode_scalar(a[0] as u32)
            + vstd::utf8::encode_utf8(a.drop_first() + b));
    }
}

pub proof fn lemma_byte_offset_step(s: Seq<char>, i: int)
    requires
        0 <= i < s.len(),
    ensures
        byte_offset(s, i + 1) == byte_offset(s, i) + utf8_width(s[i]),
        byte_offset(s, i + 1) <= vstd::utf8::encode_utf8(s).len(),
{
    assert(s.take(i + 1) =~= s.take(i) + seq![s[i]]);
    lemma_encode_utf8_concat(s.take(i), seq![s[i]]);
    assert(seq![s[i]].drop_first() =~= Seq::<char>::empty());
    assert(vstd::utf8::encode_utf8(Seq::<char>::empty()) =~= Seq::<u8>::empty());
    assert(vstd::utf8::encode_utf8(seq![s[i]]) =~= vstd::utf8::encode_scalar(s[i] as u32));
    assert(s =~= s.take(i + 1) + s.skip(i + 1));
    lemma_encode_utf8_concat(s.take(i + 1), s.skip(i + 1));
}

/// Executable [`utf8_width`].
pub fn char_width(c: char) -> (w: usize)
    ensures
        w == utf8_width(c),
        1 <= w <= 4,
{
    broadcast use vstd::utf8::char_is_scalar;

    let u = c as u32;
    proof {
        assert(vstd::utf8::is_scalar(c as u32));
    }
    if u < 0x80 {
        1
    } else if u < 0x800 {
        2
    } else if u < 0x10000 {
        3
    } else {
        4
    }
}

/// The UTF-8 encoding of `s` is no longer than `usize::MAX` bytes, as is
/// true of every `str` in memory.
pub open spec fn fits_usize(s: Seq<char>) -> bool {
    vstd::utf8::encode_utf8(s).len() <= usize::MAX
}

/// `offsets[i]` is the byte offset of character `i` of `s`, for every
/// `i <= s.len()`.
pub fn byte_offsets(s: &str, chars: &[char]) -> (offsets: Vec<usize>)
    requires
        chars@ == s@,
        fits_usize(s@),
    ensures
        offsets.len() == chars.len() + 1,
        forall|i: int| 0 <= i <= chars.len() ==> offsets@[i] == byte_offset(s@, i),
{
    let total = s.len();
    let mut offsets: Vec<usize> = Vec::new();
    offsets.push(0);
    assert(s@.take(0) =~= Seq::<char>::empty());
    assert(vstd::utf8::encode_utf8(Seq::<char>::empty()) =~= Seq::<u8>::empty());
    let mut i: usize = 0;
    while i < chars.len()
        invariant
            chars@ == s@,
            total == vstd::utf8::encode_utf8(s@).len(),
            i <= chars.len(),
            offsets.len() == i + 1,
            forall|j: int| 0 <= j <= i ==> offsets@[j] == byte_offset(s@, j),
        decreases chars.len() - i,
    {
        proof {
            lemma_byte_offset_step(s@, i as int);
        }
        let next = offsets[i] + char_width(chars[i]);
        offsets.push(next);
        i = i + 1;
    }
    offsets
}

} // verus!

verus! {

/// The ASCII digit for `d < 10`.
pub open spec fn digit(d: nat) -> char {
    ((48 + d) as u8) as char
}

/// The decimal numeral of `n`, as `Display` writes an unsigned integer.
pub open spec fn decimal(n: nat) -> Seq<char>
    decreases n,
{
    if n < 10 {
        seq![digit(n)]
    } else {
        decimal(n / 10).push(digit(n % 10))
    }
}

/// Executable [`decimal`].
pub fn decimal_of(n: u64) -> (r: Vec<char>)
    ensures
        r@ == decimal(n as nat),
    decreases n,
{
    let d = (48 + (n % 10) as u8) as char;
    if n < 10 {
        vec![d]
    } else {
        let mut r = decimal_of(n / 10);
        r.push(d);
        r
    }
}

/// `a` followed by `b`, as a new vector.
pub fn concat(a: &[char], b: &[char]) -> (r: Vec<char>)
    ensures
        r@ == a@ + b@,
{
    let mut r: Vec<char> = Vec::new();
    push_all(&mut r, a);
    push_all(&mut r, b);
    assert(r@ =~= a@ + b@);
    r
}

} // verus!

verus! {

/// The index one past the last non-whitespace character of `s.take(j)`.
pub open spec fn trim_end_index(s: Seq<char>, j: int) -> int
    decreases j,
{
    if j <= 0 {
        0
    } else if is_ws(s[j - 1]) {
        trim_end_index(s, j - 1)
    } else {
        j
    }
}

/// `s` without leading and trailing whitespace (`str::trim`).
pub open spec fn trim(s: Seq<char>) -> Seq<char> {
    let a = skip_ws(s, 0);
    let b = trim_end_index(s, s.len() as int);
    if a >= b {
        Seq::empty()
    } else {
        s.subrange(a, b)
    }
}

/// A string with no whitespace at either end is its own trim.
pub proof fn lemma_trim_unchanged(s: Seq<char>)
    requires
        forall|i: int| 0 <= i < s.len() ==> !is_ws(#[trigger] s[i]),
    ensures
        trim(s) == s,
{
    if s.len() > 0 {
        assert(s.subrange(0, s.len() as int) =~= s);
    } else {
        assert(s =~= Seq::<char>::empty());
    }
}

pub proof fn lemma_trim_end_index(s: Seq<char>, j: int)
    requires
        0 <= j <= s.len(),
    ensures
        0 <= trim_end_index(s, j) <= j,
    decreases j,
{
    if j > 0 && is_ws(s[j - 1]) {
        lemma_trim_end_index(s, j - 1);
    }
}

/// Executable [`trim`].
pub fn trim_chars(s: &[char]) -> (r: Vec<char>)
    ensures
        r@ == trim(s@),
{
    let a = skip_ws_exec(s, 0);
    let mut b = s.len();
    while b > 0 && is_whitespace(s[b - 1])
        invariant
            b <= s.len(),
            trim_end_index(s@, s.len() as int) == trim_end_index(s@, b as int),
        decreases b,
    {
        b = b - 1;
    }
    proof {
        lemma_skip_ws(s@, 0);
    }
    if a >= b {
        Vec::new()
    } else {
        slice_chars(s, a, b)
    }
}

} // verus!

verus! {

/// `a == b` on string slices.
pub fn str_eq(a: &str, b: &str) -> (r: bool)
    ensures
        r == (a@ == b@),
{
    let x = chars_of(a);
    let y = chars_of(b);
    if x.len() != y.len() {
        return false;
    }
    let r = matches_at_exec(x.as_slice(), y.as_slice(), 0);
    assert(x@.subrange(0, y@.len() as int) =~= x@);
    r
}

} // verus!

verus! {

/// `c.to_ascii_lowercase()`.
pub open spec fn ascii_lower(c: char) -> char {
    if 'A' <= c <= 'Z' {
        ((c as u32) + 32) as char
    } else {
        c
    }
}

/// `str::to_ascii_lowercase`.
pub open spec fn ascii_lowercase(s: Seq<char>) -> Seq<char> {
    s.map_values(|c: char| ascii_lower(c))
}

/// Executable [`ascii_lowercase`].
pub fn to_ascii_lowercase(s: &[char]) -> (r: Vec<char>)
    ensures
        r@ == ascii_lowercase(s@),
{
    let mut r: Vec<char> = Vec::new();
    let mut i: usize = 0;
    while i < s.len()
        invariant
            i <= s.len(),
            r@ == ascii_lowercase(s@).take(i as int),
        decreases s.len() - i,
    {
        let c = s[i];
        let l = if 'A' <= c && c <= 'Z' {
            ((c as u32) + 32) as u8 as char
        } else {
            c
        };
        assert(l == ascii_lower(c)) by {
            if 'A' <= c && c <= 'Z' {
                assert(((c as u32) + 32) as u8 as char == ((c as u32) + 32) as char);
            }
        }
        r.push(l);
        i = i + 1;
        assert(r@ =~= ascii_lowercase(s@).take(i as int));
    }
    assert(ascii_lowercase(s@).take(s.len() as int) =~= ascii_lowercase(s@));
    r
}

/// `a == b` on character slices.
pub fn eq_chars(a: &[char], b: &[char]) -> (r: bool)
    ensures
        r == (a@ == b@),
{
    if a.len() != b.len() {
        return false;
    }
    let r = matches_at_exec(a, b, 0);
    assert(a@.subrange(0, b@.len() as int) =~= a@);
    r
}

} // verus!

verus! {

/// `s` from index `cur` on, with the ranges `k..` replaced by their
/// replacements.
pub open spec fn splice_from(
    s: Seq<char>,
    ranges: Seq<(int, int)>,
    reps: Seq<Seq<char>>,
    k: int,
    cur: int,
) -> Seq<char>
    decreases ranges.len() - k,
{
    if k < 0 || k >= ranges.len() {
        s.subrange(cur, s.len() as int)
    } else {
        s.subrange(cur, ranges[k].0) + reps[k] + splice_from(s, ranges, reps, k + 1, ranges[k].1)
    }
}

/// `s` with each of the ordered, disjoint `ranges` replaced by the
/// replacement at the same position; the text between ranges is kept.
pub open spec fn splice(s: Seq<char>, ranges: Seq<(int, int)>, reps: Seq<Seq<char>>) -> Seq<char> {
    splice_from(s, ranges, reps, 0, 0)
}

/// Executable [`splice`].
pub fn splice_exec(s: &[char], ranges: &Vec<(usize, usize)>, reps: &Vec<Vec<char>>) -> (r: Vec<
    char,
>)
    requires
        ranges.len() == reps.len(),
        forall|i: int| 0 <= i < ranges.len() ==> (#[trigger] ranges@[i]).0 <= ranges@[i].1 <= s.len(),
        forall|i: int, j: int|
            0 <= i < j < ranges.len() ==> (#[trigger] ranges@[i]).1 <= (#[trigger] ranges@[j]).0,
    ensures
        r@ == splice(
            s@,
            ranges@.map_values(|p: (usize, usize)| (p.0 as int, p.1 as int)),
            reps@.map_values(|v: Vec<char>| v@),
        ),
{
    let ghost rs = ranges@.map_values(|p: (usize, usize)| (p.0 as int, p.1 as int));
    let ghost ps = reps@.map_values(|v: Vec<char>| v@);
    let mut out: Vec<char> = Vec::new();
    let mut cur: usize = 0;
    let mut k: usize = 0;
    while k < ranges.len()
        invariant
            ranges.len() == reps.len(),
            rs == ranges@.map_values(|p: (usize, usize)| (p.0 as int, p.1 as int)),
            ps == reps@.map_values(|v: Vec<char>| v@),
            forall|i: int| 0 <= i < ranges.len() ==> (#[trigger] ranges@[i]).0 <= ranges@[i].1 <= s.len(),
            forall|i: int, j: int|
                0 <= i < j < ranges.len() ==> (#[trigger] ranges@[i]).1 <= (#[trigger] ranges@[j]).0,
            k <= ranges.len(),
            cur <= s.len(),
            k < ranges.len() ==> cur <= ranges@[k as int].0,
            out@ + splice_from(s@, rs, ps, k as int, cur as int) == splice(s@, rs, ps),
        decreases ranges.len() - k,
    {
        let (a, b) = ranges[k];
        let piece = slice_chars(s, cur, a);
        let ghost before = out@;
        push_all(&mut out, piece.as_slice());
        push_all(&mut out, reps[k].as_slice());
        proof {
            let tail = splice_from(s@, rs, ps, k + 1, b as int);
            assert(splice_from(s@, rs, ps, k as int, cur as int) == s@.subrange(cur as int, a as int)
                + ps[k as int] + tail);
            assert(out@ + tail =~= before + splice_from(s@, rs, ps, k as int, cur as int));
            if k + 1 < ranges.len() {
                assert(ranges@[k as int].1 <= ranges@[k + 1].0);
            }
        }
        cur = b;
        k = k + 1;
    }
    let piece = slice_chars(s, cur, s.len());
    push_all(&mut out, piece.as_slice());
    out
}

} // verus!

verus! {

/// Executable [`decimal`] for `u128`.
pub fn decimal_of_u128(n: u128) -> (r: Vec<char>)
    ensures
        r@ == decimal(n as nat),
    decreases n,
{
    let d = (48 + (n % 10) as u8) as char;
    if n < 10 {
        vec![d]
    } else {
        let mut r = decimal_of_u128(n / 10);
        r.push(d);
        r
    }
}

} // verus!

verus! {

/// `a < b` in the order of `String`: lexicographic by character.
pub open spec fn lex_lt(a: Seq<char>, b: Seq<char>) -> bool
    decreases a.len(),
{
    if a.len() == 0 {
        b.len() > 0
    } else if b.len() == 0 {
        false
    } else if a[0] != b[0] {
        (a[0] as u32) < (b[0] as u32)
    } else {
        lex_lt(a.drop_first(), b.drop_first())
    }
}

pub proof fn lemma_lex_irreflexive(a: Seq<char>)
    ensures
        !lex_lt(a, a),
    decreases a.len(),
{
    if a.len() > 0 {
        lemma_lex_irreflexive(a.drop_first());
    }
}

pub proof fn lemma_lex_total(a: Seq<char>, b: Seq<char>)
    ensures
        a != b ==> lex_lt(a, b) || lex_lt(b, a),
    decreases a.len(),
{
    broadcast use vstd::utf8::char_u32_cast;

    if a.len() > 0 && b.len() > 0 {
        if a[0] == b[0] {
            lemma_lex_total(a.drop_first(), b.drop_first());
            if a.drop_first() == b.drop_first() {
                assert(a =~= seq![a[0]] + a.drop_first());
                assert(b =~= seq![b[0]] + b.drop_first());
            }
        } else {
            if (a[0] as u32) == (b[0] as u32) {
                vstd::utf8::char_u32_cast(a[0], a[0] as u32);
                vstd::utf8::char_u32_cast(b[0], b[0] as u32);
            }
        }
    } else if a.len() == 0 && b.len() == 0 {
        assert(a =~= b);
    }
}

pub proof fn lemma_lex_transitive(a: Seq<char>, b: Seq<char>, c: Seq<char>)
    requires
        lex_lt(a, b),
        lex_lt(b, c),
    ensures
        lex_lt(a, c),
    decreases a.len(),
{
    if a.len() > 0 && b.len() > 0 && c.len() > 0 {
        if a[0] == b[0] && b[0] == c[0] {
            lemma_lex_transitive(a.drop_first(), b.drop_first(), c.drop_first());
        }
    }
}

/// `lex_lt(a, b)`, computed.
pub fn lex_less(a: &[char], b: &[char]) -> (r: bool)
    ensures
        r == lex_lt(a@, b@),
{
    let mut i: usize = 0;
    assert(a@.skip(0) =~= a@);
    assert(b@.skip(0) =~= b@);
    while i < a.len() && i < b.len() && a[i] == b[i]
        invariant
            i <= a.len(),
            i <= b.len(),
            lex_lt(a@, b@) == lex_lt(a@.skip(i as int), b@.skip(i as int)),
        decreases a.len() - i,
    {
        assert(a@.skip(i as int).drop_first() =~= a@.skip(i + 1));
        assert(b@.skip(i as int).drop_first() =~= b@.skip(i + 1));
        i = i + 1;
    }
    if i == a.len() {
        i < b.len()
    } else if i == b.len() {
        false
    } else {
        (a[i] as u32) < (b[i] as u32)
    }
}

} // verus!
