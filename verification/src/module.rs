//! Reading a compiled module back: the checks the runtime makes before it
//! hands the files to the interpreter, the file lookup the interpreter's
//! loader uses, and the choice of the component to instantiate.

use vstd::prelude::*;

use std::hash::Hasher;

use crate::json::{member, JsonNumber, JsonValue};
use crate::paths::{forward_slashes, normalize_key};
use crate::text::{chars_of, decimal, decimal_of, ends_with, ends_with_exec, push_all, str_eq, string_of, text};

verus! {

/// The module layout this runtime reads.
pub const MODULE_VERSION: u64 = 1;

/// What the runtime needs of a module: the main file's virtual path and
/// source, every file by its normalized virtual path, and the style.
#[derive(Debug, PartialEq)]
pub struct ModuleSource {
    pub main: String,
    pub main_source: String,
    pub files: Vec<(String, String)>,
    pub style: Option<String>,
}

/// `value.get(key)` of `serde_json`: the member of an object, `None` for
/// anything else.
pub open spec fn get(value: JsonValue, key: Seq<char>) -> Option<JsonValue> {
    match value {
        JsonValue::Object(e) => member(e@, key),
        _ => None,
    }
}

/// `as_u64` of `serde_json`.
pub open spec fn as_u64(value: Option<JsonValue>) -> Option<u64> {
    match value {
        Some(JsonValue::Number(JsonNumber::Unsigned(n))) => Some(n),
        _ => None,
    }
}

/// `as_str` of `serde_json`.
pub open spec fn as_str(value: Option<JsonValue>) -> Option<Seq<char>> {
    match value {
        Some(JsonValue::String(s)) => Some(s@),
        _ => None,
    }
}

/// The version a module declares; 0 when it declares none.
pub open spec fn version_of(module: JsonValue) -> u64 {
    match as_u64(get(module, "v"@)) {
        Some(n) => n,
        None => 0,
    }
}

/// The files of a module object `e` keyed by normalized path (a later entry
/// replaces an earlier one with the same key), or the first entry whose
/// value is not a string.
pub open spec fn module_files(e: Seq<(String, JsonValue)>) -> Result<Map<Seq<char>, Seq<char>>, Seq<char>>
    decreases e.len(),
{
    if e.len() == 0 {
        Ok(Map::empty())
    } else {
        match module_files(e.drop_last()) {
            Err(msg) => Err(msg),
            Ok(m) => match e.last().1 {
                JsonValue::String(s) => Ok(m.insert(forward_slashes(e.last().0@), s@)),
                _ => Err("compiled module file "@ + e.last().0@ + " is not a string"@),
            },
        }
    }
}

/// What the runtime reads from a module, or why it refuses it.
pub open spec fn read_module_of(module: JsonValue) -> Result<
    (Seq<char>, Seq<char>, Map<Seq<char>, Seq<char>>, Option<Seq<char>>),
    Seq<char>,
> {
    let version = version_of(module);
    if version != 1 {
        Err("unsupported compiled Slint module version "@ + decimal(version as nat))
    } else {
        match as_str(get(module, "main"@)) {
            None => Err("compiled module is missing main"@),
            Some(main) => match get(module, "files"@) {
                Some(JsonValue::Object(e)) => match module_files(e@) {
                    Err(msg) => Err(msg),
                    Ok(files) => if files.contains_key(forward_slashes(main)) {
                        Ok(
                            (
                                main,
                                files[forward_slashes(main)],
                                files,
                                match as_str(get(module, "style"@)) {
                                    Some(s) => if s.len() > 0 {
                                        Some(s)
                                    } else {
                                        None
                                    },
                                    None => None,
                                },
                            ),
                        )
                    } else {
                        Err("compiled module is missing its main file"@)
                    },
                },
                _ => Err("compiled module is missing files"@),
            },
        }
    }
}

/// Executable [`get`].
fn get_member<'a>(value: &'a JsonValue, key: &str) -> (r: Option<&'a JsonValue>)
    ensures
        match r {
            Some(v) => get(*value, key@) == Some(*v),
            None => get(*value, key@) is None,
        },
{
    match value {
        JsonValue::Object(e) => match crate::json::find_member(e, key) {
            Some(i) => Some(&e[i].1),
            None => None,
        },
        _ => None,
    }
}

fn message(a: &str, b: &[char], c: &str) -> (r: String)
    ensures
        r@ == a@ + b@ + c@,
{
    let mut out = chars_of(a);
    push_all(&mut out, b);
    push_all(&mut out, chars_of(c).as_slice());
    string_of(out.as_slice())
}

/// Check a decoded module and take out what the runtime compiles: refuses
/// a version other than 1, a module without `main` or `files`, a file that
/// is not a string, and a main file that is not among the files.
pub fn read_module(module: &JsonValue) -> (r: Result<ModuleSource, String>)
    ensures
        match read_module_of(*module) {
            Ok((main, main_source, files, style)) => r matches Ok(m) && m.main@ == main
                && m.main_source@ == main_source && crate::strmap::keys_distinct(m.files@)
                && crate::strmap::map_of(m.files@) == files && match m.style {
                Some(s) => style == Some(s@),
                None => style is None,
            },
            Err(e) => r matches Err(msg) && msg@ == e,
        },
{
    let version: u64 = match get_member(module, "v") {
        Some(JsonValue::Number(JsonNumber::Unsigned(n))) => *n,
        _ => 0,
    };
    if version != MODULE_VERSION {
        let mut out = chars_of("unsupported compiled Slint module version ");
        push_all(&mut out, decimal_of(version).as_slice());
        return Err(string_of(out.as_slice()));
    }
    let main = match get_member(module, "main") {
        Some(JsonValue::String(s)) => s.clone(),
        _ => return Err(string_of(chars_of("compiled module is missing main").as_slice())),
    };
    let entries = match get_member(module, "files") {
        Some(JsonValue::Object(e)) => e,
        _ => return Err(string_of(chars_of("compiled module is missing files").as_slice())),
    };
    let mut files = crate::strmap::StrMap::new();
    let mut i: usize = 0;
    while i < entries.len()
        invariant
            version_of(*module) == 1,
            as_str(get(*module, "main"@)) == Some(main@),
            get(*module, "files"@) == Some(JsonValue::Object(*entries)),
            i <= entries.len(),
            files.wf(),
            module_files(entries@.take(i as int)) == Ok::<Map<Seq<char>, Seq<char>>, Seq<char>>(files@),
        decreases entries.len() - i,
    {
        proof {
            assert(entries@.take(i + 1).drop_last() =~= entries@.take(i as int));
        }
        match &entries[i].1 {
            JsonValue::String(s) => {
                files.insert(normalize_key(entries[i].0.as_str()), s.clone());
            },
            _ => {
                let msg = message(
                    "compiled module file ",
                    chars_of(entries[i].0.as_str()).as_slice(),
                    " is not a string",
                );
                proof {
                    assert(entries@.take(i + 1).last() == entries@[i as int]);
                    assert(module_files(entries@.take(i + 1)) == Err::<Map<Seq<char>, Seq<char>>, Seq<char>>(msg@));
                    lemma_module_files_stuck(entries@, i + 1);
                }
                return Err(msg);
            },
        }
        i = i + 1;
    }
    assert(entries@.take(entries.len() as int) =~= entries@);
    let key = normalize_key(main.as_str());
    let main_source = match files.position(key.as_str()) {
        Some(k) => {
            proof {
                crate::strmap::lemma_map_of(files.entries@);
            }
            files.entries[k].1.clone()
        },
        None => {
            return Err(string_of(chars_of("compiled module is missing its main file").as_slice()))
        },
    };
    let style = match get_member(module, "style") {
        Some(JsonValue::String(s)) => {
            if crate::text::chars_of(s.as_str()).len() > 0 {
                Some(s.clone())
            } else {
                None
            }
        },
        _ => None,
    };
    Ok(ModuleSource { main, main_source, files: files.entries, style })
}

proof fn lemma_module_files_stuck(e: Seq<(String, JsonValue)>, k: int)
    requires
        0 <= k <= e.len(),
        module_files(e.take(k)) is Err,
    ensures
        module_files(e) == module_files(e.take(k)),
    decreases e.len() - k,
{
    if k < e.len() {
        assert(e.take(k + 1).drop_last() =~= e.take(k));
        lemma_module_files_stuck(e, k + 1);
    } else {
        assert(e.take(k) =~= e);
    }
}

} // verus!

verus! {

/// The source stored under exactly `requested`, searching from `i`.
pub open spec fn exact_from(files: Seq<(String, String)>, requested: Seq<char>, i: int) -> Option<
    Seq<char>,
>
    decreases files.len() - i,
{
    if i < 0 || i >= files.len() {
        None
    } else if files[i].0@ == requested {
        Some(files[i].1@)
    } else {
        exact_from(files, requested, i + 1)
    }
}

/// One of the two paths ends with the other.
pub open spec fn suffix_related(a: Seq<char>, b: Seq<char>) -> bool {
    ends_with(a, b) || ends_with(b, a)
}

/// The source of the first file whose key and `requested` end one with the
/// other, searching from `i`.
pub open spec fn suffix_from(files: Seq<(String, String)>, requested: Seq<char>, i: int) -> Option<
    Seq<char>,
>
    decreases files.len() - i,
{
    if i < 0 || i >= files.len() {
        None
    } else if suffix_related(requested, files[i].0@) {
        Some(files[i].1@)
    } else {
        suffix_from(files, requested, i + 1)
    }
}

/// What the interpreter's file loader gets for `requested`: the file stored
/// under that exact key, else the first file whose key and `requested` end
/// one with the other, else nothing.
pub open spec fn lookup_file_of(files: Seq<(String, String)>, requested: Seq<char>) -> Option<
    Seq<char>,
> {
    match exact_from(files, requested, 0) {
        Some(s) => Some(s),
        None => suffix_from(files, requested, 0),
    }
}

/// The source of the file the interpreter asks for (see
/// [`lookup_file_of`]).
pub fn lookup_file(files: &Vec<(String, String)>, requested: &str) -> (r: Option<String>)
    ensures
        match r {
            Some(s) => lookup_file_of(files@, requested@) == Some(s@),
            None => lookup_file_of(files@, requested@) is None,
        },
{
    let mut i: usize = 0;
    while i < files.len()
        invariant
            i <= files.len(),
            exact_from(files@, requested@, 0) == exact_from(files@, requested@, i as int),
        decreases files.len() - i,
    {
        if str_eq(files[i].0.as_str(), requested) {
            return Some(files[i].1.clone());
        }
        i = i + 1;
    }
    let req = chars_of(requested);
    let mut i: usize = 0;
    while i < files.len()
        invariant
            req@ == requested@,
            exact_from(files@, requested@, 0) is None,
            i <= files.len(),
            suffix_from(files@, requested@, 0) == suffix_from(files@, requested@, i as int),
        decreases files.len() - i,
    {
        let key = chars_of(files[i].0.as_str());
        if ends_with_exec(req.as_slice(), key.as_slice()) || ends_with_exec(
            key.as_slice(),
            req.as_slice(),
        ) {
            return Some(files[i].1.clone());
        }
        i = i + 1;
    }
    None
}

/// The parts joined, with `sep` between each two.
pub open spec fn join_with(parts: Seq<Seq<char>>, sep: Seq<char>) -> Seq<char>
    decreases parts.len(),
{
    if parts.len() == 0 {
        seq![]
    } else if parts.len() == 1 {
        parts[0]
    } else {
        join_with(parts.drop_last(), sep) + sep + parts.last()
    }
}

/// `parts.join(sep)`.
pub fn join(parts: &Vec<String>, sep: &str) -> (r: String)
    ensures
        r@ == join_with(crate::paths::views(parts@), sep@),
{
    let mut out: Vec<char> = Vec::new();
    let sep_chars = chars_of(sep);
    let mut i: usize = 0;
    while i < parts.len()
        invariant
            sep_chars@ == sep@,
            i <= parts.len(),
            out@ == join_with(crate::paths::views(parts@).take(i as int), sep@),
        decreases parts.len() - i,
    {
        let ghost v = crate::paths::views(parts@);
        assert(v.take(i + 1).drop_last() =~= v.take(i as int));
        if i > 0 {
            push_all(&mut out, sep_chars.as_slice());
        } else {
            assert(out@ =~= Seq::<char>::empty());
        }
        push_all(&mut out, chars_of(parts[i].as_str()).as_slice());
        i = i + 1;
        assert(out@ =~= join_with(v.take(i as int), sep@));
    }
    assert(crate::paths::views(parts@).take(parts.len() as int) =~= crate::paths::views(parts@));
    string_of(out.as_slice())
}

/// `format!("{:?}", s)` of a string: quoted, with escapes.
pub uninterp spec fn debug_str(s: Seq<char>) -> Seq<char>;

/// A character that `Debug` for `str` writes as itself: printable ASCII
/// other than the quote characters and the backslash.
pub open spec fn debug_plain_char(c: char) -> bool {
    &&& ' ' <= c <= '~'
    &&& c != '"'
    &&& c != '\\'
    &&& c != '\''
}

/// Formats `s` with `Debug` (`format!("{s:?}")`). Of the outcome the contract
/// states only the plain case: a string of printable ASCII characters without
/// quotes or backslashes comes back between double quotes, unchanged; the
/// escapes written for other characters are left to the name `debug_str`.
#[verifier::external_body]
pub(crate) fn debug_quoted(s: &str) -> (r: String)
    ensures
        r@ == debug_str(s@),
        (forall|i: int| 0 <= i < s@.len() ==> debug_plain_char(#[trigger] s@[i]))
            ==> r@ == seq!['"'] + s@ + seq!['"'],
{
    format!("{s:?}")
}

/// The component a loaded module instantiates: `component` by name when it
/// is given and not empty, else the last exported one.
pub open spec fn pick_component_of(names: Seq<Seq<char>>, component: Option<Seq<char>>) -> Result<int, Seq<char>> {
    match component {
        Some(name) if name.len() > 0 => {
            if exists|i: int| 0 <= i < names.len() && names[i] == name {
                Ok(choose|i: int| 0 <= i < names.len() && names[i] == name && forall|j: int| 0 <= j < i ==> names[j] != name)
            } else {
                Err("no component named "@ + debug_str(name) + "; the module exports ["@ + join_with(names, ", "@) + "]"@)
            }
        },
        _ => if names.len() == 0 {
            Err("the compiled module exports no instantiable component"@)
        } else {
            Ok(names.len() - 1)
        },
    }
}

/// Pick the component to instantiate among the exported `names` (see
/// [`pick_component_of`]); the result is its index.
pub fn pick_component(names: &Vec<String>, component: Option<&str>) -> (r: Result<usize, String>)
    ensures
        match pick_component_of(crate::paths::views(names@), match component { Some(c) => Some(c@), None => None }) {
            Ok(i) => r == Ok::<usize, String>(i as usize),
            Err(e) => r matches Err(msg) && msg@ == e,
        },
{
    let ghost v = crate::paths::views(names@);
    match component {
        Some(name) if chars_of(name).len() > 0 => {
            let mut i: usize = 0;
            while i < names.len()
                invariant
                    v == crate::paths::views(names@),
                    name@.len() > 0,
                    component == Some(name),
                    i <= names.len(),
                    forall|j: int| 0 <= j < i ==> v[j] != name@,
                decreases names.len() - i,
            {
                if str_eq(names[i].as_str(), name) {
                    assert(v[i as int] == name@);
                    assert(exists|k: int| 0 <= k < v.len() && v[k] == name@);
                    let ghost w = choose|k: int| 0 <= k < v.len() && v[k] == name@ && forall|j: int| 0 <= j < k ==> v[j] != name@;
                    assert(w == i) by {
                        if w < i {
                            assert(v[w] != name@);
                        } else if w > i {
                            assert(v[i as int] != name@);
                        }
                    }
                    return Ok(i);
                }
                i = i + 1;
            }
            let mut out = chars_of("no component named ");
            push_all(&mut out, chars_of(debug_quoted(name).as_str()).as_slice());
            push_all(&mut out, chars_of("; the module exports [").as_slice());
            push_all(&mut out, chars_of(join(names, ", ").as_str()).as_slice());
            push_all(&mut out, chars_of("]").as_slice());
            Err(string_of(out.as_slice()))
        },
        _ => {
            if names.len() == 0 {
                Err(string_of(chars_of("the compiled module exports no instantiable component").as_slice()))
            } else {
                Ok(names.len() - 1)
            }
        },
    }
}

/// What hashing the text `blob` with a fresh `DefaultHasher` gives: its
/// UTF-8 bytes are written, then the byte `0xff` that ends a string.
pub open spec fn blob_hash_of(blob: Seq<char>) -> u64 {
    <std::collections::hash_map::DefaultHasher as vstd::std_specs::hash::DefaultHasherAdditionalSpecFns>::spec_finish(
        seq![vstd::utf8::encode_utf8(blob), seq![0xffu8]],
    )
}

/// The key a module blob is cached under.
pub fn blob_hash(blob: &str) -> (h: u64)
    ensures
        h == blob_hash_of(blob@),
{
    let mut hasher = std::collections::hash_map::DefaultHasher::new();
    let mut end: Vec<u8> = Vec::new();
    end.push(0xff);
    hasher.write(blob.as_bytes());
    hasher.write(end.as_slice());
    proof {
        assert(end@ =~= seq![0xffu8]);
        assert(hasher@ =~= seq![vstd::utf8::encode_utf8(blob@), seq![0xffu8]]);
    }
    hasher.finish()
}

} // verus!

verus! {

/// The modules compiled so far in this process, by the hash of their blob:
/// a blob is compiled the first time it is loaded and reused after that.
pub struct ModuleCache<T> {
    modules: std::collections::HashMap<u64, T>,
}

impl<T> View for ModuleCache<T> {
    type V = Map<u64, T>;

    closed spec fn view(&self) -> Map<u64, T> {
        self.modules@
    }
}

impl<T> ModuleCache<T> {
    /// A cache that holds nothing.
    pub fn new() -> (c: Self)
        ensures
            c@ == Map::<u64, T>::empty(),
    {
        ModuleCache { modules: std::collections::HashMap::new() }
    }

    /// Whether the module of the blob with this hash has to be compiled:
    /// it has not been before.
    pub fn needs_compile(&self, hash: u64) -> (b: bool)
        ensures
            b == !self@.contains_key(hash),
    {
        broadcast use vstd::std_specs::hash::group_hash_axioms;

        !self.modules.contains_key(&hash)
    }

    /// Keep the module compiled from the blob with this hash.
    pub fn remember(&mut self, hash: u64, module: T)
        ensures
            final(self)@ == old(self)@.insert(hash, module),
    {
        broadcast use vstd::std_specs::hash::group_hash_axioms;

        self.modules.insert(hash, module);
    }

    /// The module compiled from the blob with this hash, if it was.
    pub fn module(&self, hash: u64) -> (r: Option<&T>)
        ensures
            match r {
                Some(m) => self@.contains_key(hash) && *m == self@[hash],
                None => !self@.contains_key(hash),
            },
    {
        broadcast use vstd::std_specs::hash::group_hash_axioms;

        self.modules.get(&hash)
    }
}

/// A module kept under a hash is found under it, so its blob is not
/// compiled again; the modules kept under other hashes stay as they were.
pub proof fn law_a_remembered_module_is_reused<T>(before: Map<u64, T>, after: Map<u64, T>, hash: u64, module: T)
    requires
        after == before.insert(hash, module),
    ensures
        after.contains_key(hash),
        after[hash] == module,
        forall|other: u64| other != hash ==> (#[trigger] after.contains_key(other)) == before.contains_key(other)
            && (before.contains_key(other) ==> after[other] == before[other]),
{
}

} // verus!

verus! {

/// The files of a module object whose members all hold text, under keys
/// that differ from one another and need no normalizing, are exactly those
/// members.
proof fn lemma_module_files_exact(e: Seq<(String, JsonValue)>)
    requires
        forall|i: int| 0 <= i < e.len() ==> (#[trigger] e[i]).1 is String && forward_slashes(e[i].0@) == e[i].0@,
        forall|i: int, k: int| 0 <= i < k < e.len() ==> (#[trigger] e[i]).0@ != (#[trigger] e[k]).0@,
    ensures
        module_files(e) is Ok,
        forall|i: int| 0 <= i < e.len() ==> module_files(e)->Ok_0.contains_key((#[trigger] e[i]).0@)
            && module_files(e)->Ok_0[e[i].0@] == e[i].1->String_0@,
        forall|key: Seq<char>| #[trigger] module_files(e)->Ok_0.contains_key(key) ==> exists|i: int|
            0 <= i < e.len() && (#[trigger] e[i]).0@ == key,
    decreases e.len(),
{
    if e.len() > 0 {
        let rest = e.drop_last();
        assert forall|i: int, k: int| 0 <= i < k < rest.len() implies (#[trigger] rest[i]).0@ != (#[trigger] rest[k]).0@ by {
            assert(rest[i] == e[i] && rest[k] == e[k]);
        }
        assert forall|i: int| 0 <= i < rest.len() implies (#[trigger] rest[i]).1 is String && forward_slashes(rest[i].0@) == rest[i].0@ by {
            assert(rest[i] == e[i]);
        }
        lemma_module_files_exact(rest);
        let last = e[e.len() - 1];
        assert(e.last() == last);
        let f = module_files(e)->Ok_0;
        assert forall|i: int| 0 <= i < e.len() implies f.contains_key((#[trigger] e[i]).0@) && f[e[i].0@] == e[i].1->String_0@ by {
            if i < e.len() - 1 {
                assert(rest[i] == e[i]);
                assert(e[i].0@ != last.0@);
            }
        }
        assert forall|key: Seq<char>| #[trigger] f.contains_key(key) implies exists|i: int| 0 <= i < e.len() && (#[trigger] e[i]).0@ == key by {
            if key != last.0@ {
                assert(module_files(rest)->Ok_0.contains_key(key));
                let i = choose|i: int| 0 <= i < rest.len() && (#[trigger] rest[i]).0@ == key;
                assert(rest[i] == e[i]);
            }
        }
    }
}

/// What a module holds, the runtime reads back: the main file's virtual
/// path and source, every bundled file under its virtual path, and the
/// style (when it is not empty).
pub proof fn law_a_bundled_module_reads_back(
    files: Seq<crate::bundle::BundledFile>,
    main_path: Option<Seq<char>>,
    res: Seq<crate::bundle::Resource>,
    style: Option<Seq<char>>,
    module: JsonValue,
)
    requires
        crate::bundle::bundle_of(files, main_path, res) is Ok,
        crate::bundle::module_json(
            module,
            crate::bundle::bundle_of(files, main_path, res)->Ok_0.0,
            style,
            crate::bundle::bundle_of(files, main_path, res)->Ok_0.1,
            crate::bundle::bundle_of(files, main_path, res)->Ok_0.2,
        ),
    ensures
        ({
            let (main, sources, _) = crate::bundle::bundle_of(files, main_path, res)->Ok_0;
            read_module_of(module) == Ok::<(Seq<char>, Seq<char>, Map<Seq<char>, Seq<char>>, Option<Seq<char>>), Seq<char>>(
                (
                    main,
                    sources[main],
                    sources,
                    match style {
                        Some(s) => if s.len() > 0 {
                            Some(s)
                        } else {
                            None
                        },
                        None => None,
                    },
                ),
            )
        }),
{
    reveal_strlit("v");
    reveal_strlit("style");
    reveal_strlit("main");
    reveal_strlit("files");
    let (main, sources, assets) = crate::bundle::bundle_of(files, main_path, res)->Ok_0;
    let root = crate::paths::common_directory_of(crate::bundle::file_paths(files));
    let mapping = crate::bundle::mapping_of(files, root);
    crate::bundle::lemma_lookup_is_a_virtual_path(files, root, main_path->0, 0);
    let k = choose|k: int| 0 <= k < files.len() && main == crate::paths::virtual_path_of((#[trigger] files[k]).path@, root);
    crate::bundle::lemma_bundled_keys(files, root, mapping, res);
    assert(sources.contains_key(main));
    crate::bundle::lemma_virtual_path_normalized(files[k].path@, root);
    let e = module->Object_0@;
    assert("v"@.len() == 1 && "style"@.len() == 5 && "main"@.len() == 4 && "files"@.len() == 5);
    assert("style"@[0] != "files"@[0]);
    assert("v"@ != "style"@ && "v"@ != "main"@ && "v"@ != "files"@);
    assert("style"@ != "main"@ && "style"@ != "files"@ && "main"@ != "files"@);
    crate::json::lemma_member_from(e, "v"@, 0);
    crate::json::lemma_member_from(e, "style"@, 0);
    crate::json::lemma_member_from(e, "main"@, 0);
    crate::json::lemma_member_from(e, "files"@, 0);
    assert(get(module, "v"@) == Some(e[0].1));
    assert(get(module, "style"@) == Some(e[1].1));
    assert(get(module, "main"@) == Some(e[2].1));
    assert(get(module, "files"@) == Some(e[3].1));
    let fe = e[3].1->Object_0@;
    assert forall|i: int| 0 <= i < fe.len() implies (#[trigger] fe[i]).1 is String && forward_slashes(fe[i].0@) == fe[i].0@ by {
        assert(sources.contains_key(fe[i].0@));
        let m = choose|m: int| 0 <= m < files.len() && fe[i].0@ == crate::paths::virtual_path_of((#[trigger] files[m]).path@, root);
        crate::bundle::lemma_virtual_path_normalized(files[m].path@, root);
    }
    lemma_module_files_exact(fe);
    let f = module_files(fe)->Ok_0;
    assert(f =~= sources) by {
        assert forall|key: Seq<char>| f.contains_key(key) <==> sources.contains_key(key) by {
            if sources.contains_key(key) {
                let i = choose|i: int| 0 <= i < fe.len() && (#[trigger] fe[i]).0@ == key;
            }
        }
        assert forall|key: Seq<char>| #[trigger] f.contains_key(key) implies f[key] == sources[key] by {
            let i = choose|i: int| 0 <= i < fe.len() && (#[trigger] fe[i]).0@ == key;
        }
    }
}

} // verus!

verus! {

/// The bytes whose standard base64 text is `text`, if there are any.
pub open spec fn asset_bytes(text: Seq<char>) -> Option<Seq<u8>> {
    if exists|b: Seq<u8>| crate::blob::base64_standard(b) == text {
        Some(choose|b: Seq<u8>| crate::blob::base64_standard(b) == text)
    } else {
        None
    }
}

/// The assets that the members `e` of a module's `assets` object carry, each
/// virtual path with the bytes its base64 text decodes to, in order; or the
/// first member that is not such a text.
pub open spec fn assets_from(e: Seq<(String, JsonValue)>) -> Result<Seq<(Seq<char>, Seq<u8>)>, Seq<char>>
    decreases e.len(),
{
    if e.len() == 0 {
        Ok(seq![])
    } else {
        match assets_from(e.drop_last()) {
            Err(m) => Err(m),
            Ok(v) => match e.last().1 {
                JsonValue::String(t) => match asset_bytes(t@) {
                    Some(b) => Ok(v.push((e.last().0@, b))),
                    None => Err("compiled module asset "@ + e.last().0@ + " is not base64"@),
                },
                _ => Err("compiled module asset "@ + e.last().0@ + " is not a string"@),
            },
        }
    }
}

/// The files a module carries besides its sources (images and fonts), to
/// be written out under their virtual paths before the sources compile: none
/// when the module has no `assets`, else what [`assets_from`] reads.
pub open spec fn module_assets_of(module: JsonValue) -> Result<Seq<(Seq<char>, Seq<u8>)>, Seq<char>> {
    match get(module, "assets"@) {
        None => Ok(seq![]),
        Some(JsonValue::Object(e)) => assets_from(e@),
        Some(_) => Err("compiled module assets are not an object"@),
    }
}

/// Once reading the assets fails, the later members change nothing.
proof fn lemma_assets_stuck(e: Seq<(String, JsonValue)>, n: int)
    requires
        0 <= n <= e.len(),
        assets_from(e.take(n)) is Err,
    ensures
        assets_from(e) == assets_from(e.take(n)),
    decreases e.len() - n,
{
    if n < e.len() {
        assert(e.take(n + 1).drop_last() =~= e.take(n));
        lemma_assets_stuck(e, n + 1);
    } else {
        assert(e.take(n) =~= e);
    }
}

/// Take out the assets of a decoded module (see [`module_assets_of`]).
pub fn module_assets(module: &JsonValue) -> (r: Result<Vec<(String, Vec<u8>)>, String>)
    ensures
        match module_assets_of(*module) {
            Ok(v) => r matches Ok(a) && a@.len() == v.len() && forall|i: int|
                0 <= i < v.len() ==> (#[trigger] a@[i]).0@ == v[i].0 && a@[i].1@ == v[i].1,
            Err(e) => r matches Err(m) && m@ == e,
        },
{
    let e = match get_member(module, "assets") {
        None => return Ok(Vec::new()),
        Some(JsonValue::Object(e)) => e,
        Some(_) => return Err(text("compiled module assets are not an object")),
    };
    let mut out: Vec<(String, Vec<u8>)> = Vec::new();
    let mut i: usize = 0;
    while i < e.len()
        invariant
            get(*module, "assets"@) == Some(JsonValue::Object(*e)),
            i <= e.len(),
            assets_from(e@.take(i as int)) matches Ok(v) && out@.len() == v.len() && forall|k: int|
                0 <= k < v.len() ==> (#[trigger] out@[k]).0@ == v[k].0 && out@[k].1@ == v[k].1,
        decreases e.len() - i,
    {
        proof {
            assert(e@.take(i + 1).drop_last() =~= e@.take(i as int));
            assert(e@.take(i + 1).last() == e@[i as int]);
        }
        let ghost v = assets_from(e@.take(i as int))->Ok_0;
        let key = &e[i].0;
        match &e[i].1 {
            JsonValue::String(t) => match crate::blob::base64_decode(t.as_str()) {
                Ok(bytes) => {
                    proof {
                        let w = choose|b: Seq<u8>| crate::blob::base64_standard(b) == t@;
                        crate::blob::lemma_base64_injective(bytes@, w);
                    }
                    let ghost before = out@;
                    out.push((key.clone(), bytes));
                    assert(forall|k: int| 0 <= k < before.len() ==> out@[k] == before[k]);
                },
                Err(_) => {
                    proof {
                        lemma_assets_stuck(e@, i + 1);
                    }
                    return Err(message("compiled module asset ", chars_of(key.as_str()).as_slice(), " is not base64"));
                },
            },
            _ => {
                proof {
                    lemma_assets_stuck(e@, i + 1);
                }
                return Err(message("compiled module asset ", chars_of(key.as_str()).as_slice(), " is not a string"));
            },
        }
        i = i + 1;
    }
    assert(e@.take(e.len() as int) =~= e@);
    Ok(out)
}

/// Members that are all base64 texts read as their bytes, one for one.
proof fn lemma_assets_from_texts(e: Seq<(String, JsonValue)>)
    requires
        forall|i: int| 0 <= i < e.len() ==> ((#[trigger] e[i]).1 matches JsonValue::String(t)
            && exists|b: Seq<u8>| crate::blob::base64_standard(b) == t@),
    ensures
        assets_from(e) matches Ok(v) && v.len() == e.len() && forall|i: int| 0 <= i < e.len() ==> (
            e[i].1 matches JsonValue::String(t) && (#[trigger] v[i]).0 == e[i].0@
            && crate::blob::base64_standard(v[i].1) == t@),
    decreases e.len(),
{
    if e.len() > 0 {
        let rest = e.drop_last();
        assert forall|i: int| 0 <= i < rest.len() implies ((#[trigger] rest[i]).1 matches JsonValue::String(t)
            && exists|b: Seq<u8>| crate::blob::base64_standard(b) == t@) by {
            assert(rest[i] == e[i]);
        }
        lemma_assets_from_texts(rest);
        let v = assets_from(rest)->Ok_0;
        assert(e.last() == e[e.len() - 1]);
        let w = assets_from(e)->Ok_0;
        assert forall|i: int| 0 <= i < e.len() implies (e[i].1 matches JsonValue::String(t)
            && (#[trigger] w[i]).0 == e[i].0@ && crate::blob::base64_standard(w[i].1) == t@) by {
            if i < rest.len() {
                assert(rest[i] == e[i]);
                assert(w[i] == v[i]);
            }
        }
    }
}

/// What a module stores as an asset, loading it gives back: when each asset
/// text is the base64 of some bytes (as bundling writes it), reading the
/// assets succeeds with one entry per asset, under its virtual path, holding
/// exactly the bytes whose base64 the module carries.
pub proof fn law_module_assets_read_back(
    module: JsonValue,
    main: Seq<char>,
    style: Option<Seq<char>>,
    files: Map<Seq<char>, Seq<char>>,
    assets: Map<Seq<char>, Seq<char>>,
)
    requires
        crate::bundle::module_json(module, main, style, files, assets),
        crate::bundle::base64_values(assets),
    ensures
        module_assets_of(module) matches Ok(v) && v.len() == assets.len()
            && (forall|i: int| 0 <= i < v.len() ==> assets.contains_key((#[trigger] v[i]).0)
                && crate::blob::base64_standard(v[i].1) == assets[v[i].0])
            && (forall|k: Seq<char>| #[trigger] assets.contains_key(k) ==> exists|i: int|
                0 <= i < v.len() && v[i].0 == k),
{
    reveal_strlit("v");
    reveal_strlit("style");
    reveal_strlit("main");
    reveal_strlit("files");
    reveal_strlit("assets");
    let e = module->Object_0@;
    assert("assets"@.len() == 6 && "v"@.len() == 1 && "style"@.len() == 5 && "main"@.len() == 4);
    assert("assets"@ != "files"@) by {
        assert("assets"@[0] != "files"@[0]);
    }
    crate::json::lemma_member_from(e, "assets"@, 0);
    if assets.len() == 0 {
        assert(assets.dom() =~= Set::<Seq<char>>::empty()) by {
            if exists|k: Seq<char>| assets.dom().contains(k) {
                let k = choose|k: Seq<char>| assets.dom().contains(k);
                assets.dom().lemma_len0_is_empty();
            }
        }
        assert(get(module, "assets"@) is None);
    } else {
        assert(get(module, "assets"@) == Some(e[4].1));
        let ae = e[4].1->Object_0@;
        assert forall|i: int| 0 <= i < ae.len() implies ((#[trigger] ae[i]).1 matches JsonValue::String(t)
            && exists|b: Seq<u8>| crate::blob::base64_standard(b) == t@) by {
            assert(assets.contains_key(ae[i].0@));
        }
        lemma_assets_from_texts(ae);
        let v = assets_from(ae)->Ok_0;
        assert forall|k: Seq<char>| #[trigger] assets.contains_key(k) implies exists|i: int|
            0 <= i < v.len() && v[i].0 == k by {
            let i = choose|i: int| 0 <= i < ae.len() && (#[trigger] ae[i]).0@ == k;
            assert(v[i].0 == ae[i].0@);
        }
        assert forall|i: int| 0 <= i < v.len() implies assets.contains_key((#[trigger] v[i]).0)
            && crate::blob::base64_standard(v[i].1) == assets[v[i].0] by {
            assert(v[i].0 == ae[i].0@);
            assert(assets.contains_key(ae[i].0@));
        }
    }
}

/// A bundled module carries its images and fonts: loading it gives back
/// each asset the bundle collected, under its virtual path, with the bytes
/// that bundling encoded.
pub proof fn law_a_bundled_module_carries_its_assets(
    files: Seq<crate::bundle::BundledFile>,
    main_path: Option<Seq<char>>,
    res: Seq<crate::bundle::Resource>,
    style: Option<Seq<char>>,
    module: JsonValue,
)
    requires
        crate::bundle::bundle_of(files, main_path, res) is Ok,
        crate::bundle::module_json(
            module,
            crate::bundle::bundle_of(files, main_path, res)->Ok_0.0,
            style,
            crate::bundle::bundle_of(files, main_path, res)->Ok_0.1,
            crate::bundle::bundle_of(files, main_path, res)->Ok_0.2,
        ),
    ensures
        ({
            let assets = crate::bundle::bundle_of(files, main_path, res)->Ok_0.2;
            module_assets_of(module) matches Ok(v) && v.len() == assets.len()
                && (forall|i: int| 0 <= i < v.len() ==> assets.contains_key((#[trigger] v[i]).0)
                    && crate::blob::base64_standard(v[i].1) == assets[v[i].0])
                && (forall|k: Seq<char>| #[trigger] assets.contains_key(k) ==> exists|i: int|
                    0 <= i < v.len() && v[i].0 == k)
        }),
{
    let (main, sources, assets) = crate::bundle::bundle_of(files, main_path, res)->Ok_0;
    crate::bundle::lemma_bundle_assets_base64(files, main_path, res);
    law_module_assets_read_back(module, main, style, sources, assets);
}

} // verus!
