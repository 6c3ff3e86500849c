//! The generator's side: the options it accepts, the result it reports,
//! and the files a build watches.

use vstd::prelude::*;

use crate::json::{member, JsonValue};
use crate::module::{debug_plain_char, debug_quoted, debug_str, get, join, join_with};
use crate::paths::{is_builtin, is_builtin_path, views};
use crate::text::{chars_of, lex_less, lex_lt, push_all, str_eq, string_of, text};

verus! {

/// How a `.slint` file is compiled: where imports are looked up, and the
/// widget style.
#[derive(Debug, PartialEq)]
pub struct Options {
    pub include_paths: Vec<String>,
    pub style: Option<String>,
}

impl Options {
    /// No include paths, the default style.
    pub fn default() -> (o: Options)
        ensures
            o.include_paths@.len() == 0,
            o.style is None,
    {
        Options { include_paths: Vec::new(), style: None }
    }
}

/// The message for a style that is not a string.
pub open spec fn style_error() -> Seq<char> {
    "Dart generation option \"style\" must be a string"@
}

/// The message for include paths that are not a list of strings.
pub open spec fn include_paths_error() -> Seq<char> {
    "Dart generation option \"include_paths\" must be a list of strings"@
}

/// The first member of `e` that is not a known option, searching from `i`.
pub open spec fn unknown_option_from(e: Seq<(String, JsonValue)>, i: int) -> Option<Seq<char>>
    decreases e.len() - i,
{
    if i < 0 || i >= e.len() {
        None
    } else if e[i].0@ != "include_paths"@ && e[i].0@ != "style"@ {
        Some(e[i].0@)
    } else {
        unknown_option_from(e, i + 1)
    }
}

/// The strings of `items`, or `None` when one is not a string.
pub open spec fn all_strings(items: Seq<JsonValue>) -> Option<Seq<Seq<char>>>
    decreases items.len(),
{
    if items.len() == 0 {
        Some(seq![])
    } else {
        match all_strings(items.drop_last()) {
            None => None,
            Some(s) => match items.last() {
                JsonValue::String(t) => Some(s.push(t@)),
                _ => None,
            },
        }
    }
}

/// A list of JSON values that are all strings reads as those strings, every
/// one of them, in order; a list with any other value reads as nothing.
pub proof fn law_all_strings_keeps_every_string(items: Seq<JsonValue>)
    ensures
        (forall|i: int| 0 <= i < items.len() ==> (#[trigger] items[i]) is String) ==> (all_strings(items) matches Some(
            paths,
        ) && paths.len() == items.len() && forall|i: int| 0 <= i < items.len() ==> (#[trigger] paths[i])
            == items[i]->String_0@),
        (exists|i: int| 0 <= i < items.len() && !((#[trigger] items[i]) is String)) ==> all_strings(items) is None,
    decreases items.len(),
{
    if items.len() > 0 {
        let rest = items.drop_last();
        law_all_strings_keeps_every_string(rest);
        if forall|i: int| 0 <= i < items.len() ==> (#[trigger] items[i]) is String {
            assert forall|i: int| 0 <= i < rest.len() implies (#[trigger] rest[i]) is String by {
                assert(rest[i] == items[i]);
            }
            let paths = all_strings(items)->Some_0;
            assert forall|i: int| 0 <= i < items.len() implies (#[trigger] paths[i]) == items[i]->String_0@ by {
                if i < rest.len() {
                    assert(rest[i] == items[i]);
                }
            }
        }
        if exists|i: int| 0 <= i < items.len() && !((#[trigger] items[i]) is String) {
            let i = choose|i: int| 0 <= i < items.len() && !((#[trigger] items[i]) is String);
            if i < rest.len() {
                assert(rest[i] == items[i]);
            }
        }
    }
}

/// Options whose `include_paths` is a list of strings, and that are
/// otherwise valid, give exactly those strings as include paths, one for
/// each element and in the same order.
pub proof fn law_include_paths_are_read_in_full(json: Seq<char>, e: Vec<(String, JsonValue)>, items: Vec<JsonValue>)
    requires
        json.len() > 0,
        unknown_option_from(e@, 0) is None,
        member(e@, "include_paths"@) == Some(JsonValue::Array(items)),
        match member(e@, "style"@) {
            None => true,
            Some(v) => v is String,
        },
        forall|i: int| 0 <= i < items@.len() ==> (#[trigger] items@[i]) is String,
    ensures
        parse_options_of(json, Ok(JsonValue::Object(e))) matches Ok((paths, _)) && paths.len() == items@.len()
            && forall|i: int| 0 <= i < items@.len() ==> (#[trigger] paths[i]) == items@[i]->String_0@,
{
    law_all_strings_keeps_every_string(items@);
}

/// The options a JSON text gives (`parsed` is what parsing it gave): no
/// text means the defaults; otherwise it must be a JSON object with no
/// member but `include_paths` (a list of strings) and `style` (a string).
pub open spec fn parse_options_of(json: Seq<char>, parsed: Result<JsonValue, String>) -> Result<
    (Seq<Seq<char>>, Option<Seq<char>>),
    Seq<char>,
> {
    if json.len() == 0 {
        Ok((seq![], None))
    } else {
        match parsed {
            Err(e) => Err("Invalid Dart generation options: "@ + e@),
            Ok(JsonValue::Object(e)) => match unknown_option_from(e@, 0) {
                Some(name) => Err("Unknown Dart generation option "@ + debug_str(name)),
                None => {
                    let style = match member(e@, "style"@) {
                        None => Ok(None),
                        Some(JsonValue::String(s)) => Ok(Some(s@)),
                        Some(_) => Err(style_error()),
                    };
                    match style {
                        Err(m) => Err(m),
                        Ok(style) => match member(e@, "include_paths"@) {
                            None => Ok((seq![], style)),
                            Some(JsonValue::Array(items)) => match all_strings(items@) {
                                Some(paths) => Ok((paths, style)),
                                None => Err(include_paths_error()),
                            },
                            Some(_) => Err(include_paths_error()),
                        },
                    }
                },
            },
            Ok(_) => Err("Dart generation options must be a JSON object"@),
        }
    }
}

fn get_member<'a>(e: &'a Vec<(String, JsonValue)>, key: &str) -> (r: Option<&'a JsonValue>)
    ensures
        match r {
            Some(v) => member(e@, key@) == Some(*v),
            None => member(e@, key@) is None,
        },
{
    match crate::json::find_member(e, key) {
        Some(i) => Some(&e[i].1),
        None => None,
    }
}

/// Read the generator's options from the JSON text `json`, given what
/// parsing it gave (see [`parse_options_of`]).
pub fn parse_options(json: &str, parsed: &Result<JsonValue, String>) -> (r: Result<Options, String>)
    ensures
        match parse_options_of(json@, *parsed) {
            Ok((paths, style)) => r matches Ok(o) && views(o.include_paths@) == paths && match o.style {
                Some(s) => style == Some(s@),
                None => style is None,
            },
            Err(e) => r matches Err(m) && m@ == e,
        },
        json@.len() > 0 ==> match *parsed {
            Ok(JsonValue::Object(e)) => match unknown_option_from(e@, 0) {
                Some(name) => (forall|i: int| 0 <= i < name.len() ==> debug_plain_char(#[trigger] name[i]))
                    ==> (r matches Err(m) && m@ == "Unknown Dart generation option \""@ + name + "\""@),
                None => true,
            },
            _ => true,
        },
{
    if chars_of(json).len() == 0 {
        let o = Options::default();
        assert(views(o.include_paths@) =~= Seq::<Seq<char>>::empty());
        return Ok(o);
    }
    let e = match parsed {
        Err(error) => {
            let mut out = chars_of("Invalid Dart generation options: ");
            push_all(&mut out, chars_of(error.as_str()).as_slice());
            return Err(string_of(out.as_slice()));
        },
        Ok(JsonValue::Object(e)) => e,
        Ok(_) => return Err(text("Dart generation options must be a JSON object")),
    };
    let mut i: usize = 0;
    while i < e.len()
        invariant
            json@.len() > 0,
            *parsed == Ok::<JsonValue, String>(JsonValue::Object(*e)),
            i <= e.len(),
            unknown_option_from(e@, 0) == unknown_option_from(e@, i as int),
        decreases e.len() - i,
    {
        let name = e[i].0.as_str();
        if !str_eq(name, "include_paths") && !str_eq(name, "style") {
            let mut out = chars_of("Unknown Dart generation option ");
            let quoted = debug_quoted(name);
            push_all(&mut out, chars_of(quoted.as_str()).as_slice());
            proof {
                reveal_strlit("Unknown Dart generation option ");
                reveal_strlit("Unknown Dart generation option \"");
                reveal_strlit("\"");
                if forall|k: int| 0 <= k < name@.len() ==> debug_plain_char(#[trigger] name@[k]) {
                    assert(out@ =~= "Unknown Dart generation option \""@ + name@ + "\""@);
                }
            }
            return Err(string_of(out.as_slice()));
        }
        i = i + 1;
    }
    let style = match get_member(e, "style") {
        None => None,
        Some(JsonValue::String(s)) => Some(s.clone()),
        Some(_) => return Err(text("Dart generation option \"style\" must be a string")),
    };
    let include_paths = match get_member(e, "include_paths") {
        None => Vec::new(),
        Some(JsonValue::Array(items)) => {
            let mut paths: Vec<String> = Vec::new();
            let mut k: usize = 0;
            while k < items.len()
                invariant
                    json@.len() > 0,
                    *parsed == Ok::<JsonValue, String>(JsonValue::Object(*e)),
                    unknown_option_from(e@, 0) is None,
                    member(e@, "include_paths"@) == Some(JsonValue::Array(*items)),
                    match member(e@, "style"@) {
                        None => style is None,
                        Some(JsonValue::String(t)) => style matches Some(u) && u@ == t@,
                        Some(_) => false,
                    },
                    k <= items.len(),
                    all_strings(items@.take(k as int)) == Some(views(paths@)),
                decreases items.len() - k,
            {
                proof {
                    assert(items@.take(k + 1).drop_last() =~= items@.take(k as int));
                }
                match &items[k] {
                    JsonValue::String(t) => {
                        let ghost before = paths@;
                        paths.push(t.clone());
                        assert(views(paths@) =~= views(before).push(t@));
                    },
                    _ => {
                        proof {
                            lemma_all_strings_stuck(items@, k + 1);
                        }
                        return Err(text("Dart generation option \"include_paths\" must be a list of strings"));
                    },
                }
                k = k + 1;
            }
            assert(items@.take(items.len() as int) =~= items@);
            paths
        },
        Some(_) => return Err(text("Dart generation option \"include_paths\" must be a list of strings")),
    };
    proof {
        if include_paths@.len() == 0 {
            assert(views(include_paths@) =~= Seq::<Seq<char>>::empty());
        }
    }
    Ok(Options { include_paths, style })
}

proof fn lemma_all_strings_stuck(items: Seq<JsonValue>, k: int)
    requires
        0 <= k <= items.len(),
        all_strings(items.take(k)) is None,
    ensures
        all_strings(items) is None,
    decreases items.len() - k,
{
    if k < items.len() {
        assert(items.take(k + 1).drop_last() =~= items.take(k));
        lemma_all_strings_stuck(items, k + 1);
    } else {
        assert(items.take(k) =~= items);
    }
}

} // verus!

verus! {

/// What one `.slint` file generated: Dart source or an error, the files a
/// build should watch, and the compiler's diagnostics.
#[derive(Debug)]
pub struct Generation {
    pub dart: Option<String>,
    pub error: Option<String>,
    pub dependencies: Vec<String>,
    pub diagnostics: Vec<JsonValue>,
}

/// The error a failed generation reports: the diagnostics, one per line,
/// then the extra message on a line of its own; `None` when both are empty.
pub open spec fn failure_text(messages: Seq<Seq<char>>, extra: Option<Seq<char>>) -> Option<Seq<char>> {
    let joined = join_with(messages, "\n"@);
    let error = match extra {
        Some(x) => if joined.len() == 0 {
            x
        } else {
            joined + "\n"@ + x
        },
        None => joined,
    };
    if error.len() == 0 {
        None
    } else {
        Some(error)
    }
}

/// A generation that produced no Dart (see [`failure_text`]).
pub fn failed(
    extra: Option<String>,
    messages: &Vec<String>,
    diagnostics: Vec<JsonValue>,
    dependencies: Vec<String>,
) -> (g: Generation)
    ensures
        g.dart is None,
        match failure_text(views(messages@), match extra { Some(x) => Some(x@), None => None }) {
            Some(t) => g.error matches Some(e) && e@ == t,
            None => g.error is None,
        },
        g.diagnostics@ == diagnostics@,
        g.dependencies@ == dependencies@,
{
    let joined = join(messages, "\n");
    let error = match extra {
        Some(x) => {
            if chars_of(joined.as_str()).len() == 0 {
                x
            } else {
                let mut out = chars_of(joined.as_str());
                push_all(&mut out, chars_of("\n").as_slice());
                push_all(&mut out, chars_of(x.as_str()).as_slice());
                string_of(out.as_slice())
            }
        },
        None => joined,
    };
    let error = if chars_of(error.as_str()).len() == 0 {
        None
    } else {
        Some(error)
    };
    Generation { dart: None, error, dependencies, diagnostics }
}

/// What the outside work of one stage of a generation reported. The stages
/// run in this order: parse the input, compile it, bundle what the compiler
/// read, emit the Dart wrapper.
#[derive(Debug)]
pub enum StageReport {
    /// Parsing: whether the diagnostics hold an error, and whether the
    /// parser produced a document.
    Parsed { has_errors: bool, has_document: bool },
    /// Compiling: whether the diagnostics hold an error.
    Compiled { has_errors: bool },
    /// Bundling: the compiled module, or why it could not be made.
    Bundled(Result<String, String>),
    /// Emitting: the Dart source, or why it could not be made.
    Emitted(Result<String, String>),
}

/// What a generation does after a stage.
#[derive(Debug)]
pub enum NextStep {
    /// Go on with the next stage; emitting takes the bundled module.
    Compile,
    Bundle,
    Emit(String),
    /// Stop with the Dart source that was emitted.
    Done(String),
    /// Stop with a failed generation (see [`failed`]): the message to add
    /// after the diagnostics, if any, and whether the files the compiler
    /// imported are watched too (they are known once compiling has run).
    Fail { extra: Option<String>, watch_imports: bool },
}

pub open spec fn no_document_error() -> Seq<char> {
    "The Slint parser produced no document"@
}

/// Decide what follows a stage: any error in the diagnostics, a missing
/// document, or a stage that could not make its product ends the
/// generation; a compile error is reported with the files to watch.
pub fn next_step(report: StageReport) -> (n: NextStep)
    ensures
        match report {
            StageReport::Parsed { has_errors, has_document } => if has_errors {
                n matches NextStep::Fail { extra: None, watch_imports: false }
            } else if !has_document {
                n matches NextStep::Fail { extra: Some(m), watch_imports: false } && m@ == no_document_error()
            } else {
                n is Compile
            },
            StageReport::Compiled { has_errors } => if has_errors {
                n matches NextStep::Fail { extra: None, watch_imports: true }
            } else {
                n is Bundle
            },
            StageReport::Bundled(Ok(module)) => n matches NextStep::Emit(m) && m == module,
            StageReport::Bundled(Err(e)) => n matches NextStep::Fail { extra: Some(m), watch_imports: true } && m == e,
            StageReport::Emitted(Ok(dart)) => n matches NextStep::Done(d) && d == dart,
            StageReport::Emitted(Err(e)) => n matches NextStep::Fail { extra: Some(m), watch_imports: true } && m == e,
        },
{
    match report {
        StageReport::Parsed { has_errors, has_document } => {
            if has_errors {
                NextStep::Fail { extra: None, watch_imports: false }
            } else if !has_document {
                NextStep::Fail { extra: Some(text("The Slint parser produced no document")), watch_imports: false }
            } else {
                NextStep::Compile
            }
        },
        StageReport::Compiled { has_errors } => {
            if has_errors {
                NextStep::Fail { extra: None, watch_imports: true }
            } else {
                NextStep::Bundle
            }
        },
        StageReport::Bundled(Ok(module)) => NextStep::Emit(module),
        StageReport::Bundled(Err(e)) => NextStep::Fail { extra: Some(e), watch_imports: true },
        StageReport::Emitted(Ok(dart)) => NextStep::Done(dart),
        StageReport::Emitted(Err(e)) => NextStep::Fail { extra: Some(e), watch_imports: true },
    }
}

/// A generation that stopped before compiling: only the error.
pub fn generation_error(error: String) -> (g: Generation)
    ensures
        g.dart is None,
        g.error == Some(error),
        g.dependencies@.len() == 0,
        g.diagnostics@.len() == 0,
{
    Generation { dart: None, error: Some(error), dependencies: Vec::new(), diagnostics: Vec::new() }
}

fn optional(s: &Option<String>) -> (r: JsonValue)
    ensures
        match *s {
            Some(t) => r matches JsonValue::String(v) && v@ == t@,
            None => r is Null,
        },
{
    match s {
        Some(t) => JsonValue::String(t.clone()),
        None => JsonValue::Null,
    }
}

/// The JSON envelope the generator prints: `source`, `error`,
/// `dependencies` and `diagnostics`. It takes the generation, whose
/// diagnostics move into the envelope.
pub fn generation_json(generation: Generation) -> (j: JsonValue)
    ensures
        j matches JsonValue::Object(e) && e.len() == 4
            && e[0].0@ == "source"@ && match generation.dart {
                Some(d) => e[0].1 matches JsonValue::String(v) && v@ == d@,
                None => e[0].1 is Null,
            }
            && e[1].0@ == "error"@ && match generation.error {
                Some(d) => e[1].1 matches JsonValue::String(v) && v@ == d@,
                None => e[1].1 is Null,
            }
            && e[2].0@ == "dependencies"@ && (e[2].1 matches JsonValue::Array(a) && a@.len() == generation.dependencies@.len()
                && forall|i: int| 0 <= i < a@.len() ==> (#[trigger] a@[i] matches JsonValue::String(v) && v@ == generation.dependencies@[i]@))
            && e[3].0@ == "diagnostics"@ && (e[3].1 matches JsonValue::Array(d) && d@ == generation.diagnostics@),
{
    let mut deps: Vec<JsonValue> = Vec::new();
    let mut i: usize = 0;
    while i < generation.dependencies.len()
        invariant
            i <= generation.dependencies.len(),
            deps@.len() == i,
            forall|k: int| 0 <= k < i ==> (#[trigger] deps@[k] matches JsonValue::String(v) && v@ == generation.dependencies@[k]@),
        decreases generation.dependencies.len() - i,
    {
        deps.push(JsonValue::String(generation.dependencies[i].clone()));
        i = i + 1;
    }
    let mut e: Vec<(String, JsonValue)> = Vec::new();
    e.push((text("source"), optional(&generation.dart)));
    e.push((text("error"), optional(&generation.error)));
    e.push((text("dependencies"), JsonValue::Array(deps)));
    e.push((text("diagnostics"), JsonValue::Array(generation.diagnostics)));
    JsonValue::Object(e)
}

} // verus!

verus! {

/// A compiler diagnostic, as the runtime and the generator report it.
#[derive(Debug)]
pub struct Diagnostic {
    pub is_error: bool,
    pub message: String,
    pub file: Option<String>,
    pub line: usize,
    pub column: usize,
}

/// `j` is the JSON form of `d`: `level` (`error` or `warning`), `message`,
/// `file` (or null), `line`, `column`.
pub open spec fn diagnostic_json_of(d: Diagnostic, j: JsonValue) -> bool {
    j matches JsonValue::Object(e) && e.len() == 5
        && e[0].0@ == "level"@ && (e[0].1 matches JsonValue::String(l) && l@ == if d.is_error { "error"@ } else { "warning"@ })
        && e[1].0@ == "message"@ && (e[1].1 matches JsonValue::String(m) && m@ == d.message@)
        && e[2].0@ == "file"@ && match d.file {
            Some(f) => e[2].1 matches JsonValue::String(v) && v@ == f@,
            None => e[2].1 is Null,
        }
        && e[3].0@ == "line"@ && e[3].1 == JsonValue::Number(crate::json::JsonNumber::Unsigned(d.line as u64))
        && e[4].0@ == "column"@ && e[4].1 == JsonValue::Number(crate::json::JsonNumber::Unsigned(d.column as u64))
}

/// The JSON form of one diagnostic.
pub fn diagnostic_json(d: &Diagnostic) -> (j: JsonValue)
    ensures
        diagnostic_json_of(*d, j),
{
    let mut e: Vec<(String, JsonValue)> = Vec::new();
    e.push((text("level"), JsonValue::String(if d.is_error { text("error") } else { text("warning") })));
    e.push((text("message"), JsonValue::String(d.message.clone())));
    e.push((text("file"), optional(&d.file)));
    e.push((text("line"), JsonValue::Number(crate::json::JsonNumber::Unsigned(d.line as u64))));
    e.push((text("column"), JsonValue::Number(crate::json::JsonNumber::Unsigned(d.column as u64))));
    JsonValue::Object(e)
}

/// The JSON forms of all diagnostics, in order.
pub fn diagnostics_json(ds: &Vec<Diagnostic>) -> (r: Vec<JsonValue>)
    ensures
        r@.len() == ds@.len(),
        forall|i: int| 0 <= i < ds@.len() ==> diagnostic_json_of(ds@[i], #[trigger] r@[i]),
{
    let mut r: Vec<JsonValue> = Vec::new();
    let mut i: usize = 0;
    while i < ds.len()
        invariant
            i <= ds.len(),
            r@.len() == i,
            forall|k: int| 0 <= k < i ==> diagnostic_json_of(ds@[k], #[trigger] r@[k]),
        decreases ds.len() - i,
    {
        r.push(diagnostic_json(&ds[i]));
        i = i + 1;
    }
    r
}

/// The paths of `ps` that are not built-in.
pub open spec fn not_builtin(ps: Seq<Seq<char>>) -> Seq<Seq<char>>
    decreases ps.len(),
{
    if ps.len() == 0 {
        seq![]
    } else if is_builtin_path(ps.last()) {
        not_builtin(ps.drop_last())
    } else {
        not_builtin(ps.drop_last()).push(ps.last())
    }
}

/// The files a build watches, before they are made absolute: every
/// dependency, then the input, leaving out built-in files.
pub open spec fn watch_candidates_of(input: Seq<char>, deps: Seq<Seq<char>>) -> Seq<Seq<char>> {
    not_builtin(deps.push(input))
}

/// The dependencies and the input that are not built-in, in that order.
pub fn watch_candidates(input_path: &str, dependencies: &Vec<String>) -> (r: Vec<String>)
    ensures
        views(r@) == watch_candidates_of(input_path@, views(dependencies@)),
{
    let mut all: Vec<String> = Vec::new();
    let mut i: usize = 0;
    while i < dependencies.len()
        invariant
            i <= dependencies.len(),
            views(all@) == views(dependencies@).take(i as int),
        decreases dependencies.len() - i,
    {
        let ghost before = all@;
        let d = dependencies[i].clone();
        all.push(d);
        assert(views(all@) =~= views(before).push(d@));
        i = i + 1;
        assert(views(all@) =~= views(dependencies@).take(i as int));
    }
    assert(views(dependencies@).take(dependencies.len() as int) =~= views(dependencies@));
    let ghost before = all@;
    let input = text(input_path);
    all.push(input);
    assert(views(all@) =~= views(before).push(input_path@));
    let ghost everything = views(all@);
    let mut out: Vec<String> = Vec::new();
    let mut k: usize = 0;
    while k < all.len()
        invariant
            everything == views(all@),
            k <= all.len(),
            views(out@) == not_builtin(everything.take(k as int)),
        decreases all.len() - k,
    {
        proof {
            assert(everything.take(k + 1).drop_last() =~= everything.take(k as int));
        }
        if !is_builtin(all[k].as_str()) {
            let ghost before = out@;
            let p = all[k].clone();
            out.push(p);
            assert(views(out@) =~= views(before).push(p@));
        }
        k = k + 1;
    }
    assert(everything.take(all.len() as int) =~= everything);
    out
}

/// No path comes twice, and each comes before the ones greater than it.
pub open spec fn strictly_sorted(v: Seq<Seq<char>>) -> bool {
    forall|i: int, j: int| 0 <= i < j < v.len() ==> lex_lt(#[trigger] v[i], #[trigger] v[j])
}

/// The distinct strings of `items` in increasing order (as a `BTreeSet`
/// holds them).
pub fn sorted_set(items: &Vec<String>) -> (r: Vec<String>)
    ensures
        strictly_sorted(views(r@)),
        views(r@).to_set() == views(items@).to_set(),
{
    let mut out: Vec<String> = Vec::new();
    let mut i: usize = 0;
    while i < items.len()
        invariant
            i <= items.len(),
            strictly_sorted(views(out@)),
            views(out@).to_set() == views(items@).take(i as int).to_set(),
        decreases items.len() - i,
    {
        let x = chars_of(items[i].as_str());
        let mut p: usize = 0;
        let mut below: bool = true;
        while p < out.len() && below
            invariant
                i < items.len(),
                x@ == items@[i as int]@,
                p <= out.len(),
                forall|q: int| 0 <= q < p ==> lex_lt(#[trigger] views(out@)[q], x@),
                !below ==> p < out.len() && !lex_lt(views(out@)[p as int], x@),
            decreases out.len() - p + (if below { 1int } else { 0int }),
        {
            if lex_less(chars_of(out[p].as_str()).as_slice(), x.as_slice()) {
                p = p + 1;
            } else {
                below = false;
            }
        }
        let ghost before = views(out@);
        proof {
            assert(views(items@).take(i + 1) =~= views(items@).take(i as int).push(x@));
        }
        if p < out.len() && str_eq(out[p].as_str(), items[i].as_str()) {
            assert(before[p as int] == x@);
            assert(views(items@).take(i + 1).to_set() =~= before.to_set()) by {
                views(items@).take(i as int).lemma_push_to_set_commute(x@);
                assert(before.contains(x@));
            }
        } else {
            proof {
                if p < out.len() {
                    crate::text::lemma_lex_total(before[p as int], x@);
                    assert(lex_lt(x@, before[p as int]));
                }
            }
            out.insert(p, items[i].clone());
            let ghost after = views(out@);
            assert(after =~= before.insert(p as int, x@));
            assert forall|a: int, b: int| 0 <= a < b < after.len() implies lex_lt(#[trigger] after[a], #[trigger] after[b]) by {
                if b < p {
                } else if a < p && b == p {
                } else if a < p && b > p {
                    assert(after[b] == before[b - 1]);
                    assert(lex_lt(x@, before[p as int]));
                    if b - 1 > p {
                        assert(lex_lt(before[p as int], before[b - 1]));
                        crate::text::lemma_lex_transitive(x@, before[p as int], before[b - 1]);
                    }
                    crate::text::lemma_lex_transitive(after[a], x@, after[b]);
                } else if a == p {
                    assert(after[b] == before[b - 1]);
                    if b - 1 > p {
                        crate::text::lemma_lex_transitive(x@, before[p as int], before[b - 1]);
                    }
                } else {
                    assert(after[a] == before[a - 1]);
                    assert(after[b] == before[b - 1]);
                }
            }
            assert(views(items@).take(i + 1).to_set() =~= after.to_set()) by {
                views(items@).take(i as int).lemma_push_to_set_commute(x@);
                assert forall|s: Seq<char>| after.to_set().contains(s) <==> before.to_set().insert(x@).contains(s) by {
                    if after.contains(s) {
                        let k = choose|k: int| 0 <= k < after.len() && after[k] == s;
                        if k < p {
                            assert(before[k] == s);
                        } else if k > p {
                            assert(before[k - 1] == s);
                        }
                    }
                    if before.contains(s) {
                        let k = choose|k: int| 0 <= k < before.len() && before[k] == s;
                        if k < p {
                            assert(after[k] == s);
                        } else {
                            assert(after[k + 1] == s);
                        }
                    }
                    if s == x@ {
                        assert(after[p as int] == s);
                    }
                }
            }
        }
        i = i + 1;
    }
    assert(views(items@).take(items.len() as int) =~= views(items@));
    out
}

/// What `std::path::absolute` makes of the path `p` when `p` is already
/// absolute: `p` with its components resolved lexically, which depends on
/// `p` alone.
pub uninterp spec fn absolute_form(p: Seq<char>) -> Seq<char>;

/// `std::path::absolute(p)`, or `p` itself when that fails. An absolute
/// path is made absolute without the current directory, and that cannot
/// fail (only an empty path, which is not absolute, or a failing current
/// directory can); for a relative path the result depends on the current
/// directory, and nothing is stated of it.
#[verifier::external_body]
fn absolute_or_same(p: &str) -> (r: String)
    ensures
        crate::paths::path_is_absolute(p@) ==> r@ == absolute_form(p@),
{
    let path = std::path::Path::new(p);
    std::path::absolute(path).unwrap_or_else(|_| path.to_path_buf()).to_string_lossy().into_owned()
}

/// `made_absolute` is one path for each of `candidates`, in order, each
/// absolute one in its absolute form.
pub open spec fn made_absolute_from(made_absolute: Seq<Seq<char>>, candidates: Seq<Seq<char>>) -> bool {
    &&& made_absolute.len() == candidates.len()
    &&& forall|i: int|
        0 <= i < candidates.len() && crate::paths::path_is_absolute(#[trigger] candidates[i])
            ==> made_absolute[i] == absolute_form(candidates[i])
}

/// `r` is the list of files to watch for the candidates `candidates`: the
/// paths they are made absolute to, without repeats, in increasing order.
pub open spec fn watches(r: Seq<Seq<char>>, candidates: Seq<Seq<char>>) -> bool {
    &&& strictly_sorted(r)
    &&& r.len() <= candidates.len()
    &&& exists|made_absolute: Seq<Seq<char>>|
        made_absolute_from(made_absolute, candidates) && #[trigger] made_absolute.to_set() == r.to_set()
}

/// The files a build should watch: every dependency and the input that is
/// not built-in (see [`watch_candidates_of`]), made absolute, without
/// repeats, in increasing order (see [`watches`]).
pub fn dependencies_of(input_path: &str, dependencies: &Vec<String>) -> (r: Vec<String>)
    ensures
        watches(views(r@), watch_candidates_of(input_path@, views(dependencies@))),
{
    let candidates = watch_candidates(input_path, dependencies);
    let mut absolute: Vec<String> = Vec::new();
    let mut i: usize = 0;
    while i < candidates.len()
        invariant
            i <= candidates.len(),
            absolute@.len() == i,
            forall|k: int|
                0 <= k < i && crate::paths::path_is_absolute(#[trigger] views(candidates@)[k])
                    ==> views(absolute@)[k] == absolute_form(views(candidates@)[k]),
        decreases candidates.len() - i,
    {
        absolute.push(absolute_or_same(candidates[i].as_str()));
        i = i + 1;
    }
    let r = sorted_set(&absolute);
    proof {
        lemma_sorted_len(views(r@), views(absolute@));
        assert(made_absolute_from(views(absolute@), views(candidates@)));
        assert(views(absolute@).to_set() == views(r@).to_set());
    }
    r
}

/// Every path of `ps` that is not built-in is among [`not_builtin`]`(ps)`,
/// and no built-in path is.
proof fn lemma_not_builtin(ps: Seq<Seq<char>>)
    ensures
        forall|p: Seq<char>| ps.contains(p) && !is_builtin_path(p) ==> #[trigger] not_builtin(ps).contains(p),
        forall|i: int| 0 <= i < not_builtin(ps).len() ==> !is_builtin_path(#[trigger] not_builtin(ps)[i]),
    decreases ps.len(),
{
    if ps.len() > 0 {
        let rest = ps.drop_last();
        lemma_not_builtin(rest);
        assert forall|p: Seq<char>| ps.contains(p) && !is_builtin_path(p) implies #[trigger] not_builtin(ps).contains(p) by {
            let i = choose|i: int| 0 <= i < ps.len() && ps[i] == p;
            if i < ps.len() - 1 {
                assert(rest[i] == p);
                assert(rest.contains(p));
                assert(not_builtin(rest).contains(p));
                let j = choose|j: int| 0 <= j < not_builtin(rest).len() && not_builtin(rest)[j] == p;
                if !is_builtin_path(ps.last()) {
                    assert(not_builtin(ps)[j] == p);
                }
            } else {
                assert(not_builtin(ps).last() == p);
            }
        }
        assert forall|i: int| 0 <= i < not_builtin(ps).len() implies !is_builtin_path(#[trigger] not_builtin(ps)[i]) by {
            if i < not_builtin(rest).len() {
                assert(not_builtin(ps)[i] == not_builtin(rest)[i]);
            }
        }
    }
}

/// Law: the input and every dependency that is an absolute path and not
/// built-in are watched, in their absolute form; no built-in path is a
/// candidate for watching.
pub proof fn law_absolute_files_are_watched(r: Seq<Seq<char>>, input: Seq<char>, deps: Seq<Seq<char>>, d: Seq<char>)
    requires
        watches(r, watch_candidates_of(input, deps)),
        d == input || deps.contains(d),
        !is_builtin_path(d),
        crate::paths::path_is_absolute(d),
    ensures
        r.contains(absolute_form(d)),
        forall|i: int| 0 <= i < watch_candidates_of(input, deps).len() ==> !is_builtin_path(#[trigger] watch_candidates_of(input, deps)[i]),
{
    let all = deps.push(input);
    let c = watch_candidates_of(input, deps);
    lemma_not_builtin(all);
    if d == input {
        assert(all[all.len() - 1] == d);
    } else {
        let i = choose|i: int| 0 <= i < deps.len() && deps[i] == d;
        assert(all[i] == d);
    }
    assert(all.contains(d));
    assert(c.contains(d));
    let k = choose|k: int| 0 <= k < c.len() && c[k] == d;
    let m = choose|m: Seq<Seq<char>>| made_absolute_from(m, c) && #[trigger] m.to_set() == r.to_set();
    assert(m[k] == absolute_form(d));
    assert(m.contains(absolute_form(d)));
    assert(m.to_set().contains(absolute_form(d)));
    assert(r.to_set().contains(absolute_form(d)));
}

/// The generation a step ends with: the Dart that was emitted, or a failed
/// generation (see [`failed`]); `None` when the step goes on to another
/// stage. The files to watch are the input and, unless the step says the
/// imports are not known yet, the files the compiler read (`imports`).
pub fn finished_generation(
    step: NextStep,
    messages: &Vec<String>,
    diagnostics: Vec<JsonValue>,
    input_path: &str,
    imports: &Vec<String>,
) -> (g: Option<Generation>)
    ensures
        match step {
            NextStep::Done(dart) => g matches Some(gen) && gen.dart == Some(dart) && gen.error is None
                && gen.diagnostics@ == diagnostics@
                && watches(views(gen.dependencies@), watch_candidates_of(input_path@, views(imports@))),
            NextStep::Fail { extra, watch_imports } => g matches Some(gen) && gen.dart is None && match failure_text(
                views(messages@),
                match extra {
                    Some(x) => Some(x@),
                    None => None,
                },
            ) {
                Some(t) => gen.error matches Some(e) && e@ == t,
                None => gen.error is None,
            } && gen.diagnostics@ == diagnostics@ && watches(
                views(gen.dependencies@),
                watch_candidates_of(input_path@, if watch_imports { views(imports@) } else { seq![] }),
            ),
            _ => g is None,
        },
{
    match step {
        NextStep::Done(dart) => Some(
            Generation {
                dart: Some(dart),
                error: None,
                dependencies: dependencies_of(input_path, imports),
                diagnostics,
            },
        ),
        NextStep::Fail { extra, watch_imports } => {
            let dependencies = if watch_imports {
                dependencies_of(input_path, imports)
            } else {
                let none: Vec<String> = Vec::new();
                proof {
                    assert(views(none@) =~= seq![]);
                }
                dependencies_of(input_path, &none)
            };
            Some(failed(extra, messages, diagnostics, dependencies))
        },
        _ => None,
    }
}

/// A strictly sorted list of the elements of `b` is no longer than `b`.
proof fn lemma_sorted_len(a: Seq<Seq<char>>, b: Seq<Seq<char>>)
    requires
        strictly_sorted(a),
        a.to_set() == b.to_set(),
    ensures
        a.len() <= b.len(),
{
    assert(a.no_duplicates()) by {
        assert forall|i: int, j: int| 0 <= i < a.len() && 0 <= j < a.len() && i != j implies a[i] != a[j] by {
            if i < j {
                crate::text::lemma_lex_irreflexive(a[i]);
            } else {
                crate::text::lemma_lex_irreflexive(a[j]);
            }
        }
    }
    a.unique_seq_to_set();
    b.lemma_cardinality_of_set();
}

} // verus!
