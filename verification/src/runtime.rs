//! The decisions the native runtime makes around the interpreter: the JSON
//! envelope every fallible call answers with, member lookup by name, the
//! argument list of an invocation, panic messages, and the translation
//! hand-off.

use vstd::prelude::*;

use crate::convert::{dart_value_from_json, from_json_of, TypeShape, ValueFromJson};
use crate::json::{JsonNumber, JsonValue};
use crate::text::{chars_of, decimal, decimal_of, push_all, str_eq, string_of, text};

verus! {

/// The identifier Slint uses for `ident`: a leading `-` or `_` becomes `_`,
/// every later `_` becomes `-`.
pub open spec fn normalized(ident: Seq<char>) -> Seq<char> {
    Seq::new(
        ident.len(),
        |i: int|
            if i == 0 && (ident[0] == '-' || ident[0] == '_') {
                '_'
            } else if i > 0 && ident[i] == '_' {
                '-'
            } else {
                ident[i]
            },
    )
}

/// Calls `i_slint_compiler::parser::normalize_identifier`, which maps the
/// first character `-` or `_` to `_` and every later `_` to `-`, and keeps
/// every other character.
#[verifier::external_body]
pub(crate) fn normalize_identifier(ident: &str) -> (r: String)
    ensures
        r@ == normalized(ident@),
{
    i_slint_compiler::parser::normalize_identifier(ident).to_string()
}

/// What a member of a component or global is, as far as the runtime's
/// checks go: a property, or a callback or public function taking `n`
/// arguments.
#[derive(Debug, PartialEq)]
pub enum MemberKind {
    Property,
    Callback(usize),
    Function(usize),
}

/// The first member whose name normalizes to the same identifier as
/// `name`, searching from `i`.
pub open spec fn member_from(members: Seq<(String, MemberKind)>, name: Seq<char>, i: int) -> Option<int>
    decreases members.len() - i,
{
    if i < 0 || i >= members.len() {
        None
    } else if normalized(members[i].0@) == normalized(name) {
        Some(i)
    } else {
        member_from(members, name, i + 1)
    }
}

/// The member that `name` refers to, where `-` and `_` name the same
/// character; `None` when there is none (or, for a global, when there is no
/// such global).
pub open spec fn lookup_member_of(members: Option<Seq<(String, MemberKind)>>, name: Seq<char>) -> Option<int> {
    match members {
        Some(m) => member_from(m, name, 0),
        None => None,
    }
}

/// Find the member `name` refers to (see [`lookup_member_of`]).
pub fn lookup_type(members: Option<&Vec<(String, MemberKind)>>, name: &str) -> (r: Option<usize>)
    ensures
        match r {
            Some(i) => lookup_member_of(
                match members {
                    Some(m) => Some(m@),
                    None => None,
                },
                name@,
            ) == Some(i as int) && i < members->0.len(),
            None => lookup_member_of(
                match members {
                    Some(m) => Some(m@),
                    None => None,
                },
                name@,
            ) is None,
        },
{
    let list = match members {
        Some(m) => m,
        None => return None,
    };
    let wanted = normalize_identifier(name);
    let mut i: usize = 0;
    while i < list.len()
        invariant
            members == Some(list),
            wanted@ == normalized(name@),
            i <= list.len(),
            member_from(list@, name@, 0) == member_from(list@, name@, i as int),
        decreases list.len() - i,
    {
        let candidate = normalize_identifier(list[i].0.as_str());
        if str_eq(candidate.as_str(), wanted.as_str()) {
            return Some(i);
        }
        i = i + 1;
    }
    None
}

/// `a` and `b` are spelled the same except that `-` and `_` may stand for
/// one another.
pub open spec fn same_but_dashes(a: Seq<char>, b: Seq<char>) -> bool {
    &&& a.len() == b.len()
    &&& forall|i: int|
        0 <= i < a.len() ==> (#[trigger] a[i] == b[i] || ((a[i] == '-' || a[i] == '_') && (b[i]
            == '-' || b[i] == '_')))
}

/// Law: `-` and `_` name the same member. Two spellings that differ only in
/// where they use `-` or `_` find the same member, for properties,
/// callbacks and functions alike.
pub proof fn law_dashes_and_underscores_name_the_same_member(
    members: Option<Seq<(String, MemberKind)>>,
    a: Seq<char>,
    b: Seq<char>,
)
    requires
        same_but_dashes(a, b),
    ensures
        lookup_member_of(members, a) == lookup_member_of(members, b),
{
    assert(normalized(a) =~= normalized(b));
    match members {
        Some(m) => lemma_member_from_same(m, a, b, 0),
        None => {},
    }
}

proof fn lemma_member_from_same(m: Seq<(String, MemberKind)>, a: Seq<char>, b: Seq<char>, i: int)
    requires
        normalized(a) == normalized(b),
    ensures
        member_from(m, a, i) == member_from(m, b, i),
    decreases m.len() - i,
{
    if 0 <= i < m.len() {
        lemma_member_from_same(m, a, b, i + 1);
    }
}

/// `{"ok": value}`: the answer of a call that succeeded.
pub fn ok(value: JsonValue) -> (r: JsonValue)
    ensures
        r matches JsonValue::Object(e) && e.len() == 1 && e[0].0@ == "ok"@ && e[0].1 == value,
{
    let mut e: Vec<(String, JsonValue)> = Vec::new();
    e.push((string_of(chars_of("ok").as_slice()), value));
    JsonValue::Object(e)
}

/// `{"ok": null}`: the answer of a call that succeeded with nothing to say.
pub fn ok_void() -> (r: JsonValue)
    ensures
        r matches JsonValue::Object(e) && e.len() == 1 && e[0].0@ == "ok"@ && e[0].1 is Null,
{
    ok(JsonValue::Null)
}

/// `{"err": message}`: the answer of a call that failed.
pub fn err(message: &str) -> (r: JsonValue)
    ensures
        r matches JsonValue::Object(e) && e.len() == 1 && e[0].0@ == "err"@ && (e[0].1 matches JsonValue::String(m) && m@ == message@),
{
    let mut e: Vec<(String, JsonValue)> = Vec::new();
    e.push((string_of(chars_of("err").as_slice()), JsonValue::String(string_of(chars_of(message).as_slice()))));
    JsonValue::Object(e)
}

/// The answer of a call that gave `result`: `{"ok": value}` or
/// `{"err": message}`.
pub fn envelope(result: Result<JsonValue, String>) -> (r: JsonValue)
    ensures
        match result {
            Ok(v) => r matches JsonValue::Object(e) && e.len() == 1 && e[0].0@ == "ok"@ && e[0].1 == v,
            Err(m) => r matches JsonValue::Object(e) && e.len() == 1 && e[0].0@ == "err"@ && (e[0].1 matches JsonValue::String(t) && t@ == m@),
        },
{
    match result {
        Ok(v) => ok(v),
        Err(m) => err(m.as_str()),
    }
}

fn string_array(items: &Vec<String>) -> (r: JsonValue)
    ensures
        r matches JsonValue::Array(js) && js@.len() == items@.len() && forall|i: int|
            0 <= i < items@.len() ==> (#[trigger] js@[i] matches JsonValue::String(t) && t@ == items@[i]@),
{
    let mut js: Vec<JsonValue> = Vec::new();
    let mut i: usize = 0;
    while i < items.len()
        invariant
            i <= items.len(),
            js@.len() == i,
            forall|k: int| 0 <= k < i ==> (#[trigger] js@[k] matches JsonValue::String(t) && t@ == items@[k]@),
        decreases items.len() - i,
    {
        js.push(JsonValue::String(items[i].clone()));
        i = i + 1;
    }
    JsonValue::Array(js)
}

/// The public API of a component as the Dart side reads it:
/// `{"properties": {name: type}, "callbacks": [...], "functions": [...],
/// "globals": [...]}`, each property with the text of its type.
pub fn definition_api(
    properties: &Vec<(String, String)>,
    callbacks: &Vec<String>,
    functions: &Vec<String>,
    globals: &Vec<String>,
) -> (r: JsonValue)
    ensures
        r matches JsonValue::Object(e) && e.len() == 4
            && e[0].0@ == "properties"@ && (e[0].1 matches JsonValue::Object(ps) && ps@.len() == properties@.len()
                && forall|i: int| 0 <= i < properties@.len() ==> (#[trigger] ps@[i]).0@ == properties@[i].0@
                    && (ps@[i].1 matches JsonValue::String(t) && t@ == properties@[i].1@))
            && e[1].0@ == "callbacks"@ && is_string_array(e[1].1, callbacks@)
            && e[2].0@ == "functions"@ && is_string_array(e[2].1, functions@)
            && e[3].0@ == "globals"@ && is_string_array(e[3].1, globals@),
{
    let mut ps: Vec<(String, JsonValue)> = Vec::new();
    let mut i: usize = 0;
    while i < properties.len()
        invariant
            i <= properties.len(),
            ps@.len() == i,
            forall|k: int| 0 <= k < i ==> (#[trigger] ps@[k]).0@ == properties@[k].0@
                && (ps@[k].1 matches JsonValue::String(t) && t@ == properties@[k].1@),
        decreases properties.len() - i,
    {
        ps.push((properties[i].0.clone(), JsonValue::String(properties[i].1.clone())));
        i = i + 1;
    }
    let mut e: Vec<(String, JsonValue)> = Vec::new();
    e.push((text("properties"), JsonValue::Object(ps)));
    e.push((text("callbacks"), string_array(callbacks)));
    e.push((text("functions"), string_array(functions)));
    e.push((text("globals"), string_array(globals)));
    JsonValue::Object(e)
}

/// `j` is a JSON array of the strings `items`.
pub open spec fn is_string_array(j: JsonValue, items: Seq<String>) -> bool {
    j matches JsonValue::Array(js) && js@.len() == items.len() && forall|i: int|
        0 <= i < items.len() ==> (#[trigger] js@[i] matches JsonValue::String(t) && t@ == items[i]@)
}

/// The component a compilation result hands out for `name`: the one of
/// that name, or the last one when no name is given; `None` when there is
/// none.
pub open spec fn result_component_of(names: Seq<Seq<char>>, name: Option<Seq<char>>) -> Option<int> {
    match name {
        Some(n) => crate::values::field_index(names, n),
        None => if names.len() == 0 {
            None
        } else {
            Some(names.len() - 1)
        },
    }
}

/// Pick the component a compilation result hands out (see
/// [`result_component_of`]).
pub fn result_component(names: &Vec<String>, name: Option<&str>) -> (r: Option<usize>)
    ensures
        r matches Some(i) ==> i < names@.len(),
        result_component_of(crate::paths::views(names@), match name {
            Some(n) => Some(n@),
            None => None,
        }) == match r {
            Some(i) => Some(i as int),
            None => None::<int>,
        },
{
    match name {
        Some(n) => {
            let ghost v = crate::paths::views(names@);
            let mut i: usize = 0;
            while i < names.len()
                invariant
                    name == Some(n),
                    v == crate::paths::views(names@),
                    i <= names.len(),
                    forall|j: int| 0 <= j < i ==> v[j] != n@,
                decreases names.len() - i,
            {
                if str_eq(names[i].as_str(), n) {
                    proof {
                        crate::values::lemma_field_index(v, n@);
                        assert(v[i as int] == n@);
                        let w = crate::values::field_index(v, n@)->Some_0;
                        assert(w == i) by {
                            if w < i {
                                assert(v[w] != n@);
                            }
                        }
                    }
                    return Some(i);
                }
                i = i + 1;
            }
            proof {
                crate::values::lemma_field_index(v, n@);
            }
            None
        },
        None => {
            if names.len() == 0 {
                None
            } else {
                Some(names.len() - 1)
            }
        },
    }
}

/// The message for a panic whose payload is `detail` (a `&str` or
/// `String` payload), or that carried no text.
pub open spec fn panic_message_of(detail: Option<Seq<char>>) -> Seq<char> {
    "Slint panicked: "@ + match detail {
        Some(d) => d,
        None => "unknown reason"@,
    }
}

/// Describe a panic caught at the boundary, from the text its payload
/// carried, if any.
pub fn panic_message(detail: Option<&str>) -> (r: String)
    ensures
        r@ == panic_message_of(
            match detail {
                Some(d) => Some(d@),
                None => None,
            },
        ),
{
    let mut out = chars_of("Slint panicked: ");
    match detail {
        Some(d) => push_all(&mut out, chars_of(d).as_slice()),
        None => push_all(&mut out, chars_of("unknown reason").as_slice()),
    }
    string_of(out.as_slice())
}

/// The untranslated text: the plural form when there is one and `n` is not
/// 1, else the singular.
pub open spec fn fallback_of(string: Seq<char>, plural: Option<Seq<char>>, n: u64) -> Seq<char> {
    if n == 1 || plural is None {
        string
    } else {
        plural->0
    }
}

/// The text shown when no translation comes back.
pub fn fallback(string: &str, plural: Option<&str>, n: u64) -> (r: String)
    ensures
        r@ == fallback_of(
            string@,
            match plural {
                Some(p) => Some(p@),
                None => None,
            },
            n,
        ),
{
    if n == 1 || plural.is_none() {
        string_of(chars_of(string).as_slice())
    } else {
        string_of(chars_of(plural.unwrap()).as_slice())
    }
}

fn optional_string(s: Option<&str>) -> (r: JsonValue)
    ensures
        match s {
            Some(t) => r matches JsonValue::String(v) && v@ == t@,
            None => r is Null,
        },
{
    match s {
        Some(t) => JsonValue::String(string_of(chars_of(t).as_slice())),
        None => JsonValue::Null,
    }
}

/// The request handed to the Dart translator:
/// `{"string", "context", "plural", "n"}`.
pub fn translation_request(string: &str, context: Option<&str>, plural: Option<&str>, n: u64) -> (r: JsonValue)
    ensures
        r matches JsonValue::Object(e) && e.len() == 4 && e[0].0@ == "string"@ && (e[0].1 matches JsonValue::String(s) && s@ == string@)
            && e[1].0@ == "context"@ && match context {
                Some(c) => e[1].1 matches JsonValue::String(v) && v@ == c@,
                None => e[1].1 is Null,
            } && e[2].0@ == "plural"@ && match plural {
                Some(p) => e[2].1 matches JsonValue::String(v) && v@ == p@,
                None => e[2].1 is Null,
            } && e[3].0@ == "n"@ && e[3].1 == JsonValue::Number(JsonNumber::Unsigned(n)),
{
    let mut e: Vec<(String, JsonValue)> = Vec::new();
    e.push((string_of(chars_of("string").as_slice()), JsonValue::String(string_of(chars_of(string).as_slice()))));
    e.push((string_of(chars_of("context").as_slice()), optional_string(context)));
    e.push((string_of(chars_of("plural").as_slice()), optional_string(plural)));
    e.push((string_of(chars_of("n").as_slice()), JsonValue::Number(JsonNumber::Unsigned(n))));
    JsonValue::Object(e)
}

/// The text a translation answer stands for: the JSON string the
/// translator returned, else the fallback (no answer, an answer that is not
/// JSON, or JSON that is not a string).
pub open spec fn translated_of(
    answer: Option<Result<JsonValue, String>>,
    string: Seq<char>,
    plural: Option<Seq<char>>,
    n: u64,
) -> Seq<char> {
    match answer {
        Some(Ok(JsonValue::String(t))) => t@,
        _ => fallback_of(string, plural, n),
    }
}

/// Decide the translated text from the translator's parsed answer (`None`
/// when it returned null).
pub fn translated(answer: Option<Result<JsonValue, String>>, string: &str, plural: Option<&str>, n: u64) -> (r: String)
    ensures
        r@ == translated_of(
            answer,
            string@,
            match plural {
                Some(p) => Some(p@),
                None => None,
            },
            n,
        ),
{
    match answer {
        Some(Ok(JsonValue::String(t))) => t,
        _ => fallback(string, plural, n),
    }
}

/// The argument list of an invocation, checked against the number of
/// parameters: the parse error, a value that is not an array, or a count
/// that differs are refused with the runtime's messages.
pub open spec fn argument_list_of(parsed: Result<JsonValue, String>, arity: nat) -> Result<Seq<JsonValue>, Seq<char>> {
    match parsed {
        Err(e) => Err("invalid argument list: "@ + e@),
        Ok(JsonValue::Array(items)) => if items.len() == arity {
            Ok(items@)
        } else {
            Err("expected "@ + decimal(arity) + " argument(s), got "@ + decimal(items.len() as nat))
        },
        Ok(_) => Err("arguments must be a JSON array"@),
    }
}

/// `vs` is what the first `vs.len()` arguments read as, each as the type of
/// its parameter.
pub open spec fn args_read<'a, T>(types: Seq<TypeShape<T>>, items: Seq<JsonValue>, vs: Seq<ValueFromJson<'a, T>>) -> bool {
    &&& vs.len() <= items.len()
    &&& vs.len() <= types.len()
    &&& forall|i: int| 0 <= i < vs.len() ==> from_json_of(types[i], items[i], Ok(#[trigger] vs[i]))
}

/// Read the arguments of an invocation: the list as
/// [`argument_list_of`] checks it against the parameters `types`, then each
/// argument as its parameter's type, failing with the first that fails.
pub fn parse_args<'a, T>(parsed: &'a Result<JsonValue, String>, types: &'a Vec<TypeShape<T>>) -> (r: Result<Vec<ValueFromJson<'a, T>>, String>)
    ensures
        match argument_list_of(*parsed, types@.len()) {
            Err(e) => r matches Err(m) && m@ == e,
            Ok(items) => match r {
                Ok(vs) => vs@.len() == items.len() && args_read(types@, items, vs@),
                Err(m) => exists|vs: Seq<ValueFromJson<'a, T>>|
                    #![trigger vs.len()]
                    args_read(types@, items, vs) && vs.len() < items.len() && from_json_of(types@[vs.len() as int], items[vs.len() as int], Err(m)),
            },
        },
{
    match parsed {
        Err(e) => {
            let mut out = chars_of("invalid argument list: ");
            push_all(&mut out, chars_of(e.as_str()).as_slice());
            Err(string_of(out.as_slice()))
        },
        Ok(JsonValue::Array(items)) => {
            if items.len() != types.len() {
                let mut out = chars_of("expected ");
                push_all(&mut out, decimal_of(types.len() as u64).as_slice());
                push_all(&mut out, chars_of(" argument(s), got ").as_slice());
                push_all(&mut out, decimal_of(items.len() as u64).as_slice());
                return Err(string_of(out.as_slice()));
            }
            let mut out: Vec<ValueFromJson<'a, T>> = Vec::new();
            let mut i: usize = 0;
            while i < items.len()
                invariant
                    *parsed == Ok::<JsonValue, String>(JsonValue::Array(*items)),
                    items.len() == types.len(),
                    i <= items.len(),
                    out@.len() == i,
                    args_read(types@, items@, out@),
                decreases items.len() - i,
            {
                match dart_value_from_json(&types[i], &items[i]) {
                    Ok(v) => {
                        let ghost before = out@;
                        out.push(v);
                        assert(forall|k: int| 0 <= k < i ==> out@[k] == before[k]);
                    },
                    Err(m) => {
                        proof {
                            let r: Result<ValueFromJson<'a, T>, String> = Err(m);
                            assert(from_json_of(types@[i as int], items@[i as int], r));
                            assert(args_read(types@, items@, out@));
                            assert(argument_list_of(*parsed, types@.len()) == Ok::<Seq<JsonValue>, Seq<char>>(items@));
                        }
                        return Err(m);
                    },
                }
                i = i + 1;
            }
            Ok(out)
        },
        Ok(_) => Err(string_of(chars_of("arguments must be a JSON array").as_slice())),
    }
}
} // verus!

verus! {

/// The view of an optional member list.
pub open spec fn members_view(members: Option<&Vec<(String, MemberKind)>>) -> Option<Seq<(String, MemberKind)>> {
    match members {
        Some(m) => Some(m@),
        None => None,
    }
}

/// The number of arguments of a callback or function.
pub open spec fn arity_of(kind: MemberKind) -> Option<usize> {
    match kind {
        MemberKind::Property => None,
        MemberKind::Callback(n) => Some(n),
        MemberKind::Function(n) => Some(n),
    }
}

/// The property a write names, or `no such property: <name>`.
pub open spec fn find_property_of(members: Option<Seq<(String, MemberKind)>>, name: Seq<char>) -> Result<int, Seq<char>> {
    match lookup_member_of(members, name) {
        Some(i) => Ok(i),
        None => Err("no such property: "@ + name),
    }
}

/// The callback or function an invocation names, with its number of
/// arguments; or why there is none.
pub open spec fn find_invokable_of(members: Option<Seq<(String, MemberKind)>>, name: Seq<char>) -> Result<(int, usize), Seq<char>> {
    match lookup_member_of(members, name) {
        None => Err("no such callback or function: "@ + name),
        Some(i) => match arity_of(members->0[i].1) {
            Some(n) => Ok((i, n)),
            None => Err(name + " is a property, not a callback or function"@),
        },
    }
}

/// The callback a handler is installed for, with its number of arguments;
/// or why there is none.
pub open spec fn find_callback_of(members: Option<Seq<(String, MemberKind)>>, name: Seq<char>) -> Result<(int, usize), Seq<char>> {
    match lookup_member_of(members, name) {
        None => Err("no such callback: "@ + name),
        Some(i) => match arity_of(members->0[i].1) {
            Some(n) => Ok((i, n)),
            None => Err(name + " is a property, not a callback"@),
        },
    }
}

fn join2(a: &str, b: &str) -> (r: String)
    ensures
        r@ == a@ + b@,
{
    let mut out = chars_of(a);
    push_all(&mut out, chars_of(b).as_slice());
    string_of(out.as_slice())
}

fn arity(kind: &MemberKind) -> (r: Option<usize>)
    ensures
        r == arity_of(*kind),
{
    match kind {
        MemberKind::Property => None,
        MemberKind::Callback(n) => Some(*n),
        MemberKind::Function(n) => Some(*n),
    }
}

/// Find the property a write names (see [`find_property_of`]).
pub fn find_property(members: Option<&Vec<(String, MemberKind)>>, name: &str) -> (r: Result<usize, String>)
    ensures
        match find_property_of(members_view(members), name@) {
            Ok(i) => r == Ok::<usize, String>(i as usize),
            Err(e) => r matches Err(m) && m@ == e,
        },
{
    match lookup_type(members, name) {
        Some(i) => Ok(i),
        None => Err(join2("no such property: ", name)),
    }
}

/// Find the callback or function an invocation names (see
/// [`find_invokable_of`]).
pub fn find_invokable(members: Option<&Vec<(String, MemberKind)>>, name: &str) -> (r: Result<(usize, usize), String>)
    ensures
        match find_invokable_of(members_view(members), name@) {
            Ok((i, n)) => r == Ok::<(usize, usize), String>((i as usize, n)),
            Err(e) => r matches Err(m) && m@ == e,
        },
{
    match lookup_type(members, name) {
        None => Err(join2("no such callback or function: ", name)),
        Some(i) => match arity(&members.unwrap()[i].1) {
            Some(n) => Ok((i, n)),
            None => Err(join2(name, " is a property, not a callback or function")),
        },
    }
}

/// Find the callback a handler is installed for (see [`find_callback_of`]).
pub fn find_callback(members: Option<&Vec<(String, MemberKind)>>, name: &str) -> (r: Result<(usize, usize), String>)
    ensures
        match find_callback_of(members_view(members), name@) {
            Ok((i, n)) => r == Ok::<(usize, usize), String>((i as usize, n)),
            Err(e) => r matches Err(m) && m@ == e,
        },
{
    match lookup_type(members, name) {
        None => Err(join2("no such callback: ", name)),
        Some(i) => match arity(&members.unwrap()[i].1) {
            Some(n) => Ok((i, n)),
            None => Err(join2(name, " is a property, not a callback")),
        },
    }
}

} // verus!
