//! Typed values to and from JSON, for the types the interpreter's own JSON
//! helpers do not round-trip: images, and arrays and structs that hold them.
//! A type or value of any other kind is handed through to those helpers.

use vstd::prelude::*;

use crate::json::JsonValue;
use crate::paths::views;
use crate::text::{chars_of, push_all, string_of, text};
use crate::values::{
    image_json_of, image_request, image_request_of, image_to_json, struct_field, struct_field_of,
    ImageRequest,
};

verus! {

/// The shape of a Slint type as the JSON conversion sees it; `T` is the
/// interpreter's own type, kept for the kinds the conversion hands through.
#[derive(Debug)]
pub enum TypeShape<T> {
    Image,
    Array(Box<TypeShape<T>>),
    /// The fields of a struct, by their Slint names.
    Struct(Vec<(String, TypeShape<T>)>),
    Other(T),
}

/// A value read from JSON for a [`TypeShape`].
#[derive(Debug)]
pub enum ValueFromJson<'a, T> {
    Image(ImageRequest),
    Model(Vec<ValueFromJson<'a, T>>),
    /// The members of a struct, by the names the JSON gave them.
    Struct(Vec<(String, ValueFromJson<'a, T>)>),
    /// A value of another type, for the interpreter's `value_from_json`.
    Other(&'a T, &'a JsonValue),
}

/// The field names of a struct type.
pub open spec fn field_names<T>(fields: Seq<(String, TypeShape<T>)>) -> Seq<Seq<char>> {
    fields.map_values(|f: (String, TypeShape<T>)| f.0@)
}

pub open spec fn array_expected_error() -> Seq<char> {
    "Got an array where none was expected"@
}

pub open spec fn struct_expected_error() -> Seq<char> {
    "Got a struct where none was expected"@
}

/// `r` is what reading `value` as a `ty` gives: an image as
/// [`image_request_of`] says; an array element by element, failing with the
/// first element that fails; a struct member by member in the order of the
/// JSON object, each member naming a field (spelled as is, or with `-` for
/// `_`) and failing with the first member that is unknown or fails; any
/// other type handed through with its JSON.
pub open spec fn from_json_of<'a, T>(ty: TypeShape<T>, value: JsonValue, r: Result<ValueFromJson<'a, T>, String>) -> bool
    decreases ty, 1int,
{
    match ty {
        TypeShape::Image => match r {
            Ok(ValueFromJson::Image(req)) => image_request_of(value, Ok(req)),
            Ok(_) => false,
            Err(m) => image_request_of(value, Err(m)),
        },
        TypeShape::Array(elem) => match value {
            JsonValue::Array(items) => match r {
                Ok(ValueFromJson::Model(vs)) => vs@.len() == items@.len() && items_read(ty, items@, vs@),
                Ok(_) => false,
                Err(m) => exists|vs: Seq<ValueFromJson<'a, T>>|
                    #![trigger vs.len()]
                    items_read(ty, items@, vs) && vs.len() < items@.len()
                        && item_fails(ty, items@[vs.len() as int], r),
            },
            _ => r matches Err(m) && m@ == array_expected_error(),
        },
        TypeShape::Struct(fields) => match value {
            JsonValue::Object(entries) => match r {
                Ok(ValueFromJson::Struct(vs)) => vs@.len() == entries@.len() && members_read(ty, entries@, vs@),
                Ok(_) => false,
                Err(m) => exists|vs: Seq<(String, ValueFromJson<'a, T>)>|
                    #![trigger vs.len()]
                    members_read(ty, entries@, vs) && vs.len() < entries@.len()
                        && member_fails(ty, entries@[vs.len() as int], r),
            },
            _ => r matches Err(m) && m@ == struct_expected_error(),
        },
        TypeShape::Other(t) => r matches Ok(ValueFromJson::Other(u, v)) && *u == t && *v == value,
    }
}

/// `vs` is what the first `vs.len()` of `items` read as, each as the
/// element type of the array type `ty`.
pub open spec fn items_read<'a, T>(ty: TypeShape<T>, items: Seq<JsonValue>, vs: Seq<ValueFromJson<'a, T>>) -> bool
    decreases ty, 0int,
{
    match ty {
        TypeShape::Array(elem) => vs.len() <= items.len() && forall|i: int|
            0 <= i < vs.len() ==> from_json_of(*elem, #[trigger] items[i], Ok(vs[i])),
        _ => false,
    }
}

/// Reading `item` as the element type of the array type `ty` gives `r`.
pub open spec fn item_fails<'a, T>(ty: TypeShape<T>, item: JsonValue, r: Result<ValueFromJson<'a, T>, String>) -> bool
    decreases ty, 0int,
{
    match ty {
        TypeShape::Array(elem) => from_json_of(*elem, item, r),
        _ => false,
    }
}

/// `vs` is what the first `vs.len()` members of `entries` read as, each
/// under its JSON name, as the field of the struct type `ty` it names.
pub open spec fn members_read<'a, T>(ty: TypeShape<T>, entries: Seq<(String, JsonValue)>, vs: Seq<(String, ValueFromJson<'a, T>)>) -> bool
    decreases ty, 0int,
    via members_read_decreases::<T>
{
    match ty {
        TypeShape::Struct(fields) => vs.len() <= entries.len() && forall|i: int|
            0 <= i < vs.len() ==> {
                &&& (#[trigger] vs[i]).0@ == entries[i].0@
                &&& struct_field_of(field_names(fields@), entries[i].0@) matches Ok(j)
                &&& 0 <= j < fields@.len()
                &&& from_json_of(fields@[j].1, entries[i].1, Ok(vs[i].1))
            },
        _ => false,
    }
}

/// Reading the member `entry` of a JSON object as a field of the struct
/// type `ty` fails with `r`: the member names no field and `r` is that
/// error, or `r` is what its value gives as that field's type.
pub open spec fn member_fails<'a, T>(ty: TypeShape<T>, entry: (String, JsonValue), r: Result<ValueFromJson<'a, T>, String>) -> bool
    decreases ty, 0int,
    via member_fails_decreases::<T>
{
    match ty {
        TypeShape::Struct(fields) => match struct_field_of(field_names(fields@), entry.0@) {
            Ok(j) => 0 <= j < fields@.len() && from_json_of(fields@[j].1, entry.1, r),
            Err(e) => r matches Err(m) && m@ == e,
        },
        _ => false,
    }
}

#[via_fn]
proof fn members_read_decreases<'a, T>(ty: TypeShape<T>, entries: Seq<(String, JsonValue)>, vs: Seq<(String, ValueFromJson<'a, T>)>) {
    match ty {
        TypeShape::Struct(fields) => {
            assert forall|j: int| 0 <= j < fields@.len() implies decreases_to!(ty => (#[trigger] fields@[j]).1) by {
                assert(decreases_to!(ty => fields));
                assert(decreases_to!(fields => fields@));
                assert(decreases_to!(fields@ => fields@[j]));
                assert(decreases_to!(fields@[j] => fields@[j].1));
            }
        },
        _ => {},
    }
}

#[via_fn]
proof fn member_fails_decreases<'a, T>(ty: TypeShape<T>, entry: (String, JsonValue), r: Result<ValueFromJson<'a, T>, String>) {
    match ty {
        TypeShape::Struct(fields) => {
            assert forall|j: int| 0 <= j < fields@.len() implies decreases_to!(ty => (#[trigger] fields@[j]).1) by {
                assert(decreases_to!(ty => fields));
                assert(decreases_to!(fields => fields@));
                assert(decreases_to!(fields@ => fields@[j]));
                assert(decreases_to!(fields@[j] => fields@[j].1));
            }
        },
        _ => {},
    }
}

fn field_names_exec<T>(fields: &Vec<(String, TypeShape<T>)>) -> (r: Vec<String>)
    ensures
        views(r@) == field_names(fields@),
{
    let mut r: Vec<String> = Vec::new();
    let mut i: usize = 0;
    while i < fields.len()
        invariant
            i <= fields.len(),
            views(r@) == field_names(fields@).take(i as int),
        decreases fields.len() - i,
    {
        let ghost before = r@;
        r.push(fields[i].0.clone());
        assert(views(r@) =~= views(before).push(fields@[i as int].0@));
        i = i + 1;
        assert(views(r@) =~= field_names(fields@).take(i as int));
    }
    assert(field_names(fields@).take(fields.len() as int) =~= field_names(fields@));
    r
}

/// Read `value` as a value of type `ty` (see [`from_json_of`]).
pub fn dart_value_from_json<'a, T>(ty: &'a TypeShape<T>, value: &'a JsonValue) -> (r: Result<ValueFromJson<'a, T>, String>)
    ensures
        from_json_of(*ty, *value, r),
    decreases ty, 2int,
{
    match ty {
        TypeShape::Image => match image_request(value) {
            Ok(req) => Ok(ValueFromJson::Image(req)),
            Err(m) => Err(m),
        },
        TypeShape::Array(elem) => match value {
            JsonValue::Array(items) => match read_items(ty, elem, items) {
                Ok(out) => Ok(ValueFromJson::Model(out)),
                Err(m) => Err(m),
            },
            _ => Err(text("Got an array where none was expected")),
        },
        TypeShape::Struct(fields) => match value {
            JsonValue::Object(entries) => match read_members(ty, fields, entries) {
                Ok(out) => Ok(ValueFromJson::Struct(out)),
                Err(m) => Err(m),
            },
            _ => Err(text("Got a struct where none was expected")),
        },
        TypeShape::Other(t) => Ok(ValueFromJson::Other(t, value)),
    }
}

/// Read each of `items` as an `elem`, stopping at the first that fails.
fn read_items<'a, T>(ty: &'a TypeShape<T>, elem: &'a Box<TypeShape<T>>, items: &'a Vec<JsonValue>) -> (r: Result<Vec<ValueFromJson<'a, T>>, String>)
    requires
        *ty == TypeShape::Array(*elem),
    ensures
        match r {
            Ok(vs) => vs@.len() == items@.len() && items_read(*ty, items@, vs@),
            Err(m) => exists|vs: Seq<ValueFromJson<'a, T>>|
                #![trigger vs.len()]
                items_read(*ty, items@, vs) && vs.len() < items@.len()
                    && item_fails(*ty, items@[vs.len() as int], Err::<ValueFromJson<'a, T>, String>(m)),
        },
    decreases ty, 0int,
{
    let mut out: Vec<ValueFromJson<'a, T>> = Vec::new();
    let mut i: usize = 0;
    while i < items.len()
        invariant
            *ty == TypeShape::Array(*elem),
            i <= items.len(),
            out@.len() == i,
            items_read(*ty, items@, out@),
        decreases items.len() - i,
    {
        proof {
            assert(decreases_to!(*ty => (*ty)->Array_0));
        }
        match dart_value_from_json(&**elem, &items[i]) {
            Ok(v) => {
                let ghost before = out@;
                out.push(v);
                assert(forall|k: int| 0 <= k < i ==> out@[k] == before[k]);
            },
            Err(m) => {
                proof {
                    assert(items_read(*ty, items@, out@));
                }
                return Err(m);
            },
        }
        i = i + 1;
    }
    Ok(out)
}

/// Read each member of `entries` as the field of `fields` it names,
/// stopping at the first that is unknown or fails.
fn read_members<'a, T>(ty: &'a TypeShape<T>, fields: &'a Vec<(String, TypeShape<T>)>, entries: &'a Vec<(String, JsonValue)>) -> (r: Result<Vec<(String, ValueFromJson<'a, T>)>, String>)
    requires
        *ty == TypeShape::Struct(*fields),
    ensures
        match r {
            Ok(vs) => vs@.len() == entries@.len() && members_read(*ty, entries@, vs@),
            Err(m) => exists|vs: Seq<(String, ValueFromJson<'a, T>)>|
                #![trigger vs.len()]
                members_read(*ty, entries@, vs) && vs.len() < entries@.len()
                    && member_fails(*ty, entries@[vs.len() as int], Err::<ValueFromJson<'a, T>, String>(m)),
        },
    decreases ty, 1int,
{
    let names = field_names_exec(fields);
    let mut out: Vec<(String, ValueFromJson<'a, T>)> = Vec::new();
    let mut i: usize = 0;
    while i < entries.len()
        invariant
            *ty == TypeShape::Struct(*fields),
            views(names@) == field_names(fields@),
            i <= entries.len(),
            out@.len() == i,
            members_read(*ty, entries@, out@),
        decreases entries.len() - i,
    {
        match read_member(ty, fields, &names, &entries[i]) {
            Ok((name, v, j)) => {
                let ghost before = out@;
                proof {
                    lemma_members_read_push(*ty, entries@, before, name, v, j as int);
                }
                out.push((name, v));
                assert(out@ == before.push((name, v)));
            },
            Err(m) => {
                proof {
                    assert(members_read(*ty, entries@, out@));
                }
                return Err(m);
            },
        }
        i = i + 1;
    }
    Ok(out)
}

/// The field of `fields` that `name` names (see [`struct_field_of`]).
fn field_of<T>(fields: &Vec<(String, TypeShape<T>)>, names: &Vec<String>, name: &str) -> (r: Result<usize, String>)
    requires
        views(names@) == field_names(fields@),
    ensures
        match struct_field_of(field_names(fields@), name@) {
            Ok(j) => r == Ok::<usize, String>(j as usize) && 0 <= j < fields@.len(),
            Err(e) => r matches Err(m) && m@ == e,
        },
{
    proof {
        crate::values::lemma_struct_field_in_range(field_names(fields@), name@);
    }
    struct_field(names, name)
}

/// Read one member of a JSON object as the field of `fields` it names:
/// its JSON name, its value, and the field's index.
#[verifier::rlimit(80)]
fn read_member<'a, T>(
    ty: &'a TypeShape<T>,
    fields: &'a Vec<(String, TypeShape<T>)>,
    names: &Vec<String>,
    entry: &'a (String, JsonValue),
) -> (r: Result<(String, ValueFromJson<'a, T>, usize), String>)
    requires
        *ty == TypeShape::Struct(*fields),
        views(names@) == field_names(fields@),
    ensures
        match r {
            Ok((name, v, j)) => name@ == entry.0@ && struct_field_of(field_names(fields@), name@) == Ok::<int, Seq<char>>(j as int)
                && j < fields@.len() && from_json_of(fields@[j as int].1, entry.1, Ok(v)),
            Err(m) => member_fails(*ty, *entry, Err::<ValueFromJson<'a, T>, String>(m)),
        },
    decreases ty, 0int,
{
    let j = match field_of(fields, names, entry.0.as_str()) {
        Ok(j) => j,
        Err(m) => return Err(m),
    };
    proof {
        assert(decreases_to!(*ty => fields@[j as int].1)) by {
            assert(decreases_to!(*ty => (*ty)->Struct_0));
            assert(decreases_to!(*fields => fields@));
            assert(decreases_to!(fields@ => fields@[j as int]));
            assert(decreases_to!(fields@[j as int] => fields@[j as int].1));
        }
    }
    match dart_value_from_json(&fields[j].1, &entry.1) {
        Ok(v) => Ok((entry.0.clone(), v, j)),
        Err(m) => Err(m),
    }
}

/// Reading one more member keeps [`members_read`].
proof fn lemma_members_read_push<'a, T>(
    ty: TypeShape<T>,
    entries: Seq<(String, JsonValue)>,
    vs: Seq<(String, ValueFromJson<'a, T>)>,
    name: String,
    v: ValueFromJson<'a, T>,
    j: int,
)
    requires
        members_read(ty, entries, vs),
        vs.len() < entries.len(),
        name@ == entries[vs.len() as int].0@,
        ty matches TypeShape::Struct(fields) && struct_field_of(field_names(fields@), name@) == Ok::<int, Seq<char>>(j)
            && 0 <= j < fields@.len() && from_json_of(fields@[j].1, entries[vs.len() as int].1, Ok(v)),
    ensures
        members_read(ty, entries, vs.push((name, v))),
{
    let w = vs.push((name, v));
    match ty {
        TypeShape::Struct(fields) => {
            assert forall|i: int| 0 <= i < w.len() implies {
                &&& (#[trigger] w[i]).0@ == entries[i].0@
                &&& struct_field_of(field_names(fields@), entries[i].0@) matches Ok(k)
                &&& 0 <= k < fields@.len()
                &&& from_json_of(fields@[k].1, entries[i].1, Ok(w[i].1))
            } by {
                if i < vs.len() {
                    assert(w[i] == vs[i]);
                }
            }
        },
        _ => {},
    }
}

/// A value to be turned into JSON for Dart.
#[derive(Debug)]
pub enum ValueForJson {
    /// An image: the path it was loaded from, if any; its size; and its
    /// pixels as RGBA (width, height, bytes), when they can be had.
    Image { path: Option<String>, width: u32, height: u32, pixels: Option<(u32, u32, Vec<u8>)> },
    Model(Vec<ValueForJson>),
    /// The fields of a struct, by name.
    Struct(Vec<(String, ValueForJson)>),
    /// A value of another type, as the interpreter's `value_to_json` gave it.
    Other(Result<JsonValue, String>),
}

/// `r` is what turning `v` into JSON gives: an image as
/// [`image_json_of`] says; a model as an array and a struct as an object,
/// item by item, failing with the first item that fails; any other value
/// as the interpreter gave it.
pub open spec fn to_json_of(v: ValueForJson, r: Result<JsonValue, String>) -> bool
    decreases v,
    via to_json_of_decreases
{
    match v {
        ValueForJson::Image { path, width, height, pixels } => image_json_of(
            match path {
                Some(p) => Some(p@),
                None => None,
            },
            width,
            height,
            match pixels {
                Some((w, h, b)) => Some((w, h, b@)),
                None => None,
            },
            r,
        ),
        ValueForJson::Model(items) => match r {
            Ok(JsonValue::Array(js)) => js@.len() == items@.len() && forall|i: int|
                0 <= i < items@.len() ==> to_json_of(#[trigger] items@[i], Ok(js@[i])),
            Ok(_) => false,
            Err(_) => exists|js: Seq<JsonValue>|
                #![trigger js.len()]
                js.len() < items@.len() && (forall|i: int| 0 <= i < js.len() ==> to_json_of(#[trigger] items@[i], Ok(js[i])))
                    && to_json_of(items@[js.len() as int], r),
        },
        ValueForJson::Struct(members) => match r {
            Ok(JsonValue::Object(es)) => es@.len() == members@.len() && forall|i: int|
                0 <= i < members@.len() ==> (#[trigger] es@[i]).0@ == members@[i].0@
                    && to_json_of(members@[i].1, Ok(es@[i].1)),
            Ok(_) => false,
            Err(_) => exists|js: Seq<JsonValue>|
                #![trigger js.len()]
                js.len() < members@.len() && (forall|i: int| 0 <= i < js.len() ==> to_json_of((#[trigger] members@[i]).1, Ok(js[i])))
                    && to_json_of(members@[js.len() as int].1, r),
        },
        ValueForJson::Other(res) => r == res,
    }
}

#[via_fn]
proof fn to_json_of_decreases(v: ValueForJson, r: Result<JsonValue, String>) {
    match v {
        ValueForJson::Model(items) => {
            assert forall|i: int| 0 <= i < items@.len() implies decreases_to!(v => #[trigger] items@[i]) by {
                assert(decreases_to!(v => items));
                assert(decreases_to!(items => items@));
                assert(decreases_to!(items@ => items@[i]));
            }
        },
        ValueForJson::Struct(members) => {
            assert forall|i: int| 0 <= i < members@.len() implies decreases_to!(v => (#[trigger] members@[i]).1) by {
                assert(decreases_to!(v => members));
                assert(decreases_to!(members => members@));
                assert(decreases_to!(members@ => members@[i]));
                assert(decreases_to!(members@[i] => members@[i].1));
            }
        },
        _ => {},
    }
}

/// Turn `value` into JSON (see [`to_json_of`]).
pub fn dart_value_to_json(value: ValueForJson) -> (r: Result<JsonValue, String>)
    ensures
        to_json_of(value, r),
    decreases value,
{
    let ghost whole = value;
    match value {
        ValueForJson::Image { path, width, height, pixels } => {
            let p = match &path {
                Some(p) => Some(p.as_str()),
                None => None,
            };
            let px = match &pixels {
                Some((w, h, b)) => Some((*w, *h, b.as_slice())),
                None => None,
            };
            image_to_json(p, width, height, px)
        },
        ValueForJson::Model(items) => {
            let ghost all = items;
            let mut rest = items;
            let mut out: Vec<JsonValue> = Vec::new();
            while rest.len() > 0
                invariant
                    whole == value,
                    whole == ValueForJson::Model(all),
                    out@.len() + rest@.len() == all@.len(),
                    rest@ == all@.skip(out@.len() as int),
                    forall|i: int| 0 <= i < out@.len() ==> to_json_of(#[trigger] all@[i], Ok(out@[i])),
                decreases rest.len(),
            {
                let ghost k = out@.len() as int;
                let item = rest.remove(0);
                proof {
                    assert(item == all@[k]);
                    assert(rest@ =~= all@.skip(k + 1));
                    assert(decreases_to!(whole => all@[k])) by {
                        assert(decreases_to!(whole => whole->Model_0));
                        assert(decreases_to!(all => all@));
                        assert(decreases_to!(all@ => all@[k]));
                    }
                }
                match dart_value_to_json(item) {
                    Ok(j) => out.push(j),
                    Err(m) => {
                        let r: Result<JsonValue, String> = Err(m);
                        proof {
                            assert(to_json_of(all@[out@.len() as int], r));
                            assert(out@.len() < all@.len());
                        }
                        return r;
                    },
                }
            }
            Ok(JsonValue::Array(out))
        },
        ValueForJson::Struct(members) => {
            let ghost all = members;
            let mut rest = members;
            let mut out: Vec<(String, JsonValue)> = Vec::new();
            while rest.len() > 0
                invariant
                    whole == value,
                    whole == ValueForJson::Struct(all),
                    out@.len() + rest@.len() == all@.len(),
                    rest@ == all@.skip(out@.len() as int),
                    forall|i: int| 0 <= i < out@.len() ==> (#[trigger] out@[i]).0@ == all@[i].0@
                        && to_json_of(all@[i].1, Ok(out@[i].1)),
                decreases rest.len(),
            {
                let ghost k = out@.len() as int;
                let (name, item) = rest.remove(0);
                proof {
                    assert((name, item) == all@[k]);
                    assert(rest@ =~= all@.skip(k + 1));
                    assert(decreases_to!(whole => all@[k].1)) by {
                        assert(decreases_to!(whole => whole->Struct_0));
                        assert(decreases_to!(all => all@));
                        assert(decreases_to!(all@ => all@[k]));
                        assert(decreases_to!(all@[k] => all@[k].1));
                    }
                }
                match dart_value_to_json(item) {
                    Ok(j) => {
                        let ghost before = out@;
                        out.push((name, j));
                        assert(forall|i: int| 0 <= i < k ==> out@[i] == before[i]);
                    },
                    Err(m) => {
                        let r: Result<JsonValue, String> = Err(m);
                        let ghost js = out@.map_values(|e: (String, JsonValue)| e.1);
                        proof {
                            assert(to_json_of(all@[js.len() as int].1, r));
                            assert(forall|i: int| 0 <= i < js.len() ==> to_json_of((#[trigger] all@[i]).1, Ok(js[i])));
                        }
                        return r;
                    },
                }
            }
            Ok(JsonValue::Object(out))
        },
        ValueForJson::Other(res) => res,
    }
}

/// `r` is what reading the JSON text whose parse gave `parsed` as a `ty`
/// gives: the parse error, or [`from_json_of`] the parsed value.
pub open spec fn from_json_str_of<'a, T>(ty: TypeShape<T>, parsed: Result<JsonValue, String>, r: Result<ValueFromJson<'a, T>, String>) -> bool {
    match parsed {
        Err(e) => r matches Err(m) && m@ == "Failed to parse JSON: "@ + e@,
        Ok(v) => from_json_of(ty, v, r),
    }
}

/// Read JSON text as a value of type `ty`; `parsed` is what parsing the
/// text gave (see [`from_json_str_of`]).
pub fn dart_value_from_json_str<'a, T>(ty: &'a TypeShape<T>, parsed: &'a Result<JsonValue, String>) -> (r: Result<ValueFromJson<'a, T>, String>)
    ensures
        from_json_str_of(*ty, *parsed, r),
{
    match parsed {
        Err(e) => {
            let mut out = chars_of("Failed to parse JSON: ");
            push_all(&mut out, chars_of(e.as_str()).as_slice());
            Err(string_of(out.as_slice()))
        },
        Ok(v) => dart_value_from_json(ty, v),
    }
}

/// What a Dart callback's answer gives the interpreter: nothing (a void
/// result) when Dart answered nothing or its answer does not read as the
/// callback's return type, else the value it reads as. `returned` is the
/// answer's JSON text as parsed.
pub fn callback_result<'a, T>(return_type: &'a TypeShape<T>, returned: &'a Option<Result<JsonValue, String>>) -> (r: Option<ValueFromJson<'a, T>>)
    ensures
        match *returned {
            None => r is None,
            Some(parsed) => match r {
                Some(v) => from_json_str_of(*return_type, parsed, Ok(v)),
                None => exists|m: String| from_json_str_of(*return_type, parsed, Err::<ValueFromJson<'a, T>, String>(m)),
            },
        },
{
    match returned {
        None => None,
        Some(parsed) => match dart_value_from_json_str(return_type, parsed) {
            Ok(v) => Some(v),
            Err(m) => {
                proof {
                    let e: Result<ValueFromJson<'a, T>, String> = Err(m);
                    assert(from_json_str_of(*return_type, *parsed, e));
                }
                None
            },
        },
    }
}

/// Turn a list of values into a JSON array, failing with the first that
/// fails (see [`to_json_of`]).
pub fn values_to_json(values: Vec<ValueForJson>) -> (r: Result<JsonValue, String>)
    ensures
        to_json_of(ValueForJson::Model(values), r),
{
    dart_value_to_json(ValueForJson::Model(values))
}

} // verus!

verus! {

/// `v` is a value of type `ty` as the interpreter hands it out: an image
/// whose pixels, if any, are four bytes each; items that are all of the
/// element type; the fields of the struct type, in its order and under its
/// names (which differ from one another); any other value for any other
/// type.
pub open spec fn value_has_type<T>(v: ValueForJson, ty: TypeShape<T>) -> bool
    decreases v,
    via value_has_type_decreases::<T>
{
    match (v, ty) {
        (ValueForJson::Image { pixels, .. }, TypeShape::Image) => pixels matches Some((w, h, b)) ==> b@.len()
            == crate::values::rgba_len(w, h),
        (ValueForJson::Model(items), TypeShape::Array(elem)) => forall|i: int|
            0 <= i < items@.len() ==> value_has_type(#[trigger] items@[i], *elem),
        (ValueForJson::Struct(members), TypeShape::Struct(fields)) => {
            &&& members@.len() == fields@.len()
            &&& field_names(fields@).no_duplicates()
            &&& forall|i: int|
                0 <= i < members@.len() ==> (#[trigger] members@[i]).0@ == fields@[i].0@ && value_has_type(
                    members@[i].1,
                    fields@[i].1,
                )
        },
        (ValueForJson::Other(_), TypeShape::Other(_)) => true,
        _ => false,
    }
}

#[via_fn]
proof fn value_has_type_decreases<T>(v: ValueForJson, ty: TypeShape<T>) {
    match v {
        ValueForJson::Model(items) => {
            assert forall|i: int| 0 <= i < items@.len() implies decreases_to!(v => #[trigger] items@[i]) by {
                assert(decreases_to!(v => items));
                assert(decreases_to!(items => items@));
                assert(decreases_to!(items@ => items@[i]));
            }
        },
        ValueForJson::Struct(members) => {
            assert forall|i: int| 0 <= i < members@.len() implies decreases_to!(v => (#[trigger] members@[i]).1) by {
                assert(decreases_to!(v => members));
                assert(decreases_to!(members => members@));
                assert(decreases_to!(members@ => members@[i]));
                assert(decreases_to!(members@[i] => members@[i].1));
            }
        },
        _ => {},
    }
}

/// What reading `v`'s JSON back gives stands for `v`: the same file, the
/// empty image, or the same pixels for an image; the same items, in order;
/// the same members under the same names; the same JSON for any other value.
pub open spec fn reads_back_as<'a, T>(v: ValueForJson, r: ValueFromJson<'a, T>) -> bool
    decreases v,
    via reads_back_as_decreases::<T>
{
    match (v, r) {
        (ValueForJson::Image { path, width, height, pixels }, ValueFromJson::Image(req)) => match path {
            Some(p) => req matches ImageRequest::Path(q) && q@ == p@,
            None => if width == 0 && height == 0 {
                req is Empty
            } else {
                pixels matches Some((w, h, b)) && req matches ImageRequest::Rgba(ww, hh, bb) && ww == w && hh == h
                    && bb@ == b@
            },
        },
        (ValueForJson::Model(items), ValueFromJson::Model(vs)) => vs@.len() == items@.len() && forall|i: int|
            0 <= i < items@.len() ==> reads_back_as(#[trigger] items@[i], vs@[i]),
        (ValueForJson::Struct(members), ValueFromJson::Struct(vs)) => vs@.len() == members@.len() && forall|i: int|
            0 <= i < members@.len() ==> (#[trigger] vs@[i]).0@ == members@[i].0@ && reads_back_as(
                members@[i].1,
                vs@[i].1,
            ),
        (ValueForJson::Other(res), ValueFromJson::Other(_, j)) => res == Ok::<JsonValue, String>(*j),
        _ => false,
    }
}

#[via_fn]
proof fn reads_back_as_decreases<'a, T>(v: ValueForJson, r: ValueFromJson<'a, T>) {
    match v {
        ValueForJson::Model(items) => {
            assert forall|i: int| 0 <= i < items@.len() implies decreases_to!(v => #[trigger] items@[i]) by {
                assert(decreases_to!(v => items));
                assert(decreases_to!(items => items@));
                assert(decreases_to!(items@ => items@[i]));
            }
        },
        ValueForJson::Struct(members) => {
            assert forall|i: int| 0 <= i < members@.len() implies decreases_to!(v => (#[trigger] members@[i]).1) by {
                assert(decreases_to!(v => members));
                assert(decreases_to!(members => members@));
                assert(decreases_to!(members@ => members@[i]));
                assert(decreases_to!(members@[i] => members@[i].1));
            }
        },
        _ => {},
    }
}

} // verus!

verus! {

/// Values round-trip through JSON: when a value of type `ty` turns into the
/// JSON `json`, reading `json` back as a `ty` succeeds, and what it reads is
/// that value (see [`reads_back_as`]).
pub proof fn law_values_round_trip_through_json<'a, T>(
    v: ValueForJson,
    ty: TypeShape<T>,
    json: JsonValue,
    r: Result<ValueFromJson<'a, T>, String>,
)
    requires
        value_has_type(v, ty),
        to_json_of(v, Ok(json)),
        from_json_of(ty, json, r),
    ensures
        r matches Ok(back) && reads_back_as(v, back),
    decreases v, 1int,
{
    match (v, ty) {
        (ValueForJson::Image { path, width, height, pixels }, TypeShape::Image) => {
            let back = match r {
                Ok(ValueFromJson::Image(req)) => Ok::<ImageRequest, String>(req),
                Err(m) => Err(m),
                _ => Err(r->Err_0),
            };
            crate::values::law_image_json_round_trip(
                match path {
                    Some(p) => Some(p@),
                    None => None,
                },
                width,
                height,
                match pixels {
                    Some((w, h, b)) => Some((w, h, b@)),
                    None => None,
                },
                Ok(json),
                back,
            );
        },
        (ValueForJson::Model(_), TypeShape::Array(_)) => lemma_model_round_trip(v, ty, json, r),
        (ValueForJson::Struct(_), TypeShape::Struct(_)) => lemma_struct_round_trip(v, ty, json, r),
        _ => {},
    }
}

/// [`law_values_round_trip_through_json`] for a model.
proof fn lemma_model_round_trip<'a, T>(
    v: ValueForJson,
    ty: TypeShape<T>,
    json: JsonValue,
    r: Result<ValueFromJson<'a, T>, String>,
)
    requires
        v is Model,
        ty is Array,
        value_has_type(v, ty),
        to_json_of(v, Ok(json)),
        from_json_of(ty, json, r),
    ensures
        r matches Ok(back) && reads_back_as(v, back),
    decreases v, 0int,
{
    let items = v->Model_0;
    let elem = *ty->Array_0;
    let js = json->Array_0;
    assert forall|i: int, x: Result<ValueFromJson<'a, T>, String>|
        0 <= i < items@.len() && #[trigger] from_json_of(elem, js@[i], x) implies (x matches Ok(b)
            && reads_back_as(items@[i], b)) by {
        assert(decreases_to!(v => items@[i])) by {
            assert(decreases_to!(v => v->Model_0));
            assert(decreases_to!(items => items@));
            assert(decreases_to!(items@ => items@[i]));
        }
        assert(value_has_type(items@[i], elem));
        assert(to_json_of(items@[i], Ok(js@[i])));
        law_values_round_trip_through_json(items@[i], elem, js@[i], x);
    }
    if r is Err {
        let vs = choose|vs: Seq<ValueFromJson<'a, T>>| #![trigger vs.len()]
            items_read(ty, js@, vs) && vs.len() < js@.len() && item_fails(ty, js@[vs.len() as int], r);
        assert(from_json_of(elem, js@[vs.len() as int], r));
    } else {
        let vs = r->Ok_0->Model_0;
        assert(items_read(ty, js@, vs@));
        assert forall|i: int| 0 <= i < items@.len() implies reads_back_as(#[trigger] items@[i], vs@[i]) by {
            assert(from_json_of(elem, js@[i], Ok(vs@[i])));
        }
    }
}

/// [`law_values_round_trip_through_json`] for a struct.
proof fn lemma_struct_round_trip<'a, T>(
    v: ValueForJson,
    ty: TypeShape<T>,
    json: JsonValue,
    r: Result<ValueFromJson<'a, T>, String>,
)
    requires
        v is Struct,
        ty is Struct,
        value_has_type(v, ty),
        to_json_of(v, Ok(json)),
        from_json_of(ty, json, r),
    ensures
        r matches Ok(back) && reads_back_as(v, back),
    decreases v, 0int,
{
    let members = v->Struct_0;
    let fields = ty->Struct_0;
    let es = json->Object_0;
    let names = field_names(fields@);
    assert forall|i: int| 0 <= i < members@.len() implies struct_field_of(names, #[trigger] es@[i].0@) == Ok::<int, Seq<char>>(i) by {
        assert(es@[i].0@ == members@[i].0@);
        assert(names[i] == es@[i].0@);
        crate::values::lemma_field_index(names, es@[i].0@);
        let k = crate::values::field_index(names, es@[i].0@)->Some_0;
        if k != i {
            assert(names[k] == names[i]);
        }
    }
    assert forall|i: int, x: Result<ValueFromJson<'a, T>, String>|
        0 <= i < members@.len() && #[trigger] from_json_of(fields@[i].1, es@[i].1, x) implies (x matches Ok(b)
            && reads_back_as(members@[i].1, b)) by {
        assert(decreases_to!(v => members@[i].1)) by {
            assert(decreases_to!(v => v->Struct_0));
            assert(decreases_to!(members => members@));
            assert(decreases_to!(members@ => members@[i]));
            assert(decreases_to!(members@[i] => members@[i].1));
        }
        assert(value_has_type(members@[i].1, fields@[i].1));
        assert(to_json_of(members@[i].1, Ok(es@[i].1)));
        law_values_round_trip_through_json(members@[i].1, fields@[i].1, es@[i].1, x);
    }
    if r is Err {
        let vs = choose|vs: Seq<(String, ValueFromJson<'a, T>)>| #![trigger vs.len()]
            members_read(ty, es@, vs) && vs.len() < es@.len() && member_fails(ty, es@[vs.len() as int], r);
        let k = vs.len() as int;
        assert(struct_field_of(names, es@[k].0@) == Ok::<int, Seq<char>>(k));
        assert(from_json_of(fields@[k].1, es@[k].1, r));
    } else {
        let vs = r->Ok_0->Struct_0;
        assert(members_read(ty, es@, vs@));
        assert forall|i: int| 0 <= i < members@.len() implies (#[trigger] vs@[i]).0@ == members@[i].0@
            && reads_back_as(members@[i].1, vs@[i].1) by {
            assert(vs@[i].0@ == es@[i].0@);
            assert(struct_field_of(names, es@[i].0@) == Ok::<int, Seq<char>>(i));
            assert(from_json_of(fields@[i].1, es@[i].1, Ok(vs@[i].1)));
        }
    }
}

} // verus!
