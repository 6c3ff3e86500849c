//! A JSON value as the library reads and builds it. Text is turned into
//! values, and values into text, by `serde_json` outside the library.

use vstd::prelude::*;

verus! {

/// A JSON number as `serde_json` keeps it: a non-negative integer, a
/// negative integer, or any other number (held by the bits of its `f64`).
#[derive(Debug, PartialEq)]
pub enum JsonNumber {
    Unsigned(u64),
    Negative(i64),
    Float(u64),
}

/// A JSON value. Object members keep the order in which they were read.
#[derive(Debug, PartialEq)]
pub enum JsonValue {
    Null,
    Bool(bool),
    Number(JsonNumber),
    String(String),
    Array(Vec<JsonValue>),
    Object(Vec<(String, JsonValue)>),
}

/// The index of the first member of `entries` named `key`, searching from `i`.
pub open spec fn member_from(entries: Seq<(String, JsonValue)>, key: Seq<char>, i: int) -> Option<
    int,
>
    decreases entries.len() - i,
{
    if i < 0 || i >= entries.len() {
        None
    } else if entries[i].0@ == key {
        Some(i)
    } else {
        member_from(entries, key, i + 1)
    }
}

/// The index of the first member of `entries` named `key`.
pub open spec fn member_index(entries: Seq<(String, JsonValue)>, key: Seq<char>) -> Option<int> {
    member_from(entries, key, 0)
}

/// The value of the member `key` of `entries`, if there is one.
pub open spec fn member(entries: Seq<(String, JsonValue)>, key: Seq<char>) -> Option<JsonValue> {
    match member_index(entries, key) {
        Some(i) => Some(entries[i].1),
        None => None,
    }
}

pub proof fn lemma_member_from(entries: Seq<(String, JsonValue)>, key: Seq<char>, i: int)
    requires
        0 <= i,
    ensures
        match member_from(entries, key, i) {
            Some(j) => i <= j < entries.len() && entries[j].0@ == key && forall|m: int|
                i <= m < j ==> entries[m].0@ != key,
            None => forall|m: int| i <= m < entries.len() ==> entries[m].0@ != key,
        },
    decreases entries.len() - i,
{
    if i < entries.len() && entries[i].0@ != key {
        lemma_member_from(entries, key, i + 1);
    }
}

/// Executable [`member_index`].
pub fn find_member(entries: &Vec<(String, JsonValue)>, key: &str) -> (r: Option<usize>)
    ensures
        match r {
            Some(i) => i < entries.len() && member_index(entries@, key@) == Some(i as int),
            None => member_index(entries@, key@) is None,
        },
{
    proof {
        lemma_member_from(entries@, key@, 0);
    }
    let mut i: usize = 0;
    while i < entries.len()
        invariant
            i <= entries.len(),
            member_index(entries@, key@) == member_from(entries@, key@, i as int),
        decreases entries.len() - i,
    {
        if crate::text::str_eq(entries[i].0.as_str(), key) {
            return Some(i);
        }
        i = i + 1;
    }
    None
}

} // verus!
