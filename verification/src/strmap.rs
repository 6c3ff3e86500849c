//! A map from strings to strings, kept as a list of distinct keys. Only
//! its contents matter: the JSON text it ends up in is written in key order.

use vstd::prelude::*;

use crate::text::str_eq;

verus! {

/// The map that `entries` describe: a later entry for a key replaces an
/// earlier one.
pub open spec fn map_of(entries: Seq<(String, String)>) -> Map<Seq<char>, Seq<char>>
    decreases entries.len(),
{
    if entries.len() == 0 {
        Map::empty()
    } else {
        map_of(entries.drop_last()).insert(entries.last().0@, entries.last().1@)
    }
}

/// No two entries share a key.
pub open spec fn keys_distinct(entries: Seq<(String, String)>) -> bool {
    forall|i: int, j: int|
        0 <= i < j < entries.len() ==> (#[trigger] entries[i]).0@ != (#[trigger] entries[j]).0@
}

pub struct StrMap {
    pub entries: Vec<(String, String)>,
}

impl View for StrMap {
    type V = Map<Seq<char>, Seq<char>>;

    open spec fn view(&self) -> Map<Seq<char>, Seq<char>> {
        map_of(self.entries@)
    }
}

/// With distinct keys, the map holds exactly the entries.
pub proof fn lemma_map_of(entries: Seq<(String, String)>)
    requires
        keys_distinct(entries),
    ensures
        map_of(entries).dom().finite(),
        map_of(entries).len() == entries.len(),
        forall|i: int|
            0 <= i < entries.len() ==> map_of(entries).contains_key((#[trigger] entries[i]).0@)
                && map_of(entries)[entries[i].0@] == entries[i].1@,
        forall|k: Seq<char>|
            #[trigger] map_of(entries).contains_key(k) ==> exists|i: int|
                0 <= i < entries.len() && (#[trigger] entries[i]).0@ == k,
    decreases entries.len(),
{
    if entries.len() > 0 {
        let init = entries.drop_last();
        assert(keys_distinct(init)) by {
            assert forall|i: int, j: int| 0 <= i < j < init.len() implies (#[trigger] init[i]).0@
                != (#[trigger] init[j]).0@ by {
                assert(init[i] == entries[i]);
                assert(init[j] == entries[j]);
            }
        }
        lemma_map_of(init);
        let last = entries.last();
        assert(!map_of(init).contains_key(last.0@)) by {
            if map_of(init).contains_key(last.0@) {
                let i = choose|i: int| 0 <= i < init.len() && (#[trigger] init[i]).0@ == last.0@;
                assert(entries[i] == init[i]);
                assert(entries[entries.len() - 1] == last);
            }
        }
        assert forall|i: int| 0 <= i < entries.len() implies map_of(entries).contains_key(
            (#[trigger] entries[i]).0@,
        ) && map_of(entries)[entries[i].0@] == entries[i].1@ by {
            if i < entries.len() - 1 {
                assert(entries[i] == init[i]);
                assert(entries[i].0@ != last.0@);
            }
        }
        assert forall|k: Seq<char>| #[trigger] map_of(entries).contains_key(k) implies exists|i: int|
            0 <= i < entries.len() && (#[trigger] entries[i]).0@ == k by {
            if k != last.0@ {
                let i = choose|i: int| 0 <= i < init.len() && (#[trigger] init[i]).0@ == k;
                assert(entries[i] == init[i]);
            } else {
                assert(entries[entries.len() - 1] == last);
            }
        }
    }
}

impl StrMap {
    /// Distinct keys: the invariant every operation keeps.
    pub open spec fn wf(&self) -> bool {
        keys_distinct(self.entries@)
    }

    /// An empty map.
    pub fn new() -> (m: StrMap)
        ensures
            m.wf(),
            m@ == Map::<Seq<char>, Seq<char>>::empty(),
    {
        StrMap { entries: Vec::new() }
    }

    /// The position of `key`, if present.
    pub fn position(&self, key: &str) -> (r: Option<usize>)
        requires
            self.wf(),
        ensures
            match r {
                Some(i) => i < self.entries.len() && self.entries@[i as int].0@ == key@,
                None => !self@.contains_key(key@),
            },
    {
        proof {
            lemma_map_of(self.entries@);
        }
        let mut i: usize = 0;
        while i < self.entries.len()
            invariant
                i <= self.entries.len(),
                forall|j: int| 0 <= j < i ==> (#[trigger] self.entries@[j]).0@ != key@,
            decreases self.entries.len() - i,
        {
            if str_eq(self.entries[i].0.as_str(), key) {
                return Some(i);
            }
            i = i + 1;
        }
        None
    }

    /// Is `key` present?
    pub fn contains_key(&self, key: &str) -> (b: bool)
        requires
            self.wf(),
        ensures
            b == self@.contains_key(key@),
    {
        proof {
            lemma_map_of(self.entries@);
        }
        self.position(key).is_some()
    }

    /// Set `key` to `value`, replacing any earlier value.
    pub fn insert(&mut self, key: String, value: String)
        requires
            old(self).wf(),
        ensures
            final(self).wf(),
            final(self)@ == old(self)@.insert(key@, value@),
    {
        proof {
            lemma_map_of(self.entries@);
        }
        match self.position(key.as_str()) {
            Some(i) => {
                let ghost before = self.entries@;
                self.entries.set(i, (key, value));
                proof {
                    lemma_map_of(self.entries@);
                    assert(keys_distinct(self.entries@)) by {
                        assert forall|a: int, b: int| 0 <= a < b < self.entries@.len() implies (
                        #[trigger] self.entries@[a]).0@ != (#[trigger] self.entries@[b]).0@ by {
                            assert(before[a].0@ == self.entries@[a].0@);
                            assert(before[b].0@ == self.entries@[b].0@);
                        }
                    }
                    lemma_map_of(self.entries@);
                    lemma_map_of(before);
                    assert(map_of(self.entries@) =~= map_of(before).insert(key@, value@)) by {
                        assert forall|k: Seq<char>| #[trigger] map_of(self.entries@).contains_key(k)
                            <==> map_of(before).insert(key@, value@).contains_key(k) by {
                            if map_of(self.entries@).contains_key(k) {
                                let j = choose|j: int|
                                    0 <= j < self.entries@.len() && (#[trigger] self.entries@[j]).0@
                                        == k;
                                assert(before[j].0@ == self.entries@[j].0@);
                            }
                            if map_of(before).contains_key(k) {
                                let j = choose|j: int|
                                    0 <= j < before.len() && (#[trigger] before[j]).0@ == k;
                                assert(before[j].0@ == self.entries@[j].0@);
                            }
                        }
                        assert forall|k: Seq<char>| #[trigger] map_of(self.entries@).contains_key(k)
                            implies map_of(self.entries@)[k] == map_of(before).insert(
                            key@,
                            value@,
                        )[k] by {
                            let j = choose|j: int|
                                0 <= j < self.entries@.len() && (#[trigger] self.entries@[j]).0@
                                    == k;
                            if j != i {
                                assert(before[j] == self.entries@[j]);
                            }
                        }
                    }
                }
            },
            None => {
                let ghost before = self.entries@;
                self.entries.push((key, value));
                proof {
                    assert(self.entries@.drop_last() =~= before);
                    assert(keys_distinct(self.entries@)) by {
                        assert forall|a: int, b: int| 0 <= a < b < self.entries@.len() implies (
                        #[trigger] self.entries@[a]).0@ != (#[trigger] self.entries@[b]).0@ by {
                            if b == self.entries@.len() - 1 {
                                assert(self.entries@[a] == before[a]);
                                assert(map_of(before).contains_key(before[a].0@));
                            } else {
                                assert(self.entries@[a] == before[a]);
                                assert(self.entries@[b] == before[b]);
                            }
                        }
                    }
                }
            },
        }
    }
}

} // verus!
