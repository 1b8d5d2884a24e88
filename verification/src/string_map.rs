//! A small map keyed by text.

use crate::text::same_text;
use vstd::prelude::*;

verus! {

/// One key with the value filed under it.
struct Entry<V> {
    key: String,
    value: V,
}

/// A map from text to `V`, held as a list of entries no two of which have the
/// same key.
///
/// Its view is the mathematical map from the characters of each key to the deep
/// view of the value.
pub struct StringMap<V: DeepView> {
    entries: Vec<Entry<V>>,
}

/// No key is held twice.
spec fn distinct<V>(entries: Seq<Entry<V>>) -> bool {
    forall|i: int, j: int| 0 <= i < j < entries.len() ==> entries[i].key@ != entries[j].key@
}

/// Some entry has the key `k`.
spec fn holds<V>(entries: Seq<Entry<V>>, k: Seq<char>) -> bool {
    exists|i: int| 0 <= i < entries.len() && entries[i].key@ == k
}

/// Where the entry with the key `k` stands.
spec fn slot<V>(entries: Seq<Entry<V>>, k: Seq<char>) -> int {
    choose|i: int| 0 <= i < entries.len() && entries[i].key@ == k
}

/// The map that a list of entries stands for.
spec fn model<V: DeepView>(entries: Seq<Entry<V>>) -> Map<Seq<char>, V::V> {
    Map::new(
        |k: Seq<char>| holds(entries, k),
        |k: Seq<char>| entries[slot(entries, k)].value.deep_view(),
    )
}

impl<V: DeepView> View for StringMap<V> {
    type V = Map<Seq<char>, V::V>;

    closed spec fn view(&self) -> Map<Seq<char>, V::V> {
        model(self.entries@)
    }
}

/// Among distinct keys, the entry at `i` is the one that its key leads to.
proof fn lemma_slot<V>(entries: Seq<Entry<V>>, i: int)
    requires
        distinct(entries),
        0 <= i < entries.len(),
    ensures
        holds(entries, entries[i].key@),
        slot(entries, entries[i].key@) == i,
{
    let k = entries[i].key@;
    let j = slot(entries, k);
    assert(entries[j].key@ == k);
}

/// Replacing the value of the entry that has the key, or adding an entry for a
/// key that none has, keeps the keys distinct and puts the value under the key.
proof fn lemma_put<V: DeepView>(
    before: Seq<Entry<V>>,
    after: Seq<Entry<V>>,
    key: Seq<char>,
    value: V::V,
)
    requires
        distinct(before),
        ({
            ||| exists|i: int|
                0 <= i < before.len() && before[i].key@ == key && after.len() == before.len()
                    && after[i].key@ == key && after[i].value.deep_view() == value && forall|
                    j: int,
                |
                    0 <= j < before.len() && j != i ==> after[j] == before[j]
            ||| !holds(before, key) && after.len() == before.len() + 1 && after[before.len() as int].key@
                == key && after[before.len() as int].value.deep_view() == value && forall|j: int|
                0 <= j < before.len() ==> after[j] == before[j]
        }),
    ensures
        distinct(after),
        model(after) == model(before).insert(key, value),
{
    assert forall|j: int| 0 <= j < before.len() implies #[trigger] after[j].key@
        == before[j].key@ by {}
    assert forall|k: Seq<char>| holds(after, k) == (k == key || holds(before, k)) by {
        if holds(before, k) {
            assert(after[slot(before, k)].key@ == k);
        }
        if holds(after, k) && k != key {
            assert(before[slot(after, k)].key@ == k);
        }
        if k == key && !holds(before, key) {
            assert(after[before.len() as int].key@ == k);
        }
    }
    assert forall|k: Seq<char>| holds(after, k) implies #[trigger] model(after)[k] == model(
        before,
    ).insert(key, value)[k] by {
        let j = slot(after, k);
        lemma_slot(after, j);
        if j < before.len() {
            lemma_slot(before, j);
        }
    }
    assert(model(after) =~= model(before).insert(key, value));
}

/// Where the entry with the given key stands, if there is one.
fn find<V>(entries: &Vec<Entry<V>>, key: &str) -> (at: Option<usize>)
    ensures
        match at {
            Some(i) => i < entries@.len() && entries@[i as int].key@ == key@,
            None => !holds(entries@, key@),
        },
{
    let mut i: usize = 0;
    while i < entries.len()
        invariant
            i <= entries@.len(),
            forall|j: int| 0 <= j < i ==> entries@[j].key@ != key@,
        decreases entries@.len() - i,
    {
        if same_text(entries[i].key.as_str(), key) {
            return Some(i);
        }
        i += 1;
    }
    None
}

impl<V: DeepView> StringMap<V> {
    #[verifier::type_invariant]
    spec fn distinct_keys(&self) -> bool {
        distinct(self.entries@)
    }

    /// The empty map.
    pub fn new() -> (map: Self)
        ensures
            map@ == Map::<Seq<char>, V::V>::empty(),
    {
        let map = StringMap { entries: Vec::new() };
        assert(map@ =~= Map::<Seq<char>, V::V>::empty());
        map
    }

    /// Whether `key` has a value.
    pub fn contains_key(&self, key: &str) -> (held: bool)
        ensures
            held == self@.contains_key(key@),
    {
        find(&self.entries, key).is_some()
    }

    /// The value filed under `key`, if there is one.
    pub fn get(&self, key: &str) -> (found: Option<&V>)
        ensures
            match found {
                Some(value) => self@.contains_key(key@) && value.deep_view() == self@[key@],
                None => !self@.contains_key(key@),
            },
    {
        proof {
            use_type_invariant(self);
        }
        match find(&self.entries, key) {
            Some(i) => {
                proof {
                    lemma_slot(self.entries@, i as int);
                }
                Some(&self.entries[i].value)
            },
            None => None,
        }
    }

    /// Files `value` under `key`, replacing what was there.
    pub fn insert(&mut self, key: String, value: V)
        ensures
            final(self)@ == old(self)@.insert(key@, value.deep_view()),
    {
        proof {
            use_type_invariant(&*self);
        }
        let mut entries: Vec<Entry<V>> = Vec::new();
        core::mem::swap(&mut self.entries, &mut entries);
        let ghost before = entries@;
        match find(&entries, key.as_str()) {
            Some(i) => {
                entries[i].value = value;
            },
            None => {
                entries.push(Entry { key, value });
            },
        }
        proof {
            lemma_put(before, entries@, key@, value.deep_view());
        }
        core::mem::swap(&mut self.entries, &mut entries);
    }
}

/// What is filed under `key`, or nothing.
pub open spec fn listed(lists: Map<Seq<char>, Seq<Seq<char>>>, key: Seq<char>) -> Seq<Seq<char>> {
    if lists.contains_key(key) {
        lists[key]
    } else {
        Seq::empty()
    }
}

impl StringMap<Vec<String>> {
    /// Adds `item` at the end of the list filed under `key`, starting the list
    /// where the key is new.
    pub fn append(&mut self, key: &str, item: String)
        ensures
            final(self)@ == old(self)@.insert(key@, listed(old(self)@, key@).push(item@)),
    {
        proof {
            use_type_invariant(&*self);
        }
        let mut entries: Vec<Entry<Vec<String>>> = Vec::new();
        core::mem::swap(&mut self.entries, &mut entries);
        let ghost before = entries@;
        let ghost list = listed(model(before), key@).push(item@);
        match find(&entries, key) {
            Some(i) => {
                proof {
                    lemma_slot(before, i as int);
                }
                entries[i].value.push(item);
                assert(entries@[i as int].value.deep_view() =~= list);
            },
            None => {
                let mut first: Vec<String> = Vec::new();
                first.push(item);
                assert(first.deep_view() =~= list);
                entries.push(Entry { key: key.to_owned(), value: first });
            },
        }
        proof {
            lemma_put(before, entries@, key@, list);
        }
        core::mem::swap(&mut self.entries, &mut entries);
    }
}

} // verus!
