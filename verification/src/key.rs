//! Interned-string keys and ordered key-value lists.

use vstd::prelude::*;
use vstd::std_specs::cmp::PartialEqSpecImpl;

verus! {

/// A string used both as a map key and as a value.
///
/// Two keys are equal when they hold the same characters.
#[derive(Debug, Hash, Eq)]
pub struct Key(pub String);

impl View for Key {
    type V = Seq<char>;

    open spec fn view(&self) -> Seq<char> {
        self.0@
    }
}

impl Clone for Key {
    fn clone(&self) -> (r: Self)
        ensures
            r == *self,
    {
        Key(self.0.clone())
    }
}

impl PartialEq for Key {
    fn eq(&self, other: &Self) -> (r: bool) {
        self.0 == other.0
    }
}

impl PartialEqSpecImpl for Key {
    open spec fn obeys_eq_spec() -> bool {
        true
    }

    open spec fn eq_spec(&self, other: &Self) -> bool {
        self.0@ == other.0@
    }
}

impl Key {
    /// Makes a key that holds the characters of `text`.
    pub fn new(text: &str) -> (r: Key)
        ensures
            r@ == text@,
    {
        Key(text.to_owned())
    }
}

/// No two entries of `entries` carry the same key.
pub open spec fn keys_distinct<V>(entries: Seq<(Key, V)>) -> bool {
    forall|i: int, j: int|
        0 <= i < entries.len() && 0 <= j < entries.len() && i != j ==> (#[trigger] entries[i]).0@
            != (#[trigger] entries[j]).0@
}

/// Some entry of `entries` carries `key`.
pub open spec fn has_key<V>(entries: Seq<(Key, V)>, key: Seq<char>) -> bool {
    exists|i: int| 0 <= i < entries.len() && (#[trigger] entries[i]).0@ == key
}

/// Entry `i` is the first entry of `entries` that carries `key`.
pub open spec fn first_with_key<V>(entries: Seq<(Key, V)>, key: Seq<char>, i: int) -> bool {
    &&& 0 <= i < entries.len()
    &&& entries[i].0@ == key
    &&& forall|j: int| 0 <= j < i ==> (#[trigger] entries[j]).0@ != key
}

/// The position of the first entry that carries `key`, or the length of
/// `entries` when none does.
pub open spec fn key_position<V>(entries: Seq<(Key, V)>, key: Seq<char>) -> int
    decreases entries.len(),
{
    if entries.len() == 0 {
        0
    } else if entries[0].0@ == key {
        0
    } else {
        1 + key_position(entries.drop_first(), key)
    }
}

/// `key_position` yields the first entry with the key, or the length when
/// no entry has it.
pub proof fn lemma_key_position<V>(entries: Seq<(Key, V)>, key: Seq<char>)
    ensures
        0 <= key_position(entries, key) <= entries.len(),
        has_key(entries, key) <==> key_position(entries, key) < entries.len(),
        has_key(entries, key) ==> first_with_key(entries, key, key_position(entries, key)),
        forall|i: int| first_with_key(entries, key, i) ==> i == key_position(entries, key),
    decreases entries.len(),
{
    if entries.len() == 0 {
    } else if entries[0].0@ == key {
    } else {
        let rest = entries.drop_first();
        lemma_key_position(rest, key);
        let p = key_position(rest, key);
        if has_key(entries, key) {
            let i = choose|i: int| 0 <= i < entries.len() && (#[trigger] entries[i]).0@ == key;
            assert(rest[i - 1].0@ == key);
            assert(has_key(rest, key));
            assert(first_with_key(rest, key, p));
            assert forall|j: int| 0 <= j < p + 1 implies (#[trigger] entries[j]).0@ != key by {
                if j > 0 {
                    assert(rest[j - 1].0@ != key);
                }
            }
        }
        if p < rest.len() {
            assert(has_key(rest, key));
            assert(entries[p + 1] == rest[p]);
        }
        assert forall|i: int| first_with_key(entries, key, i) implies i == 1 + p by {
            assert(i > 0);
            assert(rest[i - 1] == entries[i]);
            assert forall|j: int| 0 <= j < i - 1 implies (#[trigger] rest[j]).0@ != key by {
                assert(rest[j] == entries[j + 1]);
            }
            assert(first_with_key(rest, key, i - 1));
        }
    }
}

/// Finds the first entry of `entries` that carries `key`.
pub fn find_key<V>(entries: &Vec<(Key, V)>, key: &Key) -> (r: Option<usize>)
    ensures
        match r {
            Some(i) => first_with_key(entries@, key@, i as int),
            None => !has_key(entries@, key@),
        },
{
    let mut i: usize = 0;
    while i < entries.len()
        invariant
            i <= entries@.len(),
            forall|j: int| 0 <= j < i ==> (#[trigger] entries@[j]).0@ != key@,
        decreases entries@.len() - i,
    {
        if entries[i].0 == *key {
            return Some(i);
        }
        i += 1;
    }
    None
}

/// Tells whether no two entries of `entries` carry the same key.
pub fn all_distinct<V>(entries: &Vec<(Key, V)>) -> (r: bool)
    ensures
        r == keys_distinct(entries@),
{
    let mut i: usize = 0;
    while i < entries.len()
        invariant
            i <= entries@.len(),
            forall|a: int, b: int|
                0 <= a < i && 0 <= b < entries@.len() && a != b ==> (#[trigger] entries@[a]).0@ != (
                #[trigger] entries@[b]).0@,
        decreases entries@.len() - i,
    {
        let mut j: usize = i + 1;
        while j < entries.len()
            invariant
                i < entries@.len(),
                i < j <= entries@.len(),
                forall|b: int| i < b < j ==> (#[trigger] entries@[b]).0@ != entries@[i as int].0@,
            decreases entries@.len() - j,
        {
            if entries[i].0 == entries[j].0 {
                return false;
            }
            j += 1;
        }
        assert forall|a: int, b: int|
            0 <= a < i + 1 && 0 <= b < entries@.len() && a != b implies (#[trigger] entries@[a]).0@
            != (#[trigger] entries@[b]).0@ by {
            if a == i && b < i {
                assert(entries@[b].0@ != entries@[a].0@);
            }
        }
        i += 1;
    }
    true
}

/// The value of the first entry that carries `key`, if there is one.
pub open spec fn value_at<V>(entries: Seq<(Key, V)>, key: Seq<char>) -> Option<V> {
    if has_key(entries, key) {
        Some(entries[key_position(entries, key)].1)
    } else {
        None
    }
}

/// In a list without repeated keys, each entry is the one found under its
/// key.
pub proof fn lemma_value_at_entry<V>(entries: Seq<(Key, V)>, i: int)
    requires
        keys_distinct(entries),
        0 <= i < entries.len(),
    ensures
        has_key(entries, entries[i].0@),
        key_position(entries, entries[i].0@) == i,
        value_at(entries, entries[i].0@) == Some(entries[i].1),
{
    lemma_key_position(entries, entries[i].0@);
    let p = key_position(entries, entries[i].0@);
    assert(first_with_key(entries, entries[i].0@, p));
    if p != i {
        assert(entries[p].0@ != entries[i].0@);
    }
}

/// Replacing the value of entry `i` changes what is found under that
/// entry's key and nothing else.
pub proof fn lemma_replace_value<V>(entries: Seq<(Key, V)>, i: int, value: V)
    requires
        keys_distinct(entries),
        0 <= i < entries.len(),
    ensures
        keys_distinct(entries.update(i, (entries[i].0, value))),
        forall|k: Seq<char>|
            #![trigger value_at(entries.update(i, (entries[i].0, value)), k)]
            value_at(entries.update(i, (entries[i].0, value)), k) == if k == entries[i].0@ {
                Some(value)
            } else {
                value_at(entries, k)
            },
{
    let after = entries.update(i, (entries[i].0, value));
    assert forall|a: int, b: int|
        0 <= a < after.len() && 0 <= b < after.len() && a != b implies (#[trigger] after[a]).0@ != (
    #[trigger] after[b]).0@ by {
        assert(entries[a].0@ != entries[b].0@);
    }
    assert forall|k: Seq<char>| #![trigger value_at(after, k)] value_at(after, k) == if k
        == entries[i].0@ {
        Some(value)
    } else {
        value_at(entries, k)
    } by {
        lemma_key_position(entries, k);
        lemma_key_position(after, k);
        if has_key(entries, k) {
            let p = key_position(entries, k);
            assert(after[p].0@ == k);
            assert(has_key(after, k));
            let q = key_position(after, k);
            assert(entries[q].0@ == k);
            if p != q {
                assert(entries[p].0@ != entries[q].0@);
            }
        } else if has_key(after, k) {
            let q = key_position(after, k);
            assert(entries[q].0@ == k);
        }
        if k == entries[i].0@ {
            lemma_value_at_entry(after, i);
        }
    }
}

/// Appending an entry under a key that the list lacks adds that entry and
/// changes nothing else.
pub proof fn lemma_push_entry<V>(entries: Seq<(Key, V)>, key: Key, value: V)
    requires
        keys_distinct(entries),
        !has_key(entries, key@),
    ensures
        keys_distinct(entries.push((key, value))),
        forall|k: Seq<char>|
            #![trigger value_at(entries.push((key, value)), k)]
            value_at(entries.push((key, value)), k) == if k == key@ {
                Some(value)
            } else {
                value_at(entries, k)
            },
{
    let after = entries.push((key, value));
    let last = entries.len() as int;
    assert forall|a: int, b: int|
        0 <= a < after.len() && 0 <= b < after.len() && a != b implies (#[trigger] after[a]).0@ != (
    #[trigger] after[b]).0@ by {
        if a < last && b < last {
            assert(entries[a].0@ != entries[b].0@);
        } else if a < last {
            assert(entries[a].0@ != key@);
        } else {
            assert(entries[b].0@ != key@);
        }
    }
    assert forall|k: Seq<char>| #![trigger value_at(after, k)] value_at(after, k) == if k == key@ {
        Some(value)
    } else {
        value_at(entries, k)
    } by {
        lemma_key_position(entries, k);
        lemma_key_position(after, k);
        if k == key@ {
            lemma_value_at_entry(after, last);
        } else if has_key(entries, k) {
            let p = key_position(entries, k);
            assert(after[p].0@ == k);
            let q = key_position(after, k);
            if p != q {
                assert(after[p].0@ != after[q].0@);
            }
        } else if has_key(after, k) {
            let q = key_position(after, k);
            assert(after[q].0@ == k);
            assert(entries[q].0@ == k);
        }
    }
}

/// The keys of a list, in its order.
pub open spec fn key_names<V>(entries: Seq<(Key, V)>) -> Seq<Seq<char>> {
    Seq::new(entries.len(), |i: int| entries[i].0@)
}

/// The list with `name` at its end, unless the list holds it already.
pub open spec fn with_name(names: Seq<Seq<char>>, name: Seq<char>) -> Seq<Seq<char>> {
    if names.contains(name) {
        names
    } else {
        names.push(name)
    }
}

/// A list has a key exactly when its keys hold it.
pub proof fn lemma_key_names<V>(entries: Seq<(Key, V)>, key: Seq<char>)
    ensures
        has_key(entries, key) <==> key_names(entries).contains(key),
{
    if has_key(entries, key) {
        let i = choose|i: int| 0 <= i < entries.len() && (#[trigger] entries[i]).0@ == key;
        assert(key_names(entries)[i] == key);
    }
    if key_names(entries).contains(key) {
        let i = choose|i: int| 0 <= i < key_names(entries).len() && key_names(entries)[i] == key;
        assert(entries[i].0@ == key);
    }
}

} // verus!
