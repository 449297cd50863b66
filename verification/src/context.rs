//! The flat context of one sampled transaction.

use crate::key::{find_key, has_key, keys_distinct, Key};
use vstd::prelude::*;

verus! {

/// A mapping from attribute names to the values drawn for them.
///
/// The entries keep the order in which their keys were first inserted, and
/// no key occurs twice.
#[derive(Debug)]
pub struct Context {
    pub(crate) entries: Vec<(Key, Key)>,
}

/// The mapping that a list of entries without repeated keys stands for.
pub open spec fn entries_map(entries: Seq<(Key, Key)>) -> Map<Seq<char>, Seq<char>> {
    Map::new(
        |k: Seq<char>| has_key(entries, k),
        |k: Seq<char>|
            entries[choose|i: int| 0 <= i < entries.len() && (#[trigger] entries[i]).0@ == k].1@,
    )
}

/// In a list without repeated keys every entry is what the mapping holds for
/// its key.
pub proof fn lemma_entries_map(entries: Seq<(Key, Key)>)
    requires
        keys_distinct(entries),
    ensures
        forall|i: int|
            0 <= i < entries.len() ==> entries_map(entries).contains_key(
                (#[trigger] entries[i]).0@,
            ) && entries_map(entries)[entries[i].0@] == entries[i].1@,
        forall|k: Seq<char>| entries_map(entries).contains_key(k) <==> has_key(entries, k),
{
    assert forall|i: int| 0 <= i < entries.len() implies entries_map(entries).contains_key(
        (#[trigger] entries[i]).0@,
    ) && entries_map(entries)[entries[i].0@] == entries[i].1@ by {
        let k = entries[i].0@;
        let j = choose|j: int| 0 <= j < entries.len() && (#[trigger] entries[j]).0@ == k;
        assert(j == i);
    }
}

impl View for Context {
    type V = Map<Seq<char>, Seq<char>>;

    closed spec fn view(&self) -> Map<Seq<char>, Seq<char>> {
        entries_map(self.entries@)
    }
}

impl Context {
    #[verifier::type_invariant]
    spec fn distinct(self) -> bool {
        keys_distinct(self.entries@)
    }

    /// The context without any entry.
    pub fn new() -> (r: Context)
        ensures
            r@ == Map::<Seq<char>, Seq<char>>::empty(),
    {
        let r = Context { entries: Vec::new() };
        assert(r@ =~= Map::<Seq<char>, Seq<char>>::empty());
        r
    }

    /// The number of entries.
    pub fn len(&self) -> (n: usize)
        ensures
            n == self@.dom().len(),
            self@.dom().finite(),
    {
        proof {
            use_type_invariant(self);
            lemma_domain_size(self.entries@);
        }
        self.entries.len()
    }

    /// The value held for `key`, if there is one.
    pub fn get(&self, key: &Key) -> (r: Option<&Key>)
        ensures
            match r {
                Some(value) => self@.contains_key(key@) && self@[key@] == value@,
                None => !self@.contains_key(key@),
            },
    {
        proof {
            use_type_invariant(self);
            lemma_entries_map(self.entries@);
        }
        match find_key(&self.entries, key) {
            Some(i) => Some(&self.entries[i].1),
            None => None,
        }
    }

    /// Sets the value for `key`, replacing the one held before.
    pub fn insert(&mut self, key: Key, value: Key)
        ensures
            final(self)@ == old(self)@.insert(key@, value@),
    {
        proof {
            use_type_invariant(&*self);
            lemma_entries_map(self.entries@);
        }
        // The list is taken out while it changes and put back at the end.
        let mut entries: Vec<(Key, Key)> = Vec::new();
        std::mem::swap(&mut self.entries, &mut entries);
        let ghost before = entries@;
        match find_key(&entries, &key) {
            Some(i) => {
                entries[i].1 = value;
                proof {
                    let after = entries@;
                    assert(after.len() == before.len());
                    assert forall|j: int| 0 <= j < after.len() implies (#[trigger] after[j]).0
                        == before[j].0 by {}
                    assert(keys_distinct(after)) by {
                        assert forall|a: int, b: int|
                            0 <= a < after.len() && 0 <= b < after.len() && a != b implies (
                        #[trigger] after[a]).0@ != (#[trigger] after[b]).0@ by {
                            assert(before[a].0@ != before[b].0@);
                        }
                    }
                    lemma_entries_map(after);
                    assert forall|k: Seq<char>| has_key(after, k) <==> has_key(before, k) by {
                        if has_key(after, k) {
                            let j = choose|j: int|
                                0 <= j < after.len() && (#[trigger] after[j]).0@ == k;
                            assert(before[j].0@ == k);
                        }
                        if has_key(before, k) {
                            let j = choose|j: int|
                                0 <= j < before.len() && (#[trigger] before[j]).0@ == k;
                            assert(after[j].0@ == k);
                        }
                    }
                    assert(before[i as int].0@ == key@);
                    assert forall|k: Seq<char>| #[trigger]
                        entries_map(after).contains_key(k) implies entries_map(after)[k]
                        == entries_map(before).insert(key@, value@)[k] by {
                        let j = choose|j: int|
                            0 <= j < after.len() && (#[trigger] after[j]).0@ == k;
                        assert(entries_map(after)[after[j].0@] == after[j].1@);
                        assert(before[j].0@ == k);
                        assert(entries_map(before)[before[j].0@] == before[j].1@);
                        if j == i {
                        } else {
                            assert(after[j] == before[j]);
                        }
                    }
                    assert(entries_map(after) =~= entries_map(before).insert(key@, value@));
                }
            },
            None => {
                entries.push((key, value));
                proof {
                    let after = entries@;
                    let last = before.len() as int;
                    assert(after[last].0@ == key@);
                    assert forall|j: int| 0 <= j < last implies (#[trigger] after[j])
                        == before[j] by {}
                    assert(keys_distinct(after)) by {
                        assert forall|a: int, b: int|
                            0 <= a < after.len() && 0 <= b < after.len() && a != b implies (
                        #[trigger] after[a]).0@ != (#[trigger] after[b]).0@ by {
                            if a < last && b < last {
                                assert(before[a].0@ != before[b].0@);
                            } else if a < last {
                                assert(before[a].0@ != key@);
                            } else {
                                assert(before[b].0@ != key@);
                            }
                        }
                    }
                    lemma_entries_map(after);
                    assert forall|k: Seq<char>| has_key(after, k) <==> (has_key(before, k) || k
                        == key@) by {
                        if has_key(after, k) {
                            let j = choose|j: int|
                                0 <= j < after.len() && (#[trigger] after[j]).0@ == k;
                            if j < last {
                                assert(before[j].0@ == k);
                            }
                        }
                        if has_key(before, k) {
                            let j = choose|j: int|
                                0 <= j < before.len() && (#[trigger] before[j]).0@ == k;
                            assert(after[j].0@ == k);
                        }
                    }
                    assert forall|k: Seq<char>| #[trigger]
                        entries_map(after).contains_key(k) implies entries_map(after)[k]
                        == entries_map(before).insert(key@, value@)[k] by {
                        let j = choose|j: int|
                            0 <= j < after.len() && (#[trigger] after[j]).0@ == k;
                        assert(entries_map(after)[after[j].0@] == after[j].1@);
                        if j < last {
                            assert(before[j].0@ == k);
                            assert(entries_map(before)[before[j].0@] == before[j].1@);
                        }
                    }
                    assert(entries_map(after) =~= entries_map(before).insert(key@, value@));
                }
            },
        }
        self.entries = entries;
    }

    /// Takes over every entry of `other`; where both hold a key, the value of
    /// `other` stays.
    pub fn extend(&mut self, other: &Context)
        ensures
            final(self)@ == old(self)@.union_prefer_right(other@),
    {
        proof {
            use_type_invariant(other);
            lemma_entries_map(other.entries@);
        }
        let ghost start = self@;
        let mut i: usize = 0;
        while i < other.entries.len()
            invariant
                i <= other.entries@.len(),
                keys_distinct(other.entries@),
                forall|k: Seq<char>| #[trigger]
                    self@.contains_key(k) <==> (start.contains_key(k) || exists|j: int|
                        0 <= j < i && (#[trigger] other.entries@[j]).0@ == k),
                forall|j: int|
                    0 <= j < i ==> self@[(#[trigger] other.entries@[j]).0@]
                        == other.entries@[j].1@,
                forall|k: Seq<char>| #[trigger]
                    start.contains_key(k) && !(exists|j: int|
                        0 <= j < i && (#[trigger] other.entries@[j]).0@ == k) ==> self@[k]
                        == start[k],
            decreases other.entries@.len() - i,
        {
            let ghost before = self@;
            self.insert(other.entries[i].0.clone(), other.entries[i].1.clone());
            proof {
                let added = other.entries@[i as int].0@;
                assert forall|j: int| 0 <= j < i + 1 implies self@[(
                #[trigger] other.entries@[j]).0@] == other.entries@[j].1@ by {
                    if j < i {
                        assert(other.entries@[j].0@ != added);
                    }
                }
            }
            i += 1;
        }
        proof {
            lemma_entries_map(other.entries@);
            let joined = start.union_prefer_right(other@);
            assert forall|k: Seq<char>| self@.contains_key(k) <==> joined.contains_key(k) by {
                if other@.contains_key(k) {
                    let j = choose|j: int|
                        0 <= j < other.entries@.len() && (#[trigger] other.entries@[j]).0@ == k;
                    assert(0 <= j < i && other.entries@[j].0@ == k);
                }
            }
            assert forall|k: Seq<char>| #[trigger] self@.contains_key(k) implies self@[k]
                == joined[k] by {
                if other@.contains_key(k) {
                    let j = choose|j: int|
                        0 <= j < other.entries@.len() && (#[trigger] other.entries@[j]).0@ == k;
                    assert(self@[other.entries@[j].0@] == other.entries@[j].1@);
                    assert(other@[other.entries@[j].0@] == other.entries@[j].1@);
                } else {
                    assert(!has_key(other.entries@, k));
                }
            }
            assert(self@ =~= joined);
        }
    }

    /// The entries, in the order in which their keys were first inserted.
    pub fn entries(&self) -> (r: &Vec<(Key, Key)>)
        ensures
            keys_distinct(r@),
            self@ == entries_map(r@),
    {
        proof {
            use_type_invariant(self);
        }
        &self.entries
    }
}

/// The keys of a list without repeated keys are as many as its entries.
proof fn lemma_domain_size(entries: Seq<(Key, Key)>)
    requires
        keys_distinct(entries),
    ensures
        entries_map(entries).dom().finite(),
        entries_map(entries).dom().len() == entries.len(),
    decreases entries.len(),
{
    let dom = entries_map(entries).dom();
    if entries.len() == 0 {
        assert(dom =~= Set::<Seq<char>>::empty());
    } else {
        let rest = entries.drop_last();
        let last = entries.last();
        assert forall|i: int, j: int|
            0 <= i < rest.len() && 0 <= j < rest.len() && i != j implies (#[trigger] rest[i]).0@
            != (#[trigger] rest[j]).0@ by {
            assert(entries[i].0@ != entries[j].0@);
        }
        lemma_domain_size(rest);
        let rest_dom = entries_map(rest).dom();
        assert(!rest_dom.contains(last.0@)) by {
            if has_key(rest, last.0@) {
                let j = choose|j: int| 0 <= j < rest.len() && (#[trigger] rest[j]).0@ == last.0@;
                assert(entries[j].0@ == entries[entries.len() - 1].0@);
            }
        }
        assert(dom =~= rest_dom.insert(last.0@)) by {
            assert forall|k: Seq<char>| dom.contains(k) <==> rest_dom.insert(last.0@).contains(
                k,
            ) by {
                if has_key(entries, k) {
                    let j = choose|j: int|
                        0 <= j < entries.len() && (#[trigger] entries[j]).0@ == k;
                    if j < rest.len() {
                        assert(rest[j].0@ == k);
                    }
                }
                if has_key(rest, k) {
                    let j = choose|j: int| 0 <= j < rest.len() && (#[trigger] rest[j]).0@ == k;
                    assert(entries[j].0@ == k);
                }
                if k == last.0@ {
                    assert(entries[entries.len() - 1].0@ == k);
                }
            }
        }
    }
}

} // verus!
