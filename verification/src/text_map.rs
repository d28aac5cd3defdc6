//! A small map keyed by text, where a later insertion of a key replaces the
//! value of an earlier one.

use vstd::prelude::*;

use crate::text::str_eq;

verus! {

/// The map that a list of insertions builds, taken in order: each entry maps
/// its key's characters to its value's view, replacing what an earlier entry
/// with the same key put there.
pub open spec fn entries_map<V: View>(es: Seq<(String, V)>) -> Map<Seq<char>, V::V>
    decreases es.len(),
{
    if es.len() == 0 {
        Map::empty()
    } else {
        entries_map(es.drop_last()).insert(es.last().0@, es.last().1@)
    }
}

/// A key that no entry holds is absent from the map.
pub proof fn lemma_entries_map_absent<V: View>(es: Seq<(String, V)>, k: Seq<char>)
    requires
        forall|j: int| 0 <= j < es.len() ==> (#[trigger] es[j]).0@ != k,
    ensures
        !entries_map(es).contains_key(k),
    decreases es.len(),
{
    if es.len() > 0 {
        lemma_entries_map_absent(es.drop_last(), k);
    }
}

/// The map sends a key to the value of the last entry that holds it.
pub proof fn lemma_entries_map_last<V: View>(es: Seq<(String, V)>, k: Seq<char>, i: int)
    requires
        0 <= i < es.len(),
        es[i].0@ == k,
        forall|j: int| i < j < es.len() ==> (#[trigger] es[j]).0@ != k,
    ensures
        entries_map(es).contains_key(k),
        entries_map(es)[k] == es[i].1@,
    decreases es.len(),
{
    if i < es.len() - 1 {
        lemma_entries_map_last(es.drop_last(), k, i);
    }
}

/// No key occurs twice among the entries.
pub open spec fn distinct_keys<V>(es: Seq<(String, V)>) -> bool {
    forall|i: int, j: int| 0 <= i < j < es.len() ==> (#[trigger] es[i]).0@ != (#[trigger] es[j]).0@
}

proof fn lemma_entries_map_update<V: View>(es: Seq<(String, V)>, i: int, key: String, value: V)
    requires
        distinct_keys(es),
        0 <= i < es.len(),
        es[i].0@ == key@,
    ensures
        entries_map(es.update(i, (key, value))) =~= entries_map(es).insert(key@, value@),
    decreases es.len(),
{
    let last = es.len() - 1;
    let up = es.update(i, (key, value));
    if i == last {
        assert(up.drop_last() =~= es.drop_last());
        assert(up.last() == (key, value));
    } else {
        assert(up.drop_last() =~= es.drop_last().update(i, (key, value)));
        assert(distinct_keys(es.drop_last())) by {
            assert forall|a: int, b: int| 0 <= a < b < es.drop_last().len() implies (
            #[trigger] es.drop_last()[a]).0@ != (#[trigger] es.drop_last()[b]).0@ by {
                assert(es.drop_last()[a] == es[a]);
                assert(es.drop_last()[b] == es[b]);
            }
        }
        assert(es.drop_last()[i] == es[i]);
        lemma_entries_map_update(es.drop_last(), i, key, value);
        assert(up.last() == es.last());
        assert(es[i].0@ != es[last].0@);
    }
}

proof fn lemma_entries_map_len<V: View>(es: Seq<(String, V)>)
    requires
        distinct_keys(es),
    ensures
        entries_map(es).dom().finite(),
        entries_map(es).len() == es.len(),
    decreases es.len(),
{
    if es.len() > 0 {
        let init = es.drop_last();
        assert(distinct_keys(init)) by {
            assert forall|a: int, b: int| 0 <= a < b < init.len() implies (#[trigger] init[a]).0@
                != (#[trigger] init[b]).0@ by {
                assert(init[a] == es[a]);
                assert(init[b] == es[b]);
            }
        }
        lemma_entries_map_len(init);
        assert forall|j: int| 0 <= j < init.len() implies (#[trigger] init[j]).0@ != es.last().0@ by {
            assert(init[j] == es[j]);
        }
        lemma_entries_map_absent(init, es.last().0@);
    } else {
        assert(entries_map(es).dom() =~= Set::<Seq<char>>::empty());
    }
}

/// A map from text keys to values; inserting a key again replaces its value.
pub struct TextMap<V> {
    entries: Vec<(String, V)>,
}

impl<V: View> View for TextMap<V> {
    type V = Map<Seq<char>, V::V>;

    closed spec fn view(&self) -> Map<Seq<char>, V::V> {
        entries_map(self.entries@)
    }
}

impl<V> TextMap<V> {
    /// Each key is held by one entry only.
    #[verifier::type_invariant]
    spec fn keys_distinct(self) -> bool {
        distinct_keys(self.entries@)
    }
}

impl<V: View> TextMap<V> {
    /// An empty map.
    pub fn new() -> (m: Self)
        ensures
            m@ == Map::<Seq<char>, V::V>::empty(),
    {
        TextMap { entries: Vec::new() }
    }

    /// The index of the entry that holds `key`, if any.
    fn position(&self, key: &str) -> (r: Option<usize>)
        ensures
            match r {
                Some(i) => i < self.entries@.len() && self.entries@[i as int].0@ == key@,
                None => forall|j: int| 0 <= j < self.entries@.len() ==> (#[trigger] self.entries@[j]).0@ != key@,
            },
    {
        let mut i: usize = self.entries.len();
        while i > 0
            invariant
                i <= self.entries@.len(),
                forall|j: int| i <= j < self.entries@.len() ==> (#[trigger] self.entries@[j]).0@ != key@,
            decreases i,
        {
            if str_eq(self.entries[i - 1].0.as_str(), key) {
                return Some(i - 1);
            }
            i = i - 1;
        }
        None
    }

    /// Maps `key` to `value`, replacing any earlier value of `key`.
    pub fn insert(&mut self, key: String, value: V)
        ensures
            final(self)@ == old(self)@.insert(key@, value@),
    {
        proof {
            use_type_invariant(&*self);
        }
        let pos = self.position(key.as_str());
        let mut es: Vec<(String, V)> = Vec::new();
        std::mem::swap(&mut es, &mut self.entries);
        let ghost old_es = es@;
        match pos {
            Some(i) => {
                proof {
                    lemma_entries_map_update(old_es, i as int, key, value);
                }
                let ghost k = key;
                es.set(i, (key, value));
                assert(es@ =~= old_es.update(i as int, (k, value)));
                assert(distinct_keys(es@)) by {
                    assert forall|a: int, b: int| 0 <= a < b < es@.len() implies (#[trigger] es@[a]).0@
                        != (#[trigger] es@[b]).0@ by {
                        assert(es@[a].0@ == old_es[a].0@);
                        assert(es@[b].0@ == old_es[b].0@);
                    }
                }
            },
            None => {
                es.push((key, value));
                assert(es@.drop_last() =~= old_es);
                assert(distinct_keys(es@)) by {
                    assert forall|a: int, b: int| 0 <= a < b < es@.len() implies (#[trigger] es@[a]).0@
                        != (#[trigger] es@[b]).0@ by {
                        assert(es@[a] == old_es[a]);
                        if b < old_es.len() {
                            assert(es@[b] == old_es[b]);
                        }
                    }
                }
            },
        }
        self.entries = es;
    }

    /// The value that `key` maps to, if any.
    pub fn get(&self, key: &str) -> (r: Option<&V>)
        ensures
            match r {
                Some(v) => self@.contains_key(key@) && self@[key@] == v@,
                None => !self@.contains_key(key@),
            },
            got(r) == self.lookup(key@),
    {
        match self.position(key) {
            Some(i) => {
                proof {
                    use_type_invariant(self);
                    assert forall|j: int| i < j < self.entries@.len() implies (
                    #[trigger] self.entries@[j]).0@ != key@ by {
                        assert(self.entries@[i as int].0@ != self.entries@[j].0@);
                    }
                    lemma_entries_map_last(self.entries@, key@, i as int);
                }
                Some(&self.entries[i].1)
            },
            None => {
                proof {
                    lemma_entries_map_absent(self.entries@, key@);
                }
                None
            },
        }
    }

    /// Whether `key` is mapped.
    pub fn contains_key(&self, key: &str) -> (r: bool)
        ensures
            r == self@.contains_key(key@),
    {
        self.get(key).is_some()
    }

    /// The number of keys mapped.
    pub fn len(&self) -> (r: usize)
        ensures
            r == self@.len(),
    {
        proof {
            use_type_invariant(self);
            lemma_entries_map_len(self.entries@);
        }
        self.entries.len()
    }

    /// Whether no key is mapped.
    pub fn is_empty(&self) -> (r: bool)
        ensures
            r == (self@.len() == 0),
    {
        self.len() == 0
    }

    /// The (key, value) entries, each key once.
    pub fn entries(&self) -> (r: &[(String, V)])
        ensures
            distinct_keys(r@),
            entries_map(r@) == self@,
            r@.len() == self@.len(),
    {
        proof {
            use_type_invariant(self);
            lemma_entries_map_len(self.entries@);
        }
        self.entries.as_slice()
    }
}

impl<V: View> TextMap<V> {
    /// The value that `key` maps to, as `get` gives it (by its view).
    pub open spec fn lookup(&self, key: Seq<char>) -> Option<V::V> {
        if self@.contains_key(key) {
            Some(self@[key])
        } else {
            None
        }
    }
}

/// What `get` gives from a map, by its view: `None` or the value of the key.
pub open spec fn got<V: View>(r: Option<&V>) -> Option<V::V> {
    match r {
        Some(v) => Some(v@),
        None => None,
    }
}

/// After `insert(key, value)` turns `before` into `after`, looking up `key`
/// gives `value`, and looking up any other key gives what it gave before.
pub proof fn law_insert_then_lookup<V: View>(
    before: TextMap<V>,
    after: TextMap<V>,
    key: Seq<char>,
    value: V,
    other: Seq<char>,
)
    requires
        after@ == before@.insert(key, value@),
    ensures
        after.lookup(key) == Some(value@),
        other != key ==> after.lookup(other) == before.lookup(other),
{
}

} // verus!
