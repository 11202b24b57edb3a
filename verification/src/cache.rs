//! The cache: for each key the list of values last found for it.
//!
//! An entry, once written, stays until it is overwritten as a whole. An
//! empty list is an answer like any other.

use vstd::prelude::*;
use crate::text::{copy_texts, same_text, texts};

verus! {

/// Number of entries above which the cache counts as large.
pub const ADVISORY_SIZE: usize = 100;

struct CacheEntry {
    key: String,
    values: Vec<String>,
}

/// The cache, as a map from keys to lists of values.
pub struct Cache {
    entries: Vec<CacheEntry>,
}

spec fn entry_keys(es: Seq<CacheEntry>) -> Seq<Seq<char>> {
    es.map_values(|e: CacheEntry| e.key@)
}

spec fn slot_of(es: Seq<CacheEntry>, key: Seq<char>) -> int {
    choose|i: int| 0 <= i < es.len() && (#[trigger] es[i]).key@ == key
}

spec fn entries_map(es: Seq<CacheEntry>) -> Map<Seq<char>, Seq<Seq<char>>> {
    Map::new(
        |key: Seq<char>| entry_keys(es).contains(key),
        |key: Seq<char>| texts(es[slot_of(es, key)].values@),
    )
}

proof fn lemma_slot(es: Seq<CacheEntry>, i: int)
    requires
        entry_keys(es).no_duplicates(),
        0 <= i < es.len(),
    ensures
        entry_keys(es).contains(es[i].key@),
        slot_of(es, es[i].key@) == i,
{
    let keys = entry_keys(es);
    assert(keys[i] == es[i].key@);
    let j = slot_of(es, es[i].key@);
    assert(0 <= j < es.len() && es[j].key@ == es[i].key@);
    assert(keys[j] == es[j].key@);
}

proof fn lemma_absent(es: Seq<CacheEntry>, key: Seq<char>)
    requires
        forall|i: int| 0 <= i < es.len() ==> (#[trigger] es[i]).key@ != key,
    ensures
        !entry_keys(es).contains(key),
{
    let keys = entry_keys(es);
    if keys.contains(key) {
        let i = choose|i: int| 0 <= i < keys.len() && keys[i] == key;
        assert(es[i].key@ == key);
    }
}

proof fn lemma_replaced(es: Seq<CacheEntry>, i: int, entry: CacheEntry)
    requires
        entry_keys(es).no_duplicates(),
        0 <= i < es.len(),
        entry.key@ == es[i].key@,
    ensures
        entry_keys(es.update(i, entry)) == entry_keys(es),
        entries_map(es.update(i, entry)) == entries_map(es).insert(entry.key@, texts(entry.values@)),
{
    let after = es.update(i, entry);
    assert(entry_keys(after) =~= entry_keys(es));
    assert forall|key: Seq<char>| entry_keys(es).contains(key) implies #[trigger] entries_map(
        after,
    )[key] == entries_map(es).insert(entry.key@, texts(entry.values@))[key] by {
        let keys = entry_keys(es);
        let j = choose|j: int| 0 <= j < es.len() && keys[j] == key;
        assert(es[j].key@ == key);
        assert(keys[i] == es[i].key@);
        lemma_slot(es, j);
        assert(after[j].key@ == key);
        assert(entry_keys(after).contains(key));
        lemma_slot(after, j);
        if j != i {
            assert(keys[j] != keys[i]);
            assert(after[j] == es[j]);
        }
    }
    assert(entry_keys(es).contains(entry.key@)) by {
        assert(entry_keys(es)[i] == entry.key@);
    }
    assert(entries_map(after).dom() =~= entries_map(es).insert(
        entry.key@,
        texts(entry.values@),
    ).dom());
    assert(entries_map(after) =~= entries_map(es).insert(entry.key@, texts(entry.values@)));
}

proof fn lemma_pushed(es: Seq<CacheEntry>, entry: CacheEntry)
    requires
        entry_keys(es).no_duplicates(),
        !entry_keys(es).contains(entry.key@),
    ensures
        entry_keys(es.push(entry)).no_duplicates(),
        entries_map(es.push(entry)) == entries_map(es).insert(entry.key@, texts(entry.values@)),
{
    let after = es.push(entry);
    assert(entry_keys(after) =~= entry_keys(es).push(entry.key@));
    assert(entry_keys(after)[es.len() as int] == entry.key@);
    assert forall|key: Seq<char>| entry_keys(after).contains(key) implies #[trigger] entries_map(
        after,
    )[key] == entries_map(es).insert(entry.key@, texts(entry.values@))[key] by {
        let j = choose|j: int| 0 <= j < after.len() && entry_keys(after)[j] == key;
        assert(after[j].key@ == key);
        lemma_slot(after, j);
        if j < es.len() {
            assert(es[j].key@ == key);
            lemma_slot(es, j);
        }
    }
    assert forall|key: Seq<char>|
        entry_keys(after).contains(key) == (entry_keys(es).contains(key) || key
            == entry.key@) by {
        if entry_keys(es).contains(key) {
            let j = choose|j: int| 0 <= j < es.len() && entry_keys(es)[j] == key;
            assert(entry_keys(after)[j] == key);
        }
    }
    assert(entries_map(after) =~= entries_map(es).insert(entry.key@, texts(entry.values@)));
}

impl View for Cache {
    type V = Map<Seq<char>, Seq<Seq<char>>>;

    closed spec fn view(&self) -> Map<Seq<char>, Seq<Seq<char>>> {
        entries_map(self.entries@)
    }
}

impl Cache {
    #[verifier::type_invariant]
    spec fn no_key_twice(self) -> bool {
        entry_keys(self.entries@).no_duplicates()
    }

    /// A cache without entries: nothing is cached under any key, and a
    /// refresh cycle over it has no key to go through.
    pub fn new() -> (cache: Cache)
        ensures
            cache@ == Map::<Seq<char>, Seq<Seq<char>>>::empty(),
            cache.key_order() == Seq::<Seq<char>>::empty(),
    {
        let cache = Cache { entries: Vec::new() };
        assert(cache@ =~= Map::<Seq<char>, Seq<Seq<char>>>::empty());
        assert(cache.key_order() =~= Seq::<Seq<char>>::empty());
        cache
    }

    /// A cache never holds more than finitely many keys.
    pub proof fn lemma_finite(&self)
        ensures
            self@.dom().finite(),
    {
        let keys = entry_keys(self.entries@);
        vstd::seq_lib::seq_to_set_is_finite(keys);
        assert(self@.dom() =~= keys.to_set());
    }

    /// A copy of what is cached under `key`, if anything is.
    pub fn get(&self, key: &str) -> (found: Option<Vec<String>>)
        ensures
            match found {
                Some(values) => self@.contains_key(key@) && texts(values@) == self@[key@],
                None => !self@.contains_key(key@),
            },
    {
        proof {
            use_type_invariant(self);
        }
        let mut i: usize = 0;
        while i < self.entries.len()
            invariant
                i <= self.entries.len(),
                entry_keys(self.entries@).no_duplicates(),
                forall|j: int| 0 <= j < i ==> (#[trigger] self.entries[j]).key@ != key@,
            decreases self.entries.len() - i,
        {
            if same_text(self.entries[i].key.as_str(), key) {
                proof {
                    lemma_slot(self.entries@, i as int);
                }
                return Some(copy_texts(&self.entries[i].values));
            }
            i += 1;
        }
        proof {
            lemma_absent(self.entries@, key@);
        }
        None
    }

    /// Writes `values` under `key`, in place of whatever was there.
    pub fn put(&mut self, key: String, values: Vec<String>)
        ensures
            final(self)@ == old(self)@.insert(key@, texts(values@)),
    {
        proof {
            use_type_invariant(&*self);
        }
        let mut entries: Vec<CacheEntry> = Vec::new();
        std::mem::swap(&mut entries, &mut self.entries);
        let ghost before = entries@;
        let mut i: usize = 0;
        while i < entries.len()
            invariant
                i <= entries.len(),
                entries@ == before,
                entry_keys(before).no_duplicates(),
                self.entries@.len() == 0,
                old(self)@ == entries_map(before),
                forall|j: int| 0 <= j < i ==> (#[trigger] entries[j]).key@ != key@,
            decreases entries.len() - i,
        {
            if same_text(entries[i].key.as_str(), key.as_str()) {
                let entry = CacheEntry { key, values };
                proof {
                    lemma_replaced(before, i as int, entry);
                }
                entries.set(i, entry);
                self.entries = entries;
                return ;
            }
            i += 1;
        }
        let entry = CacheEntry { key, values };
        proof {
            lemma_absent(before, key@);
            lemma_pushed(before, entry);
        }
        entries.push(entry);
        self.entries = entries;
    }

    /// Number of keys in the cache.
    pub fn len(&self) -> (n: usize)
        ensures
            n == self@.dom().len(),
            self@.dom().finite(),
    {
        proof {
            use_type_invariant(self);
            let keys = entry_keys(self.entries@);
            keys.unique_seq_to_set();
            vstd::seq_lib::seq_to_set_is_finite(keys);
            assert(self@.dom() =~= keys.to_set());
        }
        self.entries.len()
    }

    /// Whether the cache holds more entries than `ADVISORY_SIZE`. Such a
    /// cache still takes every write.
    pub fn is_large(&self) -> (large: bool)
        ensures
            large == (self@.dom().len() > ADVISORY_SIZE),
    {
        self.len() > ADVISORY_SIZE
    }

    /// The keys of the cache in the order in which it holds them: each
    /// key once.
    pub closed spec fn key_order(&self) -> Seq<Seq<char>> {
        entry_keys(self.entries@)
    }

    /// The keys that the cache holds at this moment, each once.
    pub fn keys(&self) -> (keys: Vec<String>)
        ensures
            texts(keys@) == self.key_order(),
            texts(keys@).no_duplicates(),
            texts(keys@).to_set() == self@.dom(),
    {
        proof {
            use_type_invariant(self);
        }
        let mut keys: Vec<String> = Vec::new();
        let mut i: usize = 0;
        while i < self.entries.len()
            invariant
                i <= self.entries.len(),
                keys.len() == i,
                forall|j: int| 0 <= j < i ==> (#[trigger] keys[j])@ == self.entries[j].key@,
            decreases self.entries.len() - i,
        {
            keys.push(self.entries[i].key.clone());
            i += 1;
        }
        proof {
            assert(texts(keys@) =~= entry_keys(self.entries@));
            assert(self@.dom() =~= entry_keys(self.entries@).to_set());
        }
        keys
    }
}

/// What was written under a key is what is read under it next: the same
/// values in the same order.
pub proof fn lemma_put_then_get(
    cache: Map<Seq<char>, Seq<Seq<char>>>,
    key: Seq<char>,
    values: Seq<Seq<char>>,
)
    ensures
        cache.insert(key, values).contains_key(key),
        cache.insert(key, values)[key] == values,
{
}

/// A write under one key changes nothing under another.
pub proof fn lemma_put_leaves_others(
    cache: Map<Seq<char>, Seq<Seq<char>>>,
    key: Seq<char>,
    values: Seq<Seq<char>>,
    other: Seq<char>,
)
    requires
        other != key,
    ensures
        cache.insert(key, values).contains_key(other) == cache.contains_key(other),
        cache.contains_key(other) ==> cache.insert(key, values)[other] == cache[other],
{
}

} // verus!
