//! What a directory search brings back, and the values read from it.

use vstd::prelude::*;
use crate::text::{append_texts, same_text, texts};

verus! {

/// One attribute of an entry, with its values in the order the directory
/// gave them.
#[derive(Clone, Debug)]
pub struct Attribute {
    pub name: String,
    pub values: Vec<String>,
}

/// One entry that a search matched.
#[derive(Clone, Debug)]
pub struct DirectoryEntry {
    /// The entry's distinguished name.
    pub dn: String,
    /// The attributes that came with it.
    pub attributes: Vec<Attribute>,
}

/// How many entries a search matched, as far as it matters: the daemon
/// expects one.
#[derive(Clone, Copy, Debug, PartialEq, Eq, Structural)]
pub enum MatchCount {
    /// No entry: the answer is empty, and that is an answer.
    Zero,
    /// The one entry that was expected.
    One,
    /// Several entries: their values are taken together.
    Many,
}

/// The values of the first of `attributes` that is named `name`; none
/// where no attribute has that name.
pub open spec fn values_named(attributes: Seq<Attribute>, name: Seq<char>) -> Seq<Seq<char>>
    decreases attributes.len(),
{
    if attributes.len() == 0 {
        Seq::empty()
    } else if attributes[0].name@ == name {
        texts(attributes[0].values@)
    } else {
        values_named(attributes.drop_first(), name)
    }
}

/// The values of the attribute `name` over all of `entries`, entry by
/// entry in the order the entries came.
pub open spec fn collected_values(entries: Seq<DirectoryEntry>, name: Seq<char>) -> Seq<Seq<char>>
    decreases entries.len(),
{
    if entries.len() == 0 {
        Seq::empty()
    } else {
        collected_values(entries.drop_last(), name) + values_named(
            entries.last().attributes@,
            name,
        )
    }
}

/// Says whether a search matched no entry, one, or several.
pub fn count_matches(entries: usize) -> (count: MatchCount)
    ensures
        count == if entries == 0 {
            MatchCount::Zero
        } else if entries == 1 {
            MatchCount::One
        } else {
            MatchCount::Many
        },
{
    if entries == 0 {
        MatchCount::Zero
    } else if entries == 1 {
        MatchCount::One
    } else {
        MatchCount::Many
    }
}

impl DirectoryEntry {
    /// Adds this entry's values of the attribute `name` to `values`.
    pub fn append_values(&self, name: &str, values: &mut Vec<String>)
        ensures
            texts(final(values)@) == texts(old(values)@) + values_named(self.attributes@, name@),
    {
        let mut i: usize = 0;
        assert(self.attributes@.skip(0) =~= self.attributes@);
        while i < self.attributes.len()
            invariant
                i <= self.attributes.len(),
                values@ == old(values)@,
                values_named(self.attributes@, name@) == values_named(
                    self.attributes@.skip(i as int),
                    name@,
                ),
            decreases self.attributes.len() - i,
        {
            let ghost rest = self.attributes@.skip(i as int);
            assert(rest[0] == self.attributes@[i as int]);
            assert(rest.drop_first() =~= self.attributes@.skip(i + 1));
            if same_text(self.attributes[i].name.as_str(), name) {
                append_texts(values, &self.attributes[i].values);
                return ;
            }
            i += 1;
        }
        assert(texts(values@) + Seq::<Seq<char>>::empty() =~= texts(values@));
    }
}

/// The values of the attribute `name` that a search brought back: those
/// of every matched entry, in the order of the entries. No entry gives
/// no value, which is an answer and no failure.
pub fn collect_values(entries: &Vec<DirectoryEntry>, name: &str) -> (values: Vec<String>)
    ensures
        texts(values@) == collected_values(entries@, name@),
{
    let mut values: Vec<String> = Vec::new();
    let mut i: usize = 0;
    assert(texts(values@) =~= collected_values(entries@.take(0), name@));
    while i < entries.len()
        invariant
            i <= entries.len(),
            texts(values@) == collected_values(entries@.take(i as int), name@),
        decreases entries.len() - i,
    {
        proof {
            let upto = entries@.take(i + 1);
            assert(upto.drop_last() =~= entries@.take(i as int));
            assert(upto.last() == entries@[i as int]);
        }
        entries[i].append_values(name, &mut values);
        i += 1;
    }
    assert(entries@.take(entries.len() as int) =~= entries@);
    values
}

} // verus!
