//! Cache keys: an endpoint's path and a name, written as one string.
//!
//! A key is written as the path, a colon, and the name. It can be read back
//! when it holds exactly one colon, and reading gives back what was written
//! when neither part holds a colon.

use vstd::prelude::*;
use vstd::string::*;
use crate::text::{
    chars_of, count_char, first_index_of, lemma_count_char_concat, lemma_count_char_zero,
    lemma_first_index_of,
};

verus! {

/// The character that stands between the path and the name.
pub const KEY_SEPARATOR: char = ':';

/// The two parts of a cache key.
#[derive(Clone, Debug)]
pub struct CacheKey {
    /// The path of the endpoint that was asked.
    pub endpoint_path: String,
    /// The name that was asked for.
    pub name: String,
}

/// The key under which the answer for `name` at `path` is cached.
pub open spec fn encoded_key(path: Seq<char>, name: Seq<char>) -> Seq<char> {
    path + seq![KEY_SEPARATOR] + name
}

/// The path and the name that `key` was written from: what stands before
/// and after its separator, where it has exactly one.
pub open spec fn decoded_key(key: Seq<char>) -> Option<(Seq<char>, Seq<char>)> {
    if count_char(key, KEY_SEPARATOR) == 1 {
        let at = first_index_of(key, KEY_SEPARATOR);
        Some((key.take(at), key.skip(at + 1)))
    } else {
        None
    }
}

/// A written key holds one separator more than its parts together.
pub proof fn lemma_encoded_key_separators(path: Seq<char>, name: Seq<char>)
    ensures
        count_char(encoded_key(path, name), KEY_SEPARATOR) == count_char(path, KEY_SEPARATOR) + 1
            + count_char(name, KEY_SEPARATOR),
{
    let sep = seq![KEY_SEPARATOR];
    lemma_count_char_concat(path + sep, name, KEY_SEPARATOR);
    lemma_count_char_concat(path, sep, KEY_SEPARATOR);
    assert(sep.drop_last() =~= Seq::<char>::empty());
    assert(count_char(sep.drop_last(), KEY_SEPARATOR) == 0);
    assert(count_char(sep, KEY_SEPARATOR) == 1);
}

/// Reading a written key gives back its parts, where neither part holds
/// the separator.
pub proof fn lemma_decode_encoded(path: Seq<char>, name: Seq<char>)
    requires
        !path.contains(KEY_SEPARATOR),
        !name.contains(KEY_SEPARATOR),
    ensures
        decoded_key(encoded_key(path, name)) == Some((path, name)),
{
    let key = encoded_key(path, name);
    lemma_encoded_key_separators(path, name);
    lemma_count_char_zero(path, KEY_SEPARATOR);
    lemma_count_char_zero(name, KEY_SEPARATOR);
    lemma_first_index_of(key, KEY_SEPARATOR);
    let at = first_index_of(key, KEY_SEPARATOR);
    assert(key[path.len() as int] == KEY_SEPARATOR);
    assert(at == path.len()) by {
        if at < path.len() {
            assert(key[at] == path[at]);
            assert(path.contains(KEY_SEPARATOR));
        }
    }
    assert(key.take(at) =~= path);
    assert(key.skip(at + 1) =~= name);
}

/// Writing the parts that were read from a key gives the key again, and
/// neither part holds the separator.
pub proof fn lemma_encode_decoded(key: Seq<char>, path: Seq<char>, name: Seq<char>)
    requires
        decoded_key(key) == Some((path, name)),
    ensures
        encoded_key(path, name) == key,
        !path.contains(KEY_SEPARATOR),
        !name.contains(KEY_SEPARATOR),
{
    lemma_first_index_of(key, KEY_SEPARATOR);
    lemma_count_char_zero(key, KEY_SEPARATOR);
    let at = first_index_of(key, KEY_SEPARATOR);
    assert(at < key.len());
    assert(encoded_key(path, name) =~= key);
    lemma_encoded_key_separators(path, name);
    lemma_count_char_zero(path, KEY_SEPARATOR);
    lemma_count_char_zero(name, KEY_SEPARATOR);
}

/// Two pairs of parts without a separator in them are written as the same
/// key only when they are the same pair.
pub proof fn lemma_encoded_key_injective(
    path_a: Seq<char>,
    name_a: Seq<char>,
    path_b: Seq<char>,
    name_b: Seq<char>,
)
    requires
        !path_a.contains(KEY_SEPARATOR),
        !name_a.contains(KEY_SEPARATOR),
        !path_b.contains(KEY_SEPARATOR),
        !name_b.contains(KEY_SEPARATOR),
        encoded_key(path_a, name_a) == encoded_key(path_b, name_b),
    ensures
        path_a == path_b,
        name_a == name_b,
{
    lemma_decode_encoded(path_a, name_a);
    lemma_decode_encoded(path_b, name_b);
}

impl CacheKey {
    /// The key written as one string.
    pub fn encode(&self) -> (key: String)
        ensures
            key@ == encoded_key(self.endpoint_path@, self.name@),
    {
        encode_key(self.endpoint_path.as_str(), self.name.as_str())
    }

    /// Reads a key back into its parts. A string with no separator, or
    /// with more than one, is no key.
    pub fn decode(key: &str) -> (parts: Option<CacheKey>)
        ensures
            match parts {
                Some(k) => decoded_key(key@) == Some((k.endpoint_path@, k.name@)),
                None => decoded_key(key@) is None,
            },
    {
        let chars = chars_of(key);
        let n = chars.len();
        let mut separators: usize = 0;
        let mut first: usize = n;
        let mut i: usize = 0;
        while i < n
            invariant
                chars@ == key@,
                n == chars.len(),
                i <= n,
                separators <= i,
                separators == count_char(chars@.take(i as int), KEY_SEPARATOR),
                separators == 0 ==> first == n,
                separators > 0 ==> first < i && chars[first as int] == KEY_SEPARATOR,
                forall|j: int| 0 <= j < i && j < first ==> chars[j] != KEY_SEPARATOR,
            decreases n - i,
        {
            proof {
                assert(chars@.take(i + 1).drop_last() =~= chars@.take(i as int));
            }
            if chars[i] == KEY_SEPARATOR {
                if separators == 0 {
                    first = i;
                }
                separators += 1;
            }
            i += 1;
        }
        proof {
            assert(chars@.take(n as int) =~= chars@);
            lemma_first_index_of(chars@, KEY_SEPARATOR);
        }
        if separators != 1 {
            return None;
        }
        let endpoint_path = String::from_str(key.substring_char(0, first));
        let name = String::from_str(key.substring_char(first + 1, n));
        proof {
            assert(key@.subrange(0, first as int) =~= key@.take(first as int));
            assert(key@.subrange(first + 1, n as int) =~= key@.skip(first + 1));
        }
        Some(CacheKey { endpoint_path, name })
    }
}

/// The key under which the answer for `name` at `path` is cached.
pub fn encode_key(path: &str, name: &str) -> (key: String)
    ensures
        key@ == encoded_key(path@, name@),
{
    let mut key = String::from_str(path);
    key.append(":");
    key.append(name);
    proof {
        reveal_strlit(":");
        assert(":"@ =~= seq![KEY_SEPARATOR]);
    }
    key
}

} // verus!
