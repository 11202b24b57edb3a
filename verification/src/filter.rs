//! Search filters built from a template and a name.
//!
//! A template marks with the two characters `{}` the place where the name
//! that a caller asks for is written.

use vstd::prelude::*;
use vstd::string::*;
use crate::text::chars_of;

verus! {

/// Whether the placeholder `{}` stands at position `i` of `t`.
pub open spec fn placeholder_at(t: Seq<char>, i: int) -> bool {
    0 <= i && i + 1 < t.len() && t[i] == '{' && t[i + 1] == '}'
}

/// Number of placeholders of `t` that start before position `k`.
pub open spec fn placeholders_before(t: Seq<char>, k: int) -> nat
    decreases k,
{
    if k <= 0 {
        0
    } else {
        placeholders_before(t, k - 1) + if placeholder_at(t, k - 1) {
            1nat
        } else {
            0nat
        }
    }
}

/// Number of placeholders in `t`.
pub open spec fn placeholder_count(t: Seq<char>) -> nat {
    placeholders_before(t, t.len() as int)
}

/// Position of the first placeholder of `t`, or the length of `t` if it has none.
pub open spec fn first_placeholder(t: Seq<char>) -> int
    decreases t.len(),
{
    if t.len() == 0 {
        0
    } else if placeholder_at(t, 0) {
        0
    } else {
        1 + first_placeholder(t.skip(1))
    }
}

/// `t` with each placeholder, taken from the left, replaced by `name`.
pub open spec fn substitute(t: Seq<char>, name: Seq<char>) -> Seq<char>
    decreases t.len(),
{
    if t.len() == 0 {
        t
    } else if placeholder_at(t, 0) {
        name + substitute(t.skip(2), name)
    } else {
        seq![t[0]] + substitute(t.skip(1), name)
    }
}

/// Where the first placeholder is: nothing before it is one, and it is one
/// unless it is the length of `t`.
pub proof fn lemma_first_placeholder(t: Seq<char>)
    ensures
        0 <= first_placeholder(t) <= t.len(),
        forall|j: int| 0 <= j < first_placeholder(t) ==> !placeholder_at(t, j),
        first_placeholder(t) < t.len() ==> placeholder_at(t, first_placeholder(t)),
    decreases t.len(),
{
    if t.len() == 0 {
    } else if placeholder_at(t, 0) {
    } else {
        let rest = t.skip(1);
        lemma_first_placeholder(rest);
        let k = first_placeholder(rest);
        assert forall|j: int| 0 <= j < 1 + k implies !placeholder_at(t, j) by {
            if j > 0 {
                assert(placeholder_at(rest, j - 1) == placeholder_at(t, j));
            }
        }
        if k < rest.len() {
            assert(placeholder_at(rest, k) == placeholder_at(t, k + 1));
        }
    }
}

/// A stretch without placeholders counts none.
pub proof fn lemma_count_none(t: Seq<char>, k: int)
    requires
        forall|j: int| 0 <= j < k ==> !placeholder_at(t, j),
    ensures
        placeholders_before(t, k) == 0,
    decreases k,
{
    if k > 0 {
        lemma_count_none(t, k - 1);
    }
}

/// The count grows with the position, and by one past each placeholder.
pub proof fn lemma_count_grows(t: Seq<char>, q: int, k: int)
    requires
        q <= k,
    ensures
        placeholders_before(t, q) <= placeholders_before(t, k),
        q < k && placeholder_at(t, q) ==> placeholders_before(t, q) + 1 <= placeholders_before(
            t,
            k,
        ),
    decreases k - q,
{
    if q < k {
        lemma_count_grows(t, q, k - 1);
    }
}

/// A template with exactly one placeholder has it at `first_placeholder`
/// and nowhere else.
pub proof fn lemma_single_placeholder(t: Seq<char>)
    requires
        placeholder_count(t) == 1,
    ensures
        placeholder_at(t, first_placeholder(t)),
        forall|j: int| placeholder_at(t, j) ==> j == first_placeholder(t),
{
    lemma_first_placeholder(t);
    let p = first_placeholder(t);
    if p >= t.len() {
        lemma_count_none(t, t.len() as int);
    }
    assert forall|j: int| placeholder_at(t, j) implies j == p by {
        if j != p {
            assert(p < j);
            lemma_count_grows(t, p, j);
            lemma_count_grows(t, j, t.len() as int);
        }
    }
}

/// Up to the first placeholder a template is copied as it stands.
pub proof fn lemma_substitute_plain(t: Seq<char>, name: Seq<char>, k: int)
    requires
        0 <= k <= t.len(),
        forall|j: int| 0 <= j < k ==> !placeholder_at(t, j),
    ensures
        substitute(t, name) == t.take(k) + substitute(t.skip(k), name),
    decreases k,
{
    if k == 0 {
        assert(t.skip(0) =~= t);
        assert(t.take(0) + substitute(t, name) =~= substitute(t, name));
    } else {
        let rest = t.skip(1);
        assert forall|j: int| 0 <= j < k - 1 implies !placeholder_at(rest, j) by {
            assert(placeholder_at(rest, j) == placeholder_at(t, j + 1));
        }
        lemma_substitute_plain(rest, name, k - 1);
        assert(rest.skip(k - 1) =~= t.skip(k));
        assert(seq![t[0]] + rest.take(k - 1) =~= t.take(k));
        assert(substitute(t, name) =~= t.take(k) + substitute(t.skip(k), name));
    }
}

/// A template without a placeholder is its own filter.
pub proof fn lemma_substitute_without_placeholder(t: Seq<char>, name: Seq<char>)
    requires
        placeholder_count(t) == 0,
    ensures
        substitute(t, name) == t,
{
    lemma_first_placeholder(t);
    let p = first_placeholder(t);
    if p < t.len() {
        lemma_count_grows(t, p, t.len() as int);
    }
    lemma_substitute_plain(t, name, t.len() as int);
    assert(t.skip(t.len() as int) =~= Seq::<char>::empty());
    assert(t.take(t.len() as int) + Seq::<char>::empty() =~= t);
}

/// With exactly one placeholder in the template, the filter is the template
/// with the name written in the placeholder's place: what stood before the
/// placeholder, the name, what stood after it. Only a placeholder that the
/// name itself brings can occur in the result.
pub proof fn lemma_substitute_once(t: Seq<char>, name: Seq<char>)
    requires
        placeholder_count(t) == 1,
    ensures
        substitute(t, name) == t.take(first_placeholder(t)) + name + t.skip(
            first_placeholder(t) + 2,
        ),
{
    lemma_single_placeholder(t);
    lemma_first_placeholder(t);
    let p = first_placeholder(t);
    lemma_substitute_plain(t, name, p);
    let from = t.skip(p);
    assert(placeholder_at(from, 0));
    let tail = from.skip(2);
    assert(tail =~= t.skip(p + 2));
    assert forall|j: int| 0 <= j < tail.len() implies !placeholder_at(tail, j) by {
        assert(placeholder_at(tail, j) == placeholder_at(t, j + p + 2));
    }
    lemma_substitute_plain(tail, name, tail.len() as int);
    assert(tail.skip(tail.len() as int) =~= Seq::<char>::empty());
    assert(substitute(tail, name) =~= tail);
    assert(substitute(t, name) =~= t.take(p) + name + t.skip(p + 2));
}

/// Number of placeholders in `template`.
pub fn count_placeholders(template: &str) -> (n: usize)
    ensures
        n == placeholder_count(template@),
{
    let t = chars_of(template);
    let mut n: usize = 0;
    let mut i: usize = 0;
    while i < t.len()
        invariant
            t@ == template@,
            i <= t.len(),
            n <= i,
            n == placeholders_before(t@, i as int),
        decreases t.len() - i,
    {
        if i + 1 < t.len() && t[i] == '{' && t[i + 1] == '}' {
            n += 1;
        }
        i += 1;
    }
    n
}

/// The filter that `template` gives for `name`.
pub fn build_filter(template: &str, name: &str) -> (filter: String)
    ensures
        filter@ == substitute(template@, name@),
{
    let t = chars_of(template);
    let n = t.len();
    let mut out = String::new();
    let mut start: usize = 0;
    let mut i: usize = 0;
    proof {
        assert(t@.skip(0) =~= t@);
        assert(out@ + substitute(t@.skip(0), name@) =~= substitute(t@, name@));
    }
    while i < n
        invariant
            t@ == template@,
            n == t.len(),
            start <= i <= n,
            forall|j: int| start <= j < i ==> !placeholder_at(t@, j),
            out@ + substitute(t@.skip(start as int), name@) == substitute(t@, name@),
        decreases n - i,
    {
        if i + 1 < n && t[i] == '{' && t[i + 1] == '}' {
            proof {
                lemma_run_then_placeholder(t@, name@, start as int, i as int);
            }
            out.append(template.substring_char(start, i));
            out.append(name);
            i += 2;
            start = i;
        } else {
            i += 1;
        }
    }
    proof {
        lemma_run_to_end(t@, name@, start as int);
    }
    out.append(template.substring_char(start, n));
    out
}

/// From `start`, a stretch without placeholders and then a placeholder at
/// `i` give the stretch, the name, and the rest after the placeholder.
proof fn lemma_run_then_placeholder(t: Seq<char>, name: Seq<char>, start: int, i: int)
    requires
        0 <= start <= i,
        placeholder_at(t, i),
        forall|j: int| start <= j < i ==> !placeholder_at(t, j),
    ensures
        substitute(t.skip(start), name) == t.subrange(start, i) + name + substitute(
            t.skip(i + 2),
            name,
        ),
{
    let from = t.skip(start);
    assert forall|j: int| 0 <= j < i - start implies !placeholder_at(from, j) by {
        assert(placeholder_at(from, j) == placeholder_at(t, j + start));
    }
    lemma_substitute_plain(from, name, i - start);
    assert(from.take(i - start) =~= t.subrange(start, i));
    assert(from.skip(i - start) =~= t.skip(i));
    assert(placeholder_at(t.skip(i), 0));
    assert(t.skip(i).skip(2) =~= t.skip(i + 2));
    assert(substitute(from, name) =~= t.subrange(start, i) + name + substitute(
        t.skip(i + 2),
        name,
    ));
}

/// From `start`, a stretch without placeholders up to the end is copied.
proof fn lemma_run_to_end(t: Seq<char>, name: Seq<char>, start: int)
    requires
        0 <= start <= t.len(),
        forall|j: int| start <= j < t.len() ==> !placeholder_at(t, j),
    ensures
        substitute(t.skip(start), name) == t.subrange(start, t.len() as int),
{
    let from = t.skip(start);
    assert forall|j: int| 0 <= j < from.len() implies !placeholder_at(from, j) by {
        assert(placeholder_at(from, j) == placeholder_at(t, j + start));
    }
    lemma_substitute_plain(from, name, from.len() as int);
    assert(from.skip(from.len() as int) =~= Seq::<char>::empty());
    assert(from.take(from.len() as int) =~= t.subrange(start, t.len() as int));
    assert(substitute(from, name) =~= t.subrange(start, t.len() as int));
}

} // verus!
