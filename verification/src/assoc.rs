//! Association lists keyed by strings: a later pair for a key overrides an
//! earlier one.

use vstd::prelude::*;
use crate::text::str_equal;

verus! {

/// The map an association list describes, each value taken through `val`;
/// a later pair for a key overrides an earlier one.
pub open spec fn assoc_map<T, W>(s: Seq<(String, T)>, val: spec_fn(T) -> W) -> Map<Seq<char>, W>
    decreases s.len(),
{
    if s.len() == 0 {
        Map::empty()
    } else {
        assoc_map(s.drop_last(), val).insert(s.last().0@, val(s.last().1))
    }
}

/// Whether `i` is the position of the last pair with key `key`.
pub open spec fn last_key_at<T>(s: Seq<(String, T)>, key: Seq<char>, i: int) -> bool {
    &&& 0 <= i < s.len()
    &&& s[i].0@ == key
    &&& forall|j: int| i < j < s.len() ==> (#[trigger] s[j]).0@ != key
}

/// The last pair with a key decides the key's value.
pub proof fn lemma_assoc_last<T, W>(s: Seq<(String, T)>, val: spec_fn(T) -> W, key: Seq<char>, i: int)
    requires
        last_key_at(s, key, i),
    ensures
        assoc_map(s, val).contains_key(key),
        assoc_map(s, val)[key] == val(s[i].1),
    decreases s.len(),
{
    if i < s.len() - 1 {
        let t = s.drop_last();
        assert(s[s.len() - 1].0@ != key);
        assert forall|j: int| i < j < t.len() implies (#[trigger] t[j]).0@ != key by {
            assert(t[j] == s[j]);
        }
        lemma_assoc_last(t, val, key, i);
    }
}

/// Without a pair for a key the key is absent.
pub proof fn lemma_assoc_absent<T, W>(s: Seq<(String, T)>, val: spec_fn(T) -> W, key: Seq<char>)
    requires
        forall|j: int| 0 <= j < s.len() ==> (#[trigger] s[j]).0@ != key,
    ensures
        !assoc_map(s, val).contains_key(key),
    decreases s.len(),
{
    if s.len() > 0 {
        let t = s.drop_last();
        assert(s[s.len() - 1].0@ != key);
        assert forall|j: int| 0 <= j < t.len() implies (#[trigger] t[j]).0@ != key by {
            assert(t[j] == s[j]);
        }
        lemma_assoc_absent(t, val, key);
    }
}

/// Removing a pair leaves the value of every other key as it was.
pub proof fn lemma_assoc_remove<T, W>(s: Seq<(String, T)>, val: spec_fn(T) -> W, i: int, key: Seq<char>)
    requires
        0 <= i < s.len(),
        key != s[i].0@,
    ensures
        assoc_map(s.remove(i), val).contains_key(key) == assoc_map(s, val).contains_key(key),
        assoc_map(s, val).contains_key(key) ==> assoc_map(s.remove(i), val)[key] == assoc_map(s, val)[key],
    decreases s.len(),
{
    if i == s.len() - 1 {
        assert(s.remove(i) =~= s.drop_last());
    } else {
        assert(s.remove(i).drop_last() =~= s.drop_last().remove(i));
        assert(s.remove(i).last() == s.last());
        lemma_assoc_remove(s.drop_last(), val, i, key);
    }
}

/// Moving the pair at `i` to the end with a new value gives the key that value
/// and leaves every other key as it was.
pub proof fn lemma_assoc_move_last<T, W>(s: Seq<(String, T)>, val: spec_fn(T) -> W, i: int, v: T)
    requires
        last_key_at(s, s[i].0@, i),
    ensures
        assoc_map(s.remove(i).push((s[i].0, v)), val) == assoc_map(s, val).insert(s[i].0@, val(v)),
{
    let key = s[i].0@;
    let after = assoc_map(s.remove(i).push((s[i].0, v)), val);
    let target = assoc_map(s, val).insert(key, val(v));
    assert(s.remove(i).push((s[i].0, v)).drop_last() =~= s.remove(i));
    assert forall|j: Seq<char>| #![trigger after.contains_key(j)] #![trigger target.contains_key(j)]
        (after.contains_key(j) == target.contains_key(j) && (after.contains_key(j) ==> after[j] == target[j])) by {
        if j != key {
            lemma_assoc_remove(s, val, i, j);
        }
    }
    assert(after =~= target);
}

/// Position of the last pair with key `key`, if any.
pub fn find_key<T>(s: &Vec<(String, T)>, key: &str) -> (r: Option<usize>)
    ensures
        match r {
            Some(i) => last_key_at(s@, key@, i as int),
            None => forall|j: int| 0 <= j < s@.len() ==> (#[trigger] s@[j]).0@ != key@,
        },
{
    let mut i: usize = s.len();
    while i > 0
        invariant
            i <= s@.len(),
            forall|j: int| i <= j < s@.len() ==> (#[trigger] s@[j]).0@ != key@,
        decreases i,
    {
        if str_equal(s[i - 1].0.as_str(), key) {
            return Some(i - 1);
        }
        i -= 1;
    }
    None
}

} // verus!
