//! Orders on entries and the stable sort that the entry lists use.

use vstd::prelude::*;
use vstd::string::*;
use crate::entry::Entry;
use crate::text::{contains_str, views};

verus! {

/// Lexicographic order on strings by code point (the order of `String`'s `cmp`).
pub open spec fn lex_lt(a: Seq<char>, b: Seq<char>) -> bool
    decreases a.len(),
{
    if a.len() == 0 {
        b.len() > 0
    } else if b.len() == 0 {
        false
    } else if a[0] < b[0] {
        true
    } else if a[0] == b[0] {
        lex_lt(a.drop_first(), b.drop_first())
    } else {
        false
    }
}

/// `lex_lt` is irreflexive and asymmetric.
pub proof fn lemma_lex_lt_asymmetric(a: Seq<char>, b: Seq<char>)
    ensures
        lex_lt(a, b) ==> !lex_lt(b, a),
    decreases a.len(),
{
    if a.len() > 0 && b.len() > 0 && a[0] == b[0] {
        lemma_lex_lt_asymmetric(a.drop_first(), b.drop_first());
    }
}

/// `lex_lt` is transitive.
pub proof fn lemma_lex_lt_transitive(a: Seq<char>, b: Seq<char>, c: Seq<char>)
    ensures
        lex_lt(a, b) && lex_lt(b, c) ==> lex_lt(a, c),
    decreases a.len(),
{
    if a.len() > 0 && b.len() > 0 && c.len() > 0 {
        lemma_lex_lt_transitive(a.drop_first(), b.drop_first(), c.drop_first());
    }
}

/// Two different strings are ordered one way or the other by `lex_lt`.
pub proof fn lemma_lex_lt_total(a: Seq<char>, b: Seq<char>)
    ensures
        a != b ==> lex_lt(a, b) || lex_lt(b, a),
    decreases a.len(),
{
    if a.len() > 0 && b.len() > 0 && a[0] == b[0] {
        lemma_lex_lt_total(a.drop_first(), b.drop_first());
        if a.drop_first() == b.drop_first() {
            assert(a =~= seq![a[0]] + a.drop_first());
            assert(b =~= seq![b[0]] + b.drop_first());
        }
    } else if a.len() == 0 && b.len() == 0 {
        assert(a =~= b);
    }
}

/// The first differing character decides the order of two strings,
/// whatever follows it and whatever their lengths.
pub proof fn lemma_lex_lt_first_char(c: char, d: char, x: Seq<char>, y: Seq<char>)
    requires
        c < d,
    ensures
        lex_lt(seq![c] + x, seq![d] + y),
        !lex_lt(seq![d] + y, seq![c] + x),
{
    let a = seq![c] + x;
    let b = seq![d] + y;
    assert(a[0] == c && b[0] == d);
}

/// Strings with the same first character are ordered by the rest.
pub proof fn lemma_lex_lt_same_first(c: char, x: Seq<char>, y: Seq<char>)
    ensures
        lex_lt(seq![c] + x, seq![c] + y) == lex_lt(x, y),
{
    let a = seq![c] + x;
    let b = seq![c] + y;
    assert(a[0] == c && b[0] == c);
    assert(a.drop_first() =~= x);
    assert(b.drop_first() =~= y);
}

/// A proper prefix comes before the longer string, never after it.
pub proof fn lemma_lex_lt_prefix(a: Seq<char>, b: Seq<char>)
    requires
        b.len() > 0,
    ensures
        lex_lt(a, a + b),
        !lex_lt(a + b, a),
    decreases a.len(),
{
    if a.len() > 0 {
        lemma_lex_lt_prefix(a.drop_first(), b);
        assert((a + b)[0] == a[0]);
        assert((a + b).drop_first() =~= a.drop_first() + b);
    }
}

/// No string comes before itself.
pub proof fn lemma_lex_lt_irreflexive(a: Seq<char>)
    ensures
        !lex_lt(a, a),
{
    lemma_lex_lt_asymmetric(a, a);
}

/// Whether an entry carries the tag `tag`.
pub open spec fn has_tag(e: Entry, tag: Seq<char>) -> bool {
    views(e.tags@).contains(tag)
}

/// Entry `a` comes before entry `b` by name.
pub open spec fn name_before(a: Entry, b: Entry) -> bool {
    lex_lt(a.name@, b.name@)
}

/// Entry `a` comes before entry `b` when listing with `tag` first: tagged
/// entries first, and within each group by name.
pub open spec fn tag_before(tag: Seq<char>, a: Entry, b: Entry) -> bool {
    ||| (has_tag(a, tag) && !has_tag(b, tag))
    ||| (has_tag(a, tag) == has_tag(b, tag) && lex_lt(a.name@, b.name@))
}

/// The order of entries by name.
pub open spec fn by_name() -> spec_fn(Entry, Entry) -> bool {
    |a: Entry, b: Entry| name_before(a, b)
}

/// The order of positions in `entries` when listing with `tag` first.
pub open spec fn positions_by_tag(entries: Seq<Entry>, tag: Seq<char>) -> spec_fn(usize, usize) -> bool {
    |i: usize, j: usize| tag_before(tag, entries[i as int], entries[j as int])
}

/// The positions `0..n`.
pub open spec fn positions(n: nat) -> Seq<usize> {
    Seq::new(n, |i: int| i as usize)
}

/// The positions of `entries` in the order of listing with `tag` first.
pub open spec fn tag_listing(entries: Seq<Entry>, tag: Seq<char>) -> Seq<usize> {
    stable_sort(positions(entries.len()), positions_by_tag(entries, tag))
}

/// The position at which a stable insertion puts `x` into `s`: after every
/// element that comes before it.
pub open spec fn insert_pos<T>(s: Seq<T>, x: T, before: spec_fn(T, T) -> bool) -> int
    decreases s.len(),
{
    if s.len() == 0 {
        0
    } else if before(s[0], x) {
        1 + insert_pos(s.drop_first(), x, before)
    } else {
        0
    }
}

/// The stable sort of `s` by the strict order `before`: equivalent elements
/// keep their order.
pub open spec fn stable_sort<T>(s: Seq<T>, before: spec_fn(T, T) -> bool) -> Seq<T>
    decreases s.len(),
{
    if s.len() == 0 {
        s
    } else {
        let r = stable_sort(s.drop_first(), before);
        r.insert(insert_pos(r, s[0], before), s[0])
    }
}

/// Whether `s` is ordered by `before`: no element comes before an earlier one.
pub open spec fn is_sorted<T>(s: Seq<T>, before: spec_fn(T, T) -> bool) -> bool {
    forall|i: int, j: int| 0 <= i < j < s.len() ==> !before(#[trigger] s[j], #[trigger] s[i])
}

/// Whether `before` is a strict weak order: asymmetric, and "not before" is transitive.
pub open spec fn is_strict_weak_order<T>(before: spec_fn(T, T) -> bool) -> bool {
    &&& forall|a: T, b: T| #[trigger] before(a, b) ==> !before(b, a)
    &&& forall|a: T, b: T, c: T| !#[trigger] before(a, b) && !#[trigger] before(b, c) ==> !before(a, c)
}

proof fn lemma_insert_pos_bounds<T>(s: Seq<T>, x: T, before: spec_fn(T, T) -> bool)
    ensures
        0 <= insert_pos(s, x, before) <= s.len(),
        forall|k: int| 0 <= k < insert_pos(s, x, before) ==> before(#[trigger] s[k], x),
        insert_pos(s, x, before) < s.len() ==> !before(s[insert_pos(s, x, before)], x),
    decreases s.len(),
{
    if s.len() > 0 && before(s[0], x) {
        lemma_insert_pos_bounds(s.drop_first(), x, before);
        assert forall|k: int| 0 <= k < insert_pos(s, x, before) implies before(#[trigger] s[k], x) by {
            if k > 0 {
                assert(s[k] == s.drop_first()[k - 1]);
            }
        }
    }
}

/// The stable sort orders its result and keeps its elements.
pub proof fn lemma_stable_sort_sorted<T>(s: Seq<T>, before: spec_fn(T, T) -> bool)
    requires
        is_strict_weak_order(before),
    ensures
        is_sorted(stable_sort(s, before), before),
        stable_sort(s, before).to_multiset() == s.to_multiset(),
        stable_sort(s, before).len() == s.len(),
    decreases s.len(),
{
    broadcast use vstd::multiset::group_multiset_axioms;
    if s.len() > 0 {
        let r = stable_sort(s.drop_first(), before);
        lemma_stable_sort_sorted(s.drop_first(), before);
        let x = s[0];
        let p = insert_pos(r, x, before);
        lemma_insert_pos_bounds(r, x, before);
        let t = r.insert(p, x);
        assert forall|i: int, j: int| 0 <= i < j < t.len() implies !before(#[trigger] t[j], #[trigger] t[i]) by {
            if j < p {
                assert(t[i] == r[i] && t[j] == r[j]);
            } else if j == p {
                assert(t[i] == r[i]);
                assert(before(r[i], x));
            } else if i == p {
                assert(t[j] == r[j - 1]);
                if j - 1 > p {
                    assert(!before(r[j - 1], r[p]));
                }
                assert(!before(r[p], x));
            } else if i < p {
                assert(t[i] == r[i] && t[j] == r[j - 1]);
            } else {
                assert(t[i] == r[i - 1] && t[j] == r[j - 1]);
            }
        }
        vstd::seq_lib::to_multiset_insert(r, p, x);
        assert(s =~= s.drop_first().insert(0, x));
        vstd::seq_lib::to_multiset_insert(s.drop_first(), 0, x);
    }
}

/// `name_before` is a strict weak order.
pub proof fn lemma_name_before_order()
    ensures
        is_strict_weak_order(|a: Entry, b: Entry| name_before(a, b)),
{
    let before = |a: Entry, b: Entry| name_before(a, b);
    assert forall|a: Entry, b: Entry| #[trigger] before(a, b) implies !before(b, a) by {
        lemma_lex_lt_asymmetric(a.name@, b.name@);
    }
    assert forall|a: Entry, b: Entry, c: Entry| !#[trigger] before(a, b) && !#[trigger] before(b, c) implies !before(a, c) by {
        lemma_lex_lt_total(a.name@, b.name@);
        lemma_lex_lt_total(b.name@, c.name@);
        lemma_lex_lt_transitive(c.name@, b.name@, a.name@);
        lemma_lex_lt_asymmetric(a.name@, c.name@);
    }
}

/// `tag_before` is a strict weak order.
pub proof fn lemma_tag_before_order(tag: Seq<char>)
    ensures
        is_strict_weak_order(|a: Entry, b: Entry| tag_before(tag, a, b)),
{
    let before = |a: Entry, b: Entry| tag_before(tag, a, b);
    assert forall|a: Entry, b: Entry| #[trigger] before(a, b) implies !before(b, a) by {
        lemma_lex_lt_asymmetric(a.name@, b.name@);
    }
    assert forall|a: Entry, b: Entry, c: Entry| !#[trigger] before(a, b) && !#[trigger] before(b, c) implies !before(a, c) by {
        lemma_lex_lt_total(a.name@, b.name@);
        lemma_lex_lt_total(b.name@, c.name@);
        lemma_lex_lt_transitive(c.name@, b.name@, a.name@);
        lemma_lex_lt_asymmetric(a.name@, c.name@);
    }
}

/// Whether `a` comes before `b` in code-point order.
pub fn str_lt(a: &str, b: &str) -> (r: bool)
    ensures
        r == lex_lt(a@, b@),
{
    let n = a.unicode_len();
    let m = b.unicode_len();
    let mut i: usize = 0;
    assert(a@.skip(0) =~= a@ && b@.skip(0) =~= b@);
    while i < n && i < m
        invariant
            n == a@.len(),
            m == b@.len(),
            i <= n,
            i <= m,
            lex_lt(a@, b@) == lex_lt(a@.skip(i as int), b@.skip(i as int)),
        decreases n - i,
    {
        let c = a.get_char(i);
        let d = b.get_char(i);
        if c < d {
            return true;
        }
        if c != d {
            return false;
        }
        assert(a@.skip(i as int).drop_first() =~= a@.skip(i + 1));
        assert(b@.skip(i as int).drop_first() =~= b@.skip(i + 1));
        i += 1;
    }
    i == n && i < m
}

/// Whether entry `a` comes before entry `b` by name.
pub fn entry_name_before(a: &Entry, b: &Entry) -> (r: bool)
    ensures
        r == name_before(*a, *b),
{
    str_lt(a.name.as_str(), b.name.as_str())
}

/// Whether entry `a` comes before entry `b` when listing with `tag` first.
pub fn entry_tag_before(tag: &str, a: &Entry, b: &Entry) -> (r: bool)
    ensures
        r == tag_before(tag@, *a, *b),
{
    let ta = contains_str(&a.tags, tag);
    let tb = contains_str(&b.tags, tag);
    (ta && !tb) || (ta == tb && str_lt(a.name.as_str(), b.name.as_str()))
}

/// Sorts entries by name, stably.
pub fn sort_entries_by_name(v: Vec<Entry>) -> (r: Vec<Entry>)
    ensures
        r@ == stable_sort(v@, by_name()),
{
    let ghost before = by_name();
    let ghost orig = v@;
    let mut v = v;
    let mut r: Vec<Entry> = Vec::new();
    assert(orig.skip(orig.len() as int) =~= Seq::<Entry>::empty());
    assert(orig.take(orig.len() as int) =~= orig);
    while v.len() > 0
        invariant
            before == by_name(),
            v@.len() <= orig.len(),
            v@ == orig.take(v@.len() as int),
            r@ == stable_sort(orig.skip(v@.len() as int), before),
        decreases v@.len(),
    {
        let k = v.len();
        let e = v.pop().unwrap();
        assert(e == orig[k - 1]);
        assert(v@ =~= orig.take(k - 1));
        assert(orig.skip(k - 1).drop_first() =~= orig.skip(k as int));
        assert(orig.skip(k - 1)[0] == e);
        let mut j: usize = 0;
        assert(r@.skip(0) =~= r@);
        while j < r.len() && entry_name_before(&r[j], &e)
            invariant
                before == by_name(),
                j <= r@.len(),
                insert_pos(r@, e, before) == j + insert_pos(r@.skip(j as int), e, before),
            decreases r@.len() - j,
        {
            assert(r@.skip(j as int)[0] == r@[j as int]);
            assert(before(r@[j as int], e));
            assert(r@.skip(j as int).drop_first() =~= r@.skip(j + 1));
            j += 1;
        }
        if j < r.len() {
            assert(r@.skip(j as int)[0] == r@[j as int]);
        } else {
            assert(r@.skip(j as int) =~= Seq::<Entry>::empty());
        }
        assert(insert_pos(r@, e, before) == j);
        r.insert(j, e);
    }
    r
}

/// Positions `0..n` sorted by `tag_before` of the entries there, stably.
pub fn sort_positions_by_tag(entries: &Vec<Entry>, tag: &str) -> (r: Vec<usize>)
    ensures
        r@ == tag_listing(entries@, tag@),
        forall|k: int| 0 <= k < r@.len() ==> r@[k] < entries@.len(),
        r@.len() == entries@.len(),
{
    let ghost before = positions_by_tag(entries@, tag@);
    let ghost orig = positions(entries@.len());
    let n = entries.len();
    let mut k: usize = n;
    let mut out: Vec<usize> = Vec::new();
    assert(orig.skip(n as int) =~= Seq::<usize>::empty());
    while k > 0
        invariant
            before == positions_by_tag(entries@, tag@),
            k <= n,
            n == entries@.len(),
            orig == positions(entries@.len()),
            out@ == stable_sort(orig.skip(k as int), before),
            out@.len() == n - k,
            forall|q: int| 0 <= q < out@.len() ==> out@[q] < n,
        decreases k,
    {
        let e = k - 1;
        assert(orig.skip(k - 1).drop_first() =~= orig.skip(k as int));
        assert(orig.skip(k - 1)[0] == e);
        let mut j: usize = 0;
        assert(out@.skip(0) =~= out@);
        while j < out.len() && entry_tag_before(tag, &entries[out[j]], &entries[e])
            invariant
                before == positions_by_tag(entries@, tag@),
                j <= out@.len(),
                e < n,
                n == entries@.len(),
                forall|q: int| 0 <= q < out@.len() ==> out@[q] < n,
                insert_pos(out@, e, before) == j + insert_pos(out@.skip(j as int), e, before),
            decreases out@.len() - j,
        {
            assert(out@.skip(j as int)[0] == out@[j as int]);
            assert(before(out@[j as int], e));
            assert(out@.skip(j as int).drop_first() =~= out@.skip(j + 1));
            j += 1;
        }
        if j < out.len() {
            assert(out@.skip(j as int)[0] == out@[j as int]);
        } else {
            assert(out@.skip(j as int) =~= Seq::<usize>::empty());
        }
        assert(insert_pos(out@, e, before) == j);
        let ghost old_r = out@;
        out.insert(j, e);
        assert(out@ == old_r.insert(j as int, e));
        k -= 1;
    }
    assert(orig.skip(0) =~= orig);
    out
}

/// Sorting by name orders the entries by name and keeps every entry.
pub proof fn lemma_sorted_by_name(entries: Seq<Entry>)
    ensures
        is_sorted(stable_sort(entries, by_name()), by_name()),
        stable_sort(entries, by_name()).to_multiset() == entries.to_multiset(),
        forall|i: int, j: int| 0 <= i < j < stable_sort(entries, by_name()).len() ==>
            !lex_lt((#[trigger] stable_sort(entries, by_name())[j]).name@, (#[trigger] stable_sort(entries, by_name())[i]).name@),
{
    lemma_name_before_order();
    lemma_stable_sort_sorted(entries, by_name());
    let t = stable_sort(entries, by_name());
    assert forall|i: int, j: int| 0 <= i < j < t.len() implies !lex_lt((#[trigger] t[j]).name@, (#[trigger] t[i]).name@) by {
        assert(!by_name()(t[j], t[i]));
    }
}

/// The listing with `tag` first holds every position once, and no entry
/// without the tag comes before an entry with it.
pub proof fn lemma_tag_listing_tagged_first(entries: Seq<Entry>, tag: Seq<char>)
    ensures
        tag_listing(entries, tag).to_multiset() == positions(entries.len()).to_multiset(),
        forall|i: int, j: int| 0 <= i < j < tag_listing(entries, tag).len()
            && has_tag(entries[tag_listing(entries, tag)[j] as int], tag)
            ==> has_tag(entries[tag_listing(entries, tag)[i] as int], tag),
        forall|i: int, j: int| 0 <= i < j < tag_listing(entries, tag).len()
            && has_tag(entries[tag_listing(entries, tag)[i] as int], tag)
                == has_tag(entries[tag_listing(entries, tag)[j] as int], tag)
            ==> !lex_lt(entries[tag_listing(entries, tag)[j] as int].name@, entries[tag_listing(entries, tag)[i] as int].name@),
{
    let before = positions_by_tag(entries, tag);
    lemma_tag_before_order(tag);
    assert(is_strict_weak_order(before)) by {
        let eb = |a: Entry, b: Entry| tag_before(tag, a, b);
        assert forall|a: usize, b: usize| #[trigger] before(a, b) implies !before(b, a) by {
            assert(eb(entries[a as int], entries[b as int]));
        }
        assert forall|a: usize, b: usize, c: usize| !#[trigger] before(a, b) && !#[trigger] before(b, c) implies !before(a, c) by {
            assert(!eb(entries[a as int], entries[b as int]) && !eb(entries[b as int], entries[c as int]));
        }
    }
    lemma_stable_sort_sorted(positions(entries.len()), before);
    let l = tag_listing(entries, tag);
    assert forall|i: int, j: int| 0 <= i < j < l.len() && has_tag(entries[l[j] as int], tag)
        implies has_tag(entries[l[i] as int], tag) by {
        assert(!before(l[j], l[i]));
    }
    assert forall|i: int, j: int| 0 <= i < j < l.len()
        && has_tag(entries[l[i] as int], tag) == has_tag(entries[l[j] as int], tag)
        implies !lex_lt(entries[l[j] as int].name@, entries[l[i] as int].name@) by {
        assert(!before(l[j], l[i]));
    }
}

} // verus!
