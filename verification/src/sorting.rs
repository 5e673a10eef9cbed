//! Stable sorting by a key, and the removal of repeated neighbours.
//!
//! Items are ordered by a [`SortKey`]: first by rank, then by text in the
//! lexicographic order of `String`. The sorted sequence is defined by stable
//! insertion, so it is a function of the input; that it is sorted and a
//! permutation of the input is proved below.

use vstd::prelude::*;
use crate::text::{
    chars_lt, lemma_chars_lt_asymmetric, lemma_chars_lt_total, lemma_chars_lt_transitive,
    str_precedes, view_all,
};

verus! {

/// What an item is ordered by.
pub struct SortKey {
    pub rank: nat,
    pub text: Seq<char>,
}

/// The strict order of keys: by rank, then by text.
pub open spec fn key_lt(a: SortKey, b: SortKey) -> bool {
    a.rank < b.rank || (a.rank == b.rank && chars_lt(a.text, b.text))
}

/// A type whose values have a sort key.
pub trait SortKeyed {
    spec fn sort_key(&self) -> SortKey;
}

/// A type whose values can be compared by their sort keys.
pub trait Precedes: SortKeyed {
    /// Whether `self` must come before `other`.
    fn precedes(&self, other: &Self) -> (r: bool)
        ensures
            r == key_lt(self.sort_key(), other.sort_key()),
    ;
}

impl SortKeyed for Seq<char> {
    open spec fn sort_key(&self) -> SortKey {
        SortKey { rank: 0, text: *self }
    }
}

impl SortKeyed for String {
    open spec fn sort_key(&self) -> SortKey {
        SortKey { rank: 0, text: self@ }
    }
}

impl Precedes for String {
    fn precedes(&self, other: &Self) -> (r: bool) {
        str_precedes(self.as_str(), other.as_str())
    }
}

/// Where `x` goes in the sorted sequence `s`: behind every item that does
/// not come after it.
pub open spec fn insert_position<A: SortKeyed>(s: Seq<A>, x: A) -> int
    decreases s.len(),
{
    if s.len() == 0 {
        0
    } else if key_lt(x.sort_key(), s.last().sort_key()) {
        insert_position(s.drop_last(), x)
    } else {
        s.len() as int
    }
}

/// The sorted sequence `s` with `x` put in its place.
pub open spec fn sorted_insert<A: SortKeyed>(s: Seq<A>, x: A) -> Seq<A> {
    s.insert(insert_position(s, x), x)
}

/// The items of `s` in ascending order of their keys, items of equal key in
/// the order in which they stand in `s`.
pub open spec fn sorted<A: SortKeyed>(s: Seq<A>) -> Seq<A>
    decreases s.len(),
{
    if s.len() == 0 {
        s
    } else {
        sorted_insert(sorted(s.drop_last()), s.last())
    }
}

/// No item comes before an earlier one.
pub open spec fn is_sorted<A: SortKeyed>(s: Seq<A>) -> bool {
    forall|i: int, j: int|
        0 <= i < j < s.len() ==> !key_lt(#[trigger] s[j].sort_key(), #[trigger] s[i].sort_key())
}

/// The sequence `s` without the items that equal their left neighbour.
pub open spec fn dedup_adjacent<A>(s: Seq<A>) -> Seq<A>
    decreases s.len(),
{
    if s.len() == 0 {
        s
    } else {
        let d = dedup_adjacent(s.drop_last());
        if d.len() > 0 && d.last() == s.last() {
            d
        } else {
            d.push(s.last())
        }
    }
}

proof fn lemma_key_lt_asymmetric(a: SortKey, b: SortKey)
    requires
        key_lt(a, b),
    ensures
        !key_lt(b, a),
{
    if a.rank == b.rank {
        lemma_chars_lt_asymmetric(a.text, b.text);
    }
}

proof fn lemma_key_lt_before_not_after(a: SortKey, b: SortKey, c: SortKey)
    requires
        key_lt(a, b),
        !key_lt(c, b),
    ensures
        key_lt(a, c),
{
    if a.rank == b.rank && b.rank == c.rank {
        if chars_lt(b.text, c.text) {
            lemma_chars_lt_transitive(a.text, b.text, c.text);
        } else {
            lemma_chars_lt_total(b.text, c.text);
        }
    }
}

proof fn lemma_insert_position<A: SortKeyed>(s: Seq<A>, x: A)
    ensures
        0 <= insert_position(s, x) <= s.len(),
        forall|j: int|
            insert_position(s, x) <= j < s.len() ==> key_lt(
                x.sort_key(),
                #[trigger] s[j].sort_key(),
            ),
        insert_position(s, x) > 0 ==> !key_lt(
            x.sort_key(),
            s[insert_position(s, x) - 1].sort_key(),
        ),
    decreases s.len(),
{
    if s.len() > 0 && key_lt(x.sort_key(), s.last().sort_key()) {
        let rest = s.drop_last();
        lemma_insert_position(rest, x);
        assert forall|j: int| insert_position(s, x) <= j < s.len() implies key_lt(
            x.sort_key(),
            #[trigger] s[j].sort_key(),
        ) by {
            if j < rest.len() {
                assert(rest[j] == s[j]);
            }
        }
    }
}

proof fn lemma_sorted_insert_is_sorted<A: SortKeyed>(s: Seq<A>, x: A)
    requires
        is_sorted(s),
    ensures
        is_sorted(sorted_insert(s, x)),
{
    let p = insert_position(s, x);
    let r = sorted_insert(s, x);
    lemma_insert_position(s, x);
    assert forall|i: int, j: int| 0 <= i < j < r.len() implies !key_lt(
        #[trigger] r[j].sort_key(),
        #[trigger] r[i].sort_key(),
    ) by {
        if j == p {
            if key_lt(x.sort_key(), s[i].sort_key()) {
                if i < p - 1 {
                    assert(!key_lt(s[p - 1].sort_key(), s[i].sort_key()));
                }
                lemma_key_lt_before_not_after(x.sort_key(), s[i].sort_key(), s[p - 1].sort_key());
            }
        } else if i == p {
            lemma_key_lt_asymmetric(x.sort_key(), s[j - 1].sort_key());
        } else {
            let si = if i < p { i } else { i - 1 };
            let sj = if j < p { j } else { j - 1 };
            assert(!key_lt(s[sj].sort_key(), s[si].sort_key()));
        }
    }
}

/// A sorted sequence is in ascending order.
pub proof fn lemma_sorted_is_sorted<A: SortKeyed>(s: Seq<A>)
    ensures
        is_sorted(sorted(s)),
    decreases s.len(),
{
    if s.len() > 0 {
        lemma_sorted_is_sorted(s.drop_last());
        lemma_sorted_insert_is_sorted(sorted(s.drop_last()), s.last());
    }
}

/// Sorting leaves a sequence in ascending order as it is.
pub proof fn lemma_sorted_of_sorted<A: SortKeyed>(s: Seq<A>)
    requires
        is_sorted(s),
    ensures
        sorted(s) == s,
    decreases s.len(),
{
    if s.len() > 0 {
        let rest = s.drop_last();
        assert(is_sorted(rest)) by {
            assert forall|i: int, j: int| 0 <= i < j < rest.len() implies !key_lt(
                #[trigger] rest[j].sort_key(),
                #[trigger] rest[i].sort_key(),
            ) by {
                assert(!key_lt(s[j].sort_key(), s[i].sort_key()));
            }
        }
        lemma_sorted_of_sorted(rest);
        if rest.len() > 0 {
            assert(!key_lt(s[s.len() - 1].sort_key(), s[s.len() - 2].sort_key()));
            assert(rest.last() == s[s.len() - 2]);
        }
        assert(rest.insert(rest.len() as int, s.last()) =~= s);
    }
}

/// Sorting a second time changes nothing.
pub proof fn lemma_sorted_idempotent<A: SortKeyed>(s: Seq<A>)
    ensures
        sorted(sorted(s)) == sorted(s),
{
    lemma_sorted_is_sorted(s);
    lemma_sorted_of_sorted(sorted(s));
}

/// Sorting keeps every item, as often as it occurs.
pub proof fn lemma_sorted_is_permutation<A: SortKeyed>(s: Seq<A>)
    ensures
        sorted(s).to_multiset() == s.to_multiset(),
        sorted(s).len() == s.len(),
    decreases s.len(),
{
    if s.len() > 0 {
        let rest = sorted(s.drop_last());
        lemma_sorted_is_permutation(s.drop_last());
        lemma_insert_position(rest, s.last());
        vstd::seq_lib::to_multiset_insert(rest, insert_position(rest, s.last()), s.last());
        vstd::seq_lib::to_multiset_build(s.drop_last(), s.last());
        assert(s.drop_last().push(s.last()) == s);
    } else {
        assert(sorted(s) == s);
    }
}

/// Sorting keeps what a sequence holds.
pub proof fn lemma_sorted_contains<A: SortKeyed>(s: Seq<A>, x: A)
    ensures
        sorted(s).contains(x) <==> s.contains(x),
{
    lemma_sorted_is_permutation(s);
    vstd::seq_lib::to_multiset_contains(s, x);
    vstd::seq_lib::to_multiset_contains(sorted(s), x);
}

/// Taking out repeated neighbours keeps what a sequence holds.
pub proof fn lemma_dedup_adjacent_contains<A>(s: Seq<A>, x: A)
    ensures
        dedup_adjacent(s).contains(x) <==> s.contains(x),
    decreases s.len(),
{
    if s.len() > 0 {
        let rest = s.drop_last();
        let d = dedup_adjacent(rest);
        lemma_dedup_adjacent_contains(rest, x);
        if s.contains(x) {
            let k = choose|k: int| 0 <= k < s.len() && s[k] == x;
            if k < rest.len() {
                assert(rest[k] == x);
                let at = choose|at: int| 0 <= at < d.len() && d[at] == x;
                assert(dedup_adjacent(s)[at] == x);
            } else if d.len() > 0 && d.last() == s.last() {
                assert(dedup_adjacent(s)[d.len() - 1] == x);
            } else {
                assert(dedup_adjacent(s)[d.len() as int] == x);
            }
        }
        if dedup_adjacent(s).contains(x) {
            let at = choose|at: int|
                0 <= at < dedup_adjacent(s).len() && dedup_adjacent(s)[at] == x;
            if at < d.len() {
                assert(d[at] == x);
                let k = choose|k: int| 0 <= k < rest.len() && rest[k] == x;
                assert(s[k] == x);
            } else {
                assert(s[s.len() - 1] == x);
            }
        }
    }
}

proof fn lemma_insert_position_of_views<T: View + SortKeyed>(s: Seq<T>, x: T) where
    T::V: SortKeyed,

    requires
        forall|t: T| (#[trigger] t@).sort_key() == t.sort_key(),
    ensures
        insert_position(view_all(s), x@) == insert_position(s, x),
    decreases s.len(),
{
    if s.len() > 0 {
        assert(view_all(s).drop_last() == view_all(s.drop_last()));
        assert(view_all(s).last() == s.last()@);
        lemma_insert_position_of_views(s.drop_last(), x);
    }
}

/// Where the key of a view is the key of the value, sorting the values
/// and sorting their views come to the same.
pub proof fn lemma_sorted_of_views<T: View + SortKeyed>(s: Seq<T>) where T::V: SortKeyed
    requires
        forall|t: T| (#[trigger] t@).sort_key() == t.sort_key(),
    ensures
        view_all(sorted(s)) == sorted(view_all(s)),
    decreases s.len(),
{
    if s.len() > 0 {
        let rest = sorted(s.drop_last());
        lemma_sorted_of_views(s.drop_last());
        lemma_insert_position_of_views(rest, s.last());
        lemma_insert_position(rest, s.last());
        assert(view_all(s).drop_last() == view_all(s.drop_last()));
        assert(view_all(s).last() == s.last()@);
        assert(view_all(rest.insert(insert_position(rest, s.last()), s.last())) == view_all(
            rest,
        ).insert(insert_position(rest, s.last()), s.last()@));
    } else {
        assert(view_all(s) == Seq::<T::V>::empty());
        assert(sorted(view_all(s)) == view_all(s));
    }
}

/// Sorts `v` by the keys of its items; items of equal key keep their order.
pub fn sort<T: Precedes>(v: &mut Vec<T>)
    ensures
        final(v)@ == sorted(old(v)@),
{
    let ghost orig = v@;
    let n = v.len();
    let mut i: usize = 0;
    assert(orig.take(0) == Seq::<T>::empty());
    while i < n
        invariant
            i <= n,
            v.len() == n,
            orig.len() == n,
            v@.take(i as int) == sorted(orig.take(i as int)),
            v@.skip(i as int) == orig.skip(i as int),
        decreases n - i,
    {
        let ghost before = v@;
        let ghost prefix = v@.take(i as int);
        assert(v@[i as int] == orig.skip(i as int)[0]);
        let x = v.remove(i);
        let ghost removed = v@;
        assert(removed.take(i as int) == prefix);
        assert(removed.skip(i as int) == orig.skip(i as int + 1)) by {
            assert forall|k: int| 0 <= k < n - i - 1 implies #[trigger] removed.skip(i as int)[k]
                == orig.skip(i as int + 1)[k] by {
                assert(before.skip(i as int)[k + 1] == orig.skip(i as int)[k + 1]);
            }
        }
        assert(prefix.take(i as int) == prefix);
        let mut p: usize = i;
        while p > 0 && x.precedes(&v[p - 1])
            invariant
                p <= i,
                i <= v.len(),
                v@ == removed,
                v@.take(i as int) == prefix,
                insert_position(prefix, x) == insert_position(prefix.take(p as int), x),
            decreases p,
        {
            assert(prefix.take(p as int).drop_last() == prefix.take(p as int - 1));
            p -= 1;
        }
        v.insert(p, x);
        proof {
            assert(prefix.take(i as int) == prefix);
            assert(orig.take(i as int + 1).drop_last() == orig.take(i as int));
            assert(orig.take(i as int + 1).last() == x);
            assert(v@ == removed.insert(p as int, x));
            assert(v@.take(i as int + 1) == prefix.insert(p as int, x));
            assert(v@.skip(i as int + 1) == removed.skip(i as int));
        }
        i += 1;
    }
    assert(v@.take(n as int) == v@);
    assert(orig.take(n as int) == orig);
}

/// Sorts strings in their lexicographic order.
pub fn sort_strings(v: &mut Vec<String>)
    ensures
        view_all(final(v)@) == sorted(view_all(old(v)@)),
{
    proof {
        lemma_sorted_of_views::<String>(v@);
    }
    sort(v);
}

/// The strings of `v` without those that equal their left neighbour.
pub fn dedup(v: &Vec<String>) -> (r: Vec<String>)
    ensures
        view_all(r@) == dedup_adjacent(view_all(v@)),
{
    let mut r: Vec<String> = Vec::new();
    let mut i: usize = 0;
    assert(view_all(v@).take(0) == Seq::<Seq<char>>::empty());
    assert(view_all(r@) == Seq::<Seq<char>>::empty());
    while i < v.len()
        invariant
            i <= v.len(),
            view_all(r@) == dedup_adjacent(view_all(v@).take(i as int)),
        decreases v.len() - i,
    {
        let ghost seen = view_all(v@).take(i as int);
        assert(view_all(v@).take(i as int + 1).drop_last() == seen);
        assert(view_all(v@).take(i as int + 1).last() == v@[i as int]@);
        let ghost before = r@;
        if r.len() == 0 || r[r.len() - 1] != v[i] {
            r.push(v[i].clone());
            assert(view_all(r@) == view_all(before).push(v@[i as int]@));
        }
        i += 1;
    }
    assert(view_all(v@).take(v.len() as int) == view_all(v@));
    r
}

} // verus!
