//! Character sequences: conversion between strings and characters, and the
//! lexicographic order that strings are sorted by.

use vstd::prelude::*;
use vstd::string::*;

verus! {

/// `String::push` of the standard library: the string grows by exactly the
/// given character, at its end. Believed, not proved.
pub assume_specification[ std::string::String::push ](s: &mut std::string::String, ch: char)
    ensures
        final(s)@ == old(s)@.push(ch),
;

/// Whether `c` is one of the letters `a` to `z` and `A` to `Z`.
pub open spec fn is_ascii_letter(c: char) -> bool {
    ('a' <= c && c <= 'z') || ('A' <= c && c <= 'Z')
}

/// Whether a character beyond ASCII has the Unicode property `Alphabetic`,
/// as `char::is_alphabetic` of the standard library decides it.
pub uninterp spec fn is_alphabetic_beyond_ascii(c: char) -> bool;

/// Whether a character has the Unicode property `Alphabetic`: in ASCII the
/// letters and nothing else, beyond ASCII what the Unicode tables say.
pub open spec fn char_is_alphabetic(c: char) -> bool {
    if (c as u32) < 128 {
        is_ascii_letter(c)
    } else {
        is_alphabetic_beyond_ascii(c)
    }
}

/// `char::is_alphabetic` of the standard library: its answer depends on the
/// character alone. For an ASCII character it is whether the character is a
/// letter; for any other it is what [`is_alphabetic_beyond_ascii`] stands
/// for. Believed, not proved.
pub assume_specification[ char::is_alphabetic ](c: char) -> (b: bool)
    ensures
        b == char_is_alphabetic(c),
        (c as u32) >= 128 ==> b == is_alphabetic_beyond_ascii(c),
;

/// The characters of a string, in order.
pub fn chars_of(s: &str) -> (chars: Vec<char>)
    ensures
        chars@ == s@,
{
    let mut chars: Vec<char> = Vec::new();
    for c in it: s.chars()
        invariant
            it.seq() == s@,
            chars@ == s@.take(it.index() as int),
    {
        chars.push(c);
    }
    chars
}

/// The string that holds the given characters, in order.
pub fn string_from_chars(chars: &Vec<char>) -> (s: String)
    ensures
        s@ == chars@,
{
    let mut s = String::new();
    let mut i: usize = 0;
    while i < chars.len()
        invariant
            i <= chars.len(),
            s@ == chars@.take(i as int),
        decreases chars.len() - i,
    {
        s.push(chars[i]);
        i += 1;
    }
    s
}

/// Whether `a` comes before `b` from position `i` on, the characters before
/// `i` being equal: the first differing character decides by its scalar
/// value, and a proper prefix comes first.
pub open spec fn chars_lt_from(a: Seq<char>, b: Seq<char>, i: int) -> bool
    decreases a.len() - i,
{
    if i < 0 || i >= b.len() {
        false
    } else if i >= a.len() {
        true
    } else if a[i] != b[i] {
        (a[i] as u32) < (b[i] as u32)
    } else {
        chars_lt_from(a, b, i + 1)
    }
}

/// The strict lexicographic order of character sequences by scalar value,
/// which is the order of `String` and `str`.
pub open spec fn chars_lt(a: Seq<char>, b: Seq<char>) -> bool {
    chars_lt_from(a, b, 0)
}

proof fn lemma_scalar_value_injective(a: char, b: char)
    requires
        a as u32 == b as u32,
    ensures
        a == b,
{
}

proof fn lemma_chars_lt_from_asymmetric(a: Seq<char>, b: Seq<char>, i: int)
    requires
        0 <= i,
        chars_lt_from(a, b, i),
    ensures
        !chars_lt_from(b, a, i),
    decreases a.len() - i,
{
    if i < a.len() && i < b.len() && a[i] == b[i] {
        lemma_chars_lt_from_asymmetric(a, b, i + 1);
    }
}

proof fn lemma_chars_lt_from_transitive(a: Seq<char>, b: Seq<char>, c: Seq<char>, i: int)
    requires
        0 <= i,
        chars_lt_from(a, b, i),
        chars_lt_from(b, c, i),
    ensures
        chars_lt_from(a, c, i),
    decreases a.len() - i,
{
    if i < a.len() && a[i] == b[i] && b[i] == c[i] {
        lemma_chars_lt_from_transitive(a, b, c, i + 1);
    }
}

proof fn lemma_chars_lt_from_total(a: Seq<char>, b: Seq<char>, i: int)
    requires
        0 <= i <= a.len(),
        i <= b.len(),
        !chars_lt_from(a, b, i),
        !chars_lt_from(b, a, i),
    ensures
        a.len() == b.len(),
        forall|j: int| i <= j < a.len() ==> a[j] == b[j],
    decreases a.len() - i,
{
    if i < a.len() && i < b.len() {
        if a[i] != b[i] {
            lemma_scalar_value_injective(a[i], b[i]);
        }
        lemma_chars_lt_from_total(a, b, i + 1);
    }
}

/// No sequence comes before itself, and of two sequences at most one comes
/// before the other.
pub proof fn lemma_chars_lt_asymmetric(a: Seq<char>, b: Seq<char>)
    requires
        chars_lt(a, b),
    ensures
        !chars_lt(b, a),
        a != b,
{
    lemma_chars_lt_from_asymmetric(a, b, 0);
}

/// The order is transitive.
pub proof fn lemma_chars_lt_transitive(a: Seq<char>, b: Seq<char>, c: Seq<char>)
    requires
        chars_lt(a, b),
        chars_lt(b, c),
    ensures
        chars_lt(a, c),
{
    lemma_chars_lt_from_transitive(a, b, c, 0);
}

/// The order is total: two sequences of which neither comes before the other
/// are equal.
pub proof fn lemma_chars_lt_total(a: Seq<char>, b: Seq<char>)
    requires
        !chars_lt(a, b),
        !chars_lt(b, a),
    ensures
        a == b,
{
    lemma_chars_lt_from_total(a, b, 0);
    assert(a =~= b);
}

/// Whether `a` comes before `b` in the lexicographic order of their
/// characters.
pub fn chars_precede(a: &Vec<char>, b: &Vec<char>) -> (r: bool)
    ensures
        r == chars_lt(a@, b@),
{
    let mut i: usize = 0;
    loop
        invariant
            i <= a.len(),
            i <= b.len(),
            chars_lt(a@, b@) == chars_lt_from(a@, b@, i as int),
        decreases a.len() - i,
    {
        if i >= b.len() {
            return false;
        }
        if i >= a.len() {
            return true;
        }
        if a[i] != b[i] {
            return (a[i] as u32) < (b[i] as u32);
        }
        i += 1;
    }
}

/// Whether the string `a` comes before the string `b`, as `a < b` does.
pub fn str_precedes(a: &str, b: &str) -> (r: bool)
    ensures
        r == chars_lt(a@, b@),
{
    let a_chars = chars_of(a);
    let b_chars = chars_of(b);
    chars_precede(&a_chars, &b_chars)
}

/// The views of the items of a sequence, in order.
pub open spec fn view_all<T: View>(items: Seq<T>) -> Seq<T::V> {
    items.map_values(|item: T| item@)
}

/// What is chosen first from a part of a sequence is what is chosen first
/// from the whole.
pub proof fn lemma_filter_map_first<A, B>(s: Seq<A>, f: spec_fn(A) -> Option<B>, i: int)
    requires
        0 <= i <= s.len(),
        s.take(i).filter_map(f).len() > 0,
    ensures
        s.filter_map(f).len() > 0,
        s.filter_map(f)[0] == s.take(i).filter_map(f)[0],
    decreases s.len() - i,
{
    if i == s.len() {
        assert(s.take(i) == s);
    } else {
        s.lemma_filter_map_take_succ(f, i);
        lemma_filter_map_first(s, f, i + 1);
    }
}

/// Something is chosen from a sequence exactly where it is chosen from one
/// of its items.
pub proof fn lemma_filter_map_contains<A, B>(s: Seq<A>, f: spec_fn(A) -> Option<B>, x: B)
    ensures
        s.filter_map(f).contains(x) <==> exists|k: int|
            0 <= k < s.len() && f(#[trigger] s[k]) == Some(x),
    decreases s.len(),
{
    if s.len() > 0 {
        let rest = s.drop_last();
        lemma_filter_map_contains(rest, f, x);
        let chosen = rest.filter_map(f);
        if exists|k: int| 0 <= k < s.len() && f(#[trigger] s[k]) == Some(x) {
            let k = choose|k: int| 0 <= k < s.len() && f(#[trigger] s[k]) == Some(x);
            if k < rest.len() {
                assert(rest[k] == s[k]);
                let at = choose|at: int| 0 <= at < chosen.len() && chosen[at] == x;
                assert(s.filter_map(f)[at] == x);
            } else {
                assert(s.filter_map(f)[chosen.len() as int] == x);
            }
        }
        if s.filter_map(f).contains(x) {
            let at = choose|at: int| 0 <= at < s.filter_map(f).len() && s.filter_map(f)[at] == x;
            if at < chosen.len() {
                assert(chosen[at] == x);
                let k = choose|k: int| 0 <= k < rest.len() && f(#[trigger] rest[k]) == Some(x);
                assert(s[k] == rest[k]);
            } else {
                assert(f(s[s.len() - 1]) == Some(x));
            }
        }
    }
}

/// Nothing is chosen from a sequence exactly where nothing is chosen from
/// any of its items.
pub proof fn lemma_filter_map_is_empty<A, B>(s: Seq<A>, f: spec_fn(A) -> Option<B>)
    ensures
        s.filter_map(f).len() == 0 <==> forall|k: int|
            0 <= k < s.len() ==> f(#[trigger] s[k]) is None,
    decreases s.len(),
{
    if s.len() > 0 {
        let rest = s.drop_last();
        lemma_filter_map_is_empty(rest, f);
        if forall|k: int| 0 <= k < s.len() ==> f(#[trigger] s[k]) is None {
            assert forall|k: int| 0 <= k < rest.len() implies f(#[trigger] rest[k]) is None by {
                assert(rest[k] == s[k]);
            }
            assert(f(s[s.len() - 1]) is None);
        }
        if s.filter_map(f).len() == 0 {
            assert forall|k: int| 0 <= k < s.len() implies f(#[trigger] s[k]) is None by {
                if k < rest.len() {
                    assert(rest[k] == s[k]);
                }
            }
        }
    }
}

} // verus!
