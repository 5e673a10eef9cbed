//! Names: case conversion, plural, and the spelling of token names.

use vstd::prelude::*;
use vstd::string::*;
use crate::text::{chars_of, string_from_chars};

verus! {

/// Whether `c` is one of `A` to `Z`.
pub open spec fn is_ascii_uppercase(c: char) -> bool {
    'A' <= c && c <= 'Z'
}

/// Whether `c` is one of `a` to `z`.
pub open spec fn is_ascii_lowercase(c: char) -> bool {
    'a' <= c && c <= 'z'
}

/// `c` in upper case if it is one of `a` to `z`, else `c`.
pub open spec fn ascii_uppercase(c: char) -> char {
    if is_ascii_lowercase(c) {
        ((c as u8) - 32) as char
    } else {
        c
    }
}

/// `c` in lower case if it is one of `A` to `Z`, else `c`.
pub open spec fn ascii_lowercase(c: char) -> char {
    if is_ascii_uppercase(c) {
        ((c as u8) + 32) as char
    } else {
        c
    }
}

/// What the character at `i` of `s` contributes to the snake case form: an
/// underscore first where an upper case letter stands behind another
/// character, then the character in the wanted case.
pub open spec fn snake_case_piece(s: Seq<char>, i: int, upper: bool) -> Seq<char> {
    let c = if upper {
        ascii_uppercase(s[i])
    } else {
        ascii_lowercase(s[i])
    };
    if i > 0 && is_ascii_uppercase(s[i]) {
        seq!['_', c]
    } else {
        seq![c]
    }
}

/// The snake case form of the first `n` characters of `s`.
pub open spec fn snake_case_prefix(s: Seq<char>, n: int, upper: bool) -> Seq<char>
    decreases n,
{
    if n <= 0 {
        Seq::empty()
    } else {
        snake_case_prefix(s, n - 1, upper) + snake_case_piece(s, n - 1, upper)
    }
}

/// `FooBar` becomes `FOO_BAR`.
pub open spec fn upper_snake_case(s: Seq<char>) -> Seq<char> {
    snake_case_prefix(s, s.len() as int, true)
}

/// `FooBar` becomes `foo_bar`.
pub open spec fn lower_snake_case(s: Seq<char>) -> Seq<char> {
    snake_case_prefix(s, s.len() as int, false)
}

/// The plural of a name.
pub open spec fn plural(s: Seq<char>) -> Seq<char> {
    s.push('s')
}

/// The name under which a token stands in a field: a symbol has a name
/// that can be pronounced, any other token keeps its own.
pub open spec fn clean_name(name: Seq<char>) -> Seq<char> {
    if name == ":="@ {
        "walrus"@
    } else if name == "->"@ {
        "arrow"@
    } else if name == ","@ {
        "comma"@
    } else if name == ":"@ {
        "colon"@
    } else {
        name
    }
}

/// Whether two strings hold the same characters.
pub fn str_eq(a: &str, b: &str) -> (r: bool)
    ensures
        r == (a@ == b@),
{
    String::from_str(a) == String::from_str(b)
}

fn to_ascii_uppercase(c: char) -> (r: char)
    ensures
        r == ascii_uppercase(c),
{
    if 'a' <= c && c <= 'z' {
        let b: u8 = c as u8;
        (b - 32) as char
    } else {
        c
    }
}

fn to_ascii_lowercase(c: char) -> (r: char)
    ensures
        r == ascii_lowercase(c),
{
    if 'A' <= c && c <= 'Z' {
        let b: u8 = c as u8;
        (b + 32) as char
    } else {
        c
    }
}

fn to_snake_case(s: &str, upper: bool) -> (r: String)
    ensures
        r@ == snake_case_prefix(s@, s@.len() as int, upper),
{
    let chars = chars_of(s);
    let mut buf: Vec<char> = Vec::new();
    let mut i: usize = 0;
    while i < chars.len()
        invariant
            i <= chars.len(),
            chars@ == s@,
            buf@ == snake_case_prefix(s@, i as int, upper),
        decreases chars.len() - i,
    {
        let c = chars[i];
        if 'A' <= c && c <= 'Z' && i > 0 {
            buf.push('_');
        }
        let cased = if upper {
            to_ascii_uppercase(c)
        } else {
            to_ascii_lowercase(c)
        };
        buf.push(cased);
        assert(buf@ == snake_case_prefix(s@, i as int, upper) + snake_case_piece(
            s@,
            i as int,
            upper,
        ));
        i += 1;
    }
    string_from_chars(&buf)
}

/// The name in upper snake case: `FooBar` becomes `FOO_BAR`.
pub fn to_upper_snake_case(s: &str) -> (r: String)
    ensures
        r@ == upper_snake_case(s@),
{
    to_snake_case(s, true)
}

/// The name in lower snake case: `FooBar` becomes `foo_bar`.
pub fn to_lower_snake_case(s: &str) -> (r: String)
    ensures
        r@ == lower_snake_case(s@),
{
    to_snake_case(s, false)
}

/// The plural of a name: the name with an `s` behind it.
pub fn pluralize(s: &str) -> (r: String)
    ensures
        r@ == plural(s@),
{
    let mut r = String::from_str(s);
    r.push('s');
    r
}

/// The name under which a token stands in a field: `:=` is `walrus`, `->`
/// is `arrow`, `,` is `comma`, `:` is `colon`, and any other token keeps its
/// name.
pub fn clean_token_name(name: &str) -> (r: String)
    ensures
        r@ == clean_name(name@),
{
    if str_eq(name, ":=") {
        String::from_str("walrus")
    } else if str_eq(name, "->") {
        String::from_str("arrow")
    } else if str_eq(name, ",") {
        String::from_str("comma")
    } else if str_eq(name, ":") {
        String::from_str("colon")
    } else {
        String::from_str(name)
    }
}

} // verus!
