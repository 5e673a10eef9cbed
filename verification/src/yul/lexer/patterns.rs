//! What each kind of token matches, stated of the bytes themselves, and the
//! proof that the lexer finds the longest of these matches.

use vstd::prelude::*;
use vstd::string::*;
use vstd::utf8::{encode_utf8, is_ascii_chars_encode_utf8};
use crate::yul::lexer::rules::{
    block_comment_end, has_word_at, lemma_run_len_members, lemma_run_len_stops, match_len,
    run_len, string_end, token_at, word_and_run, ByteClass, BACKSLASH, CARRIAGE_RETURN,
    DOUBLE_QUOTE, LINE_FEED, SINGLE_QUOTE, SLASH, STAR,
};
use crate::yul::lexer::token_kind::{is_ascii_prefix, lemma_ascii_prefix, TokenKind};
use crate::yul::lexer::lemma_token_is_best_match;

verus! {

/// Every byte from `from` up to `to` belongs to the class.
pub open spec fn all_in_class(s: Seq<u8>, from: int, to: int, class: ByteClass) -> bool {
    forall|i: int| from <= i < to ==> class.holds(#[trigger] s[i])
}

/// The `n` bytes at `start` are `word` and then bytes of the class, at
/// least one.
pub open spec fn is_word_then_some(
    s: Seq<u8>,
    start: int,
    n: int,
    word: Seq<u8>,
    class: ByteClass,
) -> bool {
    &&& has_word_at(s, start, word)
    &&& n > word.len()
    &&& start + n <= s.len()
    &&& all_in_class(s, start + word.len(), start + n, class)
}

/// The bytes from `i` up to `end` are the inside of a string: any number of
/// pieces, each a backslash with the byte behind it, which is no line feed,
/// or one byte that is neither a double quote nor a backslash nor the end of
/// a line.
pub open spec fn is_string_inside(s: Seq<u8>, i: int, end: int) -> bool
    decreases end - i,
{
    if i >= end {
        i == end
    } else if s[i] == BACKSLASH {
        i + 1 < end && s[i + 1] != LINE_FEED && is_string_inside(s, i + 2, end)
    } else if s[i] == DOUBLE_QUOTE || s[i] == LINE_FEED || s[i] == CARRIAGE_RETURN {
        false
    } else {
        is_string_inside(s, i + 1, end)
    }
}

/// The bytes from `i` up to `end` are the inside of a block comment: any
/// number of pieces, each a star with a byte behind it that is no slash, or
/// one byte that is no star.
pub open spec fn is_block_inside(s: Seq<u8>, i: int, end: int) -> bool
    decreases end - i,
{
    if i >= end {
        i == end
    } else if s[i] != STAR {
        is_block_inside(s, i + 1, end)
    } else {
        i + 1 < end && s[i + 1] != SLASH && is_block_inside(s, i + 2, end)
    }
}

/// The `n` bytes at `start` are a hex string: `hex`, a quote, hex digits in
/// pairs, and the same quote.
pub open spec fn is_hex_string(s: Seq<u8>, start: int, n: int) -> bool {
    let word = encode_utf8("hex"@);
    let open = start + word.len();
    &&& has_word_at(s, start, word)
    &&& n >= word.len() + 2
    &&& start + n <= s.len()
    &&& (s[open] == DOUBLE_QUOTE || s[open] == SINGLE_QUOTE)
    &&& s[start + n - 1] == s[open]
    &&& (n - word.len() - 2) % 2 == 0
    &&& all_in_class(s, open + 1, start + n - 1, ByteClass::HexDigit)
}

/// The `n` bytes at `start` are a comment: `//` and bytes of one line, of
/// which only the last may be the line feed; or `/*`, the inside of a block
/// comment and `*/`.
pub open spec fn is_comment(s: Seq<u8>, start: int, n: int) -> bool {
    let line = encode_utf8("//"@);
    let block = encode_utf8("/*"@);
    ||| {
        &&& has_word_at(s, start, line)
        &&& n >= line.len()
        &&& start + n <= s.len()
        &&& all_in_class(s, start + line.len(), start + n - 1, ByteClass::NotNewline)
    }
    ||| {
        &&& has_word_at(s, start, block)
        &&& n >= block.len() + 2
        &&& start + n <= s.len()
        &&& s[start + n - 2] == STAR
        &&& s[start + n - 1] == SLASH
        &&& is_block_inside(s, start + block.len(), start + n - 2)
    }
}

/// Whether the `n` bytes at `start` are a token of the given kind.
pub open spec fn matches_at(kind: TokenKind, s: Seq<u8>, start: int, n: int) -> bool {
    &&& 0 <= start
    &&& 0 < n
    &&& start + n <= s.len()
    &&& match kind.spelling() {
        Some(word) => encode_utf8(word).len() == n && has_word_at(s, start, encode_utf8(word)),
        None => match kind {
            TokenKind::Int => is_word_then_some(
                s,
                start,
                n,
                encode_utf8("int"@),
                ByteClass::Digit,
            ),
            TokenKind::Uint => is_word_then_some(
                s,
                start,
                n,
                encode_utf8("uint"@),
                ByteClass::Digit,
            ),
            TokenKind::Decimal => is_word_then_some(s, start, n, Seq::empty(), ByteClass::Digit),
            TokenKind::Hexadecimal => is_word_then_some(
                s,
                start,
                n,
                encode_utf8("0x"@),
                ByteClass::HexDigit,
            ),
            TokenKind::String => n >= 2 && s[start] == DOUBLE_QUOTE && s[start + n - 1]
                == DOUBLE_QUOTE && is_string_inside(s, start + 1, start + n - 1),
            TokenKind::StringHex => is_hex_string(s, start, n),
            TokenKind::Identifier => ByteClass::IdentifierStart.holds(s[start]) && all_in_class(
                s,
                start + 1,
                start + n,
                ByteClass::IdentifierContinue,
            ),
            TokenKind::Comment => is_comment(s, start, n),
            TokenKind::Whitespace => is_word_then_some(
                s,
                start,
                n,
                Seq::empty(),
                ByteClass::Space,
            ),
            _ => false,
        },
    }
}

proof fn lemma_run_is_in_class(s: Seq<u8>, start: int, class: ByteClass)
    requires
        0 <= start <= s.len(),
    ensures
        all_in_class(s, start, start + run_len(s, start, class), class),
{
    assert forall|i: int| start <= i < start + run_len(s, start, class) implies class.holds(
        #[trigger] s[i],
    ) by {
        lemma_run_len_members(s, start, class, i);
    }
}

proof fn lemma_run_covers(s: Seq<u8>, from: int, to: int, class: ByteClass)
    requires
        0 <= from <= to <= s.len(),
        all_in_class(s, from, to, class),
    ensures
        run_len(s, from, class) >= to - from,
    decreases to - from,
{
    if from < to {
        assert(class.holds(s[from]));
        lemma_run_covers(s, from + 1, to, class);
    } else {
        lemma_run_len_stops(s, from, class);
    }
}

proof fn lemma_word_and_run(s: Seq<u8>, start: int, word: Seq<u8>, class: ByteClass)
    requires
        0 <= start,
    ensures
        word_and_run(s, start, word, class) matches Some(n) ==> is_word_then_some(
            s,
            start,
            n,
            word,
            class,
        ),
        forall|m: int|
            #[trigger] is_word_then_some(s, start, m, word, class) ==> word_and_run(
                s,
                start,
                word,
                class,
            ) is Some && m <= word_and_run(s, start, word, class)->0,
{
    if has_word_at(s, start, word) {
        let from = start + word.len();
        lemma_run_len_stops(s, from, class);
        lemma_run_is_in_class(s, from, class);
        assert forall|m: int| #[trigger]
            is_word_then_some(s, start, m, word, class) implies run_len(s, from, class) >= m
            - word.len() by {
            lemma_run_covers(s, from, start + m, class);
        }
    }
}

proof fn lemma_string_end_is_inside(s: Seq<u8>, i: int)
    requires
        0 <= i,
        string_end(s, i) is Some,
    ensures
        i < string_end(s, i)->0 <= s.len(),
        s[string_end(s, i)->0 - 1] == DOUBLE_QUOTE,
        is_string_inside(s, i, string_end(s, i)->0 - 1),
    decreases s.len() - i,
{
    if s[i] == DOUBLE_QUOTE {
    } else if s[i] == BACKSLASH {
        lemma_string_end_is_inside(s, i + 2);
    } else {
        lemma_string_end_is_inside(s, i + 1);
    }
}

proof fn lemma_string_inside_ends(s: Seq<u8>, i: int, end: int)
    requires
        0 <= i <= end < s.len(),
        is_string_inside(s, i, end),
        s[end] == DOUBLE_QUOTE,
    ensures
        string_end(s, i) == Some(end + 1),
    decreases end - i,
{
    if i < end {
        if s[i] == BACKSLASH {
            lemma_string_inside_ends(s, i + 2, end);
        } else {
            lemma_string_inside_ends(s, i + 1, end);
        }
    }
}

proof fn lemma_block_end_is_inside(s: Seq<u8>, i: int)
    requires
        0 <= i,
        block_comment_end(s, i) is Some,
    ensures
        i + 2 <= block_comment_end(s, i)->0 <= s.len(),
        s[block_comment_end(s, i)->0 - 2] == STAR,
        s[block_comment_end(s, i)->0 - 1] == SLASH,
        is_block_inside(s, i, block_comment_end(s, i)->0 - 2),
    decreases s.len() - i,
{
    if s[i] != STAR {
        lemma_block_end_is_inside(s, i + 1);
    } else if s[i + 1] != SLASH {
        lemma_block_end_is_inside(s, i + 2);
    }
}

proof fn lemma_block_inside_ends(s: Seq<u8>, i: int, end: int)
    requires
        0 <= i <= end,
        end + 1 < s.len(),
        is_block_inside(s, i, end),
        s[end] == STAR,
        s[end + 1] == SLASH,
    ensures
        block_comment_end(s, i) == Some(end + 2),
    decreases end - i,
{
    if i < end {
        if s[i] != STAR {
            lemma_block_inside_ends(s, i + 1, end);
        } else {
            lemma_block_inside_ends(s, i + 2, end);
        }
    }
}

proof fn lemma_comment_words()
    ensures
        encode_utf8("//"@) == seq![SLASH, SLASH],
        encode_utf8("/*"@) == seq![SLASH, STAR],
        encode_utf8("hex"@).len() == 3,
{
    reveal_strlit("//");
    reveal_strlit("/*");
    reveal_strlit("hex");
    reveal_with_fuel(is_ascii_prefix, 4);
    let line = "//"@;
    let block = "/*"@;
    let hex = "hex"@;
    lemma_ascii_prefix(line, 2);
    lemma_ascii_prefix(block, 2);
    lemma_ascii_prefix(hex, 3);
    is_ascii_chars_encode_utf8(line);
    is_ascii_chars_encode_utf8(block);
    is_ascii_chars_encode_utf8(hex);
    assert(line[0] as u8 == encode_utf8(line)[0] && line[1] as u8 == encode_utf8(line)[1]);
    assert(block[0] as u8 == encode_utf8(block)[0] && block[1] as u8 == encode_utf8(block)[1]);
    assert(encode_utf8(line) =~= seq![SLASH, SLASH]);
    assert(encode_utf8(block) =~= seq![SLASH, STAR]);
}

/// What the lexer finds of a kind at a place is a token of that kind.
pub proof fn lemma_match_len_matches(kind: TokenKind, s: Seq<u8>, start: int)
    requires
        0 <= start,
        match_len(kind, s, start) is Some,
    ensures
        matches_at(kind, s, start, match_len(kind, s, start)->0),
{
    let n = match_len(kind, s, start)->0;
    lemma_comment_words();
    match kind.spelling() {
        Some(word) => {},
        None => match kind {
            TokenKind::Int => lemma_word_and_run(s, start, encode_utf8("int"@), ByteClass::Digit),
            TokenKind::Uint => lemma_word_and_run(s, start, encode_utf8("uint"@), ByteClass::Digit),
            TokenKind::Decimal => lemma_word_and_run(s, start, Seq::empty(), ByteClass::Digit),
            TokenKind::Hexadecimal => lemma_word_and_run(
                s,
                start,
                encode_utf8("0x"@),
                ByteClass::HexDigit,
            ),
            TokenKind::Whitespace => lemma_word_and_run(s, start, Seq::empty(), ByteClass::Space),
            TokenKind::String => {
                lemma_string_end_is_inside(s, start + 1);
            },
            TokenKind::StringHex => {
                let open = start + encode_utf8("hex"@).len();
                lemma_run_len_stops(s, open + 1, ByteClass::HexDigit);
                lemma_run_is_in_class(s, open + 1, ByteClass::HexDigit);
            },
            TokenKind::Identifier => {
                lemma_run_len_stops(s, start + 1, ByteClass::IdentifierContinue);
                lemma_run_is_in_class(s, start + 1, ByteClass::IdentifierContinue);
            },
            TokenKind::Comment => {
                let line = encode_utf8("//"@);
                let block = encode_utf8("/*"@);
                if has_word_at(s, start, line) {
                    lemma_run_len_stops(s, start + line.len(), ByteClass::NotNewline);
                    lemma_run_is_in_class(s, start + line.len(), ByteClass::NotNewline);
                } else {
                    lemma_block_end_is_inside(s, start + block.len());
                }
            },
            _ => {},
        },
    }
}

/// No token of a kind at a place is longer than what the lexer finds of
/// that kind there.
pub proof fn lemma_match_len_is_longest(kind: TokenKind, s: Seq<u8>, start: int, m: int)
    requires
        matches_at(kind, s, start, m),
    ensures
        match_len(kind, s, start) is Some,
        m <= match_len(kind, s, start)->0,
{
    lemma_comment_words();
    match kind.spelling() {
        Some(word) => {},
        None => match kind {
            TokenKind::Int => lemma_word_and_run(s, start, encode_utf8("int"@), ByteClass::Digit),
            TokenKind::Uint => lemma_word_and_run(s, start, encode_utf8("uint"@), ByteClass::Digit),
            TokenKind::Decimal => lemma_word_and_run(s, start, Seq::empty(), ByteClass::Digit),
            TokenKind::Hexadecimal => lemma_word_and_run(
                s,
                start,
                encode_utf8("0x"@),
                ByteClass::HexDigit,
            ),
            TokenKind::Whitespace => lemma_word_and_run(s, start, Seq::empty(), ByteClass::Space),
            TokenKind::String => {
                lemma_string_inside_ends(s, start + 1, start + m - 1);
            },
            TokenKind::StringHex => {
                let open = start + encode_utf8("hex"@).len();
                lemma_run_covers(s, open + 1, start + m - 1, ByteClass::HexDigit);
                lemma_run_len_stops(s, open + 1, ByteClass::HexDigit);
                let run = run_len(s, open + 1, ByteClass::HexDigit);
                if run > start + m - 1 - (open + 1) {
                    lemma_run_len_members(s, open + 1, ByteClass::HexDigit, start + m - 1);
                }
            },
            TokenKind::Identifier => {
                lemma_run_covers(s, start + 1, start + m, ByteClass::IdentifierContinue);
            },
            TokenKind::Comment => {
                let line = encode_utf8("//"@);
                let block = encode_utf8("/*"@);
                if has_word_at(s, start, line) {
                    assert(s.subrange(start, start + 2)[1] == SLASH);
                    if has_word_at(s, start, block) {
                        assert(s.subrange(start, start + 2)[1] == STAR);
                    }
                    let from = start + line.len();
                    lemma_run_len_stops(s, from, ByteClass::NotNewline);
                    if m > line.len() {
                        lemma_run_covers(s, from, start + m - 1, ByteClass::NotNewline);
                    }
                } else {
                    lemma_block_inside_ends(s, start + block.len(), start + m - 2);
                }
            },
            _ => {},
        },
    }
}

/// The token at a place is the longest token that the text has there, and
/// of the longest that of the highest priority.
pub proof fn lemma_token_is_longest_match(s: Seq<u8>, start: int, kind: TokenKind, m: int)
    requires
        matches_at(kind, s, start, m),
    ensures
        token_at(s, start) is Some,
        ({
            let (best, len) = token_at(s, start)->Some_0;
            &&& matches_at(best, s, start, len)
            &&& m < len || (m == len && kind.priority() <= best.priority())
        }),
{
    lemma_match_len_is_longest(kind, s, start, m);
    lemma_token_is_best_match(s, start, kind);
    let (best, len) = token_at(s, start)->Some_0;
    lemma_match_len_matches(best, s, start);
}

} // verus!
