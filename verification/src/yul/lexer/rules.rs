//! The lexical rules: what each kind of token matches, and which kind wins
//! at a place of the text.
//!
//! The text is taken byte by byte. Every byte that a rule names is ASCII, so
//! a character of several bytes is matched only where a rule takes any
//! character, and then whole.

use vstd::prelude::*;
use vstd::slice::*;
use vstd::string::*;
use vstd::utf8::encode_utf8;
use crate::yul::lexer::token_kind::{TokenKind, KIND_COUNT};

verus! {

/// The byte `a`.
pub const LOWER_A: u8 = 0x61;

/// The byte `f`.
pub const LOWER_F: u8 = 0x66;

/// The byte `z`.
pub const LOWER_Z: u8 = 0x7a;

/// The byte `A`.
pub const UPPER_A: u8 = 0x41;

/// The byte `F`.
pub const UPPER_F: u8 = 0x46;

/// The byte `Z`.
pub const UPPER_Z: u8 = 0x5a;

/// The byte `0`.
pub const DIGIT_0: u8 = 0x30;

/// The byte `9`.
pub const DIGIT_9: u8 = 0x39;

/// The byte `_`.
pub const UNDERSCORE: u8 = 0x5f;

/// The byte `$`.
pub const DOLLAR: u8 = 0x24;

/// The byte `.`.
pub const DOT: u8 = 0x2e;

/// The byte `*`.
pub const STAR: u8 = 0x2a;

/// The byte `/`.
pub const SLASH: u8 = 0x2f;

/// The double quote.
pub const DOUBLE_QUOTE: u8 = 0x22;

/// The single quote.
pub const SINGLE_QUOTE: u8 = 0x27;

/// The backslash.
pub const BACKSLASH: u8 = 0x5c;

/// The tab.
pub const TAB: u8 = 0x09;

/// The line feed.
pub const LINE_FEED: u8 = 0x0a;

/// The vertical tab.
pub const VERTICAL_TAB: u8 = 0x0b;

/// The form feed.
pub const FORM_FEED: u8 = 0x0c;

/// The space.
pub const SPACE: u8 = 0x20;

/// The carriage return.
pub const CARRIAGE_RETURN: u8 = 0x0d;

/// A class of bytes.
#[derive(Debug, Clone, Copy, PartialEq, Eq, Structural)]
pub enum ByteClass {
    /// `0` to `9`.
    Digit,
    /// `0` to `9`, `a` to `f` and `A` to `F`.
    HexDigit,
    /// A letter, `_` or `$`.
    IdentifierStart,
    /// A letter, a digit, `_`, `$` or `.`.
    IdentifierContinue,
    /// Tab, line feed, vertical tab, form feed, carriage return or space.
    Space,
    /// Any byte but the line feed.
    NotNewline,
    /// A byte that continues a character of several bytes.
    Continuation,
}

/// Whether `b` is a letter.
pub open spec fn is_letter(b: u8) -> bool {
    (LOWER_A <= b && b <= LOWER_Z) || (UPPER_A <= b && b <= UPPER_Z)
}

/// Whether `b` is a decimal digit.
pub open spec fn is_digit(b: u8) -> bool {
    DIGIT_0 <= b && b <= DIGIT_9
}

impl ByteClass {
    /// Whether the byte belongs to the class.
    pub open spec fn holds(self, b: u8) -> bool {
        match self {
            ByteClass::Digit => is_digit(b),
            ByteClass::HexDigit => is_digit(b) || (LOWER_A <= b && b <= LOWER_F) || (UPPER_A <= b
                && b <= UPPER_F),
            ByteClass::IdentifierStart => is_letter(b) || b == UNDERSCORE || b == DOLLAR,
            ByteClass::IdentifierContinue => is_letter(b) || is_digit(b) || b == UNDERSCORE || b
                == DOLLAR || b == DOT,
            ByteClass::Space => b == TAB || b == LINE_FEED || b == VERTICAL_TAB || b == FORM_FEED
                || b == CARRIAGE_RETURN || b == SPACE,
            ByteClass::NotNewline => b != LINE_FEED,
            ByteClass::Continuation => 0x80 <= b && b <= 0xbf,
        }
    }

    /// Whether the byte belongs to the class.
    pub fn contains(self, b: u8) -> (r: bool)
        ensures
            r == self.holds(b),
    {
        let letter = (LOWER_A <= b && b <= LOWER_Z) || (UPPER_A <= b && b <= UPPER_Z);
        let digit = DIGIT_0 <= b && b <= DIGIT_9;
        match self {
            ByteClass::Digit => digit,
            ByteClass::HexDigit => digit || (LOWER_A <= b && b <= LOWER_F) || (UPPER_A <= b && b
                <= UPPER_F),
            ByteClass::IdentifierStart => letter || b == UNDERSCORE || b == DOLLAR,
            ByteClass::IdentifierContinue => letter || digit || b == UNDERSCORE || b == DOLLAR || b
                == DOT,
            ByteClass::Space => b == TAB || b == LINE_FEED || b == VERTICAL_TAB || b == FORM_FEED
                || b == CARRIAGE_RETURN || b == SPACE,
            ByteClass::NotNewline => b != LINE_FEED,
            ByteClass::Continuation => 0x80 <= b && b <= 0xbf,
        }
    }
}

/// How many bytes of the class follow one another from `start` on.
pub open spec fn run_len(s: Seq<u8>, start: int, class: ByteClass) -> int
    decreases s.len() - start,
{
    if 0 <= start < s.len() && class.holds(s[start]) {
        1 + run_len(s, start + 1, class)
    } else {
        0
    }
}

/// Whether the bytes of `word` stand at `start`.
pub open spec fn has_word_at(s: Seq<u8>, start: int, word: Seq<u8>) -> bool {
    0 <= start && start + word.len() <= s.len() && s.subrange(start, start + word.len()) == word
}

/// Where the block comment ends whose inside goes on at `i`: behind the
/// first `*/` that does not begin in the second byte of a pair `*` and byte.
pub open spec fn block_comment_end(s: Seq<u8>, i: int) -> Option<int>
    decreases s.len() - i,
{
    if i < 0 || i >= s.len() {
        None
    } else if s[i] != STAR {
        block_comment_end(s, i + 1)
    } else if i + 1 >= s.len() {
        None
    } else if s[i + 1] == SLASH {
        Some(i + 2)
    } else {
        block_comment_end(s, i + 2)
    }
}

/// Where the string ends whose inside goes on at `i`: behind the first
/// double quote that no backslash stands before. A backslash takes the next
/// byte with it, which may not be a line feed; no line ends inside a string.
pub open spec fn string_end(s: Seq<u8>, i: int) -> Option<int>
    decreases s.len() - i,
{
    if i < 0 || i >= s.len() {
        None
    } else if s[i] == DOUBLE_QUOTE {
        Some(i + 1)
    } else if s[i] == BACKSLASH {
        if i + 1 < s.len() && s[i + 1] != LINE_FEED {
            string_end(s, i + 2)
        } else {
            None
        }
    } else if s[i] == LINE_FEED || s[i] == CARRIAGE_RETURN {
        None
    } else {
        string_end(s, i + 1)
    }
}

/// The length of `word` and of the bytes of the class behind it, where the
/// word stands at `start` and at least one such byte follows.
pub open spec fn word_and_run(s: Seq<u8>, start: int, word: Seq<u8>, class: ByteClass) -> Option<
    int,
> {
    if has_word_at(s, start, word) && run_len(s, start + word.len(), class) > 0 {
        Some(word.len() + run_len(s, start + word.len(), class))
    } else {
        None
    }
}

/// The length of the hex string at `start`: `hex`, a quote, hex digits in
/// pairs, and the same quote again.
pub open spec fn hex_string_len(s: Seq<u8>, start: int) -> Option<int> {
    let word = encode_utf8("hex"@);
    let open = start + word.len();
    if has_word_at(s, start, word) && open < s.len() && (s[open] == DOUBLE_QUOTE || s[open]
        == SINGLE_QUOTE) {
        let digits = run_len(s, open + 1, ByteClass::HexDigit);
        let close = open + 1 + digits;
        if digits % 2 == 0 && close < s.len() && s[close] == s[open] {
            Some(close + 1 - start)
        } else {
            None
        }
    } else {
        None
    }
}

/// The length of the comment at `start`: `//`, the rest of the line and
/// the line feed that ends it, if one does; or `/*` and all up to the `*/`
/// that ends it.
pub open spec fn comment_len(s: Seq<u8>, start: int) -> Option<int> {
    let line = encode_utf8("//"@);
    let block = encode_utf8("/*"@);
    if line.len() > 0 && has_word_at(s, start, line) {
        let end = start + line.len() + run_len(s, start + line.len(), ByteClass::NotNewline);
        if end < s.len() && s[end] == LINE_FEED {
            Some(end + 1 - start)
        } else {
            Some(end - start)
        }
    } else if has_word_at(s, start, block) {
        match block_comment_end(s, start + block.len()) {
            Some(end) => Some(end - start),
            None => None,
        }
    } else {
        None
    }
}

/// The length of the longest match of `kind` at `start`, if it matches
/// there at all.
pub open spec fn match_len(kind: TokenKind, s: Seq<u8>, start: int) -> Option<int> {
    match kind.spelling() {
        Some(word) => if encode_utf8(word).len() > 0 && has_word_at(s, start, encode_utf8(word)) {
            Some(encode_utf8(word).len() as int)
        } else {
            None
        },
        None => match kind {
            TokenKind::Int => word_and_run(s, start, encode_utf8("int"@), ByteClass::Digit),
            TokenKind::Uint => word_and_run(s, start, encode_utf8("uint"@), ByteClass::Digit),
            TokenKind::Decimal => word_and_run(s, start, Seq::empty(), ByteClass::Digit),
            TokenKind::Hexadecimal => word_and_run(
                s,
                start,
                encode_utf8("0x"@),
                ByteClass::HexDigit,
            ),
            TokenKind::String => if 0 <= start < s.len() && s[start] == DOUBLE_QUOTE {
                match string_end(s, start + 1) {
                    Some(end) => Some(end - start),
                    None => None,
                }
            } else {
                None
            },
            TokenKind::StringHex => hex_string_len(s, start),
            TokenKind::Identifier => if 0 <= start < s.len() && ByteClass::IdentifierStart.holds(
                s[start],
            ) {
                Some(1 + run_len(s, start + 1, ByteClass::IdentifierContinue))
            } else {
                None
            },
            TokenKind::Comment => comment_len(s, start),
            TokenKind::Whitespace => word_and_run(s, start, Seq::empty(), ByteClass::Space),
            _ => None,
        },
    }
}

/// The better of the best match so far and a match of `kind`: the longer,
/// and of two of one length that of the higher priority.
pub open spec fn better_match(
    best: Option<(TokenKind, int)>,
    kind: TokenKind,
    len: Option<int>,
) -> Option<(TokenKind, int)> {
    match len {
        None => best,
        Some(n) => match best {
            None => Some((kind, n)),
            Some((best_kind, best_len)) => if n > best_len || (n == best_len && kind.priority()
                > best_kind.priority()) {
                Some((kind, n))
            } else {
                best
            },
        },
    }
}

/// The best match at `start` among the first `count` kinds.
pub open spec fn best_match(s: Seq<u8>, start: int, count: int) -> Option<(TokenKind, int)>
    decreases count,
{
    if count <= 0 {
        None
    } else {
        better_match(
            best_match(s, start, count - 1),
            TokenKind::at(count - 1),
            match_len(TokenKind::at(count - 1), s, start),
        )
    }
}

/// The kind and the length of the token at `start`, if any kind matches
/// there.
#[verifier::opaque]
pub open spec fn token_at(s: Seq<u8>, start: int) -> Option<(TokenKind, int)> {
    best_match(s, start, KIND_COUNT as int)
}

/// The length of what is left out where no kind matches at `start`: one
/// character, that is one byte and the bytes that continue it.
pub open spec fn error_len(s: Seq<u8>, start: int) -> int {
    1 + run_len(s, start + 1, ByteClass::Continuation)
}

/// The length of the token or of the error at `start`.
pub open spec fn lexeme_len(s: Seq<u8>, start: int) -> int {
    match token_at(s, start) {
        Some((_, len)) => len,
        None => error_len(s, start),
    }
}

/// A length as a mathematical integer.
pub open spec fn option_len(len: Option<usize>) -> Option<int> {
    match len {
        Some(n) => Some(n as int),
        None => None,
    }
}

/// The run of a class lies inside the text.
pub proof fn lemma_run_len_bounds(s: Seq<u8>, start: int, class: ByteClass)
    requires
        0 <= start <= s.len(),
    ensures
        0 <= run_len(s, start, class) <= s.len() - start,
    decreases s.len() - start,
{
    if start < s.len() && class.holds(s[start]) {
        lemma_run_len_bounds(s, start + 1, class);
    }
}

/// Every byte of a run belongs to the class of the run.
pub proof fn lemma_run_len_members(s: Seq<u8>, start: int, class: ByteClass, j: int)
    requires
        0 <= start <= j < start + run_len(s, start, class),
    ensures
        j < s.len(),
        class.holds(s[j]),
    decreases s.len() - start,
{
    if j > start {
        lemma_run_len_members(s, start + 1, class, j);
    }
}

/// A run ends at the end of the text or before a byte that is not of its
/// class.
pub proof fn lemma_run_len_stops(s: Seq<u8>, start: int, class: ByteClass)
    requires
        0 <= start <= s.len(),
    ensures
        0 <= run_len(s, start, class),
        start + run_len(s, start, class) <= s.len(),
        start + run_len(s, start, class) < s.len() ==> !class.holds(
            s[start + run_len(s, start, class)],
        ),
    decreases s.len() - start,
{
    if start < s.len() && class.holds(s[start]) {
        lemma_run_len_stops(s, start + 1, class);
    }
}

/// A string ends behind a double quote.
pub proof fn lemma_string_end(s: Seq<u8>, i: int)
    requires
        string_end(s, i) is Some,
    ensures
        i < string_end(s, i)->0 <= s.len(),
        s[string_end(s, i)->0 - 1] == DOUBLE_QUOTE,
    decreases s.len() - i,
{
    if s[i] == DOUBLE_QUOTE {
    } else if s[i] == BACKSLASH {
        lemma_string_end(s, i + 2);
    } else {
        lemma_string_end(s, i + 1);
    }
}

/// A block comment ends behind a slash.
pub proof fn lemma_block_comment_end(s: Seq<u8>, i: int)
    requires
        block_comment_end(s, i) is Some,
    ensures
        i < block_comment_end(s, i)->0 <= s.len(),
        s[block_comment_end(s, i)->0 - 1] == SLASH,
    decreases s.len() - i,
{
    if s[i] != STAR {
        lemma_block_comment_end(s, i + 1);
    } else if s[i + 1] != SLASH {
        lemma_block_comment_end(s, i + 2);
    }
}

fn run_length(source: &[u8], start: usize, class: ByteClass) -> (n: usize)
    requires
        start <= source.len(),
    ensures
        n == run_len(source@, start as int, class),
        start + n <= source.len(),
{
    let mut i: usize = start;
    while i < source.len() && class.contains(source[i])
        invariant
            start <= i <= source.len(),
            run_len(source@, start as int, class) == (i - start) + run_len(
                source@,
                i as int,
                class,
            ),
        decreases source.len() - i,
    {
        i += 1;
    }
    i - start
}

fn word_at(source: &[u8], start: usize, word: &[u8]) -> (r: bool)
    requires
        start <= source.len(),
    ensures
        r == has_word_at(source@, start as int, word@),
{
    if word.len() > source.len() - start {
        return false;
    }
    let mut i: usize = 0;
    while i < word.len()
        invariant
            i <= word.len(),
            start + word.len() <= source.len(),
            forall|j: int| 0 <= j < i ==> source@[start + j] == word@[j],
        decreases word.len() - i,
    {
        if source[start + i] != word[i] {
            assert(source@.subrange(start as int, start + word.len())[i as int] != word@[i as int]);
            return false;
        }
        i += 1;
    }
    assert(source@.subrange(start as int, start + word.len()) =~= word@);
    true
}

fn word_and_run_length(source: &[u8], start: usize, word: &[u8], class: ByteClass) -> (r: Option<
    usize,
>)
    requires
        start <= source.len(),
    ensures
        option_len(r) == word_and_run(source@, start as int, word@, class),
        r matches Some(n) ==> 0 < n && start + n <= source.len(),
{
    if !word_at(source, start, word) {
        return None;
    }
    let run = run_length(source, start + word.len(), class);
    if run == 0 {
        None
    } else {
        Some(word.len() + run)
    }
}

fn end_of_block_comment(source: &[u8], from: usize) -> (r: Option<usize>)
    requires
        from <= source.len(),
    ensures
        option_len(r) == block_comment_end(source@, from as int),
        r matches Some(end) ==> from < end <= source.len(),
{
    let mut i: usize = from;
    while i < source.len()
        invariant
            from <= i <= source.len(),
            block_comment_end(source@, from as int) == block_comment_end(source@, i as int),
        decreases source.len() - i,
    {
        if source[i] != STAR {
            i += 1;
        } else if i + 1 >= source.len() {
            return None;
        } else if source[i + 1] == SLASH {
            return Some(i + 2);
        } else {
            i += 2;
        }
    }
    None
}

fn end_of_string(source: &[u8], from: usize) -> (r: Option<usize>)
    requires
        from <= source.len(),
    ensures
        option_len(r) == string_end(source@, from as int),
        r matches Some(end) ==> from < end <= source.len(),
{
    let mut i: usize = from;
    while i < source.len()
        invariant
            from <= i <= source.len(),
            string_end(source@, from as int) == string_end(source@, i as int),
        decreases source.len() - i,
    {
        let b = source[i];
        if b == DOUBLE_QUOTE {
            return Some(i + 1);
        } else if b == BACKSLASH {
            if i + 1 < source.len() && source[i + 1] != LINE_FEED {
                i += 2;
            } else {
                return None;
            }
        } else if b == LINE_FEED || b == CARRIAGE_RETURN {
            return None;
        } else {
            i += 1;
        }
    }
    None
}

fn hex_string_length(source: &[u8], start: usize) -> (r: Option<usize>)
    requires
        start <= source.len(),
    ensures
        option_len(r) == hex_string_len(source@, start as int),
        r matches Some(n) ==> 0 < n && start + n <= source.len(),
{
    let word = "hex".as_bytes();
    if !word_at(source, start, word) {
        return None;
    }
    let open = start + word.len();
    if open >= source.len() {
        return None;
    }
    let quote = source[open];
    if quote != DOUBLE_QUOTE && quote != SINGLE_QUOTE {
        return None;
    }
    let digits = run_length(source, open + 1, ByteClass::HexDigit);
    let close = open + 1 + digits;
    if digits % 2 == 0 && close < source.len() && source[close] == quote {
        Some(close + 1 - start)
    } else {
        None
    }
}

fn comment_length(source: &[u8], start: usize) -> (r: Option<usize>)
    requires
        start <= source.len(),
    ensures
        option_len(r) == comment_len(source@, start as int),
        r matches Some(n) ==> 0 < n && start + n <= source.len(),
{
    let line = "//".as_bytes();
    let block = "/*".as_bytes();
    if line.len() > 0 && word_at(source, start, line) {
        let rest = run_length(source, start + line.len(), ByteClass::NotNewline);
        let end = start + line.len() + rest;
        if end < source.len() && source[end] == LINE_FEED {
            Some(end + 1 - start)
        } else {
            Some(end - start)
        }
    } else if word_at(source, start, block) {
        match end_of_block_comment(source, start + block.len()) {
            Some(end) => Some(end - start),
            None => None,
        }
    } else {
        None
    }
}

/// The length of the longest match of `kind` at `start`, if it matches
/// there at all.
pub fn match_length(kind: TokenKind, source: &[u8], start: usize) -> (r: Option<usize>)
    requires
        start <= source.len(),
    ensures
        option_len(r) == match_len(kind, source@, start as int),
        r matches Some(n) ==> 0 < n && start + n <= source.len(),
{
    match kind.fixed_spelling() {
        Some(word) => {
            let word = word.as_bytes();
            if word.len() > 0 && word_at(source, start, word) {
                Some(word.len())
            } else {
                None
            }
        },
        None => {
            let empty: [u8; 0] = [];
            assert(empty@ =~= Seq::<u8>::empty());
            match kind {
                TokenKind::Int => word_and_run_length(
                    source,
                    start,
                    "int".as_bytes(),
                    ByteClass::Digit,
                ),
                TokenKind::Uint => word_and_run_length(
                    source,
                    start,
                    "uint".as_bytes(),
                    ByteClass::Digit,
                ),
                TokenKind::Decimal => word_and_run_length(
                    source,
                    start,
                    empty.as_slice(),
                    ByteClass::Digit,
                ),
                TokenKind::Hexadecimal => word_and_run_length(
                    source,
                    start,
                    "0x".as_bytes(),
                    ByteClass::HexDigit,
                ),
                TokenKind::String => {
                    if start < source.len() && source[start] == DOUBLE_QUOTE {
                        match end_of_string(source, start + 1) {
                            Some(end) => Some(end - start),
                            None => None,
                        }
                    } else {
                        None
                    }
                },
                TokenKind::StringHex => hex_string_length(source, start),
                TokenKind::Identifier => {
                    if start < source.len() && ByteClass::IdentifierStart.contains(source[start]) {
                        Some(1 + run_length(source, start + 1, ByteClass::IdentifierContinue))
                    } else {
                        None
                    }
                },
                TokenKind::Comment => comment_length(source, start),
                TokenKind::Whitespace => word_and_run_length(
                    source,
                    start,
                    empty.as_slice(),
                    ByteClass::Space,
                ),
                _ => None,
            }
        },
    }
}

/// The kind and the length of the token at `start`, if any kind matches
/// there: of all matches the longest, and of the longest that of the highest
/// priority.
pub fn find_token(source: &[u8], start: usize) -> (r: Option<(TokenKind, usize)>)
    requires
        start <= source.len(),
    ensures
        match r {
            Some((kind, len)) => token_at(source@, start as int) == Some((kind, len as int)) && 0
                < len && start + len <= source.len(),
            None => token_at(source@, start as int) is None,
        },
{
    let mut best: Option<(TokenKind, usize)> = None;
    let mut i: usize = 0;
    while i < KIND_COUNT
        invariant
            i <= KIND_COUNT,
            start <= source.len(),
            match best {
                Some((kind, len)) => best_match(source@, start as int, i as int) == Some(
                    (kind, len as int),
                ) && 0 < len && start + len <= source.len(),
                None => best_match(source@, start as int, i as int) is None,
            },
        decreases KIND_COUNT - i,
    {
        let kind = match TokenKind::from_index(i) {
            Some(kind) => kind,
            None => TokenKind::Whitespace,
        };
        match match_length(kind, source, start) {
            None => {},
            Some(len) => {
                let better = match best {
                    None => true,
                    Some((best_kind, best_len)) => len > best_len || (len == best_len
                        && priority_of(kind) > priority_of(best_kind)),
                };
                if better {
                    best = Some((kind, len));
                }
            },
        }
        i += 1;
    }
    proof {
        reveal(token_at);
    }
    best
}

/// The priority of a kind among matches of one length.
pub fn priority_of(kind: TokenKind) -> (priority: u8)
    ensures
        priority == kind.priority(),
{
    match kind {
        TokenKind::Object => 12,
        TokenKind::Code => 8,
        TokenKind::Function => 16,
        TokenKind::Let => 6,
        TokenKind::If => 4,
        TokenKind::Switch => 12,
        TokenKind::Case => 8,
        TokenKind::Default => 14,
        TokenKind::For => 6,
        TokenKind::Break => 10,
        TokenKind::Continue => 16,
        TokenKind::Leave => 10,
        TokenKind::Bool => 8,
        TokenKind::Int => 8,
        TokenKind::Uint => 10,
        TokenKind::Assignment => 4,
        TokenKind::Arrow => 4,
        TokenKind::BracketCurlyLeft => 2,
        TokenKind::BracketCurlyRight => 2,
        TokenKind::ParenthesisLeft => 2,
        TokenKind::ParenthesisRight => 2,
        TokenKind::Comma => 2,
        TokenKind::Colon => 2,
        TokenKind::True => 8,
        TokenKind::False => 10,
        TokenKind::Decimal => 2,
        TokenKind::Hexadecimal => 6,
        TokenKind::String => 4,
        TokenKind::StringHex => 10,
        TokenKind::Identifier => 2,
        TokenKind::Comment => 4,
        TokenKind::Whitespace => 2,
    }
}

/// The length of what is left out where no kind matches at `start`.
pub fn error_length(source: &[u8], start: usize) -> (n: usize)
    requires
        start < source.len(),
    ensures
        n == error_len(source@, start as int),
        0 < n && start + n <= source.len(),
{
    1 + run_length(source, start + 1, ByteClass::Continuation)
}

} // verus!
