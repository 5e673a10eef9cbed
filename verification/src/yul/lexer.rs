//! The lexer: from the text of a program to its tokens.
//!
//! The tokens follow one another without gap from the first byte of the text
//! to its last, so that their texts side by side are the text. At each place
//! the longest match wins, and of the longest that of the highest priority.
//! Where no kind matches, one character is left out as an error, and the
//! lexer goes on behind it.

pub mod patterns;
pub mod rules;
pub mod token_kind;

use vstd::prelude::*;
use vstd::string::*;
use vstd::utf8::*;
use crate::yul::lexer::rules::{
    best_match, error_len, error_length, find_token, has_word_at, lemma_block_comment_end,
    lemma_run_len_members, lemma_run_len_stops, lemma_string_end, lexeme_len, match_len, run_len,
    token_at, word_and_run, ByteClass, LINE_FEED,
};
use crate::yul::lexer::token_kind::{lemma_spelling_is_ascii, TokenKind, KIND_COUNT};

verus! {

/// The mark of a place where no kind of token matches.
#[derive(Debug, Clone, Copy, PartialEq, Eq, Structural)]
pub struct LexError;

/// A range of the text, in bytes: from `start` up to `end`, which it does
/// not hold.
#[derive(Debug, Clone, Copy, PartialEq, Eq, Hash, Structural)]
pub struct TextRange {
    pub start: usize,
    pub end: usize,
}

impl TextRange {
    /// The range from `start` up to `end`.
    pub fn new(start: usize, end: usize) -> (range: Self)
        requires
            start <= end,
        ensures
            range.start == start,
            range.end == end,
    {
        Self { start, end }
    }

    /// The first byte of the range.
    pub fn start(&self) -> (start: usize)
        ensures
            start == self.start,
    {
        self.start
    }

    /// The byte behind the range.
    pub fn end(&self) -> (end: usize)
        ensures
            end == self.end,
    {
        self.end
    }

    /// The length of the range, which is nothing where the end lies before
    /// the start.
    pub fn len(&self) -> (len: usize)
        ensures
            len == if self.start <= self.end {
                self.end - self.start
            } else {
                0
            },
    {
        if self.start <= self.end {
            self.end - self.start
        } else {
            0
        }
    }
}

/// A token: its kind, or the mark of an error; its text; and where it
/// stands.
#[derive(Debug, PartialEq)]
pub struct Token<'a> {
    pub kind: Result<TokenKind, LexError>,
    pub text: &'a str,
    pub range: TextRange,
}

/// The kind of the token at `start`, or the mark of an error where no kind
/// matches there.
pub open spec fn lexeme_kind(bytes: Seq<u8>, start: int) -> Result<TokenKind, LexError> {
    match token_at(bytes, start) {
        Some((kind, _)) => Ok(kind),
        None => Err(LexError),
    }
}

impl<'a> Token<'a> {
    /// Whether the token is what the text has at `start`: the kind, the
    /// length and the bytes.
    pub open spec fn is_lexeme_at(&self, bytes: Seq<u8>, start: int) -> bool {
        &&& 0 <= start < bytes.len()
        &&& self.range.start == start
        &&& self.range.start < self.range.end
        &&& self.range.end == start + lexeme_len(bytes, start)
        &&& self.range.end <= bytes.len()
        &&& self.kind == lexeme_kind(bytes, start)
        &&& self.text.spec_bytes() == bytes.subrange(start, self.range.end as int)
    }
}

/// The lexer: a text and the place in it up to which tokens were handed
/// out.
pub struct Lexer<'a> {
    source: &'a str,
    position: usize,
}

proof fn lemma_boundary_behind_ascii(bytes: Seq<u8>, i: int)
    requires
        valid_utf8(bytes),
        0 <= i < bytes.len(),
        bytes[i] < 0x80,
    ensures
        is_char_boundary(bytes, i + 1),
{
    is_char_boundary_iff_not_is_continuation_byte(bytes, i);
    valid_utf8_split(bytes, i);
    let suffix = bytes.subrange(i, bytes.len() as int);
    assert(suffix[0] == bytes[i]);
    assert(valid_first_scalar(suffix) && valid_utf8(pop_first_scalar(suffix)));
    assert(length_of_first_scalar(suffix) == 1);
    let rest = pop_first_scalar(suffix);
    if i + 1 < bytes.len() {
        assert(rest[0] == bytes[i + 1]);
        assert(valid_first_scalar(rest));
        is_char_boundary_iff_not_is_continuation_byte(bytes, i + 1);
    } else {
        is_char_boundary_start_end_of_seq(bytes);
    }
}

proof fn lemma_boundary_before_other(bytes: Seq<u8>, i: int)
    requires
        valid_utf8(bytes),
        0 <= i <= bytes.len(),
        i < bytes.len() ==> !ByteClass::Continuation.holds(bytes[i]),
    ensures
        is_char_boundary(bytes, i),
{
    if i < bytes.len() {
        is_char_boundary_iff_not_is_continuation_byte(bytes, i);
    } else {
        is_char_boundary_start_end_of_seq(bytes);
    }
}

proof fn lemma_word_and_run_ends_in_class(s: Seq<u8>, start: int, word: Seq<u8>, class: ByteClass)
    requires
        word_and_run(s, start, word, class) is Some,
    ensures
        0 < word_and_run(s, start, word, class)->0 <= s.len() - start,
        class.holds(s[start + word_and_run(s, start, word, class)->0 - 1]),
{
    let from = start + word.len();
    lemma_run_len_stops(s, from, class);
    lemma_run_len_members(s, from, class, from + run_len(s, from, class) - 1);
}

/// A match ends where a character ends.
proof fn lemma_match_ends_at_boundary(kind: TokenKind, bytes: Seq<u8>, start: int)
    requires
        valid_utf8(bytes),
        0 <= start < bytes.len(),
        match_len(kind, bytes, start) is Some,
    ensures
        0 < match_len(kind, bytes, start)->0 <= bytes.len() - start,
        is_char_boundary(bytes, start + match_len(kind, bytes, start)->0),
{
    let n = match_len(kind, bytes, start)->0;
    match kind.spelling() {
        Some(word) => {
            lemma_spelling_is_ascii(kind);
            is_ascii_chars_encode_utf8(word);
            let last = word.len() - 1;
            assert(bytes.subrange(start, start + n)[last] == encode_utf8(word)[last]);
            assert(word[last] as u8 == encode_utf8(word)[last]);
            lemma_boundary_behind_ascii(bytes, start + n - 1);
        },
        None => {
            match kind {
                TokenKind::Int => {
                    lemma_word_and_run_ends_in_class(
                        bytes,
                        start,
                        encode_utf8("int"@),
                        ByteClass::Digit,
                    );
                    lemma_boundary_behind_ascii(bytes, start + n - 1);
                },
                TokenKind::Uint => {
                    lemma_word_and_run_ends_in_class(
                        bytes,
                        start,
                        encode_utf8("uint"@),
                        ByteClass::Digit,
                    );
                    lemma_boundary_behind_ascii(bytes, start + n - 1);
                },
                TokenKind::Decimal => {
                    lemma_word_and_run_ends_in_class(
                        bytes,
                        start,
                        Seq::empty(),
                        ByteClass::Digit,
                    );
                    lemma_boundary_behind_ascii(bytes, start + n - 1);
                },
                TokenKind::Hexadecimal => {
                    lemma_word_and_run_ends_in_class(
                        bytes,
                        start,
                        encode_utf8("0x"@),
                        ByteClass::HexDigit,
                    );
                    lemma_boundary_behind_ascii(bytes, start + n - 1);
                },
                TokenKind::Whitespace => {
                    lemma_word_and_run_ends_in_class(
                        bytes,
                        start,
                        Seq::empty(),
                        ByteClass::Space,
                    );
                    lemma_boundary_behind_ascii(bytes, start + n - 1);
                },
                TokenKind::String => {
                    lemma_string_end(bytes, start + 1);
                    lemma_boundary_behind_ascii(bytes, start + n - 1);
                },
                TokenKind::StringHex => {
                    let open = start + encode_utf8("hex"@).len();
                    lemma_run_len_stops(bytes, open + 1, ByteClass::HexDigit);
                    lemma_boundary_behind_ascii(bytes, start + n - 1);
                },
                TokenKind::Identifier => {
                    let run = run_len(bytes, start + 1, ByteClass::IdentifierContinue);
                    lemma_run_len_stops(bytes, start + 1, ByteClass::IdentifierContinue);
                    if run > 0 {
                        lemma_run_len_members(
                            bytes,
                            start + 1,
                            ByteClass::IdentifierContinue,
                            start + run,
                        );
                    }
                    lemma_boundary_behind_ascii(bytes, start + n - 1);
                },
                TokenKind::Comment => {
                    let line = encode_utf8("//"@);
                    let block = encode_utf8("/*"@);
                    if line.len() > 0 && has_word_at(bytes, start, line) {
                        lemma_run_len_stops(bytes, start + line.len(), ByteClass::NotNewline);
                        if start + n < bytes.len() || bytes[start + n - 1] == LINE_FEED {
                            lemma_boundary_behind_ascii(bytes, start + n - 1);
                        } else {
                            lemma_boundary_before_other(bytes, start + n);
                        }
                    } else {
                        lemma_block_comment_end(bytes, start + block.len());
                        lemma_boundary_behind_ascii(bytes, start + n - 1);
                    }
                },
                _ => {},
            }
        },
    }
}

/// The best match is a match of its kind.
proof fn lemma_best_match_is_match(s: Seq<u8>, start: int, count: int)
    requires
        best_match(s, start, count) is Some,
    ensures
        ({
            let (kind, len) = best_match(s, start, count)->Some_0;
            match_len(kind, s, start) == Some(len)
        }),
    decreases count,
{
    if count > 0 {
        if best_match(s, start, count) != best_match(s, start, count - 1) {
        } else {
            lemma_best_match_is_match(s, start, count - 1);
        }
    }
}

proof fn lemma_best_match_beats(s: Seq<u8>, start: int, count: int, index: int)
    requires
        0 <= index < count,
    ensures
        match best_match(s, start, count) {
            Some((best, len)) => match_len(TokenKind::at(index), s, start) matches Some(n) ==> n
                < len || (n == len && TokenKind::at(index).priority() <= best.priority()),
            None => match_len(TokenKind::at(index), s, start) is None,
        },
    decreases count,
{
    if index < count - 1 {
        lemma_best_match_beats(s, start, count - 1, index);
    }
}

/// Of all the matches at a place the token is the longest, and of the
/// longest that of the highest priority; where there is no token, no kind
/// matches.
pub proof fn lemma_token_is_best_match(s: Seq<u8>, start: int, kind: TokenKind)
    ensures
        match token_at(s, start) {
            Some((best, len)) => match_len(best, s, start) == Some(len) && (match_len(
                kind,
                s,
                start,
            ) matches Some(n) ==> n < len || (n == len && kind.priority() <= best.priority())),
            None => match_len(kind, s, start) is None,
        },
{
    reveal(token_at);
    let count = KIND_COUNT as int;
    assert(TokenKind::at(kind.spec_index()) == kind);
    lemma_best_match_beats(s, start, count, kind.spec_index());
    if token_at(s, start) is Some {
        lemma_best_match_is_match(s, start, count);
    }
}

/// What the text has at a place where a character begins ends where a
/// character ends, and is not empty.
proof fn lemma_lexeme_ends_at_boundary(bytes: Seq<u8>, start: int)
    requires
        valid_utf8(bytes),
        0 <= start < bytes.len(),
    ensures
        0 < lexeme_len(bytes, start) <= bytes.len() - start,
        is_char_boundary(bytes, start + lexeme_len(bytes, start)),
{
    reveal(token_at);
    match token_at(bytes, start) {
        Some((kind, len)) => {
            lemma_best_match_is_match(bytes, start, KIND_COUNT as int);
            lemma_match_ends_at_boundary(kind, bytes, start);
        },
        None => {
            lemma_run_len_stops(bytes, start + 1, ByteClass::Continuation);
            lemma_boundary_before_other(bytes, start + error_len(bytes, start));
        },
    }
}

impl<'a> Lexer<'a> {
    #[verifier::type_invariant]
    spec fn well_formed(self) -> bool {
        self.position <= self.source.spec_bytes().len() && is_char_boundary(
            self.source.spec_bytes(),
            self.position as int,
        )
    }

    /// The bytes of the text.
    pub closed spec fn bytes(&self) -> Seq<u8> {
        self.source.spec_bytes()
    }

    /// The place up to which tokens were handed out.
    pub closed spec fn position(&self) -> int {
        self.position as int
    }

    /// A lexer at the start of `input`.
    pub fn new(input: &'a str) -> (lexer: Self)
        ensures
            lexer.bytes() == input.spec_bytes(),
            lexer.position() == 0,
    {
        proof {
            encode_utf8_valid_utf8(input@);
            is_char_boundary_start_end_of_seq(input.spec_bytes());
        }
        Self { source: input, position: 0 }
    }

    /// The next token, if the text goes on: what the text has at the place
    /// of the lexer, which then stands behind it.
    pub fn next(&mut self) -> (token: Option<Token<'a>>)
        ensures
            final(self).bytes() == old(self).bytes(),
            match token {
                Some(token) => token.is_lexeme_at(old(self).bytes(), old(self).position())
                    && final(self).position() == token.range.end,
                None => old(self).position() >= old(self).bytes().len() && final(self).position()
                    == old(self).position(),
            },
    {
        proof {
            use_type_invariant(&*self);
        }
        let source: &'a str = self.source;
        let bytes = source.as_bytes();
        let start = self.position;
        if start >= bytes.len() {
            return None;
        }
        proof {
            encode_utf8_valid_utf8(source@);
            lemma_lexeme_ends_at_boundary(bytes@, start as int);
        }
        let (kind, len) = match find_token(bytes, start) {
            Some((kind, len)) => (Ok(kind), len),
            None => (Err(LexError), error_length(bytes, start)),
        };
        let end = start + len;
        let (head, _) = source.split_at(end);
        proof {
            valid_utf8_split(bytes@, end as int);
            if start > 0 {
                is_char_boundary_iff_not_is_continuation_byte(bytes@, start as int);
                is_char_boundary_iff_not_is_continuation_byte(head.spec_bytes(), start as int);
            }
        }
        let (_, text) = head.split_at(start);
        assert(text.spec_bytes() =~= bytes@.subrange(start as int, end as int));
        self.position = end;
        Some(Token { kind, text, range: TextRange { start, end } })
    }
}

/// The place behind the first `n` of `tokens`.
pub open spec fn end_of_tokens(tokens: Seq<Token>, n: int) -> int {
    if n <= 0 {
        0
    } else {
        tokens[n - 1].range.end as int
    }
}

/// Whether the token at `i` is what the text has where the token before
/// it ends, or at the start of the text where it is the first.
pub open spec fn is_token_of(tokens: Seq<Token>, bytes: Seq<u8>, i: int) -> bool {
    tokens[i].is_lexeme_at(bytes, end_of_tokens(tokens, i))
}

/// Whether `tokens` are the tokens of the text with the given bytes: each
/// is what the text has where the one before it ends, the first at the start
/// of the text, and the last ends where the text ends.
pub open spec fn is_lexing_of(tokens: Seq<Token>, bytes: Seq<u8>) -> bool {
    &&& forall|i: int| 0 <= i < tokens.len() ==> #[trigger] is_token_of(tokens, bytes, i)
    &&& end_of_tokens(tokens, tokens.len() as int) == bytes.len()
}

/// The texts of the tokens, side by side.
pub open spec fn texts_of(tokens: Seq<Token>) -> Seq<u8>
    decreases tokens.len(),
{
    if tokens.len() == 0 {
        Seq::empty()
    } else {
        texts_of(tokens.drop_last()) + tokens.last().text.spec_bytes()
    }
}

proof fn lemma_texts_of_prefix(tokens: Seq<Token>, bytes: Seq<u8>, n: int)
    requires
        is_lexing_of(tokens, bytes),
        0 <= n <= tokens.len(),
    ensures
        0 <= end_of_tokens(tokens, n) <= bytes.len(),
        texts_of(tokens.take(n)) == bytes.subrange(0, end_of_tokens(tokens, n)),
    decreases n,
{
    if n > 0 {
        lemma_texts_of_prefix(tokens, bytes, n - 1);
        assert(tokens.take(n).drop_last() == tokens.take(n - 1));
        assert(tokens.take(n).last() == tokens[n - 1]);
        assert(is_token_of(tokens, bytes, n - 1));
        assert(texts_of(tokens.take(n)) =~= bytes.subrange(0, end_of_tokens(tokens, n)));
    } else {
        assert(texts_of(tokens.take(n)) =~= bytes.subrange(0, 0));
    }
}

/// The texts of the tokens of a text, side by side, are the text: errors
/// and trivia included, nothing is lost and nothing is added.
pub proof fn lemma_tokens_cover_text(tokens: Seq<Token>, bytes: Seq<u8>)
    requires
        is_lexing_of(tokens, bytes),
    ensures
        texts_of(tokens) == bytes,
{
    lemma_texts_of_prefix(tokens, bytes, tokens.len() as int);
    assert(tokens.take(tokens.len() as int) == tokens);
    assert(bytes.subrange(0, bytes.len() as int) == bytes);
}

/// The tokens of a text are determined by the text: any two lexings of it
/// agree token by token in kind and range.
pub proof fn lemma_lexing_is_unique(first: Seq<Token>, second: Seq<Token>, bytes: Seq<u8>, n: int)
    requires
        is_lexing_of(first, bytes),
        is_lexing_of(second, bytes),
        0 <= n <= first.len(),
    ensures
        n <= second.len(),
        n == first.len() ==> second.len() == n,
        forall|i: int|
            0 <= i < n ==> first[i].kind == second[i].kind && first[i].range == second[i].range
                && first[i].text.spec_bytes() == second[i].text.spec_bytes(),
    decreases first.len() - n,
{
    lemma_lexing_is_unique_up_to(first, second, bytes, n);
    if n == first.len() && second.len() > n {
        assert(is_token_of(second, bytes, n));
    }
}

proof fn lemma_lexing_is_unique_up_to(first: Seq<Token>, second: Seq<Token>, bytes: Seq<u8>, n: int)
    requires
        is_lexing_of(first, bytes),
        is_lexing_of(second, bytes),
        0 <= n <= first.len(),
    ensures
        n <= second.len(),
        end_of_tokens(first, n) == end_of_tokens(second, n),
        forall|i: int|
            0 <= i < n ==> first[i].kind == second[i].kind && first[i].range == second[i].range
                && first[i].text.spec_bytes() == second[i].text.spec_bytes(),
    decreases n,
{
    if n > 0 {
        lemma_lexing_is_unique_up_to(first, second, bytes, n - 1);
        assert(is_token_of(first, bytes, n - 1));
        if second.len() <= n - 1 {
            assert(end_of_tokens(second, second.len() as int) == bytes.len());
        } else {
            assert(is_token_of(second, bytes, n - 1));
        }
    }
}

/// The tokens of a text, from its first byte to its last.
pub fn tokenize<'a>(input: &'a str) -> (tokens: Vec<Token<'a>>)
    ensures
        is_lexing_of(tokens@, input.spec_bytes()),
{
    let mut lexer = Lexer::new(input);
    let mut tokens: Vec<Token<'a>> = Vec::new();
    let ghost bytes = input.spec_bytes();
    loop
        invariant
            lexer.bytes() == bytes,
            bytes == input.spec_bytes(),
            lexer.position() == end_of_tokens(tokens@, tokens.len() as int),
            lexer.position() <= bytes.len(),
            forall|i: int| 0 <= i < tokens.len() ==> #[trigger] is_token_of(tokens@, bytes, i),
        ensures
            is_lexing_of(tokens@, bytes),
        decreases bytes.len() - lexer.position(),
    {
        let ghost before = tokens@;
        match lexer.next() {
            Some(token) => {
                tokens.push(token);
                assert forall|i: int| 0 <= i < tokens.len() implies #[trigger] is_token_of(
                    tokens@,
                    bytes,
                    i,
                ) by {
                    if i < before.len() {
                        assert(is_token_of(before, bytes, i));
                        assert(tokens@[i] == before[i]);
                        assert(end_of_tokens(tokens@, i) == end_of_tokens(before, i));
                    }
                }
            },
            None => {
                break ;
            },
        }
    }
    tokens
}

} // verus!
