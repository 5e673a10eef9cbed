//! The kinds of token.
//!
//! Where several kinds match at one place, the longer match wins; among
//! matches of one length, the kind of the higher priority.

use vstd::prelude::*;
use vstd::utf8::is_ascii_chars;
use crate::codegen::grammar::ast_src::{
    contextual_keyword_table, punctuation_table, terminal_class, TerminalClass,
};
use crate::text::{char_is_alphabetic, is_ascii_letter};

verus! {

/// The kind of a token.
#[derive(Debug, Clone, Copy, PartialEq, Eq, PartialOrd, Ord, Hash, Structural)]
pub enum TokenKind {
    /// The `object` keyword. Priority: 12.
    Object,
    /// The `code` keyword. Priority: 8.
    Code,
    /// The `function` keyword. Priority: 16.
    Function,
    /// The `let` keyword. Priority: 6.
    Let,
    /// The `if` keyword. Priority: 4.
    If,
    /// The `switch` keyword. Priority: 12.
    Switch,
    /// The `case` keyword. Priority: 8.
    Case,
    /// The `default` keyword. Priority: 14.
    Default,
    /// The `for` keyword. Priority: 6.
    For,
    /// The `break` keyword. Priority: 10.
    Break,
    /// The `continue` keyword. Priority: 16.
    Continue,
    /// The `leave` keyword. Priority: 10.
    Leave,
    /// The `bool` keyword. Priority: 8.
    Bool,
    /// The `int{N}` keyword: `int` and decimal digits. Priority: 8.
    Int,
    /// The `uint{N}` keyword: `uint` and decimal digits. Priority: 10.
    Uint,
    /// The `:=` symbol. Priority: 4.
    Assignment,
    /// The `->` symbol. Priority: 4.
    Arrow,
    /// The `{` symbol. Priority: 2.
    BracketCurlyLeft,
    /// The `}` symbol. Priority: 2.
    BracketCurlyRight,
    /// The `(` symbol. Priority: 2.
    ParenthesisLeft,
    /// The `)` symbol. Priority: 2.
    ParenthesisRight,
    /// The `,` symbol. Priority: 2.
    Comma,
    /// The `:` symbol. Priority: 2.
    Colon,
    /// The `true` literal. Priority: 8.
    True,
    /// The `false` literal. Priority: 10.
    False,
    /// An integer literal, like `42`. Priority: 2.
    Decimal,
    /// A hexadecimal literal, like `0xffff`. Priority: 6.
    Hexadecimal,
    /// A string literal between double quotes. Priority: 4.
    String,
    /// A hex string literal, like `hex"00ff"`. Priority: 10.
    StringHex,
    /// An identifier. Priority: 2.
    Identifier,
    /// A comment, to the end of the line or between `/*` and `*/`. Priority: 4.
    Comment,
    /// A run of white space. Priority: 2.
    Whitespace,
}

/// How many kinds of token there are.
pub const KIND_COUNT: usize = 32;

impl TokenKind {
    /// Whether the kind is a keyword.
    pub open spec fn spec_is_keyword(self) -> bool {
        self == TokenKind::Object
            || self == TokenKind::Code
            || self == TokenKind::Function
            || self == TokenKind::Let
            || self == TokenKind::If
            || self == TokenKind::Switch
            || self == TokenKind::Case
            || self == TokenKind::Default
            || self == TokenKind::For
            || self == TokenKind::Break
            || self == TokenKind::Continue
            || self == TokenKind::Leave
            || self == TokenKind::Bool
            || self == TokenKind::Int
            || self == TokenKind::Uint
    }

    /// Whether the kind is a symbol.
    pub open spec fn spec_is_symbol(self) -> bool {
        self == TokenKind::Assignment
            || self == TokenKind::Arrow
            || self == TokenKind::BracketCurlyLeft
            || self == TokenKind::BracketCurlyRight
            || self == TokenKind::ParenthesisLeft
            || self == TokenKind::ParenthesisRight
            || self == TokenKind::Comma
            || self == TokenKind::Colon
    }

    /// Whether the kind is a literal.
    pub open spec fn spec_is_literal(self) -> bool {
        self == TokenKind::True
            || self == TokenKind::False
            || self == TokenKind::Decimal
            || self == TokenKind::Hexadecimal
            || self == TokenKind::String
            || self == TokenKind::StringHex
    }

    /// Whether the kind is the identifier.
    pub open spec fn spec_is_identifier(self) -> bool {
        self == TokenKind::Identifier
    }

    /// Whether the kind is white space or a comment.
    pub open spec fn spec_is_trivia(self) -> bool {
        self == TokenKind::Comment
            || self == TokenKind::Whitespace
    }

    /// The priority of the kind among matches of one length.
    pub open spec fn priority(self) -> nat {
        match self {
            TokenKind::Object => 12,
            TokenKind::Code => 8,
            TokenKind::Function => 16,
            TokenKind::Let => 6,
            TokenKind::If => 4,
            TokenKind::Switch => 12,
            TokenKind::Case => 8,
            TokenKind::Default => 14,
            TokenKind::For => 6,
            TokenKind::Break => 10,
            TokenKind::Continue => 16,
            TokenKind::Leave => 10,
            TokenKind::Bool => 8,
            TokenKind::Int => 8,
            TokenKind::Uint => 10,
            TokenKind::Assignment => 4,
            TokenKind::Arrow => 4,
            TokenKind::BracketCurlyLeft => 2,
            TokenKind::BracketCurlyRight => 2,
            TokenKind::ParenthesisLeft => 2,
            TokenKind::ParenthesisRight => 2,
            TokenKind::Comma => 2,
            TokenKind::Colon => 2,
            TokenKind::True => 8,
            TokenKind::False => 10,
            TokenKind::Decimal => 2,
            TokenKind::Hexadecimal => 6,
            TokenKind::String => 4,
            TokenKind::StringHex => 10,
            TokenKind::Identifier => 2,
            TokenKind::Comment => 4,
            TokenKind::Whitespace => 2,
        }
    }

    /// The spelling of a kind that has exactly one.
    pub open spec fn spelling(self) -> Option<Seq<char>> {
        match self {
            TokenKind::Object => Some("object"@),
            TokenKind::Code => Some("code"@),
            TokenKind::Function => Some("function"@),
            TokenKind::Let => Some("let"@),
            TokenKind::If => Some("if"@),
            TokenKind::Switch => Some("switch"@),
            TokenKind::Case => Some("case"@),
            TokenKind::Default => Some("default"@),
            TokenKind::For => Some("for"@),
            TokenKind::Break => Some("break"@),
            TokenKind::Continue => Some("continue"@),
            TokenKind::Leave => Some("leave"@),
            TokenKind::Bool => Some("bool"@),
            TokenKind::Assignment => Some(":="@),
            TokenKind::Arrow => Some("->"@),
            TokenKind::BracketCurlyLeft => Some("{"@),
            TokenKind::BracketCurlyRight => Some("}"@),
            TokenKind::ParenthesisLeft => Some("("@),
            TokenKind::ParenthesisRight => Some(")"@),
            TokenKind::Comma => Some(","@),
            TokenKind::Colon => Some(":"@),
            TokenKind::True => Some("true"@),
            TokenKind::False => Some("false"@),
            _ => None,
        }
    }

    /// The kind at the given place in the order of the kinds.
    pub open spec fn at(index: int) -> TokenKind {
        if index == 0 {
            TokenKind::Object
        }
        else if index == 1 {
            TokenKind::Code
        }
        else if index == 2 {
            TokenKind::Function
        }
        else if index == 3 {
            TokenKind::Let
        }
        else if index == 4 {
            TokenKind::If
        }
        else if index == 5 {
            TokenKind::Switch
        }
        else if index == 6 {
            TokenKind::Case
        }
        else if index == 7 {
            TokenKind::Default
        }
        else if index == 8 {
            TokenKind::For
        }
        else if index == 9 {
            TokenKind::Break
        }
        else if index == 10 {
            TokenKind::Continue
        }
        else if index == 11 {
            TokenKind::Leave
        }
        else if index == 12 {
            TokenKind::Bool
        }
        else if index == 13 {
            TokenKind::Int
        }
        else if index == 14 {
            TokenKind::Uint
        }
        else if index == 15 {
            TokenKind::Assignment
        }
        else if index == 16 {
            TokenKind::Arrow
        }
        else if index == 17 {
            TokenKind::BracketCurlyLeft
        }
        else if index == 18 {
            TokenKind::BracketCurlyRight
        }
        else if index == 19 {
            TokenKind::ParenthesisLeft
        }
        else if index == 20 {
            TokenKind::ParenthesisRight
        }
        else if index == 21 {
            TokenKind::Comma
        }
        else if index == 22 {
            TokenKind::Colon
        }
        else if index == 23 {
            TokenKind::True
        }
        else if index == 24 {
            TokenKind::False
        }
        else if index == 25 {
            TokenKind::Decimal
        }
        else if index == 26 {
            TokenKind::Hexadecimal
        }
        else if index == 27 {
            TokenKind::String
        }
        else if index == 28 {
            TokenKind::StringHex
        }
        else if index == 29 {
            TokenKind::Identifier
        }
        else if index == 30 {
            TokenKind::Comment
        }
        else {
            TokenKind::Whitespace
        }
    }

    /// The place of the kind in the order of the kinds.
    pub open spec fn spec_index(self) -> int {
        match self {
            TokenKind::Object => 0,
            TokenKind::Code => 1,
            TokenKind::Function => 2,
            TokenKind::Let => 3,
            TokenKind::If => 4,
            TokenKind::Switch => 5,
            TokenKind::Case => 6,
            TokenKind::Default => 7,
            TokenKind::For => 8,
            TokenKind::Break => 9,
            TokenKind::Continue => 10,
            TokenKind::Leave => 11,
            TokenKind::Bool => 12,
            TokenKind::Int => 13,
            TokenKind::Uint => 14,
            TokenKind::Assignment => 15,
            TokenKind::Arrow => 16,
            TokenKind::BracketCurlyLeft => 17,
            TokenKind::BracketCurlyRight => 18,
            TokenKind::ParenthesisLeft => 19,
            TokenKind::ParenthesisRight => 20,
            TokenKind::Comma => 21,
            TokenKind::Colon => 22,
            TokenKind::True => 23,
            TokenKind::False => 24,
            TokenKind::Decimal => 25,
            TokenKind::Hexadecimal => 26,
            TokenKind::String => 27,
            TokenKind::StringHex => 28,
            TokenKind::Identifier => 29,
            TokenKind::Comment => 30,
            TokenKind::Whitespace => 31,
        }
    }

    /// Whether the kind is a keyword.
    pub fn is_keyword(&self) -> (r: bool)
        ensures
            r == self.spec_is_keyword(),
    {
        matches!(
            self,
            Self::Object
                | Self::Code
                | Self::Function
                | Self::Let
                | Self::If
                | Self::Switch
                | Self::Case
                | Self::Default
                | Self::For
                | Self::Break
                | Self::Continue
                | Self::Leave
                | Self::Bool
                | Self::Int
                | Self::Uint
        )
    }

    /// Whether the kind is a symbol.
    pub fn is_symbol(&self) -> (r: bool)
        ensures
            r == self.spec_is_symbol(),
    {
        matches!(
            self,
            Self::Assignment
                | Self::Arrow
                | Self::BracketCurlyLeft
                | Self::BracketCurlyRight
                | Self::ParenthesisLeft
                | Self::ParenthesisRight
                | Self::Comma
                | Self::Colon
        )
    }

    /// Whether the kind is a literal.
    pub fn is_literal(&self) -> (r: bool)
        ensures
            r == self.spec_is_literal(),
    {
        matches!(
            self,
            Self::True
                | Self::False
                | Self::Decimal
                | Self::Hexadecimal
                | Self::String
                | Self::StringHex
        )
    }

    /// Whether the kind is the identifier.
    pub fn is_identifier(&self) -> (r: bool)
        ensures
            r == self.spec_is_identifier(),
    {
        matches!(
            self,
            Self::Identifier
        )
    }

    /// Whether the kind is white space or a comment.
    pub fn is_trivia(&self) -> (r: bool)
        ensures
            r == self.spec_is_trivia(),
    {
        matches!(
            self,
            Self::Comment
                | Self::Whitespace
        )
    }

    /// The kind at the given place in the order of the kinds, if the place
    /// is below their number.
    pub fn from_index(index: usize) -> (kind: Option<TokenKind>)
        ensures
            kind == if index < KIND_COUNT {
                Some(TokenKind::at(index as int))
            } else {
                None
            },
    {
        match index {
            0 => Some(TokenKind::Object),
            1 => Some(TokenKind::Code),
            2 => Some(TokenKind::Function),
            3 => Some(TokenKind::Let),
            4 => Some(TokenKind::If),
            5 => Some(TokenKind::Switch),
            6 => Some(TokenKind::Case),
            7 => Some(TokenKind::Default),
            8 => Some(TokenKind::For),
            9 => Some(TokenKind::Break),
            10 => Some(TokenKind::Continue),
            11 => Some(TokenKind::Leave),
            12 => Some(TokenKind::Bool),
            13 => Some(TokenKind::Int),
            14 => Some(TokenKind::Uint),
            15 => Some(TokenKind::Assignment),
            16 => Some(TokenKind::Arrow),
            17 => Some(TokenKind::BracketCurlyLeft),
            18 => Some(TokenKind::BracketCurlyRight),
            19 => Some(TokenKind::ParenthesisLeft),
            20 => Some(TokenKind::ParenthesisRight),
            21 => Some(TokenKind::Comma),
            22 => Some(TokenKind::Colon),
            23 => Some(TokenKind::True),
            24 => Some(TokenKind::False),
            25 => Some(TokenKind::Decimal),
            26 => Some(TokenKind::Hexadecimal),
            27 => Some(TokenKind::String),
            28 => Some(TokenKind::StringHex),
            29 => Some(TokenKind::Identifier),
            30 => Some(TokenKind::Comment),
            31 => Some(TokenKind::Whitespace),
            _ => None,
        }
    }

    /// The place of the kind in the order of the kinds.
    pub fn index(&self) -> (index: usize)
        ensures
            index == self.spec_index(),
            index < KIND_COUNT,
            TokenKind::at(index as int) == *self,
    {
        match self {
            TokenKind::Object => 0,
            TokenKind::Code => 1,
            TokenKind::Function => 2,
            TokenKind::Let => 3,
            TokenKind::If => 4,
            TokenKind::Switch => 5,
            TokenKind::Case => 6,
            TokenKind::Default => 7,
            TokenKind::For => 8,
            TokenKind::Break => 9,
            TokenKind::Continue => 10,
            TokenKind::Leave => 11,
            TokenKind::Bool => 12,
            TokenKind::Int => 13,
            TokenKind::Uint => 14,
            TokenKind::Assignment => 15,
            TokenKind::Arrow => 16,
            TokenKind::BracketCurlyLeft => 17,
            TokenKind::BracketCurlyRight => 18,
            TokenKind::ParenthesisLeft => 19,
            TokenKind::ParenthesisRight => 20,
            TokenKind::Comma => 21,
            TokenKind::Colon => 22,
            TokenKind::True => 23,
            TokenKind::False => 24,
            TokenKind::Decimal => 25,
            TokenKind::Hexadecimal => 26,
            TokenKind::String => 27,
            TokenKind::StringHex => 28,
            TokenKind::Identifier => 29,
            TokenKind::Comment => 30,
            TokenKind::Whitespace => 31,
        }
    }

    /// The spelling of a kind that has exactly one.
    pub fn fixed_spelling(&self) -> (word: Option<&'static str>)
        ensures
            match word {
                Some(word) => self.spelling() == Some(word@),
                None => self.spelling() is None,
            },
    {
        match self {
            TokenKind::Object => Some("object"),
            TokenKind::Code => Some("code"),
            TokenKind::Function => Some("function"),
            TokenKind::Let => Some("let"),
            TokenKind::If => Some("if"),
            TokenKind::Switch => Some("switch"),
            TokenKind::Case => Some("case"),
            TokenKind::Default => Some("default"),
            TokenKind::For => Some("for"),
            TokenKind::Break => Some("break"),
            TokenKind::Continue => Some("continue"),
            TokenKind::Leave => Some("leave"),
            TokenKind::Bool => Some("bool"),
            TokenKind::Assignment => Some(":="),
            TokenKind::Arrow => Some("->"),
            TokenKind::BracketCurlyLeft => Some("{"),
            TokenKind::BracketCurlyRight => Some("}"),
            TokenKind::ParenthesisLeft => Some("("),
            TokenKind::ParenthesisRight => Some(")"),
            TokenKind::Comma => Some(","),
            TokenKind::Colon => Some(":"),
            TokenKind::True => Some("true"),
            TokenKind::False => Some("false"),
            _ => None,
        }
    }
}

/// Whether the first `n` characters of `word` are ASCII.
pub open spec fn is_ascii_prefix(word: Seq<char>, n: int) -> bool
    decreases n,
{
    n <= 0 || ('\0' <= word[n - 1] <= '\u{7f}' && is_ascii_prefix(word, n - 1))
}

/// Characters that are ASCII one by one are ASCII all.
pub proof fn lemma_ascii_prefix(word: Seq<char>, n: int)
    requires
        is_ascii_prefix(word, n),
    ensures
        forall|i: int| 0 <= i < n ==> '\0' <= #[trigger] word[i] <= '\u{7f}',
    decreases n,
{
    if n > 0 {
        lemma_ascii_prefix(word, n - 1);
    }
}

/// Every spelling is made of ASCII characters, at least one.
pub proof fn lemma_spelling_is_ascii(kind: TokenKind)
    ensures
        kind.spelling() matches Some(word) ==> word.len() > 0 && is_ascii_chars(word),
{
    reveal_with_fuel(is_ascii_prefix, 9);
    match kind {
        TokenKind::Object => {
            reveal_strlit("object");
            lemma_ascii_prefix("object"@, 6);
        },
        TokenKind::Code => {
            reveal_strlit("code");
            lemma_ascii_prefix("code"@, 4);
        },
        TokenKind::Function => {
            reveal_strlit("function");
            lemma_ascii_prefix("function"@, 8);
        },
        TokenKind::Let => {
            reveal_strlit("let");
            lemma_ascii_prefix("let"@, 3);
        },
        TokenKind::If => {
            reveal_strlit("if");
            lemma_ascii_prefix("if"@, 2);
        },
        TokenKind::Switch => {
            reveal_strlit("switch");
            lemma_ascii_prefix("switch"@, 6);
        },
        TokenKind::Case => {
            reveal_strlit("case");
            lemma_ascii_prefix("case"@, 4);
        },
        TokenKind::Default => {
            reveal_strlit("default");
            lemma_ascii_prefix("default"@, 7);
        },
        TokenKind::For => {
            reveal_strlit("for");
            lemma_ascii_prefix("for"@, 3);
        },
        TokenKind::Break => {
            reveal_strlit("break");
            lemma_ascii_prefix("break"@, 5);
        },
        TokenKind::Continue => {
            reveal_strlit("continue");
            lemma_ascii_prefix("continue"@, 8);
        },
        TokenKind::Leave => {
            reveal_strlit("leave");
            lemma_ascii_prefix("leave"@, 5);
        },
        TokenKind::Bool => {
            reveal_strlit("bool");
            lemma_ascii_prefix("bool"@, 4);
        },
        TokenKind::Assignment => {
            reveal_strlit(":=");
            lemma_ascii_prefix(":="@, 2);
        },
        TokenKind::Arrow => {
            reveal_strlit("->");
            lemma_ascii_prefix("->"@, 2);
        },
        TokenKind::BracketCurlyLeft => {
            reveal_strlit("{");
            lemma_ascii_prefix("{"@, 1);
        },
        TokenKind::BracketCurlyRight => {
            reveal_strlit("}");
            lemma_ascii_prefix("}"@, 1);
        },
        TokenKind::ParenthesisLeft => {
            reveal_strlit("(");
            lemma_ascii_prefix("("@, 1);
        },
        TokenKind::ParenthesisRight => {
            reveal_strlit(")");
            lemma_ascii_prefix(")"@, 1);
        },
        TokenKind::Comma => {
            reveal_strlit(",");
            lemma_ascii_prefix(","@, 1);
        },
        TokenKind::Colon => {
            reveal_strlit(":");
            lemma_ascii_prefix(":"@, 1);
        },
        TokenKind::True => {
            reveal_strlit("true");
            lemma_ascii_prefix("true"@, 4);
        },
        TokenKind::False => {
            reveal_strlit("false");
            lemma_ascii_prefix("false"@, 5);
        },
        _ => {},
    }
}

/// The symbols of the lexer are the symbols of the punctuation table: a kind
/// is a symbol exactly where the table spells it, and the table spells nothing
/// else.
pub proof fn lemma_symbols_are_the_punctuation(kind: TokenKind)
    ensures
        kind.spec_is_symbol() <==> kind.spelling() is Some && exists|j: int|
            0 <= j < punctuation_table().len() && (#[trigger] punctuation_table()[j]).0
                == kind.spelling()->0,
        forall|j: int|
            0 <= j < punctuation_table().len() ==> exists|symbol: TokenKind|
                symbol.spec_is_symbol() && #[trigger] symbol.spelling() == Some(
                    (#[trigger] punctuation_table()[j]).0,
                ),
{
    let table = punctuation_table();
    assert forall|j: int| 0 <= j < table.len() implies exists|symbol: TokenKind|
        symbol.spec_is_symbol() && #[trigger] symbol.spelling() == Some(
            (#[trigger] table[j]).0,
        ) by {
        let symbol = TokenKind::at(j + TokenKind::Assignment.spec_index());
        assert(symbol.spec_is_symbol() && symbol.spelling() == Some(table[j].0));
    }
    reveal_strlit(":=");
    reveal_strlit("->");
    reveal_strlit("{");
    reveal_strlit("}");
    reveal_strlit("(");
    reveal_strlit(")");
    reveal_strlit(",");
    reveal_strlit(":");
    assert(table[0].0[0] == ':' && table[1].0[0] == '-' && table[2].0[0] == '{' && table[3].0[0]
        == '}');
    assert(table[4].0[0] == '(' && table[5].0[0] == ')' && table[6].0[0] == ',' && table[7].0[0]
        == ':');
    match kind {
        TokenKind::Assignment => {
            assert(table[0].0 == kind.spelling()->0);
        },
        TokenKind::Arrow => {
            assert(table[1].0 == kind.spelling()->0);
        },
        TokenKind::BracketCurlyLeft => {
            assert(table[2].0 == kind.spelling()->0);
        },
        TokenKind::BracketCurlyRight => {
            assert(table[3].0 == kind.spelling()->0);
        },
        TokenKind::ParenthesisLeft => {
            assert(table[4].0 == kind.spelling()->0);
        },
        TokenKind::ParenthesisRight => {
            assert(table[5].0 == kind.spelling()->0);
        },
        TokenKind::Comma => {
            assert(table[6].0 == kind.spelling()->0);
        },
        TokenKind::Colon => {
            assert(table[7].0 == kind.spelling()->0);
        },
        TokenKind::Object => {
            reveal_strlit("object");
            assert("object"@[0] == 'o');
        },
        TokenKind::Code => {
            reveal_strlit("code");
            assert("code"@[0] == 'c');
        },
        TokenKind::Function => {
            reveal_strlit("function");
            assert("function"@[0] == 'f');
        },
        TokenKind::Let => {
            reveal_strlit("let");
            assert("let"@[0] == 'l');
        },
        TokenKind::If => {
            reveal_strlit("if");
            assert("if"@[0] == 'i');
        },
        TokenKind::Switch => {
            reveal_strlit("switch");
            assert("switch"@[0] == 's');
        },
        TokenKind::Case => {
            reveal_strlit("case");
            assert("case"@[0] == 'c');
        },
        TokenKind::Default => {
            reveal_strlit("default");
            assert("default"@[0] == 'd');
        },
        TokenKind::For => {
            reveal_strlit("for");
            assert("for"@[0] == 'f');
        },
        TokenKind::Break => {
            reveal_strlit("break");
            assert("break"@[0] == 'b');
        },
        TokenKind::Continue => {
            reveal_strlit("continue");
            assert("continue"@[0] == 'c');
        },
        TokenKind::Leave => {
            reveal_strlit("leave");
            assert("leave"@[0] == 'l');
        },
        TokenKind::Bool => {
            reveal_strlit("bool");
            assert("bool"@[0] == 'b');
        },
        TokenKind::True => {
            reveal_strlit("true");
            assert("true"@[0] == 't');
        },
        TokenKind::False => {
            reveal_strlit("false");
            assert("false"@[0] == 'f');
        },
        _ => {},
    }
}

/// Whether the first `n` characters of `word` are ASCII letters.
pub open spec fn is_letter_prefix(word: Seq<char>, n: int) -> bool
    decreases n,
{
    n <= 0 || ((word[n - 1] as u32) < 128 && is_ascii_letter(word[n - 1]) && is_letter_prefix(
        word,
        n - 1,
    ))
}

proof fn lemma_letter_prefix(word: Seq<char>, n: int)
    requires
        is_letter_prefix(word, n),
    ensures
        forall|i: int| 0 <= i < n ==> char_is_alphabetic(#[trigger] word[i]),
    decreases n,
{
    if n > 0 {
        lemma_letter_prefix(word, n - 1);
    }
}

/// The keywords that the lexer spells are keywords everywhere to the
/// classification of terminals.
pub proof fn lemma_keywords_are_strict_keywords(kind: TokenKind)
    requires
        kind.spec_is_keyword(),
        kind.spelling() is Some,
    ensures
        terminal_class(kind.spelling()->0) == TerminalClass::StrictKeyword,
{
    reveal_with_fuel(is_letter_prefix, 9);
    reveal_strlit("EOF");
    reveal_strlit("data");
    assert("EOF"@[0] == 'E' && "data"@[0] == 'd' && "data"@.len() == 4);
    let word = kind.spelling()->0;
    match kind {
        TokenKind::Object => {
            reveal_strlit("object");
            lemma_letter_prefix("object"@, 6);
            assert(word[0] == 'o' && word.len() == 6);
        },
        TokenKind::Code => {
            reveal_strlit("code");
            lemma_letter_prefix("code"@, 4);
            assert(word[0] == 'c' && word.len() == 4);
        },
        TokenKind::Function => {
            reveal_strlit("function");
            lemma_letter_prefix("function"@, 8);
            assert(word[0] == 'f' && word.len() == 8);
        },
        TokenKind::Let => {
            reveal_strlit("let");
            lemma_letter_prefix("let"@, 3);
            assert(word[0] == 'l' && word.len() == 3);
        },
        TokenKind::If => {
            reveal_strlit("if");
            lemma_letter_prefix("if"@, 2);
            assert(word[0] == 'i' && word.len() == 2);
        },
        TokenKind::Switch => {
            reveal_strlit("switch");
            lemma_letter_prefix("switch"@, 6);
            assert(word[0] == 's' && word.len() == 6);
        },
        TokenKind::Case => {
            reveal_strlit("case");
            lemma_letter_prefix("case"@, 4);
            assert(word[0] == 'c' && word.len() == 4);
        },
        TokenKind::Default => {
            reveal_strlit("default");
            lemma_letter_prefix("default"@, 7);
            assert(word[0] == 'd' && word.len() == 7);
        },
        TokenKind::For => {
            reveal_strlit("for");
            lemma_letter_prefix("for"@, 3);
            assert(word[0] == 'f' && word.len() == 3);
        },
        TokenKind::Break => {
            reveal_strlit("break");
            lemma_letter_prefix("break"@, 5);
            assert(word[0] == 'b' && word.len() == 5);
        },
        TokenKind::Continue => {
            reveal_strlit("continue");
            lemma_letter_prefix("continue"@, 8);
            assert(word[0] == 'c' && word.len() == 8);
        },
        TokenKind::Leave => {
            reveal_strlit("leave");
            lemma_letter_prefix("leave"@, 5);
            assert(word[0] == 'l' && word.len() == 5);
        },
        TokenKind::Bool => {
            reveal_strlit("bool");
            lemma_letter_prefix("bool"@, 4);
            assert(word[0] == 'b' && word.len() == 4);
        },
        _ => {},
    }
    assert(!contextual_keyword_table().contains(word)) by {
        assert(contextual_keyword_table()[0] == "data"@);
    }
}

} // verus!
