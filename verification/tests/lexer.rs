use logos_codegen::mir::Mir;
use qi_compiler::yul::lexer::rules::{find_token, match_length, priority_of, ByteClass};
use qi_compiler::yul::lexer::token_kind::{TokenKind, KIND_COUNT};
use qi_compiler::yul::lexer::{tokenize, LexError, Lexer, TextRange, Token};
use regex_syntax::escape;

fn kinds_of(text: &str) -> Vec<Result<TokenKind, LexError>> {
    tokenize(text).into_iter().map(|token| token.kind).collect()
}

fn token(kind: TokenKind, text: &str, start: usize) -> Token<'_> {
    Token { kind: Ok(kind), text, range: TextRange::new(start, start + text.len()) }
}

#[test]
fn test_token_kind_priority() {
    let all = vec![
        (TokenKind::Object, Mir::utf8(&escape("object"))),
        (TokenKind::Code, Mir::utf8(&escape("code"))),
        (TokenKind::Function, Mir::utf8(&escape("function"))),
        (TokenKind::Let, Mir::utf8(&escape("let"))),
        (TokenKind::If, Mir::utf8(&escape("if"))),
        (TokenKind::Switch, Mir::utf8(&escape("switch"))),
        (TokenKind::Case, Mir::utf8(&escape("case"))),
        (TokenKind::Default, Mir::utf8(&escape("default"))),
        (TokenKind::For, Mir::utf8(&escape("for"))),
        (TokenKind::Break, Mir::utf8(&escape("break"))),
        (TokenKind::Continue, Mir::utf8(&escape("continue"))),
        (TokenKind::Leave, Mir::utf8(&escape("leave"))),
        (TokenKind::Bool, Mir::utf8(&escape("bool"))),
        (TokenKind::Int, Mir::utf8(r"int[[:digit:]]+")),
        (TokenKind::Uint, Mir::utf8(r"uint[[:digit:]]+")),
        (TokenKind::Assignment, Mir::utf8(&escape(":="))),
        (TokenKind::Arrow, Mir::utf8(&escape("->"))),
        (TokenKind::BracketCurlyLeft, Mir::utf8(&escape("{"))),
        (TokenKind::BracketCurlyRight, Mir::utf8(&escape("}"))),
        (TokenKind::ParenthesisLeft, Mir::utf8(&escape("("))),
        (TokenKind::ParenthesisRight, Mir::utf8(&escape(")"))),
        (TokenKind::Comma, Mir::utf8(&escape(","))),
        (TokenKind::Colon, Mir::utf8(&escape(":"))),
        (TokenKind::True, Mir::utf8(&escape("true"))),
        (TokenKind::False, Mir::utf8(&escape("false"))),
        (TokenKind::Decimal, Mir::utf8(r"[[:digit:]]+")),
        (TokenKind::Hexadecimal, Mir::utf8(r"0x[[:xdigit:]]+")),
        (TokenKind::String, Mir::utf8(r#""([^"\r\n\\]|\\.)*""#)),
        (TokenKind::StringHex, Mir::utf8(r#"hex("([[:xdigit:]]{2})*"|'([[:xdigit:]]{2})*')"#)),
        (TokenKind::Identifier, Mir::utf8(r"[[:alpha:]_$][[:alnum:]_$.]*")),
        (TokenKind::Comment, Mir::utf8(r"//[^\n]*|/\*([^*]|\*[^/])*\*/")),
        (TokenKind::Whitespace, Mir::utf8(r"[[:space:]]+")),
    ];
    assert_eq!(all.len(), KIND_COUNT);
    for (kind, mir) in all {
        let res = mir.unwrap();
        println!("{:?}, priority: {}", res, res.priority());
        assert_eq!(priority_of(kind) as usize, res.priority(), "{:?}", kind);
    }
}

#[test]
fn keyword_is_one_keyword_token() {
    let tokens = tokenize("function");
    assert_eq!(tokens, vec![token(TokenKind::Function, "function", 0)]);
    assert!(tokens[0].kind.unwrap().is_keyword());
    assert!(!tokens[0].kind.unwrap().is_identifier());
}

#[test]
fn hexadecimal_is_one_token() {
    let tokens = tokenize("0x1a");
    assert_eq!(tokens, vec![token(TokenKind::Hexadecimal, "0x1a", 0)]);
}

#[test]
fn comment_then_keyword_with_ranges() {
    let tokens = tokenize("// comment\nlet");
    assert_eq!(tokens.len(), 2);
    assert_eq!(tokens[0].kind, Ok(TokenKind::Comment));
    assert!(tokens[0].kind.unwrap().is_trivia());
    assert_eq!(tokens[0].text, "// comment\n");
    assert_eq!(tokens[0].range, TextRange::new(0, 11));
    assert_eq!(tokens[1].kind, Ok(TokenKind::Let));
    assert!(tokens[1].kind.unwrap().is_keyword());
    assert_eq!(tokens[1].text, "let");
    assert_eq!(tokens[1].range, TextRange::new(11, 14));
}

#[test]
fn line_comment_ends_with_its_line() {
    assert_eq!(tokenize("// a"), vec![token(TokenKind::Comment, "// a", 0)]);
    assert_eq!(
        tokenize("//\n\n"),
        vec![token(TokenKind::Comment, "//\n", 0), token(TokenKind::Whitespace, "\n", 3)]
    );
    assert_eq!(
        tokenize("// a\r\nb"),
        vec![token(TokenKind::Comment, "// a\r\n", 0), token(TokenKind::Identifier, "b", 6)]
    );
}

#[test]
fn longer_match_beats_keyword() {
    assert_eq!(kinds_of("functions"), vec![Ok(TokenKind::Identifier)]);
    assert_eq!(kinds_of("letter"), vec![Ok(TokenKind::Identifier)]);
    assert_eq!(kinds_of("if_"), vec![Ok(TokenKind::Identifier)]);
    assert_eq!(kinds_of("a.b$c_1"), vec![Ok(TokenKind::Identifier)]);
    assert_eq!(kinds_of("truest"), vec![Ok(TokenKind::Identifier)]);
}

#[test]
fn every_fixed_spelling_is_its_kind() {
    let mut seen = 0;
    for index in 0..KIND_COUNT {
        let kind = TokenKind::from_index(index).unwrap();
        assert_eq!(kind.index(), index);
        if let Some(word) = kind.fixed_spelling() {
            seen += 1;
            assert_eq!(tokenize(word), vec![token(kind, word, 0)]);
        }
    }
    assert_eq!(seen, 23);
    assert_eq!(TokenKind::from_index(KIND_COUNT), None);
}

#[test]
fn sized_integer_types() {
    assert_eq!(kinds_of("int32"), vec![Ok(TokenKind::Int)]);
    assert_eq!(kinds_of("uint256"), vec![Ok(TokenKind::Uint)]);
    assert_eq!(kinds_of("int"), vec![Ok(TokenKind::Identifier)]);
    assert_eq!(kinds_of("uint"), vec![Ok(TokenKind::Identifier)]);
    assert_eq!(kinds_of("int32x"), vec![Ok(TokenKind::Identifier)]);
    assert!(TokenKind::Int.is_keyword() && TokenKind::Uint.is_keyword());
}

#[test]
fn numbers() {
    assert_eq!(kinds_of("42"), vec![Ok(TokenKind::Decimal)]);
    assert_eq!(kinds_of("0xFFff"), vec![Ok(TokenKind::Hexadecimal)]);
    assert_eq!(
        tokenize("0x"),
        vec![token(TokenKind::Decimal, "0", 0), token(TokenKind::Identifier, "x", 1)]
    );
    assert_eq!(
        tokenize("0xg1"),
        vec![token(TokenKind::Decimal, "0", 0), token(TokenKind::Identifier, "xg1", 1)]
    );
    assert_eq!(
        tokenize("12ab"),
        vec![token(TokenKind::Decimal, "12", 0), token(TokenKind::Identifier, "ab", 2)]
    );
}

#[test]
fn strings() {
    assert_eq!(kinds_of(r#""abc""#), vec![Ok(TokenKind::String)]);
    assert_eq!(kinds_of(r#""""#), vec![Ok(TokenKind::String)]);
    assert_eq!(kinds_of(r#""a\"b""#), vec![Ok(TokenKind::String)]);
    assert_eq!(kinds_of(r#""a\\""#), vec![Ok(TokenKind::String)]);
    assert_eq!(kinds_of("\"é\\é\""), vec![Ok(TokenKind::String)]);
    assert_eq!(
        tokenize("\"ab"),
        vec![
            Token { kind: Err(LexError), text: "\"", range: TextRange::new(0, 1) },
            token(TokenKind::Identifier, "ab", 1),
        ]
    );
    assert_eq!(kinds_of("\"a\nb\"")[0], Err(LexError));
    assert_eq!(kinds_of("\"a\\\nb\"")[0], Err(LexError));
}

#[test]
fn hex_strings() {
    assert_eq!(kinds_of(r#"hex"00ff""#), vec![Ok(TokenKind::StringHex)]);
    assert_eq!(kinds_of("hex'AbCd'"), vec![Ok(TokenKind::StringHex)]);
    assert_eq!(kinds_of(r#"hex"""#), vec![Ok(TokenKind::StringHex)]);
    assert_eq!(
        kinds_of(r#"hex"0ff""#),
        vec![Ok(TokenKind::Identifier), Ok(TokenKind::String)]
    );
    assert_eq!(
        kinds_of(r#"hex"00'"#),
        vec![
            Ok(TokenKind::Identifier),
            Err(LexError),
            Ok(TokenKind::Decimal),
            Err(LexError)
        ]
    );
    assert_eq!(kinds_of("hex"), vec![Ok(TokenKind::Identifier)]);
}

#[test]
fn comments() {
    assert_eq!(kinds_of("/* a * b */"), vec![Ok(TokenKind::Comment)]);
    assert_eq!(kinds_of("/**/"), vec![Ok(TokenKind::Comment)]);
    assert_eq!(kinds_of("//"), vec![Ok(TokenKind::Comment)]);
    assert_eq!(kinds_of("// é ü"), vec![Ok(TokenKind::Comment)]);
    assert_eq!(
        tokenize("/* a */ b */"),
        vec![
            token(TokenKind::Comment, "/* a */", 0),
            token(TokenKind::Whitespace, " ", 7),
            token(TokenKind::Identifier, "b", 8),
            token(TokenKind::Whitespace, " ", 9),
            Token { kind: Err(LexError), text: "*", range: TextRange::new(10, 11) },
            Token { kind: Err(LexError), text: "/", range: TextRange::new(11, 12) },
        ]
    );
    assert_eq!(kinds_of("/* **/ */"), vec![Ok(TokenKind::Comment)]);
    assert_eq!(kinds_of("/* a")[0], Err(LexError));
}

#[test]
fn symbols() {
    assert_eq!(
        kinds_of(":=->{}(),:"),
        vec![
            Ok(TokenKind::Assignment),
            Ok(TokenKind::Arrow),
            Ok(TokenKind::BracketCurlyLeft),
            Ok(TokenKind::BracketCurlyRight),
            Ok(TokenKind::ParenthesisLeft),
            Ok(TokenKind::ParenthesisRight),
            Ok(TokenKind::Comma),
            Ok(TokenKind::Colon),
        ]
    );
    for kind in kinds_of(":=->{}(),:") {
        assert!(kind.unwrap().is_symbol());
    }
    assert_eq!(kinds_of("-"), vec![Err(LexError)]);
}

#[test]
fn literals_and_classes() {
    assert_eq!(kinds_of("true false"), vec![Ok(TokenKind::True), Ok(TokenKind::Whitespace), Ok(TokenKind::False)]);
    let mut counts = [0usize; 5];
    for index in 0..KIND_COUNT {
        let kind = TokenKind::from_index(index).unwrap();
        let classes = [
            kind.is_keyword(),
            kind.is_symbol(),
            kind.is_literal(),
            kind.is_identifier(),
            kind.is_trivia(),
        ];
        assert_eq!(classes.iter().filter(|&&class| class).count(), 1, "{:?}", kind);
        for (count, class) in counts.iter_mut().zip(classes) {
            if class {
                *count += 1;
            }
        }
    }
    assert_eq!(counts, [15, 8, 6, 1, 2]);
}

#[test]
fn error_is_one_character_and_lexing_goes_on() {
    let tokens = tokenize("a @ é€b");
    assert_eq!(
        tokens,
        vec![
            token(TokenKind::Identifier, "a", 0),
            token(TokenKind::Whitespace, " ", 1),
            Token { kind: Err(LexError), text: "@", range: TextRange::new(2, 3) },
            token(TokenKind::Whitespace, " ", 3),
            Token { kind: Err(LexError), text: "é", range: TextRange::new(4, 6) },
            Token { kind: Err(LexError), text: "€", range: TextRange::new(6, 9) },
            token(TokenKind::Identifier, "b", 9),
        ]
    );
}

#[test]
fn texts_of_tokens_are_the_text() {
    let samples = [
        "",
        "object \"Token\" {\n  code { let x := add(1, 0x2) // sum\n  }\n}",
        "function f(a, b) -> c { c := a }",
        "@@ \"open\n/* open",
        "héllo wörld § 1",
        "hex\"00\" hex'zz' \"\\\"\"",
        "\t\u{b}\u{c}\r\n x",
    ];
    for sample in samples {
        let tokens = tokenize(sample);
        let joined: String = tokens.iter().map(|token| token.text).collect();
        assert_eq!(joined, sample);
        let mut position = 0;
        for token in &tokens {
            assert_eq!(token.range.start(), position);
            assert!(token.range.start() < token.range.end());
            assert_eq!(token.range.len(), token.text.len());
            assert_eq!(&sample[token.range.start()..token.range.end()], token.text);
            position = token.range.end();
        }
        assert_eq!(position, sample.len());
    }
}

#[test]
fn lexer_hands_out_tokens_one_by_one() {
    let mut lexer = Lexer::new("let x");
    assert_eq!(lexer.next(), Some(token(TokenKind::Let, "let", 0)));
    assert_eq!(lexer.next(), Some(token(TokenKind::Whitespace, " ", 3)));
    assert_eq!(lexer.next(), Some(token(TokenKind::Identifier, "x", 4)));
    assert_eq!(lexer.next(), None);
    assert_eq!(lexer.next(), None);
    assert_eq!(Lexer::new("").next(), None);
}

#[test]
fn lexing_twice_gives_the_same_tokens() {
    let text = "switch x case 0 { leave } default { break }";
    assert_eq!(tokenize(text), tokenize(text));
}

#[test]
fn matches_of_single_kinds() {
    let source = "int32 ".as_bytes();
    assert_eq!(match_length(TokenKind::Int, source, 0), Some(5));
    assert_eq!(match_length(TokenKind::Identifier, source, 0), Some(5));
    assert_eq!(match_length(TokenKind::Decimal, source, 3), Some(2));
    assert_eq!(match_length(TokenKind::Decimal, source, 0), None);
    assert_eq!(match_length(TokenKind::Whitespace, source, 5), Some(1));
    assert_eq!(match_length(TokenKind::Whitespace, source, 6), None);
    assert_eq!(find_token(source, 0), Some((TokenKind::Int, 5)));
    assert_eq!(find_token(source, 6), None);
    assert!(ByteClass::HexDigit.contains(b'F') && !ByteClass::HexDigit.contains(b'g'));
    assert!(ByteClass::Space.contains(0x0b) && !ByteClass::Space.contains(b'x'));
    assert!(ByteClass::IdentifierStart.contains(b'$') && !ByteClass::IdentifierStart.contains(b'.'));
    assert!(ByteClass::IdentifierContinue.contains(b'.'));
    assert!(ByteClass::Continuation.contains(0x80) && !ByteClass::Continuation.contains(0xc3));
}

#[test]
fn text_range() {
    let range = TextRange::new(3, 10);
    assert_eq!((range.start(), range.end(), range.len()), (3, 10, 7));
    assert_eq!(TextRange::new(4, 4).len(), 0);
}
