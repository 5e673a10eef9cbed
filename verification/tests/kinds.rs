use qi_compiler::codegen::grammar::ast_src::{
    classify_terminal, contains_str, contextual_keywords, generate_kind_src, punctuations,
    AstEnumSrc, AstNodeSrc, KindsError, KindsSrc, TerminalClass,
};
use qi_compiler::codegen::grammar::generate::{generate, GenerateError};
use qi_compiler::codegen::grammar::syntax_kinds::{
    generate_syntax_kinds, variant_of_keyword, KindClass, SyntaxKind,
};
use qi_compiler::codegen::grammar::GrammarSpecification;
use qi_compiler::yul::lexer::token_kind::{TokenKind, KIND_COUNT};

fn strings(names: &[&str]) -> Vec<String> {
    names.iter().map(|name| (*name).to_owned()).collect()
}

fn terminals(names: &[&str]) -> GrammarSpecification {
    GrammarSpecification { productions: vec![], terminals: strings(names) }
}

const PUNCTUATION: [&str; 8] = [":=", "->", "{", "}", "(", ")", ",", ":"];

fn with_punctuation(names: &[&str]) -> GrammarSpecification {
    let mut all = names.to_vec();
    all.extend(PUNCTUATION);
    terminals(&all)
}

fn nodes(names: &[&str]) -> Vec<AstNodeSrc> {
    names.iter().map(|name| AstNodeSrc { name: (*name).to_owned(), fields: vec![] }).collect()
}

fn enums(names: &[&str]) -> Vec<AstEnumSrc> {
    names.iter().map(|name| AstEnumSrc { name: (*name).to_owned(), variants: vec![] }).collect()
}

fn sample_kinds() -> KindsSrc {
    generate_kind_src(
        &nodes(&["SourceFile", "Block"]),
        &enums(&["Statement"]),
        &with_punctuation(&[
            "let", "@string_literal", "#ident", "data", "function", "EOF", "@decimal_number", "if",
            "let",
        ]),
    )
    .unwrap()
}

#[test]
fn terminals_are_put_in_their_classes() {
    assert_eq!(classify_terminal("EOF"), TerminalClass::EndOfFile);
    assert_eq!(classify_terminal("@string"), TerminalClass::Literal);
    assert_eq!(classify_terminal("#ident"), TerminalClass::GenericToken);
    assert_eq!(classify_terminal("data"), TerminalClass::ContextualKeyword);
    assert_eq!(classify_terminal("let"), TerminalClass::StrictKeyword);
    assert_eq!(classify_terminal("größe"), TerminalClass::StrictKeyword);
    assert_eq!(classify_terminal("Data"), TerminalClass::StrictKeyword);
    for symbol in PUNCTUATION {
        assert_eq!(classify_terminal(symbol), TerminalClass::Punctuation);
    }
    for unknown in ["", "@", "#", ";", "a1", "=>", "let ", "::", "é:"] {
        assert_eq!(classify_terminal(unknown), TerminalClass::Unknown, "{unknown:?}");
    }
}

#[test]
fn kinds_of_a_grammar() {
    let kinds = sample_kinds();
    assert_eq!(kinds.punct, punctuations());
    assert_eq!(kinds.punct[0], (":=".to_owned(), "WALRUS".to_owned()));
    assert_eq!(kinds.punct[7], (":".to_owned(), "COLON".to_owned()));
    assert_eq!(kinds.punct.len(), 8);
    assert_eq!(kinds.keywords, strings(&["function", "if", "let"]));
    assert_eq!(kinds.contextual_keywords, strings(&["data"]));
    assert_eq!(kinds.contextual_keywords, contextual_keywords());
    assert_eq!(kinds.literals, strings(&["DECIMAL_NUMBER", "STRING_LITERAL"]));
    assert_eq!(kinds.tokens, strings(&["COMMENT", "ERROR", "IDENT", "WHITESPACE"]));
    assert_eq!(kinds.nodes, strings(&["BLOCK", "SOURCE_FILE"]));
    assert_eq!(kinds.enums, strings(&["STATEMENT"]));
}

#[test]
fn every_terminal_lands_in_one_class() {
    let names = ["let", "@string_literal", "#ident", "data", "function", ":=", "{"];
    let kinds = sample_kinds();
    for name in names {
        let places = [
            kinds.literals.contains(&name[1..].to_uppercase()) && name.starts_with('@'),
            kinds.tokens.contains(&name[1..].to_uppercase()) && name.starts_with('#'),
            kinds.contextual_keywords.contains(&name.to_owned()),
            kinds.keywords.contains(&name.to_owned()),
            kinds.punct.iter().any(|(text, _)| text == name),
        ];
        assert_eq!(places.iter().filter(|&&place| place).count(), 1, "{name}");
        let class = [
            TerminalClass::Literal,
            TerminalClass::GenericToken,
            TerminalClass::ContextualKeyword,
            TerminalClass::StrictKeyword,
            TerminalClass::Punctuation,
        ][places.iter().position(|&place| place).unwrap()];
        assert_eq!(classify_terminal(name), class);
    }
    for keyword in &kinds.keywords {
        assert!(!contains_str(&kinds.contextual_keywords, keyword));
    }
}

#[test]
fn symbol_that_the_table_lacks() {
    assert_eq!(
        generate_kind_src(&[].to_vec(), &[].to_vec(), &with_punctuation(&["let", ";", "=>"])),
        Err(KindsError::UnknownPunctuation(";".to_owned()))
    );
    assert_eq!(
        generate_kind_src(&[].to_vec(), &[].to_vec(), &terminals(&["=>"])),
        Err(KindsError::UnknownPunctuation("=>".to_owned()))
    );
    assert_eq!(
        KindsError::UnknownPunctuation(";".to_owned()).message(),
        "Grammar references unknown punctuation ;"
    );
}

#[test]
fn symbol_that_the_grammar_lacks() {
    assert_eq!(
        generate_kind_src(&[].to_vec(), &[].to_vec(), &terminals(&[])),
        Err(KindsError::UnusedPunctuation(":=".to_owned()))
    );
    assert_eq!(
        generate_kind_src(
            &[].to_vec(),
            &[].to_vec(),
            &terminals(&[":=", "->", "{", "(", ")", ",", ":"])
        ),
        Err(KindsError::UnusedPunctuation("}".to_owned()))
    );
    assert_eq!(
        KindsError::UnusedPunctuation("}".to_owned()).message(),
        "Punctuation is not used in grammar: }"
    );
    assert!(generate_kind_src(&[].to_vec(), &[].to_vec(), &with_punctuation(&[])).is_ok());
    assert_eq!(
        generate("A = 'let'"),
        Err(GenerateError::Kinds(KindsError::UnusedPunctuation(":=".to_owned())))
    );
}

fn kind(name: &str, class: KindClass, text: Option<&str>) -> SyntaxKind {
    SyntaxKind { name: name.to_owned(), class, text: text.map(|text| text.to_owned()) }
}

#[test]
fn syntax_kinds_stand_in_their_order() {
    let table = generate_syntax_kinds(&sample_kinds());
    let expected = vec![
        kind("TOMBSTONE", KindClass::Technical, None),
        kind("EOF", KindClass::Technical, None),
        kind("WALRUS", KindClass::Punctuation, Some(":=")),
        kind("ARROW", KindClass::Punctuation, Some("->")),
        kind("BRACKET_CURLY_LEFT", KindClass::Punctuation, Some("{")),
        kind("BRACKET_CURLY_RIGHT", KindClass::Punctuation, Some("}")),
        kind("PARENTHESIS_LEFT", KindClass::Punctuation, Some("(")),
        kind("PARENTHESIS_RIGHT", KindClass::Punctuation, Some(")")),
        kind("COMMA", KindClass::Punctuation, Some(",")),
        kind("COLON", KindClass::Punctuation, Some(":")),
        kind("FUNCTION_KW", KindClass::StrictKeyword, Some("function")),
        kind("IF_KW", KindClass::StrictKeyword, Some("if")),
        kind("LET_KW", KindClass::StrictKeyword, Some("let")),
        kind("DATA_KW", KindClass::ContextualKeyword, Some("data")),
        kind("DECIMAL_NUMBER", KindClass::Literal, None),
        kind("STRING_LITERAL", KindClass::Literal, None),
        kind("COMMENT", KindClass::Token, None),
        kind("ERROR", KindClass::Token, None),
        kind("IDENT", KindClass::Token, None),
        kind("WHITESPACE", KindClass::Token, None),
        kind("BLOCK", KindClass::Node, None),
        kind("SOURCE_FILE", KindClass::Node, None),
        kind("STATEMENT", KindClass::Node, None),
        kind("__LAST", KindClass::Technical, None),
    ];
    assert_eq!(table.kinds, expected);
    assert_eq!(table.len(), 24);
    assert_eq!(table.class_of(2), Some(KindClass::Punctuation));
    assert_eq!(table.class_of(24), None);
}

#[test]
fn classes_and_spellings_of_syntax_kinds() {
    let table = generate_syntax_kinds(&sample_kinds());
    for kind in 0..table.len() + 2 {
        let classes = [
            table.is_punct(kind),
            table.is_strict_keyword(kind),
            table.is_contextual_keyword(kind),
            table.is_literal(kind),
        ];
        assert!(classes.iter().filter(|&&class| class).count() <= 1);
        assert_eq!(table.is_keyword(kind), classes[1] || classes[2]);
        assert_eq!(table.try_text(kind).is_some(), classes[0] || classes[1] || classes[2]);
        if let Some(text) = table.try_text(kind) {
            assert_eq!(table.text(kind), text);
            assert_eq!(table.from_spelling(&text), Some(kind));
        }
    }
    assert!(table.is_punct(2) && table.is_punct(9) && !table.is_punct(10) && !table.is_punct(1));
    assert!(table.is_strict_keyword(10) && table.is_strict_keyword(12));
    assert!(table.is_contextual_keyword(13) && !table.is_strict_keyword(13));
    assert!(table.is_literal(14) && table.is_literal(15) && !table.is_literal(16));
    assert_eq!(table.text(2), ":=");
    assert_eq!(table.text(12), "let");
    assert_eq!(table.text(13), "data");
    assert_eq!(table.try_text(0), None);
    assert_eq!(table.try_text(20), None);
    assert_eq!(table.try_text(99), None);
}

#[test]
fn lookups_of_syntax_kinds() {
    let table = generate_syntax_kinds(&sample_kinds());
    assert_eq!(table.from_keyword("let"), Some(12));
    assert_eq!(table.from_keyword("function"), Some(10));
    assert_eq!(table.from_keyword("data"), None);
    assert_eq!(table.from_keyword("LET_KW"), None);
    assert_eq!(table.from_contextual_keyword("data"), Some(13));
    assert_eq!(table.from_contextual_keyword("let"), None);
    assert_eq!(table.from_char('{'), Some(4));
    assert_eq!(table.from_char(':'), Some(9));
    assert_eq!(table.from_char(','), Some(8));
    assert_eq!(table.from_char('='), None);
    assert_eq!(table.from_char('é'), None);
    assert_eq!(table.from_name("IDENT"), Some(18));
    assert_eq!(table.from_name("__LAST"), Some(23));
    assert_eq!(table.from_name("ident"), None);
    assert_eq!(table.from_spelling(":="), Some(2));
    assert_eq!(table.from_spelling("->"), Some(3));
    assert_eq!(table.from_spelling("if"), Some(11));
    assert_eq!(table.from_spelling("data"), Some(13));
    assert_eq!(table.from_spelling("ident"), Some(18));
    assert_eq!(table.from_spelling("decimal_number"), Some(14));
    assert_eq!(table.from_spelling("string_literal"), Some(15));
    assert_eq!(table.from_spelling("hex_number"), None);
    assert_eq!(table.from_spelling("hex_literal"), None);
    assert_eq!(table.from_spelling("block"), None);
}

#[test]
fn contextual_kinds_give_way_to_strict_kinds() {
    let kinds = KindsSrc {
        punct: vec![],
        keywords: strings(&["Data", "let"]),
        contextual_keywords: strings(&["view", "data", "dAta", "view"]),
        literals: vec![],
        tokens: vec![],
        nodes: vec![],
        enums: vec![],
    };
    let table = generate_syntax_kinds(&kinds);
    assert_eq!(
        table.kinds,
        vec![
            kind("TOMBSTONE", KindClass::Technical, None),
            kind("EOF", KindClass::Technical, None),
            kind("DATA_KW", KindClass::StrictKeyword, Some("Data")),
            kind("LET_KW", KindClass::StrictKeyword, Some("let")),
            kind("D_ATA_KW", KindClass::ContextualKeyword, Some("dAta")),
            kind("VIEW_KW", KindClass::ContextualKeyword, Some("view")),
            kind("__LAST", KindClass::Technical, None),
        ]
    );
    assert_eq!(variant_of_keyword("let"), "LET_KW");
    assert_eq!(variant_of_keyword("fooBar"), "FOO_BAR_KW");
}

#[test]
fn kinds_of_a_grammar_text() {
    let text = "
        SourceFile = Statement*
        Statement = Let | Block
        Let = 'let' Names (':=' Expr)?
        Names = Name (',' Name)*
        Block = '{' Statement* '}'
        Expr = Name '(' (Expr (',' Expr)* ','?)? ')' | '@decimal_number' | Name ':' Name '->' Name
        Name = '#ident' | 'data'
    ";
    let generated = generate(text).unwrap();
    assert_eq!(generated.kinds.keywords, strings(&["let"]));
    assert_eq!(generated.kinds.literals, strings(&["DECIMAL_NUMBER"]));
    assert_eq!(generated.kinds.nodes, strings(&["BLOCK", "EXPR", "LET", "NAME", "NAMES", "SOURCE_FILE"]));
    assert_eq!(generated.kinds.enums, strings(&["STATEMENT"]));
    assert_eq!(generated.syntax_kinds, generate_syntax_kinds(&generated.kinds));
    assert_eq!(generated.syntax_kinds.from_spelling("ident"), generated.syntax_kinds.from_name("IDENT"));
    let names: Vec<&str> =
        generated.syntax_kinds.kinds.iter().map(|kind| kind.name.as_str()).collect();
    assert_eq!(&names[..2], ["TOMBSTONE", "EOF"]);
    assert_eq!(names.last(), Some(&"__LAST"));
    assert_eq!(names.len(), 2 + 8 + 1 + 1 + 1 + 4 + 6 + 1 + 1);
    let expr = generated.ast.nodes.iter().find(|node| node.name == "Expr").unwrap();
    assert!(expr.fields.iter().any(|field| field.is_many() && field.ty() == "Expr"));
}

#[test]
fn ascii_letters_alone_are_alphabetic_in_ascii() {
    for code in 0u8..128 {
        let c = code as char;
        let name = c.to_string();
        let strict = classify_terminal(&name) == TerminalClass::StrictKeyword;
        assert_eq!(strict, c.is_ascii_alphabetic(), "{:?}", c);
    }
    assert_eq!(classify_terminal("let"), TerminalClass::StrictKeyword);
    assert_eq!(classify_terminal("le7"), TerminalClass::Unknown);
    assert_eq!(classify_terminal("le_t"), TerminalClass::Unknown);
    assert_eq!(classify_terminal(":="), TerminalClass::Punctuation);
}

#[test]
fn lexer_and_kinds_agree_on_keywords_and_symbols() {
    let table = punctuations();
    let mut symbols = 0;
    for index in 0..KIND_COUNT {
        let kind = TokenKind::from_index(index).unwrap();
        let Some(word) = kind.fixed_spelling() else {
            continue;
        };
        if kind.is_keyword() {
            assert_eq!(classify_terminal(word), TerminalClass::StrictKeyword, "{word}");
        }
        assert_eq!(
            kind.is_symbol(),
            classify_terminal(word) == TerminalClass::Punctuation,
            "{word}"
        );
        if kind.is_symbol() {
            assert_eq!(table[symbols].0, word);
            symbols += 1;
        }
    }
    assert_eq!(symbols, table.len());
}
