use qi_compiler::codegen::grammar::ast_src::{
    AstEnumSrc, AstNodeSrc, AstSrc, Cardinality, Field,
};
use qi_compiler::codegen::grammar::generate::{generate, generate_from_grammar, GenerateError};
use qi_compiler::codegen::grammar::utils::{
    clean_token_name, pluralize, str_eq, to_lower_snake_case, to_upper_snake_case,
};
use qi_compiler::codegen::grammar::{
    deduplicate_fields, extract_enums, lower, lower_enum, lower_rule, lower_separated_list,
    normalize, rule_eq, tokens_of_schema, GrammarSpecification, LowerError, Production,
    ProductionRule,
};

fn s(text: &str) -> String {
    text.to_owned()
}

fn node(name: &str) -> ProductionRule {
    ProductionRule::NonTerminal(s(name))
}

fn token(name: &str) -> ProductionRule {
    ProductionRule::Terminal(s(name))
}

fn seq(rules: Vec<ProductionRule>) -> ProductionRule {
    ProductionRule::Sequence(rules)
}

fn alt(rules: Vec<ProductionRule>) -> ProductionRule {
    ProductionRule::Alternation(rules)
}

fn rep(rule: ProductionRule) -> ProductionRule {
    ProductionRule::Repetition(Box::new(rule))
}

fn opt(rule: ProductionRule) -> ProductionRule {
    ProductionRule::Optional(Box::new(rule))
}

fn labeled(label: &str, rule: ProductionRule) -> ProductionRule {
    ProductionRule::Labeled { label: s(label), rule: Box::new(rule) }
}

fn field(name: &str, ty: &str, cardinality: Cardinality) -> Field {
    Field::Node { name: s(name), ty: s(ty), cardinality }
}

fn optional(name: &str, ty: &str) -> Field {
    field(name, ty, Cardinality::Optional)
}

fn many(name: &str, ty: &str) -> Field {
    field(name, ty, Cardinality::Many)
}

fn tok(name: &str) -> Field {
    Field::Token(s(name))
}

fn production(name: &str, rule: ProductionRule) -> Production {
    Production { name: s(name), rule }
}

fn grammar(productions: Vec<Production>, terminals: &[&str]) -> GrammarSpecification {
    GrammarSpecification {
        productions,
        terminals: terminals.iter().map(|name| s(name)).collect(),
    }
}

fn lowered_fields(rule: &ProductionRule) -> Result<Vec<Field>, LowerError> {
    let mut fields = Vec::new();
    lower_rule(&mut fields, None, rule).map(|()| fields)
}

fn separated(item: ProductionRule, item_again: ProductionRule, trailing: bool) -> ProductionRule {
    let mut rules = vec![item, rep(seq(vec![token(","), item_again]))];
    if trailing {
        rules.push(opt(token(",")));
    }
    seq(rules)
}

#[test]
fn separated_list_is_one_field_of_many() {
    let rule = separated(node("Foo"), node("Foo"), true);
    assert_eq!(lowered_fields(&rule), Ok(vec![many("foos", "Foo")]));
    let without_trailing = separated(node("Foo"), node("Foo"), false);
    assert_eq!(lowered_fields(&without_trailing), Ok(vec![many("foos", "Foo")]));
    let mut acc = vec![tok("x")];
    assert!(lower_separated_list(&mut acc, None, &rule));
    assert_eq!(acc, vec![tok("x"), many("foos", "Foo")]);
    let label = s("items");
    let mut acc = Vec::new();
    assert!(lower_separated_list(&mut acc, Some(&label), &rule));
    assert_eq!(acc, vec![many("items", "Foo")]);
}

#[test]
fn separated_list_in_a_grammar_text() {
    let generated = generate("Root = Foo (',' Foo)* ','?\nFoo = 'x' ':=' '->' ':' '{' '}' '(' ')'").unwrap();
    let root = generated.ast.nodes.iter().find(|node| node.name == "Root").unwrap();
    assert_eq!(root.fields, vec![many("foos", "Foo")]);
}

#[test]
fn separated_list_of_tokens_is_one_token_field() {
    let rule = separated(token("ident"), token("ident"), true);
    assert_eq!(lowered_fields(&rule), Ok(vec![tok("ident")]));
}

#[test]
fn what_is_no_separated_list() {
    let mut acc = Vec::new();
    let different_item = separated(node("Foo"), node("Bar"), true);
    assert!(!lower_separated_list(&mut acc, None, &different_item));
    let mixed = separated(node("Foo"), token("Foo"), false);
    assert!(!lower_separated_list(&mut acc, None, &mixed));
    let other_trailing = seq(vec![
        node("Foo"),
        rep(seq(vec![token(","), node("Foo")])),
        opt(token(";")),
    ]);
    assert!(!lower_separated_list(&mut acc, None, &other_trailing));
    let long_pair = seq(vec![node("Foo"), rep(seq(vec![token(","), node("Foo"), node("Foo")]))]);
    assert!(!lower_separated_list(&mut acc, None, &long_pair));
    assert!(!lower_separated_list(&mut acc, None, &node("Foo")));
    assert!(!lower_separated_list(&mut acc, None, &seq(vec![node("Foo")])));
    assert!(acc.is_empty());
    assert_eq!(
        lowered_fields(&different_item),
        Err(LowerError::UnsupportedRepetition)
    );
}

#[test]
fn enum_extraction_replaces_the_variants() {
    let mut ast = AstSrc {
        tokens: vec![],
        nodes: vec![AstNodeSrc { name: s("N"), fields: vec![optional("a", "X"), optional("b", "Y")] }],
        enums: vec![AstEnumSrc { name: s("E"), variants: vec![s("X"), s("Y")] }],
    };
    extract_enums(&mut ast);
    assert_eq!(ast.nodes[0].fields, vec![optional("e", "E")]);
}

#[test]
fn enum_extraction_needs_as_many_fields_as_variants() {
    let enums = vec![AstEnumSrc { name: s("FooBar"), variants: vec![s("X"), s("Y")] }];
    let mut ast = AstSrc {
        tokens: vec![s("t")],
        nodes: vec![
            AstNodeSrc { name: s("One"), fields: vec![optional("a", "X"), tok("t")] },
            AstNodeSrc {
                name: s("Three"),
                fields: vec![optional("a", "X"), optional("b", "Y"), many("c", "X")],
            },
            AstNodeSrc {
                name: s("Two"),
                fields: vec![tok("t"), optional("a", "X"), optional("z", "Z"), many("ys", "Y")],
            },
        ],
        enums: enums.clone(),
    };
    extract_enums(&mut ast);
    assert_eq!(ast.nodes[0].fields, vec![optional("a", "X"), tok("t")]);
    assert_eq!(
        ast.nodes[1].fields,
        vec![optional("a", "X"), optional("b", "Y"), many("c", "X")]
    );
    assert_eq!(
        ast.nodes[2].fields,
        vec![tok("t"), optional("z", "Z"), optional("foo_bar", "FooBar")]
    );
    assert_eq!(ast.enums, enums);
    assert_eq!(ast.tokens, vec![s("t")]);
}

#[test]
fn enums_are_extracted_one_after_the_other() {
    let mut ast = AstSrc {
        tokens: vec![],
        nodes: vec![AstNodeSrc { name: s("N"), fields: vec![optional("a", "A"), optional("b", "B")] }],
        enums: vec![
            AstEnumSrc { name: s("Inner"), variants: vec![s("A")] },
            AstEnumSrc { name: s("Outer"), variants: vec![s("Inner"), s("B")] },
        ],
    };
    extract_enums(&mut ast);
    assert_eq!(ast.nodes[0].fields, vec![optional("outer", "Outer")]);
}

#[test]
fn deduplication_keeps_the_first_and_is_idempotent() {
    let mut ast = AstSrc {
        tokens: vec![],
        nodes: vec![
            AstNodeSrc {
                name: s("N"),
                fields: vec![
                    tok("a"),
                    optional("x", "X"),
                    tok("a"),
                    many("x", "X"),
                    optional("x", "Y"),
                    optional("y", "X"),
                    tok("b"),
                    optional("x", "X"),
                    tok("a"),
                ],
            },
            AstNodeSrc { name: s("Empty"), fields: vec![] },
        ],
        enums: vec![],
    };
    deduplicate_fields(&mut ast);
    let once = ast.clone();
    assert_eq!(
        once.nodes[0].fields,
        vec![tok("a"), optional("x", "X"), optional("x", "Y"), optional("y", "X"), tok("b")]
    );
    assert_eq!(once.nodes[1].fields, vec![]);
    deduplicate_fields(&mut ast);
    assert_eq!(ast, once);
}

#[test]
fn fields_of_the_same_shape() {
    assert!(tok("a").same_shape(&tok("a")));
    assert!(!tok("a").same_shape(&tok("b")));
    assert!(optional("a", "X").same_shape(&many("a", "X")));
    assert!(!optional("a", "X").same_shape(&optional("a", "Y")));
    assert!(!optional("a", "X").same_shape(&optional("b", "X")));
    assert!(!optional("a", "X").same_shape(&tok("a")));
    assert_eq!(optional("a", "X").duplicate(), optional("a", "X"));
    assert_eq!(tok("a").duplicate(), tok("a"));
}

#[test]
fn rules_lower_to_fields() {
    assert_eq!(lowered_fields(&node("FooBar")), Ok(vec![optional("foo_bar", "FooBar")]));
    assert_eq!(lowered_fields(&opt(node("FooBar"))), Ok(vec![optional("foo_bar", "FooBar")]));
    assert_eq!(lowered_fields(&rep(node("FooBar"))), Ok(vec![many("foo_bars", "FooBar")]));
    assert_eq!(lowered_fields(&labeled("lhs", node("Expr"))), Ok(vec![optional("lhs", "Expr")]));
    assert_eq!(lowered_fields(&labeled("all", rep(node("Expr")))), Ok(vec![many("all", "Expr")]));
    assert_eq!(lowered_fields(&token("let")), Ok(vec![tok("let")]));
    assert_eq!(lowered_fields(&token(":=")), Ok(vec![tok("walrus")]));
    assert_eq!(lowered_fields(&token("->")), Ok(vec![tok("arrow")]));
    assert_eq!(lowered_fields(&token(",")), Ok(vec![tok("comma")]));
    assert_eq!(lowered_fields(&token(":")), Ok(vec![tok("colon")]));
    for bracket in ["[", "]", "{", "}", "(", ")"] {
        assert_eq!(lowered_fields(&token(bracket)), Ok(vec![tok(&format!("'{bracket}'"))]));
    }
    assert_eq!(lowered_fields(&token("@string")), Ok(vec![tok("@string")]));
    assert_eq!(
        lowered_fields(&seq(vec![token("let"), node("Name"), alt(vec![node("A"), token("b")])])),
        Ok(vec![tok("let"), optional("name", "Name"), optional("a", "A"), tok("b")])
    );
    assert_eq!(lowered_fields(&seq(vec![])), Ok(vec![]));
}

#[test]
fn labels_with_hand_written_accessors_give_no_field() {
    for label in ["then_branch", "condition", "args", "body"] {
        assert_eq!(lowered_fields(&labeled(label, node("Block"))), Ok(vec![]));
        assert_eq!(lowered_fields(&labeled(label, rep(token("x")))), Ok(vec![]));
    }
    assert_eq!(lowered_fields(&labeled("else_branch", node("Block"))), Ok(vec![optional("else_branch", "Block")]));
}

#[test]
fn rules_that_cannot_be_lowered() {
    assert_eq!(lowered_fields(&rep(token("x"))), Err(LowerError::UnsupportedRepetition));
    assert_eq!(
        lowered_fields(&rep(seq(vec![node("A"), node("B")]))),
        Err(LowerError::UnsupportedRepetition)
    );
    assert_eq!(lowered_fields(&rep(rep(node("A")))), Err(LowerError::UnsupportedRepetition));
    assert_eq!(
        lowered_fields(&labeled("x", opt(rep(opt(node("A")))))),
        Err(LowerError::UnsupportedRepetition)
    );
    assert_eq!(
        lowered_fields(&seq(vec![node("A"), rep(token("u")), node("B")])),
        Err(LowerError::UnsupportedRepetition)
    );
}

#[test]
fn labels_name_the_nodes_under_them() {
    assert_eq!(lowered_fields(&labeled("name", token("x"))), Ok(vec![tok("x")]));
    assert_eq!(lowered_fields(&labeled("name", token(":="))), Ok(vec![tok("walrus")]));
    assert_eq!(
        lowered_fields(&labeled("outer", labeled("inner", node("A")))),
        Ok(vec![optional("inner", "A")])
    );
    assert_eq!(lowered_fields(&labeled("outer", labeled("body", node("A")))), Ok(vec![]));
    assert_eq!(
        lowered_fields(&labeled("both", seq(vec![node("A"), token("t"), rep(node("B"))]))),
        Ok(vec![optional("both", "A"), tok("t"), many("both", "B")])
    );
    assert_eq!(
        lowered_fields(&labeled("all", separated(token("t"), token("t"), true))),
        Ok(vec![tok("t")])
    );
}

#[test]
fn enum_definitions() {
    assert_eq!(lower_enum(&alt(vec![node("A"), node("B")])), Some(vec![s("A"), s("B")]));
    assert_eq!(lower_enum(&alt(vec![node("B"), token(";"), node("A")])), Some(vec![s("B"), s("A")]));
    assert_eq!(lower_enum(&alt(vec![token(";")])), Some(vec![]));
    assert_eq!(lower_enum(&alt(vec![node("A"), token(",")])), None);
    assert_eq!(lower_enum(&alt(vec![node("A"), opt(node("B"))])), None);
    assert_eq!(lower_enum(&seq(vec![node("A"), node("B")])), None);
    assert_eq!(lower_enum(&node("A")), None);
}

#[test]
fn rule_equality() {
    assert!(rule_eq(&separated(node("A"), node("A"), true), &separated(node("A"), node("A"), true)));
    assert!(!rule_eq(&separated(node("A"), node("A"), true), &separated(node("A"), node("A"), false)));
    assert!(!rule_eq(&node("A"), &token("A")));
    assert!(!rule_eq(&seq(vec![node("A")]), &alt(vec![node("A")])));
    assert!(!rule_eq(&labeled("a", node("A")), &labeled("b", node("A"))));
    assert!(rule_eq(&opt(rep(node("A"))), &opt(rep(node("A")))));
    assert!(!rule_eq(&opt(rep(node("A"))), &rep(opt(node("A")))));
}

fn sample() -> GrammarSpecification {
    grammar(
        vec![
            production("SourceFile", rep(node("Statement"))),
            production("Statement", alt(vec![node("Let"), node("Block"), token(";")])),
            production(
                "Let",
                seq(vec![
                    token("let"),
                    separated(node("Name"), node("Name"), false),
                    opt(seq(vec![token(":="), labeled("value", node("Expr"))])),
                ]),
            ),
            production("Block", seq(vec![token("{"), rep(node("Statement")), token("}")])),
            production("Expr", seq(vec![opt(node("Let")), opt(node("Block")), node("Name")])),
            production("Name", seq(vec![token("#ident"), opt(token("#ident"))])),
        ],
        &["let", ",", ":=", "{", "}", "#ident", ";"],
    )
}

#[test]
fn lowering_a_grammar() {
    let ast = lower(&sample()).unwrap();
    assert_eq!(
        ast.tokens,
        vec![
            s("Comment"),
            s("DecimalNumber"),
            s("HexLiteral"),
            s("HexNumber"),
            s("Ident"),
            s("StringLiteral"),
            s("Whitespace"),
        ]
    );
    assert_eq!(
        ast.enums,
        vec![AstEnumSrc { name: s("Statement"), variants: vec![s("Block"), s("Let")] }]
    );
    assert_eq!(
        ast.nodes,
        vec![
            AstNodeSrc {
                name: s("Block"),
                fields: vec![tok("'{'"), tok("'}'"), many("statements", "Statement")],
            },
            AstNodeSrc {
                name: s("Expr"),
                fields: vec![optional("name", "Name"), optional("statement", "Statement")],
            },
            AstNodeSrc {
                name: s("Let"),
                fields: vec![
                    tok("let"),
                    tok("walrus"),
                    many("names", "Name"),
                    optional("value", "Expr"),
                ],
            },
            AstNodeSrc { name: s("Name"), fields: vec![tok("#ident")] },
            AstNodeSrc { name: s("SourceFile"), fields: vec![many("statements", "Statement")] },
        ]
    );
}

#[test]
fn lowering_twice_gives_the_same() {
    assert_eq!(lower(&sample()), lower(&sample()));
    assert_eq!(generate_from_grammar(&sample()), generate_from_grammar(&sample()));
    let text = "A = B*\nB = 'b' ':=' '->' ':' '{' '}' '(' ')' ','";
    assert_eq!(generate(text), generate(text));
    assert!(generate(text).is_ok());
}

#[test]
fn token_fields_stand_before_node_fields() {
    let mut ast = AstSrc {
        tokens: vec![s("b"), s("a")],
        nodes: vec![
            AstNodeSrc {
                name: s("Zed"),
                fields: vec![optional("b", "B"), tok("z"), many("a", "A"), tok("c")],
            },
            AstNodeSrc { name: s("Abc"), fields: vec![] },
        ],
        enums: vec![
            AstEnumSrc { name: s("Y"), variants: vec![s("Q"), s("P")] },
            AstEnumSrc { name: s("X"), variants: vec![] },
        ],
    };
    normalize(&mut ast);
    assert_eq!(ast.tokens, vec![s("a"), s("b")]);
    assert_eq!(ast.nodes[0], AstNodeSrc { name: s("Abc"), fields: vec![] });
    assert_eq!(
        ast.nodes[1].fields,
        vec![tok("c"), tok("z"), many("a", "A"), optional("b", "B")]
    );
    assert_eq!(
        ast.enums,
        vec![
            AstEnumSrc { name: s("X"), variants: vec![] },
            AstEnumSrc { name: s("Y"), variants: vec![s("P"), s("Q")] },
        ]
    );
}

#[test]
fn dangling_references() {
    let unknown_node = grammar(vec![production("A", node("B"))], &[]);
    assert_eq!(lower(&unknown_node), Err(LowerError::DanglingReference));
    assert!(!unknown_node.is_well_formed());
    let unknown_token = grammar(vec![production("A", opt(seq(vec![token("t")])))], &["u"]);
    assert_eq!(lower(&unknown_token), Err(LowerError::DanglingReference));
    let twice = grammar(
        vec![production("A", node("B")), production("B", token("t")), production("B", token("t"))],
        &["t"],
    );
    assert_eq!(lower(&twice), Err(LowerError::DanglingReference));
    let under_label = grammar(vec![production("A", labeled("body", rep(alt(vec![node("C")]))))], &[]);
    assert_eq!(lower(&under_label), Err(LowerError::DanglingReference));
    let fine = grammar(vec![production("A", node("A"))], &["unused"]);
    assert!(fine.is_well_formed());
    assert!(lower(&fine).is_ok());
    assert!(grammar(vec![], &[]).is_well_formed());
    assert_eq!(
        lower(&grammar(vec![], &[])),
        Ok(AstSrc {
            tokens: {
                let mut tokens = tokens_of_schema();
                tokens.sort();
                tokens
            },
            nodes: vec![],
            enums: vec![]
        })
    );
}

#[test]
fn first_error_of_a_grammar() {
    let two_errors = grammar(
        vec![
            production("A", alt(vec![node("A"), node("B")])),
            production("B", rep(labeled("x", token("t")))),
            production("C", rep(token("t"))),
        ],
        &["t"],
    );
    assert_eq!(lower(&two_errors), Err(LowerError::UnsupportedRepetition));
    assert_eq!(
        generate_from_grammar(&two_errors),
        Err(GenerateError::Lower(LowerError::UnsupportedRepetition))
    );
    let dangling_too = grammar(
        vec![production("A", rep(token("t"))), production("B", node("Missing"))],
        &["t"],
    );
    assert_eq!(lower(&dangling_too), Err(LowerError::DanglingReference));
}

#[test]
fn text_that_is_no_grammar() {
    assert!(matches!(generate("A = "), Err(GenerateError::Syntax(_))));
    assert!(matches!(generate("A = B"), Err(GenerateError::Syntax(_))));
    assert!(matches!(generate("A = 'a'\nA = 'b'"), Err(GenerateError::Syntax(_))));
}

#[test]
fn names() {
    assert_eq!(to_upper_snake_case("FooBar"), "FOO_BAR");
    assert_eq!(to_upper_snake_case("fooBar"), "FOO_BAR");
    assert_eq!(to_upper_snake_case("decimal_number"), "DECIMAL_NUMBER");
    assert_eq!(to_upper_snake_case("ABC"), "A_B_C");
    assert_eq!(to_upper_snake_case(""), "");
    assert_eq!(to_upper_snake_case("é1z"), "é1Z");
    assert_eq!(to_lower_snake_case("FooBar"), "foo_bar");
    assert_eq!(to_lower_snake_case("E"), "e");
    assert_eq!(to_lower_snake_case("HTTPServer"), "h_t_t_p_server");
    assert_eq!(to_lower_snake_case("already_snake"), "already_snake");
    assert_eq!(pluralize("foo"), "foos");
    assert_eq!(pluralize(""), "s");
    assert_eq!(clean_token_name(":="), "walrus");
    assert_eq!(clean_token_name("->"), "arrow");
    assert_eq!(clean_token_name(","), "comma");
    assert_eq!(clean_token_name(":"), "colon");
    assert_eq!(clean_token_name("{"), "{");
    assert_eq!(clean_token_name("let"), "let");
    assert!(str_eq("a", "a") && !str_eq("a", "b") && !str_eq("a", "ab"));
}

#[test]
fn accessors_of_fields() {
    assert_eq!(tok(":=").method_name(), "walrus_token");
    assert_eq!(tok("->").method_name(), "arrow_token");
    assert_eq!(tok("{").method_name(), "bracket_curly_left_token");
    assert_eq!(tok("}").method_name(), "bracket_curly_right_token");
    assert_eq!(tok("(").method_name(), "parenthesis_left_token");
    assert_eq!(tok(")").method_name(), "parenthesis_right_token");
    assert_eq!(tok(",").method_name(), "comma_token");
    assert_eq!(tok(":").method_name(), "colon_token");
    assert_eq!(tok("let").method_name(), "let_token");
    assert_eq!(optional("type", "Type").method_name(), "ty");
    assert_eq!(optional("name", "Name").method_name(), "name");
    assert_eq!(tok("let").ty(), "SyntaxToken");
    assert_eq!(many("names", "Name").ty(), "Name");
    assert!(many("names", "Name").is_many());
    assert!(!optional("name", "Name").is_many());
    assert!(!tok("let").is_many());
}

#[test]
fn fields_are_taken_out_by_place() {
    let mut node = AstNodeSrc {
        name: s("N"),
        fields: vec![tok("a"), tok("b"), tok("c"), tok("d"), tok("e")],
    };
    node.remove_field(vec![0, 2, 4]);
    assert_eq!(node.fields, vec![tok("b"), tok("d")]);
    node.remove_field(vec![]);
    assert_eq!(node.fields, vec![tok("b"), tok("d")]);
    node.remove_field(vec![1]);
    assert_eq!(node, AstNodeSrc { name: s("N"), fields: vec![tok("b")] });
}

#[test]
fn putting_in_order_twice_changes_nothing() {
    let mut ast = lower(&sample()).unwrap();
    let once = ast.clone();
    normalize(&mut ast);
    assert_eq!(ast, once);
    let mut names = ast.tokens.clone();
    names.reverse();
    let mut shuffled = AstSrc { tokens: names, nodes: vec![], enums: vec![] };
    normalize(&mut shuffled);
    let first = shuffled.clone();
    normalize(&mut shuffled);
    assert_eq!(shuffled, first);
    assert_eq!(shuffled.tokens, once.tokens);
}

#[test]
fn extracted_enum_may_meet_a_field_of_its_own_shape() {
    let both = grammar(
        vec![
            production("E", alt(vec![node("X"), node("Y")])),
            production("N", seq(vec![node("E"), node("X"), node("Y")])),
            production("X", token("x")),
            production("Y", token("y")),
        ],
        &["x", "y"],
    );
    let ast = lower(&both).unwrap();
    let n = ast.nodes.iter().find(|node| node.name == "N").unwrap();
    assert_eq!(n.fields, vec![optional("e", "E"), optional("e", "E")]);
}

#[test]
fn enum_extraction_needs_one_field_per_variant() {
    let twice_x = vec![optional("a", "X"), optional("b", "X")];
    let mut ast = AstSrc {
        tokens: vec![],
        nodes: vec![
            AstNodeSrc { name: s("TwiceX"), fields: twice_x.clone() },
            AstNodeSrc { name: s("OnlyX"), fields: vec![optional("a", "X")] },
            AstNodeSrc {
                name: s("Both"),
                fields: vec![many("ys", "Y"), tok("t"), optional("a", "X")],
            },
        ],
        enums: vec![AstEnumSrc { name: s("E"), variants: vec![s("X"), s("Y")] }],
    };
    extract_enums(&mut ast);
    assert_eq!(ast.nodes[0].fields, twice_x);
    assert_eq!(ast.nodes[0].fields.len(), 2);
    assert!(ast.nodes[0].fields.iter().all(|field| field.ty() == "X"));
    assert_eq!(ast.nodes[1].fields, vec![optional("a", "X")]);
    assert_eq!(ast.nodes[2].fields, vec![tok("t"), optional("e", "E")]);
}

#[test]
fn enum_with_a_variant_twice_is_never_extracted() {
    let fields = vec![optional("a", "X"), optional("b", "X")];
    let mut ast = AstSrc {
        tokens: vec![],
        nodes: vec![
            AstNodeSrc { name: s("Two"), fields: fields.clone() },
            AstNodeSrc { name: s("One"), fields: vec![optional("a", "X")] },
        ],
        enums: vec![AstEnumSrc { name: s("E"), variants: vec![s("X"), s("X")] }],
    };
    extract_enums(&mut ast);
    assert_eq!(ast.nodes[0].fields, fields);
    assert_eq!(ast.nodes[1].fields, vec![optional("a", "X")]);
}

#[test]
fn enum_without_variants_adds_its_field() {
    let mut ast = AstSrc {
        tokens: vec![],
        nodes: vec![AstNodeSrc { name: s("N"), fields: vec![tok("t")] }],
        enums: vec![AstEnumSrc { name: s("Nothing"), variants: vec![] }],
    };
    extract_enums(&mut ast);
    assert_eq!(ast.nodes[0].fields, vec![tok("t"), optional("nothing", "Nothing")]);
}

#[test]
fn fields_are_taken_out_last_place_first() {
    let fields = vec![tok("a"), tok("b"), tok("c")];
    let mut node = AstNodeSrc { name: s("N"), fields: fields.clone() };
    node.remove_field(vec![0, 0]);
    assert_eq!(node.fields, vec![tok("c")]);
    let mut node = AstNodeSrc { name: s("N"), fields: fields.clone() };
    node.remove_field(vec![1, 0]);
    assert_eq!(node.fields, vec![tok("b")]);
    let mut node = AstNodeSrc { name: s("N"), fields: fields.clone() };
    node.remove_field(vec![0, 0, 0]);
    assert_eq!(node.fields, vec![]);
    let mut node = AstNodeSrc { name: s("N"), fields };
    node.remove_field(vec![0, 1, 2]);
    assert_eq!(node.fields, vec![]);
}

#[test]
fn a_rule_that_cannot_be_lowered_keeps_the_fields_before_it() {
    let mut acc = vec![tok("x"), optional("y", "Y")];
    let rule = seq(vec![node("A"), rep(token("u")), node("B")]);
    assert_eq!(lower_rule(&mut acc, None, &rule), Err(LowerError::UnsupportedRepetition));
    assert_eq!(&acc[..2], &[tok("x"), optional("y", "Y")]);
    let mut acc = vec![tok("x")];
    assert_eq!(lower_rule(&mut acc, None, &rep(token("u"))), Err(LowerError::UnsupportedRepetition));
    assert_eq!(acc, vec![tok("x")]);
}
