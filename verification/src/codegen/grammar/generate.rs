//! From the text of a grammar to the schema of the syntax tree and the
//! syntax kinds.

use vstd::prelude::*;
use vstd::string::*;
use crate::codegen::grammar::ast_src::{
    generate_kind_src, kinds_of, AstSrc, AstView, KindsError, KindsErrorView, KindsSrc, KindsView,
};
use crate::codegen::grammar::syntax_kinds::{
    generate_syntax_kinds, syntax_kinds_of, SyntaxKindView, SyntaxKinds,
};
use crate::codegen::grammar::{
    lower, lowered, GrammarSpecification, GrammarView, LowerError, Production, ProductionRule,
};

verus! {

/// The grammar type of the crate ungrammar. Nothing is known of what a
/// value of it holds.
#[verifier::external_type_specification]
#[verifier::external_body]
pub struct ExUngrammarGrammar(ungrammar::Grammar);

/// The rule type of the crate ungrammar. Nothing is known of what a value
/// of it holds.
#[verifier::external_type_specification]
#[verifier::external_body]
pub struct ExUngrammarRule(ungrammar::Rule);

/// What the crate ungrammar reads out of the text of a grammar: the
/// grammar, or the message of the error that it found in the text.
pub uninterp spec fn parsed_grammar(text: Seq<char>) -> Result<GrammarView, Seq<char>>;

/// A rule of the crate ungrammar as a rule of this library, shape for
/// shape, with the name in the place of each node and token. Nothing is
/// claimed of the result.
#[verifier::external_body]
fn convert_rule(grammar: &ungrammar::Grammar, rule: &ungrammar::Rule) -> ProductionRule {
    let boxed = |rule: &ungrammar::Rule| Box::new(convert_rule(grammar, rule));
    match rule {
        ungrammar::Rule::Labeled { label, rule } => {
            ProductionRule::Labeled { label: label.clone(), rule: boxed(rule) }
        },
        ungrammar::Rule::Node(node) => ProductionRule::NonTerminal(grammar[*node].name.clone()),
        ungrammar::Rule::Token(token) => ProductionRule::Terminal(grammar[*token].name.clone()),
        ungrammar::Rule::Seq(rules) => ProductionRule::Sequence(convert_rules(grammar, rules)),
        ungrammar::Rule::Alt(rules) => ProductionRule::Alternation(convert_rules(grammar, rules)),
        ungrammar::Rule::Opt(rule) => ProductionRule::Optional(boxed(rule)),
        ungrammar::Rule::Rep(rule) => ProductionRule::Repetition(boxed(rule)),
    }
}

/// Rules of the crate ungrammar as rules of this library, one for one and
/// in their order. Nothing is claimed of the result.
#[verifier::external_body]
fn convert_rules(grammar: &ungrammar::Grammar, rules: &Vec<ungrammar::Rule>) -> Vec<
    ProductionRule,
> {
    rules.iter().map(|rule| convert_rule(grammar, rule)).collect()
}

/// The parser of the crate ungrammar, `Grammar::from_str`, and the grammar
/// that it gives as a grammar of this library: the nodes in their order as
/// productions, the tokens in their order as terminals. The result depends on
/// the text alone, and is what [`parsed_grammar`] stands for. Believed, not
/// proved.
#[verifier::external_body]
fn parse_grammar(text: &str) -> (res: Result<GrammarSpecification, String>)
    ensures
        match res {
            Ok(grammar) => parsed_grammar(text@) == Ok::<GrammarView, Seq<char>>(grammar@),
            Err(message) => parsed_grammar(text@) == Err::<GrammarView, Seq<char>>(message@),
        },
{
    let parsed: ungrammar::Grammar = match text.parse() {
        Ok(parsed) => parsed,
        Err::<_, ungrammar::Error>(error) => return Err(error.to_string()),
    };
    let production = |node: ungrammar::Node| Production {
        name: parsed[node].name.clone(),
        rule: convert_rule(&parsed, &parsed[node].rule),
    };
    let productions = parsed.iter().map(production).collect();
    let terminal = |token: ungrammar::Token| parsed[token].name.clone();
    let terminals = parsed.tokens().map(terminal).collect();
    Ok(GrammarSpecification { productions, terminals })
}

/// What is generated from a grammar.
#[derive(Debug, Clone, PartialEq, Eq)]
pub struct Generated {
    /// The schema of the syntax tree.
    pub ast: AstSrc,
    /// What the syntax kinds are made from.
    pub kinds: KindsSrc,
    /// The syntax kinds in their order.
    pub syntax_kinds: SyntaxKinds,
}

/// What a [`Generated`] holds.
pub struct GeneratedView {
    pub ast: AstView,
    pub kinds: KindsView,
    pub syntax_kinds: Seq<SyntaxKindView>,
}

impl View for Generated {
    type V = GeneratedView;

    open spec fn view(&self) -> GeneratedView {
        GeneratedView { ast: self.ast@, kinds: self.kinds@, syntax_kinds: self.syntax_kinds@ }
    }
}

/// Why nothing is generated.
#[derive(Debug, Clone, PartialEq, Eq)]
pub enum GenerateError {
    /// The text is no grammar: the message of the parser.
    Syntax(String),
    /// The grammar cannot be lowered.
    Lower(LowerError),
    /// The terminals of the grammar and the punctuation table do not agree.
    Kinds(KindsError),
}

/// What a [`GenerateError`] holds.
pub enum GenerateErrorView {
    Syntax(Seq<char>),
    Lower(LowerError),
    Kinds(KindsErrorView),
}

impl View for GenerateError {
    type V = GenerateErrorView;

    open spec fn view(&self) -> GenerateErrorView {
        match self {
            GenerateError::Syntax(message) => GenerateErrorView::Syntax(message@),
            GenerateError::Lower(error) => GenerateErrorView::Lower(*error),
            GenerateError::Kinds(error) => GenerateErrorView::Kinds(error@),
        }
    }
}

/// What is generated from a grammar: the schema that it lowers to, the
/// kinds that come of the schema and of the terminals of the grammar, and
/// the syntax kinds that come of those; or the first error on the way.
pub open spec fn generated(grammar: GrammarView) -> Result<GeneratedView, GenerateErrorView> {
    match lowered(grammar) {
        Err(error) => Err(GenerateErrorView::Lower(error)),
        Ok(ast) => match kinds_of(ast.nodes, ast.enums, grammar.terminals) {
            Err(error) => Err(GenerateErrorView::Kinds(error)),
            Ok(kinds) => Ok(GeneratedView { ast, kinds, syntax_kinds: syntax_kinds_of(kinds) }),
        },
    }
}

/// What is generated from the text of a grammar.
pub open spec fn generated_from_text(text: Seq<char>) -> Result<GeneratedView, GenerateErrorView> {
    match parsed_grammar(text) {
        Err(message) => Err(GenerateErrorView::Syntax(message)),
        Ok(grammar) => generated(grammar),
    }
}

/// What the outcome of a generation holds.
pub open spec fn outcome_view(res: Result<Generated, GenerateError>) -> Result<
    GeneratedView,
    GenerateErrorView,
> {
    match res {
        Ok(generated) => Ok(generated@),
        Err(error) => Err(error@),
    }
}

/// Generates the schema of the syntax tree and the syntax kinds from a
/// grammar.
pub fn generate_from_grammar(grammar: &GrammarSpecification) -> (res: Result<
    Generated,
    GenerateError,
>)
    ensures
        outcome_view(res) == generated(grammar@),
{
    let ast = match lower(grammar) {
        Ok(ast) => ast,
        Err(error) => {
            return Err(GenerateError::Lower(error));
        },
    };
    let kinds = match generate_kind_src(&ast.nodes, &ast.enums, grammar) {
        Ok(kinds) => kinds,
        Err(error) => {
            return Err(GenerateError::Kinds(error));
        },
    };
    let syntax_kinds = generate_syntax_kinds(&kinds);
    Ok(Generated { ast, kinds, syntax_kinds })
}

/// Generates the schema of the syntax tree and the syntax kinds from the
/// text of a grammar.
pub fn generate(grammar_text: &str) -> (res: Result<Generated, GenerateError>)
    ensures
        outcome_view(res) == generated_from_text(grammar_text@),
{
    match parse_grammar(grammar_text) {
        Ok(grammar) => generate_from_grammar(&grammar),
        Err(message) => Err(GenerateError::Syntax(message)),
    }
}

/// Generation is a function of the grammar: two outcomes for one grammar
/// hold the same schema, the same kinds and the same syntax kinds, or the
/// same error.
pub proof fn lemma_generation_is_deterministic(
    grammar: GrammarView,
    first: Result<Generated, GenerateError>,
    second: Result<Generated, GenerateError>,
)
    requires
        outcome_view(first) == generated(grammar),
        outcome_view(second) == generated(grammar),
    ensures
        outcome_view(first) == outcome_view(second),
        first is Ok <==> second is Ok,
        first matches Ok(a) ==> second matches Ok(b) && a@ == b@,
        first matches Err(a) ==> second matches Err(b) && a@ == b@,
{
}

} // verus!
