//! The schema of the syntax tree: node definitions with their fields, and
//! enum definitions with their variants.

use vstd::prelude::*;
use vstd::string::*;
use crate::codegen::grammar::utils::{str_eq, to_upper_snake_case, upper_snake_case};
use crate::codegen::grammar::GrammarSpecification;
use crate::sorting::{
    dedup, dedup_adjacent, lemma_dedup_adjacent_contains, lemma_sorted_contains, sort_strings,
    sorted, Precedes, SortKey, SortKeyed,
};
use crate::text::{
    char_is_alphabetic, chars_of, lemma_filter_map_contains, lemma_filter_map_is_empty,
    str_precedes, string_from_chars, view_all,
};

verus! {

/// How often the child of a node field occurs.
#[derive(Debug, Clone, Copy, PartialEq, Eq, Structural)]
pub enum Cardinality {
    /// Not at all, or once.
    Optional,
    /// Any number of times.
    Many,
}

/// A field of a node definition.
#[derive(Debug, Clone, PartialEq, Eq)]
pub enum Field {
    /// A token that the node must have, under its field name.
    Token(String),
    /// A child node of type `ty`.
    Node { name: String, ty: String, cardinality: Cardinality },
}

/// What a [`Field`] holds.
pub enum FieldView {
    Token(Seq<char>),
    Node { name: Seq<char>, ty: Seq<char>, cardinality: Cardinality },
}

impl View for Field {
    type V = FieldView;

    open spec fn view(&self) -> FieldView {
        match self {
            Field::Token(name) => FieldView::Token(name@),
            Field::Node { name, ty, cardinality } => FieldView::Node {
                name: name@,
                ty: ty@,
                cardinality: *cardinality,
            },
        }
    }
}

impl FieldView {
    /// The name of the field.
    pub open spec fn name(self) -> Seq<char> {
        match self {
            FieldView::Token(name) => name,
            FieldView::Node { name, .. } => name,
        }
    }

    /// The type of what the field holds: `SyntaxToken` for a token, the
    /// node type for a node.
    pub open spec fn ty(self) -> Seq<char> {
        match self {
            FieldView::Token(_) => "SyntaxToken"@,
            FieldView::Node { ty, .. } => ty,
        }
    }

    /// Whether the field holds any number of nodes.
    pub open spec fn is_many(self) -> bool {
        self matches FieldView::Node { cardinality: Cardinality::Many, .. }
    }

    /// Whether two fields are the same but for how often a node occurs:
    /// both tokens of one name, or both nodes of one name and one type.
    pub open spec fn same_shape(self, other: FieldView) -> bool {
        match (self, other) {
            (FieldView::Token(a), FieldView::Token(b)) => a == b,
            (
                FieldView::Node { name: a, ty: s, .. },
                FieldView::Node { name: b, ty: t, .. },
            ) => a == b && s == t,
            _ => false,
        }
    }

    /// The name of the method that reads the field.
    pub open spec fn method_name(self) -> Seq<char> {
        match self {
            FieldView::Token(name) => (if name == ":="@ {
                "walrus"@
            } else if name == "->"@ {
                "arrow"@
            } else if name == "{"@ {
                "bracket_curly_left"@
            } else if name == "}"@ {
                "bracket_curly_right"@
            } else if name == "("@ {
                "parenthesis_left"@
            } else if name == ")"@ {
                "parenthesis_right"@
            } else if name == ","@ {
                "comma"@
            } else if name == ":"@ {
                "colon"@
            } else {
                name
            }) + "_token"@,
            FieldView::Node { name, .. } => if name == "type"@ {
                "ty"@
            } else {
                name
            },
        }
    }
}

impl SortKeyed for FieldView {
    /// Token fields stand before node fields; within each, the name decides.
    open spec fn sort_key(&self) -> SortKey {
        match self {
            FieldView::Token(name) => SortKey { rank: 0, text: *name },
            FieldView::Node { name, .. } => SortKey { rank: 1, text: *name },
        }
    }
}

impl SortKeyed for Field {
    open spec fn sort_key(&self) -> SortKey {
        self@.sort_key()
    }
}

impl Precedes for Field {
    fn precedes(&self, other: &Self) -> (r: bool) {
        match (self, other) {
            (Field::Token(a), Field::Token(b)) => str_precedes(a.as_str(), b.as_str()),
            (Field::Token(_), Field::Node { .. }) => true,
            (Field::Node { .. }, Field::Token(_)) => false,
            (Field::Node { name: a, .. }, Field::Node { name: b, .. }) => str_precedes(
                a.as_str(),
                b.as_str(),
            ),
        }
    }
}

impl Field {
    /// Whether the field holds any number of nodes.
    pub fn is_many(&self) -> (r: bool)
        ensures
            r == self@.is_many(),
    {
        match self {
            Field::Node { cardinality: Cardinality::Many, .. } => true,
            _ => false,
        }
    }

    /// The name of the method that reads the field: for a token its
    /// pronounceable name and `_token`, for a node the field name, with `ty`
    /// in place of `type`.
    pub fn method_name(&self) -> (r: String)
        ensures
            r@ == self@.method_name(),
    {
        match self {
            Field::Token(name) => {
                let name = name.as_str();
                let base = if str_eq(name, ":=") {
                    String::from_str("walrus")
                } else if str_eq(name, "->") {
                    String::from_str("arrow")
                } else if str_eq(name, "{") {
                    String::from_str("bracket_curly_left")
                } else if str_eq(name, "}") {
                    String::from_str("bracket_curly_right")
                } else if str_eq(name, "(") {
                    String::from_str("parenthesis_left")
                } else if str_eq(name, ")") {
                    String::from_str("parenthesis_right")
                } else if str_eq(name, ",") {
                    String::from_str("comma")
                } else if str_eq(name, ":") {
                    String::from_str("colon")
                } else {
                    String::from_str(name)
                };
                base.concat("_token")
            },
            Field::Node { name, .. } => {
                if str_eq(name.as_str(), "type") {
                    String::from_str("ty")
                } else {
                    name.clone()
                }
            },
        }
    }

    /// The type of what the field holds: `SyntaxToken` for a token, the
    /// node type for a node.
    pub fn ty(&self) -> (r: String)
        ensures
            r@ == self@.ty(),
    {
        match self {
            Field::Token(_) => String::from_str("SyntaxToken"),
            Field::Node { ty, .. } => ty.clone(),
        }
    }

    /// A field that holds the same as this one.
    pub fn duplicate(&self) -> (r: Field)
        ensures
            r@ == self@,
    {
        match self {
            Field::Token(name) => Field::Token(name.clone()),
            Field::Node { name, ty, cardinality } => Field::Node {
                name: name.clone(),
                ty: ty.clone(),
                cardinality: *cardinality,
            },
        }
    }

    /// Whether two fields are the same but for how often a node occurs.
    pub fn same_shape(&self, other: &Field) -> (r: bool)
        ensures
            r == self@.same_shape(other@),
    {
        match (self, other) {
            (Field::Token(a), Field::Token(b)) => str_eq(a.as_str(), b.as_str()),
            (Field::Node { name: a, ty: s, .. }, Field::Node { name: b, ty: t, .. }) => str_eq(
                a.as_str(),
                b.as_str(),
            ) && str_eq(s.as_str(), t.as_str()),
            _ => false,
        }
    }
}

/// A node definition: a production that is not an alternation of
/// non-terminals alone.
#[derive(Debug, Clone, PartialEq, Eq)]
pub struct AstNodeSrc {
    pub name: String,
    pub fields: Vec<Field>,
}

/// What an [`AstNodeSrc`] holds.
pub struct AstNodeView {
    pub name: Seq<char>,
    pub fields: Seq<FieldView>,
}

impl View for AstNodeSrc {
    type V = AstNodeView;

    open spec fn view(&self) -> AstNodeView {
        AstNodeView { name: self.name@, fields: view_all(self.fields@) }
    }
}

impl SortKeyed for AstNodeView {
    open spec fn sort_key(&self) -> SortKey {
        SortKey { rank: 0, text: self.name }
    }
}

impl SortKeyed for AstNodeSrc {
    open spec fn sort_key(&self) -> SortKey {
        self@.sort_key()
    }
}

impl Precedes for AstNodeSrc {
    fn precedes(&self, other: &Self) -> (r: bool) {
        str_precedes(self.name.as_str(), other.name.as_str())
    }
}

/// An enum definition: a production that is an alternation of
/// non-terminals.
#[derive(Debug, Clone, PartialEq, Eq)]
pub struct AstEnumSrc {
    pub name: String,
    pub variants: Vec<String>,
}

/// What an [`AstEnumSrc`] holds.
pub struct AstEnumView {
    pub name: Seq<char>,
    pub variants: Seq<Seq<char>>,
}

impl View for AstEnumSrc {
    type V = AstEnumView;

    open spec fn view(&self) -> AstEnumView {
        AstEnumView { name: self.name@, variants: view_all(self.variants@) }
    }
}

impl SortKeyed for AstEnumView {
    open spec fn sort_key(&self) -> SortKey {
        SortKey { rank: 0, text: self.name }
    }
}

impl SortKeyed for AstEnumSrc {
    open spec fn sort_key(&self) -> SortKey {
        self@.sort_key()
    }
}

impl Precedes for AstEnumSrc {
    fn precedes(&self, other: &Self) -> (r: bool) {
        str_precedes(self.name.as_str(), other.name.as_str())
    }
}

/// The schema of the syntax tree.
#[derive(Debug, Clone, PartialEq, Eq)]
pub struct AstSrc {
    pub tokens: Vec<String>,
    pub nodes: Vec<AstNodeSrc>,
    pub enums: Vec<AstEnumSrc>,
}

/// What an [`AstSrc`] holds.
pub struct AstView {
    pub tokens: Seq<Seq<char>>,
    pub nodes: Seq<AstNodeView>,
    pub enums: Seq<AstEnumView>,
}

impl View for AstSrc {
    type V = AstView;

    open spec fn view(&self) -> AstView {
        AstView {
            tokens: view_all(self.tokens@),
            nodes: view_all(self.nodes@),
            enums: view_all(self.enums@),
        }
    }
}

/// The class of a terminal of the grammar.
#[derive(Debug, Clone, Copy, PartialEq, Eq, Structural)]
pub enum TerminalClass {
    /// The terminal that stands for the end of the input.
    EndOfFile,
    /// A literal: its name begins with `@`.
    Literal,
    /// A token without fixed spelling: its name begins with `#`.
    GenericToken,
    /// A keyword in some places only.
    ContextualKeyword,
    /// A keyword everywhere.
    StrictKeyword,
    /// A symbol of the punctuation table.
    Punctuation,
    /// A symbol that the punctuation table lacks.
    Unknown,
}

/// The punctuation of the language: the spelling of each symbol and the
/// name of its kind.
pub open spec fn punctuation_table() -> Seq<(Seq<char>, Seq<char>)> {
    seq![
        (":="@, "WALRUS"@),
        ("->"@, "ARROW"@),
        ("{"@, "BRACKET_CURLY_LEFT"@),
        ("}"@, "BRACKET_CURLY_RIGHT"@),
        ("("@, "PARENTHESIS_LEFT"@),
        (")"@, "PARENTHESIS_RIGHT"@),
        (","@, "COMMA"@),
        (":"@, "COLON"@),
    ]
}

/// The kinds of token that every grammar has.
pub open spec fn builtin_tokens() -> Seq<Seq<char>> {
    seq!["ERROR"@, "WHITESPACE"@, "COMMENT"@]
}

/// The keywords that are keywords in some places only.
pub open spec fn contextual_keyword_table() -> Seq<Seq<char>> {
    seq!["data"@]
}

/// The name of the terminal that stands for the end of the input.
pub open spec fn end_of_file_name() -> Seq<char> {
    "EOF"@
}

/// Whether `name` begins with `marker` and goes on behind it.
pub open spec fn has_marker(name: Seq<char>, marker: char) -> bool {
    name.len() > 1 && name[0] == marker
}

/// Whether `name` is made of alphabetic characters, at least one.
pub open spec fn is_alphabetic_name(name: Seq<char>) -> bool {
    name.len() > 0 && forall|i: int| 0 <= i < name.len() ==> char_is_alphabetic(#[trigger] name[i])
}

/// The first place from `i` on at which `table` spells `name`.
pub open spec fn spelling_index_from(
    table: Seq<(Seq<char>, Seq<char>)>,
    name: Seq<char>,
    i: int,
) -> Option<int>
    decreases table.len() - i,
{
    if i < 0 || i >= table.len() {
        None
    } else if table[i].0 == name {
        Some(i)
    } else {
        spelling_index_from(table, name, i + 1)
    }
}

/// The place of the symbol `name` in the punctuation table, if it has one.
pub open spec fn punctuation_index(name: Seq<char>) -> Option<int> {
    spelling_index_from(punctuation_table(), name, 0)
}

/// Whether `name` is a symbol: neither the end of the input, nor a
/// literal, a token without fixed spelling or a keyword.
pub open spec fn is_symbol_name(name: Seq<char>) -> bool {
    &&& name != end_of_file_name()
    &&& !has_marker(name, '@')
    &&& !has_marker(name, '#')
    &&& !contextual_keyword_table().contains(name)
    &&& !is_alphabetic_name(name)
}

/// The class of the terminal `name`. The tests are made in this order, and
/// the first that holds decides.
pub open spec fn terminal_class(name: Seq<char>) -> TerminalClass {
    if name == end_of_file_name() {
        TerminalClass::EndOfFile
    } else if has_marker(name, '@') {
        TerminalClass::Literal
    } else if has_marker(name, '#') {
        TerminalClass::GenericToken
    } else if contextual_keyword_table().contains(name) {
        TerminalClass::ContextualKeyword
    } else if is_alphabetic_name(name) {
        TerminalClass::StrictKeyword
    } else if punctuation_index(name) is Some {
        TerminalClass::Punctuation
    } else {
        TerminalClass::Unknown
    }
}

/// The kind name of a literal terminal, and nothing for any other.
pub open spec fn literal_kind() -> spec_fn(Seq<char>) -> Option<Seq<char>> {
    |name: Seq<char>|
        if terminal_class(name) == TerminalClass::Literal {
            Some(upper_snake_case(name.skip(1)))
        } else {
            None
        }
}

/// The kind name of a terminal without fixed spelling, and nothing for any
/// other.
pub open spec fn generic_token_kind() -> spec_fn(Seq<char>) -> Option<Seq<char>> {
    |name: Seq<char>|
        if terminal_class(name) == TerminalClass::GenericToken {
            Some(upper_snake_case(name.skip(1)))
        } else {
            None
        }
}

/// A strict keyword itself, and nothing for any other terminal.
pub open spec fn strict_keyword() -> spec_fn(Seq<char>) -> Option<Seq<char>> {
    |name: Seq<char>|
        if terminal_class(name) == TerminalClass::StrictKeyword {
            Some(name)
        } else {
            None
        }
}

/// A symbol that the punctuation table lacks, and nothing for any other
/// terminal.
pub open spec fn unknown_symbol() -> spec_fn(Seq<char>) -> Option<Seq<char>> {
    |name: Seq<char>|
        if terminal_class(name) == TerminalClass::Unknown {
            Some(name)
        } else {
            None
        }
}

/// The place in the punctuation table of a symbol that it holds, and
/// nothing for any other terminal.
pub open spec fn used_punctuation() -> spec_fn(Seq<char>) -> Option<int> {
    |name: Seq<char>|
        if terminal_class(name) == TerminalClass::Punctuation {
            punctuation_index(name)
        } else {
            None
        }
}

/// The first place from `j` on in the punctuation table that is not among
/// `used`.
pub open spec fn first_unused_from(used: Seq<int>, j: int) -> Option<int>
    decreases punctuation_table().len() - j,
{
    if j < 0 || j >= punctuation_table().len() {
        None
    } else if !used.contains(j) {
        Some(j)
    } else {
        first_unused_from(used, j + 1)
    }
}

/// The kind names of node definitions.
pub open spec fn node_kinds(nodes: Seq<AstNodeView>) -> Seq<Seq<char>> {
    nodes.map_values(|node: AstNodeView| upper_snake_case(node.name))
}

/// The kind names of enum definitions.
pub open spec fn enum_kinds(enums: Seq<AstEnumView>) -> Seq<Seq<char>> {
    enums.map_values(|enm: AstEnumView| upper_snake_case(enm.name))
}

/// What the syntax kinds are made from: the names of each class of kind.
#[derive(Debug, Clone, PartialEq, Eq)]
pub struct KindsSrc {
    /// The spelling and the kind name of each symbol.
    pub punct: Vec<(String, String)>,
    /// The strict keywords.
    pub keywords: Vec<String>,
    /// The keywords that are keywords in some places only.
    pub contextual_keywords: Vec<String>,
    /// The kind names of the literals.
    pub literals: Vec<String>,
    /// The kind names of the tokens without fixed spelling.
    pub tokens: Vec<String>,
    /// The kind names of the node definitions.
    pub nodes: Vec<String>,
    /// The kind names of the enum definitions.
    pub enums: Vec<String>,
}

/// What a [`KindsSrc`] holds.
pub struct KindsView {
    pub punct: Seq<(Seq<char>, Seq<char>)>,
    pub keywords: Seq<Seq<char>>,
    pub contextual_keywords: Seq<Seq<char>>,
    pub literals: Seq<Seq<char>>,
    pub tokens: Seq<Seq<char>>,
    pub nodes: Seq<Seq<char>>,
    pub enums: Seq<Seq<char>>,
}

impl View for KindsSrc {
    type V = KindsView;

    open spec fn view(&self) -> KindsView {
        KindsView {
            punct: view_all(self.punct@),
            keywords: view_all(self.keywords@),
            contextual_keywords: view_all(self.contextual_keywords@),
            literals: view_all(self.literals@),
            tokens: view_all(self.tokens@),
            nodes: view_all(self.nodes@),
            enums: view_all(self.enums@),
        }
    }
}

/// Why the kinds cannot be made from a grammar.
#[derive(Debug, Clone, PartialEq, Eq)]
pub enum KindsError {
    /// The grammar has a symbol that the punctuation table lacks.
    UnknownPunctuation(String),
    /// The punctuation table has a symbol that the grammar lacks.
    UnusedPunctuation(String),
}

/// What a [`KindsError`] holds.
pub enum KindsErrorView {
    UnknownPunctuation(Seq<char>),
    UnusedPunctuation(Seq<char>),
}

impl View for KindsError {
    type V = KindsErrorView;

    open spec fn view(&self) -> KindsErrorView {
        match self {
            KindsError::UnknownPunctuation(name) => KindsErrorView::UnknownPunctuation(name@),
            KindsError::UnusedPunctuation(name) => KindsErrorView::UnusedPunctuation(name@),
        }
    }
}

impl KindsError {
    /// The error in words.
    pub fn message(&self) -> (r: String)
        ensures
            r@ == match self@ {
                KindsErrorView::UnknownPunctuation(name) => {
                    "Grammar references unknown punctuation "@ + name
                },
                KindsErrorView::UnusedPunctuation(name) => {
                    "Punctuation is not used in grammar: "@ + name
                },
            },
    {
        match self {
            KindsError::UnknownPunctuation(name) => String::from_str(
                "Grammar references unknown punctuation ",
            ).concat(name.as_str()),
            KindsError::UnusedPunctuation(name) => String::from_str(
                "Punctuation is not used in grammar: ",
            ).concat(name.as_str()),
        }
    }
}

/// The kinds that come of the node definitions, the enum definitions and
/// the terminals of a grammar, or the reason why there are none: the first
/// symbol of the grammar that the punctuation table lacks or, where there
/// is none, the first symbol of the table that the grammar lacks.
pub open spec fn kinds_of(
    nodes: Seq<AstNodeView>,
    enums: Seq<AstEnumView>,
    terminals: Seq<Seq<char>>,
) -> Result<KindsView, KindsErrorView> {
    let unknown = terminals.filter_map(unknown_symbol());
    if unknown.len() > 0 {
        Err(KindsErrorView::UnknownPunctuation(unknown[0]))
    } else {
        match first_unused_from(terminals.filter_map(used_punctuation()), 0) {
            Some(j) => Err(KindsErrorView::UnusedPunctuation(punctuation_table()[j].0)),
            None => Ok(
                KindsView {
                    punct: punctuation_table(),
                    keywords: dedup_adjacent(sorted(terminals.filter_map(strict_keyword()))),
                    contextual_keywords: dedup_adjacent(sorted(contextual_keyword_table())),
                    literals: sorted(terminals.filter_map(literal_kind())),
                    tokens: sorted(builtin_tokens() + terminals.filter_map(generic_token_kind())),
                    nodes: sorted(node_kinds(nodes)),
                    enums: sorted(enum_kinds(enums)),
                },
            ),
        }
    }
}

/// The punctuation of the language.
pub fn punctuations() -> (table: Vec<(String, String)>)
    ensures
        view_all(table@) == punctuation_table(),
{
    let mut table: Vec<(String, String)> = Vec::new();
    table.push((String::from_str(":="), String::from_str("WALRUS")));
    table.push((String::from_str("->"), String::from_str("ARROW")));
    table.push((String::from_str("{"), String::from_str("BRACKET_CURLY_LEFT")));
    table.push((String::from_str("}"), String::from_str("BRACKET_CURLY_RIGHT")));
    table.push((String::from_str("("), String::from_str("PARENTHESIS_LEFT")));
    table.push((String::from_str(")"), String::from_str("PARENTHESIS_RIGHT")));
    table.push((String::from_str(","), String::from_str("COMMA")));
    table.push((String::from_str(":"), String::from_str("COLON")));
    assert(view_all(table@) =~= punctuation_table());
    table
}

/// The keywords that are keywords in some places only.
pub fn contextual_keywords() -> (table: Vec<String>)
    ensures
        view_all(table@) == contextual_keyword_table(),
{
    let mut table: Vec<String> = Vec::new();
    table.push(String::from_str("data"));
    assert(view_all(table@) =~= contextual_keyword_table());
    table
}

/// Whether one of `strings` holds the characters of `s`.
pub fn contains_str(strings: &Vec<String>, s: &str) -> (r: bool)
    ensures
        r == view_all(strings@).contains(s@),
{
    let mut i: usize = 0;
    while i < strings.len()
        invariant
            i <= strings.len(),
            forall|j: int| 0 <= j < i ==> view_all(strings@)[j] != s@,
        decreases strings.len() - i,
    {
        if str_eq(strings[i].as_str(), s) {
            assert(view_all(strings@)[i as int] == s@);
            return true;
        }
        i += 1;
    }
    false
}

fn spelling_index(table: &Vec<(String, String)>, name: &str) -> (r: Option<usize>)
    ensures
        match r {
            Some(i) => spelling_index_from(view_all(table@), name@, 0) == Some(i as int) && i
                < table.len(),
            None => spelling_index_from(view_all(table@), name@, 0) is None,
        },
{
    let mut i: usize = 0;
    while i < table.len()
        invariant
            i <= table.len(),
            spelling_index_from(view_all(table@), name@, 0) == spelling_index_from(
                view_all(table@),
                name@,
                i as int,
            ),
        decreases table.len() - i,
    {
        assert(view_all(table@)[i as int].0 == table@[i as int].0@);
        if str_eq(table[i].0.as_str(), name) {
            return Some(i);
        }
        i += 1;
    }
    None
}

fn is_alphabetic(chars: &Vec<char>) -> (r: bool)
    ensures
        r == is_alphabetic_name(chars@),
{
    if chars.len() == 0 {
        return false;
    }
    let mut i: usize = 0;
    while i < chars.len()
        invariant
            i <= chars.len(),
            forall|j: int| 0 <= j < i ==> char_is_alphabetic(#[trigger] chars@[j]),
        decreases chars.len() - i,
    {
        if !chars[i].is_alphabetic() {
            return false;
        }
        i += 1;
    }
    true
}

fn classify_in(name: &str, punct: &Vec<(String, String)>, contextual: &Vec<String>) -> (r: (
    TerminalClass,
    usize,
))
    requires
        view_all(punct@) == punctuation_table(),
        view_all(contextual@) == contextual_keyword_table(),
    ensures
        r.0 == terminal_class(name@),
        r.0 == TerminalClass::Punctuation ==> punctuation_index(name@) == Some(r.1 as int) && r.1
            < punct.len(),
{
    let chars = chars_of(name);
    if str_eq(name, "EOF") {
        (TerminalClass::EndOfFile, 0)
    } else if chars.len() > 1 && chars[0] == '@' {
        (TerminalClass::Literal, 0)
    } else if chars.len() > 1 && chars[0] == '#' {
        (TerminalClass::GenericToken, 0)
    } else if contains_str(contextual, name) {
        (TerminalClass::ContextualKeyword, 0)
    } else if is_alphabetic(&chars) {
        (TerminalClass::StrictKeyword, 0)
    } else {
        match spelling_index(punct, name) {
            Some(i) => (TerminalClass::Punctuation, i),
            None => (TerminalClass::Unknown, 0),
        }
    }
}

/// The class of the terminal `name`.
pub fn classify_terminal(name: &str) -> (class: TerminalClass)
    ensures
        class == terminal_class(name@),
{
    let punct = punctuations();
    let contextual = contextual_keywords();
    classify_in(name, &punct, &contextual).0
}

fn kind_name_behind_marker(name: &str) -> (r: String)
    requires
        name@.len() > 0,
    ensures
        r@ == upper_snake_case(name@.skip(1)),
{
    let chars = chars_of(name);
    let mut rest: Vec<char> = Vec::new();
    let mut i: usize = 1;
    while i < chars.len()
        invariant
            1 <= i <= chars.len(),
            rest@ == chars@.subrange(1, i as int),
        decreases chars.len() - i,
    {
        rest.push(chars[i]);
        i += 1;
    }
    assert(rest@ == chars@.skip(1));
    let rest = string_from_chars(&rest);
    to_upper_snake_case(rest.as_str())
}

proof fn lemma_contains_after_add(s: Seq<int>, more: Seq<int>, j: int)
    ensures
        (s + more).contains(j) <==> s.contains(j) || more.contains(j),
{
    if s.contains(j) {
        let k = choose|k: int| 0 <= k < s.len() && s[k] == j;
        assert((s + more)[k] == j);
    }
    if more.contains(j) {
        let k = choose|k: int| 0 <= k < more.len() && more[k] == j;
        assert((s + more)[s.len() + k] == j);
    }
    if (s + more).contains(j) {
        let k = choose|k: int| 0 <= k < (s + more).len() && (s + more)[k] == j;
        if k < s.len() {
            assert(s[k] == j);
        } else {
            assert(more[k - s.len()] == j);
        }
    }
}

/// The kinds that come of the node definitions, the enum definitions and
/// the terminals of a grammar. Every terminal but the end of the input is
/// put in its class; a symbol that the punctuation table lacks, and a symbol
/// of the table that the grammar lacks, are errors.
pub fn generate_kind_src(
    nodes: &Vec<AstNodeSrc>,
    enums: &Vec<AstEnumSrc>,
    grammar: &GrammarSpecification,
) -> (res: Result<KindsSrc, KindsError>)
    ensures
        match res {
            Ok(kinds) => kinds_of(view_all(nodes@), view_all(enums@), grammar@.terminals) == Ok::<
                KindsView,
                KindsErrorView,
            >(kinds@),
            Err(error) => kinds_of(view_all(nodes@), view_all(enums@), grammar@.terminals) == Err::<
                KindsView,
                KindsErrorView,
            >(error@),
        },
{
    let punct = punctuations();
    let mut contextual = contextual_keywords();
    let mut keywords: Vec<String> = Vec::new();
    let mut tokens: Vec<String> = Vec::new();
    tokens.push(String::from_str("ERROR"));
    tokens.push(String::from_str("WHITESPACE"));
    tokens.push(String::from_str("COMMENT"));
    let mut literals: Vec<String> = Vec::new();
    let mut used: Vec<bool> = Vec::new();
    let mut j: usize = 0;
    while j < punct.len()
        invariant
            j <= punct.len(),
            used.len() == j,
            forall|k: int| 0 <= k < j ==> !used[k],
        decreases punct.len() - j,
    {
        used.push(false);
        j += 1;
    }
    let mut unknown: Option<String> = None;
    let ghost terminals = grammar@.terminals;
    let mut i: usize = 0;
    assert(terminals.take(0) == Seq::<Seq<char>>::empty());
    assert(view_all(tokens@) =~= builtin_tokens() + Seq::<Seq<char>>::empty());
    assert(view_all(keywords@) =~= Seq::<Seq<char>>::empty());
    assert(view_all(literals@) =~= Seq::<Seq<char>>::empty());
    while i < grammar.terminals.len()
        invariant
            i <= grammar.terminals.len(),
            terminals == view_all(grammar.terminals@),
            view_all(punct@) == punctuation_table(),
            view_all(contextual@) == contextual_keyword_table(),
            used.len() == punct.len(),
            forall|k: int|
                0 <= k < used.len() ==> used[k] == terminals.take(i as int).filter_map(
                    used_punctuation(),
                ).contains(k),
            view_all(keywords@) == terminals.take(i as int).filter_map(strict_keyword()),
            view_all(literals@) == terminals.take(i as int).filter_map(literal_kind()),
            view_all(tokens@) == builtin_tokens() + terminals.take(i as int).filter_map(
                generic_token_kind(),
            ),
            match unknown {
                Some(name) => terminals.take(i as int).filter_map(unknown_symbol()).len() > 0
                    && terminals.take(i as int).filter_map(unknown_symbol())[0] == name@,
                None => terminals.take(i as int).filter_map(unknown_symbol()).len() == 0,
            },
        decreases grammar.terminals.len() - i,
    {
        let name = grammar.terminals[i].as_str();
        assert(name@ == terminals[i as int]);
        proof {
            terminals.lemma_filter_map_take_succ(used_punctuation(), i as int);
            terminals.lemma_filter_map_take_succ(strict_keyword(), i as int);
            terminals.lemma_filter_map_take_succ(literal_kind(), i as int);
            terminals.lemma_filter_map_take_succ(generic_token_kind(), i as int);
            terminals.lemma_filter_map_take_succ(unknown_symbol(), i as int);
        }
        let ghost used_before = terminals.take(i as int).filter_map(used_punctuation());
        let ghost keywords_before = view_all(keywords@);
        let ghost literals_before = view_all(literals@);
        let ghost tokens_before = view_all(tokens@);
        let (class, index) = classify_in(name, &punct, &contextual);
        match class {
            TerminalClass::Literal => {
                literals.push(kind_name_behind_marker(name));
                assert(view_all(literals@) =~= literals_before + seq![
                    upper_snake_case(name@.skip(1)),
                ]);
            },
            TerminalClass::GenericToken => {
                tokens.push(kind_name_behind_marker(name));
                assert(view_all(tokens@) =~= tokens_before + seq![upper_snake_case(name@.skip(1))]);
            },
            TerminalClass::StrictKeyword => {
                keywords.push(String::from_str(name));
                assert(view_all(keywords@) =~= keywords_before + seq![name@]);
            },
            TerminalClass::Punctuation => {
                used.set(index, true);
            },
            TerminalClass::Unknown => {
                if unknown.is_none() {
                    unknown = Some(String::from_str(name));
                }
            },
            _ => {},
        }
        proof {
            let step = match used_punctuation()(name@) {
                Some(k) => seq![k],
                None => Seq::<int>::empty(),
            };
            assert forall|k: int| 0 <= k < used.len() implies used[k] == (used_before
                + step).contains(k) by {
                lemma_contains_after_add(used_before, step, k);
                if step.len() > 0 {
                    assert(step[0] == index);
                }
            }
        }
        i += 1;
    }
    assert(terminals.take(i as int) == terminals);
    if let Some(name) = unknown {
        return Err(KindsError::UnknownPunctuation(name));
    }
    let ghost used_places = terminals.filter_map(used_punctuation());
    let mut j: usize = 0;
    while j < punct.len()
        invariant
            j <= punct.len(),
            used.len() == punct.len(),
            view_all(punct@) == punctuation_table(),
            forall|k: int| 0 <= k < used.len() ==> used[k] == used_places.contains(k),
            first_unused_from(used_places, 0) == first_unused_from(used_places, j as int),
            used_places == terminals.filter_map(used_punctuation()),
            terminals == grammar@.terminals,
            terminals.filter_map(unknown_symbol()).len() == 0,
        decreases punct.len() - j,
    {
        if !used[j] {
            assert(view_all(punct@)[j as int].0 == punct@[j as int].0@);
            return Err(KindsError::UnusedPunctuation(punct[j].0.clone()));
        }
        j += 1;
    }
    let mut node_names: Vec<String> = Vec::new();
    let mut n: usize = 0;
    while n < nodes.len()
        invariant
            n <= nodes.len(),
            view_all(node_names@) == node_kinds(view_all(nodes@)).take(n as int),
        decreases nodes.len() - n,
    {
        let ghost before = view_all(node_names@);
        node_names.push(to_upper_snake_case(nodes[n].name.as_str()));
        assert(view_all(node_names@) =~= before.push(upper_snake_case(nodes@[n as int]@.name)));
        assert(view_all(node_names@) =~= node_kinds(view_all(nodes@)).take(n as int + 1));
        n += 1;
    }
    assert(node_kinds(view_all(nodes@)).take(nodes.len() as int) == node_kinds(view_all(nodes@)));
    let mut enum_names: Vec<String> = Vec::new();
    let mut n: usize = 0;
    while n < enums.len()
        invariant
            n <= enums.len(),
            view_all(enum_names@) == enum_kinds(view_all(enums@)).take(n as int),
        decreases enums.len() - n,
    {
        let ghost before = view_all(enum_names@);
        enum_names.push(to_upper_snake_case(enums[n].name.as_str()));
        assert(view_all(enum_names@) =~= before.push(upper_snake_case(enums@[n as int]@.name)));
        assert(view_all(enum_names@) =~= enum_kinds(view_all(enums@)).take(n as int + 1));
        n += 1;
    }
    assert(enum_kinds(view_all(enums@)).take(enums.len() as int) == enum_kinds(view_all(enums@)));
    sort_strings(&mut keywords);
    let keywords = dedup(&keywords);
    sort_strings(&mut contextual);
    let contextual = dedup(&contextual);
    sort_strings(&mut literals);
    sort_strings(&mut tokens);
    sort_strings(&mut node_names);
    sort_strings(&mut enum_names);
    Ok(
        KindsSrc {
            punct,
            keywords,
            contextual_keywords: contextual,
            literals,
            tokens,
            nodes: node_names,
            enums: enum_names,
        },
    )
}

/// Every symbol among the terminals stands in the punctuation table.
pub open spec fn every_symbol_is_declared(terminals: Seq<Seq<char>>) -> bool {
    forall|k: int|
        0 <= k < terminals.len() && is_symbol_name(#[trigger] terminals[k]) ==> punctuation_index(
            terminals[k],
        ) is Some
}

/// The symbol at `j` of the punctuation table is one of the terminals, as a
/// symbol.
pub open spec fn punctuation_is_used(terminals: Seq<Seq<char>>, j: int) -> bool {
    exists|k: int|
        0 <= k < terminals.len() && is_symbol_name(#[trigger] terminals[k]) && terminals[k]
            == punctuation_table()[j].0
}

/// Every symbol of the punctuation table is one of the terminals.
pub open spec fn every_punctuation_is_used(terminals: Seq<Seq<char>>) -> bool {
    forall|j: int|
        0 <= j < punctuation_table().len() ==> #[trigger] punctuation_is_used(terminals, j)
}

proof fn lemma_spelling_index(table: Seq<(Seq<char>, Seq<char>)>, name: Seq<char>, i: int)
    requires
        0 <= i,
    ensures
        match spelling_index_from(table, name, i) {
            Some(j) => i <= j < table.len() && table[j].0 == name && forall|k: int|
                i <= k < j ==> (#[trigger] table[k]).0 != name,
            None => forall|k: int| i <= k < table.len() ==> (#[trigger] table[k]).0 != name,
        },
    decreases table.len() - i,
{
    if i < table.len() && table[i].0 != name {
        lemma_spelling_index(table, name, i + 1);
    }
}

proof fn lemma_first_unused(used: Seq<int>, j: int)
    requires
        0 <= j,
    ensures
        first_unused_from(used, j) is None <==> forall|k: int|
            j <= k < punctuation_table().len() ==> #[trigger] used.contains(k),
    decreases punctuation_table().len() - j,
{
    if j < punctuation_table().len() {
        lemma_first_unused(used, j + 1);
        if first_unused_from(used, j) is None {
            assert forall|k: int| j <= k < punctuation_table().len() implies used.contains(k) by {
                if k > j {
                }
            }
        }
    }
}

/// No two entries of the punctuation table spell the same symbol.
pub proof fn lemma_punctuation_table_is_distinct()
    ensures
        forall|i: int, j: int|
            0 <= i < j < punctuation_table().len() ==> (#[trigger] punctuation_table()[i]).0 != (
            #[trigger] punctuation_table()[j]).0,
{
    reveal_strlit(":=");
    reveal_strlit("->");
    reveal_strlit("{");
    reveal_strlit("}");
    reveal_strlit("(");
    reveal_strlit(")");
    reveal_strlit(",");
    reveal_strlit(":");
    let table = punctuation_table();
    assert(table[0].0.len() == 2 && table[0].0[0] == ':');
    assert(table[1].0.len() == 2 && table[1].0[0] == '-');
    assert(table[2].0.len() == 1 && table[2].0[0] == '{');
    assert(table[3].0.len() == 1 && table[3].0[0] == '}');
    assert(table[4].0.len() == 1 && table[4].0[0] == '(');
    assert(table[5].0.len() == 1 && table[5].0[0] == ')');
    assert(table[6].0.len() == 1 && table[6].0[0] == ',');
    assert(table[7].0.len() == 1 && table[7].0[0] == ':');
}

/// Every symbol of the punctuation table is a symbol to the
/// classification of terminals.
pub proof fn lemma_punctuation_is_classified(j: int)
    requires
        0 <= j < punctuation_table().len(),
    ensures
        terminal_class(punctuation_table()[j].0) == TerminalClass::Punctuation,
{
    let table = punctuation_table();
    let name = table[j].0;
    reveal_strlit(":=");
    reveal_strlit("->");
    reveal_strlit("{");
    reveal_strlit("}");
    reveal_strlit("(");
    reveal_strlit(")");
    reveal_strlit(",");
    reveal_strlit(":");
    reveal_strlit("EOF");
    reveal_strlit("data");
    assert(table[0].0[0] == ':' && table[1].0[0] == '-' && table[2].0[0] == '{' && table[3].0[0]
        == '}');
    assert(table[4].0[0] == '(' && table[5].0[0] == ')' && table[6].0[0] == ',' && table[7].0[0]
        == ':');
    assert("EOF"@[0] == 'E' && "data"@[0] == 'd');
    assert(!char_is_alphabetic(name[0]));
    assert(!contextual_keyword_table().contains(name)) by {
        assert(contextual_keyword_table()[0] == "data"@);
    }
    lemma_spelling_index(table, name, 0);
}

/// The kinds can be made exactly where the grammar and the punctuation
/// table agree: every symbol of the grammar stands in the table, and every
/// symbol of the table is a terminal of the grammar.
pub proof fn lemma_punctuation_round_trip(
    nodes: Seq<AstNodeView>,
    enums: Seq<AstEnumView>,
    terminals: Seq<Seq<char>>,
)
    ensures
        kinds_of(nodes, enums, terminals) is Ok <==> every_symbol_is_declared(terminals)
            && every_punctuation_is_used(terminals),
        kinds_of(nodes, enums, terminals) matches Err(KindsErrorView::UnknownPunctuation(_))
            <==> !every_symbol_is_declared(terminals),
{
    let table = punctuation_table();
    let used = terminals.filter_map(used_punctuation());
    lemma_filter_map_is_empty(terminals, unknown_symbol());
    lemma_first_unused(used, 0);
    lemma_punctuation_table_is_distinct();
    assert forall|k: int| 0 <= k < terminals.len() implies (unknown_symbol()(
        #[trigger] terminals[k],
    ) is None <==> (is_symbol_name(terminals[k]) ==> punctuation_index(terminals[k]) is Some)) by {}
    assert forall|j: int| 0 <= j < table.len() implies (used.contains(j)
        <==> #[trigger] punctuation_is_used(terminals, j)) by {
        lemma_filter_map_contains(terminals, used_punctuation(), j);
        if used.contains(j) {
            let k = choose|k: int|
                0 <= k < terminals.len() && used_punctuation()(#[trigger] terminals[k]) == Some(j);
            lemma_spelling_index(table, terminals[k], 0);
        }
        if punctuation_is_used(terminals, j) {
            let k = choose|k: int|
                0 <= k < terminals.len() && is_symbol_name(#[trigger] terminals[k]) && terminals[k]
                    == table[j].0;
            lemma_spelling_index(table, terminals[k], 0);
            assert(used_punctuation()(terminals[k]) == Some(j));
        }
    }
    if every_punctuation_is_used(terminals) {
        assert forall|j: int| 0 <= j < table.len() implies #[trigger] used.contains(j) by {
            assert(punctuation_is_used(terminals, j));
        }
    }
    if first_unused_from(used, 0) is None {
        assert forall|j: int| 0 <= j < table.len() implies #[trigger] punctuation_is_used(
            terminals,
            j,
        ) by {
            assert(used.contains(j));
        }
    }
}

/// The keywords everywhere and the keywords in some places only have no
/// keyword in common.
pub proof fn lemma_keyword_sets_are_disjoint(
    nodes: Seq<AstNodeView>,
    enums: Seq<AstEnumView>,
    terminals: Seq<Seq<char>>,
    keyword: Seq<char>,
)
    requires
        kinds_of(nodes, enums, terminals) is Ok,
    ensures
        !(kinds_of(nodes, enums, terminals)->Ok_0.keywords.contains(keyword) && kinds_of(
            nodes,
            enums,
            terminals,
        )->Ok_0.contextual_keywords.contains(keyword)),
{
    let strict = terminals.filter_map(strict_keyword());
    lemma_dedup_adjacent_contains(sorted(strict), keyword);
    lemma_sorted_contains(strict, keyword);
    lemma_filter_map_contains(terminals, strict_keyword(), keyword);
    lemma_dedup_adjacent_contains(sorted(contextual_keyword_table()), keyword);
    lemma_sorted_contains(contextual_keyword_table(), keyword);
}

/// Every terminal of a grammar whose kinds can be made lands in exactly
/// one class, and in the kinds of that class: the end of the input aside, it
/// is a literal, a token without fixed spelling, a contextual keyword, a
/// strict keyword or a symbol of the table, and none of these twice.
pub proof fn lemma_terminal_classes_partition(
    nodes: Seq<AstNodeView>,
    enums: Seq<AstEnumView>,
    terminals: Seq<Seq<char>>,
    k: int,
)
    requires
        kinds_of(nodes, enums, terminals) is Ok,
        0 <= k < terminals.len(),
    ensures
        ({
            let kinds = kinds_of(nodes, enums, terminals)->Ok_0;
            let name = terminals[k];
            match terminal_class(name) {
                TerminalClass::EndOfFile => name == end_of_file_name(),
                TerminalClass::Literal => kinds.literals.contains(upper_snake_case(name.skip(1))),
                TerminalClass::GenericToken => kinds.tokens.contains(
                    upper_snake_case(name.skip(1)),
                ),
                TerminalClass::ContextualKeyword => kinds.contextual_keywords.contains(name)
                    && !kinds.keywords.contains(name),
                TerminalClass::StrictKeyword => kinds.keywords.contains(name)
                    && !kinds.contextual_keywords.contains(name),
                TerminalClass::Punctuation => exists|j: int|
                    0 <= j < kinds.punct.len() && (#[trigger] kinds.punct[j]).0 == name,
                TerminalClass::Unknown => false,
            }
        }),
{
    let kinds = kinds_of(nodes, enums, terminals)->Ok_0;
    let name = terminals[k];
    lemma_filter_map_is_empty(terminals, unknown_symbol());
    lemma_keyword_sets_are_disjoint(nodes, enums, terminals, name);
    match terminal_class(name) {
        TerminalClass::Literal => {
            let kind = upper_snake_case(name.skip(1));
            let chosen = terminals.filter_map(literal_kind());
            lemma_filter_map_contains(terminals, literal_kind(), kind);
            assert(literal_kind()(terminals[k]) == Some(kind));
            lemma_sorted_contains(chosen, kind);
            assert(kinds.literals.contains(kind));
        },
        TerminalClass::GenericToken => {
            let kind = upper_snake_case(name.skip(1));
            let chosen = terminals.filter_map(generic_token_kind());
            lemma_filter_map_contains(terminals, generic_token_kind(), kind);
            assert(generic_token_kind()(terminals[k]) == Some(kind));
            let at = choose|at: int| 0 <= at < chosen.len() && chosen[at] == kind;
            assert((builtin_tokens() + chosen)[builtin_tokens().len() + at] == kind);
            lemma_sorted_contains(builtin_tokens() + chosen, kind);
            assert(kinds.tokens.contains(kind));
        },
        TerminalClass::ContextualKeyword => {
            lemma_dedup_adjacent_contains(sorted(contextual_keyword_table()), name);
            lemma_sorted_contains(contextual_keyword_table(), name);
            assert(kinds.contextual_keywords.contains(name));
        },
        TerminalClass::StrictKeyword => {
            let chosen = terminals.filter_map(strict_keyword());
            lemma_filter_map_contains(terminals, strict_keyword(), name);
            assert(strict_keyword()(terminals[k]) == Some(name));
            lemma_sorted_contains(chosen, name);
            lemma_dedup_adjacent_contains(sorted(chosen), name);
            assert(kinds.keywords.contains(name));
        },
        TerminalClass::Punctuation => {
            lemma_spelling_index(punctuation_table(), name, 0);
            let j = punctuation_index(name)->0;
            assert(kinds.punct[j].0 == name);
        },
        TerminalClass::Unknown => {
            assert(unknown_symbol()(terminals[k]) is None);
        },
        _ => {},
    }
}

} // verus!
