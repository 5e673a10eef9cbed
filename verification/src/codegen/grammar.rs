//! The grammar of the language and its lowering into the schema of the
//! syntax tree.

pub mod ast_src;
pub mod generate;
pub mod syntax_kinds;
pub mod utils;

use vstd::prelude::*;
use vstd::string::*;
use crate::codegen::grammar::ast_src::{
    AstEnumSrc, AstEnumView, AstNodeSrc, AstNodeView, AstSrc, AstView, Cardinality, Field,
    FieldView,
};
use crate::codegen::grammar::utils::{
    clean_name, clean_token_name, lower_snake_case, plural, pluralize, str_eq,
    to_lower_snake_case,
};
use crate::sorting::{
    is_sorted, key_lt, lemma_sorted_is_sorted, lemma_sorted_of_sorted, lemma_sorted_of_views,
    sort, sort_strings, sorted, SortKeyed,
};
use crate::codegen::grammar::ast_src::contains_str;
use crate::text::{lemma_filter_map_first, view_all};

verus! {

/// The rule of a production.
#[derive(Debug, PartialEq, Eq)]
pub enum ProductionRule {
    /// A rule under a label, like `name:Rule`.
    Labeled { label: String, rule: Box<ProductionRule> },
    /// A reference to a production, by its name.
    NonTerminal(String),
    /// A reference to a terminal, by its name.
    Terminal(String),
    /// Rules that follow one another.
    Sequence(Vec<ProductionRule>),
    /// Rules of which one applies.
    Alternation(Vec<ProductionRule>),
    /// A rule that may be absent.
    Optional(Box<ProductionRule>),
    /// A rule that may occur any number of times.
    Repetition(Box<ProductionRule>),
}

/// What a [`ProductionRule`] holds.
pub enum RuleView {
    Labeled { label: Seq<char>, rule: Box<RuleView> },
    NonTerminal(Seq<char>),
    Terminal(Seq<char>),
    Sequence(Seq<RuleView>),
    Alternation(Seq<RuleView>),
    Optional(Box<RuleView>),
    Repetition(Box<RuleView>),
}

/// The view of a rule: its shape, with the names as character sequences.
pub open spec fn rule_view(rule: ProductionRule) -> RuleView
    decreases rule,
{
    match rule {
        ProductionRule::Labeled { label, rule } => RuleView::Labeled {
            label: label@,
            rule: Box::new(rule_view(*rule)),
        },
        ProductionRule::NonTerminal(name) => RuleView::NonTerminal(name@),
        ProductionRule::Terminal(name) => RuleView::Terminal(name@),
        ProductionRule::Sequence(rules) => RuleView::Sequence(
            Seq::new(
                rules.len() as nat,
                |i: int|
                    if 0 <= i < rules.len() {
                        rule_view(rules[i])
                    } else {
                        arbitrary()
                    },
            ),
        ),
        ProductionRule::Alternation(rules) => RuleView::Alternation(
            Seq::new(
                rules.len() as nat,
                |i: int|
                    if 0 <= i < rules.len() {
                        rule_view(rules[i])
                    } else {
                        arbitrary()
                    },
            ),
        ),
        ProductionRule::Optional(rule) => RuleView::Optional(Box::new(rule_view(*rule))),
        ProductionRule::Repetition(rule) => RuleView::Repetition(Box::new(rule_view(*rule))),
    }
}

impl View for ProductionRule {
    type V = RuleView;

    open spec fn view(&self) -> RuleView {
        rule_view(*self)
    }
}

/// A production: a named non-terminal with its rule.
#[derive(Debug, PartialEq, Eq)]
pub struct Production {
    pub name: String,
    pub rule: ProductionRule,
}

/// What a [`Production`] holds.
pub struct ProductionView {
    pub name: Seq<char>,
    pub rule: RuleView,
}

impl View for Production {
    type V = ProductionView;

    open spec fn view(&self) -> ProductionView {
        ProductionView { name: self.name@, rule: self.rule@ }
    }
}

/// A grammar: its productions in the order of their declaration, and the
/// names of its terminals.
#[derive(Debug, PartialEq, Eq)]
pub struct GrammarSpecification {
    pub productions: Vec<Production>,
    pub terminals: Vec<String>,
}

/// What a [`GrammarSpecification`] holds.
pub struct GrammarView {
    pub productions: Seq<ProductionView>,
    pub terminals: Seq<Seq<char>>,
}

impl View for GrammarSpecification {
    type V = GrammarView;

    open spec fn view(&self) -> GrammarView {
        GrammarView {
            productions: view_all(self.productions@),
            terminals: view_all(self.terminals@),
        }
    }
}

/// Why a grammar cannot be lowered.
#[derive(Debug, Clone, Copy, PartialEq, Eq, Structural)]
pub enum LowerError {
    /// A rule names a terminal that is not declared, or a non-terminal
    /// that does not have exactly one production.
    DanglingReference,
    /// A repetition of something other than one non-terminal, outside a
    /// separated list.
    UnsupportedRepetition,
}

/// The view of a label that may be absent.
pub open spec fn label_view(label: Option<&String>) -> Option<Seq<char>> {
    match label {
        Some(label) => Some(label@),
        None => None,
    }
}

/// Whether the accessor of a label is written by hand, so that the label
/// and what stands under it give no field.
pub open spec fn is_manually_implemented(label: Seq<char>) -> bool {
    label == "then_branch"@ || label == "condition"@ || label == "args"@ || label == "body"@
}

/// Whether `name` is one bracket.
pub open spec fn is_bracket(name: Seq<char>) -> bool {
    name == "["@ || name == "]"@ || name == "{"@ || name == "}"@ || name == "("@ || name == ")"@
}

/// The name of the field of a terminal: its clean name, between quotes
/// where that is one bracket.
pub open spec fn token_field_name(terminal: Seq<char>) -> Seq<char> {
    let name = clean_name(terminal);
    if is_bracket(name) {
        "'"@ + name + "'"@
    } else {
        name
    }
}

/// The name of a node field: the label where there is one, else `default`.
pub open spec fn field_name(label: Option<Seq<char>>, default: Seq<char>) -> Seq<char> {
    match label {
        Some(label) => label,
        None => default,
    }
}

/// The item of a separated list, where `rule` is one: a sequence of an
/// item, a repetition of separator and item, and perhaps the separator once
/// more as an option, the item being one terminal or one non-terminal
/// throughout.
pub open spec fn separated_list_item(rule: RuleView) -> Option<RuleView> {
    match rule {
        RuleView::Sequence(rules) => {
            if {
                &&& (rules.len() == 2 || rules.len() == 3)
                &&& (rules[0] is NonTerminal || rules[0] is Terminal)
                &&& rules[1] matches RuleView::Repetition(repeat)
                &&& *repeat matches RuleView::Sequence(pair)
                &&& pair.len() == 2
                &&& pair[1] == rules[0]
                &&& (rules.len() == 3 ==> (rules[2] matches RuleView::Optional(trailing)
                    && *trailing == pair[0]))
            } {
                Some(rules[0])
            } else {
                None
            }
        },
        _ => None,
    }
}

/// The one field that a separated list of `item` gives.
pub open spec fn separated_list_field(label: Option<Seq<char>>, item: RuleView) -> FieldView {
    match item {
        RuleView::NonTerminal(ty) => FieldView::Node {
            name: field_name(label, plural(lower_snake_case(ty))),
            ty,
            cardinality: Cardinality::Many,
        },
        RuleView::Terminal(name) => FieldView::Token(clean_name(name)),
        _ => arbitrary(),
    }
}

/// The fields that a rule gives under a label, in order, or the first
/// reason why it gives none.
pub open spec fn lower_rule_spec(label: Option<Seq<char>>, rule: RuleView) -> Result<
    Seq<FieldView>,
    LowerError,
>
    decreases rule, 0nat,
{
    if separated_list_item(rule) is Some {
        Ok(seq![separated_list_field(label, separated_list_item(rule)->0)])
    } else {
        match rule {
            RuleView::NonTerminal(ty) => Ok(
                seq![
                    FieldView::Node {
                        name: field_name(label, lower_snake_case(ty)),
                        ty,
                        cardinality: Cardinality::Optional,
                    },
                ],
            ),
            RuleView::Terminal(name) => Ok(seq![FieldView::Token(token_field_name(name))]),
            RuleView::Repetition(inner) => match *inner {
                RuleView::NonTerminal(ty) => Ok(
                    seq![
                        FieldView::Node {
                            name: field_name(label, plural(lower_snake_case(ty))),
                            ty,
                            cardinality: Cardinality::Many,
                        },
                    ],
                ),
                _ => Err(LowerError::UnsupportedRepetition),
            },
            RuleView::Labeled { label: inner_label, rule: inner } => if is_manually_implemented(
                inner_label,
            ) {
                Ok(Seq::empty())
            } else {
                lower_rule_spec(Some(inner_label), *inner)
            },
            RuleView::Sequence(rules) => lower_rules_from(label, rules, 0),
            RuleView::Alternation(rules) => lower_rules_from(label, rules, 0),
            RuleView::Optional(inner) => lower_rule_spec(label, *inner),
        }
    }
}

/// The fields that the rules from `i` on give under a label, one rule after
/// the other.
pub open spec fn lower_rules_from(label: Option<Seq<char>>, rules: Seq<RuleView>, i: int) -> Result<
    Seq<FieldView>,
    LowerError,
>
    decreases rules, rules.len() - i,
{
    if i < 0 || i >= rules.len() {
        Ok(Seq::empty())
    } else {
        match lower_rule_spec(label, rules[i]) {
            Err(error) => Err(error),
            Ok(fields) => match lower_rules_from(label, rules, i + 1) {
                Err(error) => Err(error),
                Ok(more) => Ok(fields + more),
            },
        }
    }
}

/// `fields` and then what `rest` gives.
pub open spec fn fields_then(
    fields: Seq<FieldView>,
    rest: Result<Seq<FieldView>, LowerError>,
) -> Result<Seq<FieldView>, LowerError> {
    match rest {
        Ok(more) => Ok(fields + more),
        Err(error) => Err(error),
    }
}

/// Whether two rules have the same shape and the same names.
pub fn rule_eq(a: &ProductionRule, b: &ProductionRule) -> (r: bool)
    ensures
        r == (a@ == b@),
    decreases a,
{
    match (a, b) {
        (
            ProductionRule::Labeled { label: la, rule: ra },
            ProductionRule::Labeled { label: lb, rule: rb },
        ) => str_eq(la.as_str(), lb.as_str()) && rule_eq(ra, rb),
        (ProductionRule::NonTerminal(na), ProductionRule::NonTerminal(nb)) => {
            str_eq(na.as_str(), nb.as_str())
        },
        (ProductionRule::Terminal(na), ProductionRule::Terminal(nb)) => {
            str_eq(na.as_str(), nb.as_str())
        },
        (ProductionRule::Sequence(ra), ProductionRule::Sequence(rb)) => {
            let r = rules_eq(ra, rb);
            proof {
                lemma_rules_view_eq(a@->Sequence_0, b@->Sequence_0, ra@, rb@);
            }
            r
        },
        (ProductionRule::Alternation(ra), ProductionRule::Alternation(rb)) => {
            let r = rules_eq(ra, rb);
            proof {
                lemma_rules_view_eq(a@->Alternation_0, b@->Alternation_0, ra@, rb@);
            }
            r
        },
        (ProductionRule::Optional(ra), ProductionRule::Optional(rb)) => rule_eq(ra, rb),
        (ProductionRule::Repetition(ra), ProductionRule::Repetition(rb)) => rule_eq(ra, rb),
        _ => false,
    }
}

proof fn lemma_rules_view_eq(
    va: Seq<RuleView>,
    vb: Seq<RuleView>,
    a: Seq<ProductionRule>,
    b: Seq<ProductionRule>,
)
    requires
        va.len() == a.len(),
        vb.len() == b.len(),
        forall|i: int| 0 <= i < a.len() ==> va[i] == a[i]@,
        forall|i: int| 0 <= i < b.len() ==> vb[i] == b[i]@,
    ensures
        (va == vb) <==> (a.len() == b.len() && forall|i: int| 0 <= i < a.len() ==> a[i]@ == b[i]@),
{
    if a.len() == b.len() && forall|i: int| 0 <= i < a.len() ==> a[i]@ == b[i]@ {
        assert(va =~= vb);
    }
    if va == vb {
        assert forall|i: int| 0 <= i < a.len() implies a[i]@ == b[i]@ by {
            assert(va[i] == vb[i]);
        }
    }
}

fn rules_eq(a: &Vec<ProductionRule>, b: &Vec<ProductionRule>) -> (r: bool)
    ensures
        r == (a.len() == b.len() && forall|i: int| 0 <= i < a.len() ==> a[i]@ == b[i]@),
    decreases a,
{
    if a.len() != b.len() {
        return false;
    }
    let mut i: usize = 0;
    while i < a.len()
        invariant
            i <= a.len(),
            a.len() == b.len(),
            forall|j: int| 0 <= j < i ==> a[j]@ == b[j]@,
        decreases a.len() - i,
    {
        assert(decreases_to!(a => a[i as int]));
        if !rule_eq(&a[i], &b[i]) {
            return false;
        }
        i += 1;
    }
    true
}

/// The views of rules, in order.
pub open spec fn rules_view(rules: Seq<ProductionRule>) -> Seq<RuleView> {
    Seq::new(rules.len(), |i: int| rules[i]@)
}

fn many_nodes_field(label: Option<&String>, ty: &String) -> (field: Field)
    ensures
        field@ == (FieldView::Node {
            name: field_name(label_view(label), plural(lower_snake_case(ty@))),
            ty: ty@,
            cardinality: Cardinality::Many,
        }),
{
    let name = match label {
        Some(label) => label.clone(),
        None => pluralize(to_lower_snake_case(ty.as_str()).as_str()),
    };
    Field::Node { name, ty: ty.clone(), cardinality: Cardinality::Many }
}

fn optional_node_field(label: Option<&String>, ty: &String) -> (field: Field)
    ensures
        field@ == (FieldView::Node {
            name: field_name(label_view(label), lower_snake_case(ty@)),
            ty: ty@,
            cardinality: Cardinality::Optional,
        }),
{
    let name = match label {
        Some(label) => label.clone(),
        None => to_lower_snake_case(ty.as_str()),
    };
    Field::Node { name, ty: ty.clone(), cardinality: Cardinality::Optional }
}

fn token_field(terminal: &String) -> (field: Field)
    ensures
        field@ == FieldView::Token(token_field_name(terminal@)),
{
    let name = clean_token_name(terminal.as_str());
    let n = name.as_str();
    if str_eq(n, "[") || str_eq(n, "]") || str_eq(n, "{") || str_eq(n, "}") || str_eq(n, "(")
        || str_eq(n, ")") {
        Field::Token(String::from_str("'").concat(n).concat("'"))
    } else {
        Field::Token(name)
    }
}

fn has_manual_accessor(label: &String) -> (r: bool)
    ensures
        r == is_manually_implemented(label@),
{
    let l = label.as_str();
    str_eq(l, "then_branch") || str_eq(l, "condition") || str_eq(l, "args") || str_eq(l, "body")
}

/// Lowers a separated list to its one field. Where `rule` is no separated
/// list, nothing is added and the answer is `false`.
pub fn lower_separated_list(
    acc: &mut Vec<Field>,
    label: Option<&String>,
    rule: &ProductionRule,
) -> (matched: bool)
    ensures
        matched == separated_list_item(rule@) is Some,
        matched ==> view_all(final(acc)@) == view_all(old(acc)@).push(
            separated_list_field(label_view(label), separated_list_item(rule@)->0),
        ),
        !matched ==> final(acc)@ == old(acc)@,
        old(acc)@.is_prefix_of(final(acc)@),
{
    let rules = match rule {
        ProductionRule::Sequence(rules) => rules,
        _ => {
            return false;
        },
    };
    assert(rule@->Sequence_0 =~= rules_view(rules@));
    if rules.len() != 2 && rules.len() != 3 {
        return false;
    }
    let repeat = match &rules[1] {
        ProductionRule::Repetition(repeat) => repeat,
        _ => {
            return false;
        },
    };
    let pair = match &**repeat {
        ProductionRule::Sequence(pair) => pair,
        _ => {
            return false;
        },
    };
    assert(rules[1]@ == RuleView::Repetition(Box::new(repeat@)));
    assert(repeat@->Sequence_0 =~= rules_view(pair@));
    if pair.len() != 2 {
        return false;
    }
    if rules.len() == 3 {
        match &rules[2] {
            ProductionRule::Optional(trailing) => {
                assert(rules[2]@ == RuleView::Optional(Box::new(trailing@)));
                if !rule_eq(&pair[0], trailing) {
                    return false;
                }
            },
            _ => {
                return false;
            },
        }
    }
    match (&rules[0], &pair[1]) {
        (ProductionRule::NonTerminal(ty), ProductionRule::NonTerminal(other)) => {
            if !str_eq(ty.as_str(), other.as_str()) {
                return false;
            }
            let field = many_nodes_field(label, ty);
            let ghost before = view_all(acc@);
            acc.push(field);
            assert(view_all(acc@) =~= before.push(field@));
            true
        },
        (ProductionRule::Terminal(name), ProductionRule::Terminal(other)) => {
            if !str_eq(name.as_str(), other.as_str()) {
                return false;
            }
            let field = Field::Token(clean_token_name(name.as_str()));
            let ghost before = view_all(acc@);
            acc.push(field);
            assert(view_all(acc@) =~= before.push(field@));
            true
        },
        _ => false,
    }
}

/// Lowers a rule: adds to `acc` the fields that the rule gives under the
/// label, in order. A separated list gives its one field; a non-terminal a
/// node field, named by the label where there is one; a terminal a token
/// field, whatever the label; a repetition of a non-terminal a field of many
/// nodes; a label with a hand-written accessor nothing, any other label the
/// fields of what stands under it, named by that label; a sequence and an
/// alternation the fields of their members; an option the fields of what may
/// be absent. A repetition of anything else is an error.
pub fn lower_rule(acc: &mut Vec<Field>, label: Option<&String>, rule: &ProductionRule) -> (res:
    Result<(), LowerError>)
    ensures
        match lower_rule_spec(label_view(label), rule@) {
            Ok(fields) => res is Ok && view_all(final(acc)@) == view_all(old(acc)@) + fields,
            Err(error) => res == Err::<(), LowerError>(error),
        },
        old(acc)@.is_prefix_of(final(acc)@),
    decreases rule, 0nat,
{
    let ghost before = view_all(acc@);
    if lower_separated_list(acc, label, rule) {
        assert(before.push(separated_list_field(label_view(label), separated_list_item(rule@)->0))
            =~= before + seq![
            separated_list_field(label_view(label), separated_list_item(rule@)->0),
        ]);
        return Ok(());
    }
    match rule {
        ProductionRule::NonTerminal(ty) => {
            let field = optional_node_field(label, ty);
            acc.push(field);
            assert(view_all(acc@) =~= before + seq![field@]);
            Ok(())
        },
        ProductionRule::Terminal(name) => {
            let field = token_field(name);
            acc.push(field);
            assert(view_all(acc@) =~= before + seq![field@]);
            Ok(())
        },
        ProductionRule::Repetition(inner) => match &**inner {
            ProductionRule::NonTerminal(ty) => {
                assert(inner@ == RuleView::NonTerminal(ty@));
                let field = many_nodes_field(label, ty);
                acc.push(field);
                assert(view_all(acc@) =~= before + seq![field@]);
                Ok(())
            },
            _ => {
                assert(!(inner@ is NonTerminal));
                Err(LowerError::UnsupportedRepetition)
            },
        },
        ProductionRule::Labeled { label: inner_label, rule: inner } => {
            if has_manual_accessor(inner_label) {
                assert(view_all(acc@) =~= before + Seq::<FieldView>::empty());
                Ok(())
            } else {
                lower_rule(acc, Some(inner_label), inner)
            }
        },
        ProductionRule::Sequence(rules) => {
            assert(rule@->Sequence_0 =~= rules_view(rules@));
            lower_rules(acc, label, rules)
        },
        ProductionRule::Alternation(rules) => {
            assert(rule@->Alternation_0 =~= rules_view(rules@));
            lower_rules(acc, label, rules)
        },
        ProductionRule::Optional(inner) => {
            lower_rule(acc, label, inner)
        },
    }
}

proof fn lemma_prefix_of_prefix<A>(a: Seq<A>, b: Seq<A>, c: Seq<A>)
    requires
        a.is_prefix_of(b),
        b.is_prefix_of(c),
    ensures
        a.is_prefix_of(c),
{
    assert forall|i: int| 0 <= i < a.len() implies a[i] == c[i] by {
        assert(a[i] == b.subrange(0, a.len() as int)[i]);
        assert(b[i] == c.subrange(0, b.len() as int)[i]);
    }
    assert(a =~= c.subrange(0, a.len() as int));
}

fn lower_rules(acc: &mut Vec<Field>, label: Option<&String>, rules: &Vec<ProductionRule>) -> (res:
    Result<(), LowerError>)
    ensures
        match lower_rules_from(label_view(label), rules_view(rules@), 0) {
            Ok(fields) => res is Ok && view_all(final(acc)@) == view_all(old(acc)@) + fields,
            Err(error) => res == Err::<(), LowerError>(error),
        },
        old(acc)@.is_prefix_of(final(acc)@),
    decreases rules, 1nat,
{
    let ghost given = acc@;
    let ghost before = view_all(acc@);
    let ghost views = rules_view(rules@);
    let ghost mut collected = Seq::<FieldView>::empty();
    let mut i: usize = 0;
    assert(view_all(acc@) =~= before + collected);
    while i < rules.len()
        invariant
            i <= rules.len(),
            views == rules_view(rules@),
            given == old(acc)@,
            given.is_prefix_of(acc@),
            view_all(acc@) == before + collected,
            lower_rules_from(label_view(label), views, 0) == fields_then(
                collected,
                lower_rules_from(label_view(label), views, i as int),
            ),
        decreases rules.len() - i,
    {
        assert(decreases_to!(rules => rules[i as int]));
        assert(views[i as int] == rules[i as int]@);
        let ghost held = acc@;
        let lowered = lower_rule(acc, label, &rules[i]);
        proof {
            lemma_prefix_of_prefix(given, held, acc@);
        }
        match lowered {
            Err(error) => {
                return Err(error);
            },
            Ok(()) => {
                proof {
                    let fields = lower_rule_spec(label_view(label), views[i as int])->Ok_0;
                    let rest = lower_rules_from(label_view(label), views, i as int + 1);
                    assert(view_all(acc@) =~= before + (collected + fields));
                    if rest is Ok {
                        assert(collected + (fields + rest->Ok_0) =~= (collected + fields)
                            + rest->Ok_0);
                    }
                    collected = collected + fields;
                }
            },
        }
        i += 1;
    }
    assert(collected + Seq::<FieldView>::empty() =~= collected);
    Ok(())
}

/// The name of a non-terminal, and nothing for any other rule.
pub open spec fn non_terminal_name() -> spec_fn(RuleView) -> Option<Seq<char>> {
    |rule: RuleView|
        match rule {
            RuleView::NonTerminal(name) => Some(name),
            _ => None,
        }
}

/// Whether `rule` may stand in the alternation of an enum definition: a
/// non-terminal, or the terminator `;`.
pub open spec fn is_enum_alternative(rule: RuleView) -> bool {
    rule is NonTerminal || rule == RuleView::Terminal(";"@)
}

/// The variants of the enum definition that a rule gives: where it is an
/// alternation of non-terminals and terminators alone, the names of the
/// non-terminals in order.
pub open spec fn enum_variants(rule: RuleView) -> Option<Seq<Seq<char>>> {
    match rule {
        RuleView::Alternation(alternatives) => if forall|i: int|
            0 <= i < alternatives.len() ==> is_enum_alternative(#[trigger] alternatives[i]) {
            Some(alternatives.filter_map(non_terminal_name()))
        } else {
            None
        },
        _ => None,
    }
}

/// The views of the variants that may be there.
pub open spec fn variants_view(variants: Option<Vec<String>>) -> Option<Seq<Seq<char>>> {
    match variants {
        Some(variants) => Some(view_all(variants@)),
        None => None,
    }
}

/// The variants of the enum definition that a rule gives, if it gives one.
pub fn lower_enum(rule: &ProductionRule) -> (variants: Option<Vec<String>>)
    ensures
        variants_view(variants) == enum_variants(rule@),
{
    let alternatives = match rule {
        ProductionRule::Alternation(alternatives) => alternatives,
        _ => {
            return None;
        },
    };
    let ghost views = rules_view(alternatives@);
    assert(rule@->Alternation_0 =~= views);
    let mut variants: Vec<String> = Vec::new();
    let mut i: usize = 0;
    assert(views.take(0) == Seq::<RuleView>::empty());
    assert(view_all(variants@) =~= Seq::<Seq<char>>::empty());
    while i < alternatives.len()
        invariant
            i <= alternatives.len(),
            views == rules_view(alternatives@),
            rule@ == RuleView::Alternation(views),
            forall|j: int| 0 <= j < i ==> is_enum_alternative(#[trigger] views[j]),
            view_all(variants@) == views.take(i as int).filter_map(non_terminal_name()),
        decreases alternatives.len() - i,
    {
        proof {
            views.lemma_filter_map_take_succ(non_terminal_name(), i as int);
        }
        assert(views[i as int] == alternatives[i as int]@);
        let ghost before = view_all(variants@);
        match &alternatives[i] {
            ProductionRule::NonTerminal(name) => {
                variants.push(name.clone());
                assert(view_all(variants@) =~= before + seq![name@]);
            },
            ProductionRule::Terminal(name) => {
                if !str_eq(name.as_str(), ";") {
                    assert(!is_enum_alternative(views[i as int]));
                    return None;
                }
            },
            _ => {
                assert(!is_enum_alternative(views[i as int]));
                return None;
            },
        }
        i += 1;
    }
    assert(views.take(alternatives.len() as int) == views);
    Some(variants)
}

/// Whether one of `fields` has the shape of `field`.
pub open spec fn has_shape(fields: Seq<FieldView>, field: FieldView) -> bool {
    exists|j: int| 0 <= j < fields.len() && (#[trigger] fields[j]).same_shape(field)
}

/// The fields without those that have the shape of an earlier one.
pub open spec fn dedup_fields(fields: Seq<FieldView>) -> Seq<FieldView>
    decreases fields.len(),
{
    if fields.len() == 0 {
        fields
    } else {
        let rest = dedup_fields(fields.drop_last());
        if has_shape(rest, fields.last()) {
            rest
        } else {
            rest.push(fields.last())
        }
    }
}

/// No two of the fields have the same shape.
pub open spec fn distinct_shapes(fields: Seq<FieldView>) -> bool {
    forall|i: int, j: int|
        0 <= i < j < fields.len() ==> !(#[trigger] fields[i]).same_shape(#[trigger] fields[j])
}

/// What deduplication leaves has no two fields of the same shape.
pub proof fn lemma_dedup_fields_distinct(fields: Seq<FieldView>)
    ensures
        distinct_shapes(dedup_fields(fields)),
    decreases fields.len(),
{
    if fields.len() > 0 {
        lemma_dedup_fields_distinct(fields.drop_last());
        let rest = dedup_fields(fields.drop_last());
        if !has_shape(rest, fields.last()) {
            let all = rest.push(fields.last());
            assert forall|i: int, j: int| 0 <= i < j < all.len() implies !(
            #[trigger] all[i]).same_shape(#[trigger] all[j]) by {
                if j == rest.len() {
                    assert(!rest[i].same_shape(fields.last()));
                } else {
                    assert(!rest[i].same_shape(rest[j]));
                }
            }
        }
    }
}

/// Deduplication leaves fields of distinct shapes as they are.
pub proof fn lemma_dedup_fields_of_distinct(fields: Seq<FieldView>)
    requires
        distinct_shapes(fields),
    ensures
        dedup_fields(fields) == fields,
    decreases fields.len(),
{
    if fields.len() > 0 {
        let rest = fields.drop_last();
        assert(distinct_shapes(rest)) by {
            assert forall|i: int, j: int| 0 <= i < j < rest.len() implies !(
            #[trigger] rest[i]).same_shape(#[trigger] rest[j]) by {
                assert(!fields[i].same_shape(fields[j]));
            }
        }
        lemma_dedup_fields_of_distinct(rest);
        if has_shape(rest, fields.last()) {
            let j = choose|j: int|
                0 <= j < rest.len() && (#[trigger] rest[j]).same_shape(fields.last());
            assert(!fields[j].same_shape(fields[fields.len() - 1]));
        }
        assert(rest.push(fields.last()) == fields);
    }
}

/// Deduplicating the fields of a node definition a second time changes
/// nothing.
pub proof fn lemma_dedup_fields_idempotent(fields: Seq<FieldView>)
    ensures
        dedup_fields(dedup_fields(fields)) == dedup_fields(fields),
{
    lemma_dedup_fields_distinct(fields);
    lemma_dedup_fields_of_distinct(dedup_fields(fields));
}

/// Deduplicating a schema a second time changes nothing.
pub proof fn lemma_deduplicated_idempotent(ast: AstView)
    ensures
        deduplicated(deduplicated(ast)) == deduplicated(ast),
{
    let once = deduplicated(ast);
    assert forall|i: int| 0 <= i < once.nodes.len() implies deduplicated_node()(
        #[trigger] once.nodes[i],
    ) == once.nodes[i] by {
        lemma_dedup_fields_idempotent(ast.nodes[i].fields);
    }
    assert(once.nodes.map_values(deduplicated_node()) =~= once.nodes);
}

/// The node definition without the fields that have the shape of an
/// earlier one.
pub open spec fn deduplicated_node() -> spec_fn(AstNodeView) -> AstNodeView {
    |node: AstNodeView| AstNodeView { name: node.name, fields: dedup_fields(node.fields) }
}

/// The schema with each node definition deduplicated.
pub open spec fn deduplicated(ast: AstView) -> AstView {
    AstView {
        tokens: ast.tokens,
        nodes: ast.nodes.map_values(deduplicated_node()),
        enums: ast.enums,
    }
}

/// The field that stands for one child out of the variants of an enum
/// definition.
pub open spec fn enum_field(name: Seq<char>) -> FieldView {
    FieldView::Node { name: lower_snake_case(name), ty: name, cardinality: Cardinality::Optional }
}

/// A field whose type is a variant of `enm`, and nothing for any other.
pub open spec fn variant_field(enm: AstEnumView) -> spec_fn(FieldView) -> Option<FieldView> {
    |field: FieldView|
        if enm.variants.contains(field.ty()) {
            Some(field)
        } else {
            None
        }
}

/// A field whose type is no variant of `enm`, and nothing for any other.
pub open spec fn other_field(enm: AstEnumView) -> spec_fn(FieldView) -> Option<FieldView> {
    |field: FieldView|
        if enm.variants.contains(field.ty()) {
            None
        } else {
            Some(field)
        }
}

/// A field of the given type, and nothing for any other.
pub open spec fn field_of_type(ty: Seq<char>) -> spec_fn(FieldView) -> Option<FieldView> {
    |field: FieldView|
        if field.ty() == ty {
            Some(field)
        } else {
            None
        }
}

/// Whether the fields hold one field per variant of `enm`, no more and no
/// fewer: every variant is the type of exactly one field, and the fields
/// whose type is a variant are as many as the variants.
pub open spec fn has_one_field_per_variant(fields: Seq<FieldView>, enm: AstEnumView) -> bool {
    &&& fields.filter_map(variant_field(enm)).len() == enm.variants.len()
    &&& forall|k: int|
        0 <= k < enm.variants.len() ==> fields.filter_map(
            field_of_type(#[trigger] enm.variants[k]),
        ).len() == 1
}

/// The fields after `enm` has been looked for among them: where they hold
/// one field per variant of `enm`, the other fields and then the one field
/// of the enum; else the fields as they are.
pub open spec fn extract_enum(fields: Seq<FieldView>, enm: AstEnumView) -> Seq<FieldView> {
    if has_one_field_per_variant(fields, enm) {
        fields.filter_map(other_field(enm)).push(enum_field(enm.name))
    } else {
        fields
    }
}

/// The fields after each of `enums` has been looked for among them, one
/// after the other.
pub open spec fn extract_enums_of(fields: Seq<FieldView>, enums: Seq<AstEnumView>) -> Seq<FieldView>
    decreases enums.len(),
{
    if enums.len() == 0 {
        fields
    } else {
        extract_enum(extract_enums_of(fields, enums.drop_last()), enums.last())
    }
}

/// The node definition after each of `enums` has been looked for among its
/// fields.
pub open spec fn extracted_node(enums: Seq<AstEnumView>) -> spec_fn(AstNodeView) -> AstNodeView {
    |node: AstNodeView|
        AstNodeView { name: node.name, fields: extract_enums_of(node.fields, enums) }
}

/// The schema after each enum definition has been looked for among the
/// fields of each node definition.
pub open spec fn enums_extracted(ast: AstView) -> AstView {
    AstView {
        tokens: ast.tokens,
        nodes: ast.nodes.map_values(extracted_node(ast.enums)),
        enums: ast.enums,
    }
}

/// The sequence without the items at the given places, the last place
/// taken out first.
pub open spec fn without_places<A>(s: Seq<A>, places: Seq<usize>) -> Seq<A>
    decreases places.len(),
{
    if places.len() == 0 {
        s
    } else {
        without_places(s.remove(places.last() as int), places.drop_last())
    }
}

/// The places ascend and lie in a sequence of length `len`.
pub open spec fn ascending_places(places: Seq<usize>, len: nat) -> bool {
    &&& forall|i: int, j: int| 0 <= i < j < places.len() ==> places[i] < places[j]
    &&& forall|i: int| 0 <= i < places.len() ==> places[i] < len
}

/// Whether the items at the given places can be taken out of a sequence of
/// length `len`, the last place first: each place lies in what is left when
/// its turn comes.
pub open spec fn can_take_out(places: Seq<usize>, len: nat) -> bool
    decreases places.len(),
{
    places.len() == 0 || (places.last() < len && can_take_out(
        places.drop_last(),
        (len - 1) as nat,
    ))
}

/// Places that ascend and lie in a sequence can be taken out of it.
pub proof fn lemma_ascending_can_be_taken_out(places: Seq<usize>, len: nat)
    requires
        ascending_places(places, len),
    ensures
        can_take_out(places, len),
    decreases places.len(),
{
    if places.len() > 0 {
        assert(ascending_places(places.drop_last(), (len - 1) as nat)) by {
            assert forall|i: int| 0 <= i < places.len() - 1 implies places.drop_last()[i] < len
                - 1 by {
                assert(places[i] < places[places.len() - 1]);
            }
        }
        lemma_ascending_can_be_taken_out(places.drop_last(), (len - 1) as nat);
    }
}

impl AstNodeSrc {
    /// Takes out the fields at the given places, the last place first. Each
    /// place must lie in what is left of the fields when its turn comes.
    pub fn remove_field(&mut self, to_remove: Vec<usize>)
        requires
            can_take_out(to_remove@, old(self).fields@.len()),
        ensures
            final(self).name == old(self).name,
            final(self).fields@ == without_places(old(self).fields@, to_remove@),
    {
        let mut k: usize = to_remove.len();
        assert(to_remove@.take(k as int) == to_remove@);
        while k > 0
            invariant
                k <= to_remove.len(),
                self.name == old(self).name,
                can_take_out(to_remove@.take(k as int), self.fields@.len()),
                without_places(old(self).fields@, to_remove@) == without_places(
                    self.fields@,
                    to_remove@.take(k as int),
                ),
            decreases k,
        {
            let place = to_remove[k - 1];
            assert(to_remove@.take(k as int).last() == place);
            assert(to_remove@.take(k as int).drop_last() == to_remove@.take(k as int - 1));
            self.fields.remove(place);
            k -= 1;
        }
        assert(to_remove@.take(0) == Seq::<usize>::empty());
    }
}

fn holds_shape(fields: &Vec<Field>, field: &Field) -> (r: bool)
    ensures
        r == has_shape(view_all(fields@), field@),
{
    let mut j: usize = 0;
    while j < fields.len()
        invariant
            j <= fields.len(),
            forall|k: int| 0 <= k < j ==> !(#[trigger] view_all(fields@)[k]).same_shape(field@),
        decreases fields.len() - j,
    {
        assert(view_all(fields@)[j as int] == fields@[j as int]@);
        if fields[j].same_shape(field) {
            return true;
        }
        j += 1;
    }
    false
}

fn dedup_field_list(fields: &Vec<Field>) -> (r: Vec<Field>)
    ensures
        view_all(r@) == dedup_fields(view_all(fields@)),
{
    let ghost views = view_all(fields@);
    let mut r: Vec<Field> = Vec::new();
    let mut i: usize = 0;
    assert(views.take(0) == Seq::<FieldView>::empty());
    assert(view_all(r@) =~= Seq::<FieldView>::empty());
    while i < fields.len()
        invariant
            i <= fields.len(),
            views == view_all(fields@),
            view_all(r@) == dedup_fields(views.take(i as int)),
        decreases fields.len() - i,
    {
        assert(views.take(i as int + 1).drop_last() == views.take(i as int));
        assert(views.take(i as int + 1).last() == fields@[i as int]@);
        if !holds_shape(&r, &fields[i]) {
            let ghost before = view_all(r@);
            r.push(fields[i].duplicate());
            assert(view_all(r@) =~= before.push(fields@[i as int]@));
        }
        i += 1;
    }
    assert(views.take(fields.len() as int) == views);
    r
}

/// In each node definition, takes out the fields that have the shape of an
/// earlier field of that definition.
pub fn deduplicate_fields(ast: &mut AstSrc)
    ensures
        final(ast)@ == deduplicated(old(ast)@),
{
    let ghost views = view_all(ast.nodes@);
    let mut nodes: Vec<AstNodeSrc> = Vec::new();
    let mut i: usize = 0;
    while i < ast.nodes.len()
        invariant
            i <= ast.nodes.len(),
            *ast == *old(ast),
            views == view_all(ast.nodes@),
            view_all(nodes@) == views.map_values(deduplicated_node()).take(i as int),
        decreases ast.nodes.len() - i,
    {
        let ghost before = view_all(nodes@);
        let node = AstNodeSrc {
            name: ast.nodes[i].name.clone(),
            fields: dedup_field_list(&ast.nodes[i].fields),
        };
        assert(views[i as int] == ast.nodes@[i as int]@);
        nodes.push(node);
        assert(view_all(nodes@) =~= before.push(node@));
        i += 1;
    }
    assert(views.map_values(deduplicated_node()).take(ast.nodes.len() as int)
        == views.map_values(deduplicated_node()));
    ast.nodes = nodes;
}

/// The places of the fields whose type is a variant of `enm`, in ascending
/// order.
pub open spec fn variant_places(fields: Seq<FieldView>, enm: AstEnumView) -> Seq<usize>
    decreases fields.len(),
{
    if fields.len() == 0 {
        Seq::empty()
    } else {
        let rest = variant_places(fields.drop_last(), enm);
        if enm.variants.contains(fields.last().ty()) {
            rest.push((fields.len() - 1) as usize)
        } else {
            rest
        }
    }
}

proof fn lemma_variant_places(fields: Seq<FieldView>, enm: AstEnumView)
    requires
        fields.len() <= usize::MAX,
    ensures
        ascending_places(variant_places(fields, enm), fields.len()),
        variant_places(fields, enm).len() == fields.filter_map(variant_field(enm)).len(),
    decreases fields.len(),
{
    if fields.len() > 0 {
        lemma_variant_places(fields.drop_last(), enm);
    }
}

proof fn lemma_without_places_of_push<A>(s: Seq<A>, x: A, places: Seq<usize>)
    requires
        ascending_places(places, s.len()),
    ensures
        without_places(s.push(x), places) == without_places(s, places).push(x),
    decreases places.len(),
{
    if places.len() > 0 {
        let place = places.last() as int;
        assert(s.push(x).remove(place) =~= s.remove(place).push(x));
        assert(ascending_places(places.drop_last(), s.remove(place).len())) by {
            assert forall|i: int| 0 <= i < places.len() - 1 implies places.drop_last()[i]
                < s.remove(place).len() by {
                assert(places[i] < places[places.len() - 1]);
            }
        }
        lemma_without_places_of_push(s.remove(place), x, places.drop_last());
    }
}

proof fn lemma_without_variant_places(fields: Seq<FieldView>, enm: AstEnumView)
    requires
        fields.len() <= usize::MAX,
    ensures
        without_places(fields, variant_places(fields, enm)) == fields.filter_map(other_field(enm)),
    decreases fields.len(),
{
    if fields.len() > 0 {
        let rest = fields.drop_last();
        let places = variant_places(rest, enm);
        lemma_without_variant_places(rest, enm);
        lemma_variant_places(rest, enm);
        if enm.variants.contains(fields.last().ty()) {
            let all = places.push((fields.len() - 1) as usize);
            assert(all.drop_last() == places);
            assert(fields.remove(fields.len() - 1) == rest);
        } else {
            lemma_without_places_of_push(rest, fields.last(), places);
            assert(rest.push(fields.last()) == fields);
            assert(rest.filter_map(other_field(enm)).push(fields.last()) =~= rest.filter_map(
                other_field(enm),
            ) + seq![fields.last()]);
        }
    } else {
        assert(fields.filter_map(other_field(enm)) =~= fields);
    }
}

proof fn lemma_without_places_of_views(fields: Seq<Field>, places: Seq<usize>)
    requires
        ascending_places(places, fields.len()),
    ensures
        view_all(without_places(fields, places)) == without_places(view_all(fields), places),
    decreases places.len(),
{
    if places.len() > 0 {
        let place = places.last() as int;
        assert(view_all(fields.remove(place)) =~= view_all(fields).remove(place));
        assert(ascending_places(places.drop_last(), fields.remove(place).len())) by {
            assert forall|i: int| 0 <= i < places.len() - 1 implies places.drop_last()[i]
                < fields.remove(place).len() by {
                assert(places[i] < places[places.len() - 1]);
            }
        }
        lemma_without_places_of_views(fields.remove(place), places.drop_last());
    }
}

fn count_of_type(fields: &Vec<Field>, ty: &str) -> (count: usize)
    ensures
        count == view_all(fields@).filter_map(field_of_type(ty@)).len(),
{
    let ghost views = view_all(fields@);
    let mut count: usize = 0;
    let mut i: usize = 0;
    assert(views.take(0) == Seq::<FieldView>::empty());
    while i < fields.len()
        invariant
            i <= fields.len(),
            count <= i,
            views == view_all(fields@),
            count == views.take(i as int).filter_map(field_of_type(ty@)).len(),
        decreases fields.len() - i,
    {
        proof {
            views.lemma_filter_map_take_succ(field_of_type(ty@), i as int);
        }
        assert(views[i as int] == fields@[i as int]@);
        let field_ty = fields[i].ty();
        if str_eq(field_ty.as_str(), ty) {
            count += 1;
        }
        i += 1;
    }
    assert(views.take(fields.len() as int) == views);
    count
}

fn holds_each_variant_once(fields: &Vec<Field>, enm: &AstEnumSrc) -> (r: bool)
    ensures
        r == forall|k: int|
            0 <= k < enm@.variants.len() ==> view_all(fields@).filter_map(
                field_of_type(#[trigger] enm@.variants[k]),
            ).len() == 1,
{
    let mut k: usize = 0;
    while k < enm.variants.len()
        invariant
            k <= enm.variants.len(),
            enm@.variants.len() == enm.variants.len(),
            forall|j: int|
                0 <= j < k ==> view_all(fields@).filter_map(
                    field_of_type(#[trigger] enm@.variants[j]),
                ).len() == 1,
        decreases enm.variants.len() - k,
    {
        assert(enm@.variants[k as int] == enm.variants@[k as int]@);
        if count_of_type(fields, enm.variants[k].as_str()) != 1 {
            return false;
        }
        k += 1;
    }
    true
}

fn extract_enum_in(node: &mut AstNodeSrc, enm: &AstEnumSrc)
    ensures
        final(node).name == old(node).name,
        view_all(final(node).fields@) == extract_enum(view_all(old(node).fields@), enm@),
{
    let ghost views = view_all(node.fields@);
    let mut to_remove: Vec<usize> = Vec::new();
    let mut i: usize = 0;
    assert(views.take(0) == Seq::<FieldView>::empty());
    while i < node.fields.len()
        invariant
            i <= node.fields.len(),
            *node == *old(node),
            views == view_all(node.fields@),
            to_remove@ == variant_places(views.take(i as int), enm@),
        decreases node.fields.len() - i,
    {
        assert(views.take(i as int + 1).drop_last() == views.take(i as int));
        assert(views.take(i as int + 1).last() == node.fields@[i as int]@);
        let ty = node.fields[i].ty();
        if contains_str(&enm.variants, ty.as_str()) {
            to_remove.push(i);
        }
        i += 1;
    }
    proof {
        assert(views.take(node.fields.len() as int) == views);
        lemma_variant_places(views, enm@);
        lemma_without_variant_places(views, enm@);
        lemma_without_places_of_views(node.fields@, to_remove@);
        lemma_ascending_can_be_taken_out(to_remove@, node.fields@.len());
        assert(view_all(enm.variants@).len() == enm.variants.len());
    }
    if to_remove.len() == enm.variants.len() && holds_each_variant_once(&node.fields, enm) {
        node.remove_field(to_remove);
        let field = Field::Node {
            name: to_lower_snake_case(enm.name.as_str()),
            ty: enm.name.clone(),
            cardinality: Cardinality::Optional,
        };
        let ghost before = view_all(node.fields@);
        node.fields.push(field);
        assert(view_all(node.fields@) =~= before.push(field@));
    }
}

fn extract_enums_from(fields: &Vec<Field>, enums: &Vec<AstEnumSrc>, name: &String) -> (node:
    AstNodeSrc)
    ensures
        node.name == *name,
        view_all(node.fields@) == extract_enums_of(view_all(fields@), view_all(enums@)),
{
    let ghost views = view_all(enums@);
    let mut copies: Vec<Field> = Vec::new();
    let mut k: usize = 0;
    while k < fields.len()
        invariant
            k <= fields.len(),
            view_all(copies@) == view_all(fields@).take(k as int),
        decreases fields.len() - k,
    {
        let ghost before = view_all(copies@);
        copies.push(fields[k].duplicate());
        assert(view_all(copies@) =~= before.push(fields@[k as int]@));
        assert(view_all(copies@) =~= view_all(fields@).take(k as int + 1));
        k += 1;
    }
    assert(view_all(fields@).take(fields.len() as int) == view_all(fields@));
    let mut node = AstNodeSrc { name: name.clone(), fields: copies };
    let mut i: usize = 0;
    assert(views.take(0) == Seq::<AstEnumView>::empty());
    while i < enums.len()
        invariant
            i <= enums.len(),
            views == view_all(enums@),
            node.name == *name,
            view_all(node.fields@) == extract_enums_of(view_all(fields@), views.take(i as int)),
        decreases enums.len() - i,
    {
        assert(views.take(i as int + 1).drop_last() == views.take(i as int));
        assert(views.take(i as int + 1).last() == enums@[i as int]@);
        extract_enum_in(&mut node, &enums[i]);
        i += 1;
    }
    assert(views.take(enums.len() as int) == views);
    node
}

/// In each node definition, looks for each enum definition in turn: where
/// the fields hold one field per variant of the enum, no more and no fewer,
/// those fields give way to one field of the enum, behind the others.
pub fn extract_enums(ast: &mut AstSrc)
    ensures
        final(ast)@ == enums_extracted(old(ast)@),
{
    let ghost views = view_all(ast.nodes@);
    let ghost enums = view_all(ast.enums@);
    let mut nodes: Vec<AstNodeSrc> = Vec::new();
    let mut i: usize = 0;
    while i < ast.nodes.len()
        invariant
            i <= ast.nodes.len(),
            *ast == *old(ast),
            views == view_all(ast.nodes@),
            enums == view_all(ast.enums@),
            view_all(nodes@) == views.map_values(extracted_node(enums)).take(i as int),
        decreases ast.nodes.len() - i,
    {
        let ghost before = view_all(nodes@);
        let node = extract_enums_from(&ast.nodes[i].fields, &ast.enums, &ast.nodes[i].name);
        assert(views[i as int] == ast.nodes@[i as int]@);
        nodes.push(node);
        assert(view_all(nodes@) =~= before.push(node@));
        i += 1;
    }
    assert(views.map_values(extracted_node(enums)).take(ast.nodes.len() as int)
        == views.map_values(extracted_node(enums)));
    ast.nodes = nodes;
}

/// A production of the given name, and nothing for any other.
pub open spec fn production_named(name: Seq<char>) -> spec_fn(ProductionView) -> Option<
    ProductionView,
> {
    |production: ProductionView|
        if production.name == name {
            Some(production)
        } else {
            None
        }
}

impl GrammarView {
    /// Whether exactly one production has the given name.
    pub open spec fn defines_once(self, name: Seq<char>) -> bool {
        self.productions.filter_map(production_named(name)).len() == 1
    }

    /// Whether every terminal that `rule` names is declared, and every
    /// non-terminal that it names has exactly one production.
    pub open spec fn resolves(self, rule: RuleView) -> bool
        decreases rule,
    {
        match rule {
            RuleView::Labeled { rule: inner, .. } => self.resolves(*inner),
            RuleView::NonTerminal(name) => self.defines_once(name),
            RuleView::Terminal(name) => self.terminals.contains(name),
            RuleView::Sequence(rules) => forall|i: int|
                0 <= i < rules.len() ==> self.resolves(#[trigger] rules[i]),
            RuleView::Alternation(rules) => forall|i: int|
                0 <= i < rules.len() ==> self.resolves(#[trigger] rules[i]),
            RuleView::Optional(inner) => self.resolves(*inner),
            RuleView::Repetition(inner) => self.resolves(*inner),
        }
    }

    /// Whether no rule of the grammar has a dangling reference.
    pub open spec fn well_formed(self) -> bool {
        forall|i: int|
            0 <= i < self.productions.len() ==> self.resolves(
                (#[trigger] self.productions[i]).rule,
            )
    }
}

impl GrammarSpecification {
    fn defines_once(&self, name: &str) -> (r: bool)
        ensures
            r == self@.defines_once(name@),
    {
        let ghost views = self@.productions;
        let mut count: usize = 0;
        let mut i: usize = 0;
        assert(views.take(0) == Seq::<ProductionView>::empty());
        while i < self.productions.len()
            invariant
                i <= self.productions.len(),
                views == view_all(self.productions@),
                count <= i,
                count == views.take(i as int).filter_map(production_named(name@)).len(),
            decreases self.productions.len() - i,
        {
            proof {
                views.lemma_filter_map_take_succ(production_named(name@), i as int);
            }
            assert(views[i as int] == self.productions@[i as int]@);
            if str_eq(self.productions[i].name.as_str(), name) {
                count += 1;
            }
            i += 1;
        }
        assert(views.take(self.productions.len() as int) == views);
        count == 1
    }

    fn resolves(&self, rule: &ProductionRule) -> (r: bool)
        ensures
            r == self@.resolves(rule@),
        decreases rule, 0nat,
    {
        match rule {
            ProductionRule::Labeled { rule: inner, .. } => self.resolves(inner),
            ProductionRule::NonTerminal(name) => self.defines_once(name.as_str()),
            ProductionRule::Terminal(name) => contains_str(&self.terminals, name.as_str()),
            ProductionRule::Sequence(rules) => {
                assert(rule@->Sequence_0 =~= rules_view(rules@));
                self.all_resolve(rules)
            },
            ProductionRule::Alternation(rules) => {
                assert(rule@->Alternation_0 =~= rules_view(rules@));
                self.all_resolve(rules)
            },
            ProductionRule::Optional(inner) => self.resolves(inner),
            ProductionRule::Repetition(inner) => self.resolves(inner),
        }
    }

    fn all_resolve(&self, rules: &Vec<ProductionRule>) -> (r: bool)
        ensures
            r == forall|i: int|
                0 <= i < rules.len() ==> self@.resolves(#[trigger] rules_view(rules@)[i]),
        decreases rules, 1nat,
    {
        let mut i: usize = 0;
        while i < rules.len()
            invariant
                i <= rules.len(),
                forall|j: int| 0 <= j < i ==> self@.resolves(#[trigger] rules_view(rules@)[j]),
            decreases rules.len() - i,
        {
            assert(decreases_to!(rules => rules[i as int]));
            assert(rules_view(rules@)[i as int] == rules[i as int]@);
            if !self.resolves(&rules[i]) {
                return false;
            }
            i += 1;
        }
        true
    }

    /// Whether no rule of the grammar has a dangling reference: every
    /// terminal that a rule names is declared, and every non-terminal that a
    /// rule names has exactly one production.
    pub fn is_well_formed(&self) -> (r: bool)
        ensures
            r == self@.well_formed(),
    {
        let mut i: usize = 0;
        while i < self.productions.len()
            invariant
                i <= self.productions.len(),
                forall|j: int|
                    0 <= j < i ==> self@.resolves((#[trigger] self@.productions[j]).rule),
            decreases self.productions.len() - i,
        {
            assert(self@.productions[i as int] == self.productions@[i as int]@);
            if !self.resolves(&self.productions[i].rule) {
                return false;
            }
            i += 1;
        }
        true
    }
}

/// The kinds of token of the schema, as they are given.
pub open spec fn schema_tokens() -> Seq<Seq<char>> {
    seq![
        "Whitespace"@,
        "Comment"@,
        "StringLiteral"@,
        "HexNumber"@,
        "DecimalNumber"@,
        "HexLiteral"@,
        "Ident"@,
    ]
}

/// The enum definition of a production that is an alternation of
/// non-terminals, and nothing for any other.
pub open spec fn raw_enum() -> spec_fn(ProductionView) -> Option<AstEnumView> {
    |production: ProductionView|
        match enum_variants(production.rule) {
            Some(variants) => Some(AstEnumView { name: production.name, variants }),
            None => None,
        }
}

/// The node definition of a production that is no alternation of
/// non-terminals, with the fields that its rule gives, and nothing for any
/// other.
pub open spec fn raw_node() -> spec_fn(ProductionView) -> Option<AstNodeView> {
    |production: ProductionView|
        if enum_variants(production.rule) is Some {
            None
        } else {
            Some(
                AstNodeView {
                    name: production.name,
                    fields: match lower_rule_spec(None, production.rule) {
                        Ok(fields) => fields,
                        Err(_) => Seq::empty(),
                    },
                },
            )
        }
}

/// The reason why the rule of a production gives no fields, and nothing
/// for a production that gives an enum definition or whose rule gives
/// fields.
pub open spec fn lowering_error() -> spec_fn(ProductionView) -> Option<LowerError> {
    |production: ProductionView|
        if enum_variants(production.rule) is Some {
            None
        } else {
            match lower_rule_spec(None, production.rule) {
                Ok(_) => None,
                Err(error) => Some(error),
            }
        }
}

/// The schema as the productions give it, in their order.
pub open spec fn raw_schema(grammar: GrammarView) -> AstView {
    AstView {
        tokens: schema_tokens(),
        nodes: grammar.productions.filter_map(raw_node()),
        enums: grammar.productions.filter_map(raw_enum()),
    }
}

/// The node definition with its fields in order: the token fields before
/// the node fields, each by name.
pub open spec fn normalized_node() -> spec_fn(AstNodeView) -> AstNodeView {
    |node: AstNodeView| AstNodeView { name: node.name, fields: sorted(node.fields) }
}

/// The enum definition with its variants in order.
pub open spec fn normalized_enum() -> spec_fn(AstEnumView) -> AstEnumView {
    |enm: AstEnumView| AstEnumView { name: enm.name, variants: sorted(enm.variants) }
}

/// The schema in order: the tokens, the node definitions and the enum
/// definitions by name, the fields of each node definition and the variants
/// of each enum definition as well.
pub open spec fn normalized(ast: AstView) -> AstView {
    AstView {
        tokens: sorted(ast.tokens),
        nodes: sorted(ast.nodes).map_values(normalized_node()),
        enums: sorted(ast.enums).map_values(normalized_enum()),
    }
}

/// Whether a schema stands in order: the tokens, the node definitions and
/// the enum definitions by name, the fields of each node definition with the
/// token fields first and each kind of field by name, and the variants of each
/// enum definition by name.
pub open spec fn in_order(ast: AstView) -> bool {
    &&& is_sorted(ast.tokens)
    &&& is_sorted(ast.nodes)
    &&& is_sorted(ast.enums)
    &&& forall|i: int| 0 <= i < ast.nodes.len() ==> is_sorted((#[trigger] ast.nodes[i]).fields)
    &&& forall|i: int| 0 <= i < ast.enums.len() ==> is_sorted((#[trigger] ast.enums[i]).variants)
}

/// A schema that was put in order stands in order.
pub proof fn lemma_normalized_is_in_order(ast: AstView)
    ensures
        in_order(normalized(ast)),
{
    let result = normalized(ast);
    let nodes = sorted(ast.nodes);
    let enums = sorted(ast.enums);
    lemma_sorted_is_sorted(ast.tokens);
    lemma_sorted_is_sorted(ast.nodes);
    lemma_sorted_is_sorted(ast.enums);
    assert forall|i: int, j: int| 0 <= i < j < result.nodes.len() implies !key_lt(
        #[trigger] result.nodes[j].sort_key(),
        #[trigger] result.nodes[i].sort_key(),
    ) by {
        assert(!key_lt(nodes[j].sort_key(), nodes[i].sort_key()));
    }
    assert forall|i: int, j: int| 0 <= i < j < result.enums.len() implies !key_lt(
        #[trigger] result.enums[j].sort_key(),
        #[trigger] result.enums[i].sort_key(),
    ) by {
        assert(!key_lt(enums[j].sort_key(), enums[i].sort_key()));
    }
    assert forall|i: int| 0 <= i < result.nodes.len() implies is_sorted(
        (#[trigger] result.nodes[i]).fields,
    ) by {
        lemma_sorted_is_sorted(nodes[i].fields);
    }
    assert forall|i: int| 0 <= i < result.enums.len() implies is_sorted(
        (#[trigger] result.enums[i]).variants,
    ) by {
        lemma_sorted_is_sorted(enums[i].variants);
    }
}

/// Putting a schema in order that stands in order changes nothing.
pub proof fn lemma_normalized_of_ordered(ast: AstView)
    requires
        in_order(ast),
    ensures
        normalized(ast) == ast,
{
    lemma_sorted_of_sorted(ast.tokens);
    lemma_sorted_of_sorted(ast.nodes);
    lemma_sorted_of_sorted(ast.enums);
    assert forall|i: int| 0 <= i < ast.nodes.len() implies normalized_node()(
        #[trigger] ast.nodes[i],
    ) == ast.nodes[i] by {
        lemma_sorted_of_sorted(ast.nodes[i].fields);
    }
    assert forall|i: int| 0 <= i < ast.enums.len() implies normalized_enum()(
        #[trigger] ast.enums[i],
    ) == ast.enums[i] by {
        lemma_sorted_of_sorted(ast.enums[i].variants);
    }
    assert(ast.nodes.map_values(normalized_node()) =~= ast.nodes);
    assert(ast.enums.map_values(normalized_enum()) =~= ast.enums);
}

/// Putting a schema in order a second time changes nothing.
pub proof fn lemma_normalized_idempotent(ast: AstView)
    ensures
        normalized(normalized(ast)) == normalized(ast),
{
    lemma_normalized_is_in_order(ast);
    lemma_normalized_of_ordered(normalized(ast));
}

/// The schema that a grammar lowers to stands in order.
pub proof fn lemma_lowered_is_in_order(grammar: GrammarView)
    requires
        lowered(grammar) is Ok,
    ensures
        in_order(lowered(grammar)->Ok_0),
{
    lemma_normalized_is_in_order(enums_extracted(deduplicated(raw_schema(grammar))));
}

/// The schema that a grammar lowers to, or the reason why it has none: a
/// dangling reference first, then the first production whose rule cannot be
/// lowered.
pub open spec fn lowered(grammar: GrammarView) -> Result<AstView, LowerError> {
    if !grammar.well_formed() {
        Err(LowerError::DanglingReference)
    } else if grammar.productions.filter_map(lowering_error()).len() > 0 {
        Err(grammar.productions.filter_map(lowering_error())[0])
    } else {
        Ok(normalized(enums_extracted(deduplicated(raw_schema(grammar)))))
    }
}

fn sorted_strings(strings: &Vec<String>) -> (r: Vec<String>)
    ensures
        view_all(r@) == sorted(view_all(strings@)),
{
    let mut r: Vec<String> = Vec::new();
    let mut i: usize = 0;
    while i < strings.len()
        invariant
            i <= strings.len(),
            view_all(r@) == view_all(strings@).take(i as int),
        decreases strings.len() - i,
    {
        let ghost before = view_all(r@);
        r.push(strings[i].clone());
        assert(view_all(r@) =~= before.push(strings@[i as int]@));
        assert(view_all(r@) =~= view_all(strings@).take(i as int + 1));
        i += 1;
    }
    assert(view_all(strings@).take(strings.len() as int) == view_all(strings@));
    sort_strings(&mut r);
    r
}

fn sorted_fields(fields: &Vec<Field>) -> (r: Vec<Field>)
    ensures
        view_all(r@) == sorted(view_all(fields@)),
{
    let mut r: Vec<Field> = Vec::new();
    let mut i: usize = 0;
    while i < fields.len()
        invariant
            i <= fields.len(),
            view_all(r@) == view_all(fields@).take(i as int),
        decreases fields.len() - i,
    {
        let ghost before = view_all(r@);
        r.push(fields[i].duplicate());
        assert(view_all(r@) =~= before.push(fields@[i as int]@));
        assert(view_all(r@) =~= view_all(fields@).take(i as int + 1));
        i += 1;
    }
    assert(view_all(fields@).take(fields.len() as int) == view_all(fields@));
    proof {
        lemma_sorted_of_views::<Field>(r@);
    }
    sort(&mut r);
    r
}

/// Puts a schema in order.
pub fn normalize(ast: &mut AstSrc)
    ensures
        final(ast)@ == normalized(old(ast)@),
{
    let tokens = sorted_strings(&ast.tokens);
    proof {
        lemma_sorted_of_views::<AstNodeSrc>(ast.nodes@);
        lemma_sorted_of_views::<AstEnumSrc>(ast.enums@);
    }
    sort(&mut ast.nodes);
    sort(&mut ast.enums);
    let ghost node_views = view_all(ast.nodes@);
    let ghost enum_views = view_all(ast.enums@);
    let mut nodes: Vec<AstNodeSrc> = Vec::new();
    let mut i: usize = 0;
    while i < ast.nodes.len()
        invariant
            i <= ast.nodes.len(),
            node_views == view_all(ast.nodes@),
            view_all(nodes@) == node_views.map_values(normalized_node()).take(i as int),
        decreases ast.nodes.len() - i,
    {
        let ghost before = view_all(nodes@);
        let node = AstNodeSrc {
            name: ast.nodes[i].name.clone(),
            fields: sorted_fields(&ast.nodes[i].fields),
        };
        assert(node_views[i as int] == ast.nodes@[i as int]@);
        nodes.push(node);
        assert(view_all(nodes@) =~= before.push(node@));
        i += 1;
    }
    assert(node_views.map_values(normalized_node()).take(ast.nodes.len() as int)
        == node_views.map_values(normalized_node()));
    let mut enums: Vec<AstEnumSrc> = Vec::new();
    let mut i: usize = 0;
    while i < ast.enums.len()
        invariant
            i <= ast.enums.len(),
            enum_views == view_all(ast.enums@),
            view_all(enums@) == enum_views.map_values(normalized_enum()).take(i as int),
        decreases ast.enums.len() - i,
    {
        let ghost before = view_all(enums@);
        let enm = AstEnumSrc {
            name: ast.enums[i].name.clone(),
            variants: sorted_strings(&ast.enums[i].variants),
        };
        assert(enum_views[i as int] == ast.enums@[i as int]@);
        enums.push(enm);
        assert(view_all(enums@) =~= before.push(enm@));
        i += 1;
    }
    assert(enum_views.map_values(normalized_enum()).take(ast.enums.len() as int)
        == enum_views.map_values(normalized_enum()));
    ast.tokens = tokens;
    ast.nodes = nodes;
    ast.enums = enums;
}

/// The kinds of token of the schema, as they are given.
pub fn tokens_of_schema() -> (tokens: Vec<String>)
    ensures
        view_all(tokens@) == schema_tokens(),
{
    let mut tokens: Vec<String> = Vec::new();
    tokens.push(String::from_str("Whitespace"));
    tokens.push(String::from_str("Comment"));
    tokens.push(String::from_str("StringLiteral"));
    tokens.push(String::from_str("HexNumber"));
    tokens.push(String::from_str("DecimalNumber"));
    tokens.push(String::from_str("HexLiteral"));
    tokens.push(String::from_str("Ident"));
    assert(view_all(tokens@) =~= schema_tokens());
    tokens
}

/// Lowers a grammar to the schema of its syntax tree. Each production gives
/// an enum definition where its rule is an alternation of non-terminals, and
/// a node definition with the fields of its rule where it is not. The fields
/// of each node definition are deduplicated, the enum definitions are looked
/// for among them, and the schema is put in order. A grammar with a dangling
/// reference, or with a rule that cannot be lowered, has no schema.
pub fn lower(grammar: &GrammarSpecification) -> (res: Result<AstSrc, LowerError>)
    ensures
        match lowered(grammar@) {
            Ok(ast) => res matches Ok(schema) && schema@ == ast,
            Err(error) => res matches Err(reason) && reason == error,
        },
{
    if !grammar.is_well_formed() {
        return Err(LowerError::DanglingReference);
    }
    let ghost productions = grammar@.productions;
    let mut nodes: Vec<AstNodeSrc> = Vec::new();
    let mut enums: Vec<AstEnumSrc> = Vec::new();
    let mut i: usize = 0;
    assert(productions.take(0) == Seq::<ProductionView>::empty());
    assert(view_all(nodes@) =~= Seq::<AstNodeView>::empty());
    assert(view_all(enums@) =~= Seq::<AstEnumView>::empty());
    while i < grammar.productions.len()
        invariant
            i <= grammar.productions.len(),
            productions == view_all(grammar.productions@),
            productions == grammar@.productions,
            grammar@.well_formed(),
            productions.take(i as int).filter_map(lowering_error()).len() == 0,
            view_all(nodes@) == productions.take(i as int).filter_map(raw_node()),
            view_all(enums@) == productions.take(i as int).filter_map(raw_enum()),
        decreases grammar.productions.len() - i,
    {
        proof {
            productions.lemma_filter_map_take_succ(lowering_error(), i as int);
            productions.lemma_filter_map_take_succ(raw_node(), i as int);
            productions.lemma_filter_map_take_succ(raw_enum(), i as int);
        }
        let production = &grammar.productions[i];
        assert(productions[i as int] == production@);
        match lower_enum(&production.rule) {
            Some(variants) => {
                let ghost before = view_all(enums@);
                let enm = AstEnumSrc { name: production.name.clone(), variants };
                enums.push(enm);
                assert(view_all(enums@) =~= before + seq![enm@]);
            },
            None => {
                let mut fields: Vec<Field> = Vec::new();
                assert(view_all(fields@) =~= Seq::<FieldView>::empty());
                match lower_rule(&mut fields, None, &production.rule) {
                    Err(error) => {
                        proof {
                            lemma_filter_map_first(productions, lowering_error(), i as int + 1);
                        }
                        return Err(error);
                    },
                    Ok(()) => {
                        let ghost before = view_all(nodes@);
                        let ghost lowered_fields = lower_rule_spec(None, production@.rule)->Ok_0;
                        assert(view_all(fields@) =~= lowered_fields);
                        let node = AstNodeSrc { name: production.name.clone(), fields };
                        nodes.push(node);
                        assert(view_all(nodes@) =~= before + seq![node@]);
                    },
                }
            },
        }
        i += 1;
    }
    assert(productions.take(grammar.productions.len() as int) == productions);
    let mut res = AstSrc { tokens: tokens_of_schema(), nodes, enums };
    assert(res@ == raw_schema(grammar@));
    deduplicate_fields(&mut res);
    extract_enums(&mut res);
    normalize(&mut res);
    Ok(res)
}

} // verus!
