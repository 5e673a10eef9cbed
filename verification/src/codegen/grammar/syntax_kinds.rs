//! The syntax kinds: the one enumeration of every kind of token and of node,
//! in a fixed order, with the spelling of the kinds that have one.

use vstd::prelude::*;
use vstd::string::*;
use crate::codegen::grammar::ast_src::{KindsSrc, KindsView};
use crate::codegen::grammar::utils::{str_eq, to_upper_snake_case, upper_snake_case};
use crate::sorting::{dedup, dedup_adjacent, sort_strings, sorted};
use crate::text::view_all;

verus! {

/// The class of a syntax kind.
#[derive(Debug, Clone, Copy, PartialEq, Eq, Structural)]
pub enum KindClass {
    /// A kind that no tree holds: the first two and the last.
    Technical,
    /// A symbol.
    Punctuation,
    /// A keyword everywhere.
    StrictKeyword,
    /// A keyword in some places only.
    ContextualKeyword,
    /// A literal.
    Literal,
    /// A token without fixed spelling.
    Token,
    /// A node.
    Node,
}

/// A syntax kind: its name, its class, and its spelling where it has one.
#[derive(Debug, Clone, PartialEq, Eq)]
pub struct SyntaxKind {
    pub name: String,
    pub class: KindClass,
    pub text: Option<String>,
}

/// What a [`SyntaxKind`] holds.
pub struct SyntaxKindView {
    pub name: Seq<char>,
    pub class: KindClass,
    pub text: Option<Seq<char>>,
}

impl View for SyntaxKind {
    type V = SyntaxKindView;

    open spec fn view(&self) -> SyntaxKindView {
        SyntaxKindView {
            name: self.name@,
            class: self.class,
            text: match self.text {
                Some(text) => Some(text@),
                None => None,
            },
        }
    }
}

/// The syntax kinds in their order. The place of a kind is its number.
#[derive(Debug, Clone, PartialEq, Eq)]
pub struct SyntaxKinds {
    pub kinds: Vec<SyntaxKind>,
}

impl View for SyntaxKinds {
    type V = Seq<SyntaxKindView>;

    open spec fn view(&self) -> Seq<SyntaxKindView> {
        view_all(self.kinds@)
    }
}

/// The name of the kind of a keyword: `let` has `LET_KW`.
pub open spec fn keyword_variant(keyword: Seq<char>) -> Seq<char> {
    upper_snake_case(keyword) + "_KW"@
}

/// A kind that no tree holds.
pub open spec fn technical_kind(name: Seq<char>) -> SyntaxKindView {
    SyntaxKindView { name, class: KindClass::Technical, text: None }
}

/// The kinds of the symbols, in the order of the table.
pub open spec fn punctuation_kinds(punct: Seq<(Seq<char>, Seq<char>)>) -> Seq<SyntaxKindView> {
    punct.map_values(
        |p: (Seq<char>, Seq<char>)|
            SyntaxKindView { name: p.1, class: KindClass::Punctuation, text: Some(p.0) },
    )
}

/// The kinds of the strict keywords, in their order.
pub open spec fn strict_keyword_kinds(keywords: Seq<Seq<char>>) -> Seq<SyntaxKindView> {
    keywords.map_values(
        |keyword: Seq<char>|
            SyntaxKindView {
                name: keyword_variant(keyword),
                class: KindClass::StrictKeyword,
                text: Some(keyword),
            },
    )
}

/// The names of the kinds of the given keywords.
pub open spec fn keyword_variants(keywords: Seq<Seq<char>>) -> Seq<Seq<char>> {
    keywords.map_values(|keyword: Seq<char>| keyword_variant(keyword))
}

/// The first keyword from `i` on whose kind has the name `variant`.
pub open spec fn keyword_of_variant_from(
    keywords: Seq<Seq<char>>,
    variant: Seq<char>,
    i: int,
) -> Option<Seq<char>>
    decreases keywords.len() - i,
{
    if i < 0 || i >= keywords.len() {
        None
    } else if keyword_variant(keywords[i]) == variant {
        Some(keywords[i])
    } else {
        keyword_of_variant_from(keywords, variant, i + 1)
    }
}

/// The kind of the contextual keywords with the name `variant`, and
/// nothing where a strict keyword has a kind of that name.
pub open spec fn contextual_keyword_kind(kinds: KindsView) -> spec_fn(Seq<char>) -> Option<
    SyntaxKindView,
> {
    |variant: Seq<char>|
        if keyword_variants(kinds.keywords).contains(variant) {
            None
        } else {
            Some(
                SyntaxKindView {
                    name: variant,
                    class: KindClass::ContextualKeyword,
                    text: keyword_of_variant_from(kinds.contextual_keywords, variant, 0),
                },
            )
        }
}

/// The kinds of the contextual keywords: one for each name, in the order
/// of the names, without those that a strict keyword has.
pub open spec fn contextual_keyword_kinds(kinds: KindsView) -> Seq<SyntaxKindView> {
    dedup_adjacent(sorted(keyword_variants(kinds.contextual_keywords))).filter_map(
        contextual_keyword_kind(kinds),
    )
}

/// The kinds of the given names in the given class, without spelling.
pub open spec fn named_kinds(names: Seq<Seq<char>>, class: KindClass) -> Seq<SyntaxKindView> {
    names.map_values(|name: Seq<char>| SyntaxKindView { name, class, text: None })
}

/// The syntax kinds that come of `kinds`, in this order: `TOMBSTONE` and
/// `EOF`, the symbols, the strict keywords, the contextual keywords, the
/// literals, the tokens without fixed spelling, the node definitions, the
/// enum definitions, and `__LAST`.
pub open spec fn syntax_kinds_of(kinds: KindsView) -> Seq<SyntaxKindView> {
    seq![technical_kind("TOMBSTONE"@), technical_kind("EOF"@)] + punctuation_kinds(kinds.punct)
        + strict_keyword_kinds(kinds.keywords) + contextual_keyword_kinds(kinds) + named_kinds(
        kinds.literals,
        KindClass::Literal,
    ) + named_kinds(kinds.tokens, KindClass::Token) + named_kinds(kinds.nodes, KindClass::Node)
        + named_kinds(kinds.enums, KindClass::Node) + seq![technical_kind("__LAST"@)]
}

/// The first place from `i` on whose kind meets `wanted`.
pub open spec fn first_kind_from(
    kinds: Seq<SyntaxKindView>,
    wanted: spec_fn(SyntaxKindView) -> bool,
    i: int,
) -> Option<int>
    decreases kinds.len() - i,
{
    if i < 0 || i >= kinds.len() {
        None
    } else if wanted(kinds[i]) {
        Some(i)
    } else {
        first_kind_from(kinds, wanted, i + 1)
    }
}

/// A kind of the given class with the given spelling.
pub open spec fn spelled(class: KindClass, spelling: Seq<char>) -> spec_fn(SyntaxKindView) -> bool {
    |kind: SyntaxKindView| kind.class == class && kind.text == Some(spelling)
}

/// A kind with the given spelling, of whatever class.
pub open spec fn spelled_in_any_class(spelling: Seq<char>) -> spec_fn(SyntaxKindView) -> bool {
    |kind: SyntaxKindView| kind.text == Some(spelling)
}

/// A kind with the given name.
pub open spec fn named(name: Seq<char>) -> spec_fn(SyntaxKindView) -> bool {
    |kind: SyntaxKindView| kind.name == name
}

/// The name of the kind that a word stands for where it is no spelling:
/// `ident` stands for `IDENT`, and so on for the four kinds of literal.
pub open spec fn name_of_word(word: Seq<char>) -> Option<Seq<char>> {
    if word == "decimal_number"@ {
        Some("DECIMAL_NUMBER"@)
    } else if word == "hex_number"@ {
        Some("HEX_NUMBER"@)
    } else if word == "string_literal"@ {
        Some("STRING_LITERAL"@)
    } else if word == "hex_literal"@ {
        Some("HEX_LITERAL"@)
    } else if word == "ident"@ {
        Some("IDENT"@)
    } else {
        None
    }
}

fn technical(name: &str) -> (kind: SyntaxKind)
    ensures
        kind@ == technical_kind(name@),
{
    SyntaxKind { name: String::from_str(name), class: KindClass::Technical, text: None }
}

fn kinds_of_punctuation(punct: &Vec<(String, String)>) -> (r: Vec<SyntaxKind>)
    ensures
        view_all(r@) == punctuation_kinds(view_all(punct@)),
{
    let mut r: Vec<SyntaxKind> = Vec::new();
    let mut i: usize = 0;
    while i < punct.len()
        invariant
            i <= punct.len(),
            view_all(r@) == punctuation_kinds(view_all(punct@)).take(i as int),
        decreases punct.len() - i,
    {
        let ghost before = view_all(r@);
        let kind = SyntaxKind {
            name: punct[i].1.clone(),
            class: KindClass::Punctuation,
            text: Some(punct[i].0.clone()),
        };
        r.push(kind);
        assert(view_all(punct@)[i as int] == (punct@[i as int].0@, punct@[i as int].1@));
        assert(view_all(r@) =~= before.push(kind@));
        assert(view_all(r@) =~= punctuation_kinds(view_all(punct@)).take(i as int + 1));
        i += 1;
    }
    assert(punctuation_kinds(view_all(punct@)).take(punct.len() as int) == punctuation_kinds(
        view_all(punct@),
    ));
    r
}

/// The name of the kind of a keyword: `let` has `LET_KW`.
pub fn variant_of_keyword(keyword: &str) -> (r: String)
    ensures
        r@ == keyword_variant(keyword@),
{
    to_upper_snake_case(keyword).concat("_KW")
}

fn kinds_of_strict_keywords(keywords: &Vec<String>) -> (r: Vec<SyntaxKind>)
    ensures
        view_all(r@) == strict_keyword_kinds(view_all(keywords@)),
{
    let mut r: Vec<SyntaxKind> = Vec::new();
    let mut i: usize = 0;
    while i < keywords.len()
        invariant
            i <= keywords.len(),
            view_all(r@) == strict_keyword_kinds(view_all(keywords@)).take(i as int),
        decreases keywords.len() - i,
    {
        let ghost before = view_all(r@);
        let kind = SyntaxKind {
            name: variant_of_keyword(keywords[i].as_str()),
            class: KindClass::StrictKeyword,
            text: Some(keywords[i].clone()),
        };
        r.push(kind);
        assert(view_all(keywords@)[i as int] == keywords@[i as int]@);
        assert(view_all(r@) =~= before.push(kind@));
        assert(view_all(r@) =~= strict_keyword_kinds(view_all(keywords@)).take(i as int + 1));
        i += 1;
    }
    assert(strict_keyword_kinds(view_all(keywords@)).take(keywords.len() as int)
        == strict_keyword_kinds(view_all(keywords@)));
    r
}

fn variants_of_keywords(keywords: &Vec<String>) -> (r: Vec<String>)
    ensures
        view_all(r@) == keyword_variants(view_all(keywords@)),
{
    let mut r: Vec<String> = Vec::new();
    let mut i: usize = 0;
    while i < keywords.len()
        invariant
            i <= keywords.len(),
            view_all(r@) == keyword_variants(view_all(keywords@)).take(i as int),
        decreases keywords.len() - i,
    {
        let ghost before = view_all(r@);
        r.push(variant_of_keyword(keywords[i].as_str()));
        assert(view_all(keywords@)[i as int] == keywords@[i as int]@);
        assert(view_all(r@) =~= before.push(keyword_variant(keywords@[i as int]@)));
        assert(view_all(r@) =~= keyword_variants(view_all(keywords@)).take(i as int + 1));
        i += 1;
    }
    assert(keyword_variants(view_all(keywords@)).take(keywords.len() as int) == keyword_variants(
        view_all(keywords@),
    ));
    r
}

fn keyword_of_variant(keywords: &Vec<String>, variant: &str) -> (r: Option<String>)
    ensures
        match r {
            Some(keyword) => keyword_of_variant_from(view_all(keywords@), variant@, 0) == Some(
                keyword@,
            ),
            None => keyword_of_variant_from(view_all(keywords@), variant@, 0) is None,
        },
{
    let mut i: usize = 0;
    while i < keywords.len()
        invariant
            i <= keywords.len(),
            keyword_of_variant_from(view_all(keywords@), variant@, 0) == keyword_of_variant_from(
                view_all(keywords@),
                variant@,
                i as int,
            ),
        decreases keywords.len() - i,
    {
        assert(view_all(keywords@)[i as int] == keywords@[i as int]@);
        let candidate = variant_of_keyword(keywords[i].as_str());
        if str_eq(candidate.as_str(), variant) {
            return Some(keywords[i].clone());
        }
        i += 1;
    }
    None
}

fn kinds_of_contextual_keywords(kinds: &KindsSrc) -> (r: Vec<SyntaxKind>)
    ensures
        view_all(r@) == contextual_keyword_kinds(kinds@),
{
    let strict = variants_of_keywords(&kinds.keywords);
    let mut variants = variants_of_keywords(&kinds.contextual_keywords);
    sort_strings(&mut variants);
    let variants = dedup(&variants);
    let ghost names = view_all(variants@);
    let mut r: Vec<SyntaxKind> = Vec::new();
    let mut i: usize = 0;
    assert(names.take(0) == Seq::<Seq<char>>::empty());
    assert(view_all(r@) =~= Seq::<SyntaxKindView>::empty());
    while i < variants.len()
        invariant
            i <= variants.len(),
            names == view_all(variants@),
            view_all(strict@) == keyword_variants(kinds@.keywords),
            view_all(r@) == names.take(i as int).filter_map(contextual_keyword_kind(kinds@)),
        decreases variants.len() - i,
    {
        proof {
            names.lemma_filter_map_take_succ(contextual_keyword_kind(kinds@), i as int);
        }
        let ghost before = view_all(r@);
        assert(names[i as int] == variants@[i as int]@);
        if !crate::codegen::grammar::ast_src::contains_str(&strict, variants[i].as_str()) {
            let text = keyword_of_variant(&kinds.contextual_keywords, variants[i].as_str());
            let kind = SyntaxKind {
                name: variants[i].clone(),
                class: KindClass::ContextualKeyword,
                text,
            };
            r.push(kind);
            assert(view_all(r@) =~= before + seq![kind@]);
        }
        i += 1;
    }
    assert(names.take(variants.len() as int) == names);
    r
}

fn kinds_of_names(names: &Vec<String>, class: KindClass) -> (r: Vec<SyntaxKind>)
    ensures
        view_all(r@) == named_kinds(view_all(names@), class),
{
    let mut r: Vec<SyntaxKind> = Vec::new();
    let mut i: usize = 0;
    while i < names.len()
        invariant
            i <= names.len(),
            view_all(r@) == named_kinds(view_all(names@), class).take(i as int),
        decreases names.len() - i,
    {
        let ghost before = view_all(r@);
        let kind = SyntaxKind { name: names[i].clone(), class, text: None };
        r.push(kind);
        assert(view_all(names@)[i as int] == names@[i as int]@);
        assert(view_all(r@) =~= before.push(kind@));
        assert(view_all(r@) =~= named_kinds(view_all(names@), class).take(i as int + 1));
        i += 1;
    }
    assert(named_kinds(view_all(names@), class).take(names.len() as int) == named_kinds(
        view_all(names@),
        class,
    ));
    r
}

fn append_kinds(all: &mut Vec<SyntaxKind>, more: Vec<SyntaxKind>)
    ensures
        view_all(final(all)@) == view_all(old(all)@) + view_all(more@),
{
    let mut more = more;
    let ghost added = more@;
    all.append(&mut more);
    assert(view_all(all@) =~= view_all(old(all)@) + view_all(added));
}

/// The syntax kinds that come of `kinds`, each at the place that is its
/// number.
pub fn generate_syntax_kinds(kinds: &KindsSrc) -> (table: SyntaxKinds)
    ensures
        table@ == syntax_kinds_of(kinds@),
{
    let mut all: Vec<SyntaxKind> = Vec::new();
    all.push(technical("TOMBSTONE"));
    all.push(technical("EOF"));
    assert(view_all(all@) =~= seq![technical_kind("TOMBSTONE"@), technical_kind("EOF"@)]);
    append_kinds(&mut all, kinds_of_punctuation(&kinds.punct));
    append_kinds(&mut all, kinds_of_strict_keywords(&kinds.keywords));
    append_kinds(&mut all, kinds_of_contextual_keywords(kinds));
    append_kinds(&mut all, kinds_of_names(&kinds.literals, KindClass::Literal));
    append_kinds(&mut all, kinds_of_names(&kinds.tokens, KindClass::Token));
    append_kinds(&mut all, kinds_of_names(&kinds.nodes, KindClass::Node));
    append_kinds(&mut all, kinds_of_names(&kinds.enums, KindClass::Node));
    let ghost before = view_all(all@);
    all.push(technical("__LAST"));
    assert(view_all(all@) =~= before + seq![technical_kind("__LAST"@)]);
    SyntaxKinds { kinds: all }
}

impl SyntaxKinds {
    /// How many kinds there are. The numbers of the kinds are those below.
    pub fn len(&self) -> (n: usize)
        ensures
            n == self@.len(),
    {
        self.kinds.len()
    }

    /// The class of the kind with the given number, if there is such a kind.
    pub fn class_of(&self, kind: usize) -> (class: Option<KindClass>)
        ensures
            class == if kind < self@.len() {
                Some(self@[kind as int].class)
            } else {
                None
            },
    {
        if kind < self.kinds.len() {
            Some(self.kinds[kind].class)
        } else {
            None
        }
    }

    /// Whether the kind with the given number has a spelling.
    pub open spec fn has_text(&self, kind: usize) -> bool {
        kind < self@.len() && self@[kind as int].text is Some
    }

    /// The spelling of a symbol or a keyword. Other kinds have none.
    pub fn text(&self, kind: usize) -> (text: String)
        requires
            self.has_text(kind),
        ensures
            Some(text@) == self@[kind as int].text,
    {
        match &self.kinds[kind].text {
            Some(text) => text.clone(),
            None => String::new(),
        }
    }

    /// The spelling of the kind with the given number, where there is such a
    /// kind and it has one.
    pub fn try_text(&self, kind: usize) -> (text: Option<String>)
        ensures
            match text {
                Some(text) => self.has_text(kind) && Some(text@) == self@[kind as int].text,
                None => !self.has_text(kind),
            },
    {
        if kind < self.kinds.len() {
            match &self.kinds[kind].text {
                Some(text) => Some(text.clone()),
                None => None,
            }
        } else {
            None
        }
    }

    /// Whether the kind is a keyword everywhere.
    pub fn is_strict_keyword(&self, kind: usize) -> (r: bool)
        ensures
            r == (kind < self@.len() && self@[kind as int].class == KindClass::StrictKeyword),
    {
        kind < self.kinds.len() && self.kinds[kind].class == KindClass::StrictKeyword
    }

    /// Whether the kind is a keyword in some places only.
    pub fn is_contextual_keyword(&self, kind: usize) -> (r: bool)
        ensures
            r == (kind < self@.len() && self@[kind as int].class == KindClass::ContextualKeyword),
    {
        kind < self.kinds.len() && self.kinds[kind].class == KindClass::ContextualKeyword
    }

    /// Whether the kind is a keyword, strict or contextual.
    pub fn is_keyword(&self, kind: usize) -> (r: bool)
        ensures
            r == (kind < self@.len() && (self@[kind as int].class == KindClass::StrictKeyword
                || self@[kind as int].class == KindClass::ContextualKeyword)),
    {
        self.is_strict_keyword(kind) || self.is_contextual_keyword(kind)
    }

    /// Whether the kind is a symbol.
    pub fn is_punct(&self, kind: usize) -> (r: bool)
        ensures
            r == (kind < self@.len() && self@[kind as int].class == KindClass::Punctuation),
    {
        kind < self.kinds.len() && self.kinds[kind].class == KindClass::Punctuation
    }

    /// Whether the kind is a literal.
    pub fn is_literal(&self, kind: usize) -> (r: bool)
        ensures
            r == (kind < self@.len() && self@[kind as int].class == KindClass::Literal),
    {
        kind < self.kinds.len() && self.kinds[kind].class == KindClass::Literal
    }

    fn find_spelled(&self, class: Option<KindClass>, spelling: &str) -> (r: Option<usize>)
        ensures
            r matches Some(kind) ==> kind < self@.len(),
            match class {
                Some(class) => option_int(r) == first_kind_from(
                    self@,
                    spelled(class, spelling@),
                    0,
                ),
                None => option_int(r) == first_kind_from(
                    self@,
                    spelled_in_any_class(spelling@),
                    0,
                ),
            },
    {
        let ghost wanted = match class {
            Some(class) => spelled(class, spelling@),
            None => spelled_in_any_class(spelling@),
        };
        let mut i: usize = 0;
        while i < self.kinds.len()
            invariant
                i <= self.kinds.len(),
                wanted == match class {
                    Some(class) => spelled(class, spelling@),
                    None => spelled_in_any_class(spelling@),
                },
                first_kind_from(self@, wanted, 0) == first_kind_from(self@, wanted, i as int),
            decreases self.kinds.len() - i,
        {
            assert(self@[i as int] == self.kinds@[i as int]@);
            let in_class = match class {
                Some(class) => self.kinds[i].class == class,
                None => true,
            };
            let found = in_class && match &self.kinds[i].text {
                Some(text) => str_eq(text.as_str(), spelling),
                None => false,
            };
            if found {
                return Some(i);
            }
            i += 1;
        }
        None
    }

    /// The number of the first kind with the given name.
    pub fn from_name(&self, name: &str) -> (r: Option<usize>)
        ensures
            r matches Some(kind) ==> kind < self@.len(),
            option_int(r) == first_kind_from(self@, named(name@), 0),
    {
        let mut i: usize = 0;
        while i < self.kinds.len()
            invariant
                i <= self.kinds.len(),
                first_kind_from(self@, named(name@), 0) == first_kind_from(
                    self@,
                    named(name@),
                    i as int,
                ),
            decreases self.kinds.len() - i,
        {
            assert(self@[i as int] == self.kinds@[i as int]@);
            if str_eq(self.kinds[i].name.as_str(), name) {
                return Some(i);
            }
            i += 1;
        }
        None
    }

    /// The number of the strict keyword that is spelled `ident`.
    pub fn from_keyword(&self, ident: &str) -> (r: Option<usize>)
        ensures
            r matches Some(kind) ==> kind < self@.len(),
            option_int(r) == first_kind_from(self@, spelled(KindClass::StrictKeyword, ident@), 0),
    {
        self.find_spelled(Some(KindClass::StrictKeyword), ident)
    }

    /// The number of the contextual keyword that is spelled `ident`.
    pub fn from_contextual_keyword(&self, ident: &str) -> (r: Option<usize>)
        ensures
            r matches Some(kind) ==> kind < self@.len(),
            option_int(r) == first_kind_from(
                self@,
                spelled(KindClass::ContextualKeyword, ident@),
                0,
            ),
    {
        self.find_spelled(Some(KindClass::ContextualKeyword), ident)
    }

    /// The number of the symbol that is the one character `c`; only a
    /// character of one byte can be such a symbol.
    pub fn from_char(&self, c: char) -> (r: Option<usize>)
        ensures
            r matches Some(kind) ==> kind < self@.len(),
            option_int(r) == if (c as u32) < 128 {
                first_kind_from(self@, spelled(KindClass::Punctuation, seq![c]), 0)
            } else {
                None
            },
    {
        if (c as u32) < 128 {
            let mut spelling = String::new();
            spelling.push(c);
            assert(spelling@ =~= seq![c]);
            self.find_spelled(Some(KindClass::Punctuation), spelling.as_str())
        } else {
            None
        }
    }

    /// The number of the kind that `word` stands for: the first kind that is
    /// spelled so or, where there is none, the first kind with the name that
    /// the word stands for.
    pub fn from_spelling(&self, word: &str) -> (r: Option<usize>)
        ensures
            r matches Some(kind) ==> kind < self@.len(),
            option_int(r) == match first_kind_from(self@, spelled_in_any_class(word@), 0) {
                Some(kind) => Some(kind),
                None => match name_of_word(word@) {
                    Some(name) => first_kind_from(self@, named(name), 0),
                    None => None,
                },
            },
    {
        match self.find_spelled(None, word) {
            Some(kind) => Some(kind),
            None => {
                if str_eq(word, "decimal_number") {
                    self.from_name("DECIMAL_NUMBER")
                } else if str_eq(word, "hex_number") {
                    self.from_name("HEX_NUMBER")
                } else if str_eq(word, "string_literal") {
                    self.from_name("STRING_LITERAL")
                } else if str_eq(word, "hex_literal") {
                    self.from_name("HEX_LITERAL")
                } else if str_eq(word, "ident") {
                    self.from_name("IDENT")
                } else {
                    None
                }
            },
        }
    }
}

/// A place as a mathematical integer.
pub open spec fn option_int(place: Option<usize>) -> Option<int> {
    match place {
        Some(i) => Some(i as int),
        None => None,
    }
}

} // verus!
