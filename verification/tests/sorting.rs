use qi_compiler::sorting::{dedup, sort, sort_strings, Precedes};
use qi_compiler::text::{chars_of, chars_precede, str_precedes, string_from_chars};
use qi_compiler::codegen::grammar::ast_src::{AstNodeSrc, Cardinality, Field};

fn strings(names: &[&str]) -> Vec<String> {
    names.iter().map(|name| (*name).to_owned()).collect()
}

#[test]
fn strings_come_in_the_order_of_their_characters() {
    assert!(str_precedes("a", "b"));
    assert!(!str_precedes("b", "a"));
    assert!(!str_precedes("a", "a"));
    assert!(str_precedes("", "a"));
    assert!(!str_precedes("", ""));
    assert!(str_precedes("a", "ab"));
    assert!(str_precedes("Z", "a"));
    assert!(str_precedes("ab", "b"));
    assert!(str_precedes("z", "é"));
    assert!(str_precedes("é", "€"));
    assert!(str_precedes("\u{ffff}", "\u{10000}"));
    let samples = ["", "a", "A", "ab", "b", "é", "€", "\u{ffff}", "\u{10000}", "a€", "aé"];
    for a in samples {
        for b in samples {
            assert_eq!(str_precedes(a, b), a < b, "{a:?} {b:?}");
            assert_eq!(chars_precede(&chars_of(a), &chars_of(b)), a < b);
        }
    }
}

#[test]
fn characters_of_strings() {
    assert_eq!(chars_of("aé€"), vec!['a', 'é', '€']);
    assert_eq!(chars_of(""), vec![]);
    assert_eq!(string_from_chars(&vec!['a', 'é', '€']), "aé€");
    assert_eq!(string_from_chars(&vec![]), "");
}

#[test]
fn sorting_strings() {
    let mut names = strings(&["b", "a", "", "ab", "B", "a", "é"]);
    let mut expected = names.clone();
    expected.sort();
    sort_strings(&mut names);
    assert_eq!(names, expected);
    assert_eq!(names, strings(&["", "B", "a", "a", "ab", "b", "é"]));
    assert_eq!(dedup(&names), strings(&["", "B", "a", "ab", "b", "é"]));
    assert_eq!(dedup(&strings(&["a", "b", "a", "a", "b", "b"])), strings(&["a", "b", "a", "b"]));
    assert_eq!(dedup(&vec![]), Vec::<String>::new());
    let mut empty: Vec<String> = vec![];
    sort(&mut empty);
    assert!(empty.is_empty());
}

#[test]
fn sorting_keeps_the_order_of_equal_keys() {
    let node = |name: &str, mark: &str| AstNodeSrc {
        name: name.to_owned(),
        fields: vec![Field::Token(mark.to_owned())],
    };
    let mut nodes = vec![node("b", "1"), node("a", "2"), node("b", "3"), node("a", "4"), node("a", "5")];
    sort(&mut nodes);
    assert_eq!(
        nodes,
        vec![node("a", "2"), node("a", "4"), node("a", "5"), node("b", "1"), node("b", "3")]
    );
    let many = Field::Node { name: "a".to_owned(), ty: "T".to_owned(), cardinality: Cardinality::Many };
    let token = Field::Token("z".to_owned());
    assert!(token.precedes(&many));
    assert!(!many.precedes(&token));
    assert!(!many.precedes(&many));
    assert!("a".to_owned().precedes(&"b".to_owned()));
}
