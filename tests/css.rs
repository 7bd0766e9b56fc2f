use saba_core::css_parser::CssParser;
use saba_core::css_token::{CssNumber, CssToken, CssTokenizer};
use saba_core::cssom::{ComponentValue, Declaration, QualifiedRule, Selector, StyleSheet};

fn create_stylesheet(style: String) -> StyleSheet {
    CssParser::new(CssTokenizer::new(style)).parse_stylesheet()
}

#[test]
fn css_parser_test_empty() {
    let cssom = create_stylesheet("".to_string());
    assert_eq!(cssom.rules.len(), 0)
}

#[test]
fn parser_test_one_rule() {
    let cssom = create_stylesheet("p {color: red;}".to_string());
    let mut rule = QualifiedRule::new();
    rule.set_selector(Selector::TypeSelector("p".to_string()));
    let mut declaration = Declaration::new();
    declaration.set_property("color".to_string());
    declaration.set_value(ComponentValue::Ident("red".to_string()));
    rule.set_declarations(vec![declaration]);

    let expected = [rule];
    assert_eq!(cssom.rules.len(), expected.len());

    for (i, rule) in cssom.rules.iter().enumerate() {
        assert_eq!(&expected[i], rule);
    }
}

#[test]
fn parser_test_id_selector() {
    let cssom = create_stylesheet("#id {color: blue;}".to_string());

    let mut rule = QualifiedRule::new();
    rule.set_selector(Selector::IdSelector("id".to_string()));
    let mut declaration = Declaration::new();
    declaration.set_property("color".to_string());
    declaration.set_value(ComponentValue::Ident("blue".to_string()));
    rule.set_declarations(vec![declaration]);

    let expected = [rule];
    assert_eq!(cssom.rules.len(), expected.len());

    for (i, rule) in cssom.rules.iter().enumerate() {
        assert_eq!(&expected[i], rule);
    }
}

#[test]
fn parser_test_class_selector() {
    let cssom = create_stylesheet(".test_class {color: blue;}".to_string());

    let mut rule = QualifiedRule::new();
    rule.set_selector(Selector::ClassSelector("test_class".to_string()));
    let mut declaration = Declaration::new();
    declaration.set_property("color".to_string());
    declaration.set_value(ComponentValue::Ident("blue".to_string()));
    rule.set_declarations(vec![declaration]);

    let expected = [rule];
    assert_eq!(cssom.rules.len(), expected.len());

    for (i, rule) in cssom.rules.iter().enumerate() {
        assert_eq!(&expected[i], rule);
    }
}

#[test]
fn parser_test_multiple_rules() {
    let cssom = create_stylesheet(
        ".test_class {color: blue;} h1 {font-size: 40; color: white;}".to_string(),
    );

    let mut rule1 = QualifiedRule::new();
    rule1.set_selector(Selector::ClassSelector("test_class".to_string()));
    let mut declaration = Declaration::new();
    declaration.set_property("color".to_string());
    declaration.set_value(ComponentValue::Ident("blue".to_string()));
    rule1.set_declarations(vec![declaration]);

    let mut rule2 = QualifiedRule::new();
    rule2.set_selector(Selector::TypeSelector("h1".to_string()));
    let mut d1 = Declaration::new();
    let mut d2 = Declaration::new();
    d1.set_property("font-size".to_string());
    d1.set_value(ComponentValue::Number(CssNumber::whole(40)));
    d2.set_property("color".to_string());
    d2.set_value(ComponentValue::Ident("white".to_string()));
    rule2.set_declarations(vec![d1, d2]);

    let expected = [rule1, rule2];
    assert_eq!(cssom.rules.len(), expected.len());

    for (index, rule) in cssom.rules.iter().enumerate() {
        assert_eq!(rule, &expected[index]);
    }
}

#[test]
fn token_test_empty() {
    let s = "".to_string();
    let mut t = CssTokenizer::new(s);
    assert!(t.next().is_none());
}

#[test]
fn token_test_one_rule() {
    let style = "p {background-color: red; }".to_string();
    let mut t = CssTokenizer::new(style);
    let expected = [
        Some(CssToken::Ident("p".to_string())),
        Some(CssToken::OpenCurly),
        Some(CssToken::Ident("background-color".to_string())),
        Some(CssToken::Colon),
        Some(CssToken::Ident("red".to_string())),
        Some(CssToken::SemiColon),
        Some(CssToken::CloseCurly),
        None,
    ];

    for e in expected {
        assert_eq!(e, t.next());
    }
}

#[test]
fn token_test_id_selector() {
    let style = "#test {   color: red; }".to_string();
    let mut t = CssTokenizer::new(style);
    let expected = [
        CssToken::HashToken("#test".to_string()),
        CssToken::OpenCurly,
        CssToken::Ident("color".to_string()),
        CssToken::Colon,
        CssToken::Ident("red".to_string()),
        CssToken::SemiColon,
        CssToken::CloseCurly,
    ];

    for e in expected {
        assert_eq!(e, t.next().expect("failed"));
    }
    assert!(t.next().is_none());
}

#[test]
fn token_test_class_selector() {
    let style = ".test_class { color: red; }".to_string();
    let mut t = CssTokenizer::new(style);
    let expected = [
        CssToken::Delim('.'),
        CssToken::Ident("test_class".to_string()),
        CssToken::OpenCurly,
        CssToken::Ident("color".to_string()),
        CssToken::Colon,
        CssToken::Ident("red".to_string()),
        CssToken::SemiColon,
        CssToken::CloseCurly,
    ];

    for e in expected {
        assert_eq!(e, t.next().expect("failed"));
    }
    assert!(t.next().is_none());
}

#[test]
fn token_test_multiple_rules() {
    let style = "p {content: \"Test\"; } h1 { font-size: 10px; color: blue;}".to_string();
    let mut t = CssTokenizer::new(style);
    let expected = [
        CssToken::Ident("p".to_string()),
        CssToken::OpenCurly,
        CssToken::Ident("content".to_string()),
        CssToken::Colon,
        CssToken::StringToken("Test".to_string()),
        CssToken::SemiColon,
        CssToken::CloseCurly,
        CssToken::Ident("h1".to_string()),
        CssToken::OpenCurly,
        CssToken::Ident("font-size".to_string()),
        CssToken::Colon,
        CssToken::Number(CssNumber::whole(10)),
        CssToken::Ident("px".to_string()),
        CssToken::SemiColon,
        CssToken::Ident("color".to_string()),
        CssToken::Colon,
        CssToken::Ident("blue".to_string()),
        CssToken::SemiColon,
        CssToken::CloseCurly,
    ];

    for e in expected {
        assert_eq!(Some(e), t.next());
    }
    assert!(t.next().is_none());
}

#[test]
fn test_atmark() {
    let style = "@media (max-width: 600px) body{background-color: lightblue;}".to_string();
    let mut t = CssTokenizer::new(style);
    let expected = [
        CssToken::AtKeyword("media".to_string()),
        CssToken::OpenParenthesis,
        CssToken::Ident("max-width".to_string()),
        CssToken::Colon,
        CssToken::Number(CssNumber::whole(600)),
        CssToken::Ident("px".to_string()),
        CssToken::CloseParenthesis,
        CssToken::Ident("body".to_string()),
        CssToken::OpenCurly,
        CssToken::Ident("background-color".to_string()),
        CssToken::Colon,
        CssToken::Ident("lightblue".to_string()),
        CssToken::SemiColon,
        CssToken::CloseCurly,
    ];
    for e in expected {
        assert_eq!(Some(e), t.next());
    }
    assert!(t.next().is_none());
}

#[test]
fn at_rules_add_no_rule() {
    let cssom = create_stylesheet(
        "@media (max-width: 600px) body{background-color: lightblue;} p{color:red;}".to_string(),
    );
    assert_eq!(1, cssom.rules.len());
    assert_eq!(Selector::TypeSelector("p".to_string()), cssom.rules[0].selector);
}

#[test]
fn pseudo_class_is_a_type_selector() {
    let cssom = create_stylesheet("a:hover {color: red;}".to_string());
    assert_eq!(1, cssom.rules.len());
    assert_eq!(Selector::TypeSelector("a".to_string()), cssom.rules[0].selector);
    assert_eq!(1, cssom.rules[0].declarations.len());
}

#[test]
fn fractional_and_unsupported_input() {
    let mut t = CssTokenizer::new("1.50 * 007".to_string());
    assert_eq!(
        Some(CssToken::Number(CssNumber { integer: 1, fraction: 5, fraction_digits: 1 })),
        t.next()
    );
    assert_eq!(Some(CssToken::Unsupported('*')), t.next());
    assert_eq!(Some(CssToken::Number(CssNumber::whole(7))), t.next());
    assert_eq!(None, t.next());
    let mut big = CssTokenizer::new("99999999999999999999999".to_string());
    assert_eq!(Some(CssToken::Number(CssNumber::whole(u64::MAX))), big.next());
    let sheet = create_stylesheet("* {color: red;} p {display: none;}".to_string());
    assert_eq!(2, sheet.rules.len());
    assert_eq!(Selector::UnknownSelector, sheet.rules[0].selector);
}

#[test]
fn missing_colon_drops_the_declaration() {
    let cssom = create_stylesheet("p {color red; display: block;}".to_string());
    assert_eq!(1, cssom.rules.len());
    let decls = &cssom.rules[0].declarations;
    assert_eq!(1, decls.len());
    assert_eq!("display", decls[0].property);
}

#[test]
fn fractions_are_kept_to_eighteen_digits() {
    let mut t = CssTokenizer::new("0.1234567890123456789 2.500".to_string());
    assert_eq!(
        Some(CssToken::Number(CssNumber { integer: 0, fraction: 123456789012345678, fraction_digits: 18 })),
        t.next()
    );
    assert_eq!(
        Some(CssToken::Number(CssNumber { integer: 2, fraction: 5, fraction_digits: 1 })),
        t.next()
    );
}
