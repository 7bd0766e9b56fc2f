use saba_core::js_token::{JsLexer, Token};

#[test]
fn js_token_test_empty() {
    let input = "".to_string();
    let mut lexer = JsLexer::new(input);
    assert!(lexer.next().is_none());
}

#[test]
fn token_test_num() {
    let input = "42".to_string();
    let mut lexer = JsLexer::new(input);
    let expected = [Token::Number(42)].to_vec();
    let mut i = 0;
    while let Some(token) = lexer.next() {
        assert_eq!(expected[i], token);
        i += 1;
    }
    assert_eq!(expected.len(), i);
    assert!(lexer.next().is_none());
}

#[test]
fn test_add_numes() {
    let input = "1 + 333".to_string();
    let mut lexer = JsLexer::new(input);
    let expected =
        [Token::Number(1), Token::Punctuator('+'), Token::Number(333)]
            .to_vec();
    let mut i = 0;
    while let Some(token) = lexer.next() {
        assert_eq!(expected[i], token);
        i += 1;
    }
    assert_eq!(expected.len(), i);
    assert!(lexer.next().is_none());
}

#[test]
fn token_test_assign_variable() {
    let input = "var foo = \"bar\";".to_string();
    let mut lexer = JsLexer::new(input);
    let expected = [
        Token::Keyword("var".to_string()),
        Token::Identifier("foo".to_string()),
        Token::Punctuator('='),
        Token::StringLiteral("bar".to_string()),
        Token::Punctuator(';'),
    ];
    let mut i = 0;

    while let Some(token) = lexer.next() {
        assert_eq!(expected[i], token);
        i += 1;
    }
    assert_eq!(expected.len(), i);
}

#[test]
fn token_test_add_variable_and_num() {
    let input = "var foo = 42; var result = foo + 150;".to_string();
    let mut lexer = JsLexer::new(input);
    let expected = [
        Token::Keyword("var".to_string()),
        Token::Identifier("foo".to_string()),
        Token::Punctuator('='),
        Token::Number(42),
        Token::Punctuator(';'),
        Token::Keyword("var".to_string()),
        Token::Identifier("result".to_string()),
        Token::Punctuator('='),
        Token::Identifier("foo".to_string()),
        Token::Punctuator('+'),
        Token::Number(150),
        Token::Punctuator(';'),
    ];
    let mut i = 0;

    while let Some(token) = lexer.next() {
        assert_eq!(expected[i], token);
        i += 1;
    }
    assert_eq!(expected.len(), i);
}

#[test]
fn test_add_local_variable_and_num() {
    let input = r#"
function foo() {
var a=42; 
return a;
}
var result = foo() + 1;
"#
    .to_string();
    let mut lexer = JsLexer::new(input);
    let expected = [
        Token::Keyword("function".to_string()),
        Token::Identifier("foo".to_string()),
        Token::Punctuator('('),
        Token::Punctuator(')'),
        Token::Punctuator('{'),
        Token::Keyword("var".to_string()),
        Token::Identifier("a".to_string()),
        Token::Punctuator('='),
        Token::Number(42),
        Token::Punctuator(';'),
        Token::Keyword("return".to_string()),
        Token::Identifier("a".to_string()),
        Token::Punctuator(';'),
        Token::Punctuator('}'),
        // ここまで関数定義
        Token::Keyword("var".to_string()),
        Token::Identifier("result".to_string()),
        Token::Punctuator('='),
        Token::Identifier("foo".to_string()),
        Token::Punctuator('('),
        Token::Punctuator(')'),
        Token::Punctuator('+'),
        Token::Number(1),
        Token::Punctuator(';'),
    ];
    let mut i = 0;

    while let Some(token) = lexer.next() {
        assert_eq!(expected[i], token);
        i += 1;
    }
    assert_eq!(expected.len(), i);
}

#[test]
fn numbers_saturate_and_odd_characters_are_tokens() {
    let mut lexer = JsLexer::new("99999999999999999999 # _x$1".to_string());
    assert_eq!(Some(Token::Number(u64::MAX)), lexer.next());
    assert_eq!(Some(Token::Unsupported('#')), lexer.next());
    assert_eq!(Some(Token::Identifier("_x$1".to_string())), lexer.next());
    assert_eq!(None, lexer.next());
}
