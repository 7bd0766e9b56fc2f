use saba_core::js_ast::{JsParser, Node, Program};
use saba_core::js_token::JsLexer;
use std::rc::Rc;

fn create_parser(input: String) -> JsParser {
    JsParser::new(JsLexer::new(input))
}

#[test]
fn ast_test_empty() {
    let input = "".to_string();
    let mut parser = create_parser(input);

    let expected = Program::new();
    assert_eq!(expected, parser.parse_ast());
}

#[test]
fn ast_test_num() {
    let input = "53211".to_string();
    let mut parser = create_parser(input);
    let mut expected = Program::new();
    expected.set_body(
        [Rc::new(Node::ExpressionStatement(Some(Rc::new(
            Node::NumericLiteral(53211),
        ))))]
        .to_vec(),
    );

    assert_eq!(expected, parser.parse_ast());
}

#[test]
fn test_add_nums() {
    let input = "216 + 222".to_string();
    let mut parser = create_parser(input);
    let mut expected = Program::new();
    expected.set_body(
        [Rc::new(Node::ExpressionStatement(Some(Rc::new(
            Node::AdditiveExpression {
                operator: '+',
                left: Some(Rc::new(Node::NumericLiteral(216))),
                right: Some(Rc::new(Node::NumericLiteral(222))),
            },
        ))))]
        .to_vec(),
    );

    assert_eq!(expected, parser.parse_ast());
}

#[test]
fn test_minus_nums() {
    let input = "98765 - 1234".to_string();
    let mut parser = create_parser(input);
    let mut expected = Program::new();
    expected.set_body(
        [Rc::new(Node::ExpressionStatement(Some(Rc::new(
            Node::AdditiveExpression {
                operator: '-',
                left: Some(Rc::new(Node::NumericLiteral(98765))),
                right: Some(Rc::new(Node::NumericLiteral(1234))),
            },
        ))))]
        .to_vec(),
    );

    assert_eq!(expected, parser.parse_ast());
}

#[test]
fn ast_test_assign_variable() {
    let input = "var foo=\"bar\";".to_string();
    let mut parser = create_parser(input);
    let mut expected = Program::new();
    expected.set_body(
        [Rc::new(Node::VariableDeclaration {
            declarations: [Some(Rc::new(Node::VariableDeclarator {
                id: Some(Rc::new(Node::Identifier("foo".to_string()))),
                init: Some(Rc::new(Node::StringLiteral("bar".to_string()))),
            }))]
            .to_vec(),
        })]
        .to_vec(),
    );
    assert_eq!(expected, parser.parse_ast());
}

#[test]
fn ast_test_add_variable_and_num() {
    let input = r#"var foo=42; 
var result = foo + 1;"#
        .to_string();
    let mut parser = create_parser(input);
    let mut expected = Program::new();
    expected.set_body(
        [
            Rc::new(Node::VariableDeclaration {
                declarations: [Some(Rc::new(Node::VariableDeclarator {
                    id: Some(Rc::new(Node::Identifier("foo".to_string()))),
                    init: Some(Rc::new(Node::NumericLiteral(42))),
                }))]
                .to_vec(),
            }),
            Rc::new(Node::VariableDeclaration {
                declarations: [Some(Rc::new(Node::VariableDeclarator {
                    id: Some(Rc::new(Node::Identifier(
                        "result".to_string(),
                    ))),
                    init: Some(Rc::new(Node::AdditiveExpression {
                        operator: '+',
                        left: Some(Rc::new(Node::Identifier(
                            "foo".to_string(),
                        ))),
                        right: Some(Rc::new(Node::NumericLiteral(1))),
                    })),
                }))]
                .to_vec(),
            }),
        ]
        .to_vec(),
    );

    assert_eq!(expected, parser.parse_ast());
}

#[test]
fn test_add_variable_and_reassign() {
    // 変数定義(一つの変数)
    // 変数定義(足し算を行ったあとの変数定義)
    // 変数への再代入
    let input = r#"var foo=42; 
var result = foo + 1;
result = 10"#
        .to_string();
    let mut parser = create_parser(input);
    let mut expected = Program::new();
    expected.set_body(
        [
            Rc::new(Node::VariableDeclaration {
                declarations: [Some(Rc::new(Node::VariableDeclarator {
                    id: Some(Rc::new(Node::Identifier("foo".to_string()))),
                    init: Some(Rc::new(Node::NumericLiteral(42))),
                }))]
                .to_vec(),
            }),
            Rc::new(Node::VariableDeclaration {
                declarations: [Some(Rc::new(Node::VariableDeclarator {
                    id: Some(Rc::new(Node::Identifier(
                        "result".to_string(),
                    ))),
                    init: Some(Rc::new(Node::AdditiveExpression {
                        operator: '+',
                        left: Some(Rc::new(Node::Identifier(
                            "foo".to_string(),
                        ))),
                        right: Some(Rc::new(Node::NumericLiteral(1))),
                    })),
                }))]
                .to_vec(),
            }),
            Rc::new(Node::ExpressionStatement(Some(Rc::new(
                Node::AssignmentExpression {
                    operator: '=',
                    left: Some(Rc::new(Node::Identifier(
                        "result".to_string(),
                    ))),
                    right: Some(Rc::new(Node::NumericLiteral(10))),
                },
            )))),
        ]
        .to_vec(),
    );

    assert_eq!(expected, parser.parse_ast());
}

// 関数定義(引数なし)のテスト
#[test]
fn test_define_function_without_arguments() {
    let input = r#"
function foo() {
return 42;
}"#
    .to_string();
    let mut parser = create_parser(input);
    let mut expected = Program::new();
    let body = [Rc::new(Node::FunctionDeclaration {
        id: Some(Rc::new(Node::Identifier("foo".to_string()))),
        params: Vec::new(),
        body: Some(Rc::new(Node::BlockStatement {
            body: [Some(Rc::new(Node::ReturnStatement {
                argument: Some(Rc::new(Node::NumericLiteral(42))),
            }))]
            .to_vec(),
        })),
    })]
    .to_vec();

    expected.set_body(body);
    assert_eq!(expected, parser.parse_ast());
}

// 関数定義(引数あり)のテスト
#[test]
fn test_define_function_with_arguments() {
    let input = r#"
function foo(hoge, fuga) {
return 42;
}"#
    .to_string();
    let mut parser = create_parser(input);
    let mut expected = Program::new();
    let body = [Rc::new(Node::FunctionDeclaration {
        id: Some(Rc::new(Node::Identifier("foo".to_string()))),
        params: [
            Some(Rc::new(Node::Identifier("hoge".to_string()))),
            Some(Rc::new(Node::Identifier("fuga".to_string()))),
        ]
        .to_vec(),
        body: Some(Rc::new(Node::BlockStatement {
            body: [Some(Rc::new(Node::ReturnStatement {
                argument: Some(Rc::new(Node::NumericLiteral(42))),
            }))]
            .to_vec(),
        })),
    })]
    .to_vec();

    expected.set_body(body);
    assert_eq!(expected, parser.parse_ast());
}

// 関数呼び出しのテスト
#[test]
fn test_add_function_add_num() {
    let input = r#"
function foo() {
return 42;
}
var result = foo() + 555;"#
        .to_string();
    let mut parser = create_parser(input);
    let mut expected = Program::new();
    let body = [
        Rc::new(Node::FunctionDeclaration {
            id: Some(Rc::new(Node::Identifier("foo".to_string()))),
            params: Vec::new(),
            body: Some(Rc::new(Node::BlockStatement {
                body: [Some(Rc::new(Node::ReturnStatement {
                    argument: Some(Rc::new(Node::NumericLiteral(42))),
                }))]
                .to_vec(),
            })),
        }),
        Rc::new(Node::VariableDeclaration {
            declarations: [Some(Rc::new(Node::VariableDeclarator {
                id: Some(Rc::new(Node::Identifier("result".to_string()))),
                init: Some(Rc::new(Node::AdditiveExpression {
                    operator: '+',
                    left: Some(Rc::new(Node::CallExpression {
                        callee: Some(Rc::new(Node::Identifier(
                            "foo".to_string(),
                        ))),
                        arguments: Vec::new(),
                    })),
                    right: Some(Rc::new(Node::NumericLiteral(555))),
                })),
            }))]
            .to_vec(),
        }),
    ]
    .to_vec();

    expected.set_body(body);
    assert_eq!(expected, parser.parse_ast());
}

// 関数呼び出し(引数あり)のテスト
#[test]
fn test_define_function_and_call_function_with_args() {
    let input = r#"
function foo(hoge, fuga) {
return 42;
}
foo(100, 400)"#
        .to_string();
    let mut parser = create_parser(input);
    let mut expected = Program::new();
    let body = [
        Rc::new(Node::FunctionDeclaration {
            id: Some(Rc::new(Node::Identifier("foo".to_string()))),
            params: [
                Some(Rc::new(Node::Identifier("hoge".to_string()))),
                Some(Rc::new(Node::Identifier("fuga".to_string()))),
            ]
            .to_vec(),
            body: Some(Rc::new(Node::BlockStatement {
                body: [Some(Rc::new(Node::ReturnStatement {
                    argument: Some(Rc::new(Node::NumericLiteral(42))),
                }))]
                .to_vec(),
            })),
        }),
        Rc::new(Node::ExpressionStatement(Some(Rc::new(
            Node::CallExpression {
                callee: Some(Rc::new(Node::Identifier("foo".to_string()))),
                arguments: [
                    Some(Rc::new(Node::NumericLiteral(100))),
                    Some(Rc::new(Node::NumericLiteral(400))),
                ]
                .to_vec(),
            },
        )))),
    ]
    .to_vec();

    expected.set_body(body);
    assert_eq!(expected, parser.parse_ast());
}
