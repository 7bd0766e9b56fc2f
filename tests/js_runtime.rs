use saba_core::dom::{Element, Node as DomNode, NodeKind};
use saba_core::html_parser::HtmlParser;
use saba_core::html_token::HtmlTokenizer;
use saba_core::js_ast::{JsParser, Program};
use saba_core::js_runtime::{number_to_string, JsRuntime, RuntimeValue};
use saba_core::js_token::JsLexer;
use saba_core::window::Window;

fn create_runtime(input: String) -> (Program, JsRuntime) {
    let lexer = JsLexer::new(input);
    let mut parser = JsParser::new(lexer);
    let ast = parser.parse_ast();
    let runtime = JsRuntime::new(Window::new());
    (ast, runtime)
}

#[test]
fn runtime_test_num() {
    let (ast, mut runtime) = create_runtime("42".to_string());
    let expected = [Some(RuntimeValue::Number(42))];

    for (i, node) in ast.body().iter().enumerate() {
        let env = runtime.global_env();
        let result = runtime.eval(&Some(node.clone()), env);
        assert_eq!(expected[i], result);
    }
}

#[test]
fn test_add_num() {
    let (ast, mut runtime) = create_runtime("4321 + 12333".to_string());
    let expected = [Some(RuntimeValue::Number(16654))];

    for (i, node) in ast.body().iter().enumerate() {
        let env = runtime.global_env();
        let result = runtime.eval(&Some(node.clone()), env);
        assert_eq!(expected[i], result);
    }
}

#[test]
fn test_sub_nums() {
    let (ast, mut runtime) = create_runtime("11-9".to_string());
    let expected = [Some(RuntimeValue::Number(2))];
    for (i, node) in ast.body().iter().enumerate() {
        let env = runtime.global_env();
        let result = runtime.eval(&Some(node.clone()), env);
        assert_eq!(expected[i], result);
    }
}

#[test]
fn runtime_test_assign_variable() {
    let (ast, mut runtime) = create_runtime("var foo = 42;".to_string());
    let expected = [None];

    for (i, node) in ast.body().iter().enumerate() {
        let env = runtime.global_env();
        let result = runtime.eval(&Some(node.clone()), env);
        assert_eq!(expected[i], result);
    }

    // env内のテスト
    let env_expected =
        [("foo".to_string(), Some(RuntimeValue::Number(42)))].to_vec();

    assert_eq!(runtime.environment(runtime.global_env()).num_variables(), env_expected.len());
    for (name, val) in env_expected {
        assert_eq!(runtime.environment(runtime.global_env()).get_variable(name), val);
    }
}

#[test]
fn runtime_test_add_variable_and_num() {
    let (ast, mut runtime) = create_runtime("var foo=42;foo+1;".to_string());
    let expected = [None, Some(RuntimeValue::Number(43))];

    for (i, node) in ast.body().iter().enumerate() {
        let env = runtime.global_env();
        let result = runtime.eval(&Some(node.clone()), env);
        assert_eq!(expected[i], result);
    }

    // env内のテスト
    let env_expected =
        [("foo".to_string(), Some(RuntimeValue::Number(42)))].to_vec();

    assert_eq!(runtime.environment(runtime.global_env()).num_variables(), env_expected.len());
    for (name, val) in env_expected {
        assert_eq!(runtime.environment(runtime.global_env()).get_variable(name), val);
    }
}

#[test]
fn test_reassign_variable() {
    let (ast, mut runtime) =
        create_runtime("var foo=42; foo=150;foo".to_string());
    let expected = [None, None, Some(RuntimeValue::Number(150))];

    for (i, node) in ast.body().iter().enumerate() {
        let env = runtime.global_env();
        let result = runtime.eval(&Some(node.clone()), env);
        assert_eq!(expected[i], result);
    }

    // env内のテスト
    let env_expected =
        [("foo".to_string(), Some(RuntimeValue::Number(150)))].to_vec();

    assert_eq!(runtime.environment(runtime.global_env()).num_variables(), env_expected.len());
    for (name, val) in env_expected {
        assert_eq!(runtime.environment(runtime.global_env()).get_variable(name), val);
    }
}

#[test]
fn test_reaasing_and_add_string() {
    let (ast, mut runtime) = create_runtime(
        r#"
var foo = 150;
foo = 523;
var a = 100;
a = 100 + "aaa";
foo = "abc" + 532;
var b = 150 - "aaa";
"#
        .to_string(),
    );

    let expected = [None, None, None, None, None, None];
    for (i, node) in ast.body().iter().enumerate() {
        let env = runtime.global_env();
        let result = runtime.eval(&Some(node.clone()), env);
        assert_eq!(expected[i], result);
    }

    // env内のテスト
    let env_expected = [
        (
            "foo".to_string(),
            Some(RuntimeValue::StringLiteral("abc532".to_string())),
        ),
        (
            "a".to_string(),
            Some(RuntimeValue::StringLiteral("100aaa".to_string())),
        ),
        ("b".to_string(), Some(RuntimeValue::Number(u64::MIN))),
    ]
    .to_vec();

    assert_eq!(runtime.environment(runtime.global_env()).num_variables(), env_expected.len());
    for (name, val) in env_expected {
        assert_eq!(runtime.environment(runtime.global_env()).get_variable(name), val);
    }
}

#[test]
fn test_add_function_and_nums() {
    let (ast, mut runtime) = create_runtime(
        r#"
function foo() {
return 42;
}
foo() + 1"#
            .to_string(),
    );

    let expected = [None, Some(RuntimeValue::Number(43))];
    for (i, node) in ast.body().iter().enumerate() {
        let env = runtime.global_env();
        let result = runtime.eval(&Some(node.clone()), env);
        assert_eq!(expected[i], result);
    }
}

#[test]
fn test_define_function_with_args() {
    let (ast, mut runtime) = create_runtime(
        r#"
function foo(a, b) {
return a+b;
}
foo(1, 2) + 3"#
            .to_string(),
    );

    let expected = [None, Some(RuntimeValue::Number(6))];
    for (i, node) in ast.body().iter().enumerate() {
        let env = runtime.global_env();
        let result = runtime.eval(&Some(node.clone()), env);
        assert_eq!(expected[i], result);
    }
}

#[test]
fn test_local_variable() {
    let (ast, mut runtime) = create_runtime(
        r#"
var a = 52;
function foo() {
var a=1;
return a;
}
foo() + a"#
            .to_string(),
    );

    let expected = [None, None, Some(RuntimeValue::Number(53))];
    for (i, node) in ast.body().iter().enumerate() {
        let env = runtime.global_env();
        let result = runtime.eval(&Some(node.clone()), env);
        assert_eq!(expected[i], result);
    }

    // env内のテスト
    let env_expected =
        [("a".to_string(), Some(RuntimeValue::Number(52)))].to_vec();
    assert_eq!(runtime.environment(runtime.global_env()).num_variables(), env_expected.len());
    for (name, val) in env_expected {
        assert_eq!(runtime.environment(runtime.global_env()).get_variable(name), val);
    }
}

#[test]
fn text_content_updates_the_document() {
    let html = "<html><head></head><body><p id=\"target\">old</p></body></html>".to_string();
    let window = HtmlParser::new(HtmlTokenizer::new(html)).construct_tree();
    let js = "var target = document.getElementById(\"target\");\ntarget.textContent = \"new\";".to_string();
    let ast = JsParser::new(JsLexer::new(js)).parse_ast();
    let mut runtime = JsRuntime::new(window);
    runtime.execute(&ast);
    let dom = runtime.dom();
    let p = saba_core::window::get_element_by_id(dom, Some(dom.document()), "target").unwrap();
    assert_eq!(DomNode::new(NodeKind::Element(Element::new("p", Vec::new()))), *dom.node(p));
    let text = dom.node(p).first_child().unwrap();
    match &dom.node(text).kind {
        NodeKind::Text(s) => assert_eq!("new", s),
        _ => panic!("expected text"),
    }
}

#[test]
fn values_add_and_subtract() {
    assert_eq!(
        RuntimeValue::Number(5),
        RuntimeValue::Number(2).add(RuntimeValue::Number(3))
    );
    assert_eq!(
        RuntimeValue::StringLiteral("a7".to_string()),
        RuntimeValue::StringLiteral("a".to_string()).add(RuntimeValue::Number(7))
    );
    assert_eq!(
        RuntimeValue::Number(0),
        RuntimeValue::StringLiteral("a".to_string()).sub(RuntimeValue::Number(7))
    );
    assert_eq!(
        RuntimeValue::Number(u64::MAX),
        RuntimeValue::Number(0).sub(RuntimeValue::Number(1))
    );
    assert_eq!("0", number_to_string(0));
    assert_eq!("18446744073709551615", number_to_string(u64::MAX));
}

#[test]
fn calling_an_unknown_function_gives_nothing() {
    let (ast, mut runtime) = create_runtime("bar(1)".to_string());
    let env = runtime.global_env();
    let node = ast.body()[0].clone();
    assert_eq!(None, runtime.eval(&Some(node), env));
}

#[test]
fn runaway_recursion_stops() {
    let (ast, mut runtime) = create_runtime("function f() { return f(); }\nf()".to_string());
    runtime.execute(&ast);
    let env = runtime.global_env();
    let node = ast.body()[1].clone();
    assert_eq!(None, runtime.eval(&Some(node), env));
}
