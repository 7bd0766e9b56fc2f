use saba_core::dom::{Attribute, Element, Node, NodeKind};
use saba_core::html_parser::HtmlParser;
use saba_core::html_token::{tokenize, HtmlToken, HtmlTokenizer};
use saba_core::window::Window;

fn parse(html: &str) -> Window {
    HtmlParser::new(HtmlTokenizer::new(html.to_string())).construct_tree()
}

fn element(name: &str) -> Node {
    Node::new(NodeKind::Element(Element::new(name, Vec::new())))
}

fn text_of(window: &Window, id: usize) -> String {
    match &window.node(id).kind {
        NodeKind::Text(s) => s.clone(),
        _ => panic!("not a text node"),
    }
}

#[test]
fn parser_test_empty() {
    let window = parse("");
    let expected = Node::new(NodeKind::Document);
    assert_eq!(expected, *window.node(window.document()));
    assert!(window.node(window.document()).first_child().is_none());
    assert_eq!(1, window.len());
}

#[test]
fn parser_test_body() {
    let window = parse("<html><head></head><body></body></html>");
    let document = window.document();
    assert_eq!(Node::new(NodeKind::Document), *window.node(document));

    let html = window
        .node(document)
        .first_child()
        .expect("faled to get a first child tof document");
    assert_eq!(element("html"), *window.node(html));
    assert!(window.node(html).next_sibling().is_none());

    let head = window
        .node(html)
        .first_child()
        .expect("failed to get a first child of html");
    assert_eq!(element("head"), *window.node(head));

    let body = window
        .node(head)
        .next_sibling()
        .expect("failed to get a first child of html");
    assert_eq!(element("body"), *window.node(body));
}

#[test]
fn test_style() {
    let window = parse("<html><head><style>test</style></head><body></body></html>");
    let document = window.document();
    assert_eq!(Node::new(NodeKind::Document), *window.node(document));

    let html = window.node(document).first_child().unwrap();
    assert_eq!(element("html"), *window.node(html));

    let head = window
        .node(html)
        .first_child()
        .expect("failed to get a first child of html");
    assert_eq!(element("head"), *window.node(head));

    let style = window.node(head).first_child().unwrap();
    assert_eq!(element("style"), *window.node(style));

    let text = window.node(style).first_child().unwrap();
    assert_eq!(Node::new(NodeKind::Text("test".to_string())), *window.node(text));
    assert_eq!("test", text_of(&window, text));

    let body = window
        .node(head)
        .next_sibling()
        .expect("failed to get a next sibling of head");
    assert_eq!(element("body"), *window.node(body));
}

#[test]
fn parser_test_text() {
    let window = parse("<html><head></head><body>test</body></html>");
    let document = window.document();
    assert_eq!(Node::new(NodeKind::Document), *window.node(document));

    let html = window
        .node(document)
        .first_child()
        .expect("failed to get a first child of document");
    assert_eq!(element("html"), *window.node(html));

    let head = window
        .node(html)
        .first_child()
        .expect("failed to get a first child of html");
    assert_eq!(element("head"), *window.node(head));

    let body = window
        .node(head)
        .next_sibling()
        .expect("failed to get a next sibling of head");
    assert_eq!(element("body"), *window.node(body));

    let text = window
        .node(body)
        .first_child()
        .expect("failed to get a first_child of head");
    assert_eq!(Node::new(NodeKind::Text("test".to_string())), *window.node(text));
    assert_eq!("test", text_of(&window, text));
}

#[test]
fn test_multiple_nodes() {
    let window = parse("<html><head></head><body><p><a foo =bar>test/a></p></body></html>");
    let document = window.document();

    let html = window
        .node(document)
        .first_child()
        .expect("failed to get a first child of document");
    let head = window
        .node(html)
        .first_child()
        .expect("failed to get first child of document");
    let body = window
        .node(head)
        .next_sibling()
        .expect("faled to get a next_sibling of head");
    assert_eq!(element("body"), *window.node(body));

    let p = window
        .node(body)
        .first_child()
        .expect("failed to get a first child of body");
    assert_eq!(element("p"), *window.node(p));

    let mut attr = Attribute::new();
    attr.add_char('f', true);
    attr.add_char('o', true);
    attr.add_char('o', true);
    attr.add_char('b', false);
    attr.add_char('a', false);
    attr.add_char('r', false);
    let a = window
        .node(p)
        .first_child()
        .expect("failed to get first child of p");
    assert_eq!(
        Node::new(NodeKind::Element(Element::new("a", vec![attr.clone()]))),
        *window.node(a)
    );
    match &window.node(a).kind {
        NodeKind::Element(e) => assert_eq!(vec![attr], e.attributes),
        _ => panic!("a should be an element"),
    }

    let text = window
        .node(a)
        .first_child()
        .expect("failed to get a first child of a");
    assert_eq!(Node::new(NodeKind::Text("test".to_string())), *window.node(text));
    assert_eq!("test/a>", text_of(&window, text));
}

#[test]
fn test_style_with_newline() {
    let window = parse("\n<html>\n<head>\n<style>test</style>\n</head>\n<body>\n</body>\n</html>");
    let document = window.document();
    assert_eq!(Node::new(NodeKind::Document), *window.node(document));

    let html = window.node(document).first_child().unwrap();
    assert_eq!(element("html"), *window.node(html));

    let head = window
        .node(html)
        .first_child()
        .expect("failed to get a first child of html");
    assert_eq!(element("head"), *window.node(head));

    let style = window.node(head).first_child().unwrap();
    assert_eq!(element("style"), *window.node(style));

    let text = window.node(style).first_child().unwrap();
    assert_eq!(Node::new(NodeKind::Text("test".to_string())), *window.node(text));

    let body = window
        .node(head)
        .next_sibling()
        .expect("failed to get a next sibling of head");
    assert_eq!(element("body"), *window.node(body));
}

#[test]
fn implied_html_head_and_body() {
    let window = parse("<p>hello</p>");
    let html = window.node(window.document()).first_child().unwrap();
    assert_eq!(element("html"), *window.node(html));
    let head = window.node(html).first_child().unwrap();
    assert_eq!(element("head"), *window.node(head));
    let body = window.node(head).next_sibling().unwrap();
    assert_eq!(element("body"), *window.node(body));
    let p = window.node(body).first_child().unwrap();
    assert_eq!(element("p"), *window.node(p));
    let text = window.node(p).first_child().unwrap();
    assert_eq!("hello", text_of(&window, text));
}

#[test]
fn leading_text_before_any_tag_is_dropped() {
    let window = parse("hello");
    assert_eq!(1, window.len());
    assert!(window.node(window.document()).first_child().is_none());
}

#[test]
fn unmatched_end_tag_is_ignored() {
    let window = parse("<html><head></head><body></p>x</body></html>");
    let html = window.node(window.document()).first_child().unwrap();
    let head = window.node(html).first_child().unwrap();
    let body = window.node(head).next_sibling().unwrap();
    let text = window.node(body).first_child().unwrap();
    assert_eq!("x", text_of(&window, text));
}

#[test]
fn text_after_element_is_its_sibling() {
    let window = parse("<html><head></head><body><p>a</p>b</body></html>");
    let html = window.node(window.document()).first_child().unwrap();
    let head = window.node(html).first_child().unwrap();
    let body = window.node(head).next_sibling().unwrap();
    let p = window.node(body).first_child().unwrap();
    assert_eq!(element("p"), *window.node(p));
    let b = window.node(p).next_sibling().unwrap();
    assert_eq!("b", text_of(&window, b));
    assert_eq!(Some(body), window.node(b).parent());
    assert_eq!(Some(b), window.node(body).last_child());
}

#[test]
fn reparsing_gives_the_same_tree() {
    let html = "<html><head><style>p{color:red;}</style></head><body><p class=\"x\">a b</p><h1>t</h1></body></html>";
    let a = parse(html);
    let b = parse(html);
    assert_eq!(a.len(), b.len());
    for i in 0..a.len() {
        let (x, y) = (a.node(i), b.node(i));
        assert_eq!(x, y);
        assert_eq!(x.kind, y.kind);
        assert_eq!(x.first_child(), y.first_child());
        assert_eq!(x.next_sibling(), y.next_sibling());
        assert_eq!(x.parent(), y.parent());
    }
}

#[test]
fn tokenizer_ends_with_eof() {
    let tokens = tokenize("<p a='1' b=\"2\" c=3 d/>x<!doctype html></p>".to_string());
    assert_eq!(Some(&HtmlToken::Eof), tokens.last());
    assert_eq!(1, tokens.iter().filter(|t| **t == HtmlToken::Eof).count());
    match &tokens[0] {
        HtmlToken::StartTag { tag, self_closing, attributes } => {
            assert_eq!("p", tag);
            assert!(*self_closing);
            assert_eq!(4, attributes.len());
            assert_eq!("a", attributes[0].name);
            assert_eq!("1", attributes[0].value);
            assert_eq!("2", attributes[1].value);
            assert_eq!("3", attributes[2].value);
            assert_eq!("d", attributes[3].name);
        }
        t => panic!("unexpected {:?}", t),
    }
    assert_eq!(HtmlToken::Char('x'), tokens[1]);
    assert_eq!(HtmlToken::Char('<'), tokens[2]);
    assert_eq!(HtmlToken::EndTag { tag: "p".to_string() }, tokens[tokens.len() - 2]);
}

#[test]
fn tokenizer_on_empty_and_unfinished_input() {
    assert_eq!(vec![HtmlToken::Eof], tokenize(String::new()));
    assert_eq!(vec![HtmlToken::Char('a'), HtmlToken::Eof], tokenize("a<b c=".to_string()));
    let mut t = HtmlTokenizer::new(String::new());
    assert_eq!(HtmlToken::Eof, t.next());
    assert_eq!(HtmlToken::Eof, t.next());
}

#[test]
fn element_lookups() {
    let window = parse("<html><head><style>a{}</style></head><body><p id=\"x\">q</p><h1>r</h1></body></html>");
    let p = saba_core::window::get_element_by_id(&window, Some(window.document()), "x").unwrap();
    assert_eq!(element("p"), *window.node(p));
    assert!(saba_core::window::get_element_by_id(&window, Some(0), "y").is_none());
    let h1 = saba_core::window::get_target_element_node(
        &window,
        Some(0),
        saba_core::dom::ElementKind::H1,
    )
    .unwrap();
    assert_eq!(element("h1"), *window.node(h1));
    assert_eq!("a{}", saba_core::window::get_style_content(&window));
    assert_eq!("", saba_core::window::get_style_content(&parse("<p>x</p>")));
}

#[test]
fn stray_end_tag_in_body_is_dropped() {
    let window = parse("<html><head></head><body><p>a</p></h1><p>b</p></body></html>");
    let html = window.node(window.document()).first_child().unwrap();
    let head = window.node(html).first_child().unwrap();
    let body = window.node(head).next_sibling().unwrap();
    let p1 = window.node(body).first_child().unwrap();
    assert_eq!(element("p"), *window.node(p1));
    assert_eq!("a", text_of(&window, window.node(p1).first_child().unwrap()));
    let p2 = window.node(p1).next_sibling().unwrap();
    assert_eq!(element("p"), *window.node(p2));
    assert_eq!("b", text_of(&window, window.node(p2).first_child().unwrap()));
}

#[test]
fn end_tag_before_html_implies_html() {
    let window = parse("</p><p>x</p>");
    let html = window.node(window.document()).first_child().unwrap();
    assert_eq!(element("html"), *window.node(html));
    let head = window.node(html).first_child().unwrap();
    let body = window.node(head).next_sibling().unwrap();
    let p = window.node(body).first_child().unwrap();
    assert_eq!(element("p"), *window.node(p));
    assert_eq!("x", text_of(&window, window.node(p).first_child().unwrap()));
}
