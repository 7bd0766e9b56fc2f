use saba_core::css_parser::CssParser;
use saba_core::css_token::CssTokenizer;
use saba_core::cssom::{Declaration, StyleSheet};
use saba_core::dom::{Element, NodeKind};
use saba_core::html_parser::HtmlParser;
use saba_core::html_token::HtmlTokenizer;
use saba_core::layout::{
    find_index_for_line_break, normalize_text, split_text, DisplayItem, LayoutObject,
    LayoutObjectKind, LayoutPoint, LayoutSize, CHAR_HEIGHT_WITH_PADDING, CHAR_WIDTH,
    CONTENT_AREA_WIDTH,
};
use saba_core::layout_view::LayoutView;
use saba_core::page::{Browser, Page};
use saba_core::style::{Color, ComputedStyle, DisplayType, FontSize, TextDecoration};
use saba_core::window::{get_style_content, Window};

fn build(html: &str) -> (Window, StyleSheet) {
    let t = HtmlTokenizer::new(html.to_string());
    let window = HtmlParser::new(t).construct_tree();
    let style = get_style_content(&window);
    let cssom = CssParser::new(CssTokenizer::new(style)).parse_stylesheet();
    (window, cssom)
}

fn create_layout_view(html: &str) -> LayoutView {
    let (window, cssom) = build(html);
    LayoutView::new(&window, &cssom)
}

fn chars(s: &str) -> Vec<char> {
    s.chars().collect()
}

#[test]
fn layout_view_test_empty() {
    let layout_view = create_layout_view("");
    assert!(layout_view.root().is_none());
    assert!(layout_view.paint().is_empty());
}

#[test]
fn layout_view_test_body() {
    let layout_view = create_layout_view("<html><head></head><body></body></html>");
    let root = layout_view.root();
    assert!(root.is_some());
    let root = layout_view.object(root.expect("root should exist"));
    assert_eq!(LayoutObjectKind::Block, root.kind());
    assert_eq!(NodeKind::Element(Element::new("body", Vec::new())), root.node_kind());
    assert_eq!(CONTENT_AREA_WIDTH, root.size().width());
}

#[test]
fn layout_view_test_text() {
    let layout_view = create_layout_view("<html><head></head><body>text</body></html>");
    let root = layout_view.root();
    assert!(root.is_some());
    let body = layout_view.object(root.expect("root should exist"));
    assert_eq!(NodeKind::Element(Element::new("body", Vec::new())), body.node_kind());
    let text = body.first_child();
    assert!(text.is_some());
    let text = layout_view.object(text.expect("text should exist"));
    assert_eq!(LayoutObjectKind::Text, text.kind());
    assert_eq!(LayoutSize::new(4 * CHAR_WIDTH, CHAR_HEIGHT_WITH_PADDING), text.size());
    assert_eq!(CHAR_HEIGHT_WITH_PADDING, body.size().height());
}

#[test]
fn test_display_none() {
    let layout_view = create_layout_view(
        "<html><head><style>body{display:none;}</style></head><body>text</body></html>",
    );
    assert!(layout_view.root().is_none());
}

#[test]
fn test_hidden_class() {
    let html = "<html>\n<head>\n<style>\n  .hidden {\n    display: none;\n  }\n</style>\n</head>\n<body>\n  <a class=\"hidden\">link1</a>\n  <p></p>\n  <p class=\"hidden\"><a>link2</a></p>\n</body>\n</html>";
    let layout_view = create_layout_view(html);

    let root = layout_view.root();
    assert!(root.is_some());
    let body = layout_view.object(root.expect("root should exist"));
    assert_eq!(LayoutObjectKind::Block, body.kind());
    assert_eq!(NodeKind::Element(Element::new("body", Vec::new())), body.node_kind());

    let p = body.first_child();
    assert!(p.is_some());
    let p = layout_view.object(p.expect("p should exist"));
    assert_eq!(LayoutObjectKind::Block, p.kind());
    assert_eq!(NodeKind::Element(Element::new("p", Vec::new())), p.node_kind());

    assert!(p.first_child().is_none());
    assert!(p.next_sibling().is_none());
    assert_eq!(2, layout_view.len());
    let items = layout_view.paint();
    assert_eq!(2, items.len());
    for item in items {
        assert!(matches!(item, DisplayItem::Rect { .. }));
    }
}

#[test]
fn later_rule_wins() {
    let layout_view = create_layout_view(
        "<html><head><style>p{color:red;} p{color:blue;}</style></head><body><p>x</p></body></html>",
    );
    let body = layout_view.object(layout_view.root().unwrap());
    let p = layout_view.object(body.first_child().unwrap());
    assert_eq!(Some(Color { code: 0x0000ff }), p.style().color);
    let text = layout_view.object(p.first_child().unwrap());
    assert_eq!(Some(Color { code: 0x0000ff }), text.style().color);
}

#[test]
fn id_rule_before_type_rule_is_overridden() {
    let layout_view = create_layout_view(
        "<html><head><style>#t{color:#00ff00;} h1{color:red;}</style></head><body><h1 id=\"t\">x</h1></body></html>",
    );
    let body = layout_view.object(layout_view.root().unwrap());
    let h1 = layout_view.object(body.first_child().unwrap());
    assert_eq!(Some(Color { code: 0xff0000 }), h1.style().color);
    assert_eq!(Some(FontSize::XXLarge), h1.style().font_size);
}

#[test]
fn cascade_values_and_fallbacks() {
    let mut s = ComputedStyle::new();
    let mut d = Declaration::new();
    d.set_property("color".to_string());
    d.set_value(saba_core::css_token::CssToken::HashToken("#1a2B3c".to_string()));
    s.apply(&d);
    assert_eq!(Some(Color { code: 0x1a2b3c }), s.color);
    d.set_value(saba_core::css_token::CssToken::Ident("nosuchcolor".to_string()));
    s.apply(&d);
    assert_eq!(Some(Color::black()), s.color);
    let mut bg = Declaration::new();
    bg.set_property("background-color".to_string());
    bg.set_value(saba_core::css_token::CssToken::HashToken("#12".to_string()));
    s.apply(&bg);
    assert_eq!(Some(Color::white()), s.background_color);
    let mut disp = Declaration::new();
    disp.set_property("display".to_string());
    disp.set_value(saba_core::css_token::CssToken::Ident("flex".to_string()));
    s.apply(&disp);
    assert_eq!(Some(DisplayType::DisplayNone), s.display);
    assert_eq!(Some(Color { code: 0xffa500 }), Color::from_name("orange"));
    assert_eq!(None, Color::from_code("#12345g"));
}

#[test]
fn defaults_and_inheritance() {
    let (window, cssom) = build(
        "<html><head><style>body{color:red;}</style></head><body><a>x</a><h2>y</h2></body></html>",
    );
    let view = LayoutView::new(&window, &cssom);
    let body = view.object(view.root().unwrap());
    assert_eq!(Some(DisplayType::Block), body.style().display);
    let a = view.object(body.first_child().unwrap());
    assert_eq!(LayoutObjectKind::Inline, a.kind());
    assert_eq!(Some(TextDecoration::Underline), a.style().text_decoration);
    assert_eq!(Some(Color { code: 0xff0000 }), a.style().color);
    let h2 = view.object(a.next_sibling().unwrap());
    assert_eq!(Some(FontSize::XLarge), h2.style().font_size);
    assert_eq!(Some(Color { code: 0xff0000 }), h2.style().color);
    assert_eq!(Some(Color::white()), h2.style().background_color);
}

#[test]
fn block_sizes_and_positions() {
    let view = create_layout_view(
        "<html><head></head><body><p>aa</p><a>b</a><a>cc</a><p>d</p></body></html>",
    );
    let body = view.object(view.root().unwrap());
    let p1 = view.object(body.first_child().unwrap());
    let a1 = view.object(p1.next_sibling().unwrap());
    let a2 = view.object(a1.next_sibling().unwrap());
    let p2 = view.object(a2.next_sibling().unwrap());
    assert_eq!(CONTENT_AREA_WIDTH, p1.size().width());
    assert_eq!(CONTENT_AREA_WIDTH, p2.size().width());
    assert_eq!(LayoutSize::new(CHAR_WIDTH, CHAR_HEIGHT_WITH_PADDING), a1.size());
    assert_eq!(LayoutSize::new(2 * CHAR_WIDTH, CHAR_HEIGHT_WITH_PADDING), a2.size());
    // p1, then the run a1 a2 (one line: a2 is inline after inline), then p2.
    assert_eq!(3 * CHAR_HEIGHT_WITH_PADDING, body.size().height());
    assert_eq!(LayoutPoint::new(0, 0), p1.point());
    assert_eq!(LayoutPoint::new(0, CHAR_HEIGHT_WITH_PADDING), a1.point());
    assert_eq!(LayoutPoint::new(CHAR_WIDTH, CHAR_HEIGHT_WITH_PADDING), a2.point());
    assert_eq!(LayoutPoint::new(0, 2 * CHAR_HEIGHT_WITH_PADDING), p2.point());
}

#[test]
fn compute_size_of_block_and_inline() {
    let mut o = LayoutObject::new(0, NodeKind::Element(Element::new("p", Vec::new())), None);
    let mut s = ComputedStyle::new();
    s.defaulting(&o.node_kind, None);
    o.style = s;
    let children = vec![
        (LayoutObjectKind::Inline, LayoutSize::new(10, 20)),
        (LayoutObjectKind::Inline, LayoutSize::new(5, 20)),
        (LayoutObjectKind::Block, LayoutSize::new(590, 40)),
        (LayoutObjectKind::Text, LayoutSize::new(8, 20)),
    ];
    o.compute_size(LayoutSize::new(300, 0), &children);
    assert_eq!(LayoutSize::new(300, 20 + 40 + 20), o.size());
    o.kind = LayoutObjectKind::Inline;
    o.compute_size(LayoutSize::new(300, 0), &children);
    assert_eq!(LayoutSize::new(613, 100), o.size());
}

#[test]
fn long_text_wraps() {
    let word = "abcdefghij";
    let mut text = String::new();
    for i in 0..10 {
        if i > 0 {
            text.push(' ');
        }
        text.push_str(word);
    }
    let html = format!("<html><head></head><body><p>{}</p></body></html>", text);
    let view = create_layout_view(&html);
    let body = view.object(view.root().unwrap());
    let p = view.object(body.first_child().unwrap());
    let t = view.object(p.first_child().unwrap());
    // 109 characters of 8 pixels: 872 > 590, two lines.
    assert_eq!(LayoutSize::new(CONTENT_AREA_WIDTH, 2 * CHAR_HEIGHT_WITH_PADDING), t.size());
    let items = view.paint();
    let texts: Vec<(String, i64)> = items
        .iter()
        .filter_map(|d| match d {
            DisplayItem::Text { text, layout_point, .. } => Some((text.clone(), layout_point.y())),
            _ => None,
        })
        .collect();
    assert_eq!(2, texts.len());
    assert_eq!(0, texts[0].1);
    assert_eq!(CHAR_HEIGHT_WITH_PADDING, texts[1].1);
    assert!(texts[0].0.chars().count() as i64 * CHAR_WIDTH <= CONTENT_AREA_WIDTH);
    assert!(texts[0].0.ends_with(word));
    assert_eq!(text, format!("{} {}", texts[0].0, texts[1].0));
}

#[test]
fn split_text_breaks_at_spaces() {
    let lines = split_text(chars("aaaa bbbb cccc"), 100);
    assert_eq!(vec![chars("aaaa"), chars("bbbb"), chars("cccc")], lines);
    let lines = split_text(chars("abcdefgh"), 100);
    assert_eq!(vec![chars("abcde"), chars("fgh")], lines);
    assert_eq!(vec![chars("short")], split_text(chars("short"), CHAR_WIDTH));
    assert_eq!(3, find_index_for_line_break(&chars("abc def"), 5));
    assert_eq!(5, find_index_for_line_break(&chars("abcdefg"), 5));
    assert_eq!(chars("a b c"), normalize_text(&chars("\n  a  b\n c  ")));
}

#[test]
fn page_renders_and_dumps() {
    let mut page = Page::new();
    let dump = page.receive_response(
        "<html><head></head><body><h1 id=\"title\">H1 title</h1><p>x</p></body></html>".to_string(),
    );
    assert_eq!(
        "\n#document\n  <html>\n    <head>\n    <body>\n      <h1>\n        \"H1 title\"\n      <p>\n        \"x\"\n",
        dump
    );
    let items = page.display_items().clone();
    assert_eq!(5, items.len());
    assert!(matches!(items[0], DisplayItem::Rect { .. }));
    page.clear_display_items();
    assert!(page.display_items().is_empty());
    let mut browser = Browser::new();
    browser.load("<p>hi</p>".to_string());
    assert_eq!(3, browser.current_page().display_items().len());
}

#[test]
fn relayout_gives_the_same_styles_and_boxes() {
    let html = "<html><head><style>.x{color:#336699;} p{display:block;}</style></head><body><p class=\"x\">one two three</p><a>four</a><h2>five</h2></body></html>";
    let a = create_layout_view(html);
    let b = create_layout_view(html);
    assert_eq!(a.len(), b.len());
    for i in 0..a.len() {
        let (x, y) = (a.object(i), b.object(i));
        assert_eq!(x.kind(), y.kind());
        assert_eq!(x.style(), y.style());
        assert_eq!(x.point(), y.point());
        assert_eq!(x.size(), y.size());
        assert_eq!(x.first_child(), y.first_child());
        assert_eq!(x.next_sibling(), y.next_sibling());
    }
    assert_eq!(a.paint(), b.paint());
}

#[test]
fn text_height_counts_word_boundary_lines() {
    // 147 characters without a space: 73 a line at medium size, so three lines.
    let word: String = std::iter::repeat('x').take(147).collect();
    let html = format!("<html><head></head><body><p>{}</p></body></html>", word);
    let view = create_layout_view(&html);
    let body = view.object(view.root().unwrap());
    let p = view.object(body.first_child().unwrap());
    let t = view.object(p.first_child().unwrap());
    assert_eq!(LayoutSize::new(CONTENT_AREA_WIDTH, 3 * CHAR_HEIGHT_WITH_PADDING), t.size());
    let lines = view
        .paint()
        .iter()
        .filter(|d| matches!(d, DisplayItem::Text { .. }))
        .count();
    assert_eq!(3, lines);
}
