//! A page: the document, style sheet, layout and display items of one
//! navigation, and the browser that holds the pages.
use vstd::prelude::*;
use crate::css_parser::CssParser;
use crate::css_token::{tokens_match, CssToken, CssTokenizer};
use crate::css_parser::{rules_from, rules_view};
use crate::html_parser::html_tree;
use crate::layout::item_views;
use crate::layout_view::{laid_out_from, tree_items};
use crate::window::{style_content, tree_view};
use crate::cssom::StyleSheet;
use crate::dom::{element_name, Node, NodeKind};
use crate::html_parser::HtmlParser;
use crate::html_token::HtmlTokenizer;
use crate::layout::DisplayItem;
use crate::layout_view::LayoutView;
use crate::text::{chars_of, string_of};
use crate::window::{ahead, arena_measure, links_wf, Window};

verus! {

fn push_str(out: &mut Vec<char>, s: &str)
    ensures
        final(out)@ == old(out)@ + s@,
{
    let v = chars_of(s);
    let mut i: usize = 0;
    while i < v.len()
        invariant
            i <= v@.len(),
            v@ == s@,
            out@ == old(out)@ + v@.subrange(0, i as int),
        decreases v@.len() - i,
    {
        out.push(v[i]);
        i = i + 1;
    }
    assert(v@.subrange(0, i as int) == v@);
}

/// `d` levels of indentation, two spaces each.
pub open spec fn indent(d: nat) -> Seq<char> {
    Seq::new(2 * d, |i: int| ' ')
}

/// How a node shows in the dump.
pub open spec fn node_line(k: NodeKind) -> Seq<char> {
    match k {
        NodeKind::Document => "#document"@,
        NodeKind::Element(e) => seq!['<'] + element_name(e.kind) + seq!['>'],
        NodeKind::Text(t) => seq!['"'] + t@ + seq!['"'],
    }
}

/// The dump of `node`, its subtree and the siblings after it, at depth
/// `depth`: one line per node, indented by its depth.
pub open spec fn dump_from(nodes: Seq<Node>, node: Option<usize>, depth: usize) -> Seq<char>
    decreases arena_measure(nodes.len(), node),
{
    match node {
        None => Seq::empty(),
        Some(n) => if n >= nodes.len() {
            Seq::empty()
        } else {
            let child_depth: usize = if depth < usize::MAX { (depth + 1) as usize } else { depth };
            indent(depth as nat) + node_line(nodes[n as int].kind) + seq!['\n'] + dump_from(
                nodes,
                ahead(n, nodes[n as int].first_child),
                child_depth,
            ) + dump_from(nodes, ahead(n, nodes[n as int].next_sibling), depth)
        },
    }
}

/// The document as text: a newline, then the dump from the document node.
pub open spec fn dom_dump(nodes: Seq<Node>) -> Seq<char> {
    seq!['\n'] + dump_from(nodes, Some(0), 0)
}

#[verifier::spinoff_prover]
#[verifier::rlimit(60)]
fn dump_node(window: &Window, node: Option<usize>, depth: usize, out: &mut Vec<char>)
    requires
        window.wf(),
    ensures
        final(out)@ == old(out)@ + dump_from(window@, node, depth),
    decreases arena_measure(window@.len(), node),
{
    let n = match node {
        None => {
            assert(out@ + Seq::<char>::empty() =~= out@);
            return ;
        },
        Some(n) => n,
    };
    if n >= window.len() {
        assert(out@ + Seq::<char>::empty() =~= out@);
        return ;
    }
    proof {
        assert(links_wf(window@, n as int));
    }
    let ghost start = out@;
    let mut d: usize = 0;
    while d < depth
        invariant
            d <= depth,
            out@ == start + indent(d as nat),
        decreases depth - d,
    {
        out.push(' ');
        out.push(' ');
        assert(start + indent((d + 1) as nat) =~= start + indent(d as nat) + seq![' ', ' ']);
        d = d + 1;
    }
    let ghost s0 = out@;
    match &window.node(n).kind {
        NodeKind::Document => {
            push_str(out, "#document");
        },
        NodeKind::Element(e) => {
            out.push('<');
            push_str(out, e.kind.name());
            out.push('>');
            assert(out@ =~= s0 + (seq!['<'] + element_name(e.kind) + seq!['>']));
        },
        NodeKind::Text(t) => {
            out.push('"');
            push_str(out, t.as_str());
            out.push('"');
            assert(out@ =~= s0 + (seq!['"'] + t@ + seq!['"']));
        },
    }
    assert(out@ == s0 + node_line(window@[n as int].kind));
    out.push('\n');
    let ghost s1 = out@;
    let child_depth = if depth < usize::MAX { depth + 1 } else { depth };
    dump_node(window, window.node(n).first_child, child_depth, out);
    let ghost s2 = out@;
    dump_node(window, window.node(n).next_sibling, depth, out);
    proof {
        let fc = dump_from(window@, window@[n as int].first_child, child_depth);
        let ns = dump_from(window@, window@[n as int].next_sibling, depth);
        assert(out@ =~= start + (indent(depth as nat) + node_line(window@[n as int].kind) + seq!['\n']
            + fc + ns));
    }
}

/// The tree as text, one node per line, indented two spaces per level.
pub fn convert_dom_to_string(window: &Window) -> (r: String)
    requires
        window.wf(),
    ensures
        r@ == dom_dump(window@),
{
    let mut out: Vec<char> = Vec::new();
    out.push('\n');
    dump_node(window, Some(window.document()), 0, &mut out);
    assert(out@ =~= dom_dump(window@));
    string_of(out.as_slice())
}

/// Whether page `p` shows the HTML text `body` and `dump` is its dump: the
/// document is the tree built from `body`; the sheet is parsed from the
/// tokens of its first `<style>` element's text; the layout is the one
/// `LayoutView::new` gives; the display items are that layout's paint.
pub open spec fn page_shows(p: Page, body: Seq<char>, dump: Seq<char>) -> bool {
    &&& p.spec_frame() is Some
    &&& p.spec_style() is Some
    &&& p.spec_view() is Some
    &&& p.wf()
    &&& tree_view(p.spec_frame()->Some_0@) == html_tree(body)
    &&& dump == dom_dump(p.spec_frame()->Some_0@)
    &&& exists|toks: Seq<CssToken>|
        tokens_match(style_content(p.spec_frame()->Some_0@), 0, toks) && #[trigger] rules_from(toks, 0)
            == rules_view(p.spec_style()->Some_0.rules@)
    &&& laid_out_from(p.spec_view()->Some_0, p.spec_frame()->Some_0@, p.spec_style()->Some_0)
    &&& item_views(p.items()) == tree_items(
        p.spec_view()->Some_0.objects(),
        p.spec_view()->Some_0.spec_root(),
    )
}

#[derive(Debug)]
pub struct Page {
    frame: Option<Window>,
    style: Option<StyleSheet>,
    layout_view: Option<LayoutView>,
    display_items: Vec<DisplayItem>,
}

impl Page {
    pub closed spec fn wf(&self) -> bool {
        &&& (self.frame matches Some(w) ==> w.wf())
        &&& (self.layout_view matches Some(v) ==> v.wf())
    }

    pub closed spec fn spec_frame(&self) -> Option<Window> {
        self.frame
    }

    pub closed spec fn spec_style(&self) -> Option<StyleSheet> {
        self.style
    }

    pub closed spec fn spec_view(&self) -> Option<LayoutView> {
        self.layout_view
    }

    pub closed spec fn items(&self) -> Seq<DisplayItem> {
        self.display_items@
    }

    pub fn new() -> (r: Self)
        ensures
            r.wf(),
            r.items().len() == 0,
    {
        Page { frame: None, style: None, layout_view: None, display_items: Vec::new() }
    }

    /// Builds the document from `html` and the style sheet from its first
    /// `<style>` element.
    fn create_frame(&mut self, html: String)
        requires
            old(self).wf(),
        ensures
            final(self).wf(),
            final(self).frame is Some,
            final(self).style is Some,
            tree_view(final(self).frame->Some_0@) == html_tree(html@),
            exists|toks: Seq<CssToken>|
                tokens_match(style_content(final(self).frame->Some_0@), 0, toks) && #[trigger] rules_from(toks, 0)
                    == rules_view(final(self).style->Some_0.rules@),
            final(self).display_items == old(self).display_items,
    {
        let parser = HtmlParser::new(HtmlTokenizer::new(html));
        let frame = parser.construct_tree();
        let style = crate::window::get_style_content(&frame);
        let mut css = CssParser::new(CssTokenizer::new(style));
        let ghost toks = css.tokens();
        let cssom = css.parse_stylesheet();
        assert(rules_from(toks, 0) == rules_view(cssom.rules@));
        self.frame = Some(frame);
        self.style = Some(cssom);
    }

    fn set_layout_view(&mut self)
        requires
            old(self).wf(),
            old(self).frame is Some,
            old(self).style is Some,
        ensures
            final(self).wf(),
            final(self).frame == old(self).frame,
            final(self).style == old(self).style,
            final(self).layout_view is Some,
            laid_out_from(final(self).layout_view->Some_0, final(self).frame->Some_0@, final(self).style->Some_0),
            final(self).display_items == old(self).display_items,
    {
        let view = match (&self.frame, &self.style) {
            (Some(frame), Some(style)) => LayoutView::new(frame, style),
            _ => return ,
        };
        self.layout_view = Some(view);
    }

    fn paint_tree(&mut self)
        requires
            old(self).wf(),
            old(self).layout_view is Some,
        ensures
            final(self).wf(),
            final(self).frame == old(self).frame,
            final(self).style == old(self).style,
            final(self).layout_view == old(self).layout_view,
            item_views(final(self).display_items@) == tree_items(
                final(self).layout_view->Some_0.objects(),
                final(self).layout_view->Some_0.spec_root(),
            ),
    {
        if let Some(view) = &self.layout_view {
            self.display_items = view.paint();
        }
    }

    /// Renders a response body: document, style, layout and display items.
    /// Returns the document tree as text.
    pub fn receive_response(&mut self, body: String) -> (r: String)
        requires
            old(self).wf(),
        ensures
            final(self).wf(),
            page_shows(*final(self), body@, r@),
    {
        let ghost text = body@;
        self.create_frame(body);
        self.set_layout_view();
        self.paint_tree();
        let r = match &self.frame {
            Some(frame) => convert_dom_to_string(frame),
            None => String::new(),
        };
        r
    }

    /// The document of the last navigation.
    pub fn frame(&self) -> (r: Option<&Window>)
        requires
            self.wf(),
        ensures
            r matches Some(w) ==> w.wf(),
    {
        self.frame.as_ref()
    }

    /// The layout of the last navigation.
    pub fn layout_view(&self) -> (r: Option<&LayoutView>)
        requires
            self.wf(),
        ensures
            r matches Some(v) ==> v.wf(),
    {
        self.layout_view.as_ref()
    }

    pub fn display_items(&self) -> (r: &Vec<DisplayItem>)
        ensures
            r@ == self.items(),
    {
        &self.display_items
    }

    pub fn clear_display_items(&mut self)
        requires
            old(self).wf(),
        ensures
            final(self).wf(),
            final(self).items().len() == 0,
    {
        self.display_items = Vec::new();
    }
}

/// The pages of a browser and which one is shown.
#[derive(Debug)]
pub struct Browser {
    active_page_index: usize,
    pages: Vec<Page>,
}

impl Browser {
    pub closed spec fn wf(&self) -> bool {
        &&& self.active_page_index < self.pages@.len()
        &&& forall|i: int| 0 <= i < self.pages@.len() ==> (#[trigger] self.pages@[i]).wf()
    }

    /// A browser with one empty page.
    pub fn new() -> (r: Self)
        ensures
            r.wf(),
    {
        let mut pages: Vec<Page> = Vec::new();
        pages.push(Page::new());
        Browser { active_page_index: 0, pages }
    }

    /// The page shown.
    pub closed spec fn spec_current(&self) -> Page {
        self.pages@[self.active_page_index as int]
    }

    pub fn current_page(&self) -> (r: &Page)
        requires
            self.wf(),
        ensures
            r.wf(),
            *r == self.spec_current(),
    {
        &self.pages[self.active_page_index]
    }

    /// Renders `body` in the current page; returns the document as text.
    pub fn load(&mut self, body: String) -> (r: String)
        requires
            old(self).wf(),
        ensures
            final(self).wf(),
            page_shows(final(self).spec_current(), body@, r@),
    {
        let i = self.active_page_index;
        let mut page = Page::new();
        let r = page.receive_response(body);
        self.pages.set(i, page);
        assert forall|j: int| 0 <= j < self.pages@.len() implies (#[trigger] self.pages@[j]).wf() by {
            if j != i {
                assert(old(self).pages@[j].wf());
            }
        }
        r
    }
}

} // verus!
