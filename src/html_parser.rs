//! Tree construction: the insertion-mode state machine that turns HTML
//! tokens into a document tree.
use vstd::prelude::*;
use crate::dom::{attr_views, clone_attributes, element_kind_of, Attribute, Element, ElementKind, NodeKind};
use crate::html_token::{summary, summary_view, token_seq, TokenSummary, token_view, HtmlToken, HtmlTokenizer, TokenView};
use crate::text::{same_chars, string_of};
use crate::window::{
    append_view, kind_view, push_text_view, tree_view, tree_wf, view_element_kind, KindView,
    NodeView, Window,
};

verus! {

#[derive(Debug, Clone, Copy, PartialEq, Eq, Structural)]
pub enum InsertionMode {
    Initial,
    BeforeHtml,
    BeforeHead,
    InHead,
    AfterHead,
    InBody,
    Text,
    AfterBody,
    AfterAfterBody,
}

/// The order in which a token that is handed on without being consumed
/// moves through the modes: each such step goes to a lower rank.
pub open spec fn mode_rank(m: InsertionMode) -> nat {
    match m {
        InsertionMode::Initial => 8,
        InsertionMode::BeforeHtml => 7,
        InsertionMode::BeforeHead => 6,
        InsertionMode::Text => 5,
        InsertionMode::InHead => 4,
        InsertionMode::AfterHead => 3,
        InsertionMode::AfterBody => 2,
        InsertionMode::AfterAfterBody => 1,
        InsertionMode::InBody => 0,
    }
}

/// The state of tree construction: the tree, the stack of open elements,
/// the insertion mode and the mode to go back to after text.
pub struct ParserModel {
    pub nodes: Seq<NodeView>,
    pub stack: Seq<usize>,
    pub mode: InsertionMode,
    pub original: InsertionMode,
}

/// Whether some open element is of kind `kind`.
pub open spec fn stack_has(stack: Seq<usize>, v: Seq<NodeView>, kind: ElementKind) -> bool {
    exists|i: int| 0 <= i < stack.len() && view_element_kind(v[#[trigger] stack[i] as int]) == Some(kind)
}

/// The stack after popping up to and including the topmost element of
/// kind `kind`.
pub open spec fn pop_through(stack: Seq<usize>, v: Seq<NodeView>, kind: ElementKind) -> Seq<usize>
    decreases stack.len(),
{
    if stack.len() == 0 {
        stack
    } else if view_element_kind(v[stack.last() as int]) == Some(kind) {
        stack.drop_last()
    } else {
        pop_through(stack.drop_last(), v, kind)
    }
}

/// "Pop until": the stack is left as it is when no open element is of
/// kind `kind`.
pub open spec fn pop_until_model(s: ParserModel, kind: ElementKind) -> ParserModel {
    if stack_has(s.stack, s.nodes, kind) {
        ParserModel { stack: pop_through(s.stack, s.nodes, kind), ..s }
    } else {
        s
    }
}

/// Whether the current node is of kind `kind`.
pub open spec fn current_is(s: ParserModel, kind: ElementKind) -> bool {
    s.stack.len() > 0 && view_element_kind(s.nodes[s.stack.last() as int]) == Some(kind)
}

pub open spec fn pop_current_model(s: ParserModel, kind: ElementKind) -> ParserModel {
    if current_is(s, kind) {
        ParserModel { stack: s.stack.drop_last(), ..s }
    } else {
        s
    }
}

/// A character into the current node: onto its last child when that is a
/// text node, else (unless it is a space or newline) as a new text child.
pub open spec fn insert_char_model(s: ParserModel, c: char) -> ParserModel {
    if s.stack.len() == 0 {
        s
    } else {
        let cur = s.stack.last();
        let last = s.nodes[cur as int].last_child;
        if last is Some && s.nodes[last->Some_0 as int].kind is Text {
            ParserModel { nodes: push_text_view(s.nodes, last->Some_0, c), ..s }
        } else if c == '\n' || c == ' ' || s.nodes.len() >= usize::MAX {
            s
        } else {
            ParserModel { nodes: append_view(s.nodes, cur, KindView::Text(seq![c])), ..s }
        }
    }
}

/// A new element appended to the current node (the document when no
/// element is open) and opened.
pub open spec fn insert_element_model(s: ParserModel, kind: ElementKind, attrs: Seq<(Seq<char>, Seq<char>)>) -> ParserModel {
    if s.nodes.len() >= usize::MAX {
        s
    } else {
        let cur: usize = if s.stack.len() == 0 { 0 } else { s.stack.last() };
        ParserModel {
            nodes: append_view(s.nodes, cur, KindView::Element(kind, attrs)),
            stack: s.stack.push(s.nodes.len() as usize),
            ..s
        }
    }
}

pub open spec fn with_mode(s: ParserModel, m: InsertionMode) -> ParserModel {
    ParserModel { mode: m, ..s }
}

pub open spec fn is_space_char(c: char) -> bool {
    c == ' ' || c == '\n'
}

pub open spec fn is_phrase_kind(k: ElementKind) -> bool {
    k == ElementKind::P || k == ElementKind::H1 || k == ElementKind::H2 || k == ElementKind::A
}

/// What one token does in the current mode: the next state, and whether
/// the token is consumed (else it is handed to the next mode).
pub open spec fn step(s: ParserModel, t: TokenView) -> (ParserModel, bool) {
    match s.mode {
        InsertionMode::Initial => match t {
            TokenView::Char(_) => (s, true),
            _ => (with_mode(s, InsertionMode::BeforeHtml), false),
        },
        InsertionMode::BeforeHtml => match t {
            TokenView::Char(c) if is_space_char(c) => (s, true),
            TokenView::StartTag(n, a) if n == "html"@ => (
                with_mode(insert_element_model(s, ElementKind::Html, a), InsertionMode::BeforeHead),
                true,
            ),
            _ => (
                with_mode(
                    insert_element_model(s, ElementKind::Html, Seq::empty()),
                    InsertionMode::BeforeHead,
                ),
                false,
            ),
        },
        InsertionMode::BeforeHead => match t {
            TokenView::Char(c) if is_space_char(c) => (s, true),
            TokenView::StartTag(n, a) if n == "head"@ => (
                with_mode(insert_element_model(s, ElementKind::Head, a), InsertionMode::InHead),
                true,
            ),
            _ => (
                with_mode(
                    insert_element_model(s, ElementKind::Head, Seq::empty()),
                    InsertionMode::InHead,
                ),
                false,
            ),
        },
        InsertionMode::InHead => match t {
            TokenView::Char(c) => if is_space_char(c) {
                (insert_char_model(s, c), true)
            } else {
                (s, true)
            },
            TokenView::StartTag(n, a) => if n == "style"@ {
                (
                    ParserModel {
                        mode: InsertionMode::Text,
                        original: InsertionMode::InHead,
                        ..insert_element_model(s, ElementKind::Style, a)
                    },
                    true,
                )
            } else if n == "script"@ {
                (
                    ParserModel {
                        mode: InsertionMode::Text,
                        original: InsertionMode::InHead,
                        ..insert_element_model(s, ElementKind::Script, a)
                    },
                    true,
                )
            } else if element_kind_of(n) is Some {
                (with_mode(pop_until_model(s, ElementKind::Head), InsertionMode::AfterHead), false)
            } else {
                (s, true)
            },
            TokenView::EndTag(n) => if n == "head"@ {
                (with_mode(pop_until_model(s, ElementKind::Head), InsertionMode::AfterHead), true)
            } else {
                (s, true)
            },
            TokenView::Eof => (s, true),
        },
        InsertionMode::AfterHead => match t {
            TokenView::Char(c) if is_space_char(c) => (insert_char_model(s, c), true),
            TokenView::StartTag(n, a) if n == "body"@ => (
                with_mode(insert_element_model(s, ElementKind::Body, a), InsertionMode::InBody),
                true,
            ),
            _ => (
                with_mode(
                    insert_element_model(s, ElementKind::Body, Seq::empty()),
                    InsertionMode::InBody,
                ),
                false,
            ),
        },
        InsertionMode::InBody => match t {
            TokenView::StartTag(n, a) => match element_kind_of(n) {
                Some(k) => if is_phrase_kind(k) {
                    (insert_element_model(s, k, a), true)
                } else {
                    (s, true)
                },
                None => (s, true),
            },
            TokenView::EndTag(n) => match element_kind_of(n) {
                Some(ElementKind::Body) => (
                    with_mode(pop_until_model(s, ElementKind::Body), InsertionMode::AfterBody),
                    true,
                ),
                Some(ElementKind::Html) => if current_is(s, ElementKind::Body) {
                    (
                        with_mode(
                            pop_current_model(pop_current_model(s, ElementKind::Body), ElementKind::Html),
                            InsertionMode::AfterAfterBody,
                        ),
                        true,
                    )
                } else {
                    (s, true)
                },
                Some(k) => if is_phrase_kind(k) {
                    (pop_until_model(s, k), true)
                } else {
                    (s, true)
                },
                None => (s, true),
            },
            TokenView::Char(c) => (insert_char_model(s, c), true),
            TokenView::Eof => (s, true),
        },
        InsertionMode::Text => match t {
            TokenView::EndTag(n) => {
                let s1 = if n == "style"@ {
                    pop_until_model(s, ElementKind::Style)
                } else {
                    s
                };
                let s2 = if n == "script"@ {
                    pop_until_model(s1, ElementKind::Script)
                } else {
                    s1
                };
                (with_mode(s2, s.original), true)
            },
            TokenView::Char(c) => (insert_char_model(s, c), true),
            _ => (with_mode(s, s.original), false),
        },
        InsertionMode::AfterBody => match t {
            TokenView::Char(_) => (s, true),
            TokenView::EndTag(n) => if n == "html"@ {
                (with_mode(s, InsertionMode::AfterAfterBody), true)
            } else {
                (with_mode(s, InsertionMode::InBody), false)
            },
            _ => (with_mode(s, InsertionMode::InBody), false),
        },
        InsertionMode::AfterAfterBody => match t {
            TokenView::Char(_) => (s, true),
            _ => (with_mode(s, InsertionMode::InBody), false),
        },
    }
}

/// Tree construction over the tokens from index `i` on, stopping at `Eof`
/// or at the end of the tokens.
pub open spec fn run(s: ParserModel, ts: Seq<TokenView>, i: int) -> ParserModel
    decreases ts.len() - i, mode_rank(s.mode),
{
    if i < 0 || i >= ts.len() || ts[i] is Eof {
        s
    } else {
        let (s2, consumed) = step(s, ts[i]);
        if consumed {
            run(s2, ts, i + 1)
        } else if mode_rank(s2.mode) < mode_rank(s.mode) {
            run(s2, ts, i)
        } else {
            s2
        }
    }
}

/// The state before any token: the document alone, nothing open.
pub open spec fn initial_model() -> ParserModel {
    ParserModel {
        nodes: seq![
            NodeView {
                kind: KindView::Document,
                parent: None,
                first_child: None,
                last_child: None,
                previous_sibling: None,
                next_sibling: None,
            },
        ],
        stack: Seq::empty(),
        mode: InsertionMode::Initial,
        original: InsertionMode::Initial,
    }
}

/// The tree built from an HTML text: tree construction over its tokens.
pub open spec fn html_tree(s: Seq<char>) -> Seq<NodeView> {
    run(initial_model(), crate::html_token::html_tokens(s).map_values(|t: TokenSummary| summary_view(t)), 0).nodes
}

#[derive(Debug)]
pub struct HtmlParser {
    window: Window,
    mode: InsertionMode,
    original_insertion_mode: InsertionMode,
    stack_of_open_elements: Vec<usize>,
    tokens: Vec<HtmlToken>,
    pos: usize,
}

/// A stack of open elements whose entries are nodes of the tree.
pub open spec fn stack_wf(stack: Seq<usize>, nodes: Seq<crate::dom::Node>) -> bool {
    forall|i: int| 0 <= i < stack.len() ==> #[trigger] stack[i] < nodes.len()
}

impl HtmlParser {
    pub closed spec fn wf(&self) -> bool {
        &&& tree_wf(self.window@)
        &&& stack_wf(self.stack_of_open_elements@, self.window@)
        &&& self.pos <= self.tokens@.len()
        &&& (self.mode == InsertionMode::Text ==> self.original_insertion_mode
            == InsertionMode::InHead)
    }

    /// The state of construction.
    pub closed spec fn model(&self) -> ParserModel {
        ParserModel {
            nodes: tree_view(self.window@),
            stack: self.stack_of_open_elements@,
            mode: self.mode,
            original: self.original_insertion_mode,
        }
    }

    /// The tokens, as read from the tokenizer.
    pub closed spec fn tokens(&self) -> Seq<TokenView> {
        self.tokens@.map_values(|t: HtmlToken| token_view(t))
    }

    /// How many tokens have been processed.
    pub closed spec fn position(&self) -> int {
        self.pos as int
    }

    /// A parser over every token of `t`, in the initial state.
    pub fn new(t: HtmlTokenizer) -> (r: Self)
        requires
            t.wf(),
            t.position() <= t.input().len(),
        ensures
            r.wf(),
            r.model() == initial_model(),
            r.position() == 0,
            r.tokens() == token_seq(t.input(), t.model()).map_values(|s: TokenSummary| summary_view(s)),
    {
        let ghost old_t = t;
        let ghost all = token_seq(t.input(), t.model());
        let mut t = t;
        let mut tokens: Vec<HtmlToken> = Vec::new();
        let mut done = false;
        proof {
            t.lemma_model_pos();
        }
        while !done
            invariant
                t.wf(),
                t.position() <= t.input().len(),
                t.input() == old_t.input(),
                t.model().pos == t.position() as int,
                all == token_seq(old_t.input(), old_t.model()),
                !done ==> tokens@.map_values(|x: HtmlToken| summary(x)) + token_seq(t.input(), t.model()) == all,
                done ==> tokens@.map_values(|x: HtmlToken| summary(x)) == all,
            decreases t.input().len() - t.position() + (if done { 0int } else { 1int }),
        {
            let ghost before = tokens@;
            let ghost m = t.model();
            let tok = t.next();
            proof {
                t.lemma_model_pos();
            }
            let is_eof = match tok {
                HtmlToken::Eof => true,
                _ => false,
            };
            tokens.push(tok);
            proof {
                assert(tokens@.map_values(|x: HtmlToken| summary(x)) =~= before.map_values(|x: HtmlToken| summary(x)).push(summary(tok)));
                if is_eof {
                    assert(token_seq(t.input(), m) == seq![summary(tok)]);
                } else {
                    assert(token_seq(t.input(), m) == seq![summary(tok)] + token_seq(t.input(), t.model()));
                    assert(before.map_values(|x: HtmlToken| summary(x)) + (seq![summary(tok)] + token_seq(t.input(), t.model()))
                        =~= before.map_values(|x: HtmlToken| summary(x)).push(summary(tok)) + token_seq(t.input(), t.model()));
                }
            }
            done = is_eof;
        }
        let window = Window::new();
        let r = HtmlParser {
            window,
            mode: InsertionMode::Initial,
            original_insertion_mode: InsertionMode::Initial,
            stack_of_open_elements: Vec::new(),
            tokens,
            pos: 0,
        };
        assert(r.model().nodes =~= initial_model().nodes);
        assert(r.tokens() =~= all.map_values(|s: TokenSummary| summary_view(s))) by {
            assert forall|i: int| 0 <= i < r.tokens@.len() implies r.tokens()[i] == all.map_values(|s: TokenSummary| summary_view(s))[i] by {
                assert(r.tokens@.map_values(|x: HtmlToken| summary(x))[i] == summary(r.tokens@[i]));
            }
        }
        r
    }

    /// Whether an element of kind `element_kind` is open.
    fn contain_in_stack(&self, element_kind: ElementKind) -> (r: bool)
        requires
            self.wf(),
        ensures
            r == stack_has(self.model().stack, self.model().nodes, element_kind),
    {
        let mut i: usize = 0;
        while i < self.stack_of_open_elements.len()
            invariant
                self.wf(),
                i <= self.stack_of_open_elements@.len(),
                forall|j: int|
                    0 <= j < i ==> view_element_kind(
                        self.model().nodes[#[trigger] self.stack_of_open_elements@[j] as int],
                    ) != Some(element_kind),
            decreases self.stack_of_open_elements@.len() - i,
        {
            let id = self.stack_of_open_elements[i];
            if self.window.node(id).element_kind() == Some(element_kind) {
                assert(view_element_kind(self.model().nodes[self.stack_of_open_elements@[i as int] as int]) == Some(element_kind));
                return true;
            }
            i = i + 1;
        }
        false
    }

    /// Pops open elements up to and including the nearest one of kind
    /// `element_kind`; when none is open nothing changes.
    fn pop_until(&mut self, element_kind: ElementKind)
        requires
            old(self).wf(),
        ensures
            final(self).wf(),
            final(self).model() == pop_until_model(old(self).model(), element_kind),
            final(self).tokens == old(self).tokens,
            final(self).pos == old(self).pos,
    {
        if !self.contain_in_stack(element_kind) {
            return ;
        }
        loop
            invariant
                self.wf(),
                self.window == old(self).window,
                self.mode == old(self).mode,
                self.original_insertion_mode == old(self).original_insertion_mode,
                self.tokens == old(self).tokens,
                self.pos == old(self).pos,
                pop_through(self.stack_of_open_elements@, self.model().nodes, element_kind)
                    == pop_through(old(self).stack_of_open_elements@, old(self).model().nodes, element_kind),
                self.stack_of_open_elements@.len() <= old(self).stack_of_open_elements@.len(),
                self.stack_of_open_elements@ == old(self).stack_of_open_elements@.subrange(0, self.stack_of_open_elements@.len() as int),
                stack_has(old(self).model().stack, old(self).model().nodes, element_kind),
            decreases self.stack_of_open_elements@.len(),
        {
            let ghost before = self.stack_of_open_elements@;
            let current = match self.stack_of_open_elements.pop() {
                Some(n) => n,
                None => {
                    assert(self.stack_of_open_elements@ == before);
                    assert(pop_through(before, self.model().nodes, element_kind) == before);
                    assert(self.model() == pop_until_model(old(self).model(), element_kind));
                    return ;
                },
            };
            assert(before.drop_last() == self.stack_of_open_elements@);
            assert(before.last() == current);
            assert(self.model().nodes[current as int] == crate::window::node_view(self.window@[current as int]));
            if self.window.node(current).element_kind() == Some(element_kind) {
                assert(pop_through(before, self.model().nodes, element_kind) == self.stack_of_open_elements@);
                assert(self.model() == pop_until_model(old(self).model(), element_kind));
                return ;
            }
            assert(pop_through(before, self.model().nodes, element_kind) == pop_through(self.stack_of_open_elements@, self.model().nodes, element_kind));
        }
    }

    /// Pops the current node when it is of kind `element_kind`.
    fn pop_current_node(&mut self, element_kind: ElementKind) -> (r: bool)
        requires
            old(self).wf(),
        ensures
            final(self).wf(),
            r == current_is(old(self).model(), element_kind),
            final(self).model() == pop_current_model(old(self).model(), element_kind),
            final(self).tokens == old(self).tokens,
            final(self).pos == old(self).pos,
    {
        let n = self.stack_of_open_elements.len();
        if n == 0 {
            return false;
        }
        let current = self.stack_of_open_elements[n - 1];
        if self.window.node(current).element_kind() == Some(element_kind) {
            self.stack_of_open_elements.pop();
            assert(self.model() == pop_current_model(old(self).model(), element_kind));
            return true;
        }
        false
    }

    /// A text node holding the one character `c`.
    fn create_char(&self, c: char) -> (r: NodeKind)
        ensures
            kind_view(r) == KindView::Text(seq![c]),
    {
        let mut v: Vec<char> = Vec::new();
        v.push(c);
        assert(v@ == seq![c]);
        NodeKind::Text(string_of(v.as_slice()))
    }

    /// Inserts a character into the current node.
    fn insert_char(&mut self, c: char)
        requires
            old(self).wf(),
        ensures
            final(self).wf(),
            final(self).model() == insert_char_model(old(self).model(), c),
            final(self).tokens == old(self).tokens,
            final(self).pos == old(self).pos,
    {
        let n = self.stack_of_open_elements.len();
        if n == 0 {
            return ;
        }
        let current = self.stack_of_open_elements[n - 1];
        proof {
            crate::window::lemma_links(self.window@, current as int);
        }
        if let Some(last) = self.window.node(current).last_child {
            if let NodeKind::Text(_) = self.window.node(last).kind {
                self.window.push_text(last, c);
                assert(self.model().nodes == push_text_view(old(self).model().nodes, last, c));
                return ;
            }
        }
        if c == '\n' || c == ' ' {
            return ;
        }
        if self.window.len() == usize::MAX {
            return ;
        }
        let kind = self.create_char(c);
        self.window.append_child(current, kind);
        assert(self.model().nodes == append_view(old(self).model().nodes, current, KindView::Text(seq![c])));
        assert forall|i: int| 0 <= i < self.stack_of_open_elements@.len() implies #[trigger] self.stack_of_open_elements@[i] < self.window@.len() by {
            assert(old(self).stack_of_open_elements@[i] < old(self).window@.len());
        }
    }

    /// Appends a new element as the last child of the current node (the
    /// document when no element is open) and opens it.
    fn insert_element(&mut self, kind: ElementKind, attributes: Vec<Attribute>)
        requires
            old(self).wf(),
        ensures
            final(self).wf(),
            final(self).model() == insert_element_model(old(self).model(), kind, attr_views(attributes@)),
            final(self).tokens == old(self).tokens,
            final(self).pos == old(self).pos,
    {
        if self.window.len() == usize::MAX {
            return ;
        }
        let n = self.stack_of_open_elements.len();
        let current = if n == 0 {
            self.window.document()
        } else {
            self.stack_of_open_elements[n - 1]
        };
        let ghost attrs = attr_views(attributes@);
        let id = self.window.append_child(current, NodeKind::Element(Element { kind, attributes }));
        self.stack_of_open_elements.push(id);
        assert(self.model().nodes == append_view(old(self).model().nodes, current, KindView::Element(kind, attrs)));
        assert forall|i: int| 0 <= i < self.stack_of_open_elements@.len() implies #[trigger] self.stack_of_open_elements@[i] < self.window@.len() by {
            if i < n {
                assert(old(self).stack_of_open_elements@[i] < old(self).window@.len());
            }
        }
    }

    /// Inserts an element that the markup leaves out, without attributes.
    fn insert_implied(&mut self, kind: ElementKind)
        requires
            old(self).wf(),
        ensures
            final(self).wf(),
            final(self).model() == insert_element_model(old(self).model(), kind, Seq::empty()),
            final(self).tokens == old(self).tokens,
            final(self).pos == old(self).pos,
    {
        let none: Vec<Attribute> = Vec::new();
        assert(attr_views(none@) =~= Seq::<(Seq<char>, Seq<char>)>::empty());
        self.insert_element(kind, none);
    }

    /// Inserts an element with a copy of `attributes`.
    fn insert_element_copy(&mut self, kind: ElementKind, attributes: &Vec<Attribute>)
        requires
            old(self).wf(),
        ensures
            final(self).wf(),
            final(self).model() == insert_element_model(old(self).model(), kind, attr_views(attributes@)),
            final(self).tokens == old(self).tokens,
            final(self).pos == old(self).pos,
    {
        let copy = clone_attributes(attributes);
        assert(attr_views(copy@) == attr_views(attributes@));
        self.insert_element(kind, copy);
    }

    /// One token in mode `Initial`.
    #[verifier::rlimit(100)]
    #[verifier::spinoff_prover]
    fn step_initial(&mut self, token: &HtmlToken) -> (consumed: bool)
        requires
            old(self).wf(),
            old(self).mode == InsertionMode::Initial,
        ensures
            final(self).wf(),
            (final(self).model(), consumed) == step(old(self).model(), token_view(*token)),
            final(self).tokens == old(self).tokens,
            final(self).pos == old(self).pos,
    {
        proof {
            reveal_strlit("html");
            reveal_strlit("head");
            reveal_strlit("body");
            reveal_strlit("style");
            reveal_strlit("script");
        }
        {
                if let HtmlToken::Char(_) = token {
                    true
                } else {
                    self.mode = InsertionMode::BeforeHtml;
                    false
                }
            }
    }

    /// One token in mode `BeforeHtml`.
    #[verifier::rlimit(100)]
    #[verifier::spinoff_prover]
    fn step_before_html(&mut self, token: &HtmlToken) -> (consumed: bool)
        requires
            old(self).wf(),
            old(self).mode == InsertionMode::BeforeHtml,
        ensures
            final(self).wf(),
            (final(self).model(), consumed) == step(old(self).model(), token_view(*token)),
            final(self).tokens == old(self).tokens,
            final(self).pos == old(self).pos,
    {
        proof {
            reveal_strlit("html");
            reveal_strlit("head");
            reveal_strlit("body");
            reveal_strlit("style");
            reveal_strlit("script");
        }
        {
                match token {
                    HtmlToken::Char(c) => {
                        if *c == ' ' || *c == '\n' {
                            return true;
                        }
                    },
                    HtmlToken::StartTag { tag, attributes, .. } => {
                        if same_chars(tag.as_str(), "html") {
                            self.insert_element_copy(ElementKind::Html, attributes);
                            self.mode = InsertionMode::BeforeHead;
                            return true;
                        }
                    },
                    _ => {},
                }
                self.insert_implied(ElementKind::Html);
                self.mode = InsertionMode::BeforeHead;
                false
            }
    }

    /// One token in mode `BeforeHead`.
    #[verifier::rlimit(100)]
    #[verifier::spinoff_prover]
    fn step_before_head(&mut self, token: &HtmlToken) -> (consumed: bool)
        requires
            old(self).wf(),
            old(self).mode == InsertionMode::BeforeHead,
        ensures
            final(self).wf(),
            (final(self).model(), consumed) == step(old(self).model(), token_view(*token)),
            final(self).tokens == old(self).tokens,
            final(self).pos == old(self).pos,
    {
        proof {
            reveal_strlit("html");
            reveal_strlit("head");
            reveal_strlit("body");
            reveal_strlit("style");
            reveal_strlit("script");
        }
        {
                match token {
                    HtmlToken::Char(c) => {
                        if *c == ' ' || *c == '\n' {
                            return true;
                        }
                    },
                    HtmlToken::StartTag { tag, attributes, .. } => {
                        if same_chars(tag.as_str(), "head") {
                            self.insert_element_copy(ElementKind::Head, attributes);
                            self.mode = InsertionMode::InHead;
                            return true;
                        }
                    },
                    _ => {},
                }
                self.insert_implied(ElementKind::Head);
                self.mode = InsertionMode::InHead;
                false
            }
    }

    /// One token in mode `InHead`.
    #[verifier::rlimit(100)]
    #[verifier::spinoff_prover]
    fn step_in_head(&mut self, token: &HtmlToken) -> (consumed: bool)
        requires
            old(self).wf(),
            old(self).mode == InsertionMode::InHead,
        ensures
            final(self).wf(),
            (final(self).model(), consumed) == step(old(self).model(), token_view(*token)),
            final(self).tokens == old(self).tokens,
            final(self).pos == old(self).pos,
    {
        proof {
            reveal_strlit("html");
            reveal_strlit("head");
            reveal_strlit("body");
            reveal_strlit("style");
            reveal_strlit("script");
        }
        {
                match token {
                    HtmlToken::Char(c) => {
                        if *c == ' ' || *c == '\n' {
                            self.insert_char(*c);
                        }
                        true
                    },
                    HtmlToken::StartTag { tag, attributes, .. } => {
                        if same_chars(tag.as_str(), "style") {
                            self.insert_element_copy(ElementKind::Style, attributes);
                            self.original_insertion_mode = InsertionMode::InHead;
                            self.mode = InsertionMode::Text;
                            true
                        } else if same_chars(tag.as_str(), "script") {
                            self.insert_element_copy(ElementKind::Script, attributes);
                            self.original_insertion_mode = InsertionMode::InHead;
                            self.mode = InsertionMode::Text;
                            true
                        } else if ElementKind::from_name(tag.as_str()).is_some() {
                            self.pop_until(ElementKind::Head);
                            self.mode = InsertionMode::AfterHead;
                            false
                        } else {
                            true
                        }
                    },
                    HtmlToken::EndTag { tag } => {
                        if same_chars(tag.as_str(), "head") {
                            self.pop_until(ElementKind::Head);
                            self.mode = InsertionMode::AfterHead;
                        }
                        true
                    },
                    HtmlToken::Eof => true,
                }
            }
    }

    /// One token in mode `AfterHead`.
    #[verifier::rlimit(100)]
    #[verifier::spinoff_prover]
    fn step_after_head(&mut self, token: &HtmlToken) -> (consumed: bool)
        requires
            old(self).wf(),
            old(self).mode == InsertionMode::AfterHead,
        ensures
            final(self).wf(),
            (final(self).model(), consumed) == step(old(self).model(), token_view(*token)),
            final(self).tokens == old(self).tokens,
            final(self).pos == old(self).pos,
    {
        proof {
            reveal_strlit("html");
            reveal_strlit("head");
            reveal_strlit("body");
            reveal_strlit("style");
            reveal_strlit("script");
        }
        {
                match token {
                    HtmlToken::Char(c) => {
                        if *c == ' ' || *c == '\n' {
                            self.insert_char(*c);
                            return true;
                        }
                    },
                    HtmlToken::StartTag { tag, attributes, .. } => {
                        if same_chars(tag.as_str(), "body") {
                            self.insert_element_copy(ElementKind::Body, attributes);
                            self.mode = InsertionMode::InBody;
                            return true;
                        }
                    },
                    _ => {},
                }
                self.insert_implied(ElementKind::Body);
                self.mode = InsertionMode::InBody;
                false
            }
    }

    /// One token in mode `InBody`.
    #[verifier::rlimit(100)]
    #[verifier::spinoff_prover]
    fn step_in_body(&mut self, token: &HtmlToken) -> (consumed: bool)
        requires
            old(self).wf(),
            old(self).mode == InsertionMode::InBody,
        ensures
            final(self).wf(),
            (final(self).model(), consumed) == step(old(self).model(), token_view(*token)),
            final(self).tokens == old(self).tokens,
            final(self).pos == old(self).pos,
    {
        proof {
            reveal_strlit("html");
            reveal_strlit("head");
            reveal_strlit("body");
            reveal_strlit("style");
            reveal_strlit("script");
        }
        {
                match token {
                    HtmlToken::StartTag { tag, attributes, .. } => {
                        if let Some(k) = ElementKind::from_name(tag.as_str()) {
                            if k == ElementKind::P || k == ElementKind::H1 || k == ElementKind::H2
                                || k == ElementKind::A {
                                self.insert_element_copy(k, attributes);
                            }
                        }
                    },
                    HtmlToken::EndTag { tag } => {
                        match ElementKind::from_name(tag.as_str()) {
                            Some(ElementKind::Body) => {
                                self.pop_until(ElementKind::Body);
                                self.mode = InsertionMode::AfterBody;
                            },
                            Some(ElementKind::Html) => {
                                if self.pop_current_node(ElementKind::Body) {
                                    self.pop_current_node(ElementKind::Html);
                                    self.mode = InsertionMode::AfterAfterBody;
                                }
                            },
                            Some(k) => {
                                if k == ElementKind::P || k == ElementKind::H1 || k
                                    == ElementKind::H2 || k == ElementKind::A {
                                    self.pop_until(k);
                                }
                            },
                            None => {},
                        }
                    },
                    HtmlToken::Char(c) => {
                        self.insert_char(*c);
                    },
                    HtmlToken::Eof => {},
                }
                true
            }
    }

    /// One token in mode `Text`.
    #[verifier::rlimit(100)]
    #[verifier::spinoff_prover]
    fn step_text(&mut self, token: &HtmlToken) -> (consumed: bool)
        requires
            old(self).wf(),
            old(self).mode == InsertionMode::Text,
        ensures
            final(self).wf(),
            (final(self).model(), consumed) == step(old(self).model(), token_view(*token)),
            final(self).tokens == old(self).tokens,
            final(self).pos == old(self).pos,
    {
        proof {
            reveal_strlit("html");
            reveal_strlit("head");
            reveal_strlit("body");
            reveal_strlit("style");
            reveal_strlit("script");
        }
        {
                match token {
                    HtmlToken::EndTag { tag } => {
                        let original = self.original_insertion_mode;
                        if same_chars(tag.as_str(), "style") {
                            self.pop_until(ElementKind::Style);
                        }
                        if same_chars(tag.as_str(), "script") {
                            self.pop_until(ElementKind::Script);
                        }
                        self.mode = original;
                        true
                    },
                    HtmlToken::Char(c) => {
                        self.insert_char(*c);
                        true
                    },
                    _ => {
                        self.mode = self.original_insertion_mode;
                        false
                    },
                }
            }
    }

    /// One token in mode `AfterBody`.
    #[verifier::rlimit(100)]
    #[verifier::spinoff_prover]
    fn step_after_body(&mut self, token: &HtmlToken) -> (consumed: bool)
        requires
            old(self).wf(),
            old(self).mode == InsertionMode::AfterBody,
        ensures
            final(self).wf(),
            (final(self).model(), consumed) == step(old(self).model(), token_view(*token)),
            final(self).tokens == old(self).tokens,
            final(self).pos == old(self).pos,
    {
        proof {
            reveal_strlit("html");
            reveal_strlit("head");
            reveal_strlit("body");
            reveal_strlit("style");
            reveal_strlit("script");
        }
        {
                match token {
                    HtmlToken::Char(_) => true,
                    HtmlToken::EndTag { tag } => {
                        if same_chars(tag.as_str(), "html") {
                            self.mode = InsertionMode::AfterAfterBody;
                            true
                        } else {
                            self.mode = InsertionMode::InBody;
                            false
                        }
                    },
                    _ => {
                        self.mode = InsertionMode::InBody;
                        false
                    },
                }
            }
    }

    /// One token in mode `AfterAfterBody`.
    #[verifier::rlimit(100)]
    #[verifier::spinoff_prover]
    fn step_after_after_body(&mut self, token: &HtmlToken) -> (consumed: bool)
        requires
            old(self).wf(),
            old(self).mode == InsertionMode::AfterAfterBody,
        ensures
            final(self).wf(),
            (final(self).model(), consumed) == step(old(self).model(), token_view(*token)),
            final(self).tokens == old(self).tokens,
            final(self).pos == old(self).pos,
    {
        proof {
            reveal_strlit("html");
            reveal_strlit("head");
            reveal_strlit("body");
            reveal_strlit("style");
            reveal_strlit("script");
        }
        {
                if let HtmlToken::Char(_) = token {
                    true
                } else {
                    self.mode = InsertionMode::InBody;
                    false
                }
            }
    }

    /// Processes one token in the current mode; returns whether it was
    /// consumed.
        fn step(&mut self, token: &HtmlToken) -> (consumed: bool)
        requires
            old(self).wf(),
        ensures
            final(self).wf(),
            (final(self).model(), consumed) == step(old(self).model(), token_view(*token)),
            final(self).tokens == old(self).tokens,
            final(self).pos == old(self).pos,
    {
        proof {
            reveal_strlit("html");
            reveal_strlit("head");
            reveal_strlit("body");
            reveal_strlit("style");
            reveal_strlit("script");
        }
        match self.mode {
            InsertionMode::Initial => self.step_initial(token),
            InsertionMode::BeforeHtml => self.step_before_html(token),
            InsertionMode::BeforeHead => self.step_before_head(token),
            InsertionMode::InHead => self.step_in_head(token),
            InsertionMode::AfterHead => self.step_after_head(token),
            InsertionMode::InBody => self.step_in_body(token),
            InsertionMode::Text => self.step_text(token),
            InsertionMode::AfterBody => self.step_after_body(token),
            InsertionMode::AfterAfterBody => self.step_after_after_body(token),
        }
    }

    /// Processes every token and returns the tree: the tree of `run` over
    /// the tokens from the current position.
    pub fn construct_tree(self) -> (r: Window)
        requires
            self.wf(),
        ensures
            r.wf(),
            tree_view(r@) == run(self.model(), self.tokens(), self.position()).nodes,
    {
        let mut p = self;
        p.run();
        p.window
    }

    fn run(&mut self)
        requires
            old(self).wf(),
        ensures
            final(self).wf(),
            final(self).model() == run(old(self).model(), old(self).tokens(), old(self).position()),
    {
        loop
            invariant
                self.wf(),
                self.tokens == old(self).tokens,
                run(self.model(), self.tokens(), self.pos as int) == run(old(self).model(), old(self).tokens(), old(self).position()),
            decreases self.tokens@.len() - self.pos, mode_rank(self.mode),
        {
            if self.pos >= self.tokens.len() {
                return ;
            }
            let ghost s = self.model();
            let ghost i = self.pos as int;
            assert(self.tokens()[i] == token_view(self.tokens@[i]));
            if let HtmlToken::Eof = self.tokens[self.pos] {
                return ;
            }
            let token = self.tokens[self.pos].clone();
            let consumed = self.step(&token);
            if consumed {
                self.pos = self.pos + 1;
            }
        }
    }
}

} // verus!
