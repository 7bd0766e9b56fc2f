//! The arena that owns a page's document tree, and the lookups that walk it.
use vstd::prelude::*;
use crate::dom::{element_kind_of_node, ElementKind, Node, NodeKind};
use crate::text::same_chars;

verus! {

/// A link that, when present, points forward in the arena.
pub open spec fn forward(i: int, l: Option<usize>, n: int) -> bool {
    l matches Some(c) ==> i < c < n
}

/// A link that, when present, points backward in the arena.
pub open spec fn backward(i: int, l: Option<usize>) -> bool {
    l matches Some(p) ==> p < i
}

/// The links of node `i`: owning links point forward, so they form no cycle;
/// the last child, when there is one, ends its sibling chain.
pub open spec fn links_wf(nodes: Seq<Node>, i: int) -> bool {
    let n = nodes[i];
    &&& forward(i, n.first_child, nodes.len() as int)
    &&& forward(i, n.last_child, nodes.len() as int)
    &&& forward(i, n.next_sibling, nodes.len() as int)
    &&& backward(i, n.parent)
    &&& backward(i, n.previous_sibling)
    &&& (n.first_child is None <==> n.last_child is None)
    &&& (n.last_child matches Some(l) ==> nodes[l as int].next_sibling is None
        && nodes[l as int].parent == Some(i as usize))
    &&& (n.first_child matches Some(c) ==> nodes[c as int].parent == Some(i as usize))
    &&& (n.next_sibling matches Some(x) ==> nodes[x as int].parent == n.parent)
}

/// A well-formed arena: the document is node 0, and every node's links are
/// well formed.
pub open spec fn tree_wf(nodes: Seq<Node>) -> bool {
    &&& nodes.len() >= 1
    &&& nodes[0].kind is Document
    &&& forall|i: int| 0 <= i < nodes.len() ==> #[trigger] links_wf(nodes, i)
}

/// The document tree of one page.
#[derive(Debug)]
pub struct Window {
    nodes: Vec<Node>,
}

impl View for Window {
    type V = Seq<Node>;

    closed spec fn view(&self) -> Seq<Node> {
        self.nodes@
    }
}

/// A link kept only when it points forward from `n`; in a well-formed
/// arena every owning link does.
pub open spec fn ahead(n: usize, l: Option<usize>) -> Option<usize> {
    if l matches Some(c) && c > n {
        l
    } else {
        None
    }
}

/// How far a node lies from the end of an arena of `len` nodes.
pub open spec fn arena_measure(len: nat, node: Option<usize>) -> nat {
    match node {
        Some(n) => if n < len {
            (len - n) as nat
        } else {
            0
        },
        None => 0,
    }
}

/// The first node, in depth-first order from `node` (the node itself, then
/// its first child's subtree, then its next sibling's), that is an element
/// of kind `kind`.
pub open spec fn find_kind(nodes: Seq<Node>, node: Option<usize>, kind: ElementKind) -> Option<
    usize,
>
    decreases arena_measure(nodes.len(), node),
{
    match node {
        None => None,
        Some(n) => {
            if n >= nodes.len() {
                None
            } else if element_kind_of_node(nodes[n as int].kind) == Some(kind) {
                Some(n)
            } else {
                let r1 = find_kind(nodes, ahead(n, nodes[n as int].first_child), kind);
                if r1 is Some {
                    r1
                } else {
                    find_kind(nodes, ahead(n, nodes[n as int].next_sibling), kind)
                }
            }
        },
    }
}

/// Whether an element carries `id="<id>"`.
pub open spec fn has_id(k: NodeKind, id: Seq<char>) -> bool {
    match k {
        NodeKind::Element(e) => exists|j: int|
            0 <= j < e.attributes@.len() && (#[trigger] e.attributes@[j]).name@ == "id"@
                && e.attributes@[j].value@ == id,
        _ => false,
    }
}

/// The first node, in the same depth-first order, that carries `id="<id>"`.
pub open spec fn find_id(nodes: Seq<Node>, node: Option<usize>, id: Seq<char>) -> Option<usize>
    decreases arena_measure(nodes.len(), node),
{
    match node {
        None => None,
        Some(n) => {
            if n >= nodes.len() {
                None
            } else if has_id(nodes[n as int].kind, id) {
                Some(n)
            } else {
                let r1 = find_id(nodes, ahead(n, nodes[n as int].first_child), id);
                if r1 is Some {
                    r1
                } else {
                    find_id(nodes, ahead(n, nodes[n as int].next_sibling), id)
                }
            }
        },
    }
}

impl Window {
    /// A window whose tree holds the document node alone.
    pub fn new() -> (r: Self)
        ensures
            tree_wf(r@),
            r@.len() == 1,
            r@[0].kind is Document,
            r@[0].first_child is None,
            r@[0].last_child is None,
            r@[0].parent is None,
            r@[0].previous_sibling is None,
            r@[0].next_sibling is None,
    {
        let mut nodes: Vec<Node> = Vec::new();
        nodes.push(Node::new(NodeKind::Document));
        let r = Window { nodes };
        assert(links_wf(r@, 0));
        r
    }

    pub open spec fn wf(&self) -> bool {
        tree_wf(self@)
    }

    /// The index of the document node.
    pub fn document(&self) -> (r: usize)
        ensures
            r == 0,
    {
        0
    }

    /// The number of nodes in the tree.
    pub fn len(&self) -> (r: usize)
        ensures
            r == self@.len(),
    {
        self.nodes.len()
    }

    /// The node at index `id`.
    pub fn node(&self, id: usize) -> (r: &Node)
        requires
            id < self@.len(),
        ensures
            *r == self@[id as int],
    {
        &self.nodes[id]
    }

    /// Appends a new node holding `kind` as the last child of `parent`, and
    /// returns its index.
    pub fn append_child(&mut self, parent: usize, kind: NodeKind) -> (r: usize)
        requires
            tree_wf(old(self)@),
            parent < old(self)@.len(),
            !(kind is Document),
            old(self)@.len() < usize::MAX,
        ensures
            tree_wf(final(self)@),
            r == old(self)@.len(),
            final(self)@.len() == old(self)@.len() + 1,
            final(self)@[r as int].kind == kind,
            final(self)@[r as int].parent == Some(parent),
            final(self)@[r as int].first_child is None,
            final(self)@[parent as int].last_child == Some(r),
            forall|i: int|
                0 <= i < old(self)@.len() ==> (#[trigger] final(self)@[i]).kind == old(self)@[i].kind,
            tree_view(final(self)@) == append_view(tree_view(old(self)@), parent, kind_view(kind)),
    {
        let id = self.nodes.len();
        assert(links_wf(self@, parent as int));
        let mut node = Node::new(kind);
        node.parent = Some(parent);
        match self.nodes[parent].last_child {
            Some(last) => {
                node.previous_sibling = Some(last);
                self.nodes.push(node);
                self.nodes[last].next_sibling = Some(id);
            },
            None => {
                self.nodes.push(node);
                self.nodes[parent].first_child = Some(id);
            },
        }
        self.nodes[parent].last_child = Some(id);
        assert forall|i: int| 0 <= i < self@.len() implies #[trigger] links_wf(self@, i) by {
            if i < id {
                assert(links_wf(old(self)@, i));
            }
        }
        assert(tree_view(self@) =~= append_view(tree_view(old(self)@), parent, kind_view(kind)));
        id
    }

    /// Appends `c` to the text of node `id`, which must be a text node.
    pub fn push_text(&mut self, id: usize, c: char)
        requires
            tree_wf(old(self)@),
            id < old(self)@.len(),
            old(self)@[id as int].kind is Text,
        ensures
            tree_wf(final(self)@),
            final(self)@.len() == old(self)@.len(),
            final(self)@[id as int].kind matches NodeKind::Text(s) && s@ == (
            old(self)@[id as int].kind->Text_0)@.push(c),
            forall|i: int|
                0 <= i < old(self)@.len() && i != id ==> #[trigger] final(self)@[i] == old(self)@[i],
            forall|i: int|
                0 <= i < old(self)@.len() ==> {
                    let a = #[trigger] final(self)@[i];
                    let b = old(self)@[i];
                    a.parent == b.parent && a.first_child == b.first_child && a.last_child
                        == b.last_child && a.next_sibling == b.next_sibling
                        && a.previous_sibling == b.previous_sibling
                },
            tree_view(final(self)@) == push_text_view(tree_view(old(self)@), id, c),
    {
        match &mut self.nodes[id].kind {
            NodeKind::Text(s) => {
                crate::text::push_char(s, c);
            },
            _ => {},
        }
        assert forall|i: int| 0 <= i < self@.len() implies #[trigger] links_wf(self@, i) by {
            assert(links_wf(old(self)@, i));
        }
        assert(tree_view(self@) =~= push_text_view(tree_view(old(self)@), id, c));
    }

    /// Replaces the children of element `id` by one new text node holding
    /// `text`; the old children stay in the arena, unreachable from `id`.
    pub fn set_text_content(&mut self, id: usize, text: String) -> (r: usize)
        requires
            tree_wf(old(self)@),
            id < old(self)@.len(),
            old(self)@.len() < usize::MAX,
        ensures
            tree_wf(final(self)@),
            r == old(self)@.len(),
            final(self)@.len() == old(self)@.len() + 1,
            final(self)@[id as int].first_child == Some(r),
            final(self)@[id as int].last_child == Some(r),
            final(self)@[r as int].kind == NodeKind::Text(text),
    {
        let r = self.nodes.len();
        let mut node = Node::new(NodeKind::Text(text));
        node.parent = Some(id);
        self.nodes.push(node);
        self.nodes[id].first_child = Some(r);
        self.nodes[id].last_child = Some(r);
        assert forall|i: int| 0 <= i < self@.len() implies #[trigger] links_wf(self@, i) by {
            if i < r {
                assert(links_wf(old(self)@, i));
            }
        }
        r
    }
}

} // verus!

verus! {

/// Whether node kind `k` is an element carrying `id="<id>"`.
pub fn node_has_id(k: &NodeKind, id: &str) -> (r: bool)
    ensures
        r == has_id(*k, id@),
{
    match k {
        NodeKind::Element(e) => {
            let mut j: usize = 0;
            while j < e.attributes.len()
                invariant
                    j <= e.attributes@.len(),
                    *k == NodeKind::Element(*e),
                    forall|x: int|
                        0 <= x < j ==> !((#[trigger] e.attributes@[x]).name@ == "id"@
                            && e.attributes@[x].value@ == id@),
                decreases e.attributes@.len() - j,
            {
                let a = &e.attributes[j];
                if same_chars(a.name.as_str(), "id") && same_chars(a.value.as_str(), id) {
                    assert(e.attributes@[j as int].name@ == "id"@);
                    return true;
                }
                j = j + 1;
            }
            false
        },
        _ => false,
    }
}

/// The first element of kind `kind` in depth-first order from `node`: the
/// node itself, then its first child's subtree, then its next sibling's.
pub fn get_target_element_node(window: &Window, node: Option<usize>, kind: ElementKind) -> (r:
    Option<usize>)
    requires
        window.wf(),
    ensures
        r == find_kind(window@, node, kind),
        r matches Some(i) ==> i < window@.len() && element_kind_of_node(window@[i as int].kind)
            == Some(kind),
    decreases arena_measure(window@.len(), node),
{
    match node {
        None => None,
        Some(n) => {
            if n >= window.len() {
                return None;
            }
            let cur = window.node(n);
            assert(links_wf(window@, n as int));
            if cur.element_kind() == Some(kind) {
                return Some(n);
            }
            let r1 = get_target_element_node(window, cur.first_child, kind);
            if r1.is_some() {
                return r1;
            }
            get_target_element_node(window, cur.next_sibling, kind)
        },
    }
}

/// The first element carrying `id="<id>"`, in the same order.
pub fn get_element_by_id(window: &Window, node: Option<usize>, id: &str) -> (r: Option<usize>)
    requires
        window.wf(),
    ensures
        r == find_id(window@, node, id@),
        r matches Some(i) ==> i < window@.len() && has_id(window@[i as int].kind, id@),
    decreases arena_measure(window@.len(), node),
{
    match node {
        None => None,
        Some(n) => {
            if n >= window.len() {
                return None;
            }
            let cur = window.node(n);
            assert(links_wf(window@, n as int));
            if node_has_id(&cur.kind, id) {
                return Some(n);
            }
            let r1 = get_element_by_id(window, cur.first_child, id);
            if r1.is_some() {
                return r1;
            }
            get_element_by_id(window, cur.next_sibling, id)
        },
    }
}

/// The text of the first `<style>` element of the document: the content of
/// its first child when that is a text node, else empty.
pub open spec fn style_content(nodes: Seq<Node>) -> Seq<char> {
    match find_kind(nodes, Some(0), ElementKind::Style) {
        None => Seq::empty(),
        Some(s) => match nodes[s as int].first_child {
            Some(t) => match nodes[t as int].kind {
                NodeKind::Text(x) => x@,
                _ => Seq::empty(),
            },
            None => Seq::empty(),
        },
    }
}

/// The style sheet text held by the document's first `<style>` element.
pub fn get_style_content(window: &Window) -> (r: String)
    requires
        window.wf(),
    ensures
        r@ == style_content(window@),
{
    let style = match get_target_element_node(window, Some(window.document()), ElementKind::Style) {
        Some(s) => s,
        None => return String::new(),
    };
    assert(links_wf(window@, style as int));
    let text = match window.node(style).first_child {
        Some(t) => t,
        None => return String::new(),
    };
    match &window.node(text).kind {
        NodeKind::Text(s) => s.clone(),
        _ => String::new(),
    }
}

} // verus!

verus! {

/// The links of any node of a well-formed arena are well formed.
pub proof fn lemma_links(nodes: Seq<Node>, i: int)
    requires
        tree_wf(nodes),
        0 <= i < nodes.len(),
    ensures
        links_wf(nodes, i),
{
}

} // verus!

verus! {

/// What a node holds, with text as characters.
pub enum KindView {
    Document,
    Element(ElementKind, Seq<(Seq<char>, Seq<char>)>),
    Text(Seq<char>),
}

/// A node as content and links.
pub struct NodeView {
    pub kind: KindView,
    pub parent: Option<usize>,
    pub first_child: Option<usize>,
    pub last_child: Option<usize>,
    pub previous_sibling: Option<usize>,
    pub next_sibling: Option<usize>,
}

pub open spec fn kind_view(k: NodeKind) -> KindView {
    match k {
        NodeKind::Document => KindView::Document,
        NodeKind::Element(e) => KindView::Element(e.kind, crate::dom::attr_views(e.attributes@)),
        NodeKind::Text(s) => KindView::Text(s@),
    }
}

pub open spec fn node_view(n: Node) -> NodeView {
    NodeView {
        kind: kind_view(n.kind),
        parent: n.parent,
        first_child: n.first_child,
        last_child: n.last_child,
        previous_sibling: n.previous_sibling,
        next_sibling: n.next_sibling,
    }
}

/// The tree as content and links.
pub open spec fn tree_view(nodes: Seq<Node>) -> Seq<NodeView> {
    nodes.map_values(|n: Node| node_view(n))
}

/// The element kind of a node view, if it is an element.
pub open spec fn view_element_kind(v: NodeView) -> Option<ElementKind> {
    match v.kind {
        KindView::Element(k, _) => Some(k),
        _ => None,
    }
}

/// The tree after a new node of content `k` is appended as the last child
/// of `parent`.
pub open spec fn append_view(v: Seq<NodeView>, parent: usize, k: KindView) -> Seq<NodeView> {
    let id = v.len() as usize;
    let p = v[parent as int];
    let linked = match p.last_child {
        Some(l) => v.update(l as int, NodeView { next_sibling: Some(id), ..v[l as int] }),
        None => v.update(parent as int, NodeView { first_child: Some(id), ..p }),
    };
    linked.update(parent as int, NodeView { last_child: Some(id), ..linked[parent as int] }).push(
        NodeView {
            kind: k,
            parent: Some(parent),
            first_child: None,
            last_child: None,
            previous_sibling: p.last_child,
            next_sibling: None,
        },
    )
}

/// The tree after `c` is appended to the text of node `id`.
pub open spec fn push_text_view(v: Seq<NodeView>, id: usize, c: char) -> Seq<NodeView> {
    v.update(
        id as int,
        NodeView {
            kind: match v[id as int].kind {
                KindView::Text(s) => KindView::Text(s.push(c)),
                k => k,
            },
            ..v[id as int]
        },
    )
}

} // verus!
