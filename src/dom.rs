//! The document tree: elements, text and the document root, kept in an
//! arena owned by a `Window` and linked by node indices.
use vstd::prelude::*;
use crate::text::same_chars;

verus! {

/// One `name="value"` pair of a start tag.
#[derive(Debug, PartialEq, Eq)]
pub struct Attribute {
    pub name: String,
    pub value: String,
}

impl Clone for Attribute {
    fn clone(&self) -> (r: Self)
        ensures
            r == *self,
    {
        Attribute { name: self.name.clone(), value: self.value.clone() }
    }
}

impl Attribute {
    pub fn new() -> (r: Self)
        ensures
            r.name@ == Seq::<char>::empty(),
            r.value@ == Seq::<char>::empty(),
    {
        Attribute { name: String::new(), value: String::new() }
    }

    /// Appends `c` to the name when `is_name` holds, else to the value.
    pub fn add_char(&mut self, c: char, is_name: bool)
        ensures
            is_name ==> final(self).name@ == old(self).name@.push(c) && final(self).value
                == old(self).value,
            !is_name ==> final(self).value@ == old(self).value@.push(c) && final(self).name
                == old(self).name,
    {
        if is_name {
            crate::text::push_char(&mut self.name, c);
        } else {
            crate::text::push_char(&mut self.value, c);
        }
    }

    pub fn name(&self) -> (r: String)
        ensures
            r == self.name,
    {
        self.name.clone()
    }

    pub fn value(&self) -> (r: String)
        ensures
            r == self.value,
    {
        self.value.clone()
    }
}

/// An attribute as (name, value).
pub open spec fn attr_views(a: Seq<Attribute>) -> Seq<(Seq<char>, Seq<char>)> {
    a.map_values(|x: Attribute| (x.name@, x.value@))
}

/// The tags this engine knows.
#[derive(Debug, Clone, Copy, PartialEq, Eq, Structural)]
pub enum ElementKind {
    Html,
    Head,
    Style,
    Script,
    Body,
    P,
    H1,
    H2,
    A,
}

/// The tag kind a name stands for, if it is one of the known tags.
pub open spec fn element_kind_of(s: Seq<char>) -> Option<ElementKind> {
    if s == "html"@ {
        Some(ElementKind::Html)
    } else if s == "head"@ {
        Some(ElementKind::Head)
    } else if s == "style"@ {
        Some(ElementKind::Style)
    } else if s == "script"@ {
        Some(ElementKind::Script)
    } else if s == "body"@ {
        Some(ElementKind::Body)
    } else if s == "p"@ {
        Some(ElementKind::P)
    } else if s == "h1"@ {
        Some(ElementKind::H1)
    } else if s == "h2"@ {
        Some(ElementKind::H2)
    } else if s == "a"@ {
        Some(ElementKind::A)
    } else {
        None
    }
}

/// The tag name of a kind.
pub open spec fn element_name(k: ElementKind) -> Seq<char> {
    match k {
        ElementKind::Html => "html"@,
        ElementKind::Head => "head"@,
        ElementKind::Style => "style"@,
        ElementKind::Script => "script"@,
        ElementKind::Body => "body"@,
        ElementKind::P => "p"@,
        ElementKind::H1 => "h1"@,
        ElementKind::H2 => "h2"@,
        ElementKind::A => "a"@,
    }
}

/// Elements laid out as blocks unless a style says otherwise.
pub open spec fn is_block_kind(k: ElementKind) -> bool {
    k == ElementKind::Body || k == ElementKind::H1 || k == ElementKind::H2 || k == ElementKind::P
}

impl ElementKind {
    /// The kind named by `s`, or `None` for a tag this engine does not know.
    pub fn from_name(s: &str) -> (r: Option<ElementKind>)
        ensures
            r == element_kind_of(s@),
    {
        if same_chars(s, "html") {
            Some(ElementKind::Html)
        } else if same_chars(s, "head") {
            Some(ElementKind::Head)
        } else if same_chars(s, "style") {
            Some(ElementKind::Style)
        } else if same_chars(s, "script") {
            Some(ElementKind::Script)
        } else if same_chars(s, "body") {
            Some(ElementKind::Body)
        } else if same_chars(s, "p") {
            Some(ElementKind::P)
        } else if same_chars(s, "h1") {
            Some(ElementKind::H1)
        } else if same_chars(s, "h2") {
            Some(ElementKind::H2)
        } else if same_chars(s, "a") {
            Some(ElementKind::A)
        } else {
            None
        }
    }

    /// The tag name of this kind.
    pub fn name(&self) -> (r: &'static str)
        ensures
            r@ == element_name(*self),
    {
        match self {
            ElementKind::Html => "html",
            ElementKind::Head => "head",
            ElementKind::Style => "style",
            ElementKind::Script => "script",
            ElementKind::Body => "body",
            ElementKind::P => "p",
            ElementKind::H1 => "h1",
            ElementKind::H2 => "h2",
            ElementKind::A => "a",
        }
    }
}

#[derive(Debug, PartialEq, Eq)]
pub struct Element {
    pub kind: ElementKind,
    pub attributes: Vec<Attribute>,
}

/// Two elements of the same tag with the same attributes.
pub open spec fn same_element(a: Element, b: Element) -> bool {
    a.kind == b.kind && a.attributes@ == b.attributes@
}

impl Clone for Element {
    fn clone(&self) -> (r: Self)
        ensures
            same_element(r, *self),
    {
        Element { kind: self.kind, attributes: clone_attributes(&self.attributes) }
    }
}

/// A copy of an attribute list.
pub fn clone_attributes(v: &Vec<Attribute>) -> (r: Vec<Attribute>)
    ensures
        r@ == v@,
{
    let mut r: Vec<Attribute> = Vec::new();
    let mut i: usize = 0;
    while i < v.len()
        invariant
            i <= v@.len(),
            r@ == v@.subrange(0, i as int),
        decreases v@.len() - i,
    {
        r.push(v[i].clone());
        i = i + 1;
    }
    r
}

impl Element {
    /// An element of the tag `element_name`, which must be a known tag.
    pub fn new(element_name: &str, attributes: Vec<Attribute>) -> (r: Self)
        requires
            element_kind_of(element_name@) is Some,
        ensures
            Some(r.kind) == element_kind_of(element_name@),
            r.attributes == attributes,
    {
        let kind = match ElementKind::from_name(element_name) {
            Some(k) => k,
            None => ElementKind::Html,
        };
        Element { kind, attributes }
    }

    pub fn kind(&self) -> (r: ElementKind)
        ensures
            r == self.kind,
    {
        self.kind
    }

    /// Whether this element is laid out as a block by default.
    pub fn is_block_element(&self) -> (r: bool)
        ensures
            r == is_block_kind(self.kind),
    {
        match self.kind {
            ElementKind::Body | ElementKind::H1 | ElementKind::H2 | ElementKind::P => true,
            _ => false,
        }
    }

    pub fn attributes(&self) -> (r: Vec<Attribute>)
        ensures
            r@ == self.attributes@,
    {
        clone_attributes(&self.attributes)
    }
}

#[derive(Debug)]
pub enum NodeKind {
    Document,
    Element(Element),
    Text(String),
}

/// Two node kinds are alike when both are the document, both are text, or
/// both are elements of the same tag; content and attributes do not count.
pub open spec fn same_node_kind(a: NodeKind, b: NodeKind) -> bool {
    match (a, b) {
        (NodeKind::Document, NodeKind::Document) => true,
        (NodeKind::Element(x), NodeKind::Element(y)) => x.kind == y.kind,
        (NodeKind::Text(_), NodeKind::Text(_)) => true,
        _ => false,
    }
}

/// Two node kinds with the same content: the same tag and attributes, or
/// the same text.
pub open spec fn same_content(a: NodeKind, b: NodeKind) -> bool {
    match (a, b) {
        (NodeKind::Document, NodeKind::Document) => true,
        (NodeKind::Element(x), NodeKind::Element(y)) => same_element(x, y),
        (NodeKind::Text(x), NodeKind::Text(y)) => x@ == y@,
        _ => false,
    }
}

impl Clone for NodeKind {
    fn clone(&self) -> (r: Self)
        ensures
            same_content(r, *self),
    {
        match self {
            NodeKind::Document => NodeKind::Document,
            NodeKind::Element(e) => NodeKind::Element(e.clone()),
            NodeKind::Text(s) => NodeKind::Text(s.clone()),
        }
    }
}

impl PartialEq for NodeKind {
    fn eq(&self, other: &NodeKind) -> (r: bool)
        ensures
            r == same_node_kind(*self, *other),
    {
        match (self, other) {
            (NodeKind::Document, NodeKind::Document) => true,
            (NodeKind::Element(x), NodeKind::Element(y)) => x.kind == y.kind,
            (NodeKind::Text(_), NodeKind::Text(_)) => true,
            _ => false,
        }
    }
}

impl vstd::std_specs::cmp::PartialEqSpecImpl for NodeKind {
    open spec fn obeys_eq_spec() -> bool {
        true
    }

    open spec fn eq_spec(&self, other: &NodeKind) -> bool {
        same_node_kind(*self, *other)
    }
}

/// One node of the document tree. The links are indices into the arena of
/// the `Window` that owns the node: `first_child` and `next_sibling` own
/// what they point at, the others are lookup aids.
#[derive(Debug)]
pub struct Node {
    pub kind: NodeKind,
    pub parent: Option<usize>,
    pub first_child: Option<usize>,
    pub last_child: Option<usize>,
    pub previous_sibling: Option<usize>,
    pub next_sibling: Option<usize>,
}

impl Clone for Node {
    fn clone(&self) -> (r: Self)
        ensures
            same_content(r.kind, self.kind),
            r.parent == self.parent,
            r.first_child == self.first_child,
            r.last_child == self.last_child,
            r.previous_sibling == self.previous_sibling,
            r.next_sibling == self.next_sibling,
    {
        Node {
            kind: self.kind.clone(),
            parent: self.parent,
            first_child: self.first_child,
            last_child: self.last_child,
            previous_sibling: self.previous_sibling,
            next_sibling: self.next_sibling,
        }
    }
}

impl PartialEq for Node {
    fn eq(&self, other: &Node) -> (r: bool)
        ensures
            r == same_node_kind(self.kind, other.kind),
    {
        self.kind == other.kind
    }
}

impl vstd::std_specs::cmp::PartialEqSpecImpl for Node {
    open spec fn obeys_eq_spec() -> bool {
        true
    }

    open spec fn eq_spec(&self, other: &Node) -> bool {
        same_node_kind(self.kind, other.kind)
    }
}

pub open spec fn element_kind_of_node(k: NodeKind) -> Option<ElementKind> {
    match k {
        NodeKind::Element(e) => Some(e.kind),
        _ => None,
    }
}

impl Node {
    /// A node of the given kind with no links.
    pub fn new(kind: NodeKind) -> (r: Self)
        ensures
            r.kind == kind,
            r.parent is None,
            r.first_child is None,
            r.last_child is None,
            r.previous_sibling is None,
            r.next_sibling is None,
    {
        Node {
            kind,
            parent: None,
            first_child: None,
            last_child: None,
            previous_sibling: None,
            next_sibling: None,
        }
    }

    pub fn set_parent(&mut self, parent: Option<usize>)
        ensures
            *final(self) == (Node { parent, ..*old(self) }),
    {
        self.parent = parent;
    }

    pub fn parent(&self) -> (r: Option<usize>)
        ensures
            r == self.parent,
    {
        self.parent
    }

    pub fn set_first_child(&mut self, first_child: Option<usize>)
        ensures
            *final(self) == (Node { first_child, ..*old(self) }),
    {
        self.first_child = first_child;
    }

    pub fn first_child(&self) -> (r: Option<usize>)
        ensures
            r == self.first_child,
    {
        self.first_child
    }

    pub fn set_last_child(&mut self, last_child: Option<usize>)
        ensures
            *final(self) == (Node { last_child, ..*old(self) }),
    {
        self.last_child = last_child;
    }

    pub fn last_child(&self) -> (r: Option<usize>)
        ensures
            r == self.last_child,
    {
        self.last_child
    }

    pub fn set_previous_sibling(&mut self, previous_sibling: Option<usize>)
        ensures
            *final(self) == (Node { previous_sibling, ..*old(self) }),
    {
        self.previous_sibling = previous_sibling;
    }

    pub fn previous_sibling(&self) -> (r: Option<usize>)
        ensures
            r == self.previous_sibling,
    {
        self.previous_sibling
    }

    pub fn set_next_sibling(&mut self, next_sibling: Option<usize>)
        ensures
            *final(self) == (Node { next_sibling, ..*old(self) }),
    {
        self.next_sibling = next_sibling;
    }

    pub fn next_sibling(&self) -> (r: Option<usize>)
        ensures
            r == self.next_sibling,
    {
        self.next_sibling
    }

    pub fn kind(&self) -> (r: NodeKind)
        ensures
            same_content(r, self.kind),
    {
        self.kind.clone()
    }

    pub fn get_element(&self) -> (r: Option<Element>)
        ensures
            match self.kind {
                NodeKind::Element(e) => r matches Some(x) && same_element(x, e),
                _ => r is None,
            },
    {
        match &self.kind {
            NodeKind::Element(e) => Some(e.clone()),
            _ => None,
        }
    }

    pub fn element_kind(&self) -> (r: Option<ElementKind>)
        ensures
            r == element_kind_of_node(self.kind),
    {
        match &self.kind {
            NodeKind::Element(e) => Some(e.kind),
            _ => None,
        }
    }
}

} // verus!
