//! The layout tree: built from the document and the style sheet, sized,
//! positioned and painted.
use vstd::prelude::*;
use crate::cssom::{Declaration, StyleSheet};
use crate::dom::{same_content, ElementKind, NodeKind};
use crate::layout::{
    item_views, object_items, ItemView, DisplayItem, LayoutObject, LayoutObjectKind, LayoutPoint, LayoutSize, CONTENT_AREA_WIDTH,
};
use crate::style::{cascade_rules, defaulted, is_resolved, selects, ComputedStyle, DisplayType};
use crate::window::{arena_measure, find_kind, get_target_element_node, links_wf, tree_wf, Window};

verus! {

/// A well-formed set of layout objects: child and sibling links point
/// forward, parent links backward, and every object has a resolved style
/// whose display is not `none`.
pub open spec fn objects_wf(objs: Seq<LayoutObject>) -> bool {
    forall|i: int| 0 <= i < objs.len() ==> #[trigger] object_wf(objs, i)
}

pub open spec fn object_wf(objs: Seq<LayoutObject>, i: int) -> bool {
    let o = objs[i];
    &&& crate::window::forward(i, o.first_child, objs.len() as int)
    &&& crate::window::forward(i, o.next_sibling, objs.len() as int)
    &&& crate::window::backward(i, o.parent)
    &&& is_resolved(o.style)
    &&& o.style.display != Some(DisplayType::DisplayNone)
}

/// Every object stands for a node of the document (and holds that node's
/// content), and an object's parent
/// object stands for its node's parent. With `objects_wf` (no object has
/// display `none`), a node whose display is `none` has no object, so no
/// node under it has one either: the layout tree holds no part of a
/// display:none subtree.
pub open spec fn mirrors(objs: Seq<LayoutObject>, nodes: Seq<crate::dom::Node>) -> bool {
    forall|i: int| 0 <= i < objs.len() ==> #[trigger] mirrors_at(objs, nodes, i)
}

pub open spec fn mirrors_at(objs: Seq<LayoutObject>, nodes: Seq<crate::dom::Node>, i: int) -> bool {
    &&& objs[i].node < nodes.len()
    &&& same_content(objs[i].node_kind, nodes[objs[i].node as int].kind)
    &&& (objs[i].parent matches Some(p) ==> nodes[objs[i].node as int].parent == Some(
        objs[p as int].node,
    ))
}

/// A node without a layout object (one whose display resolved to `none`)
/// has no laid-out child: every object that has a parent object stands for
/// a child of a node that has an object.
pub proof fn no_object_under_node_without_object(
    objs: Seq<LayoutObject>,
    nodes: Seq<crate::dom::Node>,
    d: usize,
    i: int,
)
    requires
        objects_wf(objs),
        mirrors(objs, nodes),
        0 <= i < objs.len(),
        objs[i].parent is Some,
        forall|j: int| 0 <= j < objs.len() ==> (#[trigger] objs[j]).node != d,
    ensures
        nodes[objs[i].node as int].parent != Some(d),
{
    assert(mirrors_at(objs, nodes, i));
    assert(object_wf(objs, i));
    let p = objs[i].parent->Some_0;
    assert(objs[p as int].node != d);
}

proof fn lemma_same_shape_mirrors(a: Seq<LayoutObject>, b: Seq<LayoutObject>, nodes: Seq<crate::dom::Node>)
    requires
        objects_wf(a),
        mirrors(a, nodes),
        same_shape(a, b),
    ensures
        mirrors(b, nodes),
{
    assert forall|i: int| 0 <= i < b.len() implies #[trigger] mirrors_at(b, nodes, i) by {
        assert(mirrors_at(a, nodes, i));
        assert(object_wf(a, i));
        if let Some(p) = b[i].parent {
            assert(a[p as int].node == b[p as int].node);
        }
    }
}

/// Two object sequences with the same links, kinds, nodes and styles.
pub open spec fn same_shape(a: Seq<LayoutObject>, b: Seq<LayoutObject>) -> bool {
    &&& a.len() == b.len()
    &&& forall|i: int|
        0 <= i < a.len() ==> {
            &&& (#[trigger] a[i]).first_child == b[i].first_child
            &&& a[i].next_sibling == b[i].next_sibling
            &&& a[i].parent == b[i].parent
            &&& a[i].kind == b[i].kind
            &&& a[i].style == b[i].style
            &&& a[i].node == b[i].node
            &&& a[i].node_kind == b[i].node_kind
        }
}

proof fn lemma_same_shape_wf(a: Seq<LayoutObject>, b: Seq<LayoutObject>)
    requires
        objects_wf(a),
        same_shape(a, b),
    ensures
        objects_wf(b),
{
    assert forall|i: int| 0 <= i < b.len() implies #[trigger] object_wf(b, i) by {
        assert(object_wf(a, i));
    }
}

/// Whether two node kinds select alike: a selector picks one exactly when
/// it picks the other.
proof fn lemma_selects_same_content(rules: Seq<crate::cssom::QualifiedRule>, s: ComputedStyle, a: NodeKind, b: NodeKind)
    requires
        same_content(a, b),
    ensures
        cascade_rules(s, rules, a) == cascade_rules(s, rules, b),
    decreases rules.len(),
{
    if rules.len() > 0 {
        lemma_selects_same_content(rules.drop_last(), s, a, b);
        assert(selects(rules.last().selector, a) == selects(rules.last().selector, b));
    }
}

proof fn lemma_defaulted_same_content(s: ComputedStyle, a: NodeKind, b: NodeKind, p: Option<ComputedStyle>)
    requires
        same_content(a, b),
    ensures
        defaulted(s, a, p) == defaulted(s, b, p),
        crate::layout::kind_for(a, DisplayType::Block) == crate::layout::kind_for(b, DisplayType::Block),
        crate::layout::kind_for(a, DisplayType::Inline) == crate::layout::kind_for(b, DisplayType::Inline),
{
    assert(crate::style::default_display(a) == crate::style::default_display(b));
    assert(crate::style::default_font_size(a) == crate::style::default_font_size(b));
    assert(crate::style::default_text_decoration(a) == crate::style::default_text_decoration(b));
}

/// The style a node gets: the sheet's matching rules in order, then the
/// defaults and what it inherits from `parent`.
pub open spec fn resolved_style(sheet: StyleSheet, k: NodeKind, parent: Option<ComputedStyle>) -> ComputedStyle {
    defaulted(cascade_rules(ComputedStyle::new_spec(), sheet.rules@, k), k, parent)
}

/// Style resolution depends on a node's content alone: two nodes of the
/// same tag with the same attributes (or two text nodes), under parents of
/// the same style, get the same computed style and the same kind of layout
/// object. So parsing the same input twice gives the same styles.
pub proof fn resolved_style_depends_on_content(
    sheet: StyleSheet,
    a: NodeKind,
    b: NodeKind,
    parent: Option<ComputedStyle>,
)
    requires
        same_content(a, b),
    ensures
        resolved_style(sheet, a, parent) == resolved_style(sheet, b, parent),
        resolved_style(sheet, a, parent).display is Some ==> crate::layout::kind_for(
            a,
            resolved_style(sheet, a, parent).display->Some_0,
        ) == crate::layout::kind_for(b, resolved_style(sheet, b, parent).display->Some_0),
{
    lemma_selects_same_content(sheet.rules@, ComputedStyle::new_spec(), a, b);
    lemma_defaulted_same_content(
        cascade_rules(ComputedStyle::new_spec(), sheet.rules@, a),
        a,
        b,
        parent,
    );
    let d = resolved_style(sheet, a, parent).display->Some_0;
    if d != DisplayType::Block && d != DisplayType::Inline {
        assert(crate::layout::kind_for(a, d) == crate::layout::kind_for(b, d));
    }
}


/// A layout object as what the builder decides: its kind, node, links and
/// style (not its position and size, which layout fills in).
pub struct ObjView {
    pub kind: LayoutObjectKind,
    pub node: usize,
    pub parent: Option<usize>,
    pub first_child: Option<usize>,
    pub next_sibling: Option<usize>,
    pub style: ComputedStyle,
}

pub open spec fn obj_view(o: LayoutObject) -> ObjView {
    ObjView {
        kind: o.kind,
        node: o.node,
        parent: o.parent,
        first_child: o.first_child,
        next_sibling: o.next_sibling,
        style: o.style,
    }
}

pub open spec fn obj_views(s: Seq<LayoutObject>) -> Seq<ObjView> {
    s.map_values(|o: LayoutObject| obj_view(o))
}

/// The style node `t` is laid out with under a parent of style `ps`, or
/// `None` when it gets no object (the document, or display `none`).
pub open spec fn laid_out_style(
    nodes: Seq<crate::dom::Node>,
    sheet: StyleSheet,
    t: usize,
    ps: Option<ComputedStyle>,
) -> Option<ComputedStyle> {
    let k = nodes[t as int].kind;
    let st = resolved_style(sheet, k, ps);
    if k is Document || st.display == Some(DisplayType::DisplayNone) {
        None
    } else {
        Some(st)
    }
}

/// The first node from `node` along its sibling chain that is laid out.
pub open spec fn first_laid_out_node(
    nodes: Seq<crate::dom::Node>,
    sheet: StyleSheet,
    node: Option<usize>,
    ps: Option<ComputedStyle>,
) -> Option<usize>
    decreases arena_measure(nodes.len(), node),
{
    match node {
        None => None,
        Some(t) => if t >= nodes.len() {
            None
        } else if laid_out_style(nodes, sheet, t, ps) is Some {
            Some(t)
        } else {
            first_laid_out_node(nodes, sheet, crate::window::ahead(t, nodes[t as int].next_sibling), ps)
        },
    }
}

/// The objects built for `node` and its following siblings under the
/// object `parent_obj` (of style `ps`), numbered from `base`: each laid-out
/// node's object, then its children's objects, then its next laid-out
/// sibling's. Nodes that are not laid out are skipped with their subtrees.
pub open spec fn built(
    nodes: Seq<crate::dom::Node>,
    sheet: StyleSheet,
    node: Option<usize>,
    parent_obj: Option<usize>,
    ps: Option<ComputedStyle>,
    base: nat,
) -> Seq<ObjView>
    decreases arena_measure(nodes.len(), node),
{
    match first_laid_out_node(nodes, sheet, node, ps) {
        None => Seq::empty(),
        Some(t) => if node is None || t < node->Some_0 || t >= nodes.len() {
            Seq::empty()
        } else {
            let st = laid_out_style(nodes, sheet, t, ps)->Some_0;
            let children = built(
                nodes,
                sheet,
                crate::window::ahead(t, nodes[t as int].first_child),
                Some(base as usize),
                Some(st),
                base + 1,
            );
            let sibs = built(
                nodes,
                sheet,
                crate::window::ahead(t, nodes[t as int].next_sibling),
                parent_obj,
                ps,
                base + 1 + children.len(),
            );
            seq![
                ObjView {
                    kind: crate::layout::kind_for(nodes[t as int].kind, st.display->Some_0),
                    node: t,
                    parent: parent_obj,
                    first_child: if children.len() > 0 { Some((base + 1) as usize) } else { None },
                    next_sibling: if sibs.len() > 0 {
                        Some((base + 1 + children.len()) as usize)
                    } else {
                        None
                    },
                    style: st,
                },
            ] + children + sibs
        },
    }
}

proof fn lemma_first_laid_out_node(
    nodes: Seq<crate::dom::Node>,
    sheet: StyleSheet,
    node: Option<usize>,
    ps: Option<ComputedStyle>,
)
    requires
        tree_wf(nodes),
    ensures
        first_laid_out_node(nodes, sheet, node, ps) matches Some(t) ==> node is Some && node->Some_0
            <= t < nodes.len() && laid_out_style(nodes, sheet, t, ps) is Some,
    decreases arena_measure(nodes.len(), node),
{
    if let Some(t) = node {
        if t < nodes.len() && laid_out_style(nodes, sheet, t, ps) is None {
            lemma_first_laid_out_node(nodes, sheet, crate::window::ahead(t, nodes[t as int].next_sibling), ps);
        }
    }
}

proof fn lemma_same_shape_views(a: Seq<LayoutObject>, b: Seq<LayoutObject>)
    requires
        same_shape(a, b),
    ensures
        obj_views(a) == obj_views(b),
{
    assert(obj_views(a) =~= obj_views(b));
}

/// A layout object for DOM node `node`, styled by the sheet and inheriting
/// from `parent_obj`, or `None` when the node is the document or its display
/// resolves to `none`.
pub fn create_layout_object(
    window: &Window,
    node: usize,
    parent_obj: Option<usize>,
    cssom: &StyleSheet,
    objects: &Vec<LayoutObject>,
) -> (r: Option<LayoutObject>)
    requires
        window.wf(),
        node < window@.len(),
        parent_obj matches Some(p) ==> p < objects@.len() && is_resolved(objects@[p as int].style),
    ensures
        ({
            let k = window@[node as int].kind;
            let ps = match parent_obj {
                Some(p) => Some(objects@[p as int].style),
                None => None,
            };
            let st = resolved_style(*cssom, k, ps);
            &&& r is None <==> (k is Document || st.display == Some(DisplayType::DisplayNone))
            &&& r matches Some(o) ==> {
                &&& same_content(o.node_kind, k)
                &&& o.style == st
                &&& o.kind == crate::layout::kind_for(k, st.display->Some_0)
                &&& o.node == node
                &&& o.parent == parent_obj
                &&& o.first_child is None
                &&& o.next_sibling is None
                &&& is_resolved(o.style)
            }
        }),
{
    let nk = window.node(node).kind();
    if let NodeKind::Document = nk {
        return None;
    }
    let ghost k = window@[node as int].kind;
    let mut obj = LayoutObject::new(node, nk, parent_obj);
    let mut i: usize = 0;
    while i < cssom.rules.len()
        invariant
            i <= cssom.rules@.len(),
            obj.style == cascade_rules(ComputedStyle::new_spec(), cssom.rules@.subrange(0, i as int), obj.node_kind),
            same_content(obj.node_kind, k),
            obj.node == node,
            obj.parent == parent_obj,
            obj.first_child is None,
            obj.next_sibling is None,
        decreases cssom.rules@.len() - i,
    {
        proof {
            assert(cssom.rules@.subrange(0, i + 1).drop_last() == cssom.rules@.subrange(0, i as int));
        }
        if obj.is_node_selected(&cssom.rules[i].selector) {
            obj.cascading_style(&cssom.rules[i].declarations);
        }
        i = i + 1;
    }
    proof {
        assert(cssom.rules@.subrange(0, i as int) == cssom.rules@);
        lemma_selects_same_content(cssom.rules@, ComputedStyle::new_spec(), obj.node_kind, k);
    }
    let parent_style = match parent_obj {
        Some(p) => Some(objects[p].style),
        None => None,
    };
    obj.defaulting_style(parent_style);
    proof {
        lemma_defaulted_same_content(
            cascade_rules(ComputedStyle::new_spec(), cssom.rules@, k),
            obj.node_kind,
            k,
            parent_style,
        );
    }
    if obj.style.display() == DisplayType::DisplayNone {
        return None;
    }
    obj.update_kind();
    Some(obj)
}

/// The first node from `node` along its sibling chain that gets a layout
/// object, with that object.
fn first_laid_out(
    window: &Window,
    node: Option<usize>,
    parent_obj: Option<usize>,
    cssom: &StyleSheet,
    objects: &Vec<LayoutObject>,
) -> (r: Option<(usize, LayoutObject)>)
    requires
        window.wf(),
        parent_obj matches Some(p) ==> p < objects@.len() && is_resolved(objects@[p as int].style),
    ensures
        r matches Some((t, o)) ==> same_content(o.node_kind, window@[t as int].kind),
        r matches Some((t, o)) ==> node matches Some(n) && n <= t < window@.len() && o.node == t
            && o.parent == parent_obj && o.first_child is None && o.next_sibling is None
            && is_resolved(o.style) && o.style.display != Some(DisplayType::DisplayNone),
        node is None ==> r is None,
        r matches Some((t, o)) ==> (node is Some && node->Some_0 < window@.len() ==> window@[t as int].parent
            == window@[node->Some_0 as int].parent),
        ({
            let ps = match parent_obj {
                Some(p) => Some(objects@[p as int].style),
                None => None,
            };
            &&& (r is None <==> first_laid_out_node(window@, *cssom, node, ps) is None)
            &&& (r matches Some((t, o)) ==> first_laid_out_node(window@, *cssom, node, ps) == Some(t)
                && Some(o.style) == laid_out_style(window@, *cssom, t, ps) && o.kind
                == crate::layout::kind_for(window@[t as int].kind, o.style.display->Some_0))
        }),
{
    let ghost ps = match parent_obj {
        Some(p) => Some(objects@[p as int].style),
        None => None,
    };
    let mut target = node;
    loop
        invariant
            window.wf(),
            parent_obj matches Some(p) ==> p < objects@.len() && is_resolved(objects@[p as int].style),
            target matches Some(t) ==> node matches Some(n) && n <= t,
            target matches Some(t) ==> (node is Some && node->Some_0 < window@.len() && t < window@.len()
                ==> window@[t as int].parent == window@[node->Some_0 as int].parent),
            ps == match parent_obj {
                Some(p) => Some(objects@[p as int].style),
                None => None,
            },
            first_laid_out_node(window@, *cssom, target, ps) == first_laid_out_node(window@, *cssom, node, ps),
        decreases arena_measure(window@.len(), target),
    {
        let t = match target {
            None => return None,
            Some(t) => t,
        };
        if t >= window.len() {
            return None;
        }
        if let Some(o) = create_layout_object(window, t, parent_obj, cssom, objects) {
            return Some((t, o));
        }
        proof {
            assert(links_wf(window@, t as int));
        }
        target = window.node(t).next_sibling;
        assert(crate::window::ahead(t, window@[t as int].next_sibling) == target);
    }
}

/// Builds the layout tree for `node` and the siblings after it, under
/// `parent_obj`, appending the objects to `objects`. Nodes whose display is
/// `none` are left out with their whole subtree; the next sibling that is
/// laid out takes their place. Returns the first object built.
fn build_layout_tree(
    window: &Window,
    node: Option<usize>,
    parent_obj: Option<usize>,
    cssom: &StyleSheet,
    objects: &mut Vec<LayoutObject>,
) -> (r: Option<usize>)
    requires
        window.wf(),
        objects_wf(old(objects)@),
        mirrors(old(objects)@, window@),
        parent_obj matches Some(p) ==> p < old(objects)@.len(),
        parent_obj matches Some(p) ==> (node is Some && node->Some_0 < window@.len() ==> window@[node->Some_0 as int].parent
            == Some(old(objects)@[p as int].node)),
    ensures
        objects_wf(final(objects)@),
        mirrors(final(objects)@, window@),
        final(objects)@.len() >= old(objects)@.len(),
        forall|i: int| 0 <= i < old(objects)@.len() ==> #[trigger] final(objects)@[i] == old(objects)@[i],
        r matches Some(x) ==> old(objects)@.len() <= x < final(objects)@.len() && final(objects)@[x as int].parent == parent_obj,
        r is None ==> final(objects)@.len() == old(objects)@.len(),
        node is None ==> r is None,
        ({
            let ps = match parent_obj {
                Some(p) => Some(old(objects)@[p as int].style),
                None => None,
            };
            let b = built(window@, *cssom, node, parent_obj, ps, old(objects)@.len());
            &&& obj_views(final(objects)@.subrange(old(objects)@.len() as int, final(objects)@.len() as int)) == b
            &&& r == if b.len() > 0 { Some(old(objects)@.len() as usize) } else { None }
        }),
    decreases arena_measure(window@.len(), node),
{
    proof {
        if let Some(p) = parent_obj {
            assert(object_wf(objects@, p as int));
        }
    }
    let ghost ps = match parent_obj {
        Some(p) => Some(objects@[p as int].style),
        None => None,
    };
    proof {
        lemma_first_laid_out_node(window@, *cssom, node, ps);
    }
    let (t, obj) = match first_laid_out(window, node, parent_obj, cssom, objects) {
        Some(x) => x,
        None => {
            assert(objects@.subrange(objects@.len() as int, objects@.len() as int) =~= Seq::<LayoutObject>::empty());
            assert(obj_views(Seq::<LayoutObject>::empty()) =~= Seq::<ObjView>::empty());
            return None;
        },
    };
    let id = objects.len();
    objects.push(obj);
    proof {
        assert(links_wf(window@, t as int));
        assert forall|i: int| 0 <= i < objects@.len() implies #[trigger] object_wf(objects@, i) by {
            if i < id {
                assert(object_wf(old(objects)@, i));
            }
        }
        assert forall|i: int| 0 <= i < objects@.len() implies #[trigger] mirrors_at(objects@, window@, i) by {
            if i < id {
                assert(mirrors_at(old(objects)@, window@, i));
                assert(object_wf(old(objects)@, i));
            }
        }
    }
    let ghost mid1 = objects@;
    let dom_first = window.node(t).first_child;
    let dom_next = window.node(t).next_sibling;
    proof {
        if let Some(p) = parent_obj {
            assert(objects@[p as int] == old(objects)@[p as int]);
        }
    }
    let first_child = build_layout_tree(window, dom_first, Some(id), cssom, objects);
    let ghost mid2 = objects@;
    proof {
        if let Some(p) = parent_obj {
            assert(mid2[p as int] == mid1[p as int]);
        }
    }
    let next_sibling = build_layout_tree(window, dom_next, parent_obj, cssom, objects);
    let ghost before = objects@;
    assert(before[id as int] == mid1[id as int]);
    objects[id].first_child = first_child;
    objects[id].next_sibling = next_sibling;
    proof {
        let st = obj.style;
        assert(laid_out_style(window@, *cssom, t, ps) == Some(st));
        let cv = built(window@, *cssom, crate::window::ahead(t, window@[t as int].first_child), Some(id), Some(st), (id + 1) as nat);
        let sv = built(window@, *cssom, crate::window::ahead(t, window@[t as int].next_sibling), parent_obj, ps, mid2.len());
        assert(crate::window::ahead(t, window@[t as int].first_child) == dom_first);
        assert(crate::window::ahead(t, window@[t as int].next_sibling) == dom_next);
        assert(mid1[id as int].style == st);
        if let Some(p) = parent_obj {
            assert(mid2[p as int] == old(objects)@[p as int]);
        }
        assert(obj_views(mid2.subrange(id + 1, mid2.len() as int)) == cv);
        assert(obj_views(before.subrange(mid2.len() as int, before.len() as int)) == sv);
        assert(mid2.len() == id + 1 + cv.len());
        let whole = objects@.subrange(id as int, objects@.len() as int);
        assert(obj_views(whole) =~= seq![obj_view(objects@[id as int])] + cv + sv) by {
            assert forall|k: int| 0 <= k < whole.len() implies #[trigger] obj_views(whole)[k] == (seq![obj_view(objects@[id as int])] + cv + sv)[k] by {
                if k == 0 {
                } else if k < 1 + cv.len() {
                    assert(whole[k] == mid2[id + k]);
                    assert(obj_views(mid2.subrange(id + 1, mid2.len() as int))[k - 1] == obj_view(mid2[id + k]));
                } else {
                    assert(whole[k] == before[id + k]);
                    assert(obj_views(before.subrange(mid2.len() as int, before.len() as int))[k - 1 - cv.len()] == obj_view(before[id + k]));
                }
            }
        }
        assert forall|i: int| 0 <= i < objects@.len() implies #[trigger] object_wf(objects@, i) by {
            assert(object_wf(before, i));
        }
        assert forall|i: int| 0 <= i < objects@.len() implies #[trigger] mirrors_at(objects@, window@, i) by {
            assert(mirrors_at(before, window@, i));
            assert(object_wf(before, i));
            if let Some(p) = objects@[i].parent {
                assert(objects@[p as int].node == before[p as int].node);
            }
        }
        assert forall|i: int| 0 <= i < old(objects)@.len() implies #[trigger] objects@[i] == old(objects)@[i] by {
            assert(mid1[i] == old(objects)@[i]);
            assert(mid2[i] == mid1[i]);
        }
    }
    Some(id)
}

/// The kinds and sizes of the objects along the sibling chain from `c`.
pub open spec fn children_of(objs: Seq<LayoutObject>, c: Option<usize>) -> Seq<(LayoutObjectKind, LayoutSize)>
    decreases arena_measure(objs.len(), c),
{
    match c {
        None => Seq::empty(),
        Some(i) => if i >= objs.len() {
            Seq::empty()
        } else {
            seq![(objs[i as int].kind, objs[i as int].size)] + children_of(
                objs,
                crate::window::ahead(i, objs[i as int].next_sibling),
            )
        },
    }
}

/// Object `n` sized by `size_rule` from `ps` and its children as they are.
pub open spec fn resize(objs: Seq<LayoutObject>, n: usize, ps: LayoutSize) -> Seq<LayoutObject> {
    objs.update(
        n as int,
        LayoutObject {
            size: crate::layout::size_rule(objs[n as int], ps, children_of(objs, objs[n as int].first_child)),
            ..objs[n as int]
        },
    )
}

/// The size pass over `node`, its subtree and the siblings after it: a
/// block is sized once before its children (to fix its width for them),
/// then every object is sized after its children and later siblings.
/// `len` is the number of objects, which the pass does not change.
pub open spec fn size_pass(objs: Seq<LayoutObject>, node: Option<usize>, ps: LayoutSize, len: nat) -> Seq<LayoutObject>
    decreases arena_measure(len, node),
{
    match node {
        None => objs,
        Some(n) => if n >= len || n >= objs.len() {
            objs
        } else {
            let o1 = if objs[n as int].kind == LayoutObjectKind::Block {
                resize(objs, n, ps)
            } else {
                objs
            };
            let o2 = size_pass(o1, crate::window::ahead(n, o1[n as int].first_child), o1[n as int].size, len);
            let o3 = size_pass(o2, crate::window::ahead(n, o2[n as int].next_sibling), ps, len);
            resize(o3, n, ps)
        },
    }
}

/// Object `n` placed by `position_for`.
pub open spec fn place(
    objs: Seq<LayoutObject>,
    n: usize,
    pp: LayoutPoint,
    pk: LayoutObjectKind,
    ppt: Option<LayoutPoint>,
    psz: Option<LayoutSize>,
) -> Seq<LayoutObject> {
    objs.update(
        n as int,
        LayoutObject { point: crate::layout::position_for(objs[n as int].kind, pp, pk, ppt, psz), ..objs[n as int] },
    )
}

/// The position pass over `node`, its subtree and the siblings after it:
/// each object is placed from its parent's position and the object before
/// it, before its children are placed.
pub open spec fn position_pass(
    objs: Seq<LayoutObject>,
    node: Option<usize>,
    pp: LayoutPoint,
    pk: LayoutObjectKind,
    ppt: Option<LayoutPoint>,
    psz: Option<LayoutSize>,
    len: nat,
) -> Seq<LayoutObject>
    decreases arena_measure(len, node),
{
    match node {
        None => objs,
        Some(n) => if n >= len || n >= objs.len() {
            objs
        } else {
            let o1 = place(objs, n, pp, pk, ppt, psz);
            let o2 = position_pass(
                o1,
                crate::window::ahead(n, o1[n as int].first_child),
                o1[n as int].point,
                LayoutObjectKind::Block,
                None,
                None,
                len,
            );
            position_pass(
                o2,
                crate::window::ahead(n, o2[n as int].next_sibling),
                pp,
                o2[n as int].kind,
                Some(o2[n as int].point),
                Some(o2[n as int].size),
                len,
            )
        },
    }
}

/// Layout of a built tree rooted at `root`: the size pass from the content
/// width, then the position pass from the origin.
pub open spec fn layout_passes(objs: Seq<LayoutObject>, root: Option<usize>) -> Seq<LayoutObject> {
    position_pass(
        size_pass(objs, root, LayoutSize { width: CONTENT_AREA_WIDTH, height: 0 }, objs.len()),
        root,
        LayoutPoint { x: 0, y: 0 },
        LayoutObjectKind::Block,
        None,
        None,
        objs.len(),
    )
}

/// The kinds and sizes of `objects[n]`'s children, in order.
fn children_info(objects: &Vec<LayoutObject>, n: usize) -> (r: Vec<(LayoutObjectKind, LayoutSize)>)
    requires
        objects_wf(objects@),
        n < objects@.len(),
    ensures
        r@ == children_of(objects@, objects@[n as int].first_child),
{
    let mut r: Vec<(LayoutObjectKind, LayoutSize)> = Vec::new();
    proof {
        assert(object_wf(objects@, n as int));
    }
    let mut child = objects[n].first_child;
    loop
        invariant
            objects_wf(objects@),
            child matches Some(c) ==> c < objects@.len(),
            n < objects@.len(),
            r@ + children_of(objects@, child) == children_of(objects@, objects@[n as int].first_child),
        decreases arena_measure(objects@.len(), child),
    {
        let c = match child {
            None => {
                assert(r@ + Seq::empty() =~= r@);
                return r;
            },
            Some(c) => c,
        };
        proof {
            assert(object_wf(objects@, c as int));
        }
        let ghost before = r@;
        r.push((objects[c].kind, objects[c].size));
        child = objects[c].next_sibling;
        proof {
            assert(crate::window::ahead(c, objects@[c as int].next_sibling) == child);
            assert(before + (seq![(objects@[c as int].kind, objects@[c as int].size)] + children_of(objects@, child))
                =~= r@ + children_of(objects@, child));
        }
    }
}

/// Sizes `node`, its subtree and the siblings after it: children before
/// their parent, with a block's width fixed before its children are sized.
fn calculate_node_size(objects: &mut Vec<LayoutObject>, node: Option<usize>, parent_size: LayoutSize)
    requires
        objects_wf(old(objects)@),
    ensures
        same_shape(old(objects)@, final(objects)@),
        objects_wf(final(objects)@),
        final(objects)@ == size_pass(old(objects)@, node, parent_size, old(objects)@.len()),
    decreases arena_measure(old(objects)@.len(), node),
{
    let n = match node {
        None => return ,
        Some(n) => n,
    };
    if n >= objects.len() {
        return ;
    }
    proof {
        assert(object_wf(objects@, n as int));
    }
    let ghost start = objects@;
    let ghost len = objects@.len();
    if objects[n].kind == LayoutObjectKind::Block {
        let children = children_info(objects, n);
        objects[n].compute_size(parent_size, &children);
        proof {
            lemma_same_shape_wf(start, objects@);
        }
    }
    let ghost s1 = objects@;
    assert(s1 == if start[n as int].kind == LayoutObjectKind::Block {
        resize(start, n, parent_size)
    } else {
        start
    });
    let first_child = objects[n].first_child;
    let size = objects[n].size;
    proof {
        assert(object_wf(s1, n as int));
        assert(crate::window::ahead(n, s1[n as int].first_child) == first_child);
    }
    calculate_node_size(objects, first_child, size);
    let ghost s2 = objects@;
    let next_sibling = objects[n].next_sibling;
    proof {
        assert(object_wf(s2, n as int));
        assert(crate::window::ahead(n, s2[n as int].next_sibling) == next_sibling);
    }
    calculate_node_size(objects, next_sibling, parent_size);
    let ghost s3 = objects@;
    proof {
        assert(object_wf(objects@, n as int));
    }
    let children = children_info(objects, n);
    objects[n].compute_size(parent_size, &children);
    proof {
        assert(objects@ == resize(s3, n, parent_size));
        assert(same_shape(start, s1));
        assert(same_shape(s1, s2));
        assert(same_shape(s2, s3));
        assert(same_shape(start, objects@));
        lemma_same_shape_wf(start, objects@);
    }
}

/// Places `node`, its subtree and the siblings after it: a parent before
/// its children, each object after the one before it.
fn calculate_node_position(
    objects: &mut Vec<LayoutObject>,
    node: Option<usize>,
    parent_point: LayoutPoint,
    previous_sibling_kind: LayoutObjectKind,
    previous_sibling_point: Option<LayoutPoint>,
    previous_sibling_size: Option<LayoutSize>,
)
    requires
        objects_wf(old(objects)@),
    ensures
        same_shape(old(objects)@, final(objects)@),
        objects_wf(final(objects)@),
        final(objects)@ == position_pass(
            old(objects)@,
            node,
            parent_point,
            previous_sibling_kind,
            previous_sibling_point,
            previous_sibling_size,
            old(objects)@.len(),
        ),
    decreases arena_measure(old(objects)@.len(), node),
{
    let n = match node {
        None => return ,
        Some(n) => n,
    };
    if n >= objects.len() {
        return ;
    }
    proof {
        assert(object_wf(objects@, n as int));
    }
    let ghost start = objects@;
    objects[n].compute_position(
        parent_point,
        previous_sibling_kind,
        previous_sibling_point,
        previous_sibling_size,
    );
    proof {
        lemma_same_shape_wf(start, objects@);
    }
    let ghost s1 = objects@;
    assert(s1 == place(start, n, parent_point, previous_sibling_kind, previous_sibling_point, previous_sibling_size));
    let first_child = objects[n].first_child;
    let point = objects[n].point;
    proof {
        assert(object_wf(s1, n as int));
        assert(crate::window::ahead(n, s1[n as int].first_child) == first_child);
    }
    calculate_node_position(objects, first_child, point, LayoutObjectKind::Block, None, None);
    let ghost s2 = objects@;
    proof {
        assert(object_wf(objects@, n as int));
        assert(crate::window::ahead(n, s2[n as int].next_sibling) == s2[n as int].next_sibling);
    }
    let next_sibling = objects[n].next_sibling;
    let kind = objects[n].kind;
    let point = objects[n].point;
    let size = objects[n].size;
    calculate_node_position(objects, next_sibling, parent_point, kind, Some(point), Some(size));
    proof {
        assert(same_shape(start, s1));
        assert(same_shape(s1, s2));
        assert(same_shape(start, objects@));
    }
}

/// The display items of `node`, its subtree and the siblings after it:
/// each object's items, then its children's, then its next sibling's.
pub open spec fn tree_items(objs: Seq<LayoutObject>, node: Option<usize>) -> Seq<ItemView>
    decreases arena_measure(objs.len(), node),
{
    match node {
        None => Seq::empty(),
        Some(n) => if n >= objs.len() {
            Seq::empty()
        } else {
            object_items(objs[n as int]) + tree_items(
                objs,
                crate::window::ahead(n, objs[n as int].first_child),
            ) + tree_items(objs, crate::window::ahead(n, objs[n as int].next_sibling))
        },
    }
}

/// Appends the display items of `node`, its subtree and the siblings after
/// it: each object before its children, its children before its next
/// sibling.
fn paint_node(objects: &Vec<LayoutObject>, node: Option<usize>, display_items: &mut Vec<DisplayItem>)
    requires
        objects_wf(objects@),
    ensures
        item_views(final(display_items)@) == item_views(old(display_items)@) + tree_items(objects@, node),
    decreases arena_measure(objects@.len(), node),
{
    let n = match node {
        None => {
            assert(item_views(display_items@) + Seq::empty() =~= item_views(display_items@));
            return ;
        },
        Some(n) => n,
    };
    if n >= objects.len() {
        assert(item_views(display_items@) + Seq::empty() =~= item_views(display_items@));
        return ;
    }
    proof {
        assert(object_wf(objects@, n as int));
    }
    let ghost start = display_items@;
    let mut items = objects[n].paint();
    let ghost own = items@;
    display_items.append(&mut items);
    assert(item_views(display_items@) =~= item_views(start) + item_views(own));
    let ghost s1 = display_items@;
    paint_node(objects, objects[n].first_child, display_items);
    let ghost s2 = display_items@;
    paint_node(objects, objects[n].next_sibling, display_items);
    proof {
        let fc = tree_items(objects@, objects@[n as int].first_child);
        let ns = tree_items(objects@, objects@[n as int].next_sibling);
        assert(item_views(display_items@) == item_views(start) + object_items(objects@[n as int]) + fc + ns);
        assert(item_views(start) + object_items(objects@[n as int]) + fc + ns =~= item_views(start) + (
        object_items(objects@[n as int]) + fc + ns));
    }
}

/// What `LayoutView::new` gives for a document and a sheet: a well-formed
/// tree mirroring the document, whose objects are those `built` describes
/// for the first `<body>` element, sized and positioned by `layout_passes`.
pub open spec fn laid_out_from(v: LayoutView, nodes: Seq<crate::dom::Node>, sheet: StyleSheet) -> bool {
    let b = built(nodes, sheet, find_kind(nodes, Some(0), ElementKind::Body), None, None, 0);
    &&& v.wf()
    &&& mirrors(v.objects(), nodes)
    &&& obj_views(v.objects()) == b
    &&& v.spec_root() == if v.objects().len() > 0 { Some(0usize) } else { None }
    &&& exists|laid: Seq<LayoutObject>|
        obj_views(laid) == b && #[trigger] layout_passes(laid, v.spec_root()) == v.objects()
}

/// The layout tree of a page, rooted at the `<body>` element's object.
#[derive(Debug)]
pub struct LayoutView {
    root: Option<usize>,
    objects: Vec<LayoutObject>,
}

impl LayoutView {
    pub closed spec fn objects(&self) -> Seq<LayoutObject> {
        self.objects@
    }

    pub closed spec fn spec_root(&self) -> Option<usize> {
        self.root
    }

    pub open spec fn wf(&self) -> bool {
        &&& objects_wf(self.objects())
        &&& (self.spec_root() matches Some(r) ==> r < self.objects().len())
    }

    /// Lays out the document: the tree under its first `<body>` element,
    /// with display:none subtrees left out, sized and positioned. A
    /// document without a body has an empty layout.
    pub fn new(window: &Window, cssom: &StyleSheet) -> (r: Self)
        requires
            window.wf(),
        ensures
            r.wf(),
            mirrors(r.objects(), window@),
            find_kind(window@, Some(0), ElementKind::Body) is None ==> r.spec_root() is None,
            obj_views(r.objects()) == built(
                window@,
                *cssom,
                find_kind(window@, Some(0), ElementKind::Body),
                None,
                None,
                0,
            ),
            r.spec_root() == if r.objects().len() > 0 { Some(0usize) } else { None },
            exists|laid: Seq<LayoutObject>|
                obj_views(laid) == built(
                    window@,
                    *cssom,
                    find_kind(window@, Some(0), ElementKind::Body),
                    None,
                    None,
                    0,
                ) && #[trigger] layout_passes(laid, r.spec_root()) == r.objects(),
            laid_out_from(r, window@, *cssom),
    {
        let body = get_target_element_node(window, Some(window.document()), ElementKind::Body);
        let mut objects: Vec<LayoutObject> = Vec::new();
        let root = build_layout_tree(window, body, None, cssom, &mut objects);
        let ghost laid = objects@;
        let mut view = LayoutView { root, objects };
        view.update_layout();
        proof {
            lemma_same_shape_mirrors(laid, view.objects@, window@);
            lemma_same_shape_views(laid, view.objects@);
            assert(laid.subrange(0, laid.len() as int) == laid);
            assert(layout_passes(laid, view.root) == view.objects@);
        }
        view
    }

    fn update_layout(&mut self)
        requires
            old(self).wf(),
        ensures
            final(self).wf(),
            final(self).root == old(self).root,
            same_shape(old(self).objects@, final(self).objects@),
            final(self).objects@ == layout_passes(old(self).objects@, old(self).root),
    {
        let root = self.root;
        calculate_node_size(&mut self.objects, root, LayoutSize::new(CONTENT_AREA_WIDTH, 0));
        let ghost sized = self.objects@;
        assert(sized == size_pass(old(self).objects@, root, LayoutSize { width: CONTENT_AREA_WIDTH, height: 0 }, old(self).objects@.len()));
        calculate_node_position(
            &mut self.objects,
            root,
            LayoutPoint::new(0, 0),
            LayoutObjectKind::Block,
            None,
            None,
        );
    }

    /// The index of the root object.
    pub fn root(&self) -> (r: Option<usize>)
        ensures
            r == self.spec_root(),
    {
        self.root
    }

    /// The object at index `id`.
    pub fn object(&self, id: usize) -> (r: &LayoutObject)
        requires
            id < self.objects().len(),
        ensures
            *r == self.objects()[id as int],
    {
        &self.objects[id]
    }

    /// How many objects the tree holds.
    pub fn len(&self) -> (r: usize)
        ensures
            r == self.objects().len(),
    {
        self.objects.len()
    }

    /// The display items of the whole tree, in tree order.
    pub fn paint(&self) -> (r: Vec<DisplayItem>)
        requires
            self.wf(),
        ensures
            self.spec_root() is None ==> r@.len() == 0,
            item_views(r@) == tree_items(self.objects(), self.spec_root()),
    {
        let mut display_items: Vec<DisplayItem> = Vec::new();
        paint_node(&self.objects, self.root, &mut display_items);
        assert(item_views(display_items@) =~= tree_items(self.objects@, self.root));
        display_items
    }
}

} // verus!

verus! {

proof fn lemma_apply_same_text(s: ComputedStyle, d1: Declaration, d2: Declaration)
    requires
        crate::css_parser::decl_text(d1) == crate::css_parser::decl_text(d2),
    ensures
        crate::style::apply_declaration(s, d1) == crate::style::apply_declaration(s, d2),
{
}

proof fn lemma_cascade_same_text(s: ComputedStyle, a: Seq<Declaration>, b: Seq<Declaration>)
    requires
        a.len() == b.len(),
        forall|i: int| 0 <= i < a.len() ==> crate::css_parser::decl_text(#[trigger] a[i]) == crate::css_parser::decl_text(b[i]),
    ensures
        crate::style::cascade(s, a) == crate::style::cascade(s, b),
    decreases a.len(),
{
    if a.len() > 0 {
        assert forall|i: int| 0 <= i < a.len() - 1 implies crate::css_parser::decl_text(#[trigger] a.drop_last()[i])
            == crate::css_parser::decl_text(b.drop_last()[i]) by {
            assert(a.drop_last()[i] == a[i]);
            assert(b.drop_last()[i] == b[i]);
        }
        lemma_cascade_same_text(s, a.drop_last(), b.drop_last());
        assert(crate::css_parser::decl_text(a[a.len() - 1]) == crate::css_parser::decl_text(b[a.len() - 1]));
        lemma_apply_same_text(crate::style::cascade(s, a.drop_last()), a.last(), b.last());
    }
}

proof fn lemma_cascade_rules_same_text(s: ComputedStyle, a: Seq<crate::cssom::QualifiedRule>, b: Seq<crate::cssom::QualifiedRule>, k: NodeKind)
    requires
        a.len() == b.len(),
        forall|i: int| 0 <= i < a.len() ==> crate::css_parser::rule_text(crate::css_parser::rule_view(#[trigger] a[i]))
            == crate::css_parser::rule_text(crate::css_parser::rule_view(b[i])),
    ensures
        cascade_rules(s, a, k) == cascade_rules(s, b, k),
    decreases a.len(),
{
    if a.len() > 0 {
        let n = a.len() - 1;
        assert forall|i: int| 0 <= i < n implies crate::css_parser::rule_text(crate::css_parser::rule_view(#[trigger] a.drop_last()[i]))
            == crate::css_parser::rule_text(crate::css_parser::rule_view(b.drop_last()[i])) by {
            assert(a.drop_last()[i] == a[i]);
            assert(b.drop_last()[i] == b[i]);
        }
        lemma_cascade_rules_same_text(s, a.drop_last(), b.drop_last(), k);
        let ra = crate::css_parser::rule_text(crate::css_parser::rule_view(a[n]));
        let rb = crate::css_parser::rule_text(crate::css_parser::rule_view(b[n]));
        assert(ra == rb);
        assert(a.last() == a[n] && b.last() == b[n]);
        assert(crate::css_parser::selector_view(a.last().selector) == crate::css_parser::selector_view(b.last().selector));
        assert(selects(a.last().selector, k) == selects(b.last().selector, k));
        let da = a.last().declarations@;
        let db = b.last().declarations@;
        assert(ra.1 == da.map_values(|d: Declaration| crate::css_parser::decl_text(d)));
        assert(rb.1 == db.map_values(|d: Declaration| crate::css_parser::decl_text(d)));
        assert forall|i: int| 0 <= i < da.len() implies crate::css_parser::decl_text(#[trigger] da[i]) == crate::css_parser::decl_text(db[i]) by {
            assert(ra.1[i] == rb.1[i]);
        }
        lemma_cascade_same_text(cascade_rules(s, a.drop_last(), k), da, db);
    }
}

/// The computed style depends on the sheet's text alone: two sheets whose
/// rules have the same selectors and declarations, character for
/// character, give every node (of the same content, under parents of the
/// same style) the same style. With `css_parse_determined`, styles from the
/// same style sheet text agree.
pub proof fn resolved_style_depends_on_text(
    sheet1: StyleSheet,
    sheet2: StyleSheet,
    a: NodeKind,
    b: NodeKind,
    parent: Option<ComputedStyle>,
)
    requires
        crate::css_parser::rules_text(crate::css_parser::rules_view(sheet1.rules@))
            == crate::css_parser::rules_text(crate::css_parser::rules_view(sheet2.rules@)),
        same_content(a, b),
    ensures
        resolved_style(sheet1, a, parent) == resolved_style(sheet2, b, parent),
{
    let ta = crate::css_parser::rules_text(crate::css_parser::rules_view(sheet1.rules@));
    let tb = crate::css_parser::rules_text(crate::css_parser::rules_view(sheet2.rules@));
    assert(ta.len() == sheet1.rules@.len() && tb.len() == sheet2.rules@.len());
    assert forall|i: int| 0 <= i < sheet1.rules@.len() implies crate::css_parser::rule_text(crate::css_parser::rule_view(#[trigger] sheet1.rules@[i]))
        == crate::css_parser::rule_text(crate::css_parser::rule_view(sheet2.rules@[i])) by {
        assert(ta[i] == tb[i]);
    }
    lemma_cascade_rules_same_text(ComputedStyle::new_spec(), sheet1.rules@, sheet2.rules@, a);
    resolved_style_depends_on_content(sheet2, a, b, parent);
}

} // verus!
