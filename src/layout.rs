//! Layout objects, their sizes and positions, line breaking of text, and the
//! display items a positioned object paints.
use vstd::prelude::*;
use crate::cssom::{Declaration, Selector};
use crate::dom::{is_block_kind, ElementKind, NodeKind};
use crate::style::{
    is_resolved, selects, ComputedStyle, DisplayType, FontSize,
};
use crate::text::{chars_of, same_chars, string_of};
use crate::window::has_id;

verus! {

pub const WINDOW_WIDTH: i64 = 600;

pub const WINDOW_PADDING: i64 = 5;

/// The width available to a page's content.
pub const CONTENT_AREA_WIDTH: i64 = WINDOW_WIDTH - WINDOW_PADDING * 2;

pub const CHAR_WIDTH: i64 = 8;

pub const CHAR_HEIGHT: i64 = 16;

/// The height of one line of medium-size text.
pub const CHAR_HEIGHT_WITH_PADDING: i64 = CHAR_HEIGHT + 4;

/// `x` kept within the range of `i64`.
pub open spec fn clamp(x: int) -> int {
    if x > i64::MAX {
        i64::MAX as int
    } else if x < i64::MIN {
        i64::MIN as int
    } else {
        x
    }
}

/// Addition that saturates at the bounds of `i64`.
pub fn sat_add(a: i64, b: i64) -> (r: i64)
    ensures
        r == clamp(a + b),
{
    if b > 0 && a > i64::MAX - b {
        i64::MAX
    } else if b < 0 && a < i64::MIN - b {
        i64::MIN
    } else {
        a + b
    }
}

#[derive(Debug, Clone, Copy, PartialEq, Eq, Structural)]
pub enum LayoutObjectKind {
    Block,
    Inline,
    Text,
}

#[derive(Debug, Clone, Copy, PartialEq, Eq, Structural)]
pub struct LayoutPoint {
    pub x: i64,
    pub y: i64,
}

impl LayoutPoint {
    pub fn new(x: i64, y: i64) -> (r: Self)
        ensures
            r.x == x,
            r.y == y,
    {
        LayoutPoint { x, y }
    }

    pub fn x(&self) -> (r: i64)
        ensures
            r == self.x,
    {
        self.x
    }

    pub fn y(&self) -> (r: i64)
        ensures
            r == self.y,
    {
        self.y
    }

    pub fn set_x(&mut self, x: i64)
        ensures
            *final(self) == (LayoutPoint { x, ..*old(self) }),
    {
        self.x = x;
    }

    pub fn set_y(&mut self, y: i64)
        ensures
            *final(self) == (LayoutPoint { y, ..*old(self) }),
    {
        self.y = y;
    }
}

#[derive(Debug, Clone, Copy, PartialEq, Eq, Structural)]
pub struct LayoutSize {
    pub width: i64,
    pub height: i64,
}

impl LayoutSize {
    pub fn new(width: i64, height: i64) -> (r: Self)
        ensures
            r.width == width,
            r.height == height,
    {
        LayoutSize { width, height }
    }

    pub fn width(&self) -> (r: i64)
        ensures
            r == self.width,
    {
        self.width
    }

    pub fn height(&self) -> (r: i64)
        ensures
            r == self.height,
    {
        self.height
    }

    pub fn set_height(&mut self, height: i64)
        ensures
            *final(self) == (LayoutSize { height, ..*old(self) }),
    {
        self.height = height;
    }

    pub fn set_width(&mut self, width: i64)
        ensures
            *final(self) == (LayoutSize { width, ..*old(self) }),
    {
        self.width = width;
    }
}

/// A drawing instruction, already positioned.
#[derive(Debug, Clone, PartialEq)]
pub enum DisplayItem {
    Rect { style: ComputedStyle, layout_point: LayoutPoint, layout_size: LayoutSize },
    Text { text: String, style: ComputedStyle, layout_point: LayoutPoint },
}

/// The kind of layout object a node gets for its resolved display.
pub open spec fn kind_for(k: NodeKind, d: DisplayType) -> LayoutObjectKind {
    match k {
        NodeKind::Text(_) => LayoutObjectKind::Text,
        _ => if d == DisplayType::Block {
            LayoutObjectKind::Block
        } else {
            LayoutObjectKind::Inline
        },
    }
}

/// The scale of a font size against medium text.
pub open spec fn size_ratio(f: FontSize) -> int {
    match f {
        FontSize::Medium => 1,
        FontSize::XLarge => 2,
        FontSize::XXLarge => 3,
    }
}

fn ratio_of(f: FontSize) -> (r: i64)
    ensures
        r == size_ratio(f),
{
    match f {
        FontSize::Medium => 1,
        FontSize::XLarge => 2,
        FontSize::XXLarge => 3,
    }
}

/// The height of a block over its children, given as (kind, size) in
/// order: a child counts when it, or the child before it, is a block, so a
/// run of inline children adds one height. `prev` is the kind before the
/// first child (a block, for the first child of a block).
pub open spec fn block_height(cs: Seq<(LayoutObjectKind, LayoutSize)>, prev: LayoutObjectKind) -> int
    decreases cs.len(),
{
    if cs.len() == 0 {
        0
    } else {
        let h = if prev == LayoutObjectKind::Block || cs[0].0 == LayoutObjectKind::Block {
            cs[0].1.height as int
        } else {
            0
        };
        clamp(h + block_height(cs.drop_first(), cs[0].0))
    }
}

/// The children's widths, added.
pub open spec fn sum_widths(cs: Seq<(LayoutObjectKind, LayoutSize)>) -> int
    decreases cs.len(),
{
    if cs.len() == 0 {
        0
    } else {
        clamp(cs[0].1.width + sum_widths(cs.drop_first()))
    }
}

/// The children's heights, added.
pub open spec fn sum_heights(cs: Seq<(LayoutObjectKind, LayoutSize)>) -> int
    decreases cs.len(),
{
    if cs.len() == 0 {
        0
    } else {
        clamp(cs[0].1.height + sum_heights(cs.drop_first()))
    }
}

/// The unwrapped width of `len` characters at `ratio` times the medium size.
pub open spec fn text_width(len: nat, ratio: int) -> int {
    clamp(CHAR_WIDTH * ratio * len)
}

/// The size of a text of `len` characters drawn in `lines` lines: one line
/// as wide as its characters when it fits the content area, else the
/// content width and the height of its lines.
pub open spec fn text_size_by(len: nat, lines: nat, ratio: int) -> LayoutSize {
    let w = text_width(len, ratio);
    if w > CONTENT_AREA_WIDTH {
        LayoutSize {
            width: CONTENT_AREA_WIDTH,
            height: clamp(lines * ratio * CHAR_HEIGHT_WITH_PADDING) as i64,
        }
    } else {
        LayoutSize { width: w as i64, height: (ratio * CHAR_HEIGHT_WITH_PADDING) as i64 }
    }
}

/// The size of a text node of content `t`: its width from its character
/// count, and when wider than the content area, as many lines as the
/// word-boundary split (the one `paint` draws) gives.
pub open spec fn text_size(t: Seq<char>, ratio: int) -> LayoutSize {
    text_size_by(t.len(), text_lines(t, ratio).len(), ratio)
}

/// The size `compute_size` gives an object from its parent's size and its
/// children's kinds and sizes.
pub open spec fn size_rule(o: LayoutObject, ps: LayoutSize, cs: Seq<(LayoutObjectKind, LayoutSize)>) -> LayoutSize {
    match o.kind {
        LayoutObjectKind::Block => LayoutSize {
            width: ps.width,
            height: block_height(cs, LayoutObjectKind::Block) as i64,
        },
        LayoutObjectKind::Inline => LayoutSize {
            width: sum_widths(cs) as i64,
            height: sum_heights(cs) as i64,
        },
        LayoutObjectKind::Text => match o.node_kind {
            NodeKind::Text(t) => text_size(t@, size_ratio(o.style.font_size->Some_0)),
            _ => LayoutSize { width: 0, height: 0 },
        },
    }
}

/// Where an object goes, given its parent's position and the kind,
/// position and size of the object before it: below a block neighbour (or
/// at the parent's top), to the right of an inline neighbour, else at the
/// parent's origin.
pub open spec fn position_for(
    kind: LayoutObjectKind,
    parent: LayoutPoint,
    prev_kind: LayoutObjectKind,
    prev_point: Option<LayoutPoint>,
    prev_size: Option<LayoutSize>,
) -> LayoutPoint {
    if kind == LayoutObjectKind::Block || prev_kind == LayoutObjectKind::Block {
        match (prev_point, prev_size) {
            (Some(p), Some(s)) => LayoutPoint { x: parent.x, y: clamp(p.y + s.height) as i64 },
            _ => LayoutPoint { x: parent.x, y: parent.y },
        }
    } else if kind == LayoutObjectKind::Inline && prev_kind == LayoutObjectKind::Inline {
        match (prev_point, prev_size) {
            (Some(p), Some(s)) => LayoutPoint { x: clamp(p.x + s.width) as i64, y: p.y },
            _ => LayoutPoint { x: parent.x, y: parent.y },
        }
    } else {
        LayoutPoint { x: parent.x, y: parent.y }
    }
}

/// One object of the layout tree: the DOM node it stands for (its index and
/// its kind), links to other objects by index, the node's computed style,
/// and the position and size that layout gives it.
#[derive(Debug, Clone)]
pub struct LayoutObject {
    pub kind: LayoutObjectKind,
    pub node: usize,
    pub node_kind: NodeKind,
    pub first_child: Option<usize>,
    pub next_sibling: Option<usize>,
    pub parent: Option<usize>,
    pub style: ComputedStyle,
    pub point: LayoutPoint,
    pub size: LayoutSize,
}

impl LayoutObject {
    /// An object for DOM node `node` (of kind `node_kind`) under `parent`,
    /// with nothing styled or measured yet.
    pub fn new(node: usize, node_kind: NodeKind, parent: Option<usize>) -> (r: Self)
        ensures
            r.kind == LayoutObjectKind::Block,
            r.node == node,
            r.node_kind == node_kind,
            r.parent == parent,
            r.first_child is None,
            r.next_sibling is None,
            r.style == ComputedStyle::new_spec(),
            r.point == (LayoutPoint { x: 0, y: 0 }),
            r.size == (LayoutSize { width: 0, height: 0 }),
    {
        LayoutObject {
            kind: LayoutObjectKind::Block,
            node,
            node_kind,
            first_child: None,
            next_sibling: None,
            parent,
            style: ComputedStyle::new(),
            point: LayoutPoint::new(0, 0),
            size: LayoutSize::new(0, 0),
        }
    }

    /// Whether `selector` picks this object's node.
    pub fn is_node_selected(&self, selector: &Selector) -> (r: bool)
        ensures
            r == selects(*selector, self.node_kind),
    {
        match &self.node_kind {
            NodeKind::Element(e) => match selector {
                Selector::IdSelector(name) => crate::window::node_has_id(&self.node_kind, name.as_str()),
                Selector::ClassSelector(name) => {
                    let mut j: usize = 0;
                    while j < e.attributes.len()
                        invariant
                            self.node_kind == NodeKind::Element(*e),
                            *selector == Selector::ClassSelector(*name),
                            j <= e.attributes@.len(),
                            forall|x: int|
                                0 <= x < j ==> !((#[trigger] e.attributes@[x]).name@ == "class"@
                                    && e.attributes@[x].value@ == name@),
                        decreases e.attributes@.len() - j,
                    {
                        let a = &e.attributes[j];
                        if same_chars(a.name.as_str(), "class") && same_chars(
                            a.value.as_str(),
                            name.as_str(),
                        ) {
                            assert(e.attributes@[j as int].name@ == "class"@);
                            return true;
                        }
                        j = j + 1;
                    }
                    false
                },
                Selector::TypeSelector(name) => ElementKind::from_name(name.as_str()) == Some(e.kind),
                Selector::UnknownSelector => false,
            },
            _ => false,
        }
    }

    /// Applies declarations to the style, in order.
    pub fn cascading_style(&mut self, declarations: &Vec<Declaration>)
        ensures
            final(self).style == crate::style::cascade(old(self).style, declarations@),
            final(self).first_child == old(self).first_child,
            final(self).next_sibling == old(self).next_sibling,
            final(self).kind == old(self).kind,
            final(self).node_kind == old(self).node_kind,
            final(self).node == old(self).node,
            final(self).parent == old(self).parent,
    {
        self.style.cascading(declarations);
    }

    /// Fills the unset style fields from the parent's style and the node's
    /// defaults.
    pub fn defaulting_style(&mut self, parent_style: Option<ComputedStyle>)
        ensures
            final(self).style == crate::style::defaulted(old(self).style, old(self).node_kind, parent_style),
            final(self).first_child == old(self).first_child,
            final(self).next_sibling == old(self).next_sibling,
            is_resolved(final(self).style),
            final(self).kind == old(self).kind,
            final(self).node_kind == old(self).node_kind,
            final(self).node == old(self).node,
            final(self).parent == old(self).parent,
    {
        let k = &self.node_kind;
        let mut s = self.style;
        s.defaulting(k, parent_style);
        self.style = s;
    }

    /// Sets the kind from the node and the resolved display.
    pub fn update_kind(&mut self)
        requires
            is_resolved(old(self).style),
        ensures
            final(self).kind == kind_for(old(self).node_kind, old(self).style.display->Some_0),
            *final(self) == (LayoutObject {
                kind: kind_for(old(self).node_kind, old(self).style.display->Some_0),
                ..*old(self)
            }),
            final(self).first_child == old(self).first_child,
            final(self).next_sibling == old(self).next_sibling,
            final(self).style == old(self).style,
            final(self).node_kind == old(self).node_kind,
            final(self).node == old(self).node,
            final(self).parent == old(self).parent,
    {
        self.kind = match &self.node_kind {
            NodeKind::Text(_) => LayoutObjectKind::Text,
            _ => if self.style.display() == DisplayType::Block {
                LayoutObjectKind::Block
            } else {
                LayoutObjectKind::Inline
            },
        };
    }

    /// Sizes this object from its parent's size and its children's kinds
    /// and sizes, in order. A block takes the parent's width and the
    /// height of its children; an inline object adds up its children; text
    /// is as wide as its characters, wrapped to the content area.
    pub fn compute_size(&mut self, parent_size: LayoutSize, children: &Vec<(LayoutObjectKind, LayoutSize)>)
        requires
            is_resolved(old(self).style),
        ensures
            final(self).kind == old(self).kind,
            final(self).style == old(self).style,
            final(self).node_kind == old(self).node_kind,
            final(self).node == old(self).node,
            final(self).first_child == old(self).first_child,
            final(self).next_sibling == old(self).next_sibling,
            final(self).parent == old(self).parent,
            final(self).point == old(self).point,
            old(self).kind == LayoutObjectKind::Block ==> final(self).size == (LayoutSize {
                width: parent_size.width,
                height: block_height(children@, LayoutObjectKind::Block) as i64,
            }),
            old(self).kind == LayoutObjectKind::Inline ==> final(self).size == (LayoutSize {
                width: sum_widths(children@) as i64,
                height: sum_heights(children@) as i64,
            }),
            old(self).kind == LayoutObjectKind::Text ==> (old(self).node_kind matches NodeKind::Text(t)
                ==> final(self).size == text_size(t@, size_ratio(old(self).style.font_size->Some_0))),
            *final(self) == (LayoutObject { size: size_rule(*old(self), parent_size, children@), ..*old(self) }),
    {
        let mut size = LayoutSize::new(0, 0);
        assert(children@.subrange(0, children@.len() as int) == children@);
        match self.kind {
            LayoutObjectKind::Block => {
                size.set_width(parent_size.width());
                size.set_height(block_height_of(children, 0, LayoutObjectKind::Block));
            },
            LayoutObjectKind::Inline => {
                size.set_width(sum_widths_of(children, 0));
                size.set_height(sum_heights_of(children, 0));
            },
            LayoutObjectKind::Text => {
                if let NodeKind::Text(t) = &self.node_kind {
                    let ratio = ratio_of(self.style.font_size());
                    let chars = chars_of(t.as_str());
                    let plain = normalize_text(&chars);
                    let lines = split_text(plain, CHAR_WIDTH * ratio);
                    assert(line_views(lines@) == text_lines(t@, ratio as int));
                    assert(lines@.len() == line_views(lines@).len());
                    size = text_size_of(chars.len(), lines.len(), ratio);
                }
            },
        }
        self.size = size;
    }

    /// Places this object; see `position_for`.
    pub fn compute_position(
        &mut self,
        parent_point: LayoutPoint,
        previous_sibling_kind: LayoutObjectKind,
        previous_sibling_point: Option<LayoutPoint>,
        previous_sibling_size: Option<LayoutSize>,
    )
        ensures
            final(self).point == position_for(
                old(self).kind,
                parent_point,
                previous_sibling_kind,
                previous_sibling_point,
                previous_sibling_size,
            ),
            final(self).kind == old(self).kind,
            final(self).style == old(self).style,
            final(self).node_kind == old(self).node_kind,
            final(self).node == old(self).node,
            final(self).first_child == old(self).first_child,
            final(self).next_sibling == old(self).next_sibling,
            final(self).parent == old(self).parent,
            final(self).size == old(self).size,
            *final(self) == (LayoutObject {
                point: position_for(
                    old(self).kind,
                    parent_point,
                    previous_sibling_kind,
                    previous_sibling_point,
                    previous_sibling_size,
                ),
                ..*old(self)
            }),
    {
        let mut point = LayoutPoint::new(0, 0);
        if self.kind == LayoutObjectKind::Block || previous_sibling_kind == LayoutObjectKind::Block {
            match (previous_sibling_point, previous_sibling_size) {
                (Some(p), Some(s)) => {
                    point.set_y(sat_add(p.y(), s.height()));
                },
                _ => {
                    point.set_y(parent_point.y());
                },
            }
            point.set_x(parent_point.x());
        } else if self.kind == LayoutObjectKind::Inline && previous_sibling_kind
            == LayoutObjectKind::Inline {
            match (previous_sibling_point, previous_sibling_size) {
                (Some(p), Some(s)) => {
                    point.set_x(sat_add(p.x(), s.width()));
                    point.set_y(p.y());
                },
                _ => {
                    point.set_x(parent_point.x());
                    point.set_y(parent_point.y());
                },
            }
        } else {
            point.set_x(parent_point.x());
            point.set_y(parent_point.y());
        }
        self.point = point;
    }

    pub fn kind(&self) -> (r: LayoutObjectKind)
        ensures
            r == self.kind,
    {
        self.kind
    }

    pub fn node_kind(&self) -> (r: NodeKind)
        ensures
            crate::dom::same_content(r, self.node_kind),
    {
        self.node_kind.clone()
    }

    pub fn set_first_child(&mut self, first_child: Option<usize>)
        ensures
            final(self).first_child == first_child,
            final(self).next_sibling == old(self).next_sibling,
            final(self).kind == old(self).kind,
            final(self).style == old(self).style,
    {
        self.first_child = first_child;
    }

    pub fn first_child(&self) -> (r: Option<usize>)
        ensures
            r == self.first_child,
    {
        self.first_child
    }

    pub fn set_next_sibling(&mut self, next_sibling: Option<usize>)
        ensures
            final(self).next_sibling == next_sibling,
            final(self).first_child == old(self).first_child,
            final(self).kind == old(self).kind,
            final(self).style == old(self).style,
    {
        self.next_sibling = next_sibling;
    }

    pub fn next_sibling(&self) -> (r: Option<usize>)
        ensures
            r == self.next_sibling,
    {
        self.next_sibling
    }

    pub fn parent(&self) -> (r: Option<usize>)
        ensures
            r == self.parent,
    {
        self.parent
    }

    pub fn style(&self) -> (r: ComputedStyle)
        ensures
            r == self.style,
    {
        self.style
    }

    pub fn point(&self) -> (r: LayoutPoint)
        ensures
            r == self.point,
    {
        self.point
    }

    pub fn size(&self) -> (r: LayoutSize)
        ensures
            r == self.size,
    {
        self.size
    }
}

fn block_height_of(cs: &Vec<(LayoutObjectKind, LayoutSize)>, i: usize, prev: LayoutObjectKind) -> (r: i64)
    requires
        i <= cs@.len(),
    ensures
        r == block_height(cs@.subrange(i as int, cs@.len() as int), prev),
    decreases cs@.len() - i,
{
    if i >= cs.len() {
        return 0;
    }
    let (k, s) = cs[i];
    let h = if prev == LayoutObjectKind::Block || k == LayoutObjectKind::Block {
        s.height
    } else {
        0
    };
    let rest = block_height_of(cs, i + 1, k);
    assert(cs@.subrange(i as int, cs@.len() as int).drop_first() == cs@.subrange(i + 1, cs@.len() as int));
    sat_add(h, rest)
}

fn sum_widths_of(cs: &Vec<(LayoutObjectKind, LayoutSize)>, i: usize) -> (r: i64)
    requires
        i <= cs@.len(),
    ensures
        r == sum_widths(cs@.subrange(i as int, cs@.len() as int)),
    decreases cs@.len() - i,
{
    if i >= cs.len() {
        return 0;
    }
    let rest = sum_widths_of(cs, i + 1);
    assert(cs@.subrange(i as int, cs@.len() as int).drop_first() == cs@.subrange(i + 1, cs@.len() as int));
    sat_add(cs[i].1.width, rest)
}

fn sum_heights_of(cs: &Vec<(LayoutObjectKind, LayoutSize)>, i: usize) -> (r: i64)
    requires
        i <= cs@.len(),
    ensures
        r == sum_heights(cs@.subrange(i as int, cs@.len() as int)),
    decreases cs@.len() - i,
{
    if i >= cs.len() {
        return 0;
    }
    let rest = sum_heights_of(cs, i + 1);
    assert(cs@.subrange(i as int, cs@.len() as int).drop_first() == cs@.subrange(i + 1, cs@.len() as int));
    sat_add(cs[i].1.height, rest)
}

fn text_size_of(len: usize, lines: usize, ratio: i64) -> (r: LayoutSize)
    requires
        1 <= ratio <= 3,
    ensures
        r == text_size_by(len as nat, lines as nat, ratio as int),
{
    let per_char = CHAR_WIDTH * ratio;
    let w: i64 = if len as u64 > (i64::MAX / per_char) as u64 {
        assert(per_char * len > i64::MAX) by (nonlinear_arith)
            requires len > i64::MAX / per_char, per_char > 0;
        i64::MAX
    } else {
        assert(per_char * len <= i64::MAX) by (nonlinear_arith)
            requires len <= i64::MAX / per_char, per_char > 0;
        per_char * len as i64
    };
    assert(w == text_width(len as nat, ratio as int)) by (nonlinear_arith)
        requires
            per_char == CHAR_WIDTH * ratio,
            w == clamp(per_char * len);
    if w > CONTENT_AREA_WIDTH {
        let per_line = ratio * CHAR_HEIGHT_WITH_PADDING;
        let h: i64 = if lines as u64 > (i64::MAX / per_line) as u64 {
            assert(lines * per_line > i64::MAX) by (nonlinear_arith)
                requires lines > i64::MAX / per_line, per_line > 0;
            i64::MAX
        } else {
            assert(lines * per_line <= i64::MAX) by (nonlinear_arith)
                requires lines <= i64::MAX / per_line, per_line > 0;
            lines as i64 * per_line
        };
        assert(h == clamp(lines * ratio * CHAR_HEIGHT_WITH_PADDING)) by (nonlinear_arith)
            requires
                per_line == ratio * CHAR_HEIGHT_WITH_PADDING,
                h == clamp(lines * per_line);
        LayoutSize::new(CONTENT_AREA_WIDTH, h)
    } else {
        LayoutSize::new(w, ratio * CHAR_HEIGHT_WITH_PADDING)
    }
}

} // verus!

verus! {

/// Where to break a line that is too long: the last space before
/// `max_index`, or `max_index` itself when there is none.
pub fn find_index_for_line_break(line: &Vec<char>, max_index: usize) -> (r: usize)
    requires
        max_index <= line@.len(),
    ensures
        r <= max_index,
        r < max_index ==> line@[r as int] == ' ',
        forall|k: int| r < k < max_index ==> line@[k] != ' ',
        r == break_index(line@, max_index as int),
{
    let mut i = max_index;
    while i > 0
        invariant
            i <= max_index,
            max_index <= line@.len(),
            forall|k: int| i <= k < max_index ==> line@[k] != ' ',
            last_space_before(line@, i as int, max_index as int) == break_index(line@, max_index as int),
        decreases i,
    {
        if line[i - 1] == ' ' {
            return i - 1;
        }
        i = i - 1;
    }
    max_index
}

/// The last space before index `k`, or `max` when there is none.
pub open spec fn last_space_before(s: Seq<char>, k: int, max: int) -> int
    decreases k,
{
    if k <= 0 {
        max
    } else if s[k - 1] == ' ' {
        k - 1
    } else {
        last_space_before(s, k - 1, max)
    }
}

/// Where a line too long for `max` characters breaks: at its last space
/// before `max`, or at `max` when there is none.
pub open spec fn break_index(s: Seq<char>, max: int) -> int {
    last_space_before(s, max, max)
}

/// The first index at or after `i` that is not a space.
pub open spec fn skip_spaces(s: Seq<char>, i: int) -> int
    decreases s.len() - i,
{
    if i < 0 || i >= s.len() || s[i] != ' ' {
        i
    } else {
        skip_spaces(s, i + 1)
    }
}

/// The end of `s[a..b]` without its trailing spaces.
pub open spec fn trim_end(s: Seq<char>, a: int, b: int) -> int
    decreases b - a,
{
    if b <= a || s[b - 1] != ' ' {
        b
    } else {
        trim_end(s, a, b - 1)
    }
}

/// `s[from..]` without leading or trailing spaces.
pub open spec fn trimmed(s: Seq<char>, from: int) -> Seq<char> {
    let a = skip_spaces(s, from);
    s.subrange(a, trim_end(s, a, s.len() as int))
}

/// The lines of `line` at `cap` characters a line: while the rest is too
/// long, break it (see `break_index`) and trim the spaces around the break.
pub open spec fn split_lines(line: Seq<char>, cap: int) -> Seq<Seq<char>>
    decreases line.len(),
{
    if line.len() <= cap {
        seq![line]
    } else {
        let idx = break_index(line, cap);
        let rest = trimmed(line, idx);
        if 0 <= idx <= line.len() && rest.len() < line.len() {
            seq![line.subrange(0, idx)] + split_lines(rest, cap)
        } else {
            seq![line]
        }
    }
}

pub open spec fn line_views(v: Seq<Vec<char>>) -> Seq<Seq<char>> {
    v.map_values(|l: Vec<char>| l@)
}

/// The characters `v[from..]` without leading or trailing spaces.
fn trim_spaces(v: &Vec<char>, from: usize) -> (r: Vec<char>)
    requires
        from <= v@.len(),
    ensures
        r@ == trimmed(v@, from as int),
        r@.len() <= v@.len() - from,
        from < v@.len() && v@[from as int] == ' ' ==> r@.len() < v@.len() - from,
        r@.len() > 0 ==> r@[0] != ' ' && r@.last() != ' ',
{
    let mut a = from;
    while a < v.len() && v[a] == ' '
        invariant
            from <= a <= v@.len(),
            skip_spaces(v@, a as int) == skip_spaces(v@, from as int),
        decreases v@.len() - a,
    {
        a = a + 1;
    }
    let mut b = v.len();
    while b > a && v[b - 1] == ' '
        invariant
            a <= b <= v@.len(),
            a < v@.len() ==> v@[a as int] != ' ',
            trim_end(v@, a as int, b as int) == trim_end(v@, a as int, v@.len() as int),
        decreases b,
    {
        b = b - 1;
    }
    let mut r: Vec<char> = Vec::new();
    let mut i = a;
    while i < b
        invariant
            a <= i <= b,
            b <= v@.len(),
            r@ == v@.subrange(a as int, i as int),
        decreases b - i,
    {
        r.push(v[i]);
        i = i + 1;
    }
    proof {
        if r@.len() > 0 {
            assert(r@[0] == v@[a as int]);
            assert(r@.last() == v@[b - 1]);
        }
    }
    r
}

proof fn lemma_capacity(n: int, w: int)
    requires
        n >= 0,
        1 <= w <= CONTENT_AREA_WIDTH,
    ensures
        n * w > CONTENT_AREA_WIDTH <==> n > (CONTENT_AREA_WIDTH as int) / w,
{
    assert(CONTENT_AREA_WIDTH == 590);
    assert(n * w > 590int <==> n > 590int / w) by (nonlinear_arith)
        requires n >= 0, w >= 1;
}

/// Splits text into lines that fit the content area, breaking after the
/// last word that fits, or at the line's capacity when a word is longer.
/// Text wider than the content area gives at least two lines.
pub fn split_text(line: Vec<char>, char_width: i64) -> (r: Vec<Vec<char>>)
    requires
        1 <= char_width <= CONTENT_AREA_WIDTH,
    ensures
        r@.len() >= 1,
        line@.len() * char_width > CONTENT_AREA_WIDTH ==> r@.len() >= 2,
        line@.len() * char_width <= CONTENT_AREA_WIDTH ==> r@.len() == 1 && r@[0]@ == line@,
        forall|i: int| 0 <= i < r@.len() - 1 ==> (#[trigger] r@[i])@.len() * char_width
            <= CONTENT_AREA_WIDTH,
        line_views(r@) == split_lines(line@, CONTENT_AREA_WIDTH / char_width),
{
    let cap = (CONTENT_AREA_WIDTH / char_width) as usize;
    proof {
        assert(cap >= 1) by (nonlinear_arith)
            requires cap == CONTENT_AREA_WIDTH / char_width, 1 <= char_width <= CONTENT_AREA_WIDTH;
        lemma_capacity(line@.len() as int, char_width as int);
    }
    let mut result: Vec<Vec<char>> = Vec::new();
    let mut rest = line;
    while rest.len() > cap
        invariant
            cap >= 1,
            cap == CONTENT_AREA_WIDTH / char_width,
            1 <= char_width <= CONTENT_AREA_WIDTH,
            forall|i: int| 0 <= i < result@.len() ==> (#[trigger] result@[i])@.len() <= cap,
            result@.len() == 0 ==> rest@ == line@,
            line@.len() <= cap ==> result@.len() == 0,
            split_lines(line@, cap as int) == line_views(result@) + split_lines(rest@, cap as int),
        decreases rest@.len(),
    {
        let ghost before = result@;
        let ghost old_rest = rest@;
        let idx = find_index_for_line_break(&rest, cap);
        let mut first: Vec<char> = Vec::new();
        let mut i: usize = 0;
        while i < idx
            invariant
                i <= idx,
                idx <= cap,
                cap < rest@.len(),
                first@ == rest@.subrange(0, i as int),
            decreases idx - i,
        {
            first.push(rest[i]);
            i = i + 1;
        }
        result.push(first);
        rest = trim_spaces(&rest, idx);
        proof {
            assert(first@ == old_rest.subrange(0, idx as int));
            assert(split_lines(old_rest, cap as int) == seq![old_rest.subrange(0, idx as int)] + split_lines(rest@, cap as int));
            assert(line_views(result@) == line_views(before).push(first@));
            assert(line_views(before) + (seq![first@] + split_lines(rest@, cap as int)) == line_views(before).push(first@) + split_lines(rest@, cap as int));
        }
    }
    let ghost before = result@;
    result.push(rest);
    proof {
        assert(line_views(result@) == line_views(before).push(rest@));
        assert(split_lines(rest@, cap as int) == seq![rest@]);
        assert(line_views(before) + seq![rest@] == line_views(before).push(rest@));
    }
    proof {
        assert forall|i: int| 0 <= i < result@.len() - 1 implies (#[trigger] result@[i])@.len() * char_width
            <= CONTENT_AREA_WIDTH by {
            assert(result@[i]@.len() <= cap);
            lemma_capacity(result@[i]@.len() as int, char_width as int);
        }
    }
    result
}

/// The first `i` characters of a text read for drawing: what has been
/// written, and whether a space is due before the next word.
pub open spec fn normalize_prefix(s: Seq<char>, i: int) -> (Seq<char>, bool)
    decreases i,
{
    if i <= 0 {
        (Seq::empty(), false)
    } else {
        let (out, pending) = normalize_prefix(s, i - 1);
        let c = s[i - 1];
        if c == '\n' {
            (out, pending)
        } else if c == ' ' {
            (out, if out.len() > 0 { true } else { pending })
        } else if pending {
            (out.push(' ').push(c), false)
        } else {
            (out.push(c), false)
        }
    }
}

/// Text as it is drawn: newlines removed, runs of spaces made one, no
/// space at either end.
pub open spec fn normalized(s: Seq<char>) -> Seq<char> {
    normalize_prefix(s, s.len() as int).0
}

/// Text as it is drawn: newlines removed, runs of spaces made one, no
/// space at either end.
pub fn normalize_text(t: &Vec<char>) -> (r: Vec<char>)
    ensures
        r@ == normalized(t@),
        forall|i: int| 0 <= i < r@.len() ==> #[trigger] r@[i] != '\n',
        r@.len() > 0 ==> r@[0] != ' ' && r@.last() != ' ',
        forall|i: int| 0 <= i < r@.len() - 1 ==> !(#[trigger] r@[i] == ' ' && r@[i + 1] == ' '),
{
    let mut r: Vec<char> = Vec::new();
    let mut pending_space = false;
    let mut i: usize = 0;
    while i < t.len()
        invariant
            i <= t@.len(),
            forall|k: int| 0 <= k < r@.len() ==> #[trigger] r@[k] != '\n',
            r@.len() > 0 ==> r@[0] != ' ' && r@.last() != ' ',
            pending_space ==> r@.len() > 0,
            forall|k: int| 0 <= k < r@.len() - 1 ==> !(#[trigger] r@[k] == ' ' && r@[k + 1] == ' '),
            (r@, pending_space) == normalize_prefix(t@, i as int),
        decreases t@.len() - i,
    {
        let c = t[i];
        if c == '\n' {
        } else if c == ' ' {
            if r.len() > 0 {
                pending_space = true;
            }
        } else {
            if pending_space {
                r.push(' ');
                pending_space = false;
            }
            r.push(c);
        }
        i = i + 1;
    }
    r
}

/// A display item as values, with text as characters.
pub enum ItemView {
    Rect(ComputedStyle, LayoutPoint, LayoutSize),
    Text(Seq<char>, ComputedStyle, LayoutPoint),
}

pub open spec fn item_view(d: DisplayItem) -> ItemView {
    match d {
        DisplayItem::Rect { style, layout_point, layout_size } => ItemView::Rect(
            style,
            layout_point,
            layout_size,
        ),
        DisplayItem::Text { text, style, layout_point } => ItemView::Text(text@, style, layout_point),
    }
}

pub open spec fn item_views(s: Seq<DisplayItem>) -> Seq<ItemView> {
    s.map_values(|d: DisplayItem| item_view(d))
}

/// One text item per line, each one line height below the one before.
pub open spec fn text_items(lines: Seq<Seq<char>>, style: ComputedStyle, x: i64, y: i64) -> Seq<ItemView> {
    Seq::new(
        lines.len(),
        |i: int|
            ItemView::Text(
                lines[i],
                style,
                LayoutPoint { x, y: clamp(y + CHAR_HEIGHT_WITH_PADDING * i) as i64 },
            ),
    )
}

/// What an object paints: a block element its box, an inline element
/// nothing, a text node its lines; nothing when its display is `none`.
pub open spec fn object_items(o: LayoutObject) -> Seq<ItemView> {
    if o.style.display == Some(DisplayType::DisplayNone) {
        Seq::empty()
    } else {
        match o.kind {
            LayoutObjectKind::Block => if o.node_kind is Element {
                seq![ItemView::Rect(o.style, o.point, o.size)]
            } else {
                Seq::empty()
            },
            LayoutObjectKind::Inline => Seq::empty(),
            LayoutObjectKind::Text => match o.node_kind {
                NodeKind::Text(t) => text_items(
                    text_lines(t@, size_ratio(o.style.font_size->Some_0)),
                    o.style,
                    o.point.x,
                    o.point.y,
                ),
                _ => Seq::empty(),
            },
        }
    }
}

/// The text of a text item.
pub open spec fn item_text(d: DisplayItem) -> Seq<char> {
    match d {
        DisplayItem::Text { text, .. } => text@,
        _ => Seq::empty(),
    }
}

/// The lines a text node of content `t` is drawn in, at `ratio` times the
/// medium size.
pub open spec fn text_lines(t: Seq<char>, ratio: int) -> Seq<Seq<char>> {
    split_lines(normalized(t), (CONTENT_AREA_WIDTH as int) / (CHAR_WIDTH * ratio))
}

/// A text item drawn with `style` at `(x, y)`.
pub open spec fn is_text_line(d: DisplayItem, style: ComputedStyle, x: i64, y: int) -> bool {
    match d {
        DisplayItem::Text { layout_point, style: s, .. } => s == style && layout_point.x == x
            && layout_point.y == y,
        _ => false,
    }
}

impl LayoutObject {
    /// The display items of this object: a block element paints its box, an
    /// inline element nothing, and text one item per line, each line one
    /// line height below the one before.
    pub fn paint(&self) -> (r: Vec<DisplayItem>)
        requires
            is_resolved(self.style),
        ensures
            self.style.display == Some(DisplayType::DisplayNone) ==> r@.len() == 0,
            self.kind == LayoutObjectKind::Inline ==> r@.len() == 0,
            self.style.display != Some(DisplayType::DisplayNone) && self.kind == LayoutObjectKind::Block
                && self.node_kind is Element ==> r@ == seq![
                DisplayItem::Rect { style: self.style, layout_point: self.point, layout_size: self.size },
            ],
            self.style.display != Some(DisplayType::DisplayNone) && self.kind == LayoutObjectKind::Text
                && self.node_kind is Text ==> r@.len() >= 1 && forall|i: int|
                0 <= i < r@.len() ==> is_text_line(
                    #[trigger] r@[i],
                    self.style,
                    self.point.x,
                    clamp(self.point.y + CHAR_HEIGHT_WITH_PADDING * i),
                ),
            self.style.display != Some(DisplayType::DisplayNone) && self.kind == LayoutObjectKind::Text
                && self.node_kind is Text ==> ({
                let lines = text_lines(
                    self.node_kind->Text_0@,
                    size_ratio(self.style.font_size->Some_0),
                );
                &&& r@.len() == lines.len()
                &&& forall|i: int| 0 <= i < r@.len() ==> item_text(#[trigger] r@[i]) == lines[i]
            }),
            item_views(r@) == object_items(*self),
    {
        if self.style.display() == DisplayType::DisplayNone {
            let v: Vec<DisplayItem> = Vec::new();
            assert(item_views(v@) =~= object_items(*self));
            return v;
        }
        match self.kind {
            LayoutObjectKind::Block => {
                if let NodeKind::Element(_) = &self.node_kind {
                    let mut v: Vec<DisplayItem> = Vec::new();
                    v.push(
                        DisplayItem::Rect {
                            style: self.style,
                            layout_point: self.point,
                            layout_size: self.size,
                        },
                    );
                    assert(item_views(v@) =~= object_items(*self));
                    return v;
                }
                let v: Vec<DisplayItem> = Vec::new();
                assert(item_views(v@) =~= object_items(*self));
                v
            },
            LayoutObjectKind::Inline => {
                let v: Vec<DisplayItem> = Vec::new();
                assert(item_views(v@) =~= object_items(*self));
                v
            },
            LayoutObjectKind::Text => {
                if let NodeKind::Text(t) = &self.node_kind {
                    let ratio = ratio_of(self.style.font_size());
                    let plain = normalize_text(&chars_of(t.as_str()));
                    let lines = split_text(plain, CHAR_WIDTH * ratio);
                    assert(line_views(lines@) == text_lines(t@, ratio as int));
                    let mut v: Vec<DisplayItem> = Vec::new();
                    let mut i: usize = 0;
                    let mut y = self.point.y;
                    while i < lines.len()
                        invariant
                            v@.len() == i,
                            i <= lines@.len(),
                            self.node_kind is Text,
                            self.kind == LayoutObjectKind::Text,
                            y == clamp(self.point.y + CHAR_HEIGHT_WITH_PADDING * i),
                            lines@.len() >= 1,
                            line_views(lines@) == text_lines(t@, ratio as int),
                            forall|k: int| 0 <= k < v@.len() ==> item_text(#[trigger] v@[k]) == lines@[k]@,
                            forall|k: int|
                                0 <= k < v@.len() ==> is_text_line(
                                    #[trigger] v@[k],
                                    self.style,
                                    self.point.x,
                                    clamp(self.point.y + CHAR_HEIGHT_WITH_PADDING * k),
                                ),
                        decreases lines@.len() - i,
                    {
                        v.push(
                            DisplayItem::Text {
                                text: string_of(lines[i].as_slice()),
                                style: self.style,
                                layout_point: LayoutPoint::new(self.point.x, y),
                            },
                        );
                        let ghost old_y = y;
                        y = sat_add(y, CHAR_HEIGHT_WITH_PADDING);
                        proof {
                            assert(CHAR_HEIGHT_WITH_PADDING == 20);
                            assert(clamp(old_y + 20) == clamp(self.point.y + 20 * (i + 1))) by {
                                assert(old_y == clamp(self.point.y + 20 * i));
                                assert(20 * (i + 1) == 20 * i + 20) by (nonlinear_arith);
                            }
                        }
                        i = i + 1;
                    }
                    proof {
                        assert forall|k: int| 0 <= k < v@.len() implies item_text(#[trigger] v@[k])
                            == text_lines(t@, ratio as int)[k] by {
                            assert(line_views(lines@)[k] == lines@[k]@);
                        }
                        let want = object_items(*self);
                        assert forall|k: int| 0 <= k < v@.len() implies #[trigger] item_views(v@)[k] == want[k] by {
                            assert(is_text_line(v@[k], self.style, self.point.x, clamp(self.point.y + CHAR_HEIGHT_WITH_PADDING * k)));
                            assert(item_text(v@[k]) == text_lines(t@, ratio as int)[k]);
                        }
                        assert(item_views(v@) =~= want);
                    }
                    return v;
                }
                let v: Vec<DisplayItem> = Vec::new();
                assert(item_views(v@) =~= object_items(*self));
                v
            },
        }
    }
}

} // verus!
