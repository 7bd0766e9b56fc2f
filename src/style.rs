//! Computed style: the cascade of matching declarations, then defaults and
//! inheritance from the parent.
use vstd::prelude::*;
use crate::css_token::CssToken;
use crate::cssom::{Declaration, QualifiedRule, Selector};
use crate::dom::{element_kind_of, is_block_kind, ElementKind, NodeKind};
use crate::text::{chars_of, same_chars};
use crate::window::has_id;

verus! {

/// An RGB color, `0xRRGGBB`.
#[derive(Debug, Clone, Copy, PartialEq, Eq, Structural)]
pub struct Color {
    pub code: u32,
}

pub open spec fn hex_digit_value(c: char) -> Option<u32> {
    if '0' <= c && c <= '9' {
        Some((c as u32 - '0' as u32) as u32)
    } else if 'a' <= c && c <= 'f' {
        Some((c as u32 - 'a' as u32 + 10) as u32)
    } else if 'A' <= c && c <= 'F' {
        Some((c as u32 - 'A' as u32 + 10) as u32)
    } else {
        None
    }
}

/// The value of the hex digits `s[1..i]`, when they all are hex digits.
pub open spec fn hex_prefix_value(s: Seq<char>, i: int) -> Option<nat>
    decreases i,
{
    if i <= 1 {
        Some(0)
    } else {
        match (hex_prefix_value(s, i - 1), hex_digit_value(s[i - 1])) {
            (Some(v), Some(d)) => Some((v * 16 + d) as nat),
            _ => None,
        }
    }
}

/// The color a `#RRGGBB` code stands for.
pub open spec fn color_of_code(s: Seq<char>) -> Option<Color> {
    if s.len() == 7 && s[0] == '#' {
        match hex_prefix_value(s, 7) {
            Some(v) => Some(Color { code: v as u32 }),
            None => None,
        }
    } else {
        None
    }
}

/// The color a name stands for.
pub open spec fn color_of_name(s: Seq<char>) -> Option<Color> {
    if s == "black"@ {
        Some(Color { code: 0x000000 })
    } else if s == "silver"@ {
        Some(Color { code: 0xc0c0c0 })
    } else if s == "gray"@ {
        Some(Color { code: 0x808080 })
    } else if s == "white"@ {
        Some(Color { code: 0xffffff })
    } else if s == "maroon"@ {
        Some(Color { code: 0x800000 })
    } else if s == "red"@ {
        Some(Color { code: 0xff0000 })
    } else if s == "purple"@ {
        Some(Color { code: 0x800080 })
    } else if s == "fuchsia"@ {
        Some(Color { code: 0xff00ff })
    } else if s == "green"@ {
        Some(Color { code: 0x008000 })
    } else if s == "lime"@ {
        Some(Color { code: 0x00ff00 })
    } else if s == "olive"@ {
        Some(Color { code: 0x808000 })
    } else if s == "yellow"@ {
        Some(Color { code: 0xffff00 })
    } else if s == "navy"@ {
        Some(Color { code: 0x000080 })
    } else if s == "blue"@ {
        Some(Color { code: 0x0000ff })
    } else if s == "teal"@ {
        Some(Color { code: 0x008080 })
    } else if s == "aqua"@ {
        Some(Color { code: 0x00ffff })
    } else if s == "orange"@ {
        Some(Color { code: 0xffa500 })
    } else if s == "lightgray"@ {
        Some(Color { code: 0xd3d3d3 })
    } else {
        None
    }
}

fn hex_digit(c: char) -> (r: Option<u32>)
    ensures
        r == hex_digit_value(c),
{
    if '0' <= c && c <= '9' {
        Some(c as u32 - '0' as u32)
    } else if 'a' <= c && c <= 'f' {
        Some(c as u32 - 'a' as u32 + 10)
    } else if 'A' <= c && c <= 'F' {
        Some(c as u32 - 'A' as u32 + 10)
    } else {
        None
    }
}

pub open spec fn pow16(n: int) -> nat
    decreases n,
{
    if n <= 0 {
        1
    } else {
        16 * pow16(n - 1)
    }
}

impl Color {
    pub fn white() -> (r: Color)
        ensures
            r.code == 0xffffff,
    {
        Color { code: 0xffffff }
    }

    pub fn black() -> (r: Color)
        ensures
            r.code == 0,
    {
        Color { code: 0 }
    }

    /// The named color, for the names this engine knows.
    pub fn from_name(name: &str) -> (r: Option<Color>)
        ensures
            r == color_of_name(name@),
    {
        if same_chars(name, "black") {
            Some(Color { code: 0x000000 })
        } else if same_chars(name, "silver") {
            Some(Color { code: 0xc0c0c0 })
        } else if same_chars(name, "gray") {
            Some(Color { code: 0x808080 })
        } else if same_chars(name, "white") {
            Some(Color { code: 0xffffff })
        } else if same_chars(name, "maroon") {
            Some(Color { code: 0x800000 })
        } else if same_chars(name, "red") {
            Some(Color { code: 0xff0000 })
        } else if same_chars(name, "purple") {
            Some(Color { code: 0x800080 })
        } else if same_chars(name, "fuchsia") {
            Some(Color { code: 0xff00ff })
        } else if same_chars(name, "green") {
            Some(Color { code: 0x008000 })
        } else if same_chars(name, "lime") {
            Some(Color { code: 0x00ff00 })
        } else if same_chars(name, "olive") {
            Some(Color { code: 0x808000 })
        } else if same_chars(name, "yellow") {
            Some(Color { code: 0xffff00 })
        } else if same_chars(name, "navy") {
            Some(Color { code: 0x000080 })
        } else if same_chars(name, "blue") {
            Some(Color { code: 0x0000ff })
        } else if same_chars(name, "teal") {
            Some(Color { code: 0x008080 })
        } else if same_chars(name, "aqua") {
            Some(Color { code: 0x00ffff })
        } else if same_chars(name, "orange") {
            Some(Color { code: 0xffa500 })
        } else if same_chars(name, "lightgray") {
            Some(Color { code: 0xd3d3d3 })
        } else {
            None
        }
    }

    /// The color of a `#RRGGBB` code.
    pub fn from_code(code: &str) -> (r: Option<Color>)
        ensures
            r == color_of_code(code@),
    {
        let s = chars_of(code);
        if s.len() != 7 || s[0] != '#' {
            return None;
        }
        let mut v: u32 = 0;
        let mut i: usize = 1;
        while i < 7
            invariant
                s@ == code@,
                s@.len() == 7,
                1 <= i <= 7,
                hex_prefix_value(s@, i as int) == Some(v as nat),
                v < pow16(i - 1),
            decreases 7 - i,
        {
            let d = match hex_digit(s[i]) {
                Some(d) => d,
                None => {
                    assert(hex_prefix_value(s@, 7) is None) by {
                        lemma_hex_none_propagates(s@, i as int + 1, 7);
                    }
                    return None;
                },
            };
            proof {
                reveal_with_fuel(pow16, 7);
                assert(pow16(i as int) == pow16(i - 1) * 16);
                assert(v * 16 + d < pow16(i as int)) by (nonlinear_arith)
                    requires v < pow16(i - 1), d < 16, pow16(i as int) == pow16(i - 1) * 16;
                assert(pow16(6) == 0x1000000);
                lemma_pow16_mono(i as int, 6);
            }
            v = v * 16 + d;
            i = i + 1;
        }
        Some(Color { code: v })
    }
}

proof fn lemma_pow16_mono(a: int, b: int)
    requires
        0 <= a <= b,
    ensures
        pow16(a) <= pow16(b),
    decreases b - a,
{
    if a < b {
        lemma_pow16_mono(a + 1, b);
    }
}

proof fn lemma_hex_none_propagates(s: Seq<char>, i: int, j: int)
    requires
        2 <= i <= j,
        hex_prefix_value(s, i) is None,
    ensures
        hex_prefix_value(s, j) is None,
    decreases j - i,
{
    if i < j {
        lemma_hex_none_propagates(s, i + 1, j);
        assert(hex_prefix_value(s, i + 1) is None);
    }
}

#[derive(Debug, Clone, Copy, PartialEq, Eq, Structural)]
pub enum DisplayType {
    Block,
    Inline,
    DisplayNone,
}

pub open spec fn display_of_name(s: Seq<char>) -> Option<DisplayType> {
    if s == "block"@ {
        Some(DisplayType::Block)
    } else if s == "inline"@ {
        Some(DisplayType::Inline)
    } else if s == "none"@ {
        Some(DisplayType::DisplayNone)
    } else {
        None
    }
}

/// The display an element gets when no style sets one: block for the block
/// elements, inline for the others and for text.
pub open spec fn default_display(k: NodeKind) -> DisplayType {
    match k {
        NodeKind::Document => DisplayType::Block,
        NodeKind::Element(e) => if is_block_kind(e.kind) {
            DisplayType::Block
        } else {
            DisplayType::Inline
        },
        NodeKind::Text(_) => DisplayType::Inline,
    }
}

impl DisplayType {
    pub fn from_name(s: &str) -> (r: Option<DisplayType>)
        ensures
            r == display_of_name(s@),
    {
        if same_chars(s, "block") {
            Some(DisplayType::Block)
        } else if same_chars(s, "inline") {
            Some(DisplayType::Inline)
        } else if same_chars(s, "none") {
            Some(DisplayType::DisplayNone)
        } else {
            None
        }
    }

    pub fn default_for(k: &NodeKind) -> (r: DisplayType)
        ensures
            r == default_display(*k),
    {
        match k {
            NodeKind::Document => DisplayType::Block,
            NodeKind::Element(e) => if e.is_block_element() {
                DisplayType::Block
            } else {
                DisplayType::Inline
            },
            NodeKind::Text(_) => DisplayType::Inline,
        }
    }
}

#[derive(Debug, Clone, Copy, PartialEq, Eq, Structural)]
pub enum FontSize {
    Medium,
    XLarge,
    XXLarge,
}

pub open spec fn default_font_size(k: NodeKind) -> FontSize {
    match k {
        NodeKind::Element(e) => if e.kind == ElementKind::H1 {
            FontSize::XXLarge
        } else if e.kind == ElementKind::H2 {
            FontSize::XLarge
        } else {
            FontSize::Medium
        },
        _ => FontSize::Medium,
    }
}

#[derive(Debug, Clone, Copy, PartialEq, Eq, Structural)]
pub enum TextDecoration {
    NoDecoration,
    Underline,
}

pub open spec fn default_text_decoration(k: NodeKind) -> TextDecoration {
    match k {
        NodeKind::Element(e) => if e.kind == ElementKind::A {
            TextDecoration::Underline
        } else {
            TextDecoration::NoDecoration
        },
        _ => TextDecoration::NoDecoration,
    }
}

/// The style of one node. A field is `None` until the cascade or the
/// defaulting step sets it.
#[derive(Debug, Clone, Copy, PartialEq, Eq, Structural)]
pub struct ComputedStyle {
    pub background_color: Option<Color>,
    pub color: Option<Color>,
    pub display: Option<DisplayType>,
    pub font_size: Option<FontSize>,
    pub text_decoration: Option<TextDecoration>,
}

/// A style where every field is set.
pub open spec fn is_resolved(s: ComputedStyle) -> bool {
    s.background_color is Some && s.color is Some && s.display is Some && s.font_size is Some
        && s.text_decoration is Some
}

/// What one declaration does to a style: `background-color` and `color`
/// take a named color or a `#RRGGBB` code (white and black when neither
/// parses), `display` takes `block`, `inline` or `none` (`none` when it does
/// not parse). Other properties and value shapes change nothing.
pub open spec fn apply_declaration(s: ComputedStyle, d: Declaration) -> ComputedStyle {
    if d.property@ == "background-color"@ {
        match d.value {
            CssToken::Ident(v) => ComputedStyle {
                background_color: Some(color_of_name(v@).unwrap_or(Color { code: 0xffffff })),
                ..s
            },
            CssToken::HashToken(v) => ComputedStyle {
                background_color: Some(color_of_code(v@).unwrap_or(Color { code: 0xffffff })),
                ..s
            },
            _ => s,
        }
    } else if d.property@ == "color"@ {
        match d.value {
            CssToken::Ident(v) => ComputedStyle {
                color: Some(color_of_name(v@).unwrap_or(Color { code: 0 })),
                ..s
            },
            CssToken::HashToken(v) => ComputedStyle {
                color: Some(color_of_code(v@).unwrap_or(Color { code: 0 })),
                ..s
            },
            _ => s,
        }
    } else if d.property@ == "display"@ {
        match d.value {
            CssToken::Ident(v) => ComputedStyle {
                display: Some(display_of_name(v@).unwrap_or(DisplayType::DisplayNone)),
                ..s
            },
            _ => s,
        }
    } else {
        s
    }
}

/// The declarations applied in order, each overwriting what came before.
pub open spec fn cascade(s: ComputedStyle, ds: Seq<Declaration>) -> ComputedStyle
    decreases ds.len(),
{
    if ds.len() == 0 {
        s
    } else {
        apply_declaration(cascade(s, ds.drop_last()), ds.last())
    }
}

/// Whether a selector picks the node of kind `k`: an element whose tag,
/// `class` or `id` attribute equals the selector's name.
pub open spec fn selects(sel: Selector, k: NodeKind) -> bool {
    match k {
        NodeKind::Element(e) => match sel {
            Selector::IdSelector(name) => has_id(k, name@),
            Selector::ClassSelector(name) => exists|j: int|
                0 <= j < e.attributes@.len() && (#[trigger] e.attributes@[j]).name@ == "class"@
                    && e.attributes@[j].value@ == name@,
            Selector::TypeSelector(name) => element_kind_of(name@) == Some(e.kind),
            Selector::UnknownSelector => false,
        },
        _ => false,
    }
}

/// The rules applied in sheet order to the node of kind `k`: each rule that
/// selects the node applies its declarations.
pub open spec fn cascade_rules(s: ComputedStyle, rules: Seq<QualifiedRule>, k: NodeKind) -> ComputedStyle
    decreases rules.len(),
{
    if rules.len() == 0 {
        s
    } else {
        let before = cascade_rules(s, rules.drop_last(), k);
        if selects(rules.last().selector, k) {
            cascade(before, rules.last().declarations@)
        } else {
            before
        }
    }
}

/// Fills the unset fields: a parent's color, background, font size and text
/// decoration are inherited when they differ from the initial values; what
/// is still unset gets the initial value or the node kind's default.
pub open spec fn defaulted(s: ComputedStyle, k: NodeKind, parent: Option<ComputedStyle>) -> ComputedStyle {
    let inherited = match parent {
        Some(p) => ComputedStyle {
            background_color: if s.background_color is None && p.background_color is Some
                && p.background_color != Some(Color { code: 0xffffff }) {
                p.background_color
            } else {
                s.background_color
            },
            color: if s.color is None && p.color is Some && p.color != Some(Color { code: 0 }) {
                p.color
            } else {
                s.color
            },
            font_size: if s.font_size is None && p.font_size is Some && p.font_size != Some(
                FontSize::Medium,
            ) {
                p.font_size
            } else {
                s.font_size
            },
            text_decoration: if s.text_decoration is None && p.text_decoration is Some
                && p.text_decoration != Some(TextDecoration::NoDecoration) {
                p.text_decoration
            } else {
                s.text_decoration
            },
            ..s
        },
        None => s,
    };
    ComputedStyle {
        background_color: Some(inherited.background_color.unwrap_or(Color { code: 0xffffff })),
        color: Some(inherited.color.unwrap_or(Color { code: 0 })),
        display: Some(inherited.display.unwrap_or(default_display(k))),
        font_size: Some(inherited.font_size.unwrap_or(default_font_size(k))),
        text_decoration: Some(inherited.text_decoration.unwrap_or(default_text_decoration(k))),
    }
}

impl ComputedStyle {
    pub open spec fn new_spec() -> ComputedStyle {
        ComputedStyle {
            background_color: None,
            color: None,
            display: None,
            font_size: None,
            text_decoration: None,
        }
    }

    /// A style with nothing set.
    pub fn new() -> (r: Self)
        ensures
            r == Self::new_spec(),
    {
        ComputedStyle {
            background_color: None,
            color: None,
            display: None,
            font_size: None,
            text_decoration: None,
        }
    }

    /// Applies one declaration.
    pub fn apply(&mut self, d: &Declaration)
        ensures
            *final(self) == apply_declaration(*old(self), *d),
    {
        if same_chars(d.property.as_str(), "background-color") {
            match &d.value {
                CssToken::Ident(v) => {
                    let c = match Color::from_name(v.as_str()) {
                        Some(c) => c,
                        None => Color::white(),
                    };
                    self.background_color = Some(c);
                },
                CssToken::HashToken(v) => {
                    let c = match Color::from_code(v.as_str()) {
                        Some(c) => c,
                        None => Color::white(),
                    };
                    self.background_color = Some(c);
                },
                _ => {},
            }
        } else if same_chars(d.property.as_str(), "color") {
            match &d.value {
                CssToken::Ident(v) => {
                    let c = match Color::from_name(v.as_str()) {
                        Some(c) => c,
                        None => Color::black(),
                    };
                    self.color = Some(c);
                },
                CssToken::HashToken(v) => {
                    let c = match Color::from_code(v.as_str()) {
                        Some(c) => c,
                        None => Color::black(),
                    };
                    self.color = Some(c);
                },
                _ => {},
            }
        } else if same_chars(d.property.as_str(), "display") {
            match &d.value {
                CssToken::Ident(v) => {
                    let t = match DisplayType::from_name(v.as_str()) {
                        Some(t) => t,
                        None => DisplayType::DisplayNone,
                    };
                    self.display = Some(t);
                },
                _ => {},
            }
        }
    }

    /// Applies the declarations in order.
    pub fn cascading(&mut self, declarations: &Vec<Declaration>)
        ensures
            *final(self) == cascade(*old(self), declarations@),
    {
        let mut i: usize = 0;
        while i < declarations.len()
            invariant
                i <= declarations@.len(),
                *self == cascade(*old(self), declarations@.subrange(0, i as int)),
            decreases declarations@.len() - i,
        {
            proof {
                assert(declarations@.subrange(0, i + 1).drop_last() == declarations@.subrange(0, i as int));
            }
            self.apply(&declarations[i]);
            i = i + 1;
        }
        assert(declarations@.subrange(0, i as int) == declarations@);
    }

    /// Fills the unset fields from the parent and the node kind's defaults.
    pub fn defaulting(&mut self, k: &NodeKind, parent: Option<ComputedStyle>)
        ensures
            *final(self) == defaulted(*old(self), *k, parent),
            is_resolved(*final(self)),
    {
        if let Some(p) = parent {
            if self.background_color.is_none() && p.background_color.is_some()
                && p.background_color != Some(Color::white()) {
                self.background_color = p.background_color;
            }
            if self.color.is_none() && p.color.is_some() && p.color != Some(Color::black()) {
                self.color = p.color;
            }
            if self.font_size.is_none() && p.font_size.is_some() && p.font_size != Some(
                FontSize::Medium,
            ) {
                self.font_size = p.font_size;
            }
            if self.text_decoration.is_none() && p.text_decoration.is_some()
                && p.text_decoration != Some(TextDecoration::NoDecoration) {
                self.text_decoration = p.text_decoration;
            }
        }
        if self.background_color.is_none() {
            self.background_color = Some(Color::white());
        }
        if self.color.is_none() {
            self.color = Some(Color::black());
        }
        if self.display.is_none() {
            self.display = Some(DisplayType::default_for(k));
        }
        if self.font_size.is_none() {
            self.font_size = Some(match k {
                NodeKind::Element(e) => if e.kind == ElementKind::H1 {
                    FontSize::XXLarge
                } else if e.kind == ElementKind::H2 {
                    FontSize::XLarge
                } else {
                    FontSize::Medium
                },
                _ => FontSize::Medium,
            });
        }
        if self.text_decoration.is_none() {
            self.text_decoration = Some(match k {
                NodeKind::Element(e) => if e.kind == ElementKind::A {
                    TextDecoration::Underline
                } else {
                    TextDecoration::NoDecoration
                },
                _ => TextDecoration::NoDecoration,
            });
        }
    }

    pub fn background_color(&self) -> (r: Color)
        requires
            is_resolved(*self),
        ensures
            Some(r) == self.background_color,
    {
        self.background_color.unwrap()
    }

    pub fn color(&self) -> (r: Color)
        requires
            is_resolved(*self),
        ensures
            Some(r) == self.color,
    {
        self.color.unwrap()
    }

    pub fn display(&self) -> (r: DisplayType)
        requires
            is_resolved(*self),
        ensures
            Some(r) == self.display,
    {
        self.display.unwrap()
    }

    pub fn font_size(&self) -> (r: FontSize)
        requires
            is_resolved(*self),
        ensures
            Some(r) == self.font_size,
    {
        self.font_size.unwrap()
    }

    pub fn text_decoration(&self) -> (r: TextDecoration)
        requires
            is_resolved(*self),
        ensures
            Some(r) == self.text_decoration,
    {
        self.text_decoration.unwrap()
    }
}

/// The field a property sets: `color` and `background-color` a color,
/// `display` a display type.
pub open spec fn prop_field(s: ComputedStyle, prop: Seq<char>) -> (Option<Color>, Option<DisplayType>) {
    if prop == "color"@ {
        (s.color, None)
    } else if prop == "background-color"@ {
        (s.background_color, None)
    } else if prop == "display"@ {
        (None, s.display)
    } else {
        (None, None)
    }
}

/// The properties the cascade knows.
pub open spec fn is_known_prop(prop: Seq<char>) -> bool {
    prop == "color"@ || prop == "background-color"@ || prop == "display"@
}

/// A declaration of `prop` whose value has a shape the property takes (an
/// identifier, or for colors also a `#` code).
pub open spec fn sets_prop(d: Declaration, prop: Seq<char>) -> bool {
    &&& d.property@ == prop
    &&& (d.value is Ident || (d.value is HashToken && prop != "display"@))
}

proof fn lemma_literals()
    ensures
        "color"@ != "background-color"@,
        "color"@ != "display"@,
        "background-color"@ != "display"@,
{
    reveal_strlit("color");
    reveal_strlit("background-color");
    reveal_strlit("display");
    assert("color"@.len() == 5);
    assert("background-color"@.len() == 16);
    assert("display"@.len() == 7);
}

proof fn lemma_other_prop_keeps(x: ComputedStyle, d: Declaration, prop: Seq<char>)
    requires
        is_known_prop(prop),
        d.property@ != prop,
    ensures
        prop_field(apply_declaration(x, d), prop) == prop_field(x, prop),
{
    lemma_literals();
}

proof fn lemma_setting_ignores_before(x: ComputedStyle, y: ComputedStyle, d: Declaration, prop: Seq<char>)
    requires
        is_known_prop(prop),
        sets_prop(d, prop),
    ensures
        prop_field(apply_declaration(x, d), prop) == prop_field(apply_declaration(y, d), prop),
{
    lemma_literals();
}

/// Within one node's declarations the last one for a property decides it:
/// whatever came before, the property's field is what that declaration
/// alone sets.
pub proof fn later_declaration_wins(s: ComputedStyle, ds: Seq<Declaration>, i: int, prop: Seq<char>)
    requires
        is_known_prop(prop),
        0 <= i < ds.len(),
        sets_prop(ds[i], prop),
        forall|j: int| i < j < ds.len() ==> (#[trigger] ds[j]).property@ != prop,
    ensures
        prop_field(cascade(s, ds), prop) == prop_field(apply_declaration(s, ds[i]), prop),
    decreases ds.len(),
{
    if i < ds.len() - 1 {
        later_declaration_wins(s, ds.drop_last(), i, prop);
        assert(ds.drop_last()[i] == ds[i]);
        lemma_other_prop_keeps(cascade(s, ds.drop_last()), ds.last(), prop);
    } else {
        assert(ds.last() == ds[i]);
        lemma_setting_ignores_before(cascade(s, ds.drop_last()), s, ds[i], prop);
    }
}

proof fn lemma_no_decl_keeps(s: ComputedStyle, ds: Seq<Declaration>, prop: Seq<char>)
    requires
        is_known_prop(prop),
        forall|j: int| 0 <= j < ds.len() ==> (#[trigger] ds[j]).property@ != prop,
    ensures
        prop_field(cascade(s, ds), prop) == prop_field(s, prop),
    decreases ds.len(),
{
    if ds.len() > 0 {
        lemma_no_decl_keeps(s, ds.drop_last(), prop);
        lemma_other_prop_keeps(cascade(s, ds.drop_last()), ds.last(), prop);
    }
}

/// Across a sheet, a node's property comes from the last matching rule
/// that declares it, whatever the selectors' specificity: when rule `j`
/// picks the node and its declaration `i` is its last one for the property,
/// and no later rule that picks the node declares it, the field is what
/// that declaration alone sets.
pub proof fn later_rule_wins(
    s: ComputedStyle,
    rules: Seq<QualifiedRule>,
    k: NodeKind,
    j: int,
    i: int,
    prop: Seq<char>,
)
    requires
        is_known_prop(prop),
        0 <= j < rules.len(),
        selects(rules[j].selector, k),
        0 <= i < rules[j].declarations@.len(),
        sets_prop(rules[j].declarations@[i], prop),
        forall|x: int|
            i < x < rules[j].declarations@.len() ==> (#[trigger] rules[j].declarations@[x]).property@
                != prop,
        forall|y: int, x: int|
            j < y < rules.len() && selects(rules[y].selector, k) && 0 <= x
                < rules[y].declarations@.len() ==> (#[trigger] rules[y].declarations@[x]).property@
                != prop,
    ensures
        prop_field(cascade_rules(s, rules, k), prop) == prop_field(
            apply_declaration(s, rules[j].declarations@[i]),
            prop,
        ),
    decreases rules.len(),
{
    let last = rules.len() - 1;
    let before = cascade_rules(s, rules.drop_last(), k);
    if j < last {
        later_rule_wins(s, rules.drop_last(), k, j, i, prop);
        if selects(rules.last().selector, k) {
            assert forall|x: int| 0 <= x < rules.last().declarations@.len() implies (
            #[trigger] rules.last().declarations@[x]).property@ != prop by {
                assert(rules.last() == rules[last]);
            }
            lemma_no_decl_keeps(before, rules.last().declarations@, prop);
        }
    } else {
        assert(rules.last() == rules[j]);
        later_declaration_wins(before, rules[j].declarations@, i, prop);
        lemma_setting_ignores_before(before, s, rules[j].declarations@[i], prop);
    }
}

} // verus!
