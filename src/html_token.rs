//! The HTML tokenizer: a character-level state machine that hands out one
//! token per call, ending in `Eof`.
use vstd::prelude::*;
use crate::dom::{attr_views, Attribute};
use crate::text::{ascii_alpha, chars_of, is_ascii_alpha, string_of};

verus! {

#[derive(Debug, PartialEq)]
pub enum HtmlToken {
    StartTag { tag: String, self_closing: bool, attributes: Vec<Attribute> },
    EndTag { tag: String },
    Char(char),
    Eof,
}

/// A token as characters and attributes.
pub enum TokenView {
    StartTag(Seq<char>, Seq<(Seq<char>, Seq<char>)>),
    EndTag(Seq<char>),
    Char(char),
    Eof,
}

pub open spec fn token_view(t: HtmlToken) -> TokenView {
    match t {
        HtmlToken::StartTag { tag, attributes, .. } => TokenView::StartTag(tag@, attr_views(attributes@)),
        HtmlToken::EndTag { tag } => TokenView::EndTag(tag@),
        HtmlToken::Char(c) => TokenView::Char(c),
        HtmlToken::Eof => TokenView::Eof,
    }
}

impl Clone for HtmlToken {
    fn clone(&self) -> (r: Self)
        ensures
            token_view(r) == token_view(*self),
    {
        match self {
            HtmlToken::StartTag { tag, self_closing, attributes } => HtmlToken::StartTag {
                tag: tag.clone(),
                self_closing: *self_closing,
                attributes: crate::dom::clone_attributes(attributes),
            },
            HtmlToken::EndTag { tag } => HtmlToken::EndTag { tag: tag.clone() },
            HtmlToken::Char(c) => HtmlToken::Char(*c),
            HtmlToken::Eof => HtmlToken::Eof,
        }
    }
}

#[derive(Debug, Clone, Copy, PartialEq, Eq, Structural)]
pub enum TokenizerState {
    Data,
    TagOpen,
    EndTagOpen,
    TagName,
    BeforeAttributeName,
    AttributeName,
    AfterAttributeName,
    BeforeAttributeValue,
    AttributeValueDoubleQuoted,
    AttributeValueSingleQuoted,
    AttributeValueUnquoted,
    AfterAttributeValueQuoted,
    SelfClosingStartTag,
}

pub open spec fn is_space(c: char) -> bool {
    c == ' ' || c == '\n' || c == '\t' || c == '\r'
}

fn space(c: char) -> (r: bool)
    ensures
        r == is_space(c),
{
    c == ' ' || c == '\n' || c == '\t' || c == '\r'
}


/// A token as characters: tag names, attributes as (name, value).
pub enum TokenSummary {
    StartTag(Seq<char>, bool, Seq<(Seq<char>, Seq<char>)>),
    EndTag(Seq<char>),
    Char(char),
    Eof,
}

pub open spec fn summary(t: HtmlToken) -> TokenSummary {
    match t {
        HtmlToken::StartTag { tag, self_closing, attributes } => TokenSummary::StartTag(
            tag@,
            self_closing,
            attr_views(attributes@),
        ),
        HtmlToken::EndTag { tag } => TokenSummary::EndTag(tag@),
        HtmlToken::Char(c) => TokenSummary::Char(c),
        HtmlToken::Eof => TokenSummary::Eof,
    }
}

/// The tokenizer's state: where it is in the state machine, the cursor,
/// and the tag being read.
pub struct TokModel {
    pub state: TokenizerState,
    pub pos: int,
    pub tag: Seq<char>,
    pub is_end: bool,
    pub self_closing: bool,
    pub attrs: Seq<(Seq<char>, Seq<char>)>,
}

pub open spec fn in_state(m: TokModel, s: TokenizerState) -> TokModel {
    TokModel { state: s, ..m }
}

pub open spec fn start_tag_m(m: TokModel, c: char, is_end: bool) -> TokModel {
    TokModel { tag: seq![c], is_end, self_closing: false, attrs: Seq::empty(), ..m }
}

pub open spec fn start_attr_m(m: TokModel, c: char) -> TokModel {
    TokModel { attrs: m.attrs.push((seq![c], Seq::empty())), ..m }
}

pub open spec fn append_attr_m(m: TokModel, c: char, is_name: bool) -> TokModel {
    let a = if m.attrs.len() == 0 {
        m.attrs.push((Seq::empty(), Seq::empty()))
    } else {
        m.attrs
    };
    let last = a.len() - 1;
    TokModel {
        attrs: a.update(
            last,
            if is_name {
                (a[last].0.push(c), a[last].1)
            } else {
                (a[last].0, a[last].1.push(c))
            },
        ),
        ..m
    }
}

/// The tag read so far, emitted; the tokenizer goes back to data.
pub open spec fn emit_m(m: TokModel) -> (TokModel, Option<TokenSummary>) {
    (
        TokModel { state: TokenizerState::Data, attrs: Seq::empty(), ..m },
        Some(
            if m.is_end {
                TokenSummary::EndTag(m.tag)
            } else {
                TokenSummary::StartTag(m.tag, m.self_closing, m.attrs)
            },
        ),
    )
}

/// One character `c` read in the current state (the cursor already past
/// it): the next state, and a token when one is complete.
pub open spec fn char_step(m: TokModel, c: char) -> (TokModel, Option<TokenSummary>) {
    match m.state {
        TokenizerState::Data => if c == '<' {
            (in_state(m, TokenizerState::TagOpen), None)
        } else {
            (m, Some(TokenSummary::Char(c)))
        },
        TokenizerState::TagOpen => if c == '/' {
            (in_state(m, TokenizerState::EndTagOpen), None)
        } else if is_ascii_alpha(c) {
            (in_state(start_tag_m(m, c, false), TokenizerState::TagName), None)
        } else {
            (TokModel { state: TokenizerState::Data, pos: m.pos - 1, ..m }, Some(TokenSummary::Char('<')))
        },
        TokenizerState::EndTagOpen => if is_ascii_alpha(c) {
            (in_state(start_tag_m(m, c, true), TokenizerState::TagName), None)
        } else {
            (in_state(m, TokenizerState::Data), None)
        },
        TokenizerState::TagName => if is_space(c) {
            (in_state(m, TokenizerState::BeforeAttributeName), None)
        } else if c == '/' {
            (in_state(m, TokenizerState::SelfClosingStartTag), None)
        } else if c == '>' {
            emit_m(m)
        } else {
            (TokModel { tag: m.tag.push(c), ..m }, None)
        },
        TokenizerState::BeforeAttributeName => if is_space(c) {
            (m, None)
        } else if c == '/' {
            (in_state(m, TokenizerState::SelfClosingStartTag), None)
        } else if c == '>' {
            emit_m(m)
        } else {
            (in_state(start_attr_m(m, c), TokenizerState::AttributeName), None)
        },
        TokenizerState::AttributeName => if is_space(c) {
            (in_state(m, TokenizerState::AfterAttributeName), None)
        } else if c == '/' {
            (in_state(m, TokenizerState::SelfClosingStartTag), None)
        } else if c == '>' {
            emit_m(m)
        } else if c == '=' {
            (in_state(m, TokenizerState::BeforeAttributeValue), None)
        } else {
            (append_attr_m(m, c, true), None)
        },
        TokenizerState::AfterAttributeName => if is_space(c) {
            (m, None)
        } else if c == '/' {
            (in_state(m, TokenizerState::SelfClosingStartTag), None)
        } else if c == '=' {
            (in_state(m, TokenizerState::BeforeAttributeValue), None)
        } else if c == '>' {
            emit_m(m)
        } else {
            (in_state(start_attr_m(m, c), TokenizerState::AttributeName), None)
        },
        TokenizerState::BeforeAttributeValue => if is_space(c) {
            (m, None)
        } else if c == '"' {
            (in_state(m, TokenizerState::AttributeValueDoubleQuoted), None)
        } else if c == '\'' {
            (in_state(m, TokenizerState::AttributeValueSingleQuoted), None)
        } else if c == '>' {
            emit_m(m)
        } else {
            (in_state(append_attr_m(m, c, false), TokenizerState::AttributeValueUnquoted), None)
        },
        TokenizerState::AttributeValueDoubleQuoted => if c == '"' {
            (in_state(m, TokenizerState::AfterAttributeValueQuoted), None)
        } else {
            (append_attr_m(m, c, false), None)
        },
        TokenizerState::AttributeValueSingleQuoted => if c == '\'' {
            (in_state(m, TokenizerState::AfterAttributeValueQuoted), None)
        } else {
            (append_attr_m(m, c, false), None)
        },
        TokenizerState::AttributeValueUnquoted => if is_space(c) {
            (in_state(m, TokenizerState::BeforeAttributeName), None)
        } else if c == '>' {
            emit_m(m)
        } else {
            (append_attr_m(m, c, false), None)
        },
        TokenizerState::AfterAttributeValueQuoted => if is_space(c) {
            (in_state(m, TokenizerState::BeforeAttributeName), None)
        } else if c == '/' {
            (in_state(m, TokenizerState::SelfClosingStartTag), None)
        } else if c == '>' {
            emit_m(m)
        } else {
            (in_state(start_attr_m(m, c), TokenizerState::AttributeName), None)
        },
        TokenizerState::SelfClosingStartTag => if c == '>' {
            emit_m(TokModel { self_closing: true, ..m })
        } else {
            (in_state(m, TokenizerState::BeforeAttributeName), None)
        },
    }
}

/// The next token read from `input` in state `m`, and the state after it.
/// At the end of the input the token is `Eof`.
pub open spec fn next_model(input: Seq<char>, m: TokModel) -> (TokenSummary, TokModel)
    decreases input.len() - m.pos,
{
    if m.pos < 0 || m.pos >= input.len() {
        (TokenSummary::Eof, in_state(m, TokenizerState::Data))
    } else {
        let (m2, out) = char_step(TokModel { pos: m.pos + 1, ..m }, input[m.pos]);
        match out {
            Some(t) => (t, m2),
            None => if m2.pos > m.pos {
                next_model(input, m2)
            } else {
                (TokenSummary::Eof, m2)
            },
        }
    }
}

/// How tree construction sees a token: whether a tag closes itself does
/// not matter to it.
pub open spec fn summary_view(t: TokenSummary) -> TokenView {
    match t {
        TokenSummary::StartTag(n, _, a) => TokenView::StartTag(n, a),
        TokenSummary::EndTag(n) => TokenView::EndTag(n),
        TokenSummary::Char(c) => TokenView::Char(c),
        TokenSummary::Eof => TokenView::Eof,
    }
}

/// The tokens read from `input` in state `m`, up to and including the
/// first `Eof`.
pub open spec fn token_seq(input: Seq<char>, m: TokModel) -> Seq<TokenSummary>
    decreases input.len() - m.pos,
{
    if m.pos < 0 || m.pos >= input.len() {
        seq![TokenSummary::Eof]
    } else {
        let t = next_model(input, m).0;
        let m2 = next_model(input, m).1;
        if t is Eof || m2.pos <= m.pos || m2.pos > input.len() {
            seq![t]
        } else {
            seq![t] + token_seq(input, m2)
        }
    }
}

/// The tokenizer's state before it reads anything.
pub open spec fn initial_tok_model() -> TokModel {
    TokModel {
        state: TokenizerState::Data,
        pos: 0,
        tag: Seq::empty(),
        is_end: false,
        self_closing: false,
        attrs: Seq::empty(),
    }
}

/// The tokens of an HTML text.
pub open spec fn html_tokens(input: Seq<char>) -> Seq<TokenSummary> {
    token_seq(input, initial_tok_model())
}

#[derive(Debug)]
pub struct HtmlTokenizer {
    state: TokenizerState,
    pos: usize,
    input: Vec<char>,
    tag_name: Vec<char>,
    is_end_tag: bool,
    self_closing: bool,
    attributes: Vec<Attribute>,
}

impl HtmlTokenizer {
    /// How many characters have been read.
    pub closed spec fn position(&self) -> nat {
        self.pos as nat
    }

    /// The characters being tokenized.
    pub closed spec fn input(&self) -> Seq<char> {
        self.input@
    }

    /// Between two calls the tokenizer is in the data state, inside its input.
    pub closed spec fn wf(&self) -> bool {
        self.pos <= self.input@.len() && self.state == TokenizerState::Data
    }

    pub fn new(html: String) -> (r: Self)
        ensures
            r.wf(),
            r.position() == 0,
            r.input() == html@,
            r.model() == initial_tok_model(),
    {
        let r = HtmlTokenizer {
            state: TokenizerState::Data,
            pos: 0,
            input: chars_of(html.as_str()),
            tag_name: Vec::new(),
            is_end_tag: false,
            self_closing: false,
            attributes: Vec::new(),
        };
        assert(r.tag_name@ =~= Seq::<char>::empty());
        assert(attr_views(r.attributes@) =~= Seq::<(Seq<char>, Seq<char>)>::empty());
        r
    }

    /// The cursor of the state is the tokenizer's position.
    pub proof fn lemma_model_pos(&self)
        ensures
            self.model().pos == self.position() as int,
    {
    }

    /// The tokenizer's state as values.
    pub closed spec fn model(&self) -> TokModel {
        TokModel {
            state: self.state,
            pos: self.pos as int,
            tag: self.tag_name@,
            is_end: self.is_end_tag,
            self_closing: self.self_closing,
            attrs: attr_views(self.attributes@),
        }
    }

    fn start_tag(&mut self, c: char, is_end: bool)
        ensures
            final(self).pos == old(self).pos,
            final(self).input == old(self).input,
            final(self).state == old(self).state,
            final(self).model() == start_tag_m(old(self).model(), c, is_end),
    {
        self.tag_name = Vec::new();
        self.tag_name.push(c);
        self.is_end_tag = is_end;
        self.self_closing = false;
        self.attributes = Vec::new();
        assert(self.tag_name@ =~= seq![c]);
        assert(attr_views(self.attributes@) =~= Seq::empty());
    }

    fn start_attribute(&mut self, c: char)
        ensures
            final(self).pos == old(self).pos,
            final(self).input == old(self).input,
            final(self).state == old(self).state,
            final(self).model() == start_attr_m(old(self).model(), c),
    {
        let mut a = Attribute::new();
        a.add_char(c, true);
        self.attributes.push(a);
        assert(a.name@ =~= seq![c]);
        assert(attr_views(self.attributes@) =~= attr_views(old(self).attributes@).push((seq![c], Seq::empty())));
    }

    fn append_attribute(&mut self, c: char, is_name: bool)
        ensures
            final(self).pos == old(self).pos,
            final(self).input == old(self).input,
            final(self).state == old(self).state,
            final(self).model() == append_attr_m(old(self).model(), c, is_name),
    {
        let n = self.attributes.len();
        if n == 0 {
            self.attributes.push(Attribute::new());
            assert(attr_views(self.attributes@) =~= attr_views(old(self).attributes@).push((Seq::empty(), Seq::empty())));
        }
        let ghost mid = attr_views(self.attributes@);
        let last = self.attributes.len() - 1;
        self.attributes[last].add_char(c, is_name);
        assert(attr_views(self.attributes@) =~= mid.update(
            last as int,
            if is_name {
                (mid[last as int].0.push(c), mid[last as int].1)
            } else {
                (mid[last as int].0, mid[last as int].1.push(c))
            },
        ));
    }

    fn emit_tag(&mut self) -> (r: HtmlToken)
        ensures
            final(self).pos == old(self).pos,
            final(self).input == old(self).input,
            final(self).state == TokenizerState::Data,
            !(r is Eof),
            (final(self).model(), Some(summary(r))) == emit_m(old(self).model()),
    {
        self.state = TokenizerState::Data;
        let tag = string_of(self.tag_name.as_slice());
        let mut attributes: Vec<Attribute> = Vec::new();
        core::mem::swap(&mut attributes, &mut self.attributes);
        assert(attr_views(self.attributes@) =~= Seq::empty());
        if self.is_end_tag {
            HtmlToken::EndTag { tag }
        } else {
            HtmlToken::StartTag { tag, self_closing: self.self_closing, attributes }
        }
    }

    /// Reads the character `c` (the cursor already past it) in the current
    /// state; a token when one is complete.
    #[verifier::rlimit(60)]
    fn consume_char(&mut self, c: char) -> (r: Option<HtmlToken>)
        requires
            old(self).pos >= 1,
            old(self).pos <= old(self).input@.len(),
        ensures
            final(self).input == old(self).input,
            (final(self).model(), match r {
                Some(t) => Some(summary(t)),
                None => None,
            }) == char_step(old(self).model(), c),
            r is None ==> final(self).pos == old(self).pos,
            r is Some ==> final(self).state == TokenizerState::Data,
            final(self).pos == old(self).pos || (final(self).pos == old(self).pos - 1 && old(self).state == TokenizerState::TagOpen),
    {
        match self.state {
            TokenizerState::Data => {
                if c == '<' {
                    self.state = TokenizerState::TagOpen;
                    None
                } else {
                    Some(HtmlToken::Char(c))
                }
            },
            TokenizerState::TagOpen => {
                if c == '/' {
                    self.state = TokenizerState::EndTagOpen;
                    None
                } else if ascii_alpha(c) {
                    self.start_tag(c, false);
                    self.state = TokenizerState::TagName;
                    None
                } else {
                    self.pos = self.pos - 1;
                    self.state = TokenizerState::Data;
                    Some(HtmlToken::Char('<'))
                }
            },
            TokenizerState::EndTagOpen => {
                if ascii_alpha(c) {
                    self.start_tag(c, true);
                    self.state = TokenizerState::TagName;
                } else {
                    self.state = TokenizerState::Data;
                }
                None
            },
            TokenizerState::TagName => {
                if space(c) {
                    self.state = TokenizerState::BeforeAttributeName;
                    None
                } else if c == '/' {
                    self.state = TokenizerState::SelfClosingStartTag;
                    None
                } else if c == '>' {
                    Some(self.emit_tag())
                } else {
                    self.tag_name.push(c);
                    None
                }
            },
            TokenizerState::BeforeAttributeName => {
                if space(c) {
                    None
                } else if c == '/' {
                    self.state = TokenizerState::SelfClosingStartTag;
                    None
                } else if c == '>' {
                    Some(self.emit_tag())
                } else {
                    self.start_attribute(c);
                    self.state = TokenizerState::AttributeName;
                    None
                }
            },
            TokenizerState::AttributeName => {
                if space(c) {
                    self.state = TokenizerState::AfterAttributeName;
                    None
                } else if c == '/' {
                    self.state = TokenizerState::SelfClosingStartTag;
                    None
                } else if c == '>' {
                    Some(self.emit_tag())
                } else if c == '=' {
                    self.state = TokenizerState::BeforeAttributeValue;
                    None
                } else {
                    self.append_attribute(c, true);
                    None
                }
            },
            TokenizerState::AfterAttributeName => {
                if space(c) {
                    None
                } else if c == '/' {
                    self.state = TokenizerState::SelfClosingStartTag;
                    None
                } else if c == '=' {
                    self.state = TokenizerState::BeforeAttributeValue;
                    None
                } else if c == '>' {
                    Some(self.emit_tag())
                } else {
                    self.start_attribute(c);
                    self.state = TokenizerState::AttributeName;
                    None
                }
            },
            TokenizerState::BeforeAttributeValue => {
                if space(c) {
                    None
                } else if c == '"' {
                    self.state = TokenizerState::AttributeValueDoubleQuoted;
                    None
                } else if c == '\'' {
                    self.state = TokenizerState::AttributeValueSingleQuoted;
                    None
                } else if c == '>' {
                    Some(self.emit_tag())
                } else {
                    self.append_attribute(c, false);
                    self.state = TokenizerState::AttributeValueUnquoted;
                    None
                }
            },
            TokenizerState::AttributeValueDoubleQuoted => {
                if c == '"' {
                    self.state = TokenizerState::AfterAttributeValueQuoted;
                } else {
                    self.append_attribute(c, false);
                }
                None
            },
            TokenizerState::AttributeValueSingleQuoted => {
                if c == '\'' {
                    self.state = TokenizerState::AfterAttributeValueQuoted;
                } else {
                    self.append_attribute(c, false);
                }
                None
            },
            TokenizerState::AttributeValueUnquoted => {
                if space(c) {
                    self.state = TokenizerState::BeforeAttributeName;
                    None
                } else if c == '>' {
                    Some(self.emit_tag())
                } else {
                    self.append_attribute(c, false);
                    None
                }
            },
            TokenizerState::AfterAttributeValueQuoted => {
                if space(c) {
                    self.state = TokenizerState::BeforeAttributeName;
                    None
                } else if c == '/' {
                    self.state = TokenizerState::SelfClosingStartTag;
                    None
                } else if c == '>' {
                    Some(self.emit_tag())
                } else {
                    self.start_attribute(c);
                    self.state = TokenizerState::AttributeName;
                    None
                }
            },
            TokenizerState::SelfClosingStartTag => {
                if c == '>' {
                    self.self_closing = true;
                    Some(self.emit_tag())
                } else {
                    self.state = TokenizerState::BeforeAttributeName;
                    None
                }
            },
        }
    }

    /// The next token: the token `next_model` reads from the input at the
    /// cursor. Every call before the end of the input reads at least one
    /// character; at the end of the input (including inside an unfinished
    /// tag, which is dropped) the token is `Eof`.
    pub fn next(&mut self) -> (r: HtmlToken)
        requires
            old(self).wf(),
        ensures
            final(self).wf(),
            final(self).input() == old(self).input(),
            final(self).position() <= final(self).input().len(),
            old(self).position() >= old(self).input().len() ==> r is Eof,
            old(self).position() < old(self).input().len() ==> final(self).position() > old(
                self,
            ).position(),
            r is Eof ==> final(self).position() == final(self).input().len(),
            (summary(r), final(self).model()) == next_model(old(self).input(), old(self).model()),
    {
        let ghost start = self.pos;
        loop
            invariant
                self.pos <= self.input@.len(),
                self.input == old(self).input,
                start == old(self).pos,
                start <= self.pos,
                self.state != TokenizerState::Data ==> self.pos >= start + 1,
                next_model(self.input@, self.model()) == next_model(old(self).input@, old(self).model()),
            decreases self.input@.len() - self.pos,
        {
            if self.pos >= self.input.len() {
                self.state = TokenizerState::Data;
                return HtmlToken::Eof;
            }
            let c = self.input[self.pos];
            self.pos = self.pos + 1;
            if let Some(t) = self.consume_char(c) {
                return t;
            }
        }
    }
}

/// Tokenizes all of `html`: every token but the last is not `Eof`, the last
/// is, and there are at most as many tokens before it as characters.
pub fn tokenize(html: String) -> (r: Vec<HtmlToken>)
    ensures
        r@.len() >= 1,
        r@.len() <= html@.len() + 1,
        r@[r@.len() - 1] is Eof,
        forall|i: int| 0 <= i < r@.len() - 1 ==> !(#[trigger] r@[i] is Eof),
{
    let ghost n = html@.len();
    let mut t = HtmlTokenizer::new(html);
    let mut r: Vec<HtmlToken> = Vec::new();
    loop
        invariant
            t.wf(),
            t.input().len() == n,
            r@.len() <= t.position(),
            t.position() <= n,
            n == html@.len(),
            forall|i: int| 0 <= i < r@.len() ==> !(#[trigger] r@[i] is Eof),
        decreases n - t.position(),
    {
        let tok = t.next();
        if let HtmlToken::Eof = tok {
            r.push(tok);
            return r;
        }
        r.push(tok);
    }
}

} // verus!
