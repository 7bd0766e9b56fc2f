//! The CSS parser: tokens to a style sheet.
use vstd::prelude::*;
use crate::css_token::{css_token_view, space_end, token_at, tokens_determined, tokens_match, CssToken, CssTokenView, CssTokenizer};
use crate::cssom::{ComponentValue, Declaration, QualifiedRule, Selector, StyleSheet};
use crate::text::{chars_of, string_of};

verus! {


/// A selector as (kind, name): 0 a tag, 1 a class, 2 an id, 3 unknown.
pub open spec fn selector_view(s: Selector) -> (nat, Seq<char>) {
    match s {
        Selector::TypeSelector(n) => (0, n@),
        Selector::ClassSelector(n) => (1, n@),
        Selector::IdSelector(n) => (2, n@),
        Selector::UnknownSelector => (3, Seq::empty()),
    }
}

/// A rule as its selector and its declarations.
pub open spec fn rule_view(r: QualifiedRule) -> ((nat, Seq<char>), Seq<Declaration>) {
    (selector_view(r.selector), r.declarations@)
}

pub open spec fn rules_view(rs: Seq<QualifiedRule>) -> Seq<((nat, Seq<char>), Seq<Declaration>)> {
    rs.map_values(|r: QualifiedRule| rule_view(r))
}

/// The first `{` at or after `p`, or the end.
pub open spec fn skip_to_curly(t: Seq<CssToken>, p: int) -> int
    decreases t.len() - p,
{
    if p < 0 || p >= t.len() || t[p] is OpenCurly {
        if p < 0 { 0 } else { p }
    } else {
        skip_to_curly(t, p + 1)
    }
}

/// The selector the tokens at `p` spell, and where it ends.
pub open spec fn selector_at(t: Seq<CssToken>, p: int) -> ((nat, Seq<char>), int) {
    match t[p] {
        CssToken::HashToken(v) => ((2nat, v@.subrange(if v@.len() > 0 { 1int } else { 0int }, v@.len() as int)), p + 1),
        CssToken::Delim(c) => if c == '.' && p + 1 < t.len() && t[p + 1] is Ident {
            ((1nat, t[p + 1]->Ident_0@), p + 2)
        } else {
            ((3nat, Seq::empty()), p + 1)
        },
        CssToken::Ident(v) => if p + 1 < t.len() && t[p + 1] is Colon {
            ((0nat, v@), skip_to_curly(t, p + 1))
        } else {
            ((0nat, v@), p + 1)
        },
        CssToken::AtKeyword(_) => ((3nat, Seq::empty()), skip_to_curly(t, p + 1)),
        _ => ((3nat, Seq::empty()), p + 1),
    }
}

/// The declaration that starts with the identifier at `p`, if the tokens
/// have the shape `property : value`, and where reading it stops.
pub open spec fn declaration_at(t: Seq<CssToken>, p: int) -> (Option<Declaration>, int) {
    if p + 1 >= t.len() {
        (None, p + 1)
    } else if !(t[p + 1] is Colon) {
        (None, p + 2)
    } else if p + 2 >= t.len() {
        (None, p + 2)
    } else {
        (Some(Declaration { property: t[p]->Ident_0, value: t[p + 2] }), p + 3)
    }
}

/// The declarations of a block whose `{` was before `p`, up to and
/// including its `}` (or the end), and where the block ends.
pub open spec fn declarations_from(t: Seq<CssToken>, p: int) -> (Seq<Declaration>, int)
    decreases t.len() - p,
{
    if p < 0 || p >= t.len() {
        (Seq::empty(), p)
    } else {
        match t[p] {
            CssToken::CloseCurly => (Seq::empty(), p + 1),
            CssToken::Ident(_) => {
                let (d, q) = declaration_at(t, p);
                let (rest, e) = declarations_from(t, q);
                match d {
                    Some(x) => (seq![x] + rest, e),
                    None => (rest, e),
                }
            },
            _ => declarations_from(t, p + 1),
        }
    }
}

/// The rule that starts at `p`, with `sel` the selector read so far: the
/// last selector before `{`, then the block. `None` when the tokens end
/// first.
pub open spec fn rule_from(t: Seq<CssToken>, p: int, sel: (nat, Seq<char>)) -> (Option<((nat, Seq<char>), Seq<Declaration>)>, int)
    decreases t.len() - p,
{
    if p < 0 || p >= t.len() {
        (None, p)
    } else if t[p] is OpenCurly {
        let (ds, e) = declarations_from(t, p + 1);
        (Some((sel, ds)), e)
    } else {
        let q = selector_at(t, p).1;
        if p < q <= t.len() {
            rule_from(t, q, selector_at(t, p).0)
        } else {
            (None, p)
        }
    }
}

/// The rules from `p` to the end. A rule that starts with an at-keyword is
/// read and dropped.
pub open spec fn rules_from(t: Seq<CssToken>, p: int) -> Seq<((nat, Seq<char>), Seq<Declaration>)>
    decreases t.len() - p,
{
    if p < 0 || p >= t.len() {
        Seq::empty()
    } else {
        let r = rule_from(t, p, (0nat, Seq::empty())).0;
        let e = rule_from(t, p, (0nat, Seq::empty())).1;
        if e <= p || e > t.len() {
            Seq::empty()
        } else if t[p] is AtKeyword {
            rules_from(t, e)
        } else {
            match r {
                Some(x) => seq![x] + rules_from(t, e),
                None => Seq::empty(),
            }
        }
    }
}

proof fn lemma_skip_to_curly(t: Seq<CssToken>, p: int)
    requires
        0 <= p <= t.len(),
    ensures
        p <= skip_to_curly(t, p) <= t.len(),
        skip_to_curly(t, p) < t.len() ==> t[skip_to_curly(t, p)] is OpenCurly,
    decreases t.len() - p,
{
    if p < t.len() && !(t[p] is OpenCurly) {
        lemma_skip_to_curly(t, p + 1);
    }
}

proof fn lemma_declarations_end(t: Seq<CssToken>, p: int)
    requires
        0 <= p <= t.len(),
    ensures
        p <= declarations_from(t, p).1 <= t.len(),
    decreases t.len() - p,
{
    if p < t.len() {
        match t[p] {
            CssToken::CloseCurly => {},
            CssToken::Ident(_) => {
                let q = declaration_at(t, p).1;
                if q <= t.len() {
                    lemma_declarations_end(t, q);
                }
            },
            _ => lemma_declarations_end(t, p + 1),
        }
    }
}

proof fn lemma_rule_end(t: Seq<CssToken>, p: int, sel: (nat, Seq<char>))
    requires
        0 <= p <= t.len(),
    ensures
        p <= rule_from(t, p, sel).1 <= t.len(),
        p < t.len() ==> p < rule_from(t, p, sel).1,
        rule_from(t, p, sel).0 is None ==> rule_from(t, p, sel).1 == t.len(),
    decreases t.len() - p,
{
    if p < t.len() {
        if t[p] is OpenCurly {
            lemma_declarations_end(t, p + 1);
        } else {
            lemma_selector_end(t, p);
            lemma_rule_end(t, selector_at(t, p).1, selector_at(t, p).0);
        }
    }
}

proof fn lemma_selector_end(t: Seq<CssToken>, p: int)
    requires
        0 <= p < t.len(),
    ensures
        p < selector_at(t, p).1 <= t.len(),
{
    match t[p] {
        CssToken::Ident(_) => {
            if p + 1 < t.len() && t[p + 1] is Colon {
                lemma_skip_to_curly(t, p + 1);
            }
        },
        CssToken::AtKeyword(_) => lemma_skip_to_curly(t, p + 1),
        _ => {},
    }
}

#[derive(Debug)]
pub struct CssParser {
    tokens: Vec<CssToken>,
    pos: usize,
}

impl CssParser {
    /// The tokens being parsed.
    pub closed spec fn tokens(&self) -> Seq<CssToken> {
        self.tokens@
    }

    /// How many tokens have been consumed.
    pub closed spec fn position(&self) -> int {
        self.pos as int
    }

    pub closed spec fn wf(&self) -> bool {
        self.pos <= self.tokens@.len()
    }

    /// A parser over every token `t` produces.
    pub fn new(t: CssTokenizer) -> (r: Self)
        requires
            t.wf(),
            t.position() <= t.input().len(),
        ensures
            r.wf(),
            r.position() == 0,
            tokens_match(t.input(), t.position() as int, r.tokens()),
            t.position() == t.input().len() ==> r.tokens().len() == 0,
    {
        let ghost old_t = t;
        let ghost s = t.input();
        let mut t = t;
        let mut tokens: Vec<CssToken> = Vec::new();
        loop
            invariant_except_break
                forall|rest: Seq<CssToken>|
                    #[trigger] tokens_match(s, t.position() as int, rest) ==> tokens_match(
                        s,
                        old_t.position() as int,
                        tokens@ + rest,
                    ),
            invariant
                t.wf(),
                t.position() <= t.input().len(),
                t.input() == s,
                s == old_t.input(),
                old_t.position() == old_t.input().len() ==> tokens@.len() == 0 && t.position() == old_t.position(),
            ensures
                tokens_match(s, old_t.position() as int, tokens@),
                old_t.position() == old_t.input().len() ==> tokens@.len() == 0,
            decreases t.input().len() - t.position(),
        {
            let ghost p0 = t.position() as int;
            let ghost before = tokens@;
            match t.next() {
                Some(tok) => {
                    tokens.push(tok);
                    proof {
                        let q = t.position() as int;
                        assert forall|rest: Seq<CssToken>|
                            #[trigger] tokens_match(s, q, rest) implies tokens_match(
                                s,
                                old_t.position() as int,
                                tokens@ + rest,
                            ) by {
                            let r2 = seq![tok] + rest;
                            assert(r2.drop_first() =~= rest);
                            assert(token_at(s, space_end(s, p0), r2[0], q));
                            assert(tokens_match(s, p0, r2));
                            assert(before + r2 =~= tokens@ + rest);
                        }
                    }
                },
                None => {
                    proof {
                        assert(space_end(s, p0) >= s.len());
                        assert(tokens_match(s, p0, Seq::<CssToken>::empty()));
                        assert(tokens@ + Seq::<CssToken>::empty() =~= tokens@);
                    }
                    break;
                },
            }
        }
        CssParser { tokens, pos: 0 }
    }

    fn peek(&self) -> (r: Option<&CssToken>)
        requires
            self.wf(),
        ensures
            self.pos < self.tokens@.len() ==> r == Some(&self.tokens@[self.pos as int]),
            self.pos >= self.tokens@.len() ==> r is None,
    {
        if self.pos < self.tokens.len() {
            Some(&self.tokens[self.pos])
        } else {
            None
        }
    }

    /// Consumes and returns the next token.
    fn next(&mut self) -> (r: Option<CssToken>)
        requires
            old(self).wf(),
        ensures
            final(self).wf(),
            final(self).tokens == old(self).tokens,
            old(self).pos < old(self).tokens@.len() ==> r == Some(old(self).tokens@[old(self).pos as int])
                && final(self).pos == old(self).pos + 1,
            old(self).pos >= old(self).tokens@.len() ==> r is None && final(self).pos == old(self).pos,
    {
        if self.pos < self.tokens.len() {
            let t = self.tokens[self.pos].clone();
            self.pos = self.pos + 1;
            Some(t)
        } else {
            None
        }
    }

    /// Consumes tokens up to, not including, the next `{` (or to the end).
    fn skip_to_open_curly(&mut self)
        requires
            old(self).wf(),
        ensures
            final(self).wf(),
            final(self).tokens == old(self).tokens,
            final(self).pos >= old(self).pos,
            final(self).pos < final(self).tokens@.len() ==> final(self).tokens@[final(self).pos as int] is OpenCurly,
            final(self).pos == skip_to_curly(old(self).tokens@, old(self).pos as int),
    {
        while self.pos < self.tokens.len()
            invariant
                self.wf(),
                self.tokens == old(self).tokens,
                self.pos >= old(self).pos,
                skip_to_curly(self.tokens@, self.pos as int) == skip_to_curly(old(self).tokens@, old(self).pos as int),
            decreases self.tokens@.len() - self.pos,
        {
            if let CssToken::OpenCurly = self.tokens[self.pos] {
                return ;
            }
            self.pos = self.pos + 1;
        }
    }

    /// The whole style sheet.
    pub fn parse_stylesheet(&mut self) -> (r: StyleSheet)
        requires
            old(self).wf(),
        ensures
            final(self).wf(),
            final(self).position() == final(self).tokens().len(),
            rules_view(r.rules@) == rules_from(old(self).tokens(), old(self).position()),
            old(self).position() == old(self).tokens().len() ==> r.rules@.len() == 0,
    {
        let mut sheet = StyleSheet::new();
        sheet.set_rules(self.consume_list_of_rules());
        sheet
    }

    /// Rules up to the end of the tokens. Rules that start with an
    /// at-keyword are read and dropped.
    fn consume_list_of_rules(&mut self) -> (r: Vec<QualifiedRule>)
        requires
            old(self).wf(),
        ensures
            final(self).wf(),
            final(self).tokens == old(self).tokens,
            final(self).pos == final(self).tokens@.len(),
            rules_view(r@) == rules_from(old(self).tokens@, old(self).pos as int),
            old(self).pos == old(self).tokens@.len() ==> r@.len() == 0,
    {
        let mut rules: Vec<QualifiedRule> = Vec::new();
        loop
            invariant
                self.wf(),
                self.tokens == old(self).tokens,
                old(self).pos == old(self).tokens@.len() ==> rules@.len() == 0 && self.pos == old(self).pos,
                rules_from(old(self).tokens@, old(self).pos as int) == rules_view(rules@) + rules_from(
                    self.tokens@,
                    self.pos as int,
                ),
            decreases self.tokens@.len() - self.pos,
        {
            let ghost p = self.pos as int;
            let ghost before = rules@;
            let at_rule = match self.peek() {
                None => {
                    assert(rules_view(rules@) + Seq::empty() == rules_view(rules@));
                    return rules;
                },
                Some(CssToken::AtKeyword(_)) => true,
                Some(_) => false,
            };
            proof {
                lemma_rule_end(self.tokens@, p, (0nat, Seq::empty()));
            }
            let rule = self.consume_qualified_rule();
            if !at_rule {
                match rule {
                    Some(r) => {
                        rules.push(r);
                        proof {
                            assert(rules_view(rules@) == rules_view(before).push(rule_view(r)));
                            assert(rules_view(before) + rules_from(self.tokens@, p) == rules_view(
                                before,
                            ) + (seq![rule_view(r)] + rules_from(self.tokens@, self.pos as int)));
                            assert(rules_view(before).push(rule_view(r)) + rules_from(self.tokens@, self.pos as int)
                                == rules_view(before) + (seq![rule_view(r)] + rules_from(self.tokens@, self.pos as int)));
                        }
                    },
                    None => {
                        assert(rules_view(rules@) + Seq::empty() == rules_view(rules@));
                        return rules;
                    },
                }
            }
        }
    }

    /// One rule: selector tokens up to `{`, then the declaration block.
    /// `None` when the tokens end before the block.
    fn consume_qualified_rule(&mut self) -> (r: Option<QualifiedRule>)
        requires
            old(self).wf(),
        ensures
            final(self).wf(),
            final(self).tokens == old(self).tokens,
            old(self).pos < old(self).tokens@.len() ==> final(self).pos > old(self).pos,
            r is None ==> final(self).pos == final(self).tokens@.len(),
            ({
                let m = rule_from(old(self).tokens@, old(self).pos as int, (0nat, Seq::empty()));
                &&& final(self).pos == m.1
                &&& (r is None <==> m.0 is None)
                &&& (r matches Some(q) ==> m.0 == Some(rule_view(q)))
            }),
    {
        let mut rule = QualifiedRule::new();
        loop
            invariant
                self.wf(),
                self.tokens == old(self).tokens,
                self.pos >= old(self).pos,
                rule_from(old(self).tokens@, old(self).pos as int, (0nat, Seq::empty())) == rule_from(
                    self.tokens@,
                    self.pos as int,
                    selector_view(rule.selector),
                ),
            decreases self.tokens@.len() - self.pos,
        {
            let open = match self.peek() {
                None => return None,
                Some(CssToken::OpenCurly) => true,
                Some(_) => false,
            };
            if open {
                self.next();
                rule.set_declarations(self.consume_list_of_declarations());
                return Some(rule);
            }
            proof {
                lemma_selector_end(self.tokens@, self.pos as int);
            }
            rule.set_selector(self.consume_selector());
        }
    }

    /// One selector, from the tokens at the cursor: `#id`, `.class` or a tag
    /// name (any `:pseudo` part after it is skipped up to `{`). Anything else,
    /// an at-keyword's prelude included, is an unknown selector.
    fn consume_selector(&mut self) -> (r: Selector)
        requires
            old(self).wf(),
            old(self).pos < old(self).tokens@.len(),
        ensures
            final(self).wf(),
            final(self).tokens == old(self).tokens,
            final(self).pos > old(self).pos,
            selector_view(r) == selector_at(old(self).tokens@, old(self).pos as int).0,
            final(self).pos == selector_at(old(self).tokens@, old(self).pos as int).1,
    {
        let token = match self.next() {
            Some(t) => t,
            None => return Selector::UnknownSelector,
        };
        match token {
            CssToken::HashToken(value) => {
                let v = chars_of(value.as_str());
                let from: usize = if v.len() > 0 { 1 } else { 0 };
                let id = string_of(vstd::slice::slice_subrange(v.as_slice(), from, v.len()));
                Selector::IdSelector(id)
            },
            CssToken::Delim(c) => {
                if c == '.' {
                    let is_ident = match self.peek() {
                        Some(CssToken::Ident(_)) => true,
                        _ => false,
                    };
                    if is_ident {
                        if let Some(CssToken::Ident(name)) = self.next() {
                            return Selector::ClassSelector(name);
                        }
                    }
                }
                Selector::UnknownSelector
            },
            CssToken::Ident(ident) => {
                let colon = match self.peek() {
                    Some(CssToken::Colon) => true,
                    _ => false,
                };
                if colon {
                    self.skip_to_open_curly();
                }
                Selector::TypeSelector(ident)
            },
            CssToken::AtKeyword(_) => {
                self.skip_to_open_curly();
                Selector::UnknownSelector
            },
            _ => Selector::UnknownSelector,
        }
    }

    /// Declarations up to and including the closing `}` (or to the end).
    /// Separating `;` and stray tokens are skipped.
    fn consume_list_of_declarations(&mut self) -> (r: Vec<Declaration>)
        requires
            old(self).wf(),
        ensures
            final(self).wf(),
            final(self).tokens == old(self).tokens,
            final(self).pos >= old(self).pos,
            r@ == declarations_from(old(self).tokens@, old(self).pos as int).0,
            final(self).pos == declarations_from(old(self).tokens@, old(self).pos as int).1,
    {
        let mut declarations: Vec<Declaration> = Vec::new();
        loop
            invariant
                self.wf(),
                self.tokens == old(self).tokens,
                self.pos >= old(self).pos,
                declarations_from(old(self).tokens@, old(self).pos as int) == (
                    declarations@ + declarations_from(self.tokens@, self.pos as int).0,
                    declarations_from(self.tokens@, self.pos as int).1,
                ),
            decreases self.tokens@.len() - self.pos,
        {
            let ghost before = declarations@;
            let ghost p = self.pos as int;
            let kind: u8 = match self.peek() {
                None => {
                    assert(declarations@ + Seq::<Declaration>::empty() == declarations@);
                    return declarations;
                },
                Some(CssToken::CloseCurly) => 0,
                Some(CssToken::Ident(_)) => 1,
                Some(_) => 2,
            };
            if kind == 0 {
                self.next();
                assert(declarations@ + Seq::<Declaration>::empty() == declarations@);
                return declarations;
            } else if kind == 1 {
                if let Some(d) = self.consume_declaration() {
                    declarations.push(d);
                    proof {
                        let rest = declarations_from(self.tokens@, self.pos as int).0;
                        assert(before + (seq![d] + rest) == before.push(d) + rest);
                    }
                }
            } else {
                self.next();
            }
        }
    }

    /// `property : value` from the cursor, where `property` is an identifier
    /// and `value` is the one token after the colon. `None` (with what was
    /// read consumed) when the shape does not hold.
    fn consume_declaration(&mut self) -> (r: Option<Declaration>)
        requires
            old(self).wf(),
            old(self).pos < old(self).tokens@.len(),
            old(self).tokens@[old(self).pos as int] is Ident,
        ensures
            final(self).wf(),
            final(self).tokens == old(self).tokens,
            final(self).pos > old(self).pos,
            (r, final(self).pos as int) == declaration_at(old(self).tokens@, old(self).pos as int),
    {
        let mut declaration = Declaration::new();
        let property = match self.consume_ident() {
            Some(p) => p,
            None => return None,
        };
        declaration.set_property(property);
        match self.next() {
            Some(CssToken::Colon) => {},
            _ => return None,
        }
        match self.consume_component_value() {
            Some(v) => {
                declaration.set_value(v);
                Some(declaration)
            },
            None => None,
        }
    }

    /// The identifier at the cursor, consumed; `None` (nothing consumed) when
    /// the token there is not an identifier.
    fn consume_ident(&mut self) -> (r: Option<String>)
        requires
            old(self).wf(),
        ensures
            final(self).wf(),
            final(self).tokens == old(self).tokens,
            old(self).pos < old(self).tokens@.len() && old(self).tokens@[old(self).pos as int] is Ident
                ==> r == Some(old(self).tokens@[old(self).pos as int]->Ident_0) && final(self).pos
                == old(self).pos + 1,
            !(old(self).pos < old(self).tokens@.len() && old(self).tokens@[old(self).pos as int] is Ident)
                ==> r is None && final(self).pos == old(self).pos,
    {
        let is_ident = match self.peek() {
            Some(CssToken::Ident(_)) => true,
            _ => false,
        };
        if !is_ident {
            return None;
        }
        match self.next() {
            Some(CssToken::Ident(s)) => Some(s),
            _ => None,
        }
    }

    /// The next token, taken verbatim as a value.
    fn consume_component_value(&mut self) -> (r: Option<ComponentValue>)
        requires
            old(self).wf(),
        ensures
            final(self).wf(),
            final(self).tokens == old(self).tokens,
            old(self).pos < old(self).tokens@.len() ==> r == Some(old(self).tokens@[old(self).pos as int])
                && final(self).pos == old(self).pos + 1,
            old(self).pos >= old(self).tokens@.len() ==> r is None && final(self).pos == old(self).pos,
    {
        self.next()
    }
}

} // verus!

verus! {

/// A declaration as characters: its property and its value's view.
pub open spec fn decl_text(d: Declaration) -> (Seq<char>, CssTokenView) {
    (d.property@, css_token_view(d.value))
}

/// A rule as characters: its selector and its declarations.
pub open spec fn rule_text(r: ((nat, Seq<char>), Seq<Declaration>)) -> ((nat, Seq<char>), Seq<(Seq<char>, CssTokenView)>) {
    (r.0, r.1.map_values(|d: Declaration| decl_text(d)))
}

pub open spec fn rules_text(rs: Seq<((nat, Seq<char>), Seq<Declaration>)>) -> Seq<((nat, Seq<char>), Seq<(Seq<char>, CssTokenView)>)> {
    rs.map_values(|r: ((nat, Seq<char>), Seq<Declaration>)| rule_text(r))
}

/// Two token sequences with the same characters, token by token.
pub open spec fn same_text(a: Seq<CssToken>, b: Seq<CssToken>) -> bool {
    a.len() == b.len() && forall|i: int| 0 <= i < a.len() ==> css_token_view(#[trigger] a[i]) == css_token_view(b[i])
}

proof fn lemma_skip_same(a: Seq<CssToken>, b: Seq<CssToken>, p: int)
    requires
        same_text(a, b),
    ensures
        skip_to_curly(a, p) == skip_to_curly(b, p),
    decreases a.len() - p,
{
    if 0 <= p < a.len() {
        assert(css_token_view(a[p]) == css_token_view(b[p]));
        lemma_skip_same(a, b, p + 1);
    }
}

proof fn lemma_selector_same(a: Seq<CssToken>, b: Seq<CssToken>, p: int)
    requires
        same_text(a, b),
        0 <= p < a.len(),
    ensures
        selector_at(a, p) == selector_at(b, p),
{
    assert(css_token_view(a[p]) == css_token_view(b[p]));
    if p + 1 < a.len() {
        assert(css_token_view(a[p + 1]) == css_token_view(b[p + 1]));
        lemma_skip_same(a, b, p + 1);
    }
}

proof fn lemma_declarations_same(a: Seq<CssToken>, b: Seq<CssToken>, p: int)
    requires
        same_text(a, b),
    ensures
        declarations_from(a, p).1 == declarations_from(b, p).1,
        declarations_from(a, p).0.map_values(|d: Declaration| decl_text(d)) == declarations_from(b, p).0.map_values(
            |d: Declaration| decl_text(d),
        ),
    decreases a.len() - p,
{
    let da = declarations_from(a, p).0;
    let db = declarations_from(b, p).0;
    if 0 <= p < a.len() {
        assert(css_token_view(a[p]) == css_token_view(b[p]));
        if p + 1 < a.len() {
            assert(css_token_view(a[p + 1]) == css_token_view(b[p + 1]));
        }
        if p + 2 < a.len() {
            assert(css_token_view(a[p + 2]) == css_token_view(b[p + 2]));
        }
        match a[p] {
            CssToken::CloseCurly => {
                assert(da.map_values(|d: Declaration| decl_text(d)) =~= db.map_values(|d: Declaration| decl_text(d)));
            },
            CssToken::Ident(_) => {
                let q = declaration_at(a, p).1;
                assert(q == declaration_at(b, p).1);
                lemma_declarations_same(a, b, q);
                let ra = declarations_from(a, q).0;
                let rb = declarations_from(b, q).0;
                match declaration_at(a, p).0 {
                    Some(x) => {
                        let y = declaration_at(b, p).0->Some_0;
                        assert(decl_text(x) == decl_text(y));
                        assert(da == seq![x] + ra);
                        assert(db == seq![y] + rb);
                        assert(da.map_values(|d: Declaration| decl_text(d)) =~= seq![decl_text(x)] + ra.map_values(|d: Declaration| decl_text(d)));
                        assert(db.map_values(|d: Declaration| decl_text(d)) =~= seq![decl_text(y)] + rb.map_values(|d: Declaration| decl_text(d)));
                    },
                    None => {},
                }
            },
            _ => {
                lemma_declarations_same(a, b, p + 1);
            },
        }
    } else {
        assert(da.map_values(|d: Declaration| decl_text(d)) =~= db.map_values(|d: Declaration| decl_text(d)));
    }
}

proof fn lemma_rule_same(a: Seq<CssToken>, b: Seq<CssToken>, p: int, sel: (nat, Seq<char>))
    requires
        same_text(a, b),
    ensures
        rule_from(a, p, sel).1 == rule_from(b, p, sel).1,
        rule_from(a, p, sel).0 is None <==> rule_from(b, p, sel).0 is None,
        rule_from(a, p, sel).0 is Some ==> rule_text(rule_from(a, p, sel).0->Some_0) == rule_text(
            rule_from(b, p, sel).0->Some_0,
        ),
    decreases a.len() - p,
{
    if 0 <= p < a.len() {
        assert(css_token_view(a[p]) == css_token_view(b[p]));
        if a[p] is OpenCurly {
            lemma_declarations_same(a, b, p + 1);
        } else {
            lemma_selector_same(a, b, p);
            let q = selector_at(a, p).1;
            if p < q <= a.len() {
                lemma_rule_same(a, b, q, selector_at(a, p).0);
            }
        }
    }
}

proof fn lemma_rules_same(a: Seq<CssToken>, b: Seq<CssToken>, p: int)
    requires
        same_text(a, b),
    ensures
        rules_text(rules_from(a, p)) == rules_text(rules_from(b, p)),
    decreases a.len() - p,
{
    if 0 <= p < a.len() {
        assert(css_token_view(a[p]) == css_token_view(b[p]));
        lemma_rule_same(a, b, p, (0nat, Seq::empty()));
        let e = rule_from(a, p, (0nat, Seq::empty())).1;
        if p < e <= a.len() {
            lemma_rules_same(a, b, e);
            if !(a[p] is AtKeyword) {
                if let Some(x) = rule_from(a, p, (0nat, Seq::empty())).0 {
                    let y = rule_from(b, p, (0nat, Seq::empty())).0->Some_0;
                    assert(rules_text(seq![x] + rules_from(a, e)) =~= seq![rule_text(x)] + rules_text(rules_from(a, e)));
                    assert(rules_text(seq![y] + rules_from(b, e)) =~= seq![rule_text(y)] + rules_text(rules_from(b, e)));
                }
            }
        }
    }
    assert(rules_text(rules_from(a, p)) =~= rules_text(rules_from(b, p)));
}

/// Parsing the same style sheet text twice gives the same rules: the rules
/// read from any two token sequences of text `s` have the same selectors and
/// the same declarations, character for character.
pub proof fn css_parse_determined(s: Seq<char>, t1: Seq<CssToken>, t2: Seq<CssToken>)
    requires
        tokens_match(s, 0, t1),
        tokens_match(s, 0, t2),
    ensures
        rules_text(rules_from(t1, 0)) == rules_text(rules_from(t2, 0)),
{
    tokens_determined(s, 0, t1, t2);
    lemma_rules_same(t1, t2, 0);
}

} // verus!
