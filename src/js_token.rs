//! The script lexer.
use vstd::prelude::*;
use crate::css_token::{digits_end, digits_value, lemma_digits_end, space_end};
use crate::text::{ascii_alpha, ascii_digit, chars_of, digit_value, is_ascii_alpha, is_ascii_digit, string_of};

verus! {

#[derive(Debug, Clone, PartialEq, Eq)]
pub enum Token {
    Punctuator(char),
    Number(u64),
    Identifier(String),
    Keyword(String),
    StringLiteral(String),
    /// A character no token can start with; it is skipped.
    Unsupported(char),
}

/// Characters that may continue an identifier.
pub open spec fn is_identifier_char(c: char) -> bool {
    is_ascii_alpha(c) || is_ascii_digit(c) || c == '$' || c == '_'
}

/// Where the run of identifier characters that starts at `i` ends.
pub open spec fn identifier_end(s: Seq<char>, i: int) -> int
    decreases s.len() - i,
{
    if i < 0 || i >= s.len() || !is_identifier_char(s[i]) {
        i
    } else {
        identifier_end(s, i + 1)
    }
}

/// The first `"` at or after `i`, or the end.
pub open spec fn dquote_end(s: Seq<char>, i: int) -> int
    decreases s.len() - i,
{
    if i < 0 || i >= s.len() || s[i] == '"' {
        i
    } else {
        dquote_end(s, i + 1)
    }
}

/// Whether `s` continues with `w` at `p`.
pub open spec fn starts_with_at(s: Seq<char>, p: int, w: Seq<char>) -> bool {
    p + w.len() <= s.len() && s.subrange(p, p + w.len()) == w
}

/// Whether `r` is the token the characters at `p` (the first one not a
/// space) spell, ending at `q`. A reserved word is recognised wherever its
/// letters stand, even at the start of a longer identifier.
pub open spec fn js_token_at(s: Seq<char>, p: int, r: Token, q: int) -> bool {
    let c = s[p];
    if starts_with_at(s, p, "var"@) {
        r matches Token::Keyword(w) && w@ == "var"@ && q == p + 3
    } else if starts_with_at(s, p, "function"@) {
        r matches Token::Keyword(w) && w@ == "function"@ && q == p + 8
    } else if starts_with_at(s, p, "return"@) {
        r matches Token::Keyword(w) && w@ == "return"@ && q == p + 6
    } else if c == '+' || c == '-' || c == ';' || c == '=' || c == '(' || c == ')' || c == '{'
        || c == '}' || c == ',' || c == '.' {
        r == Token::Punctuator(c) && q == p + 1
    } else if is_ascii_alpha(c) || c == '_' || c == '$' {
        r matches Token::Identifier(v) && v@ == s.subrange(p, identifier_end(s, p)) && q
            == identifier_end(s, p)
    } else if is_ascii_digit(c) {
        &&& r matches Token::Number(n) && n == if digits_value(s, p, digits_end(s, p)) <= u64::MAX {
            digits_value(s, p, digits_end(s, p))
        } else {
            u64::MAX as nat
        }
        &&& q == digits_end(s, p)
    } else if c == '"' {
        let e = dquote_end(s, p + 1);
        r matches Token::StringLiteral(v) && v@ == s.subrange(p + 1, e) && q == if e < s.len() {
            e + 1
        } else {
            e
        }
    } else {
        r == Token::Unsupported(c) && q == p + 1
    }
}

/// Whether `toks` are the tokens read from `s` starting at `p`, to the end.
pub open spec fn js_tokens_match(s: Seq<char>, p: int, toks: Seq<Token>) -> bool
    decreases toks.len(),
{
    let p2 = space_end(s, p);
    if toks.len() == 0 {
        p2 >= s.len()
    } else {
        p2 < s.len() && exists|q: int|
            #[trigger] js_token_at(s, p2, toks[0], q) && js_tokens_match(s, q, toks.drop_first())
    }
}

#[derive(Debug)]
pub struct JsLexer {
    pos: usize,
    input: Vec<char>,
}

impl JsLexer {
    pub closed spec fn position(&self) -> nat {
        self.pos as nat
    }

    pub closed spec fn input(&self) -> Seq<char> {
        self.input@
    }

    pub closed spec fn wf(&self) -> bool {
        self.pos <= self.input@.len()
    }

    pub fn new(js: String) -> (r: Self)
        ensures
            r.wf(),
            r.position() == 0,
            r.input() == js@,
            r.position() <= r.input().len(),
    {
        JsLexer { pos: 0, input: chars_of(js.as_str()) }
    }

    /// Whether the input continues with `keyword` at the cursor.
    fn contains(&self, keyword: &str) -> (r: bool)
        requires
            self.wf(),
        ensures
            r == (self.pos + keyword@.len() <= self.input@.len() && self.input@.subrange(
                self.pos as int,
                self.pos + keyword@.len(),
            ) == keyword@),
    {
        let k = chars_of(keyword);
        let n = self.input.len();
        if k.len() > self.input.len() - self.pos {
            return false;
        }
        let mut i: usize = 0;
        while i < k.len()
            invariant
                k@ == keyword@,
                i <= k@.len(),
                self.pos + k@.len() <= self.input@.len(),
                self.input@.len() <= usize::MAX,
                self.input@.subrange(self.pos as int, self.pos + i) == k@.subrange(0, i as int),
            decreases k@.len() - i,
        {
            if k[i] != self.input[self.pos + i] {
                assert(self.input@.subrange(self.pos as int, self.pos + k@.len())[i as int] != k@[i as int]);
                return false;
            }
            assert(self.input@.subrange(self.pos as int, self.pos + i + 1) == self.input@.subrange(
                self.pos as int,
                self.pos + i,
            ).push(self.input@[self.pos + i]));
            assert(k@.subrange(0, i + 1) == k@.subrange(0, i as int).push(k@[i as int]));
            i = i + 1;
        }
        assert(k@.subrange(0, i as int) == k@);
        true
    }

    /// The reserved word (`var`, `function` or `return`) the input continues
    /// with at the cursor, if any.
    fn check_reserved_word(&self) -> (r: Option<String>)
        requires
            self.wf(),
        ensures
            r matches Some(w) ==> w@.len() > 0 && self.pos + w@.len() <= self.input@.len(),
            starts_with_at(self.input@, self.pos as int, "var"@) ==> (r matches Some(w) && w@ == "var"@),
            !starts_with_at(self.input@, self.pos as int, "var"@) && starts_with_at(self.input@, self.pos as int, "function"@)
                ==> (r matches Some(w) && w@ == "function"@),
            !starts_with_at(self.input@, self.pos as int, "var"@) && !starts_with_at(self.input@, self.pos as int, "function"@)
                && starts_with_at(self.input@, self.pos as int, "return"@) ==> (r matches Some(w) && w@ == "return"@),
            !starts_with_at(self.input@, self.pos as int, "var"@) && !starts_with_at(self.input@, self.pos as int, "function"@)
                && !starts_with_at(self.input@, self.pos as int, "return"@) ==> r is None,
    {
        proof {
            reveal_strlit("var");
            reveal_strlit("function");
            reveal_strlit("return");
        }
        if self.contains("var") {
            return Some(String::from_str("var"));
        }
        if self.contains("function") {
            return Some(String::from_str("function"));
        }
        if self.contains("return") {
            return Some(String::from_str("return"));
        }
        None
    }

    /// Reads the identifier at the cursor: letters, digits, `$` and `_`.
    fn consume_identifier(&mut self) -> (r: String)
        requires
            old(self).wf(),
        ensures
            final(self).wf(),
            final(self).input == old(self).input,
            final(self).pos >= old(self).pos,
            r@ == old(self).input@.subrange(old(self).pos as int, final(self).pos as int),
            old(self).pos < old(self).input@.len() && is_identifier_char(old(self).input@[old(self).pos as int])
                ==> final(self).pos > old(self).pos,
            final(self).pos == identifier_end(old(self).input@, old(self).pos as int),
    {
        let start = self.pos;
        while self.pos < self.input.len() && (ascii_alpha(self.input[self.pos]) || ascii_digit(
            self.input[self.pos],
        ) || self.input[self.pos] == '$' || self.input[self.pos] == '_')
            invariant
                self.input == old(self).input,
                start == old(self).pos,
                start <= self.pos <= self.input@.len(),
                identifier_end(self.input@, self.pos as int) == identifier_end(self.input@, start as int),
            decreases self.input@.len() - self.pos,
        {
            self.pos = self.pos + 1;
        }
        string_of(vstd::slice::slice_subrange(self.input.as_slice(), start, self.pos))
    }

    /// Reads a string literal whose opening `"` is under the cursor, up to
    /// the closing `"` (consumed) or the end of input.
    fn consume_string(&mut self) -> (r: String)
        requires
            old(self).wf(),
            old(self).pos < old(self).input@.len(),
        ensures
            final(self).wf(),
            final(self).input == old(self).input,
            final(self).pos > old(self).pos,
            ({
                let e = dquote_end(old(self).input@, old(self).pos + 1);
                &&& r@ == old(self).input@.subrange(old(self).pos + 1, e)
                &&& final(self).pos == if e < old(self).input@.len() {
                    e + 1
                } else {
                    e
                }
            }),
    {
        let n = self.input.len();
        self.pos = self.pos + 1;
        let start = self.pos;
        while self.pos < self.input.len() && self.input[self.pos] != '"'
            invariant
                self.input == old(self).input,
                start == old(self).pos + 1,
                start <= self.pos <= self.input@.len(),
                dquote_end(self.input@, self.pos as int) == dquote_end(self.input@, start as int),
            decreases self.input@.len() - self.pos,
        {
            self.pos = self.pos + 1;
        }
        let s = string_of(vstd::slice::slice_subrange(self.input.as_slice(), start, self.pos));
        if self.pos < self.input.len() {
            self.pos = self.pos + 1;
        }
        s
    }

    /// Reads the digits at the cursor as a decimal number, saturating at
    /// `u64::MAX`.
    pub fn consume_number(&mut self) -> (r: u64)
        requires
            old(self).wf(),
        ensures
            final(self).wf(),
            final(self).input() == old(self).input(),
            final(self).position() == digits_end(old(self).input(), old(self).position() as int),
            r == if digits_value(old(self).input(), old(self).position() as int, digits_end(old(self).input(), old(self).position() as int)) <= u64::MAX {
                digits_value(old(self).input(), old(self).position() as int, digits_end(old(self).input(), old(self).position() as int))
            } else {
                u64::MAX as nat
            },
    {
        let start = self.pos;
        let mut result: u64 = 0;
        let mut saturated = false;
        proof {
            lemma_digits_end(self.input@, start as int);
        }
        while self.pos < self.input.len() && ascii_digit(self.input[self.pos])
            invariant
                self.input == old(self).input,
                start == old(self).pos,
                start <= self.pos <= self.input@.len(),
                digits_end(self.input@, self.pos as int) == digits_end(self.input@, start as int),
                saturated ==> result == u64::MAX && digits_value(self.input@, start as int, self.pos as int) > u64::MAX,
                !saturated ==> result == digits_value(self.input@, start as int, self.pos as int),
            decreases self.input@.len() - self.pos,
        {
            let d = digit_value(self.input[self.pos]);
            proof {
                assert(d == (self.input@[self.pos as int] as nat - '0' as nat) as nat);
                assert(digits_value(self.input@, start as int, self.pos + 1) == digits_value(self.input@, start as int, self.pos as int) * 10 + d);
            }
            if !saturated {
                if result > (u64::MAX - d) / 10 {
                    assert(digits_value(self.input@, start as int, self.pos + 1) > u64::MAX) by (nonlinear_arith)
                        requires
                            digits_value(self.input@, start as int, self.pos + 1) == digits_value(self.input@, start as int, self.pos as int) * 10 + d,
                            digits_value(self.input@, start as int, self.pos as int) == result as nat,
                            result > (u64::MAX - d) / 10,
                            d < 10;
                    saturated = true;
                    result = u64::MAX;
                } else {
                    assert(result * 10 + d <= u64::MAX) by (nonlinear_arith)
                        requires result <= (u64::MAX - d) / 10, d < 10;
                    result = result * 10 + d;
                }
            } else {
                assert(digits_value(self.input@, start as int, self.pos + 1) >= digits_value(self.input@, start as int, self.pos as int)) by (nonlinear_arith)
                    requires digits_value(self.input@, start as int, self.pos + 1) == digits_value(self.input@, start as int, self.pos as int) * 10 + d;
            }
            self.pos = self.pos + 1;
        }
        result
    }

    /// The next token, or `None` at the end of the input. Each token read
    /// moves the cursor forward.
    pub fn next(&mut self) -> (r: Option<Token>)
        requires
            old(self).wf(),
        ensures
            final(self).wf(),
            final(self).input() == old(self).input(),
            final(self).position() <= final(self).input().len(),
            final(self).position() >= old(self).position(),
            r is Some ==> final(self).position() > old(self).position(),
            r is None ==> final(self).position() == final(self).input().len(),
            ({
                let s = old(self).input();
                let p = space_end(s, old(self).position() as int);
                &&& p >= s.len() ==> r is None
                &&& p < s.len() ==> (r matches Some(t) && js_token_at(s, p, t, final(self).position() as int))
            }),
    {
        while self.pos < self.input.len() && (self.input[self.pos] == ' ' || self.input[self.pos] == '\n'
            || self.input[self.pos] == '\t' || self.input[self.pos] == '\r')
            invariant
                self.input == old(self).input,
                old(self).pos <= self.pos <= self.input@.len(),
                space_end(self.input@, self.pos as int) == space_end(self.input@, old(self).pos as int),
            decreases self.input@.len() - self.pos,
        {
            self.pos = self.pos + 1;
        }
        if self.pos >= self.input.len() {
            return None;
        }
        proof {
            reveal_strlit("var");
            reveal_strlit("function");
            reveal_strlit("return");
        }
        if let Some(word) = self.check_reserved_word() {
            self.pos = self.pos + word.as_str().unicode_len();
            return Some(Token::Keyword(word));
        }
        let c = self.input[self.pos];
        if c == '+' || c == '-' || c == ';' || c == '=' || c == '(' || c == ')' || c == '{' || c
            == '}' || c == ',' || c == '.' {
            self.pos = self.pos + 1;
            Some(Token::Punctuator(c))
        } else if ascii_alpha(c) || c == '_' || c == '$' {
            Some(Token::Identifier(self.consume_identifier()))
        } else if ascii_digit(c) {
            proof {
                lemma_digits_end(self.input@, self.pos + 1);
            }
            Some(Token::Number(self.consume_number()))
        } else if c == '"' {
            Some(Token::StringLiteral(self.consume_string()))
        } else {
            self.pos = self.pos + 1;
            Some(Token::Unsupported(c))
        }
    }
}

} // verus!
