//! The CSS tokenizer.
use vstd::prelude::*;
use crate::text::{ascii_alpha, ascii_digit, chars_of, digit_value, is_ascii_alpha, is_ascii_digit, string_of};

verus! {

/// A decimal number read from a style sheet: `integer.fraction`, where the
/// fraction has `fraction_digits` digits and no trailing zero.
#[derive(Debug, Clone, Copy, PartialEq, Eq, Structural)]
pub struct CssNumber {
    pub integer: u64,
    pub fraction: u64,
    pub fraction_digits: u32,
}

impl CssNumber {
    /// A whole number.
    pub fn whole(integer: u64) -> (r: Self)
        ensures
            r.integer == integer,
            r.fraction == 0,
            r.fraction_digits == 0,
    {
        CssNumber { integer, fraction: 0, fraction_digits: 0 }
    }
}

#[derive(Debug, PartialEq)]
pub enum CssToken {
    HashToken(String),
    Delim(char),
    Number(CssNumber),
    Colon,
    SemiColon,
    OpenParenthesis,
    CloseParenthesis,
    OpenCurly,
    CloseCurly,
    Ident(String),
    StringToken(String),
    AtKeyword(String),
    /// A character no token can start with; it is skipped.
    Unsupported(char),
}

impl Clone for CssToken {
    fn clone(&self) -> (r: Self)
        ensures
            r == *self,
    {
        match self {
            CssToken::HashToken(s) => CssToken::HashToken(s.clone()),
            CssToken::Delim(c) => CssToken::Delim(*c),
            CssToken::Number(n) => CssToken::Number(*n),
            CssToken::Colon => CssToken::Colon,
            CssToken::SemiColon => CssToken::SemiColon,
            CssToken::OpenParenthesis => CssToken::OpenParenthesis,
            CssToken::CloseParenthesis => CssToken::CloseParenthesis,
            CssToken::OpenCurly => CssToken::OpenCurly,
            CssToken::CloseCurly => CssToken::CloseCurly,
            CssToken::Ident(s) => CssToken::Ident(s.clone()),
            CssToken::StringToken(s) => CssToken::StringToken(s.clone()),
            CssToken::AtKeyword(s) => CssToken::AtKeyword(s.clone()),
            CssToken::Unsupported(c) => CssToken::Unsupported(*c),
        }
    }
}

/// Characters that may continue an identifier.
pub open spec fn is_ident_char(c: char) -> bool {
    is_ascii_alpha(c) || is_ascii_digit(c) || c == '_' || c == '-'
}

fn ident_char(c: char) -> (r: bool)
    ensures
        r == is_ident_char(c),
{
    ascii_alpha(c) || ascii_digit(c) || c == '_' || c == '-'
}

/// Where the run of identifier characters that starts at `i` ends.
pub open spec fn ident_end(s: Seq<char>, i: int) -> int
    decreases s.len() - i,
{
    if i < 0 || i >= s.len() || !is_ident_char(s[i]) {
        i
    } else {
        ident_end(s, i + 1)
    }
}

pub proof fn lemma_ident_end(s: Seq<char>, i: int)
    requires
        0 <= i <= s.len(),
    ensures
        i <= ident_end(s, i) <= s.len(),
        forall|k: int| i <= k < ident_end(s, i) ==> is_ident_char(#[trigger] s[k]),
        ident_end(s, i) < s.len() ==> !is_ident_char(s[ident_end(s, i)]),
    decreases s.len() - i,
{
    if i < s.len() && is_ident_char(s[i]) {
        lemma_ident_end(s, i + 1);
    }
}

#[derive(Debug)]
pub struct CssTokenizer {
    pos: usize,
    input: Vec<char>,
}

impl CssTokenizer {
    pub closed spec fn position(&self) -> nat {
        self.pos as nat
    }

    pub closed spec fn input(&self) -> Seq<char> {
        self.input@
    }

    pub closed spec fn wf(&self) -> bool {
        self.pos <= self.input@.len()
    }

    pub fn new(css: String) -> (r: Self)
        ensures
            r.wf(),
            r.position() == 0,
            r.input() == css@,
            r.position() <= r.input().len(),
    {
        CssTokenizer { pos: 0, input: chars_of(css.as_str()) }
    }

    /// Reads a string that starts at the quote under the cursor, up to the
    /// next quote of either kind (which is consumed) or the end of input.
    fn consume_string_token(&mut self) -> (r: String)
        requires
            old(self).wf(),
            old(self).pos < old(self).input@.len(),
        ensures
            final(self).wf(),
            final(self).input == old(self).input,
            final(self).pos > old(self).pos,
            ({
                let e = quote_end(old(self).input@, old(self).pos + 1);
                &&& r@ == old(self).input@.subrange(old(self).pos + 1, e)
                &&& final(self).pos == if e < old(self).input@.len() {
                    e + 1
                } else {
                    e
                }
            }),
    {
        let n = self.input.len();
        let start = self.pos + 1;
        let mut i = start;
        proof {
            lemma_quote_end(self.input@, start as int);
        }
        while i < self.input.len() && !(self.input[i] == '"' || self.input[i] == '\'')
            invariant
                start == old(self).pos + 1,
                start <= i <= self.input@.len(),
                self.input == old(self).input,
                self.pos == old(self).pos,
                quote_end(self.input@, i as int) == quote_end(self.input@, start as int),
            decreases self.input@.len() - i,
        {
            i = i + 1;
        }
        assert(quote_end(self.input@, i as int) == i);
        let s = string_of(vstd::slice::slice_subrange(self.input.as_slice(), start, i));
        if i < self.input.len() {
            self.pos = i + 1;
        } else {
            self.pos = i;
        }
        s
    }

    /// Reads a number under the cursor: digits, then optionally `.` and more
    /// digits. The whole part saturates at `u64::MAX`; fraction digits past
    /// the eighteenth are read and dropped.
    fn consume_numeric_token(&mut self) -> (r: CssNumber)
        requires
            old(self).wf(),
        ensures
            final(self).wf(),
            final(self).input == old(self).input,
            final(self).pos == number_end(old(self).input@, old(self).pos as int),
            r.integer == if digits_value(old(self).input@, old(self).pos as int, digits_end(
                old(self).input@,
                old(self).pos as int,
            )) <= u64::MAX {
                digits_value(
                    old(self).input@,
                    old(self).pos as int,
                    digits_end(old(self).input@, old(self).pos as int),
                )
            } else {
                u64::MAX as nat
            },
            r.fraction_digits <= 18,
            (r.fraction as nat, r.fraction_digits as nat) == fraction_of(old(self).input@, old(self).pos as int),
    {
        let start = self.pos;
        let mut integer: u64 = 0;
        let mut saturated = false;
        proof {
            lemma_digits_end(self.input@, start as int);
        }
        while self.pos < self.input.len() && ascii_digit(self.input[self.pos])
            invariant
                self.input == old(self).input,
                start <= self.pos <= self.input@.len(),
                digits_end(self.input@, self.pos as int) == digits_end(self.input@, start as int),
                saturated ==> integer == u64::MAX && digits_value(self.input@, start as int, self.pos as int) > u64::MAX,
                !saturated ==> integer == digits_value(self.input@, start as int, self.pos as int),
            decreases self.input@.len() - self.pos,
        {
            let d = digit_value(self.input[self.pos]);
            proof {
                lemma_digits_value_step(self.input@, start as int, self.pos as int);
                assert(d == (self.input@[self.pos as int] as nat - '0' as nat) as nat);
            }
            if !saturated {
                if integer > (u64::MAX - d) / 10 {
                    assert(digits_value(self.input@, start as int, self.pos + 1) > u64::MAX) by (nonlinear_arith)
                        requires
                            digits_value(self.input@, start as int, self.pos + 1) == digits_value(self.input@, start as int, self.pos as int) * 10 + d,
                            digits_value(self.input@, start as int, self.pos as int) == integer as nat,
                            integer > (u64::MAX - d) / 10,
                            d < 10;
                    saturated = true;
                    integer = u64::MAX;
                } else {
                    assert(integer * 10 + d <= u64::MAX) by (nonlinear_arith)
                        requires integer <= (u64::MAX - d) / 10, d < 10;
                    integer = integer * 10 + d;
                }
            } else {
                proof {
                    lemma_digits_value_grows(self.input@, start as int, self.pos as int, d as nat);
                }
            }
            self.pos = self.pos + 1;
        }
        let mut fraction: u64 = 0;
        let mut fraction_digits: u32 = 0;
        let ghost int_end = self.pos as int;
        assert(int_end == digits_end(self.input@, start as int));
        if self.pos < self.input.len() && self.input[self.pos] == '.' {
            self.pos = self.pos + 1;
            proof {
                lemma_digits_end(self.input@, self.pos as int);
            }
            let ghost frac_start = self.pos as int;
            while self.pos < self.input.len() && ascii_digit(self.input[self.pos])
                invariant
                    self.input == old(self).input,
                    start <= self.pos <= self.input@.len(),
                    frac_start <= self.pos,
                    digits_end(self.input@, self.pos as int) == digits_end(self.input@, frac_start),
                    fraction_digits <= 18,
                    fraction < pow10(fraction_digits as nat),
                    frac_start == int_end + 1,
                    fraction_digits as int == if self.pos - frac_start < 18 { self.pos - frac_start } else { 18 },
                    fraction as nat == digits_value(self.input@, frac_start, frac_start + fraction_digits),
                decreases self.input@.len() - self.pos,
            {
                if fraction_digits < 18 {
                    let d = digit_value(self.input[self.pos]);
                    proof {
                        lemma_pow10_bound((fraction_digits + 1) as nat);
                        assert(frac_start + fraction_digits == self.pos);
                        assert(d == (self.input@[self.pos as int] as nat - '0' as nat) as nat);
                        assert(digits_value(self.input@, frac_start, self.pos + 1) == digits_value(self.input@, frac_start, self.pos as int) * 10 + d);
                    }
                    assert(fraction * 10 + d < pow10(fraction_digits as nat + 1)) by (nonlinear_arith)
                        requires
                            fraction < pow10(fraction_digits as nat),
                            pow10(fraction_digits as nat + 1) == pow10(fraction_digits as nat) * 10,
                            d < 10;
                    fraction = fraction * 10 + d;
                    fraction_digits = fraction_digits + 1;
                }
                self.pos = self.pos + 1;
            }
            let ghost b0 = frac_start + fraction_digits;
            proof {
                assert(self.pos as int == digits_end(self.input@, frac_start));
                assert(b0 == if digits_end(self.input@, frac_start) < frac_start + 18 { digits_end(self.input@, frac_start) } else { frac_start + 18 });
            }
            while fraction_digits > 0 && fraction % 10 == 0
                invariant
                    fraction_digits <= 18,
                    frac_start + fraction_digits <= b0,
                    b0 <= digits_end(self.input@, frac_start),
                    forall|k: int| frac_start <= k < digits_end(self.input@, frac_start) ==> is_ascii_digit(#[trigger] self.input@[k]),
                    fraction as nat == digits_value(self.input@, frac_start, frac_start + fraction_digits),
                    trim_zeros_end(self.input@, frac_start, frac_start + fraction_digits) == trim_zeros_end(self.input@, frac_start, b0),
                decreases fraction_digits,
            {
                let ghost b = frac_start + fraction_digits;
                proof {
                    let dv = digits_value(self.input@, frac_start, b - 1);
                    let d = (self.input@[b - 1] as nat - '0' as nat) as nat;
                    assert(is_ascii_digit(self.input@[b - 1]));
                    assert(d < 10);
                    assert(fraction as nat == dv * 10 + d);
                    assert(d == 0 && fraction / 10 == dv) by (nonlinear_arith)
                        requires fraction as nat == dv * 10 + d, d < 10, fraction % 10 == 0;
                    assert(self.input@[b - 1] == '0');
                }
                fraction = fraction / 10;
                fraction_digits = fraction_digits - 1;
            }
            proof {
                let b = frac_start + fraction_digits;
                if fraction_digits > 0 {
                    let dv = digits_value(self.input@, frac_start, b - 1);
                    let d = (self.input@[b - 1] as nat - '0' as nat) as nat;
                    assert(is_ascii_digit(self.input@[b - 1]));
                    assert(fraction as nat == dv * 10 + d);
                    assert(d != 0) by (nonlinear_arith)
                        requires fraction as nat == dv * 10 + d, d < 10, fraction % 10 != 0;
                    assert(self.input@[b - 1] != '0');
                }
                assert(trim_zeros_end(self.input@, frac_start, b) == b);
            }
        } else {
            assert(digits_value(self.input@, 0, 0) == 0);
        }
        CssNumber { integer, fraction, fraction_digits }
    }

    /// Reads an identifier whose first character (which may be `#`, `-` or
    /// any identifier character) is under the cursor.
    fn consume_ident_token(&mut self) -> (r: String)
        requires
            old(self).wf(),
            old(self).pos < old(self).input@.len(),
        ensures
            final(self).wf(),
            final(self).input == old(self).input,
            final(self).pos == ident_end(old(self).input@, old(self).pos + 1),
            final(self).pos > old(self).pos,
            r@ == old(self).input@.subrange(old(self).pos as int, final(self).pos as int),
    {
        let n = self.input.len();
        let start = self.pos;
        self.pos = self.pos + 1;
        proof {
            lemma_ident_end(self.input@, self.pos as int);
        }
        while self.pos < self.input.len() && ident_char(self.input[self.pos])
            invariant
                self.input == old(self).input,
                start + 1 <= self.pos <= self.input@.len(),
                start == old(self).pos,
                ident_end(self.input@, self.pos as int) == ident_end(self.input@, start + 1),
            decreases self.input@.len() - self.pos,
        {
            self.pos = self.pos + 1;
        }
        string_of(vstd::slice::slice_subrange(self.input.as_slice(), start, self.pos))
    }

    /// The next token, or `None` at the end of the input. Each token read
    /// moves the cursor forward.
    pub fn next(&mut self) -> (r: Option<CssToken>)
        requires
            old(self).wf(),
        ensures
            final(self).wf(),
            final(self).input() == old(self).input(),
            final(self).position() <= final(self).input().len(),
            r is Some ==> final(self).position() > old(self).position(),
            r is None ==> final(self).position() == final(self).input().len(),
            final(self).position() >= old(self).position(),
            ({
                let s = old(self).input();
                let p = space_end(s, old(self).position() as int);
                &&& p >= s.len() ==> r is None
                &&& p < s.len() ==> (r matches Some(t) && token_at(s, p, t, final(self).position() as int))
            }),
    {
        let n = self.input.len();
        proof {
            lemma_space_end(self.input@, self.pos as int);
        }
        while self.pos < self.input.len() && (self.input[self.pos] == ' ' || self.input[self.pos]
            == '\n' || self.input[self.pos] == '\t' || self.input[self.pos] == '\r')
            invariant
                self.input == old(self).input,
                old(self).pos <= self.pos <= self.input@.len(),
                space_end(self.input@, self.pos as int) == space_end(self.input@, old(self).pos as int),
            decreases self.input@.len() - self.pos,
        {
            self.pos = self.pos + 1;
        }
        if self.pos >= self.input.len() {
            return None;
        }
        let c = self.input[self.pos];
        let token = if c == '(' {
            CssToken::OpenParenthesis
        } else if c == ')' {
            CssToken::CloseParenthesis
        } else if c == ',' || c == '.' {
            CssToken::Delim(c)
        } else if c == ':' {
            CssToken::Colon
        } else if c == ';' {
            CssToken::SemiColon
        } else if c == '{' {
            CssToken::OpenCurly
        } else if c == '}' {
            CssToken::CloseCurly
        } else if c == '"' || c == '\'' {
            return Some(CssToken::StringToken(self.consume_string_token()));
        } else if ascii_digit(c) {
            proof {
                lemma_digits_end(self.input@, self.pos + 1);
                let e = digits_end(self.input@, self.pos as int);
                if 0 <= e < self.input@.len() && self.input@[e] == '.' {
                    lemma_digits_end(self.input@, e + 1);
                }
            }
            let n = self.consume_numeric_token();
            return Some(CssToken::Number(n));
        } else if c == '#' {
            return Some(CssToken::HashToken(self.consume_ident_token()));
        } else if c == '-' || ascii_alpha(c) || c == '_' {
            return Some(CssToken::Ident(self.consume_ident_token()));
        } else if c == '@' {
            if self.input.len() - self.pos > 3 && ascii_alpha(self.input[self.pos + 1])
                && ascii_alpha(self.input[self.pos + 2]) && ascii_alpha(self.input[self.pos + 3]) {
                self.pos = self.pos + 1;
                return Some(CssToken::AtKeyword(self.consume_ident_token()));
            }
            CssToken::Delim('@')
        } else {
            CssToken::Unsupported(c)
        };
        self.pos = self.pos + 1;
        Some(token)
    }
}

/// Where a number that starts at `i` ends: its digits, then a `.` and
/// more digits when a `.` follows.
pub open spec fn number_end(s: Seq<char>, i: int) -> int {
    let e = digits_end(s, i);
    if 0 <= e < s.len() && s[e] == '.' {
        digits_end(s, e + 1)
    } else {
        e
    }
}

/// The end of `s[a..b]` without its trailing `0` digits.
pub open spec fn trim_zeros_end(s: Seq<char>, a: int, b: int) -> int
    decreases b - a,
{
    if b <= a || s[b - 1] != '0' {
        b
    } else {
        trim_zeros_end(s, a, b - 1)
    }
}

/// The fraction of a number that starts at `p`: its first eighteen digits
/// after the `.` without trailing zeros, as (value, number of digits);
/// (0, 0) when there is no `.`.
pub open spec fn fraction_of(s: Seq<char>, p: int) -> (nat, nat) {
    let e = digits_end(s, p);
    if 0 <= e < s.len() && s[e] == '.' {
        let a = e + 1;
        let b0 = if digits_end(s, a) < a + 18 { digits_end(s, a) } else { a + 18 };
        let b = trim_zeros_end(s, a, b0);
        (digits_value(s, a, b), (b - a) as nat)
    } else {
        (0, 0)
    }
}

/// Where the run of spaces, tabs and newlines that starts at `i` ends.
pub open spec fn space_end(s: Seq<char>, i: int) -> int
    decreases s.len() - i,
{
    if i < 0 || i >= s.len() || !(s[i] == ' ' || s[i] == '\n' || s[i] == '\t' || s[i] == '\r') {
        i
    } else {
        space_end(s, i + 1)
    }
}

pub proof fn lemma_space_end(s: Seq<char>, i: int)
    requires
        0 <= i <= s.len(),
    ensures
        i <= space_end(s, i) <= s.len(),
    decreases s.len() - i,
{
    if i < s.len() && (s[i] == ' ' || s[i] == '\n' || s[i] == '\t' || s[i] == '\r') {
        lemma_space_end(s, i + 1);
    }
}

/// Whether `r` is the token that the characters at `p` (the first one not a
/// space) spell, ending at `q`.
pub open spec fn token_at(s: Seq<char>, p: int, r: CssToken, q: int) -> bool {
    let c = s[p];
    if c == '(' {
        r == CssToken::OpenParenthesis && q == p + 1
    } else if c == ')' {
        r == CssToken::CloseParenthesis && q == p + 1
    } else if c == ',' || c == '.' {
        r == CssToken::Delim(c) && q == p + 1
    } else if c == ':' {
        r == CssToken::Colon && q == p + 1
    } else if c == ';' {
        r == CssToken::SemiColon && q == p + 1
    } else if c == '{' {
        r == CssToken::OpenCurly && q == p + 1
    } else if c == '}' {
        r == CssToken::CloseCurly && q == p + 1
    } else if c == '"' || c == '\'' {
        let e = quote_end(s, p + 1);
        &&& r matches CssToken::StringToken(v) && v@ == s.subrange(p + 1, e)
        &&& q == if e < s.len() { e + 1 } else { e }
    } else if is_ascii_digit(c) {
        &&& r matches CssToken::Number(n) && (n.fraction as nat, n.fraction_digits as nat) == fraction_of(s, p) && n.integer == if digits_value(s, p, digits_end(s, p)) <= u64::MAX {
            digits_value(s, p, digits_end(s, p))
        } else {
            u64::MAX as nat
        }
        &&& q == number_end(s, p)
    } else if c == '#' {
        r matches CssToken::HashToken(v) && v@ == s.subrange(p, ident_end(s, p + 1)) && q == ident_end(s, p + 1)
    } else if c == '-' || is_ascii_alpha(c) || c == '_' {
        r matches CssToken::Ident(v) && v@ == s.subrange(p, ident_end(s, p + 1)) && q == ident_end(s, p + 1)
    } else if c == '@' {
        if p + 3 < s.len() && is_ascii_alpha(s[p + 1]) && is_ascii_alpha(s[p + 2]) && is_ascii_alpha(s[p + 3]) {
            r matches CssToken::AtKeyword(v) && v@ == s.subrange(p + 1, ident_end(s, p + 2)) && q == ident_end(s, p + 2)
        } else {
            r == CssToken::Delim('@') && q == p + 1
        }
    } else {
        r == CssToken::Unsupported(c) && q == p + 1
    }
}

/// A token with its text as characters.
pub enum CssTokenView {
    HashToken(Seq<char>),
    Delim(char),
    Number(CssNumber),
    Colon,
    SemiColon,
    OpenParenthesis,
    CloseParenthesis,
    OpenCurly,
    CloseCurly,
    Ident(Seq<char>),
    StringToken(Seq<char>),
    AtKeyword(Seq<char>),
    Unsupported(char),
}

pub open spec fn css_token_view(t: CssToken) -> CssTokenView {
    match t {
        CssToken::HashToken(v) => CssTokenView::HashToken(v@),
        CssToken::Delim(c) => CssTokenView::Delim(c),
        CssToken::Number(n) => CssTokenView::Number(n),
        CssToken::Colon => CssTokenView::Colon,
        CssToken::SemiColon => CssTokenView::SemiColon,
        CssToken::OpenParenthesis => CssTokenView::OpenParenthesis,
        CssToken::CloseParenthesis => CssTokenView::CloseParenthesis,
        CssToken::OpenCurly => CssTokenView::OpenCurly,
        CssToken::CloseCurly => CssTokenView::CloseCurly,
        CssToken::Ident(v) => CssTokenView::Ident(v@),
        CssToken::StringToken(v) => CssTokenView::StringToken(v@),
        CssToken::AtKeyword(v) => CssTokenView::AtKeyword(v@),
        CssToken::Unsupported(c) => CssTokenView::Unsupported(c),
    }
}

/// A token read at `p` is fixed, up to its strings' identity, by the text:
/// two tokens read there have the same characters and end at the same place.
pub proof fn token_at_unique(s: Seq<char>, p: int, r1: CssToken, q1: int, r2: CssToken, q2: int)
    requires
        token_at(s, p, r1, q1),
        token_at(s, p, r2, q2),
    ensures
        q1 == q2,
        css_token_view(r1) == css_token_view(r2),
{
}

/// Reading the same text gives the same tokens: two token sequences read
/// from `s` at `p` have the same length and, token by token, the same
/// characters.
pub proof fn tokens_determined(s: Seq<char>, p: int, t1: Seq<CssToken>, t2: Seq<CssToken>)
    requires
        tokens_match(s, p, t1),
        tokens_match(s, p, t2),
    ensures
        t1.len() == t2.len(),
        forall|i: int| 0 <= i < t1.len() ==> css_token_view(#[trigger] t1[i]) == css_token_view(t2[i]),
    decreases t1.len(),
{
    if t1.len() > 0 {
        let p2 = space_end(s, p);
        let q1 = choose|q: int| #[trigger] token_at(s, p2, t1[0], q) && tokens_match(s, q, t1.drop_first());
        let q2 = choose|q: int| #[trigger] token_at(s, p2, t2[0], q) && tokens_match(s, q, t2.drop_first());
        token_at_unique(s, p2, t1[0], q1, t2[0], q2);
        tokens_determined(s, q1, t1.drop_first(), t2.drop_first());
        assert forall|i: int| 0 <= i < t1.len() implies css_token_view(#[trigger] t1[i]) == css_token_view(t2[i]) by {
            if i > 0 {
                assert(t1[i] == t1.drop_first()[i - 1]);
                assert(t2[i] == t2.drop_first()[i - 1]);
            }
        }
    }
}

/// Whether `toks` are the tokens read from `s` starting at `p`, to the end.
pub open spec fn tokens_match(s: Seq<char>, p: int, toks: Seq<CssToken>) -> bool
    decreases toks.len(),
{
    let p2 = space_end(s, p);
    if toks.len() == 0 {
        p2 >= s.len()
    } else {
        p2 < s.len() && exists|q: int|
            #[trigger] token_at(s, p2, toks[0], q) && tokens_match(s, q, toks.drop_first())
    }
}

/// Where the run of non-quote characters that starts at `i` ends.
pub open spec fn quote_end(s: Seq<char>, i: int) -> int
    decreases s.len() - i,
{
    if i < 0 || i >= s.len() || s[i] == '"' || s[i] == '\'' {
        i
    } else {
        quote_end(s, i + 1)
    }
}

pub proof fn lemma_quote_end(s: Seq<char>, i: int)
    requires
        0 <= i <= s.len(),
    ensures
        i <= quote_end(s, i) <= s.len(),
    decreases s.len() - i,
{
    if i < s.len() && !(s[i] == '"' || s[i] == '\'') {
        lemma_quote_end(s, i + 1);
    }
}

/// Where the run of digits that starts at `i` ends.
pub open spec fn digits_end(s: Seq<char>, i: int) -> int
    decreases s.len() - i,
{
    if i < 0 || i >= s.len() || !is_ascii_digit(s[i]) {
        i
    } else {
        digits_end(s, i + 1)
    }
}

pub proof fn lemma_digits_end(s: Seq<char>, i: int)
    requires
        0 <= i <= s.len(),
    ensures
        i <= digits_end(s, i) <= s.len(),
        forall|k: int| i <= k < digits_end(s, i) ==> is_ascii_digit(#[trigger] s[k]),
    decreases s.len() - i,
{
    if i < s.len() && is_ascii_digit(s[i]) {
        lemma_digits_end(s, i + 1);
    }
}

/// The decimal value of the digits `s[i..j]`.
pub open spec fn digits_value(s: Seq<char>, i: int, j: int) -> nat
    decreases j - i,
{
    if j <= i {
        0
    } else {
        digits_value(s, i, j - 1) * 10 + (s[j - 1] as nat - '0' as nat) as nat
    }
}

proof fn lemma_digits_value_step(s: Seq<char>, i: int, j: int)
    requires
        i <= j,
        j < s.len(),
    ensures
        digits_value(s, i, j + 1) == digits_value(s, i, j) * 10 + (s[j] as nat - '0' as nat) as nat,
{
}

proof fn lemma_digits_value_grows(s: Seq<char>, i: int, j: int, d: nat)
    requires
        i <= j,
        j < s.len(),
        digits_value(s, i, j + 1) == digits_value(s, i, j) * 10 + d,
    ensures
        digits_value(s, i, j + 1) >= digits_value(s, i, j),
{
    assert(digits_value(s, i, j) * 10 + d >= digits_value(s, i, j)) by (nonlinear_arith);
}

/// Ten to the power `n`.
pub open spec fn pow10(n: nat) -> nat
    decreases n,
{
    if n == 0 {
        1
    } else {
        10 * pow10((n - 1) as nat)
    }
}

proof fn lemma_pow10_bound(n: nat)
    requires
        n <= 18,
    ensures
        pow10(n) <= 1_000_000_000_000_000_000,
        n > 0 ==> pow10(n) == pow10((n - 1) as nat) * 10,
    decreases 18 - n,
{
    if n < 18 {
        lemma_pow10_bound(n + 1);
    } else {
        reveal_with_fuel(pow10, 19);
    }
}

} // verus!
