//! The script parser: tokens to a syntax tree.
use vstd::prelude::*;
use std::rc::Rc;
use crate::js_token::{js_token_at, js_tokens_match, JsLexer, Token};
use crate::css_token::space_end;
use crate::text::same_chars;

verus! {

#[derive(Debug, Clone, PartialEq, Eq)]
pub enum Node {
    ExpressionStatement(Option<Rc<Node>>),
    VariableDeclaration { declarations: Vec<Option<Rc<Node>>> },
    VariableDeclarator { id: Option<Rc<Node>>, init: Option<Rc<Node>> },
    Identifier(String),
    StringLiteral(String),
    AdditiveExpression { operator: char, left: Option<Rc<Node>>, right: Option<Rc<Node>> },
    AssignmentExpression { operator: char, left: Option<Rc<Node>>, right: Option<Rc<Node>> },
    MemberExpression { object: Option<Rc<Node>>, property: Option<Rc<Node>> },
    NumericLiteral(u64),
    BlockStatement { body: Vec<Option<Rc<Node>>> },
    ReturnStatement { argument: Option<Rc<Node>> },
    FunctionDeclaration {
        id: Option<Rc<Node>>,
        params: Vec<Option<Rc<Node>>>,
        body: Option<Rc<Node>>,
    },
    CallExpression { callee: Option<Rc<Node>>, arguments: Vec<Option<Rc<Node>>> },
}

impl Node {
    pub fn new_expression_statement(expression: Option<Rc<Self>>) -> (r: Option<Rc<Self>>)
        ensures
            r == Some(Rc::new(Node::ExpressionStatement(expression))),
    {
        Some(Rc::new(Node::ExpressionStatement(expression)))
    }

    pub fn new_additive_expression(operator: char, left: Option<Rc<Node>>, right: Option<Rc<Node>>) -> (r: Option<Rc<Self>>)
        ensures
            r == Some(Rc::new(Node::AdditiveExpression { operator, left, right })),
    {
        Some(Rc::new(Node::AdditiveExpression { operator, left, right }))
    }

    pub fn new_assignment_expression(operator: char, left: Option<Rc<Node>>, right: Option<Rc<Node>>) -> (r: Option<Rc<Self>>)
        ensures
            r == Some(Rc::new(Node::AssignmentExpression { operator, left, right })),
    {
        Some(Rc::new(Node::AssignmentExpression { operator, left, right }))
    }

    pub fn new_member_expression(object: Option<Rc<Node>>, property: Option<Rc<Node>>) -> (r: Option<Rc<Self>>)
        ensures
            r == Some(Rc::new(Node::MemberExpression { object, property })),
    {
        Some(Rc::new(Node::MemberExpression { object, property }))
    }

    pub fn new_numeric_literal(value: u64) -> (r: Option<Rc<Self>>)
        ensures
            r == Some(Rc::new(Node::NumericLiteral(value))),
    {
        Some(Rc::new(Node::NumericLiteral(value)))
    }

    pub fn new_variable_declarator(id: Option<Rc<Self>>, init: Option<Rc<Self>>) -> (r: Option<Rc<Self>>)
        ensures
            r == Some(Rc::new(Node::VariableDeclarator { id, init })),
    {
        Some(Rc::new(Node::VariableDeclarator { id, init }))
    }

    pub fn new_variable_declaration(declarations: Vec<Option<Rc<Self>>>) -> (r: Option<Rc<Self>>)
        ensures
            r == Some(Rc::new(Node::VariableDeclaration { declarations })),
    {
        Some(Rc::new(Node::VariableDeclaration { declarations }))
    }

    pub fn new_identifier(name: String) -> (r: Option<Rc<Self>>)
        ensures
            r == Some(Rc::new(Node::Identifier(name))),
    {
        Some(Rc::new(Node::Identifier(name)))
    }

    pub fn new_string_literal(value: String) -> (r: Option<Rc<Self>>)
        ensures
            r == Some(Rc::new(Node::StringLiteral(value))),
    {
        Some(Rc::new(Node::StringLiteral(value)))
    }

    pub fn new_block_statement(body: Vec<Option<Rc<Self>>>) -> (r: Option<Rc<Self>>)
        ensures
            r == Some(Rc::new(Node::BlockStatement { body })),
    {
        Some(Rc::new(Node::BlockStatement { body }))
    }

    pub fn new_return_statement(argument: Option<Rc<Self>>) -> (r: Option<Rc<Self>>)
        ensures
            r == Some(Rc::new(Node::ReturnStatement { argument })),
    {
        Some(Rc::new(Node::ReturnStatement { argument }))
    }

    pub fn new_function_declaration(
        id: Option<Rc<Self>>,
        params: Vec<Option<Rc<Self>>>,
        body: Option<Rc<Self>>,
    ) -> (r: Option<Rc<Self>>)
        ensures
            r == Some(Rc::new(Node::FunctionDeclaration { id, params, body })),
    {
        Some(Rc::new(Node::FunctionDeclaration { id, params, body }))
    }

    pub fn new_call_expression(callee: Option<Rc<Self>>, arguments: Vec<Option<Rc<Self>>>) -> (r: Option<Rc<Self>>)
        ensures
            r == Some(Rc::new(Node::CallExpression { callee, arguments })),
    {
        Some(Rc::new(Node::CallExpression { callee, arguments }))
    }
}

/// A parsed script: its top-level statements in order.
#[derive(Debug, Clone, PartialEq, Eq)]
pub struct Program {
    body: Vec<Rc<Node>>,
}

impl Program {
    pub closed spec fn spec_body(&self) -> Seq<Rc<Node>> {
        self.body@
    }

    pub fn new() -> (r: Self)
        ensures
            r.spec_body().len() == 0,
    {
        Program { body: Vec::new() }
    }

    pub fn set_body(&mut self, body: Vec<Rc<Node>>)
        ensures
            final(self).spec_body() == body@,
    {
        self.body = body;
    }

    pub fn body(&self) -> (r: &Vec<Rc<Node>>)
        ensures
            r@ == self.spec_body(),
    {
        &self.body
    }
}

pub struct JsParser {
    tokens: Vec<Token>,
    pos: usize,
}

pub open spec fn is_keyword(t: Token, k: Seq<char>) -> bool {
    match t {
        Token::Keyword(w) => w@ == k,
        _ => false,
    }
}

impl JsParser {
    pub closed spec fn wf(&self) -> bool {
        self.pos <= self.tokens@.len()
    }

    pub closed spec fn remaining(&self) -> int {
        self.tokens@.len() - self.pos
    }

    /// A parser over every token `t` produces.
    pub fn new(t: JsLexer) -> (r: Self)
        requires
            t.wf(),
            t.position() <= t.input().len(),
        ensures
            r.wf(),
            r.remaining() == r.tokens().len(),
            js_tokens_match(t.input(), t.position() as int, r.tokens()),
            t.position() == t.input().len() ==> r.remaining() == 0,
    {
        let ghost old_t = t;
        let ghost s = t.input();
        let mut t = t;
        let mut tokens: Vec<Token> = Vec::new();
        loop
            invariant_except_break
                forall|rest: Seq<Token>|
                    #[trigger] js_tokens_match(s, t.position() as int, rest) ==> js_tokens_match(
                        s,
                        old_t.position() as int,
                        tokens@ + rest,
                    ),
            invariant
                t.wf(),
                t.position() <= t.input().len(),
                t.input() == s,
                s == old_t.input(),
                old_t.position() == old_t.input().len() ==> tokens@.len() == 0 && t.position() == old_t.position(),
            ensures
                js_tokens_match(s, old_t.position() as int, tokens@),
                old_t.position() == old_t.input().len() ==> tokens@.len() == 0,
            decreases t.input().len() - t.position(),
        {
            let ghost p0 = t.position() as int;
            let ghost before = tokens@;
            match t.next() {
                Some(tok) => {
                    tokens.push(tok);
                    proof {
                        let q = t.position() as int;
                        assert forall|rest: Seq<Token>|
                            #[trigger] js_tokens_match(s, q, rest) implies js_tokens_match(
                                s,
                                old_t.position() as int,
                                tokens@ + rest,
                            ) by {
                            let r2 = seq![tok] + rest;
                            assert(r2.drop_first() =~= rest);
                            assert(js_token_at(s, space_end(s, p0), r2[0], q));
                            assert(js_tokens_match(s, p0, r2));
                            assert(before + r2 =~= tokens@ + rest);
                        }
                    }
                },
                None => {
                    proof {
                        let q = t.position() as int;
                        assert(space_end(s, p0) >= s.len());
                        assert(js_tokens_match(s, p0, Seq::<Token>::empty()));
                        assert(tokens@ + Seq::<Token>::empty() =~= tokens@);
                    }
                    break;
                },
            }
        }
        let r = JsParser { tokens, pos: 0 };
        r
    }

    /// The tokens being parsed.
    pub closed spec fn tokens(&self) -> Seq<Token> {
        self.tokens@
    }

    fn peek_punct(&self, c: char) -> (r: bool)
        requires
            self.wf(),
        ensures
            r == (self.pos < self.tokens@.len() && self.tokens@[self.pos as int] == Token::Punctuator(c)),
    {
        if self.pos < self.tokens.len() {
            match &self.tokens[self.pos] {
                Token::Punctuator(d) => *d == c,
                _ => false,
            }
        } else {
            false
        }
    }

    fn peek_keyword(&self, k: &str) -> (r: bool)
        requires
            self.wf(),
        ensures
            r == (self.pos < self.tokens@.len() && is_keyword(self.tokens@[self.pos as int], k@)),
    {
        if self.pos < self.tokens.len() {
            match &self.tokens[self.pos] {
                Token::Keyword(w) => same_chars(w.as_str(), k),
                _ => false,
            }
        } else {
            false
        }
    }

    fn next(&mut self) -> (r: Option<Token>)
        requires
            old(self).wf(),
        ensures
            final(self).wf(),
            final(self).tokens == old(self).tokens,
            old(self).pos < old(self).tokens@.len() ==> final(self).pos == old(self).pos + 1 && r is Some,
            old(self).pos >= old(self).tokens@.len() ==> final(self).pos == old(self).pos && r is None,
    {
        if self.pos < self.tokens.len() {
            let t = self.tokens[self.pos].clone();
            self.pos = self.pos + 1;
            Some(t)
        } else {
            None
        }
    }

    /// Every statement of the script.
    pub fn parse_ast(&mut self) -> (r: Program)
        requires
            old(self).wf(),
        ensures
            final(self).wf(),
            old(self).remaining() == 0 ==> r.spec_body().len() == 0,
    {
        let mut program = Program::new();
        let mut body: Vec<Rc<Node>> = Vec::new();
        loop
            invariant
                self.wf(),
                old(self).pos == old(self).tokens@.len() ==> body@.len() == 0 && self.pos == old(self).pos && self.tokens == old(self).tokens,
                self.tokens == old(self).tokens,
            decreases self.tokens@.len() - self.pos,
        {
            let node = self.source_element();
            match node {
                Some(n) => body.push(n),
                None => {
                    program.set_body(body);
                    return program;
                },
            }
        }
    }

    /// SourceElement ::= Statement | FunctionDeclaration
    fn source_element(&mut self) -> (r: Option<Rc<Node>>)
        requires
            old(self).wf(),
        ensures
            final(self).wf(),
            final(self).tokens == old(self).tokens,
            final(self).pos >= old(self).pos,
            r is Some ==> final(self).pos > old(self).pos,
            old(self).pos == old(self).tokens@.len() ==> r is None,
        decreases old(self).tokens@.len() - old(self).pos, 8nat,
    {
        if self.pos >= self.tokens.len() {
            return None;
        }
        if self.peek_keyword("function") {
            self.next();
            return self.function_declaration();
        }
        self.statement()
    }

    /// FunctionDeclaration ::= "function" Identifier "(" ParameterList ")" FunctionBody
    fn function_declaration(&mut self) -> (r: Option<Rc<Node>>)
        requires
            old(self).wf(),
        ensures
            final(self).wf(),
            final(self).tokens == old(self).tokens,
            final(self).pos >= old(self).pos,
            r is Some,
        decreases old(self).tokens@.len() - old(self).pos, 3nat,
    {
        let id = self.identifier();
        let params = self.parameter_list();
        let body = self.function_body();
        Node::new_function_declaration(id, params, body)
    }

    /// ParameterList ::= "(" ( Identifier ( "," Identifier )* )? ")"
    fn parameter_list(&mut self) -> (r: Vec<Option<Rc<Node>>>)
        requires
            old(self).wf(),
        ensures
            final(self).wf(),
            final(self).tokens == old(self).tokens,
            final(self).pos >= old(self).pos,
        decreases old(self).tokens@.len() - old(self).pos, 1nat,
    {
        let mut params: Vec<Option<Rc<Node>>> = Vec::new();
        if self.next().is_none() {
            return params;
        }
        loop
            invariant
                self.wf(),
                self.tokens == old(self).tokens,
                self.pos > old(self).pos,
            decreases self.tokens@.len() - self.pos,
        {
            if self.pos >= self.tokens.len() {
                return params;
            }
            if self.peek_punct(')') {
                self.next();
                return params;
            }
            let is_punct = match &self.tokens[self.pos] {
                Token::Punctuator(_) => true,
                _ => false,
            };
            if is_punct {
                self.next();
            } else {
                params.push(self.identifier());
            }
        }
    }

    /// FunctionBody ::= "{" ( SourceElement )* "}"
    fn function_body(&mut self) -> (r: Option<Rc<Node>>)
        requires
            old(self).wf(),
        ensures
            final(self).wf(),
            final(self).tokens == old(self).tokens,
            final(self).pos >= old(self).pos,
        decreases old(self).tokens@.len() - old(self).pos, 1nat,
    {
        let mut body: Vec<Option<Rc<Node>>> = Vec::new();
        if self.next().is_none() {
            return Node::new_block_statement(body);
        }
        loop
            invariant
                self.wf(),
                self.tokens == old(self).tokens,
                self.pos > old(self).pos,
            decreases self.tokens@.len() - self.pos,
        {
            if self.peek_punct('}') {
                self.next();
                return Node::new_block_statement(body);
            }
            let s = self.source_element();
            if s.is_none() {
                return Node::new_block_statement(body);
            }
            body.push(s);
        }
    }

    /// Statement ::= "var" VariableDeclaration | "return" AssignmentExpression
    ///             | AssignmentExpression, each with an optional ";".
    fn statement(&mut self) -> (r: Option<Rc<Node>>)
        requires
            old(self).wf(),
            old(self).pos < old(self).tokens@.len(),
        ensures
            final(self).wf(),
            final(self).tokens == old(self).tokens,
            final(self).pos > old(self).pos,
            r is Some,
        decreases old(self).tokens@.len() - old(self).pos, 7nat,
    {
        let node = if self.peek_keyword("var") {
            self.next();
            self.variable_declaration()
        } else if self.peek_keyword("return") {
            self.next();
            let e = self.assignment_expression();
            Node::new_return_statement(e)
        } else {
            let e = self.assignment_expression();
            Node::new_expression_statement(e)
        };
        if self.peek_punct(';') {
            self.next();
        }
        node
    }

    /// VariableDeclaration ::= Identifier ( Initializer )?
    fn variable_declaration(&mut self) -> (r: Option<Rc<Node>>)
        requires
            old(self).wf(),
        ensures
            final(self).wf(),
            final(self).tokens == old(self).tokens,
            final(self).pos >= old(self).pos,
            r is Some,
        decreases old(self).tokens@.len() - old(self).pos, 6nat,
    {
        let ident = self.identifier();
        let init = self.initializer();
        let declarator = Node::new_variable_declarator(ident, init);
        let mut declarations: Vec<Option<Rc<Node>>> = Vec::new();
        declarations.push(declarator);
        Node::new_variable_declaration(declarations)
    }

    /// Identifier: the next token, when it is an identifier.
    fn identifier(&mut self) -> (r: Option<Rc<Node>>)
        requires
            old(self).wf(),
        ensures
            final(self).wf(),
            final(self).tokens == old(self).tokens,
            final(self).pos >= old(self).pos,
            old(self).pos < old(self).tokens@.len() ==> final(self).pos > old(self).pos,
        decreases old(self).tokens@.len() - old(self).pos, 0nat,
    {
        match self.next() {
            Some(Token::Identifier(name)) => Node::new_identifier(name),
            _ => None,
        }
    }

    /// Initializer ::= "=" AssignmentExpression
    fn initializer(&mut self) -> (r: Option<Rc<Node>>)
        requires
            old(self).wf(),
        ensures
            final(self).wf(),
            final(self).tokens == old(self).tokens,
            final(self).pos >= old(self).pos,
        decreases old(self).tokens@.len() - old(self).pos, 0nat,
    {
        match self.next() {
            Some(Token::Punctuator(c)) => if c == '=' {
                self.assignment_expression()
            } else {
                None
            },
            _ => None,
        }
    }

    /// AssignmentExpression ::= AdditiveExpression ( "=" AssignmentExpression )?
    fn assignment_expression(&mut self) -> (r: Option<Rc<Node>>)
        requires
            old(self).wf(),
        ensures
            final(self).wf(),
            final(self).tokens == old(self).tokens,
            final(self).pos >= old(self).pos,
            old(self).pos < old(self).tokens@.len() ==> final(self).pos > old(self).pos,
        decreases old(self).tokens@.len() - old(self).pos, 5nat,
    {
        let expr = self.additive_expression();
        if self.peek_punct('=') {
            self.next();
            let right = self.assignment_expression();
            return Node::new_assignment_expression('=', expr, right);
        }
        expr
    }

    /// AdditiveExpression ::= LeftHandSideExpression ( ("+" | "-") AssignmentExpression )?
    fn additive_expression(&mut self) -> (r: Option<Rc<Node>>)
        requires
            old(self).wf(),
        ensures
            final(self).wf(),
            final(self).tokens == old(self).tokens,
            final(self).pos >= old(self).pos,
            old(self).pos < old(self).tokens@.len() ==> final(self).pos > old(self).pos,
        decreases old(self).tokens@.len() - old(self).pos, 4nat,
    {
        let left = self.left_hand_size_expression();
        if self.peek_punct('+') {
            self.next();
            let right = self.assignment_expression();
            return Node::new_additive_expression('+', left, right);
        }
        if self.peek_punct('-') {
            self.next();
            let right = self.assignment_expression();
            return Node::new_additive_expression('-', left, right);
        }
        left
    }

    /// LeftHandSideExpression ::= MemberExpression ( Arguments )?
    fn left_hand_size_expression(&mut self) -> (r: Option<Rc<Node>>)
        requires
            old(self).wf(),
        ensures
            final(self).wf(),
            final(self).tokens == old(self).tokens,
            final(self).pos >= old(self).pos,
            old(self).pos < old(self).tokens@.len() ==> final(self).pos > old(self).pos,
        decreases old(self).tokens@.len() - old(self).pos, 3nat,
    {
        let expr = self.member_expression();
        if self.peek_punct('(') {
            self.next();
            let args = self.arguments();
            return Node::new_call_expression(expr, args);
        }
        expr
    }

    /// Arguments ::= ( AssignmentExpression ( "," AssignmentExpression )* )? ")"
    /// (the opening parenthesis is already read).
    fn arguments(&mut self) -> (r: Vec<Option<Rc<Node>>>)
        requires
            old(self).wf(),
        ensures
            final(self).wf(),
            final(self).tokens == old(self).tokens,
            final(self).pos >= old(self).pos,
        decreases old(self).tokens@.len() - old(self).pos, 6nat,
    {
        let mut arguments: Vec<Option<Rc<Node>>> = Vec::new();
        loop
            invariant
                self.wf(),
                self.tokens == old(self).tokens,
                self.pos >= old(self).pos,
            decreases self.tokens@.len() - self.pos,
        {
            if self.pos >= self.tokens.len() {
                return arguments;
            }
            if self.peek_punct(')') {
                self.next();
                return arguments;
            }
            if self.peek_punct(',') {
                self.next();
            } else {
                arguments.push(self.assignment_expression());
            }
        }
    }

    /// MemberExpression ::= PrimaryExpression ( "." Identifier )?
    fn member_expression(&mut self) -> (r: Option<Rc<Node>>)
        requires
            old(self).wf(),
        ensures
            final(self).wf(),
            final(self).tokens == old(self).tokens,
            final(self).pos >= old(self).pos,
            old(self).pos < old(self).tokens@.len() ==> final(self).pos > old(self).pos,
        decreases old(self).tokens@.len() - old(self).pos, 2nat,
    {
        let expr = self.primary_expression();
        if self.peek_punct('.') {
            self.next();
            let property = self.identifier();
            return Node::new_member_expression(expr, property);
        }
        expr
    }

    /// PrimaryExpression ::= Identifier | Number | String
    fn primary_expression(&mut self) -> (r: Option<Rc<Node>>)
        requires
            old(self).wf(),
        ensures
            final(self).wf(),
            final(self).tokens == old(self).tokens,
            final(self).pos >= old(self).pos,
            old(self).pos < old(self).tokens@.len() ==> final(self).pos > old(self).pos,
        decreases old(self).tokens@.len() - old(self).pos, 0nat,
    {
        match self.next() {
            Some(Token::Number(value)) => Node::new_numeric_literal(value),
            Some(Token::StringLiteral(value)) => Node::new_string_literal(value),
            Some(Token::Identifier(name)) => Node::new_identifier(name),
            _ => None,
        }
    }
}

} // verus!
