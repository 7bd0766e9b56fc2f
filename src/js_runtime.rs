//! The script interpreter: evaluates a syntax tree against nested scopes
//! and the page's document.
use vstd::prelude::*;
use std::rc::Rc;
use crate::js_ast::{Node, Program};
use crate::text::{same_chars, string_of};
use crate::window::{get_element_by_id, Window};

verus! {

/// How deeply evaluation may nest (expressions inside expressions and
/// calls inside calls). Deeper evaluation yields no value.
pub const MAX_EVAL_DEPTH: u64 = 1000;

#[derive(Debug, PartialEq)]
pub enum RuntimeValue {
    Number(u64),
    StringLiteral(String),
    /// An element of the document, with the property being accessed.
    HtmlElement { object: usize, property: Option<String> },
}

impl Clone for RuntimeValue {
    fn clone(&self) -> (r: Self)
        ensures
            r == *self,
    {
        match self {
            RuntimeValue::Number(n) => RuntimeValue::Number(*n),
            RuntimeValue::StringLiteral(s) => RuntimeValue::StringLiteral(s.clone()),
            RuntimeValue::HtmlElement { object, property } => RuntimeValue::HtmlElement {
                object: *object,
                property: match property {
                    Some(p) => Some(p.clone()),
                    None => None,
                },
            },
        }
    }
}

fn clone_value(v: &Option<RuntimeValue>) -> (r: Option<RuntimeValue>)
    ensures
        r == *v,
{
    match v {
        Some(x) => Some(x.clone()),
        None => None,
    }
}

/// The value of the first entry named `name` from index `i` on, if any.
pub open spec fn lookup_from(e: Seq<(Seq<char>, Option<RuntimeValue>)>, name: Seq<char>, i: int) -> Option<Option<RuntimeValue>>
    decreases e.len() - i,
{
    if i < 0 || i >= e.len() {
        None
    } else if e[i].0 == name {
        Some(e[i].1)
    } else {
        lookup_from(e, name, i + 1)
    }
}

proof fn lemma_lookup_found(e: Seq<(Seq<char>, Option<RuntimeValue>)>, name: Seq<char>, j: int, i: int)
    requires
        0 <= j <= i < e.len(),
        e[i].0 == name,
        forall|k: int| j <= k < i ==> (#[trigger] e[k]).0 != name,
    ensures
        lookup_from(e, name, j) == Some(e[i].1),
    decreases i - j,
{
    if j < i {
        lemma_lookup_found(e, name, j + 1, i);
    }
}

proof fn lemma_lookup_absent(e: Seq<(Seq<char>, Option<RuntimeValue>)>, name: Seq<char>, j: int)
    requires
        0 <= j <= e.len(),
        forall|k: int| j <= k < e.len() ==> (#[trigger] e[k]).0 != name,
    ensures
        lookup_from(e, name, j) is None,
    decreases e.len() - j,
{
    if j < e.len() {
        lemma_lookup_absent(e, name, j + 1);
    }
}

/// The decimal digits of `n`.
pub open spec fn decimal(n: nat) -> Seq<char>
    decreases n,
{
    if n < 10 {
        seq![((n + '0' as nat) as u32) as char]
    } else {
        decimal(n / 10).push((((n % 10) + '0' as nat) as u32) as char)
    }
}

/// The decimal text of a number.
pub fn number_to_string(n: u64) -> (r: String)
    ensures
        r@ == decimal(n as nat),
    decreases n,
{
    let mut v: Vec<char> = Vec::new();
    number_digits(n, &mut v);
    assert(v@ == decimal(n as nat));
    string_of(v.as_slice())
}

fn number_digits(n: u64, out: &mut Vec<char>)
    ensures
        final(out)@ == old(out)@ + decimal(n as nat),
    decreases n,
{
    if n >= 10 {
        number_digits(n / 10, out);
    }
    let d = (n % 10) as u32 + '0' as u32;
    let c = char_of_digit(d);
    out.push(c);
    proof {
        if n >= 10 {
            assert(decimal(n as nat) == decimal((n / 10) as nat).push(c));
        } else {
            assert(decimal(n as nat) == seq![c]);
        }
    }
}

fn char_of_digit(d: u32) -> (r: char)
    requires
        '0' as u32 <= d <= '9' as u32,
    ensures
        r == d as char,
{
    if d == '0' as u32 { '0' }
    else if d == '1' as u32 { '1' }
    else if d == '2' as u32 { '2' }
    else if d == '3' as u32 { '3' }
    else if d == '4' as u32 { '4' }
    else if d == '5' as u32 { '5' }
    else if d == '6' as u32 { '6' }
    else if d == '7' as u32 { '7' }
    else if d == '8' as u32 { '8' }
    else { '9' }
}

/// A value as text: numbers in decimal, strings as they are.
pub open spec fn text_of(v: RuntimeValue) -> Seq<char> {
    match v {
        RuntimeValue::Number(n) => decimal(n as nat),
        RuntimeValue::StringLiteral(s) => s@,
        RuntimeValue::HtmlElement { .. } => "HtmlElement"@,
    }
}

impl RuntimeValue {
    pub fn to_js_string(&self) -> (r: String)
        ensures
            r@ == text_of(*self),
    {
        match self {
            RuntimeValue::Number(n) => number_to_string(*n),
            RuntimeValue::StringLiteral(s) => s.clone(),
            RuntimeValue::HtmlElement { .. } => String::from_str("HtmlElement"),
        }
    }

    /// `+`: numbers add (wrapping); otherwise the two values' texts are
    /// joined.
    pub fn add(self, rhs: RuntimeValue) -> (r: RuntimeValue)
        ensures
            (self, rhs) matches (RuntimeValue::Number(a), RuntimeValue::Number(b)) ==> r
                == RuntimeValue::Number(((a + b) % 0x1_0000_0000_0000_0000) as u64),
            !((self, rhs) matches (RuntimeValue::Number(_), RuntimeValue::Number(_))) ==> (r
                matches RuntimeValue::StringLiteral(s) && s@ == text_of(self) + text_of(rhs)),
    {
        if let (RuntimeValue::Number(a), RuntimeValue::Number(b)) = (&self, &rhs) {
            return RuntimeValue::Number(a.wrapping_add(*b));
        }
        let mut s = self.to_js_string();
        let t = rhs.to_js_string();
        s.append(t.as_str());
        RuntimeValue::StringLiteral(s)
    }

    /// `-`: numbers subtract (wrapping); anything else gives 0.
    pub fn sub(self, rhs: RuntimeValue) -> (r: RuntimeValue)
        ensures
            (self, rhs) matches (RuntimeValue::Number(a), RuntimeValue::Number(b)) ==> r
                == RuntimeValue::Number(
                (if a >= b { a - b } else { a + 0x1_0000_0000_0000_0000 - b }) as u64,
            ),
            !((self, rhs) matches (RuntimeValue::Number(_), RuntimeValue::Number(_))) ==> r
                == RuntimeValue::Number(0),
    {
        if let (RuntimeValue::Number(a), RuntimeValue::Number(b)) = (&self, &rhs) {
            return RuntimeValue::Number(a.wrapping_sub(*b));
        }
        RuntimeValue::Number(0)
    }

    fn is_string(&self, s: &str) -> (r: bool)
        ensures
            r == (self matches RuntimeValue::StringLiteral(x) && x@ == s@),
    {
        match self {
            RuntimeValue::StringLiteral(x) => same_chars(x.as_str(), s),
            _ => false,
        }
    }
}

/// A function defined by the script.
#[derive(Debug, Clone, PartialEq, Eq)]
pub struct Function {
    id: String,
    params: Vec<Option<Rc<Node>>>,
    body: Option<Rc<Node>>,
}

impl Function {
    fn new(id: String, params: Vec<Option<Rc<Node>>>, body: Option<Rc<Node>>) -> (r: Self)
        ensures
            r.id == id,
    {
        Function { id, params, body }
    }
}

/// The variables of one scope, in the order they were added or last
/// updated, and the index of the enclosing scope.
#[derive(Debug, Clone)]
pub struct Environment {
    variables: Vec<(String, Option<RuntimeValue>)>,
    outer: Option<usize>,
}

impl Environment {
    pub closed spec fn spec_outer(&self) -> Option<usize> {
        self.outer
    }

    pub closed spec fn names(&self) -> Seq<Seq<char>> {
        self.variables@.map_values(|v: (String, Option<RuntimeValue>)| v.0@)
    }

    /// The scope's variables, in order, as (name, value).
    pub closed spec fn entries(&self) -> Seq<(Seq<char>, Option<RuntimeValue>)> {
        self.variables@.map_values(|v: (String, Option<RuntimeValue>)| (v.0@, v.1))
    }

    fn new(outer: Option<usize>) -> (r: Self)
        ensures
            r.spec_outer() == outer,
            r.names().len() == 0,
            r.entries().len() == 0,
    {
        Environment { variables: Vec::new(), outer }
    }

    /// The value of `name` in this scope alone: the value of its first
    /// entry of that name, or `None` when there is none (or its value is
    /// unset).
    pub fn get_variable(&self, name: String) -> (r: Option<RuntimeValue>)
        ensures
            r == match lookup_from(self.entries(), name@, 0) {
                Some(v) => v,
                None => None,
            },
    {
        match self.find(name.as_str()) {
            Some(i) => clone_value(&self.variables[i].1),
            None => None,
        }
    }

    fn find(&self, name: &str) -> (r: Option<usize>)
        ensures
            r matches Some(i) ==> i < self.variables@.len() && self.names()[i as int] == name@,
            r is None ==> !self.names().contains(name@),
            r matches Some(i) ==> lookup_from(self.entries(), name@, 0) == Some(self.variables@[i as int].1),
            r is None ==> lookup_from(self.entries(), name@, 0) is None,
    {
        let mut i: usize = 0;
        while i < self.variables.len()
            invariant
                i <= self.variables@.len(),
                forall|k: int| 0 <= k < i ==> self.names()[k] != name@,
            decreases self.variables@.len() - i,
        {
            if same_chars(self.variables[i].0.as_str(), name) {
                proof {
                    assert forall|k: int| 0 <= k < i implies (#[trigger] self.entries()[k]).0 != name@ by {
                        assert(self.names()[k] == self.entries()[k].0);
                    }
                    lemma_lookup_found(self.entries(), name@, 0, i as int);
                }
                return Some(i);
            }
            i = i + 1;
        }
        proof {
            assert forall|k: int| 0 <= k < self.entries().len() implies (#[trigger] self.entries()[k]).0 != name@ by {
                assert(self.names()[k] == self.entries()[k].0);
            }
            lemma_lookup_absent(self.entries(), name@, 0);
        }
        None
    }

    /// Adds a variable to this scope.
    pub fn add_variable(&mut self, name: String, value: Option<RuntimeValue>)
        ensures
            final(self).names() == old(self).names().push(name@),
            final(self).entries() == old(self).entries().push((name@, value)),
            final(self).spec_outer() == old(self).spec_outer(),
    {
        let ghost v = value;
        self.variables.push((name, value));
        assert(self.names() =~= old(self).names().push(name@));
        assert(self.entries() =~= old(self).entries().push((name@, v)));
    }

    /// Gives `name` a new value when it is defined in this scope; the
    /// variable moves to the end of the scope's order.
    fn update_variable(&mut self, name: String, value: Option<RuntimeValue>)
        ensures
            final(self).names().len() == old(self).names().len(),
            final(self).spec_outer() == old(self).spec_outer(),
    {
        if let Some(i) = self.find(name.as_str()) {
            self.variables.remove(i);
            self.variables.push((name, value));
        }
    }

    pub fn num_variables(&self) -> (r: usize)
        ensures
            r == self.names().len(),
    {
        self.variables.len()
    }
}

/// Scopes whose enclosing scope comes before them.
pub open spec fn envs_wf(envs: Seq<Environment>) -> bool {
    &&& envs.len() >= 1
    &&& forall|i: int| 0 <= i < envs.len() ==> crate::window::backward(i, (#[trigger] envs[i]).spec_outer())
}

/// The value of `name` seen from scope `env`: its entry in that scope, else
/// in the enclosing scopes outwards; `None` when no scope defines it.
pub open spec fn scope_lookup(envs: Seq<Environment>, env: int, name: Seq<char>) -> Option<RuntimeValue>
    decreases env,
{
    if env < 0 || env >= envs.len() {
        None
    } else {
        match lookup_from(envs[env].entries(), name, 0) {
            Some(v) => v,
            None => match envs[env].spec_outer() {
                Some(o) => if o < env {
                    scope_lookup(envs, o as int, name)
                } else {
                    None
                },
                None => None,
            },
        }
    }
}

pub struct JsRuntime {
    dom: Window,
    functions: Vec<Function>,
    envs: Vec<Environment>,
}

impl JsRuntime {
    /// How many scopes exist.
    pub closed spec fn num_envs(&self) -> nat {
        self.envs@.len()
    }

    pub closed spec fn wf(&self) -> bool {
        &&& self.dom.wf()
        &&& envs_wf(self.envs@)
    }

    /// The scopes, the global one first.
    pub closed spec fn scopes(&self) -> Seq<Environment> {
        self.envs@
    }

    /// The document the script works on.
    pub closed spec fn spec_dom(&self) -> Window {
        self.dom
    }

    /// How many functions the script has defined.
    pub closed spec fn num_functions(&self) -> nat {
        self.functions@.len()
    }

    /// A runtime over `dom`, with an empty global scope and no functions.
    pub fn new(dom: Window) -> (r: Self)
        requires
            dom.wf(),
        ensures
            r.wf(),
            r.num_envs() == 1,
            r.scopes()[0].entries().len() == 0,
            r.scopes()[0].spec_outer() is None,
            r.num_functions() == 0,
            r.spec_dom() == dom,
    {
        let mut envs: Vec<Environment> = Vec::new();
        envs.push(Environment::new(None));
        JsRuntime { dom, functions: Vec::new(), envs }
    }

    /// The index of the global scope.
    pub fn global_env(&self) -> (r: usize)
        ensures
            r == 0,
    {
        0
    }

    /// The scope at index `env`.
    pub fn environment(&self, env: usize) -> (r: &Environment)
        requires
            self.wf(),
            env < self.num_envs(),
    {
        &self.envs[env]
    }

    /// The document, as the script left it.
    pub fn dom(&self) -> (r: &Window)
        requires
            self.wf(),
        ensures
            r.wf(),
            *r == self.spec_dom(),
    {
        &self.dom
    }

    /// Runs every statement of the program in the global scope.
    pub fn execute(&mut self, program: &Program)
        requires
            old(self).wf(),
        ensures
            final(self).wf(),
    {
        let body = program.body();
        let mut i: usize = 0;
        while i < body.len()
            invariant
                self.wf(),
                i <= body@.len(),
            decreases body@.len() - i,
        {
            self.eval_node(&*body[i], 0, MAX_EVAL_DEPTH);
            i = i + 1;
        }
    }

    /// The value of `name`, looked up from scope `env` outwards.
    pub fn get_variable(&self, env: usize, name: &str) -> (r: Option<RuntimeValue>)
        requires
            self.wf(),
            env < self.num_envs(),
        ensures
            r == scope_lookup(self.scopes(), env as int, name@),
        decreases env,
    {
        match self.envs[env].find(name) {
            Some(i) => clone_value(&self.envs[env].variables[i].1),
            None => {
                proof {
                    assert(crate::window::backward(env as int, self.envs@[env as int].spec_outer()));
                }
                match self.envs[env].outer {
                    Some(o) => self.get_variable(o, name),
                    None => None,
                }
            },
        }
    }

    /// Evaluates a statement or expression in scope `env` (the global
    /// scope is 0).
    pub fn eval(&mut self, node: &Option<Rc<Node>>, env: usize) -> (r: Option<RuntimeValue>)
        requires
            old(self).wf(),
            env < old(self).num_envs(),
        ensures
            final(self).wf(),
            final(self).num_envs() >= old(self).num_envs(),
    {
        match node {
            Some(n) => self.eval_node(&**n, env, MAX_EVAL_DEPTH),
            None => None,
        }
    }

    fn eval_opt(&mut self, node: &Option<Rc<Node>>, env: usize, depth: u64) -> (r: Option<RuntimeValue>)
        requires
            old(self).wf(),
            env < old(self).envs@.len(),
        ensures
            final(self).wf(),
            final(self).envs@.len() >= old(self).envs@.len(),
        decreases depth, 1nat,
    {
        match node {
            Some(n) => self.eval_node(&**n, env, depth),
            None => None,
        }
    }

    fn eval_node(&mut self, node: &Node, env: usize, depth: u64) -> (r: Option<RuntimeValue>)
        requires
            old(self).wf(),
            env < old(self).envs@.len(),
        ensures
            final(self).wf(),
            final(self).envs@.len() >= old(self).envs@.len(),
        decreases depth, 0nat,
    {
        if depth == 0 {
            return None;
        }
        let d = depth - 1;
        match node {
            Node::FunctionDeclaration { id, params, body } => {
                if let Some(RuntimeValue::StringLiteral(name)) = self.eval_opt(id, env, d) {
                    self.functions.push(Function::new(name, params.clone(), body.clone()));
                }
                None
            },
            Node::CallExpression { callee, arguments } => {
                let new_env = self.envs.len();
                self.envs.push(Environment::new(Some(env)));
                proof {
                    assert forall|i: int| 0 <= i < self.envs@.len() implies crate::window::backward(
                        i,
                        (#[trigger] self.envs@[i]).spec_outer(),
                    ) by {
                        if i < new_env {
                            assert(crate::window::backward(i, old(self).envs@[i].spec_outer()));
                        }
                    }
                }
                let callee_value = match self.eval_opt(callee, new_env, d) {
                    Some(v) => v,
                    None => return None,
                };
                if callee_value.is_string("document.getElementById") {
                    return self.call_browser_api(arguments, new_env, d);
                }
                let function = match self.search_function(&callee_value) {
                    Some(f) => f,
                    None => return None,
                };
                let mut i: usize = 0;
                while i < arguments.len() && i < function.params.len()
                    invariant
                        self.wf(),
                        new_env < self.envs@.len(),
                        self.envs@.len() >= old(self).envs@.len(),
                        d + 1 == depth,
                    decreases arguments@.len() - i,
                {
                    if let Some(RuntimeValue::StringLiteral(name)) = self.eval_opt(&function.params[i], new_env, d) {
                        let value = self.eval_opt(&arguments[i], new_env, d);
                        self.add_variable(new_env, name, value);
                    }
                    i = i + 1;
                }
                self.eval_opt(&function.body, new_env, d)
            },
            Node::BlockStatement { body } => {
                let mut result: Option<RuntimeValue> = None;
                let mut i: usize = 0;
                while i < body.len()
                    invariant
                        self.wf(),
                        env < self.envs@.len(),
                        self.envs@.len() >= old(self).envs@.len(),
                        d + 1 == depth,
                    decreases body@.len() - i,
                {
                    result = self.eval_opt(&body[i], env, d);
                    i = i + 1;
                }
                result
            },
            Node::ReturnStatement { argument } => self.eval_opt(argument, env, d),
            Node::ExpressionStatement(expr) => self.eval_opt(expr, env, d),
            Node::AdditiveExpression { operator, left, right } => {
                let left_value = match self.eval_opt(left, env, d) {
                    Some(v) => v,
                    None => return None,
                };
                let right_value = match self.eval_opt(right, env, d) {
                    Some(v) => v,
                    None => return None,
                };
                if *operator == '+' {
                    Some(left_value.add(right_value))
                } else if *operator == '-' {
                    Some(left_value.sub(right_value))
                } else {
                    None
                }
            },
            Node::AssignmentExpression { operator, left, right } => {
                if *operator != '=' {
                    return None;
                }
                if let Some(l) = left {
                    if let Node::Identifier(id) = &**l {
                        let new_value = self.eval_opt(right, env, d);
                        self.update_variable(env, id.clone(), new_value);
                    }
                }
                if let Some(RuntimeValue::HtmlElement { object, property }) = self.eval_opt(left, env, d) {
                    let right_value = match self.eval_opt(right, env, d) {
                        Some(v) => v,
                        None => return None,
                    };
                    if let Some(p) = property {
                        if same_chars(p.as_str(), "textContent") && object < self.dom.len()
                            && self.dom.len() < usize::MAX {
                            self.dom.set_text_content(object, right_value.to_js_string());
                        }
                    }
                }
                None
            },
            Node::MemberExpression { object, property } => {
                let object_value = match self.eval_opt(object, env, d) {
                    Some(v) => v,
                    None => return None,
                };
                let property_value = match self.eval_opt(property, env, d) {
                    Some(v) => v,
                    None => return Some(object_value),
                };
                if let RuntimeValue::HtmlElement { object, .. } = object_value {
                    return Some(
                        RuntimeValue::HtmlElement {
                            object,
                            property: Some(property_value.to_js_string()),
                        },
                    );
                }
                let dot = RuntimeValue::StringLiteral(String::from_str("."));
                Some(object_value.add(dot).add(property_value))
            },
            Node::NumericLiteral(value) => Some(RuntimeValue::Number(*value)),
            Node::VariableDeclaration { declarations } => {
                let mut i: usize = 0;
                while i < declarations.len()
                    invariant
                        self.wf(),
                        env < self.envs@.len(),
                        self.envs@.len() >= old(self).envs@.len(),
                        d + 1 == depth,
                    decreases declarations@.len() - i,
                {
                    self.eval_opt(&declarations[i], env, d);
                    i = i + 1;
                }
                None
            },
            Node::VariableDeclarator { id, init } => {
                if let Some(n) = id {
                    if let Node::Identifier(name) = &**n {
                        let value = self.eval_opt(init, env, d);
                        self.add_variable(env, name.clone(), value);
                    }
                }
                None
            },
            Node::Identifier(name) => {
                match self.get_variable(env, name.as_str()) {
                    Some(v) => Some(v),
                    None => Some(RuntimeValue::StringLiteral(name.clone())),
                }
            },
            Node::StringLiteral(value) => Some(RuntimeValue::StringLiteral(value.clone())),
        }
    }

    fn add_variable(&mut self, env: usize, name: String, value: Option<RuntimeValue>)
        requires
            old(self).wf(),
            env < old(self).envs@.len(),
        ensures
            final(self).wf(),
            final(self).envs@.len() == old(self).envs@.len(),
    {
        let mut e = Environment::new(None);
        core::mem::swap(&mut e, &mut self.envs[env]);
        e.add_variable(name, value);
        core::mem::swap(&mut e, &mut self.envs[env]);
        proof {
            assert forall|i: int| 0 <= i < self.envs@.len() implies crate::window::backward(
                i,
                (#[trigger] self.envs@[i]).spec_outer(),
            ) by {
                assert(crate::window::backward(i, old(self).envs@[i].spec_outer()));
            }
        }
    }

    fn update_variable(&mut self, env: usize, name: String, value: Option<RuntimeValue>)
        requires
            old(self).wf(),
            env < old(self).envs@.len(),
        ensures
            final(self).wf(),
            final(self).envs@.len() == old(self).envs@.len(),
    {
        let mut e = Environment::new(None);
        core::mem::swap(&mut e, &mut self.envs[env]);
        e.update_variable(name, value);
        core::mem::swap(&mut e, &mut self.envs[env]);
        proof {
            assert forall|i: int| 0 <= i < self.envs@.len() implies crate::window::backward(
                i,
                (#[trigger] self.envs@[i]).spec_outer(),
            ) by {
                assert(crate::window::backward(i, old(self).envs@[i].spec_outer()));
            }
        }
    }

    /// The function the script defined under the name `callee_value`.
    fn search_function(&self, callee_value: &RuntimeValue) -> (r: Option<Function>)
    {
        let mut i: usize = 0;
        while i < self.functions.len()
            invariant
                i <= self.functions@.len(),
            decreases self.functions@.len() - i,
        {
            if callee_value.is_string(self.functions[i].id.as_str()) {
                return Some(self.functions[i].clone());
            }
            i = i + 1;
        }
        None
    }

    /// `document.getElementById(id)`: the element whose `id` attribute is the
    /// first argument's text.
    fn call_browser_api(&mut self, arguments: &Vec<Option<Rc<Node>>>, env: usize, depth: u64) -> (r: Option<RuntimeValue>)
        requires
            old(self).wf(),
            env < old(self).envs@.len(),
        ensures
            final(self).wf(),
            final(self).envs@.len() >= old(self).envs@.len(),
        decreases depth, 2nat,
    {
        if arguments.len() == 0 {
            return None;
        }
        let arg = match self.eval_opt(&arguments[0], env, depth) {
            Some(a) => a,
            None => return None,
        };
        let id = arg.to_js_string();
        match get_element_by_id(&self.dom, Some(self.dom.document()), id.as_str()) {
            Some(target) => Some(RuntimeValue::HtmlElement { object: target, property: None }),
            None => None,
        }
    }
}

} // verus!
