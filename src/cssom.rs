//! The parsed style sheet: rules made of one selector and declarations.
use vstd::prelude::*;
use crate::css_token::CssToken;

verus! {

/// What a rule applies to. Only one simple selector per rule.
#[derive(Debug, PartialEq, Eq)]
pub enum Selector {
    TypeSelector(String),
    ClassSelector(String),
    IdSelector(String),
    UnknownSelector,
}

/// A declaration's value: one token taken verbatim.
pub type ComponentValue = CssToken;

/// `property: value`.
#[derive(Debug, PartialEq)]
pub struct Declaration {
    pub property: String,
    pub value: ComponentValue,
}

impl Declaration {
    pub fn new() -> (r: Self)
        ensures
            r.property@ == Seq::<char>::empty(),
            r.value matches CssToken::Ident(s) && s@ == Seq::<char>::empty(),
    {
        Declaration { property: String::new(), value: CssToken::Ident(String::new()) }
    }

    pub fn set_property(&mut self, property: String)
        ensures
            final(self).property == property,
            final(self).value == old(self).value,
    {
        self.property = property;
    }

    pub fn set_value(&mut self, value: ComponentValue)
        ensures
            final(self).value == value,
            final(self).property == old(self).property,
    {
        self.value = value;
    }
}

#[derive(Debug, PartialEq)]
pub struct QualifiedRule {
    pub selector: Selector,
    pub declarations: Vec<Declaration>,
}

impl QualifiedRule {
    pub fn new() -> (r: Self)
        ensures
            r.selector matches Selector::TypeSelector(s) && s@ == Seq::<char>::empty(),
            r.declarations@.len() == 0,
    {
        QualifiedRule { selector: Selector::TypeSelector(String::new()), declarations: Vec::new() }
    }

    pub fn set_selector(&mut self, selector: Selector)
        ensures
            final(self).selector == selector,
            final(self).declarations == old(self).declarations,
    {
        self.selector = selector;
    }

    pub fn set_declarations(&mut self, declarations: Vec<Declaration>)
        ensures
            final(self).declarations == declarations,
            final(self).selector == old(self).selector,
    {
        self.declarations = declarations;
    }
}

/// The rules of a style sheet, in the order that decides the cascade.
#[derive(Debug, PartialEq)]
pub struct StyleSheet {
    pub rules: Vec<QualifiedRule>,
}

impl StyleSheet {
    pub fn new() -> (r: Self)
        ensures
            r.rules@.len() == 0,
    {
        StyleSheet { rules: Vec::new() }
    }

    pub fn set_rules(&mut self, rules: Vec<QualifiedRule>)
        ensures
            final(self).rules == rules,
    {
        self.rules = rules;
    }
}

} // verus!
