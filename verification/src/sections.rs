//! The four sections of a rule file, each as a reader of its own that
//! holds the text which the tokens point into.

use vstd::prelude::*;
use crate::token::Token;

verus! {

/// The section `DECLARE`.
pub struct DefineSection<'a> {
    pub text: &'a str,
}

/// The section `GROUP_RULES`.
pub struct GroupRulesSection<'a> {
    pub text: &'a str,
}

/// The section `CHAR_RULES`.
pub struct SymbolRulesSection<'a> {
    pub text: &'a str,
}

/// The section `TPRIM_RULES`.
pub struct TPrimRulesSection<'a> {
    pub text: &'a str,
}

impl<'a> DefineSection<'a> {
    pub fn new(text: &'a str) -> (r: DefineSection<'a>)
        ensures
            r.text == text,
    {
        DefineSection { text }
    }

    /// Takes a token and keeps nothing of it.
    pub fn new_token(&mut self, _token: Token)
        ensures
            final(self).text == old(self).text,
    {
    }
}

impl<'a> GroupRulesSection<'a> {
    pub fn new(text: &'a str) -> (r: GroupRulesSection<'a>)
        ensures
            r.text == text,
    {
        GroupRulesSection { text }
    }

    /// Takes a token and keeps nothing of it.
    pub fn new_token(&mut self, _token: Token)
        ensures
            final(self).text == old(self).text,
    {
    }
}

impl<'a> SymbolRulesSection<'a> {
    pub fn new(text: &'a str) -> (r: SymbolRulesSection<'a>)
        ensures
            r.text == text,
    {
        SymbolRulesSection { text }
    }

    /// Takes a token and keeps nothing of it.
    pub fn new_token(&mut self, _token: Token)
        ensures
            final(self).text == old(self).text,
    {
    }
}

impl<'a> TPrimRulesSection<'a> {
    pub fn new(text: &'a str) -> (r: TPrimRulesSection<'a>)
        ensures
            r.text == text,
    {
        TPrimRulesSection { text }
    }

    /// Takes a token and keeps nothing of it.
    pub fn new_token(&mut self, _token: Token)
        ensures
            final(self).text == old(self).text,
    {
    }
}

} // verus!
