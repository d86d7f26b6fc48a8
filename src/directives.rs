//! Preprocessor directives, as read from the token stream.
use vstd::prelude::*;
use crate::token::{copy_tokens, Token};
use crate::types::{MacroName, MacroVariables};

verus! {

/// `-include("path").`
#[derive(Clone, Debug)]
pub struct Include {
    pub hyphen: Token,
    pub name: Token,
    pub path: Token,
    pub dot: Token,
}

/// `-include_lib("app/path").`
#[derive(Clone, Debug)]
pub struct IncludeLib {
    pub hyphen: Token,
    pub name: Token,
    pub path: Token,
    pub dot: Token,
}

/// `-error("message").`
#[derive(Clone, Debug)]
pub struct Error {
    pub hyphen: Token,
    pub name: Token,
    pub message: Token,
    pub dot: Token,
}

/// `-warning("message").`
#[derive(Clone, Debug)]
pub struct Warning {
    pub hyphen: Token,
    pub name: Token,
    pub message: Token,
    pub dot: Token,
}

/// `-endif.`
#[derive(Clone, Debug)]
pub struct Endif {
    pub hyphen: Token,
    pub name: Token,
    pub dot: Token,
}

/// `-else.`
#[derive(Clone, Debug)]
pub struct Else {
    pub hyphen: Token,
    pub name: Token,
    pub dot: Token,
}

/// `-undef(Name).`
#[derive(Clone, Debug)]
pub struct Undef {
    pub hyphen: Token,
    pub name: Token,
    pub macro_name: MacroName,
    pub dot: Token,
}

/// `-ifdef(Name).`
#[derive(Clone, Debug)]
pub struct Ifdef {
    pub hyphen: Token,
    pub name: Token,
    pub macro_name: MacroName,
    pub dot: Token,
}

/// `-ifndef(Name).`
#[derive(Clone, Debug)]
pub struct Ifndef {
    pub hyphen: Token,
    pub name: Token,
    pub macro_name: MacroName,
    pub dot: Token,
}

/// `-define(Name, Replacement).` or `-define(Name(Vars), Replacement).`
#[derive(Clone, Debug)]
pub struct Define {
    pub hyphen: Token,
    pub name: Token,
    pub macro_name: MacroName,
    pub variables: Option<MacroVariables>,
    pub replacement: Vec<Token>,
    pub dot: Token,
}

impl Define {
    pub fn duplicate(&self) -> (r: Define)
        ensures
            r.hyphen == self.hyphen,
            r.name == self.name,
            r.macro_name == self.macro_name,
            r.variables is Some <==> self.variables is Some,
            self.variables is Some ==> r.variables->Some_0.list@ == self.variables->Some_0.list@,
            r.replacement@ == self.replacement@,
            r.dot == self.dot,
    {
        Define {
            hyphen: self.hyphen.duplicate(),
            name: self.name.duplicate(),
            macro_name: self.macro_name.duplicate(),
            variables: match &self.variables {
                Some(v) => Some(v.duplicate()),
                None => None,
            },
            replacement: copy_tokens(&self.replacement),
            dot: self.dot.duplicate(),
        }
    }
}

} // verus!
