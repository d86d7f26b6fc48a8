//! Macro names, formal variables and actual arguments.
use vstd::prelude::*;
use vstd::std_specs::cmp::PartialEqSpec;
use crate::token::{copy_tokens, Kind, Token};

verus! {

/// The token that names a macro: an atom (`foo`, `'foo'`) or a variable (`Foo`).
#[derive(Clone, Debug)]
pub enum MacroName {
    Atom(Token),
    Variable(Token),
}

impl MacroName {
    pub open spec fn token(&self) -> Token {
        match self {
            MacroName::Atom(t) => *t,
            MacroName::Variable(t) => *t,
        }
    }

    /// The decoded name: `'foo'` and `foo` both name `foo`.
    pub open spec fn spec_value(&self) -> Seq<char> {
        self.token().value@
    }

    /// A macro name read from the token `t`: atoms and variables name macros.
    pub open spec fn of_token(t: Token) -> Option<MacroName> {
        if t.kind == Kind::Atom {
            Some(MacroName::Atom(t))
        } else if t.kind == Kind::Variable {
            Some(MacroName::Variable(t))
        } else {
            None
        }
    }

    /// Returns the decoded value of this name.
    pub fn value(&self) -> (r: &String)
        ensures
            r@ == self.spec_value(),
    {
        match self {
            MacroName::Atom(t) => &t.value,
            MacroName::Variable(t) => &t.value,
        }
    }

    /// Returns the token of this name.
    pub fn token_of(&self) -> (r: &Token)
        ensures
            *r == self.token(),
    {
        match self {
            MacroName::Atom(t) => t,
            MacroName::Variable(t) => t,
        }
    }

    /// Returns the source text of this name.
    pub fn text(&self) -> (r: &String)
        ensures
            r@ == self.token().text@,
    {
        match self {
            MacroName::Atom(t) => &t.text,
            MacroName::Variable(t) => &t.text,
        }
    }

    pub fn duplicate(&self) -> (r: MacroName)
        ensures
            r == *self,
    {
        match self {
            MacroName::Atom(t) => MacroName::Atom(t.duplicate()),
            MacroName::Variable(t) => MacroName::Variable(t.duplicate()),
        }
    }
}

impl PartialEq for MacroName {
    fn eq(&self, other: &MacroName) -> (r: bool) {
        *self.value() == *other.value()
    }
}

impl vstd::std_specs::cmp::PartialEqSpecImpl for MacroName {
    open spec fn obeys_eq_spec() -> bool {
        true
    }

    open spec fn eq_spec(&self, other: &MacroName) -> bool {
        self.spec_value() == other.spec_value()
    }
}

/// Macro names are equal when their decoded values are, whatever the quoting:
/// `foo` and `'foo'` name the same macro.
pub proof fn law_macro_name_eq(a: MacroName, b: MacroName)
    requires
        a.spec_value() == b.spec_value(),
    ensures
        a.eq_spec(&b),
        b.eq_spec(&a),
{
}

/// The formal variables of a macro definition: `(A, B, ...)`.
#[derive(Clone, Debug)]
pub struct MacroVariables {
    pub open_paren: Token,
    pub list: Vec<Token>,
    pub close_paren: Token,
}

impl MacroVariables {
    pub fn duplicate(&self) -> (r: MacroVariables)
        ensures
            r.open_paren == self.open_paren,
            r.list@ == self.list@,
            r.close_paren == self.close_paren,
    {
        MacroVariables {
            open_paren: self.open_paren.duplicate(),
            list: copy_tokens(&self.list),
            close_paren: self.close_paren.duplicate(),
        }
    }

    /// Returns the variables, in order.
    pub fn iter(&self) -> (r: &Vec<Token>)
        ensures
            r@ == self.list@,
    {
        &self.list
    }

    /// Returns the number of variables.
    pub fn len(&self) -> (r: usize)
        ensures
            r == self.list.len(),
    {
        self.list.len()
    }
}

/// One actual argument of a macro call: the tokens between two top-level
/// separators. It is never empty.
#[derive(Clone, Debug)]
pub struct MacroArg {
    pub tokens: Vec<Token>,
}

/// The tokens of each argument, in order.
pub open spec fn arg_views(v: Seq<MacroArg>) -> Seq<Seq<Token>> {
    v.map_values(|a: MacroArg| a@)
}

/// The actual arguments of a macro call: `(Arg, Arg, ...)`.
#[derive(Clone, Debug)]
pub struct MacroArgs {
    pub open_paren: Token,
    pub list: Vec<MacroArg>,
    pub close_paren: Token,
}

impl View for MacroArg {
    type V = Seq<Token>;

    open spec fn view(&self) -> Seq<Token> {
        self.tokens@
    }
}

impl MacroArg {
    pub fn duplicate(&self) -> (r: MacroArg)
        ensures
            r@ == self@,
    {
        MacroArg { tokens: copy_tokens(&self.tokens) }
    }
}

impl MacroArgs {
    /// The tokens of each argument, in order.
    pub open spec fn spec_args(&self) -> Seq<Seq<Token>> {
        arg_views(self.list@)
    }

    pub fn duplicate(&self) -> (r: MacroArgs)
        ensures
            r.open_paren == self.open_paren,
            r.spec_args() == self.spec_args(),
            r.close_paren == self.close_paren,
    {
        let mut list: Vec<MacroArg> = Vec::new();
        let mut i: usize = 0;
        while i < self.list.len()
            invariant
                i <= self.list.len(),
                list.len() == i,
                forall|k: int| 0 <= k < i ==> (#[trigger] list@[k])@ == self.list@[k]@,
            decreases self.list.len() - i,
        {
            list.push(self.list[i].duplicate());
            i = i + 1;
        }
        let ghost r = MacroArgs { open_paren: self.open_paren, list, close_paren: self.close_paren };
        assert(r.spec_args() =~= self.spec_args());
        MacroArgs {
            open_paren: self.open_paren.duplicate(),
            list,
            close_paren: self.close_paren.duplicate(),
        }
    }

    /// Returns the arguments, in order.
    pub fn iter(&self) -> (r: &Vec<MacroArg>)
        ensures
            r@ == self.list@,
    {
        &self.list
    }

    /// Returns the number of arguments.
    pub fn len(&self) -> (r: usize)
        ensures
            r == self.list.len(),
    {
        self.list.len()
    }
}

} // verus!
