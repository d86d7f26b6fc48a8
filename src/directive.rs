//! The directive union.
use vstd::prelude::*;
use crate::directives;
use crate::token::{Position, Token};

verus! {

/// `a` is a copy of `b`: the same kind, the same tokens, and for `-define` a
/// replacement and variables of the same tokens.
pub open spec fn same_directive(a: Directive, b: Directive) -> bool {
    match (a, b) {
        (Directive::Include(x), Directive::Include(y)) => x == y,
        (Directive::IncludeLib(x), Directive::IncludeLib(y)) => x == y,
        (Directive::Undef(x), Directive::Undef(y)) => x == y,
        (Directive::Ifdef(x), Directive::Ifdef(y)) => x == y,
        (Directive::Ifndef(x), Directive::Ifndef(y)) => x == y,
        (Directive::Else(x), Directive::Else(y)) => x == y,
        (Directive::Endif(x), Directive::Endif(y)) => x == y,
        (Directive::Error(x), Directive::Error(y)) => x == y,
        (Directive::Warning(x), Directive::Warning(y)) => x == y,
        (Directive::Define(x), Directive::Define(y)) => {
            &&& x.hyphen == y.hyphen
            &&& x.name == y.name
            &&& x.macro_name == y.macro_name
            &&& x.replacement@ == y.replacement@
            &&& (x.variables is Some <==> y.variables is Some)
            &&& y.variables is Some ==> x.variables->Some_0.list@ == y.variables->Some_0.list@
            &&& x.dot == y.dot
        },
        _ => false,
    }
}

/// A preprocessor directive.
#[derive(Clone, Debug)]
pub enum Directive {
    Include(directives::Include),
    IncludeLib(directives::IncludeLib),
    Define(directives::Define),
    Undef(directives::Undef),
    Ifdef(directives::Ifdef),
    Ifndef(directives::Ifndef),
    Else(directives::Else),
    Endif(directives::Endif),
    Error(directives::Error),
    Warning(directives::Warning),
}

impl Directive {
    /// The `-` token that opens the directive.
    pub open spec fn hyphen(&self) -> Token {
        match self {
            Directive::Include(d) => d.hyphen,
            Directive::IncludeLib(d) => d.hyphen,
            Directive::Define(d) => d.hyphen,
            Directive::Undef(d) => d.hyphen,
            Directive::Ifdef(d) => d.hyphen,
            Directive::Ifndef(d) => d.hyphen,
            Directive::Else(d) => d.hyphen,
            Directive::Endif(d) => d.hyphen,
            Directive::Error(d) => d.hyphen,
            Directive::Warning(d) => d.hyphen,
        }
    }

    /// The `.` token that closes the directive.
    pub open spec fn dot(&self) -> Token {
        match self {
            Directive::Include(d) => d.dot,
            Directive::IncludeLib(d) => d.dot,
            Directive::Define(d) => d.dot,
            Directive::Undef(d) => d.dot,
            Directive::Ifdef(d) => d.dot,
            Directive::Ifndef(d) => d.dot,
            Directive::Else(d) => d.dot,
            Directive::Endif(d) => d.dot,
            Directive::Error(d) => d.dot,
            Directive::Warning(d) => d.dot,
        }
    }

    pub fn duplicate(&self) -> (r: Directive)
        ensures
            same_directive(r, *self),
            r.hyphen() == self.hyphen(),
            r.dot() == self.dot(),
    {
        match self {
            Directive::Include(d) => Directive::Include(directives::Include {
                hyphen: d.hyphen.duplicate(), name: d.name.duplicate(), path: d.path.duplicate(), dot: d.dot.duplicate() }),
            Directive::IncludeLib(d) => Directive::IncludeLib(directives::IncludeLib {
                hyphen: d.hyphen.duplicate(), name: d.name.duplicate(), path: d.path.duplicate(), dot: d.dot.duplicate() }),
            Directive::Define(d) => Directive::Define(d.duplicate()),
            Directive::Undef(d) => Directive::Undef(directives::Undef {
                hyphen: d.hyphen.duplicate(), name: d.name.duplicate(), macro_name: d.macro_name.duplicate(), dot: d.dot.duplicate() }),
            Directive::Ifdef(d) => Directive::Ifdef(directives::Ifdef {
                hyphen: d.hyphen.duplicate(), name: d.name.duplicate(), macro_name: d.macro_name.duplicate(), dot: d.dot.duplicate() }),
            Directive::Ifndef(d) => Directive::Ifndef(directives::Ifndef {
                hyphen: d.hyphen.duplicate(), name: d.name.duplicate(), macro_name: d.macro_name.duplicate(), dot: d.dot.duplicate() }),
            Directive::Else(d) => Directive::Else(directives::Else {
                hyphen: d.hyphen.duplicate(), name: d.name.duplicate(), dot: d.dot.duplicate() }),
            Directive::Endif(d) => Directive::Endif(directives::Endif {
                hyphen: d.hyphen.duplicate(), name: d.name.duplicate(), dot: d.dot.duplicate() }),
            Directive::Error(d) => Directive::Error(directives::Error {
                hyphen: d.hyphen.duplicate(), name: d.name.duplicate(), message: d.message.duplicate(), dot: d.dot.duplicate() }),
            Directive::Warning(d) => Directive::Warning(directives::Warning {
                hyphen: d.hyphen.duplicate(), name: d.name.duplicate(), message: d.message.duplicate(), dot: d.dot.duplicate() }),
        }
    }

    /// Where the directive starts: the position of its `-`.
    pub fn start_position(&self) -> (r: &Position)
        ensures
            *r == self.hyphen().position,
    {
        match self {
            Directive::Include(d) => &d.hyphen.position,
            Directive::IncludeLib(d) => &d.hyphen.position,
            Directive::Define(d) => &d.hyphen.position,
            Directive::Undef(d) => &d.hyphen.position,
            Directive::Ifdef(d) => &d.hyphen.position,
            Directive::Ifndef(d) => &d.hyphen.position,
            Directive::Else(d) => &d.hyphen.position,
            Directive::Endif(d) => &d.hyphen.position,
            Directive::Error(d) => &d.hyphen.position,
            Directive::Warning(d) => &d.hyphen.position,
        }
    }

    /// Where the directive ends: the position of its `.`.
    pub fn end_position(&self) -> (r: &Position)
        ensures
            *r == self.dot().position,
    {
        match self {
            Directive::Include(d) => &d.dot.position,
            Directive::IncludeLib(d) => &d.dot.position,
            Directive::Define(d) => &d.dot.position,
            Directive::Undef(d) => &d.dot.position,
            Directive::Ifdef(d) => &d.dot.position,
            Directive::Ifndef(d) => &d.dot.position,
            Directive::Else(d) => &d.dot.position,
            Directive::Endif(d) => &d.dot.position,
            Directive::Error(d) => &d.dot.position,
            Directive::Warning(d) => &d.dot.position,
        }
    }
}

} // verus!
