//! Macro definitions, macro calls and the macro environment.
use vstd::prelude::*;
use crate::directives::Define;
use crate::token::{copy_tokens, Position, Token};
use crate::types::{MacroArgs, MacroName};

verus! {

/// Macro definition.
#[derive(Clone, Debug)]
pub enum MacroDef {
    /// Made by a `-define` directive.
    Static(Define),
    /// A replacement given by the caller (such as `?MODULE`); it never has variables.
    Dynamic(Vec<Token>),
}

impl MacroDef {
    pub open spec fn spec_has_variables(&self) -> bool {
        match self {
            MacroDef::Static(d) => d.variables is Some,
            MacroDef::Dynamic(_) => false,
        }
    }

    pub fn duplicate(&self) -> (r: MacroDef)
        ensures
            r.spec_has_variables() == self.spec_has_variables(),
            same_def(r, *self),
    {
        match self {
            MacroDef::Static(d) => MacroDef::Static(d.duplicate()),
            MacroDef::Dynamic(v) => MacroDef::Dynamic(copy_tokens(v)),
        }
    }

    /// Returns `true` if this macro has variables, otherwise `false`.
    pub fn has_variables(&self) -> (r: bool)
        ensures
            r == self.spec_has_variables(),
    {
        match self {
            MacroDef::Static(d) => d.variables.is_some(),
            MacroDef::Dynamic(_) => false,
        }
    }
}

/// Macro call: `?Name` or `?Name(Args)`.
#[derive(Clone, Debug)]
pub struct MacroCall {
    pub question: Token,
    pub name: MacroName,
    pub args: Option<MacroArgs>,
}

impl MacroCall {
    pub fn duplicate(&self) -> (r: MacroCall)
        ensures
            same_call(r, *self),
    {
        MacroCall {
            question: self.question.duplicate(),
            name: self.name.duplicate(),
            args: match &self.args {
                Some(a) => Some(a.duplicate()),
                None => None,
            },
        }
    }

    /// Where the call starts: the position of its `?`.
    pub fn start_position(&self) -> (r: &Position)
        ensures
            *r == self.question.position,
    {
        &self.question.position
    }
}

/// `a` is a copy of `b`: the same tokens, and for a `-define` the same name,
/// variables and replacement.
pub open spec fn same_def(a: MacroDef, b: MacroDef) -> bool {
    match (a, b) {
        (MacroDef::Dynamic(x), MacroDef::Dynamic(y)) => x@ == y@,
        (MacroDef::Static(x), MacroDef::Static(y)) => {
            &&& x.hyphen == y.hyphen
            &&& x.name == y.name
            &&& x.macro_name == y.macro_name
            &&& x.replacement@ == y.replacement@
            &&& (x.variables is Some <==> y.variables is Some)
            &&& y.variables is Some ==> x.variables->Some_0.list@ == y.variables->Some_0.list@
            &&& x.dot == y.dot
        },
        _ => false,
    }
}

/// `a` is a copy of `b`: the same `?`, name and parentheses, and arguments of the same
/// tokens.
pub open spec fn same_call(a: MacroCall, b: MacroCall) -> bool {
    &&& a.question == b.question
    &&& a.name == b.name
    &&& (a.args is Some <==> b.args is Some)
    &&& b.args is Some ==> a.args->Some_0.spec_args() == b.args->Some_0.spec_args()
        && a.args->Some_0.open_paren == b.args->Some_0.open_paren
        && a.args->Some_0.close_paren == b.args->Some_0.close_paren
}

/// Stringification of a macro variable: `??Var`.
#[derive(Clone, Debug)]
pub struct Stringify {
    pub double_question: Token,
    pub name: Token,
}

/// The macro environment: a map from decoded macro names to definitions.
#[derive(Clone, Debug)]
pub struct Macros {
    pub entries: Vec<(String, MacroDef)>,
}

/// The map that a list of entries stands for: a later entry of a name overrides an
/// earlier one.
pub open spec fn entries_map(e: Seq<(String, MacroDef)>) -> Map<Seq<char>, MacroDef>
    decreases e.len(),
{
    if e.len() == 0 {
        Map::empty()
    } else {
        entries_map(e.drop_last()).insert(e.last().0@, e.last().1)
    }
}

impl View for Macros {
    type V = Map<Seq<char>, MacroDef>;

    open spec fn view(&self) -> Map<Seq<char>, MacroDef> {
        entries_map(self.entries@)
    }
}

impl Macros {
    /// An empty environment.
    pub fn new() -> (r: Macros)
        ensures
            r@ == Map::<Seq<char>, MacroDef>::empty(),
    {
        Macros { entries: Vec::new() }
    }

    /// Returns the index of the entry that defines `name`, if any.
    fn find(&self, name: &String) -> (r: Option<usize>)
        ensures
            match r {
                Some(i) => i < self.entries.len() && self.entries@[i as int].0@ == name@
                    && self@.contains_key(name@) && self@[name@] == self.entries@[i as int].1,
                None => !self@.contains_key(name@),
            },
    {
        let mut j: usize = self.entries.len();
        assert(self.entries@.subrange(0, j as int) =~= self.entries@);
        while j > 0
            invariant
                j <= self.entries.len(),
                entries_map(self.entries@.subrange(0, j as int)).contains_key(name@)
                    == self@.contains_key(name@),
                entries_map(self.entries@.subrange(0, j as int)).contains_key(name@) ==>
                    entries_map(self.entries@.subrange(0, j as int))[name@] == self@[name@],
            decreases j,
        {
            let ghost sub = self.entries@.subrange(0, j as int);
            assert(sub.drop_last() =~= self.entries@.subrange(0, j - 1));
            if self.entries[j - 1].0 == *name {
                return Some(j - 1);
            }
            j = j - 1;
        }
        assert(self.entries@.subrange(0, 0) =~= Seq::<(String, MacroDef)>::empty());
        None
    }

    /// Returns `true` if `name` is defined.
    pub fn contains_key(&self, name: &String) -> (r: bool)
        ensures
            r == self@.contains_key(name@),
    {
        self.find(name).is_some()
    }

    /// Returns the definition of `name`, if any.
    pub fn get(&self, name: &String) -> (r: Option<&MacroDef>)
        ensures
            match r {
                Some(d) => self@.contains_key(name@) && *d == self@[name@],
                None => !self@.contains_key(name@),
            },
    {
        match self.find(name) {
            Some(i) => Some(&self.entries[i].1),
            None => None,
        }
    }

    /// Removes the definition of `name`, if any.
    pub fn remove(&mut self, name: &String)
        ensures
            final(self)@ == old(self)@.remove(name@),
    {
        let mut rest: Vec<(String, MacroDef)> = Vec::new();
        std::mem::swap(&mut self.entries, &mut rest);
        let ghost all = rest@;
        let mut kept: Vec<(String, MacroDef)> = Vec::new();
        let mut i: usize = 0;
        while rest.len() > 0
            invariant
                i + rest.len() == all.len(),
                all.len() == old(self).entries.len(),
                rest@ == all.subrange(i as int, all.len() as int),
                entries_map(kept@) == entries_map(all.subrange(0, i as int)).remove(name@),
                all == old(self).entries@,
            decreases rest.len(),
        {
            let ghost sub = all.subrange(0, i as int + 1);
            assert(sub.drop_last() =~= all.subrange(0, i as int));
            let e = rest.remove(0);
            assert(rest@ =~= all.subrange(i as int + 1, all.len() as int));
            if e.0 != *name {
                let ghost old_kept = kept@;
                kept.push(e);
                assert(kept@.drop_last() =~= old_kept);
                assert(entries_map(kept@) =~= entries_map(sub).remove(name@));
            } else {
                assert(entries_map(kept@) =~= entries_map(sub).remove(name@));
            }
            i = i + 1;
        }
        assert(all.subrange(0, all.len() as int) =~= all);
        self.entries = kept;
    }

    /// Defines `name` as `def`, replacing an earlier definition of it.
    pub fn insert(&mut self, name: String, def: MacroDef)
        ensures
            final(self)@ == old(self)@.insert(name@, def),
    {
        self.remove(&name);
        let ghost before = self.entries@;
        self.entries.push((name, def));
        assert(self.entries@.drop_last() =~= before);
        assert(self@ =~= old(self)@.remove(name@).insert(name@, def));
        assert(self@ =~= old(self)@.insert(name@, def));
    }

    /// Returns the number of defined macros.
    pub fn len(&self) -> (r: usize)
        ensures
            r == self.entries.len(),
    {
        self.entries.len()
    }
}

} // verus!
