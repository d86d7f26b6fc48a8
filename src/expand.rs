//! Reading and expanding macro calls.
use vstd::prelude::*;
use crate::args::{args_error, args_from, read_macro_args};
use crate::error::Error;
use crate::macros::{same_call, same_def, MacroCall, MacroDef, Macros, Stringify};
use crate::text::{atom_text, atom_text_of, decimal, decimal_text, quote, quoted};
use crate::token::{copy_tokens, is_symbol, text_is, token_texts, Kind, Position, Symbol, Token};
use crate::token_reader::{at_symbol, lemma_skip_hidden, name_at, next_lexical, read_error, read_macro_name, skip_hidden};
use crate::types::{arg_views, MacroArg, MacroArgs, MacroName};

verus! {

/// How many expansions one top-level macro call may take, nested ones included.
pub const EXPANSION_LIMIT: u64 = 100000;

/// How deeply expansions may nest inside one another.
pub const NESTING_LIMIT: u64 = 200;

/// The configured values of `?MODULE`, `?MODULE_STRING`, `?FUNCTION_NAME` and
/// `?FUNCTION_ARITY`. Where a value is not set, the name is looked up among the
/// defined macros like any other.
#[derive(Clone, Debug)]
pub struct PredefinedInputs {
    pub module: Option<String>,
    pub function_name: Option<String>,
    pub function_arity: Option<usize>,
}

/// The names of the predefined macros; a call of one never takes arguments.
pub open spec fn is_predefined(v: Seq<char>) -> bool {
    v == "FILE"@ || v == "LINE"@ || v == "MACHINE"@ || v == "MODULE"@ || v == "MODULE_STRING"@
        || v == "FUNCTION_NAME"@ || v == "FUNCTION_ARITY"@
}

fn is_predefined_name(v: &String) -> (r: bool)
    ensures
        r == is_predefined(v@),
{
    text_is(v, "FILE") || text_is(v, "LINE") || text_is(v, "MACHINE") || text_is(v, "MODULE")
        || text_is(v, "MODULE_STRING") || text_is(v, "FUNCTION_NAME") || text_is(v, "FUNCTION_ARITY")
}

/// A call of `n` must have arguments: `n` is a defined macro with variables.
pub open spec fn takes_args(env: Map<Seq<char>, MacroDef>, n: MacroName) -> bool {
    !is_predefined(n.spec_value()) && env.contains_key(n.spec_value()) && env[n.spec_value()].spec_has_variables()
}

/// The call `c`, ending just before `j`, has the arguments read from `b` (just past
/// its name) when its macro takes arguments, and none otherwise.
pub open spec fn reads_call_args(s: Seq<Token>, b: int, env: Map<Seq<char>, MacroDef>, c: MacroCall, j: int) -> bool {
    if takes_args(env, c.name) {
        at_symbol(s, b, Symbol::OpenParen) && c.args is Some && (args_from(s, skip_hidden(s, b) + 1, true) matches Ok(
            (a, jj),
        ) && c.args->Some_0.spec_args() == a && j == jj)
    } else {
        c.args is None && j == b
    }
}

/// Reads a macro call that starts at `i`: `?` at `i`, a name, and the arguments when
/// the macro takes them.
pub fn try_read_macro_call(s: &Vec<Token>, i: usize, env: &Macros) -> (r: Result<Option<(MacroCall, usize)>, Error>)
    requires
        i <= s.len(),
    ensures
        match r {
            Ok(None) => !(i < s.len() && is_symbol(s@[i as int], Symbol::Question)),
            Ok(Some((c, j))) => i < s.len() && is_symbol(s@[i as int], Symbol::Question) && c.question == s@[i as int]
                && name_at(s@, i + 1) == Some(c.name)
                && reads_call_args(s@, skip_hidden(s@, i + 1) + 1, env@, c, j as int) && i < j <= s.len(),
            Err(e) => i < s.len() && is_symbol(s@[i as int], Symbol::Question) && match name_at(s@, i + 1) {
                None => read_error(s@, skip_hidden(s@, i + 1), e),
                Some(n) => takes_args(env@, n) && args_error(s@, skip_hidden(s@, i + 1) + 1, e),
            },
        },
{
    if i >= s.len() || !s[i].is_symbol(Symbol::Question) {
        return Ok(None);
    }
    proof {
        lemma_skip_hidden(s@, i + 1);
    }
    let (name, b) = match read_macro_name(s, i + 1) {
        Ok(x) => x,
        Err(e) => return Err(e),
    };
    let with_args = !is_predefined_name(name.value()) && match env.get(name.value()) {
        Some(d) => d.has_variables(),
        None => false,
    };
    let question = s[i].duplicate();
    if with_args {
        match read_macro_args(s, b) {
            Ok((args, j)) => Ok(Some((MacroCall { question, name, args: Some(args) }, j))),
            Err(e) => Err(e),
        }
    } else {
        Ok(Some((MacroCall { question, name, args: None }, b)))
    }
}

/// No token of `s` starts a macro call or a stringification.
pub open spec fn free_of_calls(s: Seq<Token>) -> bool {
    forall|k: int| 0 <= k < s.len() ==> !is_symbol(#[trigger] s[k], Symbol::Question) && !is_symbol(
        s[k],
        Symbol::DoubleQuestion,
    )
}

/// Where the variable of a stringification `??Var` that starts at `k` stands: after
/// one `??` token, or after two `?` tokens.
pub open spec fn stringify_end(s: Seq<Token>, k: int) -> Option<int> {
    let m = if is_symbol(s[k], Symbol::Question) && at_symbol(s, k + 1, Symbol::Question) {
        Some(skip_hidden(s, k + 1) + 1)
    } else if is_symbol(s[k], Symbol::DoubleQuestion) {
        Some(k + 1)
    } else {
        None::<int>
    };
    match m {
        Some(m) => {
            let v = skip_hidden(s, m);
            if v < s.len() && s[v].kind == Kind::Variable {
                Some(v)
            } else {
                None
            }
        },
        None => None,
    }
}

/// A stringification `??Var` starts at `k`: as one `??` token or as two `?` tokens.
/// Returns it, and the index past the variable.
fn read_stringify(toks: &Vec<Token>, k: usize) -> (r: Option<(Stringify, usize)>)
    requires
        k < toks.len(),
    ensures
        (r is Some) == (stringify_end(toks@, k as int) is Some),
        r matches Some((st, j)) ==> stringify_end(toks@, k as int) == Some(j - 1) && k < j <= toks.len() && st.name == toks@[j - 1] && st.name.kind == Kind::Variable
            && st.double_question == toks@[k as int] && (is_symbol(toks@[k as int], Symbol::Question) || is_symbol(
            toks@[k as int],
            Symbol::DoubleQuestion,
        )),
{
    match stringify_at(toks, k) {
        Some(m) => Some((Stringify { double_question: toks[k].duplicate(), name: toks[m].duplicate() }, m + 1)),
        None => None,
    }
}

fn stringify_at(toks: &Vec<Token>, k: usize) -> (r: Option<usize>)
    requires
        k < toks.len(),
    ensures
        match stringify_end(toks@, k as int) {
            Some(v) => r matches Some(m) && m as int == v,
            None => r is None,
        },
        r matches Some(m) ==> k < m < toks.len() && toks@[m as int].kind == Kind::Variable && (is_symbol(
            toks@[k as int],
            Symbol::Question,
        ) || is_symbol(toks@[k as int], Symbol::DoubleQuestion)),
{
    proof {
        lemma_skip_hidden(toks@, k as int + 1);
    }
    let mut m = k + 1;
    if toks[k].is_symbol(Symbol::Question) {
        let q = next_lexical(toks, k + 1);
        if q >= toks.len() || !toks[q].is_symbol(Symbol::Question) {
            return None;
        }
        m = q + 1;
        proof {
            lemma_skip_hidden(toks@, m as int);
        }
    } else if !toks[k].is_symbol(Symbol::DoubleQuestion) {
        return None;
    }
    let v = next_lexical(toks, m);
    if v < toks.len() && toks[v].kind == Kind::Variable {
        Some(v)
    } else {
        None
    }
}


proof fn lemma_predefined_names_distinct()
    ensures
        "FILE"@ != "LINE"@,
        "MODULE_STRING"@ != "FUNCTION_NAME"@,
        "FILE"@.len() == 4 && "LINE"@.len() == 4 && "MACHINE"@.len() == 7 && "MODULE"@.len() == 6,
        "MODULE_STRING"@.len() == 13 && "FUNCTION_NAME"@.len() == 13 && "FUNCTION_ARITY"@.len() == 14,
{
    reveal_strlit("FILE");
    reveal_strlit("LINE");
    reveal_strlit("MACHINE");
    reveal_strlit("MODULE");
    reveal_strlit("MODULE_STRING");
    reveal_strlit("FUNCTION_NAME");
    reveal_strlit("FUNCTION_ARITY");
    assert("FILE"@[0] != "LINE"@[0]);
    assert("MODULE_STRING"@[0] != "FUNCTION_NAME"@[0]);
}

/// Makes a token of kind `kind` with the text `text`, the value `value`, at `p`.
fn make_token(kind: Kind, text: String, value: String, p: &Position) -> (r: Token)
    ensures
        r.kind == kind,
        r.text == text,
        r.value == value,
        r.position == *p,
{
    Token { kind, text, value, position: p.duplicate() }
}

/// A predefined macro answers the call `c`: it names one whose input is set, and
/// `?FILE` stands in a known file.
pub open spec fn predefined_answers(c: MacroCall, pre: PredefinedInputs) -> bool {
    !user_defined_call(c, pre) && !(c.name.spec_value() == "FILE"@ && c.question.position.filepath is None)
}

/// Expands a call of a predefined macro; `None` where `call` names none, or names one
/// whose input is not set.
fn try_expand_predefined(call: &MacroCall, pre: &PredefinedInputs) -> (r: Result<Option<Token>, Error>)
    ensures
        match r {
            Ok(Some(t)) => is_predefined(call.name.spec_value()) && t.position == call.question.position
                && predefined_token(call.name.spec_value(), call.question.position, *pre) == Some(
                (t.kind, t.text@, t.value@),
            ),
            Ok(None) => user_defined_call(*call, *pre),
            Err(e) => call.name.spec_value() == "FILE"@ && call.question.position.filepath is None
                && (e matches Error::FileNotSet { macro_call } && same_call(macro_call, *call)),
        },
        predefined_answers(*call, *pre) ==> r matches Ok(Some(_)),
        call.name.spec_value() == "FILE"@ && call.question.position.filepath is None ==> r is Err,
        user_defined_call(*call, *pre) ==> match r {
            Ok(None) => true,
            _ => false,
        },
        call.name.spec_value() == "LINE"@ ==> (r matches Ok(Some(t)) && t.kind == Kind::Integer
            && t.text == t.value && t.text@ == decimal(call.question.position.line as nat)),
        call.name.spec_value() == "MACHINE"@ ==> (r matches Ok(Some(t)) && t.kind == Kind::Atom
            && t.value@ == "BEAM"@),
        call.name.spec_value() == "FILE"@ && call.question.position.filepath is Some ==> (r matches Ok(Some(t))
            && t.kind == Kind::String && t.value == call.question.position.filepath->Some_0
            && t.text@ == quoted(t.value@, '"')),
{
    let v = call.name.value();
    let p = &call.question.position;
    proof {
        lemma_predefined_names_distinct();
    }
    if text_is(v, "FILE") {
        match &p.filepath {
            Some(f) => Ok(Some(make_token(Kind::String, quote(f.as_str(), '"'), f.clone(), p))),
            None => Err(Error::FileNotSet { macro_call: call.duplicate() }),
        }
    } else if text_is(v, "LINE") {
        assert(v@ == "LINE"@);
        let text = decimal_text(p.line);
        Ok(Some(make_token(Kind::Integer, text.clone(), text, p)))
    } else if text_is(v, "MACHINE") {
        let value = String::from_str("BEAM");
        Ok(Some(make_token(Kind::Atom, atom_text_of("BEAM"), value, p)))
    } else if text_is(v, "MODULE") {
        match &pre.module {
            Some(m) => Ok(Some(make_token(Kind::Atom, atom_text_of(m.as_str()), m.clone(), p))),
            None => Ok(None),
        }
    } else if text_is(v, "MODULE_STRING") {
        match &pre.module {
            Some(m) => Ok(Some(make_token(Kind::String, quote(m.as_str(), '"'), m.clone(), p))),
            None => Ok(None),
        }
    } else if text_is(v, "FUNCTION_NAME") {
        match &pre.function_name {
            Some(m) => Ok(Some(make_token(Kind::Atom, atom_text_of(m.as_str()), m.clone(), p))),
            None => Ok(None),
        }
    } else if text_is(v, "FUNCTION_ARITY") {
        match pre.function_arity {
            Some(a) => {
                let text = decimal_text(a);
                Ok(Some(make_token(Kind::Integer, text.clone(), text, p)))
            },
            None => Ok(None),
        }
    } else {
        Ok(None)
    }
}

/// The index of the last formal variable named `name`, if any.
fn binding_index(formals: &Vec<Token>, name: &String) -> (r: Option<usize>)
    ensures
        match r {
            Some(k) => k < formals.len() && formals@[k as int].value@ == name@ && binding_of(formals@, name@) == Some(
                k as int,
            ),
            None => binding_of(formals@, name@) is None,
        },
{
    let mut k: usize = formals.len();
    assert(formals@.subrange(0, k as int) =~= formals@);
    while k > 0
        invariant
            k <= formals.len(),
            binding_of(formals@.subrange(0, k as int), name@) == binding_of(formals@, name@),
        decreases k,
    {
        assert(formals@.subrange(0, k as int).drop_last() =~= formals@.subrange(0, k - 1));
        if formals[k - 1].value == *name {
            return Some(k - 1);
        }
        k = k - 1;
    }
    None
}

/// The index of the last formal variable named `v`, if any.
pub open spec fn binding_of(formals: Seq<Token>, v: Seq<char>) -> Option<int>
    decreases formals.len(),
{
    if formals.len() == 0 {
        None
    } else if formals.last().value@ == v {
        Some(formals.len() - 1)
    } else {
        binding_of(formals.drop_last(), v)
    }
}

/// `rep` with each variable that `formals` binds replaced by the tokens of its
/// argument in `actuals`.
pub open spec fn substituted(rep: Seq<Token>, formals: Seq<Token>, actuals: Seq<Seq<Token>>) -> Seq<Token>
    decreases rep.len(),
{
    if rep.len() == 0 {
        Seq::empty()
    } else {
        let prev = substituted(rep.drop_last(), formals, actuals);
        let t = rep.last();
        if t.kind == Kind::Variable && binding_of(formals, t.value@) is Some {
            prev + actuals[binding_of(formals, t.value@)->Some_0]
        } else {
            prev.push(t)
        }
    }
}

/// The replacement is a single stringification `??Var`.
pub open spec fn lone_stringify(rep: Seq<Token>) -> bool {
    rep.len() > 0 && stringify_end(rep, 0) == Some(rep.len() - 1)
}

/// The string token that `??Var` makes of the argument `a`: its texts, one after the
/// other.
pub open spec fn stringifies(t: Token, a: Seq<Token>) -> bool {
    t.kind == Kind::String && t.value@ == token_texts(a) && t.text@ == quoted(token_texts(a), '"')
}

/// No token of the replacement nor of an argument starts a call or a stringification,
/// so that expanding is substituting.
pub open spec fn simple_expansion(rep: Seq<Token>, actuals: Seq<Seq<Token>>, budget: u64, depth: u64) -> bool {
    &&& free_of_calls(rep)
    &&& forall|x: int| 0 <= x < actuals.len() ==> free_of_calls(#[trigger] actuals[x])
    &&& rep.len() <= budget
    &&& depth >= 1
}

/// The string token of `??V`: the texts of `actual` one after the other, where the
/// first token of `actual` (or `at`, if `actual` is empty) stands.
fn stringified(actual: &Vec<Token>, at: &Position) -> (r: Token)
    ensures
        r.kind == Kind::String,
        r.value@ == token_texts(actual@),
        r.text@ == quoted(token_texts(actual@), '"'),
        stringified_token(r, actual@, *at),
{
    let mut value = String::new();
    let mut i: usize = 0;
    while i < actual.len()
        invariant
            i <= actual.len(),
            value@ == token_texts(actual@.subrange(0, i as int)),
        decreases actual.len() - i,
    {
        value.append(actual[i].text.as_str());
        assert(actual@.subrange(0, i as int + 1).drop_last() =~= actual@.subrange(0, i as int));
        i = i + 1;
    }
    assert(actual@.subrange(0, actual.len() as int) =~= actual@);
    let p = if actual.len() > 0 {
        &actual[0].position
    } else {
        at
    };
    let text = quote(value.as_str(), '"');
    make_token(Kind::String, text, value, p)
}

/// An error of expansion, told apart as `fault_is` ties it to the error returned.
pub enum Fault {
    /// Reading the macro call at this index of these tokens failed.
    Read(Seq<Token>, int),
    /// `??Var` of a variable of this name that the macro does not have.
    UndefinedVar(Seq<char>),
    /// No expansion left, at this position.
    Limit(Position),
    /// `?FILE` (its `?` and name) where no file is known.
    FileNotSet(Token, MacroName),
    /// A call (its `?` and name) of a macro that is not defined.
    Undefined(Token, MacroName),
    /// A call (its `?` and name) whose arguments do not match the definition.
    Mismatch(Token, MacroName, MacroDef),
}

/// `e` is the error of reading a macro call whose `?` is at `k` of `s`.
pub open spec fn call_read_error(env: Map<Seq<char>, MacroDef>, s: Seq<Token>, k: int, e: Error) -> bool {
    match name_at(s, k + 1) {
        None => read_error(s, skip_hidden(s, k + 1), e),
        Some(n) => takes_args(env, n) && args_error(s, skip_hidden(s, k + 1) + 1, e),
    }
}

/// `e` is the error that reports the fault `f`.
pub open spec fn fault_is(env: Map<Seq<char>, MacroDef>, f: Fault, e: Error) -> bool {
    match f {
        Fault::Read(s, k) => call_read_error(env, s, k, e),
        Fault::UndefinedVar(v) => e matches Error::UndefinedMacroVar { varname } && varname@ == v,
        Fault::Limit(p) => e matches Error::ExpansionLimit { position } && position == p,
        Fault::FileNotSet(q, n) => e matches Error::FileNotSet { macro_call } && macro_call.question == q
            && macro_call.name == n,
        Fault::Undefined(q, n) => e matches Error::UndefinedMacro { macro_call } && macro_call.question == q
            && macro_call.name == n,
        Fault::Mismatch(q, n, d) => e matches Error::MacroArgsMismatched { macro_call, macro_def }
            && macro_call.question == q && macro_call.name == n && same_def(macro_def, d),
    }
}

/// The macro call whose `?` is at `c`, as the grammar reads it: its name, and its
/// arguments where its macro takes them; `None` where it cannot be read.
pub open spec fn call_at(env: Map<Seq<char>, MacroDef>, s: Seq<Token>, c: int) -> Option<
    (MacroName, Option<Seq<Seq<Token>>>),
> {
    match name_at(s, c + 1) {
        None => None,
        Some(n) => {
            let b = skip_hidden(s, c + 1) + 1;
            if takes_args(env, n) {
                if at_symbol(s, b, Symbol::OpenParen) && args_from(s, skip_hidden(s, b) + 1, true) is Ok {
                    Some((n, Some(args_from(s, skip_hidden(s, b) + 1, true)->Ok_0.0)))
                } else {
                    None
                }
            } else {
                Some((n, None))
            }
        },
    }
}

/// Where the macro call whose `?` is at `c` ends (when `call_at` reads it).
pub open spec fn call_end(env: Map<Seq<char>, MacroDef>, s: Seq<Token>, c: int) -> int {
    match name_at(s, c + 1) {
        Some(n) => {
            let b = skip_hidden(s, c + 1) + 1;
            if takes_args(env, n) {
                args_from(s, skip_hidden(s, b) + 1, true)->Ok_0.1
            } else {
                b
            }
        },
        None => c + 1,
    }
}

/// The arguments of a call, as tokens.
pub open spec fn args_view(c: MacroCall) -> Option<Seq<Seq<Token>>> {
    match c.args {
        Some(a) => Some(a.spec_args()),
        None => None,
    }
}

/// The kind, text and value of the token that the predefined macro `v` gives at `p`,
/// if it gives one there.
pub open spec fn predefined_token(v: Seq<char>, p: Position, pre: PredefinedInputs) -> Option<(Kind, Seq<char>, Seq<char>)> {
    if v == "LINE"@ {
        Some((Kind::Integer, decimal(p.line as nat), decimal(p.line as nat)))
    } else if v == "MACHINE"@ {
        Some((Kind::Atom, atom_text("BEAM"@), "BEAM"@))
    } else if v == "FILE"@ && p.filepath is Some {
        Some((Kind::String, quoted(p.filepath->Some_0@, '"'), p.filepath->Some_0@))
    } else if v == "MODULE"@ && pre.module is Some {
        Some((Kind::Atom, atom_text(pre.module->Some_0@), pre.module->Some_0@))
    } else if v == "MODULE_STRING"@ && pre.module is Some {
        Some((Kind::String, quoted(pre.module->Some_0@, '"'), pre.module->Some_0@))
    } else if v == "FUNCTION_NAME"@ && pre.function_name is Some {
        Some((Kind::Atom, atom_text(pre.function_name->Some_0@), pre.function_name->Some_0@))
    } else if v == "FUNCTION_ARITY"@ && pre.function_arity is Some {
        Some(
            (
                Kind::Integer,
                decimal(pre.function_arity->Some_0 as nat),
                decimal(pre.function_arity->Some_0 as nat),
            ),
        )
    } else {
        None
    }
}

/// The string token that `??Var` makes of the argument `a`, standing where the
/// argument's first token stands (at `p` for an empty argument).
pub open spec fn stringified_token(t: Token, a: Seq<Token>, p: Position) -> bool {
    &&& stringifies(t, a)
    &&& t.position == if a.len() > 0 {
        a[0].position
    } else {
        p
    }
}

/// The formal variables of a definition (none without parentheses).
pub open spec fn formals_of(d: crate::directives::Define) -> Seq<Token> {
    match d.variables {
        Some(v) => v.list@,
        None => Seq::empty(),
    }
}

/// The choices that an expansion makes, in order: each string token that `??Var`
/// makes, and what each nested expansion gives (with the trace of how).
pub enum Trace {
    Done,
    Made(Token, Box<Trace>),
    Nested(Seq<Token>, nat, Box<Trace>, Box<Trace>),
    Failed(Box<Trace>),
}

/// Expanding the call of `n` with the arguments `a`, whose `?` is `q`, with `b`
/// expansions left and `depth` levels of nesting, gives `res` as `tr` traces it: a
/// predefined macro answers with one token; a macro given as tokens gives those
/// tokens; a macro of `-define` with as many arguments as variables expands its
/// replacement (`rep_ok`).
pub open spec fn macro_ok(
    env: Map<Seq<char>, MacroDef>,
    pre: PredefinedInputs,
    q: Token,
    n: MacroName,
    a: Option<Seq<Seq<Token>>>,
    b: nat,
    depth: nat,
    res: Result<(Seq<Token>, nat), Fault>,
    tr: Trace,
) -> bool
    decreases tr, 1int, 0int,
{
    let c = MacroCall { question: q, name: n, args: None };
    let v = n.spec_value();
    if v == "FILE"@ && q.position.filepath is None {
        res == Err::<(Seq<Token>, nat), Fault>(Fault::FileNotSet(q, n))
    } else if predefined_answers(c, pre) {
        res matches Ok((w, bb)) && bb == b && w.len() == 1 && predefined_token(v, q.position, pre) == Some(
            (w[0].kind, w[0].text@, w[0].value@),
        ) && w[0].position == q.position
    } else if !env.contains_key(v) {
        res == Err::<(Seq<Token>, nat), Fault>(Fault::Undefined(q, n))
    } else {
        match env[v] {
            MacroDef::Dynamic(t) => res == Ok::<(Seq<Token>, nat), Fault>((t@, b)),
            MacroDef::Static(d) => {
                let ac = match a {
                    Some(x) => Some(x.len()),
                    None => None::<nat>,
                };
                if formal_count(d) != ac {
                    res == Err::<(Seq<Token>, nat), Fault>(Fault::Mismatch(q, n, env[v]))
                } else {
                    rep_ok(
                        env,
                        pre,
                        formals_of(d),
                        match a {
                            Some(x) => x,
                            None => Seq::empty(),
                        },
                        d.replacement@,
                        0,
                        Seq::empty(),
                        b,
                        depth,
                        res,
                        tr,
                    )
                }
            },
        }
    }
}

/// Expanding from index `k` of `toks`, with `out` made so far and `b` expansions left,
/// gives `res` as `tr` traces it. In turn: `??Var` becomes the string of `Var`'s
/// argument; a macro call is expanded and what it gives is read again before the rest;
/// a variable becomes its argument, itself expanded; any other token stays.
pub open spec fn rep_ok(
    env: Map<Seq<char>, MacroDef>,
    pre: PredefinedInputs,
    formals: Seq<Token>,
    actuals: Seq<Seq<Token>>,
    toks: Seq<Token>,
    k: int,
    out: Seq<Token>,
    b: nat,
    depth: nat,
    res: Result<(Seq<Token>, nat), Fault>,
    tr: Trace,
) -> bool
    decreases tr, 0int, toks.len() - k,
{
    if k < 0 || k >= toks.len() {
        res == Ok::<(Seq<Token>, nat), Fault>((out, b))
    } else if stringify_end(toks, k) is Some && k <= stringify_end(toks, k)->Some_0 < toks.len() {
        let v = stringify_end(toks, k)->Some_0;
        match binding_of(formals, toks[v].value@) {
            Some(x) => match tr {
                Trace::Made(t, rest) => stringified_token(t, actuals[x], toks[k].position) && rep_ok(
                    env,
                    pre,
                    formals,
                    actuals,
                    toks,
                    v + 1,
                    out.push(t),
                    b,
                    depth,
                    res,
                    *rest,
                ),
                _ => false,
            },
            None => res == Err::<(Seq<Token>, nat), Fault>(Fault::UndefinedVar(toks[v].value@)),
        }
    } else if is_symbol(toks[k], Symbol::Question) {
        match call_at(env, toks, k) {
            None => res == Err::<(Seq<Token>, nat), Fault>(Fault::Read(toks, k)),
            Some((n, a)) => if b == 0 || depth == 0 {
                res == Err::<(Seq<Token>, nat), Fault>(Fault::Limit(toks[k].position))
            } else {
                match tr {
                    Trace::Nested(nested, left, sub, rest) => left < b && macro_ok(
                        env,
                        pre,
                        toks[k],
                        n,
                        a,
                        (b - 1) as nat,
                        (depth - 1) as nat,
                        Ok((nested, left)),
                        *sub,
                    ) && rep_ok(
                        env,
                        pre,
                        formals,
                        actuals,
                        nested + toks.subrange(call_end(env, toks, k), toks.len() as int),
                        0,
                        out,
                        left,
                        depth,
                        res,
                        *rest,
                    ),
                    Trace::Failed(sub) => res is Err && macro_ok(
                        env,
                        pre,
                        toks[k],
                        n,
                        a,
                        (b - 1) as nat,
                        (depth - 1) as nat,
                        res,
                        *sub,
                    ),
                    _ => false,
                }
            },
        }
    } else if toks[k].kind == Kind::Variable && binding_of(formals, toks[k].value@) is Some {
        let x = binding_of(formals, toks[k].value@)->Some_0;
        if b == 0 || depth == 0 {
            res == Err::<(Seq<Token>, nat), Fault>(Fault::Limit(toks[k].position))
        } else {
            match tr {
                Trace::Nested(nested, left, sub, rest) => left < b && rep_ok(
                    env,
                    pre,
                    Seq::empty(),
                    Seq::empty(),
                    actuals[x],
                    0,
                    Seq::empty(),
                    (b - 1) as nat,
                    (depth - 1) as nat,
                    Ok((nested, left)),
                    *sub,
                ) && rep_ok(env, pre, formals, actuals, toks, k + 1, out + nested, left, depth, res, *rest),
                Trace::Failed(sub) => res is Err && rep_ok(
                    env,
                    pre,
                    Seq::empty(),
                    Seq::empty(),
                    actuals[x],
                    0,
                    Seq::empty(),
                    (b - 1) as nat,
                    (depth - 1) as nat,
                    res,
                    *sub,
                ),
                _ => false,
            }
        }
    } else {
        rep_ok(env, pre, formals, actuals, toks, k + 1, out.push(toks[k]), b, depth, res, tr)
    }
}

/// Expanding `rep`, the replacement of a macro whose variables `formals` are bound to
/// `actuals`, with `b` expansions and `depth` levels of nesting left, gives `res`.
pub open spec fn expands(
    env: Map<Seq<char>, MacroDef>,
    pre: PredefinedInputs,
    formals: Seq<Token>,
    actuals: Seq<Seq<Token>>,
    rep: Seq<Token>,
    b: nat,
    depth: nat,
    res: Result<(Seq<Token>, nat), Fault>,
) -> bool {
    exists|tr: Trace| #[trigger] rep_ok(env, pre, formals, actuals, rep, 0, Seq::empty(), b, depth, res, tr)
}

/// Expanding the call of `n` with the arguments `a`, whose `?` is `q`, with `b`
/// expansions and `depth` levels of nesting left, gives `res`.
pub open spec fn call_expands(
    env: Map<Seq<char>, MacroDef>,
    pre: PredefinedInputs,
    q: Token,
    n: MacroName,
    a: Option<Seq<Seq<Token>>>,
    b: nat,
    depth: nat,
    res: Result<(Seq<Token>, nat), Fault>,
) -> bool {
    exists|tr: Trace| #[trigger] macro_ok(env, pre, q, n, a, b, depth, res, tr)
}

/// Expands `rep`, the replacement of a macro whose formal variables `formals` are bound
/// to the arguments `actuals`: calls in it are expanded (and what they expand to is
/// read again), `??V` becomes the string of V's argument, and a variable becomes its
/// argument, itself expanded. Returns the tokens and the expansions left of `budget`.
pub fn expand_replacement(
    env: &Macros,
    pre: &PredefinedInputs,
    formals: &Vec<Token>,
    actuals: &Vec<MacroArg>,
    rep: &Vec<Token>,
    budget: u64,
    depth: u64,
) -> (r: Result<(Vec<Token>, u64), Error>)
    requires
        formals.len() == actuals.len(),
    ensures
        r matches Ok((_, b)) ==> b <= budget,
        formals.len() == 0 && free_of_calls(rep@) ==> (r matches Ok((v, b)) && v@ == rep@ && b == budget),
        simple_expansion(rep@, arg_views(actuals@), budget, depth) ==> (r matches Ok((v, _)) && v@ == substituted(
            rep@,
            formals@,
            arg_views(actuals@),
        )),
        lone_stringify(rep@) ==> match binding_of(formals@, rep@.last().value@) {
            Some(x) => r matches Ok((w, _)) && w.len() == 1 && stringifies(w@[0], arg_views(actuals@)[x]),
            None => r matches Err(e) && (e matches Error::UndefinedMacroVar { varname } && varname@
                == rep@.last().value@),
        },
        r matches Ok((w, bb)) ==> expands(env@, *pre, formals@, arg_views(actuals@), rep@, budget as nat, depth as nat, Ok((w@, bb as nat))),
        r matches Err(e) ==> exists|f: Fault| fault_is(env@, f, e) && #[trigger] expands(env@, *pre, formals@, arg_views(actuals@), rep@, budget as nat, depth as nat, Err(f)),
    decreases budget, 0nat,
{
    let mut toks = copy_tokens(rep);
    let mut k: usize = 0;
    let mut out: Vec<Token> = Vec::new();
    let mut b: u64 = budget;
    let ghost mut mk: spec_fn(Trace) -> Trace = |tr: Trace| tr;
    while k < toks.len()
        invariant
            k <= toks.len(),
            b <= budget,
            formals.len() == actuals.len(),
            formals.len() == 0 && free_of_calls(rep@) ==> toks@ == rep@ && out@ == rep@.subrange(0, k as int)
                && b == budget,
            simple_expansion(rep@, arg_views(actuals@), budget, depth) ==> toks@ == rep@ && out@ == substituted(
                rep@.subrange(0, k as int),
                formals@,
                arg_views(actuals@),
            ) && b + k >= rep@.len(),
            forall|res: Result<(Seq<Token>, nat), Fault>, tr: Trace| #[trigger] rep_ok(env@, *pre, formals@, arg_views(actuals@), toks@, k as int, out@, b as nat, depth as nat, res, tr)
                ==> rep_ok(env@, *pre, formals@, arg_views(actuals@), rep@, 0, Seq::empty(), budget as nat, depth as nat, res, mk(tr)),
            lone_stringify(rep@) ==> toks@ == rep@ && (k == 0 && out@.len() == 0 || k == toks.len() && out.len() == 1
                && binding_of(formals@, rep@.last().value@) is Some && stringifies(
                out@[0],
                arg_views(actuals@)[binding_of(formals@, rep@.last().value@)->Some_0],
            )),
        decreases b, toks.len() - k,
    {
        let ghost av = arg_views(actuals@);
        let ghost t0 = toks@;
        let ghost k0 = k as int;
        let ghost o0 = out@;
        let ghost b0 = b as nat;
        if let Some((st, j)) = read_stringify(&toks, k) {
            match binding_index(formals, &st.name.value) {
                Some(x) => {
                    let tk = stringified(&actuals[x].tokens, &st.double_question.position);
                    let ghost gt = tk;
                    out.push(tk);
                    proof {
                        assert(av[x as int] == actuals@[x as int]@);
                        assert(stringified_token(gt, av[x as int], t0[k0].position));
                        let prev = mk;
                        assert forall|res: Result<(Seq<Token>, nat), Fault>, tr: Trace| #[trigger] rep_ok(env@, *pre, formals@, av, t0, j as int, o0.push(gt), b0, depth as nat, res, tr)
                            implies rep_ok(env@, *pre, formals@, arg_views(actuals@), rep@, 0, Seq::empty(), budget as nat, depth as nat, res, prev(Trace::Made(gt, Box::new(tr)))) by {
                            assert(stringify_end(t0, k0) == Some(j as int - 1));
                            assert(st.name == t0[j as int - 1]);
                            assert(binding_of(formals@, t0[j as int - 1].value@) == Some(x as int));
                            assert(rep_ok(env@, *pre, formals@, av, t0, k0, o0, b0, depth as nat, res, Trace::Made(gt, Box::new(tr))));
                        }
                        mk = |tr: Trace| prev(Trace::Made(gt, Box::new(tr)));
                    }
                    k = j;
                },
                None => {
                    let e = Error::UndefinedMacroVar { varname: st.name.value };
                    proof {
                        let f = Fault::UndefinedVar(t0[j - 1].value@);
                        assert(rep_ok(env@, *pre, formals@, av, t0, k0, o0, b0, depth as nat, Err(f), Trace::Done));
                        assert(rep_ok(env@, *pre, formals@, arg_views(actuals@), rep@, 0, Seq::empty(), budget as nat, depth as nat, Err(f), mk(Trace::Done)));
                        assert(expands(env@, *pre, formals@, arg_views(actuals@), rep@, budget as nat, depth as nat, Err(f)));
                        assert(fault_is(env@, f, e));
                    }
                    return Err(e);
                },
            }
            continue;
        }
        match try_read_macro_call(&toks, k, env) {
            Err(e) => {
                proof {
                    let f = Fault::Read(t0, k0);
                    assert(call_at(env@, t0, k0) is None);
                    assert(rep_ok(env@, *pre, formals@, av, t0, k0, o0, b0, depth as nat, Err(f), Trace::Done));
                        assert(rep_ok(env@, *pre, formals@, arg_views(actuals@), rep@, 0, Seq::empty(), budget as nat, depth as nat, Err(f), mk(Trace::Done)));
                        assert(expands(env@, *pre, formals@, arg_views(actuals@), rep@, budget as nat, depth as nat, Err(f)));
                    assert(fault_is(env@, f, e));
                }
                return Err(e);
            },
            Ok(Some((call, j))) => {
                proof {
                    assert(call_at(env@, t0, k0) == Some((call.name, args_view(call))));
                    assert(j == call_end(env@, t0, k0));
                }
                if b == 0 || depth == 0 {
                    let e = Error::ExpansionLimit { position: call.question.position.duplicate() };
                    proof {
                        let f = Fault::Limit(t0[k0].position);
                        assert(rep_ok(env@, *pre, formals@, av, t0, k0, o0, b0, depth as nat, Err(f), Trace::Done));
                        assert(rep_ok(env@, *pre, formals@, arg_views(actuals@), rep@, 0, Seq::empty(), budget as nat, depth as nat, Err(f), mk(Trace::Done)));
                        assert(expands(env@, *pre, formals@, arg_views(actuals@), rep@, budget as nat, depth as nat, Err(f)));
                        assert(fault_is(env@, f, e));
                    }
                    return Err(e);
                }
                let (nested, left) = match expand_macro(env, pre, &call, b - 1, depth - 1) {
                    Ok(x) => x,
                    Err(e) => {
                        proof {
                            let f = choose|f: Fault| fault_is(env@, f, e) && #[trigger] call_expands(env@, *pre, call.question, call.name, args_view(call), (b - 1) as nat, (depth - 1) as nat, Err(f));
                            let trs = choose|tr: Trace| #[trigger] macro_ok(env@, *pre, call.question, call.name, args_view(call), (b - 1) as nat, (depth - 1) as nat, Err(f), tr);
                            assert(rep_ok(env@, *pre, formals@, av, t0, k0, o0, b0, depth as nat, Err(f), Trace::Failed(Box::new(trs))));
                            assert(rep_ok(env@, *pre, formals@, arg_views(actuals@), rep@, 0, Seq::empty(), budget as nat, depth as nat, Err(f), mk(Trace::Failed(Box::new(trs)))));
                            assert(expands(env@, *pre, formals@, arg_views(actuals@), rep@, budget as nat, depth as nat, Err(f)));
                        }
                        return Err(e);
                    },
                };
                let ghost gn = nested@;
                let mut spliced = nested;
                let mut m: usize = j;
                while m < toks.len()
                    invariant
                        j <= m <= toks.len(),
                        spliced@ == gn + toks@.subrange(j as int, m as int),
                    decreases toks.len() - m,
                {
                    spliced.push(toks[m].duplicate());
                    m = m + 1;
                    assert(spliced@ =~= gn + toks@.subrange(j as int, m as int));
                }
                proof {
                    let trs = choose|tr: Trace| #[trigger] macro_ok(env@, *pre, call.question, call.name, args_view(call), (b0 - 1) as nat, (depth - 1) as nat, Ok((gn, left as nat)), tr);
                    assert(macro_ok(env@, *pre, t0[k0], call.name, args_view(call), (b0 - 1) as nat, (depth - 1) as nat, Ok((gn, left as nat)), trs));
                    let prev = mk;
                    assert forall|res: Result<(Seq<Token>, nat), Fault>, tr: Trace| #[trigger] rep_ok(env@, *pre, formals@, av, gn + t0.subrange(j as int, t0.len() as int), 0, o0, left as nat, depth as nat, res, tr)
                        implies rep_ok(env@, *pre, formals@, arg_views(actuals@), rep@, 0, Seq::empty(), budget as nat, depth as nat, res, prev(Trace::Nested(gn, left as nat, Box::new(trs), Box::new(tr)))) by {
                        assert(rep_ok(env@, *pre, formals@, av, t0, k0, o0, b0, depth as nat, res, Trace::Nested(gn, left as nat, Box::new(trs), Box::new(tr))));
                    }
                    mk = |tr: Trace| prev(Trace::Nested(gn, left as nat, Box::new(trs), Box::new(tr)));
                }
                toks = spliced;
                k = 0;
                b = left;
                assert(toks@ == gn + t0.subrange(j as int, t0.len() as int));
            },
            Ok(None) => {
                proof {
                    assert(stringify_end(t0, k0) is None);
                    assert(!is_symbol(t0[k0], Symbol::Question));
                }
                let bound = if toks[k].kind == Kind::Variable {
                    binding_index(formals, &toks[k].value)
                } else {
                    None
                };
                match bound {
                    Some(x) => {
                        if b == 0 || depth == 0 {
                            let e = Error::ExpansionLimit { position: toks[k].position.duplicate() };
                            proof {
                                let f = Fault::Limit(t0[k0].position);
                                assert(rep_ok(env@, *pre, formals@, av, t0, k0, o0, b0, depth as nat, Err(f), Trace::Done));
                                assert(rep_ok(env@, *pre, formals@, arg_views(actuals@), rep@, 0, Seq::empty(), budget as nat, depth as nat, Err(f), mk(Trace::Done)));
                                assert(expands(env@, *pre, formals@, arg_views(actuals@), rep@, budget as nat, depth as nat, Err(f)));
                                assert(fault_is(env@, f, e));
                            }
                            return Err(e);
                        }
                        let no_formals: Vec<Token> = Vec::new();
                        let no_actuals: Vec<MacroArg> = Vec::new();
                        proof {
                            if simple_expansion(rep@, arg_views(actuals@), budget, depth) {
                                assert(arg_views(actuals@)[x as int] == actuals@[x as int]@);
                                assert(free_of_calls(arg_views(actuals@)[x as int]));
                            }
                        }
                        proof {
                            assert(no_formals@ =~= Seq::<Token>::empty());
                            assert(arg_views(no_actuals@) =~= Seq::<Seq<Token>>::empty());
                            assert(av[x as int] == actuals@[x as int]@);
                        }
                        let (mut nested, left) = match expand_replacement(
                            env,
                            pre,
                            &no_formals,
                            &no_actuals,
                            &actuals[x].tokens,
                            b - 1,
                            depth - 1,
                        ) {
                            Ok(x) => x,
                            Err(e) => {
                                proof {
                                    let f = choose|f: Fault| fault_is(env@, f, e) && #[trigger] expands(env@, *pre, Seq::empty(), Seq::empty(), actuals@[x as int]@, (b - 1) as nat, (depth - 1) as nat, Err(f));
                                    let trs = choose|tr: Trace| #[trigger] rep_ok(env@, *pre, Seq::empty(), Seq::empty(), actuals@[x as int]@, 0, Seq::empty(), (b - 1) as nat, (depth - 1) as nat, Err(f), tr);
                                    assert(rep_ok(env@, *pre, formals@, av, t0, k0, o0, b0, depth as nat, Err(f), Trace::Failed(Box::new(trs))));
                                    assert(rep_ok(env@, *pre, formals@, arg_views(actuals@), rep@, 0, Seq::empty(), budget as nat, depth as nat, Err(f), mk(Trace::Failed(Box::new(trs)))));
                                    assert(expands(env@, *pre, formals@, arg_views(actuals@), rep@, budget as nat, depth as nat, Err(f)));
                                }
                                return Err(e);
                            },
                        };
                        let ghost gn = nested@;
                        let ghost before = out@;
                        out.append(&mut nested);
                        b = left;
                        proof {
                            let trs = choose|tr: Trace| #[trigger] rep_ok(env@, *pre, Seq::empty(), Seq::empty(), actuals@[x as int]@, 0, Seq::empty(), (b0 - 1) as nat, (depth - 1) as nat, Ok((gn, left as nat)), tr);
                            assert(rep_ok(env@, *pre, Seq::empty(), Seq::empty(), av[x as int], 0, Seq::empty(), (b0 - 1) as nat, (depth - 1) as nat, Ok((gn, left as nat)), trs));
                            assert(out@ == o0 + gn);
                            let prev = mk;
                            assert forall|res: Result<(Seq<Token>, nat), Fault>, tr: Trace| #[trigger] rep_ok(env@, *pre, formals@, av, t0, k0 + 1, o0 + gn, left as nat, depth as nat, res, tr)
                                implies rep_ok(env@, *pre, formals@, arg_views(actuals@), rep@, 0, Seq::empty(), budget as nat, depth as nat, res, prev(Trace::Nested(gn, left as nat, Box::new(trs), Box::new(tr)))) by {
                                assert(rep_ok(env@, *pre, formals@, av, t0, k0, o0, b0, depth as nat, res, Trace::Nested(gn, left as nat, Box::new(trs), Box::new(tr))));
                            }
                            mk = |tr: Trace| prev(Trace::Nested(gn, left as nat, Box::new(trs), Box::new(tr)));
                        }
                        proof {
                            if simple_expansion(rep@, arg_views(actuals@), budget, depth) {
                                assert(rep@.subrange(0, k + 1).drop_last() =~= rep@.subrange(0, k as int));
                                assert(arg_views(actuals@)[x as int] == actuals@[x as int]@);
                                assert(out@ =~= substituted(rep@.subrange(0, k + 1), formals@, arg_views(actuals@)));
                            }
                        }
                    },
                    None => {
                        let ghost before = out@;
                        out.push(toks[k].duplicate());
                        proof {
                            assert forall|res: Result<(Seq<Token>, nat), Fault>, tr: Trace| #[trigger] rep_ok(env@, *pre, formals@, av, t0, k0 + 1, o0.push(t0[k0]), b0, depth as nat, res, tr)
                                implies rep_ok(env@, *pre, formals@, arg_views(actuals@), rep@, 0, Seq::empty(), budget as nat, depth as nat, res, mk(tr)) by {
                                assert(rep_ok(env@, *pre, formals@, av, t0, k0, o0, b0, depth as nat, res, tr));
                            }
                        }
                        assert(formals.len() == 0 && free_of_calls(rep@) ==> out@ =~= rep@.subrange(0, k + 1));
                        proof {
                            if simple_expansion(rep@, arg_views(actuals@), budget, depth) {
                                assert(rep@.subrange(0, k + 1).drop_last() =~= rep@.subrange(0, k as int));
                                assert(out@ =~= substituted(rep@.subrange(0, k + 1), formals@, arg_views(actuals@)));
                            }
                        }
                    },
                }
                k = k + 1;
            },
        }
    }
    proof {
        if formals.len() == 0 && free_of_calls(rep@) || simple_expansion(rep@, arg_views(actuals@), budget, depth) {
            assert(rep@.subrange(0, k as int) =~= rep@);
        }
        assert(rep_ok(env@, *pre, formals@, arg_views(actuals@), toks@, k as int, out@, b as nat, depth as nat, Ok((out@, b as nat)), Trace::Done));
        assert(rep_ok(env@, *pre, formals@, arg_views(actuals@), rep@, 0, Seq::empty(), budget as nat, depth as nat, Ok((out@, b as nat)), mk(Trace::Done)));
        assert(expands(env@, *pre, formals@, arg_views(actuals@), rep@, budget as nat, depth as nat, Ok((out@, b as nat))));
    }
    Ok((out, b))
}

/// The number of formal variables of a definition (`None` without parentheses).
pub open spec fn formal_count(d: crate::directives::Define) -> Option<nat> {
    match d.variables {
        Some(v) => Some(v.list.len() as nat),
        None => None,
    }
}

/// The number of actual arguments of a call (`None` without parentheses).
pub open spec fn actual_count(c: MacroCall) -> Option<nat> {
    match c.args {
        Some(a) => Some(a.list.len() as nat),
        None => None,
    }
}

/// A call that no predefined macro answers: one not predefined, or one whose input
/// is not set.
pub open spec fn user_defined_call(c: MacroCall, pre: PredefinedInputs) -> bool {
    let v = c.name.spec_value();
    !is_predefined(v) || (v == "MODULE"@ || v == "MODULE_STRING"@) && pre.module is None
        || v == "FUNCTION_NAME"@ && pre.function_name is None || v == "FUNCTION_ARITY"@ && pre.function_arity is None
}

/// Expands the macro call `call` (see `expand_replacement`).
pub fn expand_macro(env: &Macros, pre: &PredefinedInputs, call: &MacroCall, budget: u64, depth: u64) -> (r: Result<
    (Vec<Token>, u64),
    Error,
>)
    ensures
        r matches Ok((_, b)) ==> b <= budget,
        predefined_answers(*call, *pre) ==> (r matches Ok((w, b)) && w.len() == 1 && b == budget
            && w@[0].position == call.question.position),
        call.name.spec_value() == "LINE"@ ==> (r matches Ok((w, _)) && w.len() == 1 && w@[0].kind == Kind::Integer
            && w@[0].text@ == decimal(call.question.position.line as nat)),
        call.name.spec_value() == "FILE"@ && call.question.position.filepath is None ==> (r matches Err(e)
            && (e matches Error::FileNotSet { macro_call } && same_call(macro_call, *call))),
        user_defined_call(*call, *pre) && !env@.contains_key(call.name.spec_value()) ==> (r matches Err(e)
            && (e matches Error::UndefinedMacro { macro_call } && same_call(macro_call, *call))),
        user_defined_call(*call, *pre) && env@.contains_key(call.name.spec_value()) ==> match env@[call.name.spec_value()] {
            MacroDef::Dynamic(v) => r matches Ok((w, b)) && w@ == v@ && b == budget,
            MacroDef::Static(d) => (formal_count(d) != actual_count(*call) ==> (r matches Err(e)
                && (e matches Error::MacroArgsMismatched { macro_call, .. } && same_call(macro_call, *call)))) && (d.variables is None && call.args is None && free_of_calls(
                d.replacement@,
            ) ==> (r matches Ok((w, b)) && w@ == d.replacement@ && b == budget)) && (d.variables is Some
                && call.args is Some && d.variables->Some_0.list.len() == call.args->Some_0.list.len()
                && simple_expansion(d.replacement@, call.args->Some_0.spec_args(), budget, depth) ==> (r matches Ok((w, _))
                && w@ == substituted(d.replacement@, d.variables->Some_0.list@, call.args->Some_0.spec_args()))),
        },
        r matches Ok((w, bb)) ==> call_expands(env@, *pre, call.question, call.name, args_view(*call), budget as nat, depth as nat, Ok((w@, bb as nat))),
        r matches Err(e) ==> exists|f: Fault| fault_is(env@, f, e) && #[trigger] call_expands(env@, *pre, call.question, call.name, args_view(*call), budget as nat, depth as nat, Err(f)),
    decreases budget, 1nat,
{
    proof {
        lemma_predefined_names_distinct();
    }
    let ghost c = MacroCall { question: call.question, name: call.name, args: None };
    assert(user_defined_call(c, *pre) == user_defined_call(*call, *pre));
    assert(predefined_answers(c, *pre) == predefined_answers(*call, *pre));
    match try_expand_predefined(call, pre) {
        Err(e) => {
            proof {
                let f = Fault::FileNotSet(call.question, call.name);
                assert(macro_ok(env@, *pre, call.question, call.name, args_view(*call), budget as nat, depth as nat, Err(f), Trace::Done));
                assert(call_expands(env@, *pre, call.question, call.name, args_view(*call), budget as nat, depth as nat, Err(f)));
                assert(fault_is(env@, f, e));
            }
            return Err(e);
        },
        Ok(Some(t)) => {
            let mut v: Vec<Token> = Vec::new();
            v.push(t);
            proof {
                assert(!(call.name.spec_value() == "FILE"@ && call.question.position.filepath is None));
                assert(predefined_answers(*call, *pre));
                assert(v@ == seq![t]);
                assert(macro_ok(env@, *pre, call.question, call.name, args_view(*call), budget as nat, depth as nat, Ok((v@, budget as nat)), Trace::Done));
                assert(call_expands(env@, *pre, call.question, call.name, args_view(*call), budget as nat, depth as nat, Ok((v@, budget as nat))));
            }
            return Ok((v, budget));
        },
        Ok(None) => {},
    }
    proof {
        assert(!predefined_answers(*call, *pre));
        assert(!(call.name.spec_value() == "FILE"@ && call.question.position.filepath is None));
    }
    match env.get(call.name.value()) {
        None => {
            let e = Error::UndefinedMacro { macro_call: call.duplicate() };
            proof {
                let f = Fault::Undefined(call.question, call.name);
                assert(macro_ok(env@, *pre, call.question, call.name, args_view(*call), budget as nat, depth as nat, Err(f), Trace::Done));
                assert(call_expands(env@, *pre, call.question, call.name, args_view(*call), budget as nat, depth as nat, Err(f)));
                assert(fault_is(env@, f, e));
            }
            Err(e)
        },
        Some(MacroDef::Dynamic(v)) => {
            let w = copy_tokens(v);
            proof {
                assert(macro_ok(env@, *pre, call.question, call.name, args_view(*call), budget as nat, depth as nat, Ok((w@, budget as nat)), Trace::Done));
                assert(call_expands(env@, *pre, call.question, call.name, args_view(*call), budget as nat, depth as nat, Ok((w@, budget as nat))));
            }
            Ok((w, budget))
        },
        Some(MacroDef::Static(d)) => {
            let same = match (&d.variables, &call.args) {
                (Some(v), Some(a)) => v.list.len() == a.list.len(),
                (None, None) => true,
                _ => false,
            };
            proof {
                let ac = match args_view(*call) {
                    Some(x) => Some(x.len()),
                    None => None::<nat>,
                };
                assert(call.args is Some ==> call.args->Some_0.spec_args().len() == call.args->Some_0.list.len());
                assert(same == (formal_count(*d) == ac));
            }
            if !same {
                let e = Error::MacroArgsMismatched { macro_call: call.duplicate(), macro_def: MacroDef::Static(d.duplicate()) };
                proof {
                    let f = Fault::Mismatch(call.question, call.name, env@[call.name.spec_value()]);
                    assert(macro_ok(env@, *pre, call.question, call.name, args_view(*call), budget as nat, depth as nat, Err(f), Trace::Done));
                    assert(call_expands(env@, *pre, call.question, call.name, args_view(*call), budget as nat, depth as nat, Err(f)));
                    assert(fault_is(env@, f, e));
                }
                return Err(e);
            }
            match (&d.variables, &call.args) {
                (Some(v), Some(a)) => {
                    let r = expand_replacement(env, pre, &v.list, &a.list, &d.replacement, budget, depth);
                    proof {
                        assert(args_view(*call) == Some(arg_views(a.list@)));
                        if r is Err {
                            let e = r->Err_0;
                            let f = choose|f: Fault| fault_is(env@, f, e) && #[trigger] expands(env@, *pre, v.list@, arg_views(a.list@), d.replacement@, budget as nat, depth as nat, Err(f));
                            let tr = choose|tr: Trace| #[trigger] rep_ok(env@, *pre, v.list@, arg_views(a.list@), d.replacement@, 0, Seq::empty(), budget as nat, depth as nat, Err(f), tr);
                            assert(macro_ok(env@, *pre, call.question, call.name, args_view(*call), budget as nat, depth as nat, Err(f), tr));
                            assert(call_expands(env@, *pre, call.question, call.name, args_view(*call), budget as nat, depth as nat, Err(f)));
                        }
                        if r is Ok {
                            let w = r->Ok_0.0;
                            let bb = r->Ok_0.1;
                            let tr = choose|tr: Trace| #[trigger] rep_ok(env@, *pre, v.list@, arg_views(a.list@), d.replacement@, 0, Seq::empty(), budget as nat, depth as nat, Ok((w@, bb as nat)), tr);
                            assert(macro_ok(env@, *pre, call.question, call.name, args_view(*call), budget as nat, depth as nat, Ok((w@, bb as nat)), tr));
                        }
                    }
                    r
                },
                _ => {
                    let no_formals: Vec<Token> = Vec::new();
                    let no_actuals: Vec<MacroArg> = Vec::new();
                    proof {
                        assert(no_formals@ =~= Seq::<Token>::empty());
                        assert(arg_views(no_actuals@) =~= Seq::<Seq<Token>>::empty());
                    }
                    let r = expand_replacement(env, pre, &no_formals, &no_actuals, &d.replacement, budget, depth);
                    proof {
                        if r is Err {
                            let e = r->Err_0;
                            let f = choose|f: Fault| fault_is(env@, f, e) && #[trigger] expands(env@, *pre, Seq::empty(), Seq::empty(), d.replacement@, budget as nat, depth as nat, Err(f));
                            let tr = choose|tr: Trace| #[trigger] rep_ok(env@, *pre, Seq::empty(), Seq::empty(), d.replacement@, 0, Seq::empty(), budget as nat, depth as nat, Err(f), tr);
                            assert(macro_ok(env@, *pre, call.question, call.name, args_view(*call), budget as nat, depth as nat, Err(f), tr));
                            assert(call_expands(env@, *pre, call.question, call.name, args_view(*call), budget as nat, depth as nat, Err(f)));
                        }
                        if r is Ok {
                            let w = r->Ok_0.0;
                            let bb = r->Ok_0.1;
                            let tr = choose|tr: Trace| #[trigger] rep_ok(env@, *pre, Seq::empty(), Seq::empty(), d.replacement@, 0, Seq::empty(), budget as nat, depth as nat, Ok((w@, bb as nat)), tr);
                            assert(macro_ok(env@, *pre, call.question, call.name, args_view(*call), budget as nat, depth as nat, Ok((w@, bb as nat)), tr));
                        }
                    }
                    r
                },
            }
        },
    }
}

} // verus!
