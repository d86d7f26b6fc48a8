//! Recognising and reading directives: `- name ( payload ) .`
use vstd::prelude::*;
use crate::directive::Directive;
use crate::directives;
use crate::error::Error;
use crate::token::{is_symbol, text_is, Kind, Symbol, Token};
use crate::token_reader::{
    at_symbol, lemma_skip_hidden, lexical, name_at, next_lexical, read_error, read_kind, read_macro_name,
    read_symbol, skip_hidden, try_read_symbol,
};
use crate::types::{MacroName, MacroVariables};

verus! {

/// The directives that the preprocessor knows.
#[derive(Clone, Copy, Debug, PartialEq, Eq, Structural)]
pub enum DirectiveKind {
    Include,
    IncludeLib,
    Define,
    Undef,
    Ifdef,
    Ifndef,
    Else,
    Endif,
    Error,
    Warning,
}

/// The directive that a name stands for, if any.
pub open spec fn kind_named(v: Seq<char>) -> Option<DirectiveKind> {
    if v == "include"@ {
        Some(DirectiveKind::Include)
    } else if v == "include_lib"@ {
        Some(DirectiveKind::IncludeLib)
    } else if v == "define"@ {
        Some(DirectiveKind::Define)
    } else if v == "undef"@ {
        Some(DirectiveKind::Undef)
    } else if v == "ifdef"@ {
        Some(DirectiveKind::Ifdef)
    } else if v == "ifndef"@ {
        Some(DirectiveKind::Ifndef)
    } else if v == "else"@ {
        Some(DirectiveKind::Else)
    } else if v == "endif"@ {
        Some(DirectiveKind::Endif)
    } else if v == "error"@ {
        Some(DirectiveKind::Error)
    } else if v == "warning"@ {
        Some(DirectiveKind::Warning)
    } else {
        None
    }
}

fn kind_of_name(v: &String) -> (r: Option<DirectiveKind>)
    ensures
        r == kind_named(v@),
{
    if text_is(v, "include") {
        Some(DirectiveKind::Include)
    } else if text_is(v, "include_lib") {
        Some(DirectiveKind::IncludeLib)
    } else if text_is(v, "define") {
        Some(DirectiveKind::Define)
    } else if text_is(v, "undef") {
        Some(DirectiveKind::Undef)
    } else if text_is(v, "ifdef") {
        Some(DirectiveKind::Ifdef)
    } else if text_is(v, "ifndef") {
        Some(DirectiveKind::Ifndef)
    } else if text_is(v, "else") {
        Some(DirectiveKind::Else)
    } else if text_is(v, "endif") {
        Some(DirectiveKind::Endif)
    } else if text_is(v, "error") {
        Some(DirectiveKind::Error)
    } else if text_is(v, "warning") {
        Some(DirectiveKind::Warning)
    } else {
        None
    }
}

/// A directive starts at `i`: the token at `i` is `-` and the next grammatical token
/// is an atom (or a reserved word, such as `else`) that names a directive.
pub open spec fn directive_at(s: Seq<Token>, i: int) -> Option<DirectiveKind> {
    let k = skip_hidden(s, i + 1);
    if 0 <= i < s.len() && is_symbol(s[i], Symbol::Hyphen) && k < s.len() && (s[k].kind == Kind::Atom
        || s[k].kind == Kind::Keyword) {
        kind_named(s[k].value@)
    } else {
        None
    }
}

/// Why reading a directive failed.
pub enum DirFault {
    /// The token at this index (or the end) does not fit the directive's grammar.
    At(int),
    /// A `.` at this index inside a replacement.
    Dot(int),
}

/// `e` is the error that reports the fault `f`.
pub open spec fn dir_reports(s: Seq<Token>, f: DirFault, e: Error) -> bool {
    match f {
        DirFault::At(k) => read_error(s, k, e),
        DirFault::Dot(k) => e matches Error::UnexpectedDotInMacroDef { position } && 0 <= k < s.len()
            && position == s[k].position,
    }
}

/// Reads `sym` at the next grammatical token after `i`: the index past it.
pub open spec fn expect(s: Seq<Token>, i: int, sym: Symbol) -> Result<int, DirFault> {
    if at_symbol(s, i, sym) {
        Ok(skip_hidden(s, i) + 1)
    } else {
        Err(DirFault::At(skip_hidden(s, i)))
    }
}

/// Reads `. ` after `i`: the index past the dot.
pub open spec fn tail_dot(s: Seq<Token>, i: int) -> Result<int, DirFault> {
    expect(s, i, Symbol::Dot)
}

/// Reads `( X ) .` after `i`, where X is one token of kind `kind`: X's index, and the
/// index past the dot.
pub open spec fn token_payload(s: Seq<Token>, i: int, kind: Kind) -> Result<(int, int), DirFault> {
    match expect(s, i, Symbol::OpenParen) {
        Ok(a) => {
            let x = skip_hidden(s, a);
            if x < s.len() && s[x].kind == kind {
                match expect(s, x + 1, Symbol::CloseParen) {
                    Ok(b) => match tail_dot(s, b) {
                        Ok(j) => Ok((x, j)),
                        Err(f) => Err(f),
                    },
                    Err(f) => Err(f),
                }
            } else {
                Err(DirFault::At(x))
            }
        },
        Err(f) => Err(f),
    }
}

/// Reads `( Name ) .` after `i`: the name, and the index past the dot.
pub open spec fn name_payload(s: Seq<Token>, i: int) -> Result<(MacroName, int), DirFault> {
    match expect(s, i, Symbol::OpenParen) {
        Ok(a) => match name_at(s, a) {
            Some(n) => match expect(s, skip_hidden(s, a) + 1, Symbol::CloseParen) {
                Ok(b) => match tail_dot(s, b) {
                    Ok(j) => Ok((n, j)),
                    Err(f) => Err(f),
                },
                Err(f) => Err(f),
            },
            None => Err(DirFault::At(skip_hidden(s, a))),
        },
        Err(f) => Err(f),
    }
}

/// Reads the formal variables after `i`, which is just past the `(` when `first`,
/// else just past a `,`: the variables, and the index past the `)`.
pub open spec fn vars_from(s: Seq<Token>, i: int, first: bool) -> Result<(Seq<Token>, int), DirFault>
    decreases s.len() - i,
{
    let k = skip_hidden(s, i);
    if first && at_symbol(s, i, Symbol::CloseParen) {
        Ok((Seq::empty(), k + 1))
    } else if i <= k < s.len() && s[k].kind == Kind::Variable {
        if at_symbol(s, k + 1, Symbol::Comma) {
            if skip_hidden(s, k + 1) + 1 <= i {
                Err(DirFault::At(k))
            } else {
                match vars_from(s, skip_hidden(s, k + 1) + 1, false) {
                    Ok((rest, j)) => Ok((seq![s[k]] + rest, j)),
                    Err(f) => Err(f),
                }
            }
        } else {
            match expect(s, k + 1, Symbol::CloseParen) {
                Ok(j) => Ok((seq![s[k]], j)),
                Err(f) => Err(f),
            }
        }
    } else {
        Err(DirFault::At(k))
    }
}

/// Scans a replacement from `i`: the index of the `)` that a `.` follows.
pub open spec fn replacement_end(s: Seq<Token>, i: int) -> Result<int, DirFault>
    decreases s.len() - i,
{
    let k = skip_hidden(s, i);
    if k < i || k >= s.len() {
        Err(DirFault::At(k))
    } else if is_symbol(s[k], Symbol::CloseParen) && at_symbol(s, k + 1, Symbol::Dot) {
        Ok(k)
    } else if is_symbol(s[k], Symbol::Dot) {
        Err(DirFault::Dot(k))
    } else {
        replacement_end(s, k + 1)
    }
}

/// What a `-define` reads after its name atom at `i - 1`: the macro name, the
/// variables (if any), the replacement, and the index past the dot.
pub open spec fn define_payload(s: Seq<Token>, i: int) -> Result<(MacroName, Option<Seq<Token>>, Seq<Token>, int), DirFault> {
    match expect(s, i, Symbol::OpenParen) {
        Ok(a) => match name_at(s, a) {
            Some(n) => {
                let b = skip_hidden(s, a) + 1;
                let vars: Result<(Option<Seq<Token>>, int), DirFault> = if at_symbol(s, b, Symbol::OpenParen) {
                    match vars_from(s, skip_hidden(s, b) + 1, true) {
                        Ok((v, c)) => Ok((Some(v), c)),
                        Err(f) => Err(f),
                    }
                } else {
                    Ok((None, b))
                };
                match vars {
                    Ok((v, c)) => match expect(s, c, Symbol::Comma) {
                        Ok(d) => match replacement_end(s, d) {
                            Ok(e) => Ok((n, v, lexical(s.subrange(d, e)), skip_hidden(s, e + 1) + 1)),
                            Err(f) => Err(f),
                        },
                        Err(f) => Err(f),
                    },
                    Err(f) => Err(f),
                }
            },
            None => Err(DirFault::At(skip_hidden(s, a))),
        },
        Err(f) => Err(f),
    }
}

/// Reads `sym` as the next grammatical token after `i` (see `expect`).
fn read_expect(s: &Vec<Token>, i: usize, sym: Symbol) -> (r: Result<usize, Error>)
    requires
        i <= s.len(),
    ensures
        match r {
            Ok(j) => expect(s@, i as int, sym) == Ok::<int, DirFault>(j as int) && i < j <= s.len(),
            Err(e) => expect(s@, i as int, sym) is Err && dir_reports(s@, expect(s@, i as int, sym)->Err_0, e),
        },
{
    proof {
        lemma_skip_hidden(s@, i as int);
    }
    read_symbol(s, i, sym)
}

/// Reads `( X ) .` after `i` (see `token_payload`).
fn read_token_payload(s: &Vec<Token>, i: usize, kind: Kind) -> (r: Result<(usize, usize), Error>)
    requires
        i <= s.len(),
    ensures
        match r {
            Ok((x, j)) => token_payload(s@, i as int, kind) == Ok::<(int, int), DirFault>((x as int, j as int))
                && i <= x < j <= s.len(),
            Err(e) => token_payload(s@, i as int, kind) is Err
                && dir_reports(s@, token_payload(s@, i as int, kind)->Err_0, e),
        },
{
    let a = read_expect(s, i, Symbol::OpenParen)?;
    proof {
        lemma_skip_hidden(s@, a as int);
    }
    let x = match read_kind(s, a, kind) {
        Ok(x) => x,
        Err(e) => return Err(e),
    };
    let b = read_expect(s, x + 1, Symbol::CloseParen)?;
    let j = read_expect(s, b, Symbol::Dot)?;
    Ok((x, j))
}

/// Reads `( Name ) .` after `i` (see `name_payload`).
fn read_name_payload(s: &Vec<Token>, i: usize) -> (r: Result<(MacroName, usize), Error>)
    requires
        i <= s.len(),
    ensures
        match r {
            Ok((n, j)) => name_payload(s@, i as int) == Ok::<(MacroName, int), DirFault>((n, j as int)) && i < j <= s.len(),
            Err(e) => name_payload(s@, i as int) is Err && dir_reports(s@, name_payload(s@, i as int)->Err_0, e),
        },
{
    let a = read_expect(s, i, Symbol::OpenParen)?;
    proof {
        lemma_skip_hidden(s@, a as int);
    }
    let (n, b0) = match read_macro_name(s, a) {
        Ok(x) => x,
        Err(e) => return Err(e),
    };
    let b = read_expect(s, b0, Symbol::CloseParen)?;
    let j = read_expect(s, b, Symbol::Dot)?;
    Ok((n, j))
}

/// Reads formal variables after `i` (see `vars_from`).
fn read_vars(s: &Vec<Token>, i: usize, first: bool) -> (r: Result<(Vec<Token>, usize), Error>)
    requires
        i <= s.len(),
    ensures
        match r {
            Ok((v, j)) => vars_from(s@, i as int, first) == Ok::<(Seq<Token>, int), DirFault>((v@, j as int))
                && i < j <= s.len(),
            Err(e) => vars_from(s@, i as int, first) is Err && dir_reports(s@, vars_from(s@, i as int, first)->Err_0, e),
        },
    decreases s.len() - i,
{
    proof {
        lemma_skip_hidden(s@, i as int);
    }
    let k = next_lexical(s, i);
    if first && k < s.len() && s[k].is_symbol(Symbol::CloseParen) {
        return Ok((Vec::new(), k + 1));
    }
    if k < s.len() && s[k].kind == Kind::Variable {
        proof {
            lemma_skip_hidden(s@, k as int + 1);
        }
        match try_read_symbol(s, k + 1, Symbol::Comma) {
            Some(c) => {
                let (rest, j) = read_vars(s, c, false)?;
                let mut v: Vec<Token> = Vec::new();
                v.push(s[k].duplicate());
                let mut rest = rest;
                let ghost rv = rest@;
                v.append(&mut rest);
                assert(v@ =~= seq![s@[k as int]] + rv);
                Ok((v, j))
            },
            None => {
                let j = read_expect(s, k + 1, Symbol::CloseParen)?;
                let mut v: Vec<Token> = Vec::new();
                v.push(s[k].duplicate());
                assert(v@ =~= seq![s@[k as int]]);
                Ok((v, j))
            },
        }
    } else {
        Err(crate::token_reader::unexpected(s, k, "variable"))
    }
}

/// Scans a replacement from `i` (see `replacement_end`); returns its tokens (comments
/// and whitespace left out) and the index of its closing `)`.
fn read_replacement(s: &Vec<Token>, i: usize) -> (r: Result<(Vec<Token>, usize), Error>)
    requires
        i <= s.len(),
    ensures
        match r {
            Ok((v, e)) => replacement_end(s@, i as int) == Ok::<int, DirFault>(e as int)
                && v@ == lexical(s@.subrange(i as int, e as int)) && i <= e < s.len(),
            Err(err) => replacement_end(s@, i as int) is Err
                && dir_reports(s@, replacement_end(s@, i as int)->Err_0, err),
        },
{
    let mut v: Vec<Token> = Vec::new();
    let mut k: usize = i;
    while k < s.len()
        invariant
            i <= k <= s.len(),
            replacement_end(s@, k as int) == replacement_end(s@, i as int),
            v@ == lexical(s@.subrange(i as int, k as int)),
        decreases s.len() - k,
    {
        proof {
            lemma_skip_hidden(s@, k as int);
        }
        let m = next_lexical(s, k);
        proof {
            lemma_lexical_skip(s@, i as int, k as int, m as int);
        }
        if m >= s.len() {
            return Err(Error::UnexpectedEof);
        }
        if s[m].is_symbol(Symbol::CloseParen) {
            proof {
                lemma_skip_hidden(s@, m as int + 1);
            }
            if try_read_symbol(s, m + 1, Symbol::Dot).is_some() {
                return Ok((v, m));
            }
        } else if s[m].is_symbol(Symbol::Dot) {
            return Err(Error::UnexpectedDotInMacroDef { position: s[m].position.duplicate() });
        }
        let ghost before = s@.subrange(i as int, m as int);
        v.push(s[m].duplicate());
        assert(s@.subrange(i as int, m as int + 1).drop_last() =~= before);
        k = m + 1;
    }
    Err(Error::UnexpectedEof)
}

/// The tokens between `i` and `m` that are not hidden are those between `i` and `k`
/// when all of `k..m` are hidden.
proof fn lemma_lexical_skip(s: Seq<Token>, i: int, k: int, m: int)
    requires
        0 <= i <= k <= m <= s.len(),
        m == skip_hidden(s, k),
        forall|x: int| k <= x < m ==> crate::token::is_hidden(#[trigger] s[x]),
    ensures
        lexical(s.subrange(i, m)) == lexical(s.subrange(i, k)),
    decreases m - k,
{
    if m > k {
        assert(s.subrange(i, m).drop_last() =~= s.subrange(i, m - 1));
        lemma_lexical_skip_back(s, i, k, m - 1);
        assert(crate::token::is_hidden(s[m - 1]));
    }
}

proof fn lemma_lexical_skip_back(s: Seq<Token>, i: int, k: int, m: int)
    requires
        0 <= i <= k <= m <= s.len(),
        forall|x: int| k <= x < m ==> crate::token::is_hidden(#[trigger] s[x]),
    ensures
        lexical(s.subrange(i, m)) == lexical(s.subrange(i, k)),
    decreases m - k,
{
    if m > k {
        assert(s.subrange(i, m).drop_last() =~= s.subrange(i, m - 1));
        assert(crate::token::is_hidden(s[m - 1]));
        lemma_lexical_skip_back(s, i, k, m - 1);
    }
}

proof fn lemma_replacement_end(s: Seq<Token>, i: int)
    requires
        0 <= i <= s.len(),
    ensures
        replacement_end(s, i) matches Ok(e) ==> i <= e < s.len() && is_symbol(s[e], Symbol::CloseParen)
            && at_symbol(s, e + 1, Symbol::Dot),
    decreases s.len() - i,
{
    lemma_skip_hidden(s, i);
    let k = skip_hidden(s, i);
    if i <= k < s.len() && !(is_symbol(s[k], Symbol::CloseParen) && at_symbol(s, k + 1, Symbol::Dot))
        && !is_symbol(s[k], Symbol::Dot) {
        lemma_replacement_end(s, k + 1);
    }
}

/// Reads what a `-define` reads after its name atom (see `define_payload`).
fn read_define_payload(s: &Vec<Token>, i: usize) -> (r: Result<(MacroName, Option<MacroVariables>, Vec<Token>, usize), Error>)
    requires
        i <= s.len(),
    ensures
        match r {
            Ok((n, v, rep, j)) => (define_payload(s@, i as int) matches Ok((n2, v2, rep2, j2))
                && n == n2 && rep@ == rep2 && j == j2 && i < j <= s.len()
                && (v is Some <==> v2 is Some) && (v is Some ==> v->Some_0.list@ == v2->Some_0)),
            Err(e) => define_payload(s@, i as int) is Err && dir_reports(s@, define_payload(s@, i as int)->Err_0, e),
        },
{
    let a = read_expect(s, i, Symbol::OpenParen)?;
    proof {
        lemma_skip_hidden(s@, a as int);
    }
    let (n, b) = match read_macro_name(s, a) {
        Ok(x) => x,
        Err(e) => return Err(e),
    };
    proof {
        lemma_skip_hidden(s@, b as int);
    }
    let (vars, c) = match try_read_symbol(s, b, Symbol::OpenParen) {
        Some(o) => {
            let (list, c) = read_vars(s, o, true)?;
            let open_paren = s[o - 1].duplicate();
            let close_paren = s[c - 1].duplicate();
            (Some(MacroVariables { open_paren, list, close_paren }), c)
        },
        None => (None, b),
    };
    let d = read_expect(s, c, Symbol::Comma)?;
    let (rep, e) = read_replacement(s, d)?;
    proof {
        lemma_skip_hidden(s@, e as int + 1);
        lemma_replacement_end(s@, d as int);
    }
    proof {
        lemma_skip_hidden(s@, a as int);
    }
    let j = match try_read_symbol(s, e + 1, Symbol::Dot) {
        Some(j) => j,
        None => return Err(Error::UnexpectedEof),
    };
    Ok((n, vars, rep, j))
}

/// The directive `d`, ending just before `j`, is what the tokens from `i` read as.
pub open spec fn reads_directive(s: Seq<Token>, i: int, d: Directive, j: int) -> bool {
    let k = skip_hidden(s, i + 1);
    &&& 0 <= i < s.len() && k < s.len() && j <= s.len()
    &&& d.hyphen() == s[i]
    &&& 0 < j && d.dot() == s[j - 1]
    &&& match d {
        Directive::Include(x) => directive_at(s, i) == Some(DirectiveKind::Include) && x.name == s[k]
            && (token_payload(s, k + 1, Kind::String) matches Ok((p, jj)) && jj == j && x.path == s[p]),
        Directive::IncludeLib(x) => directive_at(s, i) == Some(DirectiveKind::IncludeLib) && x.name == s[k]
            && (token_payload(s, k + 1, Kind::String) matches Ok((p, jj)) && jj == j && x.path == s[p]),
        Directive::Error(x) => directive_at(s, i) == Some(DirectiveKind::Error) && x.name == s[k]
            && (token_payload(s, k + 1, Kind::String) matches Ok((p, jj)) && jj == j && x.message == s[p]),
        Directive::Warning(x) => directive_at(s, i) == Some(DirectiveKind::Warning) && x.name == s[k]
            && (token_payload(s, k + 1, Kind::String) matches Ok((p, jj)) && jj == j && x.message == s[p]),
        Directive::Undef(x) => directive_at(s, i) == Some(DirectiveKind::Undef) && x.name == s[k]
            && name_payload(s, k + 1) == Ok::<(MacroName, int), DirFault>((x.macro_name, j)),
        Directive::Ifdef(x) => directive_at(s, i) == Some(DirectiveKind::Ifdef) && x.name == s[k]
            && name_payload(s, k + 1) == Ok::<(MacroName, int), DirFault>((x.macro_name, j)),
        Directive::Ifndef(x) => directive_at(s, i) == Some(DirectiveKind::Ifndef) && x.name == s[k]
            && name_payload(s, k + 1) == Ok::<(MacroName, int), DirFault>((x.macro_name, j)),
        Directive::Else(x) => directive_at(s, i) == Some(DirectiveKind::Else) && x.name == s[k]
            && tail_dot(s, k + 1) == Ok::<int, DirFault>(j),
        Directive::Endif(x) => directive_at(s, i) == Some(DirectiveKind::Endif) && x.name == s[k]
            && tail_dot(s, k + 1) == Ok::<int, DirFault>(j),
        Directive::Define(x) => directive_at(s, i) == Some(DirectiveKind::Define) && x.name == s[k]
            && (define_payload(s, k + 1) matches Ok((n, v, rep, jj)) && jj == j && x.macro_name == n
            && x.replacement@ == rep && (x.variables is Some <==> v is Some)
            && (v is Some ==> x.variables->Some_0.list@ == v->Some_0)),
    }
}

/// The fault of the payload of a directive of kind `kind` whose name is at `k`, if any.
pub open spec fn payload_fault(s: Seq<Token>, k: int, kind: DirectiveKind) -> Option<DirFault> {
    match kind {
        DirectiveKind::Include | DirectiveKind::IncludeLib | DirectiveKind::Error | DirectiveKind::Warning =>
            match token_payload(s, k + 1, Kind::String) {
                Ok(_) => None,
                Err(f) => Some(f),
            },
        DirectiveKind::Undef | DirectiveKind::Ifdef | DirectiveKind::Ifndef => match name_payload(s, k + 1) {
            Ok(_) => None,
            Err(f) => Some(f),
        },
        DirectiveKind::Else | DirectiveKind::Endif => match tail_dot(s, k + 1) {
            Ok(_) => None,
            Err(f) => Some(f),
        },
        DirectiveKind::Define => match define_payload(s, k + 1) {
            Ok(_) => None,
            Err(f) => Some(f),
        },
    }
}

/// Reads a directive that starts at `i`.
///
/// No directive starts there unless the token at `i` is `-` and the next grammatical
/// token names one; then the directive's payload must follow, or it is an error.
pub fn try_read_directive(s: &Vec<Token>, i: usize) -> (r: Result<Option<(Directive, usize)>, Error>)
    requires
        i <= s.len(),
    ensures
        match r {
            Ok(None) => directive_at(s@, i as int) is None,
            Ok(Some((d, j))) => reads_directive(s@, i as int, d, j as int) && i < j,
            Err(e) => directive_at(s@, i as int) matches Some(kind)
                && payload_fault(s@, skip_hidden(s@, i as int + 1), kind) matches Some(f)
                && dir_reports(s@, f, e),
        },
{
    if i >= s.len() || !s[i].is_symbol(Symbol::Hyphen) {
        return Ok(None);
    }
    let k = next_lexical(s, i + 1);
    if k >= s.len() || !(s[k].kind == Kind::Atom || s[k].kind == Kind::Keyword) {
        return Ok(None);
    }
    let kind = match kind_of_name(&s[k].value) {
        Some(kind) => kind,
        None => return Ok(None),
    };
    let hyphen = s[i].duplicate();
    let name = s[k].duplicate();
    match kind {
        DirectiveKind::Include | DirectiveKind::IncludeLib | DirectiveKind::Error | DirectiveKind::Warning => {
            let (p, j) = read_token_payload(s, k + 1, Kind::String)?;
            let arg = s[p].duplicate();
            let dot = s[j - 1].duplicate();
            let d = match kind {
                DirectiveKind::Include => Directive::Include(directives::Include { hyphen, name, path: arg, dot }),
                DirectiveKind::IncludeLib => Directive::IncludeLib(directives::IncludeLib { hyphen, name, path: arg, dot }),
                DirectiveKind::Error => Directive::Error(directives::Error { hyphen, name, message: arg, dot }),
                _ => Directive::Warning(directives::Warning { hyphen, name, message: arg, dot }),
            };
            Ok(Some((d, j)))
        },
        DirectiveKind::Undef | DirectiveKind::Ifdef | DirectiveKind::Ifndef => {
            let (macro_name, j) = read_name_payload(s, k + 1)?;
            let dot = s[j - 1].duplicate();
            let d = match kind {
                DirectiveKind::Undef => Directive::Undef(directives::Undef { hyphen, name, macro_name, dot }),
                DirectiveKind::Ifdef => Directive::Ifdef(directives::Ifdef { hyphen, name, macro_name, dot }),
                _ => Directive::Ifndef(directives::Ifndef { hyphen, name, macro_name, dot }),
            };
            Ok(Some((d, j)))
        },
        DirectiveKind::Else | DirectiveKind::Endif => {
            let j = read_expect(s, k + 1, Symbol::Dot)?;
            let dot = s[j - 1].duplicate();
            let d = match kind {
                DirectiveKind::Else => Directive::Else(directives::Else { hyphen, name, dot }),
                _ => Directive::Endif(directives::Endif { hyphen, name, dot }),
            };
            Ok(Some((d, j)))
        },
        DirectiveKind::Define => {
            let (macro_name, variables, replacement, j) = read_define_payload(s, k + 1)?;
            let dot = s[j - 1].duplicate();
            Ok(Some((Directive::Define(directives::Define { hyphen, name, macro_name, variables, replacement, dot }), j)))
        },
    }
}


} // verus!
