//! Reading the actual arguments of a macro call, with bracket balancing.
use vstd::prelude::*;
use crate::error::Error;
use crate::token::{is_hidden, is_symbol, Kind, Symbol, Token};
use crate::token_reader::{at_symbol, lemma_skip_hidden, lexical, next_lexical, read_symbol, skip_hidden, read_error};
use crate::types::{arg_views, MacroArg, MacroArgs};

verus! {

/// The symbol of a symbol token (`Other` for any other token).
pub open spec fn sym(t: Token) -> Symbol {
    match t.kind {
        Kind::Symbol(x) => x,
        _ => Symbol::Other,
    }
}

pub open spec fn is_opener(t: Token) -> bool {
    is_symbol(t, Symbol::OpenParen) || is_symbol(t, Symbol::OpenSquare) || is_symbol(t, Symbol::OpenBrace)
        || is_symbol(t, Symbol::DoubleLeftAngle)
}

pub open spec fn is_closer(t: Token) -> bool {
    is_symbol(t, Symbol::CloseParen) || is_symbol(t, Symbol::CloseSquare) || is_symbol(t, Symbol::CloseBrace)
        || is_symbol(t, Symbol::DoubleRightAngle)
}

/// The closing symbol that matches an opening one.
pub open spec fn closer_of(open: Symbol) -> Symbol {
    match open {
        Symbol::OpenParen => Symbol::CloseParen,
        Symbol::OpenSquare => Symbol::CloseSquare,
        Symbol::OpenBrace => Symbol::CloseBrace,
        Symbol::DoubleLeftAngle => Symbol::DoubleRightAngle,
        _ => Symbol::Other,
    }
}

/// Why reading macro arguments failed.
pub enum ArgFault {
    /// The tokens ended inside an argument.
    Eof,
    /// The closing bracket at this index matches no open bracket: none is open, or the
    /// innermost open one, at the second index, is of another kind.
    Unbalanced(int, Option<int>),
    /// The argument that ends at this index (a `,` or `)`) is empty.
    Missing(int),
}

/// Scans one argument from `i`, where `open` holds the indices of the brackets still
/// open: the index of the `,` or `)` that ends it at the top level, or why it fails.
pub open spec fn arg_scan(s: Seq<Token>, i: int, open: Seq<usize>) -> Result<int, ArgFault>
    decreases s.len() - i,
{
    if i < 0 || i >= s.len() {
        Err(ArgFault::Eof)
    } else if open.len() == 0 && (is_symbol(s[i], Symbol::Comma) || is_symbol(s[i], Symbol::CloseParen)) {
        Ok(i)
    } else if is_opener(s[i]) {
        arg_scan(s, i + 1, open.push(i as usize))
    } else if is_closer(s[i]) {
        if open.len() > 0 && 0 <= open.last() < s.len() && closer_of(sym(s[open.last() as int])) == sym(s[i]) {
            arg_scan(s, i + 1, open.drop_last())
        } else {
            Err(
                ArgFault::Unbalanced(
                    i,
                    if open.len() > 0 {
                        Some(open.last() as int)
                    } else {
                        None
                    },
                ),
            )
        }
    } else {
        arg_scan(s, i + 1, open)
    }
}

/// Reads the arguments that follow index `i`: `i` is just past the `(` when `first`,
/// else just past a `,`. Gives the tokens of each argument and the index past the `)`.
pub open spec fn args_from(s: Seq<Token>, i: int, first: bool) -> Result<(Seq<Seq<Token>>, int), ArgFault>
    decreases s.len() - i,
{
    if first && at_symbol(s, i, Symbol::CloseParen) {
        Ok((Seq::empty(), skip_hidden(s, i) + 1))
    } else {
        match arg_scan(s, i, Seq::empty()) {
            Ok(e) => {
                if e < i || e >= s.len() || lexical(s.subrange(i, e)).len() == 0 {
                    Err(ArgFault::Missing(e))
                } else if is_symbol(s[e], Symbol::Comma) {
                    match args_from(s, e + 1, false) {
                        Ok((rest, j)) => Ok((seq![lexical(s.subrange(i, e))] + rest, j)),
                        Err(f) => Err(f),
                    }
                } else {
                    Ok((seq![lexical(s.subrange(i, e))], e + 1))
                }
            },
            Err(f) => Err(f),
        }
    }
}

/// `e` is the error that reports the fault `f`.
pub open spec fn reports(s: Seq<Token>, f: ArgFault, e: Error) -> bool {
    match f {
        ArgFault::Eof => e is UnexpectedEof,
        ArgFault::Unbalanced(k, o) => e matches Error::UnbalancedParen { open, close } && 0 <= k < s.len() && close == s[k]
            && match o {
            None => open is None,
            Some(m) => 0 <= m < s.len() && open == Some(s[m]),
        },
        ArgFault::Missing(k) => e matches Error::MissingMacroArg { position } && 0 <= k < s.len() && position == s[k].position,
    }
}

proof fn lemma_arg_scan_bounds(s: Seq<Token>, i: int, open: Seq<usize>)
    requires
        0 <= i,
    ensures
        arg_scan(s, i, open) matches Ok(e) ==> i <= e < s.len(),
        arg_scan(s, i, open) matches Err(ArgFault::Unbalanced(k, _)) ==> i <= k < s.len(),
    decreases s.len() - i,
{
    if i < s.len() {
        lemma_arg_scan_bounds(s, i + 1, open.push(i as usize));
        lemma_arg_scan_bounds(s, i + 1, open.drop_last());
        lemma_arg_scan_bounds(s, i + 1, open);
    }
}

/// Scans one argument from `i`; returns its tokens (comments and whitespace left out)
/// and the index of the `,` or `)` that ends it.
pub fn read_arg(s: &Vec<Token>, i: usize) -> (r: Result<(Vec<Token>, usize), Error>)
    requires
        i <= s.len(),
    ensures
        match r {
            Ok((arg, e)) => arg_scan(s@, i as int, Seq::empty()) == Ok::<int, ArgFault>(e as int)
                && arg@ == lexical(s@.subrange(i as int, e as int)),
            Err(err) => arg_scan(s@, i as int, Seq::empty()) is Err
                && reports(s@, arg_scan(s@, i as int, Seq::empty())->Err_0, err),
        },
{
    let mut open: Vec<usize> = Vec::new();
    let mut arg: Vec<Token> = Vec::new();
    let mut k: usize = i;
    proof {
        lemma_arg_scan_bounds(s@, i as int, Seq::empty());
    }
    while k < s.len()
        invariant
            i <= k <= s.len(),
            arg_scan(s@, k as int, open@) == arg_scan(s@, i as int, Seq::empty()),
            arg@ == lexical(s@.subrange(i as int, k as int)),
            forall|m: int| 0 <= m < open@.len() ==> open@[m] < s.len(),
        decreases s.len() - k,
    {
        let ghost before = s@.subrange(i as int, k as int);
        assert(s@.subrange(i as int, k as int + 1).drop_last() =~= before);
        let t = &s[k];
        if open.len() == 0 && (t.is_symbol(Symbol::Comma) || t.is_symbol(Symbol::CloseParen)) {
            return Ok((arg, k));
        }
        let opener = t.is_symbol(Symbol::OpenParen) || t.is_symbol(Symbol::OpenSquare)
            || t.is_symbol(Symbol::OpenBrace) || t.is_symbol(Symbol::DoubleLeftAngle);
        let closer = t.is_symbol(Symbol::CloseParen) || t.is_symbol(Symbol::CloseSquare)
            || t.is_symbol(Symbol::CloseBrace) || t.is_symbol(Symbol::DoubleRightAngle);
        if opener {
            open.push(k);
        } else if closer {
            let n = open.len();
            if n == 0 {
                return Err(Error::UnbalancedParen { open: None, close: t.duplicate() });
            }
            let o = open[n - 1];
            let matched = match s[o].kind {
                Kind::Symbol(Symbol::OpenParen) => t.is_symbol(Symbol::CloseParen),
                Kind::Symbol(Symbol::OpenSquare) => t.is_symbol(Symbol::CloseSquare),
                Kind::Symbol(Symbol::OpenBrace) => t.is_symbol(Symbol::CloseBrace),
                Kind::Symbol(Symbol::DoubleLeftAngle) => t.is_symbol(Symbol::DoubleRightAngle),
                _ => false,
            };
            if !matched {
                return Err(Error::UnbalancedParen { open: Some(s[o].duplicate()), close: t.duplicate() });
            }
            open.pop();
        }
        if !t.is_hidden() {
            arg.push(t.duplicate());
        }
        k = k + 1;
    }
    Err(Error::UnexpectedEof)
}

/// Reads the arguments that follow index `i` (see `args_from`).
fn read_arg_list(s: &Vec<Token>, i: usize, first: bool) -> (r: Result<(Vec<MacroArg>, usize), Error>)
    requires
        i <= s.len(),
    ensures
        match r {
            Ok((args, j)) => args_from(s@, i as int, first) matches Ok((a, jj))
                && arg_views(args@) == a && j == jj && i < j <= s.len(),
            Err(err) => args_from(s@, i as int, first) is Err
                && reports(s@, args_from(s@, i as int, first)->Err_0, err),
        },
    decreases s.len() - i,
{
    if first {
        let k = next_lexical(s, i);
        if k < s.len() && s[k].is_symbol(Symbol::CloseParen) {
            let v: Vec<MacroArg> = Vec::new();
            assert(arg_views(v@) =~= Seq::<Seq<Token>>::empty());
            return Ok((v, k + 1));
        }
    }
    proof {
        lemma_arg_scan_bounds(s@, i as int, Seq::empty());
    }
    let (tokens, e) = read_arg(s, i)?;
    if tokens.len() == 0 {
        return Err(Error::MissingMacroArg { position: s[e].position.duplicate() });
    }
    let arg = MacroArg { tokens };
    if s[e].is_symbol(Symbol::Comma) {
        let (rest, j) = read_arg_list(s, e + 1, false)?;
        let mut all: Vec<MacroArg> = Vec::new();
        all.push(arg);
        let mut rest = rest;
        let ghost rest_v = arg_views(rest@);
        let ghost a0 = arg_views(all@);
        all.append(&mut rest);
        assert(arg_views(all@) =~= a0 + rest_v);
        Ok((all, j))
    } else {
        let mut all: Vec<MacroArg> = Vec::new();
        all.push(arg);
        assert(arg_views(all@) =~= seq![lexical(s@.subrange(i as int, e as int))]);
        Ok((all, e + 1))
    }
}

/// `e` is the error of reading `(Arg, ...)` from `i`: where the next grammatical token
/// is no `(`, or where the arguments after it fail.
pub open spec fn args_error(s: Seq<Token>, i: int, e: Error) -> bool {
    if at_symbol(s, i, Symbol::OpenParen) {
        args_from(s, skip_hidden(s, i) + 1, true) is Err && reports(
            s,
            args_from(s, skip_hidden(s, i) + 1, true)->Err_0,
            e,
        )
    } else {
        read_error(s, skip_hidden(s, i), e)
    }
}

/// Reads `(Arg, ...)` from index `i`: the `(` must be the next grammatical token.
pub fn read_macro_args(s: &Vec<Token>, i: usize) -> (r: Result<(MacroArgs, usize), Error>)
    requires
        i <= s.len(),
    ensures
        match r {
            Ok((args, j)) => at_symbol(s@, i as int, Symbol::OpenParen)
                && args.open_paren == s@[skip_hidden(s@, i as int)]
                && (args_from(s@, skip_hidden(s@, i as int) + 1, true) matches Ok((a, jj))
                && args.spec_args() == a && j == jj && i < j <= s.len()),
            Err(err) => args_error(s@, i as int, err),
        },
{
    proof {
        lemma_skip_hidden(s@, i as int);
    }
    let o = read_symbol(s, i, Symbol::OpenParen)?;
    let (list, j) = read_arg_list(s, o, true)?;
    Ok((MacroArgs { open_paren: s[o - 1].duplicate(), list, close_paren: s[j - 1].duplicate() }, j))
}

} // verus!
