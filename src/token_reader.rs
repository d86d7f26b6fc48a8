//! Reading tokens of the preprocessor's grammar from a token sequence.
//!
//! Every reader takes the tokens and an index, and returns the index just past what
//! it read. Inside a directive or a macro call, comments and whitespace are skipped.
use vstd::prelude::*;
use crate::error::Error;
use crate::token::{is_hidden, is_symbol, Kind, Symbol, Token};
use crate::types::MacroName;

verus! {

/// The index of the first token at or after `i` that is not hidden (`s.len()` if none).
pub open spec fn skip_hidden(s: Seq<Token>, i: int) -> int
    decreases s.len() - i,
{
    if 0 <= i < s.len() && is_hidden(s[i]) {
        skip_hidden(s, i + 1)
    } else {
        i
    }
}

/// The tokens of `s` that are not hidden, in order.
pub open spec fn lexical(s: Seq<Token>) -> Seq<Token>
    decreases s.len(),
{
    if s.len() == 0 {
        Seq::empty()
    } else if is_hidden(s.last()) {
        lexical(s.drop_last())
    } else {
        lexical(s.drop_last()).push(s.last())
    }
}

/// The next grammatical token at or after `i` is the symbol `sym`.
pub open spec fn at_symbol(s: Seq<Token>, i: int, sym: Symbol) -> bool {
    let k = skip_hidden(s, i);
    k < s.len() && is_symbol(s[k], sym)
}

/// `e` is the error for a read that found the token at `k` (or the end) unfit.
pub open spec fn read_error(s: Seq<Token>, k: int, e: Error) -> bool {
    if k >= s.len() {
        e is UnexpectedEof
    } else {
        e matches Error::UnexpectedToken { token, .. } && token == s[k]
    }
}

/// The macro name that the next grammatical token at or after `i` stands for, if any.
pub open spec fn name_at(s: Seq<Token>, i: int) -> Option<MacroName> {
    let k = skip_hidden(s, i);
    if k < s.len() {
        MacroName::of_token(s[k])
    } else {
        None
    }
}

pub proof fn lemma_skip_hidden(s: Seq<Token>, i: int)
    requires
        0 <= i <= s.len(),
    ensures
        i <= skip_hidden(s, i) <= s.len(),
        skip_hidden(s, i) < s.len() ==> !is_hidden(s[skip_hidden(s, i)]),
        forall|k: int| i <= k < skip_hidden(s, i) ==> is_hidden(#[trigger] s[k]),
    decreases s.len() - i,
{
    if i < s.len() && is_hidden(s[i]) {
        lemma_skip_hidden(s, i + 1);
    }
}

/// The index of the first token at or after `i` that is not hidden.
pub fn next_lexical(s: &Vec<Token>, i: usize) -> (r: usize)
    requires
        i <= s.len(),
    ensures
        r == skip_hidden(s@, i as int),
        i <= r <= s.len(),
        r < s.len() ==> !is_hidden(s@[r as int]),
{
    proof {
        lemma_skip_hidden(s@, i as int);
    }
    let mut j: usize = i;
    while j < s.len() && s[j].is_hidden()
        invariant
            i <= j <= s.len(),
            skip_hidden(s@, j as int) == skip_hidden(s@, i as int),
        decreases s.len() - j,
    {
        j = j + 1;
    }
    j
}

/// Builds the error for a read that found the token at `k` (or the end) unfit.
pub fn unexpected(s: &Vec<Token>, k: usize, expected: &str) -> (e: Error)
    requires
        k <= s.len(),
    ensures
        read_error(s@, k as int, e),
{
    if k < s.len() {
        Error::UnexpectedToken { token: s[k].duplicate(), expected: String::from_str(expected) }
    } else {
        Error::UnexpectedEof
    }
}

/// Reads the symbol `sym` as the next grammatical token; returns the index past it.
pub fn read_symbol(s: &Vec<Token>, i: usize, sym: Symbol) -> (r: Result<usize, Error>)
    requires
        i <= s.len(),
    ensures
        match r {
            Ok(j) => at_symbol(s@, i as int, sym) && j == skip_hidden(s@, i as int) + 1,
            Err(e) => !at_symbol(s@, i as int, sym) && read_error(s@, skip_hidden(s@, i as int), e),
        },
{
    let k = next_lexical(s, i);
    if k < s.len() && s[k].is_symbol(sym) {
        Ok(k + 1)
    } else {
        Err(unexpected(s, k, "symbol"))
    }
}

/// Reads the symbol `sym` if it is the next grammatical token.
pub fn try_read_symbol(s: &Vec<Token>, i: usize, sym: Symbol) -> (r: Option<usize>)
    requires
        i <= s.len(),
    ensures
        match r {
            Some(j) => at_symbol(s@, i as int, sym) && j == skip_hidden(s@, i as int) + 1,
            None => !at_symbol(s@, i as int, sym),
        },
{
    let k = next_lexical(s, i);
    if k < s.len() && s[k].is_symbol(sym) {
        Some(k + 1)
    } else {
        None
    }
}

/// Reads the next grammatical token, which must be of kind `kind`; returns its index.
pub fn read_kind(s: &Vec<Token>, i: usize, kind: Kind) -> (r: Result<usize, Error>)
    requires
        i <= s.len(),
    ensures
        match r {
            Ok(k) => k == skip_hidden(s@, i as int) && k < s.len() && s@[k as int].kind == kind,
            Err(e) => {
                let k = skip_hidden(s@, i as int);
                (k >= s.len() || s@[k].kind != kind) && read_error(s@, k, e)
            },
        },
{
    let k = next_lexical(s, i);
    if k < s.len() && s[k].kind == kind {
        Ok(k)
    } else {
        Err(unexpected(s, k, "token"))
    }
}

/// Reads a macro name (an atom or a variable) as the next grammatical token.
pub fn read_macro_name(s: &Vec<Token>, i: usize) -> (r: Result<(MacroName, usize), Error>)
    requires
        i <= s.len(),
    ensures
        match r {
            Ok((n, j)) => name_at(s@, i as int) == Some(n) && j == skip_hidden(s@, i as int) + 1,
            Err(e) => name_at(s@, i as int) is None && read_error(s@, skip_hidden(s@, i as int), e),
        },
{
    let k = next_lexical(s, i);
    if k < s.len() && s[k].kind == Kind::Atom {
        Ok((MacroName::Atom(s[k].duplicate()), k + 1))
    } else if k < s.len() && s[k].kind == Kind::Variable {
        Ok((MacroName::Variable(s[k].duplicate()), k + 1))
    } else {
        Err(unexpected(s, k, "macro name"))
    }
}

} // verus!
