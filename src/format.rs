//! The source text of directives and macro calls, rebuilt from their tokens.
use vstd::prelude::*;
use crate::directive::Directive;
use crate::macros::{MacroCall, Stringify};
use crate::token::{token_texts, Token};
use crate::types::{arg_views, MacroArg};

verus! {

/// The texts of `s` with a `,` between each two.
pub open spec fn comma_joined(s: Seq<Seq<char>>) -> Seq<char>
    decreases s.len(),
{
    if s.len() == 0 {
        Seq::empty()
    } else if s.len() == 1 {
        s[0]
    } else {
        comma_joined(s.drop_last()) + seq![','] + s.last()
    }
}

/// The text of each token of `s`.
pub open spec fn each_text(s: Seq<Token>) -> Seq<Seq<char>> {
    s.map_values(|t: Token| t.text@)
}

/// The text of each argument of `s`: its tokens' texts, one after the other.
pub open spec fn each_arg_text(s: Seq<Seq<Token>>) -> Seq<Seq<char>> {
    s.map_values(|a: Seq<Token>| token_texts(a))
}

/// `(` and the texts of `s` joined by `,` and `)`.
pub open spec fn parenthesized(s: Seq<Seq<char>>) -> Seq<char> {
    seq!['('] + comma_joined(s) + seq![')']
}

/// The source text of a directive.
pub open spec fn directive_text(d: Directive) -> Seq<char> {
    match d {
        Directive::Include(x) => "-include("@ + x.path.text@ + ")."@,
        Directive::IncludeLib(x) => "-include_lib("@ + x.path.text@ + ")."@,
        Directive::Error(x) => "-error("@ + x.message.text@ + ")."@,
        Directive::Warning(x) => "-warning("@ + x.message.text@ + ")."@,
        Directive::Endif(_) => "-endif."@,
        Directive::Else(_) => "-else."@,
        Directive::Undef(x) => "-undef("@ + x.macro_name.token().text@ + ")."@,
        Directive::Ifdef(x) => "-ifdef("@ + x.macro_name.token().text@ + ")."@,
        Directive::Ifndef(x) => "-ifndef("@ + x.macro_name.token().text@ + ")."@,
        Directive::Define(x) => "-define("@ + x.macro_name.token().text@ + match x.variables {
            Some(v) => parenthesized(each_text(v.list@)),
            None => Seq::empty(),
        } + ", "@ + token_texts(x.replacement@) + ")."@,
    }
}

/// The source text of a macro call.
pub open spec fn call_text(c: MacroCall) -> Seq<char> {
    "?"@ + c.name.token().text@ + match c.args {
        Some(a) => parenthesized(each_arg_text(a.spec_args())),
        None => Seq::empty(),
    }
}

fn append_texts(out: &mut String, toks: &Vec<Token>)
    ensures
        final(out)@ == old(out)@ + token_texts(toks@),
{
    let mut i: usize = 0;
    while i < toks.len()
        invariant
            i <= toks.len(),
            out@ == old(out)@ + token_texts(toks@.subrange(0, i as int)),
        decreases toks.len() - i,
    {
        out.append(toks[i].text.as_str());
        assert(toks@.subrange(0, i as int + 1).drop_last() =~= toks@.subrange(0, i as int));
        i = i + 1;
    }
    assert(toks@.subrange(0, toks.len() as int) =~= toks@);
}

fn append_joined(out: &mut String, toks: &Vec<Token>)
    ensures
        final(out)@ == old(out)@ + comma_joined(each_text(toks@)),
{
    let mut i: usize = 0;
    while i < toks.len()
        invariant
            i <= toks.len(),
            out@ == old(out)@ + comma_joined(each_text(toks@.subrange(0, i as int))),
        decreases toks.len() - i,
    {
        let ghost before = out@;
        if i > 0 {
            out.append(",");
        }
        out.append(toks[i].text.as_str());
        proof {
            reveal_strlit(",");
            let s = each_text(toks@.subrange(0, i as int + 1));
            assert(s.drop_last() =~= each_text(toks@.subrange(0, i as int)));
            assert(i == 0 ==> s =~= seq![toks@[0].text@]);
            assert(out@ =~= old(out)@ + comma_joined(s));
        }
        i = i + 1;
    }
    assert(toks@.subrange(0, toks.len() as int) =~= toks@);
}

fn append_joined_args(out: &mut String, args: &Vec<MacroArg>)
    ensures
        final(out)@ == old(out)@ + comma_joined(each_arg_text(arg_views(args@))),
{
    let mut i: usize = 0;
    while i < args.len()
        invariant
            i <= args.len(),
            out@ == old(out)@ + comma_joined(each_arg_text(arg_views(args@.subrange(0, i as int)))),
        decreases args.len() - i,
    {
        let ghost before = out@;
        if i > 0 {
            out.append(",");
        }
        append_texts(out, &args[i].tokens);
        proof {
            reveal_strlit(",");
            let s = each_arg_text(arg_views(args@.subrange(0, i as int + 1)));
            assert(s.drop_last() =~= each_arg_text(arg_views(args@.subrange(0, i as int))));
            assert(i == 0 ==> s =~= seq![token_texts(args@[0]@)]);
            assert(out@ =~= old(out)@ + comma_joined(s));
        }
        i = i + 1;
    }
    assert(args@.subrange(0, args.len() as int) =~= args@);
}

fn append_parenthesized(out: &mut String, toks: &Vec<Token>)
    ensures
        final(out)@ == old(out)@ + parenthesized(each_text(toks@)),
{
    out.append("(");
    append_joined(out, toks);
    out.append(")");
    proof {
        reveal_strlit("(");
        reveal_strlit(")");
        assert(final(out)@ =~= old(out)@ + parenthesized(each_text(toks@)));
    }
}

/// `prefix`, the text of `t`, and `suffix`.
fn framed(prefix: &str, t: &Token, suffix: &str) -> (r: String)
    ensures
        r@ == prefix@ + t.text@ + suffix@,
{
    let mut out = String::from_str(prefix);
    out.append(t.text.as_str());
    out.append(suffix);
    out
}

impl Directive {
    /// Returns the source text of this directive.
    pub fn to_text(&self) -> (r: String)
        ensures
            r@ == directive_text(*self),
    {
        match self {
            Directive::Include(x) => framed("-include(", &x.path, ")."),
            Directive::IncludeLib(x) => framed("-include_lib(", &x.path, ")."),
            Directive::Error(x) => framed("-error(", &x.message, ")."),
            Directive::Warning(x) => framed("-warning(", &x.message, ")."),
            Directive::Endif(_) => String::from_str("-endif."),
            Directive::Else(_) => String::from_str("-else."),
            Directive::Undef(x) => framed("-undef(", x.macro_name.token_of(), ")."),
            Directive::Ifdef(x) => framed("-ifdef(", x.macro_name.token_of(), ")."),
            Directive::Ifndef(x) => framed("-ifndef(", x.macro_name.token_of(), ")."),
            Directive::Define(x) => {
                let mut out = String::from_str("-define(");
                out.append(x.macro_name.text().as_str());
                let ghost head = out@;
                match &x.variables {
                    Some(v) => append_parenthesized(&mut out, &v.list),
                    None => {},
                }
                out.append(", ");
                append_texts(&mut out, &x.replacement);
                out.append(").");
                proof {
                    assert(out@ =~= directive_text(*self));
                }
                out
            },
        }
    }
}

impl MacroCall {
    /// Returns the source text of this call.
    pub fn to_text(&self) -> (r: String)
        ensures
            r@ == call_text(*self),
    {
        let mut out = String::from_str("?");
        out.append(self.name.text().as_str());
        match &self.args {
            Some(a) => {
                out.append("(");
                append_joined_args(&mut out, &a.list);
                out.append(")");
                proof {
                    reveal_strlit("(");
                    reveal_strlit(")");
                }
            },
            None => {},
        }
        proof {
            assert(out@ =~= call_text(*self));
        }
        out
    }
}

impl Stringify {
    /// Returns the source text of this stringification.
    pub fn to_text(&self) -> (r: String)
        ensures
            r@ == "??"@ + self.name.text@,
    {
        let mut out = String::from_str("??");
        out.append(self.name.text.as_str());
        out
    }
}

} // verus!
