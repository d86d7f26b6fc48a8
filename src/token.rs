//! Lexical tokens as the preprocessor sees them, and the scanner that makes them.
use vstd::prelude::*;
use erl_tokenize::TokenValue;

verus! {

/// The kind of a token as the Erlang scanner reports it.
#[verifier::external_type_specification]
#[verifier::external_body]
pub struct ExLexKind(erl_tokenize::TokenKind);

/// The symbols that the preprocessor's grammar reads; every other symbol is `Other`.
#[derive(Clone, Copy, Debug, PartialEq, Eq, Structural)]
pub enum Symbol {
    OpenParen,
    CloseParen,
    OpenBrace,
    CloseBrace,
    OpenSquare,
    CloseSquare,
    DoubleLeftAngle,
    DoubleRightAngle,
    Comma,
    Dot,
    Hyphen,
    Question,
    DoubleQuestion,
    Other,
}

/// Kind of a token.
#[derive(Clone, Copy, Debug, PartialEq, Eq, Structural)]
pub enum Kind {
    Atom,
    Char,
    Comment,
    Float,
    Integer,
    Keyword,
    SigilString,
    String,
    Symbol(Symbol),
    Variable,
    Whitespace,
}

/// Where a token starts: the file it was read from (if known), its byte offset,
/// and its 1-based line and column.
#[derive(Clone, Debug)]
pub struct Position {
    pub filepath: Option<String>,
    pub offset: usize,
    pub line: usize,
    pub column: usize,
}

/// A lexical token: its kind, its source text, its decoded value and its position.
///
/// The decoded value differs from the text for atoms (`'foo'` has value `foo`) and
/// strings (`"a\n"` has the value with the escape resolved); for every other kind
/// it is the text itself.
#[derive(Clone, Debug)]
pub struct Token {
    pub kind: Kind,
    pub text: String,
    pub value: String,
    pub position: Position,
}

/// Comments and whitespace: tokens that carry no grammatical meaning.
pub open spec fn is_hidden(t: Token) -> bool {
    t.kind == Kind::Whitespace || t.kind == Kind::Comment
}

pub open spec fn is_symbol(t: Token, s: Symbol) -> bool {
    t.kind == Kind::Symbol(s)
}

/// The symbol that a symbol token's text names.
pub open spec fn symbol_named(text: Seq<char>) -> Symbol {
    if text == "("@ {
        Symbol::OpenParen
    } else if text == ")"@ {
        Symbol::CloseParen
    } else if text == "{"@ {
        Symbol::OpenBrace
    } else if text == "}"@ {
        Symbol::CloseBrace
    } else if text == "["@ {
        Symbol::OpenSquare
    } else if text == "]"@ {
        Symbol::CloseSquare
    } else if text == "<<"@ {
        Symbol::DoubleLeftAngle
    } else if text == ">>"@ {
        Symbol::DoubleRightAngle
    } else if text == ","@ {
        Symbol::Comma
    } else if text == "."@ {
        Symbol::Dot
    } else if text == "-"@ {
        Symbol::Hyphen
    } else if text == "?"@ {
        Symbol::Question
    } else if text == "??"@ {
        Symbol::DoubleQuestion
    } else {
        Symbol::Other
    }
}

pub fn text_is(s: &String, lit: &str) -> (r: bool)
    ensures
        r == (s@ == lit@),
{
    let l = String::from_str(lit);
    *s == l
}

pub fn symbol_of_text(text: &String) -> (r: Symbol)
    ensures
        r == symbol_named(text@),
{
    if text_is(text, "(") {
        Symbol::OpenParen
    } else if text_is(text, ")") {
        Symbol::CloseParen
    } else if text_is(text, "{") {
        Symbol::OpenBrace
    } else if text_is(text, "}") {
        Symbol::CloseBrace
    } else if text_is(text, "[") {
        Symbol::OpenSquare
    } else if text_is(text, "]") {
        Symbol::CloseSquare
    } else if text_is(text, "<<") {
        Symbol::DoubleLeftAngle
    } else if text_is(text, ">>") {
        Symbol::DoubleRightAngle
    } else if text_is(text, ",") {
        Symbol::Comma
    } else if text_is(text, ".") {
        Symbol::Dot
    } else if text_is(text, "-") {
        Symbol::Hyphen
    } else if text_is(text, "?") {
        Symbol::Question
    } else if text_is(text, "??") {
        Symbol::DoubleQuestion
    } else {
        Symbol::Other
    }
}

pub fn copy_filepath(f: &Option<String>) -> (r: Option<String>)
    ensures
        r == *f,
{
    match f {
        Some(s) => Some(s.clone()),
        None => None,
    }
}

impl Position {
    /// A copy of this position.
    pub fn duplicate(&self) -> (r: Position)
        ensures
            r == *self,
    {
        Position {
            filepath: copy_filepath(&self.filepath),
            offset: self.offset,
            line: self.line,
            column: self.column,
        }
    }
}

impl Token {
    /// A copy of this token.
    pub fn duplicate(&self) -> (r: Token)
        ensures
            r == *self,
    {
        Token {
            kind: self.kind,
            text: self.text.clone(),
            value: self.value.clone(),
            position: self.position.duplicate(),
        }
    }

    pub fn is_hidden(&self) -> (r: bool)
        ensures
            r == is_hidden(*self),
    {
        self.kind == Kind::Whitespace || self.kind == Kind::Comment
    }

    pub fn is_symbol(&self, s: Symbol) -> (r: bool)
        ensures
            r == is_symbol(*self, s),
    {
        self.kind == Kind::Symbol(s)
    }
}

/// A copy of each token of `v`, in order.
pub fn copy_tokens(v: &Vec<Token>) -> (r: Vec<Token>)
    ensures
        r@ == v@,
{
    let mut r: Vec<Token> = Vec::new();
    let mut i: usize = 0;
    while i < v.len()
        invariant
            i <= v.len(),
            r@ == v@.subrange(0, i as int),
        decreases v.len() - i,
    {
        r.push(v[i].duplicate());
        i = i + 1;
        assert(r@ =~= v@.subrange(0, i as int));
    }
    assert(r@ =~= v@);
    r
}

/// The kind of a scanned token, before symbols are told apart.
pub enum LexClass {
    Atom,
    Char,
    Comment,
    Float,
    Integer,
    Keyword,
    SigilString,
    String,
    Symbol,
    Variable,
    Whitespace,
}

/// A lexical error: where the scanner stopped, and why.
#[derive(Clone, Debug, PartialEq, Eq)]
pub struct LexError {
    pub line: usize,
    pub column: usize,
    pub message: String,
}

/// One token of a scanned source, in plain values.
pub struct Lexeme {
    pub kind: erl_tokenize::TokenKind,
    pub text: String,
    pub decoded: Option<String>,
    pub offset: usize,
    pub line: usize,
    pub column: usize,
}

/// The texts of the lexemes of `s`, one after the other.
pub open spec fn lexeme_texts(s: Seq<Lexeme>) -> Seq<char>
    decreases s.len(),
{
    if s.len() == 0 {
        Seq::empty()
    } else {
        lexeme_texts(s.drop_last()) + s.last().text@
    }
}

/// The texts of the tokens of `s`, one after the other.
pub open spec fn token_texts(s: Seq<Token>) -> Seq<char>
    decreases s.len(),
{
    if s.len() == 0 {
        Seq::empty()
    } else {
        token_texts(s.drop_last()) + s.last().text@
    }
}

/// Whether the Erlang scanner accepts the source `s`: it depends on the characters alone.
pub uninterp spec fn lexes(s: Seq<char>) -> bool;

/// Relies on `erl_tokenize::scan_tokens`, which scans the whole source into tokens
/// (comments and whitespace included) or fails with the first lexical error: on
/// success each token starts where the one before ends, the first at the start and
/// the last ending at the end, so their texts make up the source; and on
/// `Token::text`, `Token::value` and `Token::start` of each of those tokens, read
/// against the same source, for its text, its decoded atom or string value, and
/// where it starts; and on `ErrorKind::message` for the error's description.
#[verifier::external_body]
fn scan_source(source: &str) -> (r: Result<Vec<Lexeme>, LexError>)
    ensures
        r is Ok == lexes(source@),
        r matches Ok(v) ==> lexeme_texts(v@) == source@,
{
    let tokens = erl_tokenize::scan_tokens(source).map_err(|e| LexError {
        line: e.position.line().get(), column: e.position.column().get(), message: e.kind.message().to_string() })?;
    Ok(tokens.iter().map(|t| {
        let decoded = match t.value(source) {
            TokenValue::Atom(v) => Some(v.into_owned()),
            TokenValue::String(v) => Some(v.into_owned()),
            _ => None,
        };
        let p = t.start();
        Lexeme { kind: t.kind(), text: t.text(source).to_string(), decoded, offset: p.offset(), line: p.line().get(), column: p.column().get() }
    }).collect())
}

/// Relies on `erl_tokenize::TokenKind`: tells its variants apart.
#[verifier::external_body]
fn class_of(k: &erl_tokenize::TokenKind) -> (r: LexClass) {
    match k {
        erl_tokenize::TokenKind::Atom => LexClass::Atom,
        erl_tokenize::TokenKind::Char => LexClass::Char,
        erl_tokenize::TokenKind::Comment => LexClass::Comment,
        erl_tokenize::TokenKind::Float => LexClass::Float,
        erl_tokenize::TokenKind::Integer => LexClass::Integer,
        erl_tokenize::TokenKind::Keyword(_) => LexClass::Keyword,
        erl_tokenize::TokenKind::SigilString => LexClass::SigilString,
        erl_tokenize::TokenKind::String => LexClass::String,
        erl_tokenize::TokenKind::Symbol(_) => LexClass::Symbol,
        erl_tokenize::TokenKind::Variable => LexClass::Variable,
        erl_tokenize::TokenKind::Whitespace => LexClass::Whitespace,
    }
}

/// The token for one scanned lexeme of the file `filepath`.
///
/// A symbol's kind is told from its text; the value is the decoded one where the
/// scanner decoded one, and the text otherwise.
pub fn token_of_lexeme(l: &Lexeme, filepath: &Option<String>) -> (r: Token)
    ensures
        r.text == l.text,
        r.position == (Position {
            filepath: *filepath,
            offset: l.offset,
            line: l.line,
            column: l.column,
        }),
        l.decoded is Some ==> r.value == l.decoded->Some_0,
        l.decoded is None ==> r.value == l.text,
        r.kind is Symbol ==> r.kind == Kind::Symbol(symbol_named(l.text@)),
{
    let kind = match class_of(&l.kind) {
        LexClass::Atom => Kind::Atom,
        LexClass::Char => Kind::Char,
        LexClass::Comment => Kind::Comment,
        LexClass::Float => Kind::Float,
        LexClass::Integer => Kind::Integer,
        LexClass::Keyword => Kind::Keyword,
        LexClass::SigilString => Kind::SigilString,
        LexClass::String => Kind::String,
        LexClass::Symbol => Kind::Symbol(symbol_of_text(&l.text)),
        LexClass::Variable => Kind::Variable,
        LexClass::Whitespace => Kind::Whitespace,
    };
    let value = match &l.decoded {
        Some(v) => v.clone(),
        None => l.text.clone(),
    };
    Token {
        kind,
        text: l.text.clone(),
        value,
        position: Position { filepath: copy_filepath(filepath), offset: l.offset, line: l.line, column: l.column },
    }
}

/// Scans `text`, the contents of the file `filepath` (if known), into tokens.
///
/// Comments and whitespace are kept as tokens. Each token's position names `filepath`.
/// A lexical error anywhere in `text` is returned as the error.
pub fn tokenize(text: &str, filepath: Option<String>) -> (r: Result<Vec<Token>, LexError>)
    ensures
        r is Ok == lexes(text@),
        r matches Ok(v) ==> token_texts(v@) == text@,
        r is Ok ==> forall|i: int|
            0 <= i < r->Ok_0.len() ==> (#[trigger] r->Ok_0@[i]).position.filepath == filepath,
{
    let lexemes = scan_source(text)?;
    let mut out: Vec<Token> = Vec::new();
    let mut i: usize = 0;
    while i < lexemes.len()
        invariant
            i <= lexemes.len(),
            out.len() == i,
            forall|j: int| 0 <= j < out.len() ==> (#[trigger] out@[j]).position.filepath == filepath,
            token_texts(out@) == lexeme_texts(lexemes@.subrange(0, i as int)),
        decreases lexemes.len() - i,
    {
        let ghost before = out@;
        out.push(token_of_lexeme(&lexemes[i], &filepath));
        assert(out@.drop_last() =~= before);
        assert(lexemes@.subrange(0, i as int + 1).drop_last() =~= lexemes@.subrange(0, i as int));
        i = i + 1;
    }
    assert(lexemes@.subrange(0, lexemes.len() as int) =~= lexemes@);
    Ok(out)
}

} // verus!
