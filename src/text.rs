//! The source text of tokens that the preprocessor makes itself.
use vstd::prelude::*;

verus! {

/// A character as it stands inside quotes `q`: the quote and `\` get a `\` before them.
pub open spec fn escaped_char(c: char, q: char) -> Seq<char> {
    if c == q || c == '\\' {
        seq!['\\', c]
    } else {
        seq![c]
    }
}

pub open spec fn escaped(s: Seq<char>, q: char) -> Seq<char>
    decreases s.len(),
{
    if s.len() == 0 {
        Seq::empty()
    } else {
        escaped(s.drop_last(), q) + escaped_char(s.last(), q)
    }
}

/// `s` between the quotes `q`, escaped.
pub open spec fn quoted(s: Seq<char>, q: char) -> Seq<char> {
    seq![q] + escaped(s, q) + seq![q]
}

/// A character that may stand in an atom without quotes.
pub open spec fn is_atom_char(c: char) -> bool {
    ('a' <= c <= 'z') || ('A' <= c <= 'Z') || ('0' <= c <= '9') || c == '_' || c == '@'
}

/// An atom's text: bare when it starts with a lower-case letter and has only letters,
/// digits, `_` and `@`; quoted otherwise.
pub open spec fn atom_text(v: Seq<char>) -> Seq<char> {
    if v.len() > 0 && 'a' <= v[0] <= 'z' && forall|k: int| 0 <= k < v.len() ==> is_atom_char(#[trigger] v[k]) {
        v
    } else {
        quoted(v, '\'')
    }
}

/// Returns `s` between the quotes `q`, escaped.
pub fn quote(s: &str, q: char) -> (r: String)
    requires
        q == '"' || q == '\'',
    ensures
        r@ == quoted(s@, q),
{
    let mut r = String::new();
    if q == '"' {
        r.append("\"");
    } else {
        r.append("'");
    }
    let n = s.unicode_len();
    let mut i: usize = 0;
    proof {
        reveal_strlit("\"");
        reveal_strlit("'");
        assert(s@.subrange(0, 0) =~= Seq::<char>::empty());
        assert(r@ =~= seq![q] + escaped(s@.subrange(0, 0), q));
    }
    while i < n
        invariant
            i <= n,
            n == s@.len(),
            q == '"' || q == '\'',
            r@ == seq![q] + escaped(s@.subrange(0, i as int), q),
        decreases n - i,
    {
        let c = s.get_char(i);
        let ghost before = r@;
        if c == q || c == '\\' {
            r.append("\\");
        }
        r.append(s.substring_char(i, i + 1));
        proof {
            reveal_strlit("\\");
            let sub = s@.subrange(0, i as int + 1);
            assert(sub.drop_last() =~= s@.subrange(0, i as int));
            assert(s@.subrange(i as int, i as int + 1) =~= seq![c]);
            assert(r@ =~= seq![q] + escaped(sub, q));
        }
        i = i + 1;
    }
    let ghost before = r@;
    if q == '"' {
        r.append("\"");
    } else {
        r.append("'");
    }
    proof {
        reveal_strlit("\"");
        reveal_strlit("'");
        assert(s@.subrange(0, n as int) =~= s@);
        assert(r@ =~= quoted(s@, q));
    }
    r
}

/// Returns the text of the atom whose value is `v`.
pub fn atom_text_of(v: &str) -> (r: String)
    ensures
        r@ == atom_text(v@),
{
    let n = v.unicode_len();
    let mut bare = n > 0;
    if bare {
        let c0 = v.get_char(0);
        bare = 'a' <= c0 && c0 <= 'z';
    }
    let mut i: usize = 0;
    while i < n && bare
        invariant
            i <= n,
            n == v@.len(),
            bare ==> forall|k: int| 0 <= k < i ==> is_atom_char(#[trigger] v@[k]),
            bare ==> n > 0 && 'a' <= v@[0] <= 'z',
            !bare ==> !(n > 0 && 'a' <= v@[0] <= 'z' && forall|k: int| 0 <= k < n ==> is_atom_char(#[trigger] v@[k])),
        decreases n - i,
    {
        let c = v.get_char(i);
        if !(('a' <= c && c <= 'z') || ('A' <= c && c <= 'Z') || ('0' <= c && c <= '9') || c == '_' || c == '@') {
            bare = false;
        }
        i = i + 1;
    }
    if bare {
        String::from_str(v)
    } else {
        quote(v, '\'')
    }
}

/// The digit character of `d`, below ten.
pub open spec fn digit(d: nat) -> char {
    if d == 0 {
        '0'
    } else if d == 1 {
        '1'
    } else if d == 2 {
        '2'
    } else if d == 3 {
        '3'
    } else if d == 4 {
        '4'
    } else if d == 5 {
        '5'
    } else if d == 6 {
        '6'
    } else if d == 7 {
        '7'
    } else if d == 8 {
        '8'
    } else {
        '9'
    }
}

/// The decimal digits of `n`, most significant first.
pub open spec fn decimal(n: nat) -> Seq<char>
    decreases n,
{
    if n < 10 {
        seq![digit(n)]
    } else {
        decimal(n / 10).push(digit(n % 10))
    }
}

fn digit_text(d: usize) -> (r: &'static str)
    requires
        d < 10,
    ensures
        r@ == seq![digit(d as nat)],
{
    proof {
        reveal_strlit("0");
        reveal_strlit("1");
        reveal_strlit("2");
        reveal_strlit("3");
        reveal_strlit("4");
        reveal_strlit("5");
        reveal_strlit("6");
        reveal_strlit("7");
        reveal_strlit("8");
        reveal_strlit("9");
    }
    if d == 0 {
        "0"
    } else if d == 1 {
        "1"
    } else if d == 2 {
        "2"
    } else if d == 3 {
        "3"
    } else if d == 4 {
        "4"
    } else if d == 5 {
        "5"
    } else if d == 6 {
        "6"
    } else if d == 7 {
        "7"
    } else if d == 8 {
        "8"
    } else {
        "9"
    }
}

/// Returns the decimal text of `n`.
pub fn decimal_text(n: usize) -> (r: String)
    ensures
        r@ == decimal(n as nat),
    decreases n,
{
    if n < 10 {
        String::from_str(digit_text(n))
    } else {
        let mut r = decimal_text(n / 10);
        r.append(digit_text(n % 10));
        r
    }
}

} // verus!
