use erl_pp::preprocessor::{preprocess, Preprocessor};
use erl_pp::token::{tokenize, Kind, Symbol, Token};

fn pp(text: &str) -> Preprocessor {
    Preprocessor::new(tokenize(text, None).unwrap())
}

fn collect(text: &str) -> Vec<Token> {
    pp(text).collect_tokens().unwrap()
}

#[test]
fn no_directive_works() {
    let src = r#"io:format("Hello")."#;
    let tokens = collect(src);

    assert_eq!(
        tokens.iter().map(|t| t.kind).collect::<Vec<_>>(),
        [
            Kind::Atom,
            Kind::Symbol(Symbol::Other),
            Kind::Atom,
            Kind::Symbol(Symbol::OpenParen),
            Kind::String,
            Kind::Symbol(Symbol::CloseParen),
            Kind::Symbol(Symbol::Dot)
        ]
    );
    assert_eq!(preprocess(tokenize(src, None).unwrap()).unwrap().len(), 7);
}

#[test]
fn define_works() {
    let src = r#"aaa. -define(foo, [bar, baz]). bbb."#;
    let tokens = collect(src);

    assert_eq!(tokens.iter().map(|t| t.text.as_str()).collect::<Vec<_>>(), ["aaa", ".", " ", " ", "bbb", "."]);

    let src = r#"aaa. -define(Foo (A, B), [bar, A, baz, B]). bbb."#;
    let tokens = collect(src);

    assert_eq!(tokens.iter().map(|t| t.text.as_str()).collect::<Vec<_>>(), ["aaa", ".", " ", " ", "bbb", "."]);
}

#[test]
fn undef_works() {
    let src = r#"aaa. -undef(foo). bbb."#;
    let tokens = collect(src);

    assert_eq!(tokens.iter().map(|t| t.text.as_str()).collect::<Vec<_>>(), ["aaa", ".", " ", " ", "bbb", "."]);
}
