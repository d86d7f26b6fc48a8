use erl_pp::directive::Directive;
use erl_pp::error::Error;
use erl_pp::macros::MacroDef;
use erl_pp::preprocessor::{preprocess, Event, Preprocessor, Step};
use erl_pp::token::{tokenize, Kind, Symbol, Token};
use erl_pp::types::MacroName;

fn tokens(text: &str) -> Vec<Token> {
    tokenize(text, None).unwrap()
}

fn run(text: &str) -> Result<Vec<Token>, Error> {
    Preprocessor::new(tokens(text)).collect_tokens()
}

/// The texts of the output tokens, comments and whitespace left out.
fn texts(text: &str) -> Vec<String> {
    run(text)
        .unwrap()
        .into_iter()
        .filter(|t| t.kind != Kind::Whitespace && t.kind != Kind::Comment)
        .map(|t| t.text)
        .collect()
}

#[test]
fn scenario_plain_call_of_io_format() {
    assert_eq!(texts(r#"io:format("Hello")."#), ["io", ":", "format", "(", "\"Hello\"", ")", "."]);
}

#[test]
fn scenario_macro_with_line() {
    let src = r#"-define(FOO(A), {A, ?LINE}). io:format("Hello: ~p", [?FOO(bar)])."#;
    assert_eq!(
        texts(src),
        ["io", ":", "format", "(", "\"Hello: ~p\"", ",", "[", "{", "bar", ",", "1", "}", "]", ")", "."]
    );
}

#[test]
fn scenario_nested_macro_argument() {
    let src = r#"-define(FOO(A), [A, A]). -define(BAR, ?LINE). ?FOO(?BAR)."#;
    assert_eq!(texts(src), ["[", "1", ",", "1", "]", "."]);
}

#[test]
fn scenario_ifdef_undefined_takes_else_arm() {
    assert_eq!(texts("-ifdef(X). kept. -else. other. -endif."), ["other", "."]);
}

#[test]
fn ifdef_defined_takes_then_arm() {
    assert_eq!(texts("-define(X, 1). -ifdef(X). kept. -else. other. -endif. after."), ["kept", ".", "after", "."]);
}

#[test]
fn ifndef_arms() {
    assert_eq!(texts("-ifndef(X). kept. -else. other. -endif."), ["kept", "."]);
    assert_eq!(texts("-define(X, 1). -ifndef(X). kept. -else. other. -endif."), ["other", "."]);
}

#[test]
fn nested_conditionals_inside_masked_arm() {
    let src = "-ifdef(X). -ifdef(Y). a. -else. b. -endif. -else. c. -endif.";
    assert_eq!(texts(src), ["c", "."]);
}

#[test]
fn scenario_stringify() {
    let out = texts("-define(S(X), ??X). ?S(1+2).");
    assert_eq!(out, ["\"1+2\"", "."]);
    let out = run("-define(S(X), ??X). ?S(1+2).").unwrap();
    let t = out.iter().find(|t| t.kind != Kind::Whitespace).unwrap();
    assert_eq!(t.kind, Kind::String);
    assert_eq!(t.value, "1+2");
}

#[test]
fn stringify_escapes_quotes() {
    let out = run(r#"-define(S(X), ??X). ?S("a")."#).unwrap();
    let t = out.iter().find(|t| t.kind != Kind::Whitespace).unwrap();
    assert_eq!(t.value, "\"a\"");
    assert_eq!(t.text, r#""\"a\"""#);
}

#[test]
fn undef_then_call_is_undefined() {
    match run("-define(X, 1). -undef(X). ?X.") {
        Err(Error::UndefinedMacro { macro_call }) => assert_eq!(macro_call.name.value(), "X"),
        other => panic!("unexpected: {:?}", other),
    }
}

#[test]
fn empty_formals_and_empty_actuals() {
    assert_eq!(texts("-define(F(), 1). ?F()."), ["1", "."]);
}

#[test]
fn bracketed_argument_keeps_its_commas() {
    assert_eq!(texts("-define(F(A), A). ?F((1,2))."), ["(", "1", ",", "2", ")", "."]);
}

#[test]
fn arguments_with_all_bracket_kinds() {
    let src = "-define(F(A, B), {A, B}). ?F([1, 2], <<3, 4>>).";
    assert_eq!(texts(src), ["{", "[", "1", ",", "2", "]", ",", "<<", "3", ",", "4", ">>", "}", "."]);
}

#[test]
fn line_and_file_of_a_call() {
    let mut src = String::new();
    for _ in 0..41 {
        src.push('\n');
    }
    src.push_str("?LINE. ?FILE.");
    let out = Preprocessor::new(tokenize(&src, Some("x.erl".to_string())).unwrap()).collect_tokens().unwrap();
    let out: Vec<Token> = out.into_iter().filter(|t| t.kind != Kind::Whitespace).collect();
    assert_eq!(out[0].kind, Kind::Integer);
    assert_eq!(out[0].text, "42");
    assert_eq!(out[2].kind, Kind::String);
    assert_eq!(out[2].value, "x.erl");
    assert_eq!(out[2].text, "\"x.erl\"");
}

#[test]
fn machine_is_beam() {
    let out = run("?MACHINE.").unwrap();
    assert_eq!(out[0].kind, Kind::Atom);
    assert_eq!(out[0].value, "BEAM");
    assert_eq!(out[0].text, "'BEAM'");
}

#[test]
fn file_without_a_path_fails() {
    assert!(matches!(run("?FILE."), Err(Error::FileNotSet { .. })));
}

#[test]
fn quoted_and_bare_names_are_one_macro() {
    assert_eq!(texts("-define(foo, 1). ?'foo'."), ["1", "."]);
    let a = tokens("foo").remove(0);
    let b = tokens("'foo'").remove(0);
    assert_ne!(a.text, b.text);
    assert!(MacroName::Atom(a.clone()) == MacroName::Atom(b));
    assert!(MacroName::Atom(a) != MacroName::Atom(tokens("bar").remove(0)));
}

#[test]
fn define_then_call_gives_the_replacement() {
    assert_eq!(texts("-define(N, a + b * c). x(?N)."), ["x", "(", "a", "+", "b", "*", "c", ")", "."]);
}

#[test]
fn plain_input_comes_out_unchanged_twice() {
    let input = tokens("f(X) -> X + 1. % done\ng() -> [a, {b}].");
    let once = preprocess(input.clone()).unwrap();
    let twice = preprocess(once.clone()).unwrap();
    let texts_of = |v: &Vec<Token>| v.iter().map(|t| t.text.clone()).collect::<Vec<_>>();
    assert_eq!(texts_of(&once), texts_of(&input));
    assert_eq!(texts_of(&twice), texts_of(&input));
}

#[test]
fn macro_calls_are_logged_in_source_order() {
    let mut pp = Preprocessor::new(tokens("-define(A, 1). -define(B(X), X). ?A. ?B(?A). ?A."));
    pp.collect_tokens().unwrap();
    let calls = pp.macro_calls().iter();
    assert_eq!(calls.len(), 3);
    for w in calls.windows(2) {
        assert!(w[0].0.offset < w[1].0.offset);
    }
    assert_eq!(pp.directives().len(), 2);
}

#[test]
fn directives_are_logged() {
    let mut pp = Preprocessor::new(tokens("-ifdef(X). -else. -endif. -error(\"e\"). -warning(\"w\")."));
    pp.collect_tokens().unwrap();
    let d = pp.directives().iter();
    assert_eq!(d.len(), 5);
    assert!(matches!(d[0].1, Directive::Ifdef(_)));
    assert!(matches!(d[3].1, Directive::Error(_)));
    assert!(matches!(d[4].1, Directive::Warning(_)));
}

#[test]
fn else_without_ifdef_fails() {
    assert!(matches!(run("-else."), Err(Error::MissingIfDirective { .. })));
    assert!(matches!(run("-endif."), Err(Error::MissingIfDirective { .. })));
    assert!(matches!(run("-ifdef(X). -else. -else. -endif."), Err(Error::MissingIfDirective { .. })));
}

#[test]
fn dot_inside_replacement_fails() {
    assert!(matches!(run("-define(X, a. b)."), Err(Error::UnexpectedDotInMacroDef { .. })));
}

#[test]
fn empty_argument_fails() {
    assert!(matches!(run("-define(F(A, B), A). ?F(1,,2)."), Err(Error::MissingMacroArg { .. })));
}

#[test]
fn unbalanced_bracket_fails() {
    assert!(matches!(run("-define(F(A), A). ?F(])."), Err(Error::UnbalancedParen { open: None, .. })));
    assert!(matches!(run("-define(F(A), A). ?F([)."), Err(Error::UnbalancedParen { open: Some(_), .. })));
}

#[test]
fn argument_count_must_match() {
    assert!(matches!(run("-define(F(A), A). ?F(1, 2)."), Err(Error::MacroArgsMismatched { .. })));
}

#[test]
fn stringify_of_unknown_variable_fails() {
    assert!(matches!(run("-define(S(X), ??Y). ?S(1)."), Err(Error::UndefinedMacroVar { .. })));
}

#[test]
fn unfinished_directive_fails() {
    assert!(matches!(run("-define(X"), Err(Error::UnexpectedEof)));
    assert!(matches!(run("-undef(1)."), Err(Error::UnexpectedToken { .. })));
}

#[test]
fn call_without_a_name_fails() {
    assert!(matches!(run("? 1."), Err(Error::UnexpectedToken { .. })));
}

#[test]
fn self_calling_macro_stops() {
    assert!(matches!(run("-define(A, ?A). ?A."), Err(Error::ExpansionLimit { .. })));
}

#[test]
fn other_attributes_pass_through() {
    assert_eq!(texts("-module(m). -export([f/0])."), ["-", "module", "(", "m", ")", ".", "-", "export", "(", "[", "f", "/", "0", "]", ")", "."]);
}

#[test]
fn dynamic_and_configured_macros() {
    let mut pp = Preprocessor::new(tokens("?MODULE. ?VSN. ?MODULE_STRING."));
    pp.macros_mut().insert("VSN".to_string(), MacroDef::Dynamic(tokens("\"1.0\"")));
    pp.predefined_mut().module = Some("my_mod".to_string());
    let out: Vec<Token> = pp.collect_tokens().unwrap().into_iter().filter(|t| t.kind != Kind::Whitespace).collect();
    assert_eq!(out[0].kind, Kind::Atom);
    assert_eq!(out[0].text, "my_mod");
    assert_eq!(out[2].text, "\"1.0\"");
    assert_eq!(out[4].kind, Kind::String);
    assert_eq!(out[4].value, "my_mod");
}

#[test]
fn module_without_value_is_looked_up() {
    assert!(matches!(run("?MODULE."), Err(Error::UndefinedMacro { .. })));
    assert_eq!(texts("-define(MODULE, m). ?MODULE."), ["m", "."]);
}

#[test]
fn include_is_handed_to_the_caller() {
    let mut pp = Preprocessor::new(tokens("a. -include(\"inc.hrl\"). c."));
    let mut out = Vec::new();
    loop {
        match pp.next_event().unwrap() {
            None => break,
            Some(Event::Token(t)) => out.push(t),
            Some(Event::Include(Directive::Include(d))) => {
                assert_eq!(d.path.value, "inc.hrl");
                pp.add_included_text("inc.hrl".to_string(), "b. ?FILE.").unwrap();
            }
            Some(other) => panic!("unexpected: {:?}", other),
        }
    }
    let out: Vec<Token> = out.into_iter().filter(|t| t.kind != Kind::Whitespace).collect();
    let t: Vec<&str> = out.iter().map(|t| t.text.as_str()).collect();
    assert_eq!(t, ["a", ".", "b", ".", "\"inc.hrl\"", ".", "c", "."]);
    assert_eq!(out[2].position.filepath.as_deref(), Some("inc.hrl"));
}

#[test]
fn collect_reports_an_unresolved_include() {
    match run("-include(\"x.hrl\").") {
        Err(Error::IncludeFileError { target_file_path, .. }) => assert_eq!(target_file_path, "x.hrl"),
        other => panic!("unexpected: {:?}", other),
    }
}

#[test]
fn masked_include_is_not_requested() {
    assert_eq!(texts("-ifdef(X). -include(\"x.hrl\"). -endif. ok."), ["ok", "."]);
}

#[test]
fn tokenizer_decodes_values() {
    let t = tokens("'foo bar' \"a\\nb\" X");
    assert_eq!(t[0].kind, Kind::Atom);
    assert_eq!(t[0].text, "'foo bar'");
    assert_eq!(t[0].value, "foo bar");
    assert_eq!(t[2].kind, Kind::String);
    assert_eq!(t[2].value, "a\nb");
    assert_eq!(t[4].kind, Kind::Variable);
    assert_eq!(t[1].kind, Kind::Whitespace);
}

#[test]
fn tokenizer_positions_and_errors() {
    let t = tokenize("a.\n  b", Some("f.erl".to_string())).unwrap();
    let b = t.iter().find(|t| t.text == "b").unwrap();
    assert_eq!((b.position.line, b.position.column, b.position.offset), (2, 3, 5));
    assert_eq!(b.position.filepath.as_deref(), Some("f.erl"));
    assert!(tokenize("\"unterminated", None).is_err());
    let mut pp = Preprocessor::new(tokens("ok."));
    assert!(matches!(pp.add_included_text("bad.hrl".to_string(), "'oops"), Err(Error::TokenizeError { .. })));
}

#[test]
fn symbols_are_told_apart() {
    let t = tokens("( ) [ ] { } << >> , . - ? ?? :");
    let kinds: Vec<Kind> = t.iter().filter(|t| t.kind != Kind::Whitespace).map(|t| t.kind).collect();
    assert_eq!(
        kinds,
        [
            Kind::Symbol(Symbol::OpenParen),
            Kind::Symbol(Symbol::CloseParen),
            Kind::Symbol(Symbol::OpenSquare),
            Kind::Symbol(Symbol::CloseSquare),
            Kind::Symbol(Symbol::OpenBrace),
            Kind::Symbol(Symbol::CloseBrace),
            Kind::Symbol(Symbol::DoubleLeftAngle),
            Kind::Symbol(Symbol::DoubleRightAngle),
            Kind::Symbol(Symbol::Comma),
            Kind::Symbol(Symbol::Dot),
            Kind::Symbol(Symbol::Hyphen),
            Kind::Symbol(Symbol::Question),
            Kind::Symbol(Symbol::Question),
            Kind::Symbol(Symbol::Question),
            Kind::Symbol(Symbol::Other),
        ]
    );
}

#[test]
fn step_reports_each_kind_of_step() {
    let mut pp = Preprocessor::new(tokens("-define(A, x). ?A"));
    assert!(matches!(pp.step().unwrap(), Step::Directive(Directive::Define(_), false)));
    assert!(matches!(pp.step().unwrap(), Step::Token(_)));
    assert!(matches!(pp.step().unwrap(), Step::Call(_)));
    match pp.step().unwrap() {
        Step::Token(t) => assert_eq!(t.text, "x"),
        other => panic!("unexpected: {:?}", other),
    }
    assert!(matches!(pp.step().unwrap(), Step::End));
    let mut pp = Preprocessor::new(tokens("-ifdef(X). a"));
    assert!(matches!(pp.step().unwrap(), Step::Directive(Directive::Ifdef(_), false)));
    assert!(matches!(pp.step().unwrap(), Step::Skipped));
    assert!(matches!(pp.step().unwrap(), Step::Skipped));
}

#[test]
fn directives_and_calls_give_back_their_text() {
    let mut pp = Preprocessor::new(tokens("-define(Foo (A, B), [bar, A, baz, B]). -ifdef(Foo). -else. -endif. ?Foo(1, {2, 3})."));
    pp.collect_tokens().unwrap();
    let d: Vec<String> = pp.directives().iter().iter().map(|(_, d)| d.to_text()).collect();
    assert_eq!(d, ["-define(Foo(A,B), [bar,A,baz,B]).", "-ifdef(Foo).", "-else.", "-endif."]);
    let c: Vec<String> = pp.macro_calls().iter().iter().map(|(_, c)| c.to_text()).collect();
    assert_eq!(c, ["?Foo(1,{2,3})"]);
    let mut pp = Preprocessor::new(tokens("-include(\"a.hrl\"). -undef(X). -error(\"e\")."));
    let _ = pp.next_event();
    assert_eq!(pp.directives().iter()[0].1.to_text(), "-include(\"a.hrl\").");
}

#[test]
fn included_entries_keep_those_of_the_including_file() {
    let mut pp = Preprocessor::new(tokens("-include(\"a.hrl\"). ok."));
    loop {
        match pp.next_event().unwrap() {
            None => break,
            Some(Event::Include(_)) => pp.add_included_text("a.hrl".to_string(), "-define(X, 1).").unwrap(),
            Some(Event::Token(_)) => {}
        }
    }
    let d = pp.directives().iter();
    assert_eq!(d.len(), 2);
    assert!(matches!(d[0].1, Directive::Include(_)));
    assert!(matches!(d[1].1, Directive::Define(_)));
    assert_eq!(d[0].0.offset, d[1].0.offset);
}

#[test]
fn failing_call_is_not_logged() {
    let mut pp = Preprocessor::new(tokens("?X."));
    assert!(pp.collect_tokens().is_err());
    assert_eq!(pp.macro_calls().len(), 0);
}

#[test]
fn plain_input_logs_nothing() {
    let mut pp = Preprocessor::new(tokens("a - define. b."));
    pp.collect_tokens().unwrap();
    assert_eq!(pp.macro_calls().len(), 0);
    assert_eq!(pp.directives().len(), 0);
}

#[test]
fn unbalanced_bracket_names_the_opener() {
    match run("-define(F(A), A). ?F([)).") {
        Err(Error::UnbalancedParen { open: Some(o), close }) => {
            assert_eq!(o.text, "[");
            assert_eq!(close.text, ")");
        }
        other => panic!("unexpected: {:?}", other),
    }
}

#[test]
fn line_number_in_decimal() {
    let mut src = String::new();
    for _ in 0..122 {
        src.push('\n');
    }
    src.push_str("?LINE.");
    assert_eq!(texts(&src), ["123", "."]);
}
