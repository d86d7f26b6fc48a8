//! The preprocessor: consumes directives, masks conditional arms, expands macro calls.
use vstd::prelude::*;
use crate::directive::{same_directive, Directive};
use crate::args::args_from;
use crate::directive_reader::{dir_reports, directive_at, payload_fault, reads_directive, try_read_directive, DirectiveKind};
use crate::error::Error;
use crate::expand::{args_view, call_at, call_expands, call_read_error, fault_is, Fault, predefined_answers, takes_args, user_defined_call, expand_macro, free_of_calls, is_predefined, simple_expansion, substituted, try_read_macro_call, PredefinedInputs, EXPANSION_LIMIT, NESTING_LIMIT};
use crate::macros::{same_call, MacroCall, MacroDef, Macros};
use crate::position_map::{file_of, key_lt, logged, pos_lt, same_place, PositionMap};
use crate::text::decimal;
use crate::token::{Kind, is_hidden, is_symbol, lexes, token_texts, tokenize, Symbol, Token};
use crate::token_reader::{at_symbol, name_at, skip_hidden};
use crate::types::MacroName;

verus! {

/// One open conditional: which arm the tokens are in, and whether they are kept.
#[derive(Clone, Copy, Debug, PartialEq, Eq, Structural)]
pub struct Branch {
    pub then_branch: bool,
    pub entered: bool,
}

impl Branch {
    /// A conditional that has just opened, in its `then` arm.
    pub fn new(entered: bool) -> (r: Branch)
        ensures
            r == (Branch { then_branch: true, entered }),
    {
        Branch { then_branch: true, entered }
    }

    /// Moves to the `else` arm, which is kept exactly when the `then` arm was not;
    /// returns `false`, changing nothing, when already there.
    pub fn switch_to_else_branch(&mut self) -> (r: bool)
        ensures
            r == old(self).then_branch,
            r ==> *final(self) == (Branch { then_branch: false, entered: !old(self).entered }),
            !r ==> *final(self) == *old(self),
    {
        if self.then_branch {
            self.then_branch = false;
            self.entered = !self.entered;
            true
        } else {
            false
        }
    }
}

/// Tokens are dropped: some open conditional is in an arm that is not kept.
pub open spec fn masked(branches: Seq<Branch>) -> bool {
    exists|i: int| 0 <= i < branches.len() && !(#[trigger] branches[i]).entered
}

/// What carrying out the directive `d` does: from the macros `env` and the open
/// conditionals `br` to `env2` and `br2`, with the result `r` (`Ok(true)`: an include
/// to resolve).
pub open spec fn directive_effect(
    env: Map<Seq<char>, MacroDef>,
    br: Seq<Branch>,
    d: Directive,
    env2: Map<Seq<char>, MacroDef>,
    br2: Seq<Branch>,
    r: Result<bool, Error>,
) -> bool {
    let ok = r == Ok::<bool, Error>(false);
    match d {
        Directive::Include(_) | Directive::IncludeLib(_) => {
            &&& r == Ok::<bool, Error>(!masked(br))
            &&& env2 == env
            &&& br2 == br
        },
        Directive::Define(x) => {
            let name = x.macro_name.spec_value();
            &&& ok
            &&& br2 == br
            &&& masked(br) ==> env2 == env
            &&& !masked(br) ==> env2.contains_key(name) && env2 == env.insert(name, env2[name]) && defines_as(
                env2[name],
                x,
            )
        },
        Directive::Undef(x) => {
            &&& ok
            &&& br2 == br
            &&& env2 == if masked(br) {
                env
            } else {
                env.remove(x.macro_name.spec_value())
            }
        },
        Directive::Ifdef(x) => {
            &&& ok
            &&& env2 == env
            &&& br2 == br.push(Branch { then_branch: true, entered: env.contains_key(x.macro_name.spec_value()) })
        },
        Directive::Ifndef(x) => {
            &&& ok
            &&& env2 == env
            &&& br2 == br.push(Branch { then_branch: true, entered: !env.contains_key(x.macro_name.spec_value()) })
        },
        Directive::Else(_) => {
            &&& env2 == env
            &&& if br.len() > 0 && br.last().then_branch {
                ok && br2 == br.drop_last().push(Branch { then_branch: false, entered: !br.last().entered })
            } else {
                r matches Err(e) && e is MissingIfDirective
            }
        },
        Directive::Endif(_) => {
            &&& env2 == env
            &&& if br.len() > 0 {
                ok && br2 == br.drop_last()
            } else {
                r matches Err(e) && e is MissingIfDirective
            }
        },
        Directive::Error(_) | Directive::Warning(_) => {
            &&& ok
            &&& env2 == env
            &&& br2 == br
        },
    }
}

/// `def` is the definition that the `-define` directive `x` makes: its name, its
/// variables and its replacement.
pub open spec fn defines_as(def: MacroDef, x: crate::directives::Define) -> bool {
    &&& def is Static
    &&& def->Static_0.macro_name == x.macro_name
    &&& def->Static_0.replacement@ == x.replacement@
    &&& (def->Static_0.variables is Some <==> x.variables is Some)
    &&& (x.variables is Some ==> def->Static_0.variables->Some_0.list@ == x.variables->Some_0.list@)
}

/// From `k` on, where `elig` tells whether a directive may start at `k` (as after a
/// `.`): no directive starts where one may, and no token is `?`.
pub open spec fn plain_run(s: Seq<Token>, k: int, elig: bool) -> bool
    decreases s.len() - k,
{
    if k < 0 || k >= s.len() {
        true
    } else {
        &&& !(elig && directive_at(s, k) is Some)
        &&& !is_symbol(s[k], Symbol::Question)
        &&& plain_run(
            s,
            k + 1,
            if is_hidden(s[k]) {
                elig
            } else {
                is_symbol(s[k], Symbol::Dot)
            },
        )
    }
}

/// One step of preprocessing.
#[derive(Debug)]
pub enum Step {
    /// An output token.
    Token(Token),
    /// A directive was read and carried out; `true` where it is an include that the
    /// caller has to resolve.
    Directive(Directive, bool),
    /// A macro call was read and expanded; what it expands to comes next.
    Call(MacroCall),
    /// A token was read and dropped, since a conditional masks it.
    Skipped,
    /// The tokens are all read.
    End,
}

/// The replacement that a call of `n` expands to as it stands: `n` is a macro defined
/// by `-define` without variables, and no token of its replacement is `?` or `??`.
pub open spec fn plain_replacement(env: Map<Seq<char>, MacroDef>, n: MacroName) -> Option<Seq<Token>> {
    let v = n.spec_value();
    if !is_predefined(v) && env.contains_key(v) && env[v] is Static {
        let d = env[v]->Static_0;
        if d.variables is None && free_of_calls(d.replacement@) {
            Some(d.replacement@)
        } else {
            None
        }
    } else {
        None
    }
}

/// The tokens of the macro that the call `c` names, where it is given as tokens (and
/// no predefined macro answers it).
pub open spec fn dynamic_replacement(env: Map<Seq<char>, MacroDef>, pre: PredefinedInputs, c: MacroCall) -> Option<
    Seq<Token>,
> {
    let v = c.name.spec_value();
    if user_defined_call(c, pre) && env.contains_key(v) && env[v] is Dynamic {
        Some(env[v]->Dynamic_0@)
    } else {
        None
    }
}

/// What the call `c` expands to as it stands: `c` calls a macro defined by `-define`
/// with variables, with as many arguments, and no token of the replacement nor of an
/// argument is `?` or `??`; each variable is replaced by its argument.
pub open spec fn call_expansion(env: Map<Seq<char>, MacroDef>, c: MacroCall) -> Option<Seq<Token>> {
    let v = c.name.spec_value();
    if !is_predefined(v) && env.contains_key(v) && env[v] is Static {
        let d = env[v]->Static_0;
        if d.variables is Some && c.args is Some && d.variables->Some_0.list.len() == c.args->Some_0.list.len()
            && simple_expansion(d.replacement@, c.args->Some_0.spec_args(), EXPANSION_LIMIT, NESTING_LIMIT) {
            Some(substituted(d.replacement@, d.variables->Some_0.list@, c.args->Some_0.spec_args()))
        } else {
            None
        }
    } else {
        None
    }
}

/// Why the directive that starts at `c` fails: a fault of its payload, or an `-else`
/// or `-endif` that no open conditional (of `br`) takes.
pub open spec fn directive_fails(s: Seq<Token>, c: int, br: Seq<Branch>, e: Error) -> bool {
    let kind = directive_at(s, c)->Some_0;
    match payload_fault(s, skip_hidden(s, c + 1), kind) {
        Some(f) => dir_reports(s, f, e),
        None => e is MissingIfDirective && (kind == DirectiveKind::Else && !(br.len() > 0 && br.last().then_branch)
            || kind == DirectiveKind::Endif && br.len() == 0),
    }
}

/// Expanding a call of `n` with the arguments `a`, whose `?` is `q`, succeeds: a
/// predefined macro answers it, or it calls a macro given as tokens, or a macro of
/// `-define` without variables and without arguments, or with as many arguments as
/// variables, where no token of the replacement or of an argument is `?` or `??`.
pub open spec fn call_succeeds(
    env: Map<Seq<char>, MacroDef>,
    pre: PredefinedInputs,
    q: Token,
    n: MacroName,
    a: Option<Seq<Seq<Token>>>,
) -> bool {
    let c = MacroCall { question: q, name: n, args: None };
    let v = n.spec_value();
    predefined_answers(c, pre) || user_defined_call(c, pre) && env.contains_key(v) && match env[v] {
        MacroDef::Dynamic(_) => true,
        MacroDef::Static(d) => d.variables is None && a is None && free_of_calls(d.replacement@)
            || d.variables is Some && a is Some && d.variables->Some_0.list.len() == a->Some_0.len()
            && simple_expansion(d.replacement@, a->Some_0, EXPANSION_LIMIT, NESTING_LIMIT),
    }
}

/// What one step does: from the preprocessor `pa` to `pb`, with the result `r` (see
/// `Preprocessor::step`).
#[verifier::opaque]
pub open spec fn step_post(pa: Preprocessor, pb: Preprocessor, r: Result<Step, Error>) -> bool {
    &&& (pb.wf())
    &&& (pb.stream() == pa.stream())
    &&& (pa.cursor() <= pb.cursor())
    &&& (pb.read_count() == pa.read_count() + (pb.cursor() - pa.cursor()))
    &&& (r matches Ok(Step::Directive(_, _)) ==> pb.counts() == (pa.counts().0, pa.counts().1
            + (pb.cursor() - pa.cursor()) as nat, pa.counts().2, pa.counts().3))
    &&& (r matches Ok(Step::Call(_)) ==> pb.counts() == (pa.counts().0, pa.counts().1,
            pa.counts().2 + (pb.cursor() - pa.cursor()) as nat, pa.counts().3))
    &&& (r matches Ok(Step::Skipped) ==> pb.counts() == (pa.counts().0, pa.counts().1,
            pa.counts().2, pa.counts().3 + 1))
    &&& (r matches Ok(Step::Token(_)) && pb.cursor() > pa.cursor() ==> pb.counts() == (
            pa.counts().0 + 1, pa.counts().1, pa.counts().2, pa.counts().3))
    &&& (r matches Ok(Step::Token(_)) && pb.cursor() == pa.cursor() ==> pb.counts()
            == pa.counts())
    &&& (pa.queued().len() > 0 ==> (r matches Ok(Step::Token(t)) && t == pa.queued()[0])
            && pb.queued() == pa.queued().drop_first()
            && pb.cursor() == pa.cursor() && pb.eligible() == pa.eligible()
            && pb.env() == pa.env() && pb.open_branches() == pa.open_branches())
    &&& (pa.queued().len() == 0 && pa.at_directive() ==> match r {
            Err(e) => directive_fails(pa.stream(), pa.cursor(), pa.open_branches(), e)
                && pb.same_logs(&pa),
            Ok(Step::Directive(d, resolve)) => {
                &&& reads_directive(pa.stream(), pa.cursor(), d, pb.cursor())
                &&& pb.cursor() > pa.cursor()
                &&& directive_effect(pa.env(), pa.open_branches(), d, pb.env(), pb.open_branches(), Ok(resolve))
                &&& pb.queued().len() == 0
                &&& pb.eligible() == pa.eligible()
                &&& pb.call_log() == pa.call_log()
                &&& exists|dl: Directive| logged(pa.directive_log(), pb.directive_log(), d.hyphen().position, dl)
                    && same_directive(dl, d)
            },
            Ok(_) => false,
        })
    &&& (pa.queued().len() == 0 && !pa.at_directive() && !masked(pa.open_branches())
            && pa.cursor() < pa.stream().len()
            && is_symbol(pa.stream()[pa.cursor()], Symbol::Question) ==> match r {
            Err(e) => pb.same_logs(&pa) && pb.env() == pa.env() && pb.open_branches() == pa.open_branches()
                && !(call_at(pa.env(), pa.stream(), pa.cursor()) matches Some((n, a)) && call_succeeds(pa.env(),
                pa.spec_predefined(), pa.stream()[pa.cursor()], n, a)) && match call_at(pa.env(), pa.stream(), pa.cursor()) {
                None => call_read_error(pa.env(), pa.stream(), pa.cursor(), e),
                Some((n, a)) => exists|f: Fault| fault_is(pa.env(), f, e) && #[trigger] call_expands(pa.env(), pa.spec_predefined(),
                    pa.stream()[pa.cursor()], n, a, EXPANSION_LIMIT as nat, NESTING_LIMIT as nat, Err(f)),
            },
            Ok(Step::Call(call)) => {
                &&& call.question == pa.stream()[pa.cursor()]
                &&& exists|left: nat| #[trigger] call_expands(pa.env(), pa.spec_predefined(), call.question, call.name,
                    args_view(call), EXPANSION_LIMIT as nat, NESTING_LIMIT as nat, Ok((pb.queued(), left)))
                &&& name_at(pa.stream(), pa.cursor() + 1) == Some(call.name)
                &&& call_at(pa.env(), pa.stream(), pa.cursor()) == Some((call.name,
                    match call.args {
                        Some(a) => Some(a.spec_args()),
                        None => None,
                    }))
                &&& pb.cursor() > pa.cursor()
                &&& pb.env() == pa.env()
                &&& pb.open_branches() == pa.open_branches()
                &&& pb.eligible() == pa.eligible()
                &&& plain_replacement(pa.env(), call.name) matches Some(rep) ==> pb.queued() == rep
                &&& call_expansion(pa.env(), call) matches Some(rep) ==> pb.queued() == rep
                &&& dynamic_replacement(pa.env(), pa.spec_predefined(), call) matches Some(rep) ==> pb.queued() == rep
                &&& call.name.spec_value() == "LINE"@ ==> pb.queued().len() == 1 && pb.queued()[0].kind == Kind::Integer
                    && pb.queued()[0].text@ == decimal(call.question.position.line as nat)
                &&& pb.directive_log() == pa.directive_log()
                &&& exists|cl: MacroCall| logged(pa.call_log(), pb.call_log(), call.question.position, cl)
                    && same_call(cl, call)
            },
            Ok(_) => false,
        })
    &&& (pa.queued().len() == 0 && !pa.at_directive() && pa.cursor() < pa.stream().len()
            && (masked(pa.open_branches()) || !is_symbol(pa.stream()[pa.cursor()], Symbol::Question))
            ==> pb.cursor() == pa.cursor() + 1 && pb.env() == pa.env()
            && pb.open_branches() == pa.open_branches() && pb.queued().len() == 0
            && if masked(pa.open_branches()) {
                r matches Ok(Step::Skipped) && pb.eligible() == pa.eligible()
            } else {
                (r matches Ok(Step::Token(t)) && t == pa.stream()[pa.cursor()])
                && pb.eligible() == if is_hidden(pa.stream()[pa.cursor()]) {
                    pa.eligible()
                } else {
                    is_symbol(pa.stream()[pa.cursor()], Symbol::Dot)
                }
            })
    &&& (pa.queued().len() == 0 && !pa.at_directive() && pa.cursor() >= pa.stream().len()
            ==> r matches Ok(Step::End))
    &&& (r matches Ok(Step::End) ==> pb.queued().len() == 0 && pb.pending().len() == 0)
    &&& ((r matches Ok(Step::Token(_)) || r matches Ok(Step::Skipped) || r matches Ok(Step::End))
            ==> pb.same_logs(&pa))
}

/// `p` is a preprocessor just made over `tokens`: nothing read, nothing defined,
/// nothing logged, no predefined input set.
pub open spec fn fresh_over(p: Preprocessor, tokens: Seq<Token>) -> bool {
    &&& p.wf()
    &&& p.stream() == tokens
    &&& p.cursor() == 0
    &&& p.queued().len() == 0
    &&& p.eligible()
    &&& p.env() == Map::<Seq<char>, MacroDef>::empty()
    &&& p.open_branches().len() == 0
    &&& p.call_log().len() == 0
    &&& p.directive_log().len() == 0
    &&& p.spec_predefined() == (PredefinedInputs { module: None, function_name: None, function_arity: None })
}

/// What `next_event` returns when a step has the result `res`; `None` where it reads on.
pub open spec fn event_of(res: Result<Step, Error>) -> Option<Result<Option<Event>, Error>> {
    match res {
        Err(e) => Some(Err(e)),
        Ok(Step::Token(t)) => Some(Ok(Some(Event::Token(t)))),
        Ok(Step::Directive(d, true)) => Some(Ok(Some(Event::Include(d)))),
        Ok(Step::End) => Some(Ok(None)),
        Ok(_) => None,
    }
}

/// The tokens that the steps `outs` hand out, in order.
pub open spec fn handed_out(outs: Seq<Step>) -> Seq<Token>
    decreases outs.len(),
{
    if outs.len() == 0 {
        Seq::empty()
    } else {
        match outs.last() {
            Step::Token(t) => handed_out(outs.drop_last()).push(t),
            _ => handed_out(outs.drop_last()),
        }
    }
}

/// `states` is a run of steps with the results `outs`, from `states[0]` on; no step
/// of it is an include left to resolve.
pub open spec fn run_of(states: Seq<Preprocessor>, outs: Seq<Step>) -> bool {
    &&& states.len() == outs.len() + 1
    &&& forall|i: int| 0 <= i < outs.len() ==> step_post(states[i], states[i + 1], Ok(#[trigger] outs[i]))
    &&& forall|i: int| 0 <= i < outs.len() ==> !(#[trigger] outs[i] matches Step::Directive(_, true))
}

/// What the preprocessor hands its caller.
#[derive(Debug)]
pub enum Event {
    /// The next output token.
    Token(Token),
    /// An `-include` or `-include_lib` to resolve: the caller reads the file and
    /// hands its text to `add_included_text` before asking for the next event.
    Include(Directive),
}

/// Erlang source code preprocessor.
///
/// It reads tokens and yields the tokens that remain once every directive is consumed
/// and every macro call is expanded.
pub struct Preprocessor {
    tokens: Vec<Token>,
    pos: usize,
    can_directive_start: bool,
    directives: PositionMap<Directive>,
    code_paths: Vec<String>,
    branches: Vec<Branch>,
    macros: Macros,
    macro_calls: PositionMap<MacroCall>,
    expanded: Vec<Token>,
    expanded_pos: usize,
    predefined: PredefinedInputs,
    /// Tokens of the stream handed out, taken by directives, taken by macro calls,
    /// and dropped in masked arms.
    tally: Ghost<(nat, nat, nat, nat)>,
    /// Tokens read before the last included text was put in front of the stream.
    read_before: Ghost<nat>,
}

impl Preprocessor {
    /// The cursors stand inside their sequences, the logs are in source order, and
    /// every token read is counted once.
    pub closed spec fn wf(&self) -> bool {
        &&& self.pos <= self.tokens.len()
        &&& self.expanded_pos <= self.expanded.len()
        &&& self.directives.wf()
        &&& self.macro_calls.wf()
        &&& forall|i: int| 0 <= i < self.macro_calls.entries@.len() ==> (#[trigger] self.macro_calls.entries@[i]).0
            == self.macro_calls.entries@[i].1.question.position
        &&& forall|i: int| 0 <= i < self.directives.entries@.len() ==> (#[trigger] self.directives.entries@[i]).0
            == self.directives.entries@[i].1.hyphen().position
        &&& self.tally@.0 + self.tally@.1 + self.tally@.2 + self.tally@.3 == self.read_before@ + self.pos
    }

    /// How many tokens read so far were handed out, taken by directives, taken by
    /// macro calls, and dropped in masked arms.
    pub closed spec fn counts(&self) -> (nat, nat, nat, nat) {
        self.tally@
    }

    /// How many tokens were read so far, from the stream and from included texts.
    pub closed spec fn read_count(&self) -> nat {
        (self.read_before@ + self.pos) as nat
    }

    /// The tokens still to be read.
    pub closed spec fn pending(&self) -> Seq<Token> {
        self.tokens@.subrange(self.pos as int, self.tokens.len() as int)
    }

    /// All tokens, read and unread.
    pub closed spec fn stream(&self) -> Seq<Token> {
        self.tokens@
    }

    /// Where reading stands in `stream()`.
    pub closed spec fn cursor(&self) -> int {
        self.pos as int
    }

    /// The tokens of the last expansion still to be handed out.
    pub closed spec fn queued(&self) -> Seq<Token> {
        self.expanded@.subrange(self.expanded_pos as int, self.expanded.len() as int)
    }

    /// A directive may start at the next token: at the start, and after a `.`.
    pub closed spec fn eligible(&self) -> bool {
        self.can_directive_start
    }

    /// The macros defined so far, by decoded name.
    pub closed spec fn env(&self) -> Map<Seq<char>, MacroDef> {
        self.macros@
    }

    /// The conditionals open so far, innermost last.
    pub closed spec fn open_branches(&self) -> Seq<Branch> {
        self.branches@
    }

    /// The macro calls read so far, by position.
    pub closed spec fn call_log(&self) -> Seq<(crate::token::Position, MacroCall)> {
        self.macro_calls.entries@
    }

    /// The directives read so far, by position.
    pub closed spec fn directive_log(&self) -> Seq<(crate::token::Position, Directive)> {
        self.directives.entries@
    }

    /// The directories searched for `-include_lib`.
    pub closed spec fn spec_code_paths(&self) -> Vec<String> {
        self.code_paths
    }

    /// The macro environment.
    pub closed spec fn spec_macros(&self) -> Macros {
        self.macros
    }

    /// The values of the configurable predefined macros.
    pub closed spec fn spec_predefined(&self) -> PredefinedInputs {
        self.predefined
    }

    /// `self` and `o` differ at most in their code paths.
    pub closed spec fn same_but_code_paths(&self, o: &Preprocessor) -> bool {
        &&& self.tokens == o.tokens
        &&& self.pos == o.pos
        &&& self.can_directive_start == o.can_directive_start
        &&& self.directives == o.directives
        &&& self.branches == o.branches
        &&& self.macros == o.macros
        &&& self.macro_calls == o.macro_calls
        &&& self.expanded == o.expanded
        &&& self.expanded_pos == o.expanded_pos
        &&& self.predefined == o.predefined
        &&& self.tally == o.tally
        &&& self.read_before == o.read_before
    }

    /// `self` and `o` differ at most in their macros.
    pub closed spec fn same_but_macros(&self, o: &Preprocessor) -> bool {
        &&& self.tokens == o.tokens
        &&& self.pos == o.pos
        &&& self.can_directive_start == o.can_directive_start
        &&& self.directives == o.directives
        &&& self.code_paths == o.code_paths
        &&& self.branches == o.branches
        &&& self.macro_calls == o.macro_calls
        &&& self.expanded == o.expanded
        &&& self.expanded_pos == o.expanded_pos
        &&& self.predefined == o.predefined
        &&& self.tally == o.tally
        &&& self.read_before == o.read_before
    }

    /// `self` and `o` differ at most in their predefined inputs.
    pub closed spec fn same_but_predefined(&self, o: &Preprocessor) -> bool {
        &&& self.tokens == o.tokens
        &&& self.pos == o.pos
        &&& self.can_directive_start == o.can_directive_start
        &&& self.directives == o.directives
        &&& self.code_paths == o.code_paths
        &&& self.branches == o.branches
        &&& self.macros == o.macros
        &&& self.macro_calls == o.macro_calls
        &&& self.expanded == o.expanded
        &&& self.expanded_pos == o.expanded_pos
    }

    /// Makes a preprocessor over `tokens`.
    pub fn new(tokens: Vec<Token>) -> (r: Preprocessor)
        ensures
            r.wf(),
            r.stream() == tokens@,
            r.cursor() == 0,
            r.pending() == tokens@,
            r.queued().len() == 0,
            r.eligible(),
            r.env() == Map::<Seq<char>, MacroDef>::empty(),
            r.open_branches().len() == 0,
            r.call_log().len() == 0,
            r.directive_log().len() == 0,
            fresh_over(r, tokens@),
    {
        let r = Preprocessor {
            tokens,
            pos: 0,
            can_directive_start: true,
            directives: PositionMap::new(),
            code_paths: Vec::new(),
            branches: Vec::new(),
            macros: Macros::new(),
            macro_calls: PositionMap::new(),
            expanded: Vec::new(),
            expanded_pos: 0,
            predefined: PredefinedInputs { module: None, function_name: None, function_arity: None },
            tally: Ghost((0, 0, 0, 0)),
            read_before: Ghost(0),
        };
        assert(r.tokens@.subrange(0, r.tokens.len() as int) =~= r.tokens@);
        r
    }

    fn ignore(&self) -> (r: bool)
        ensures
            r == masked(self.branches@),
    {
        let mut i: usize = 0;
        while i < self.branches.len()
            invariant
                i <= self.branches.len(),
                forall|k: int| 0 <= k < i ==> (#[trigger] self.branches@[k]).entered,
            decreases self.branches.len() - i,
        {
            if !self.branches[i].entered {
                return true;
            }
            i = i + 1;
        }
        false
    }

    /// Carries out the effect of the directive `d`; returns `true` where `d` is an
    /// include that the caller has to resolve.
    fn apply_directive(&mut self, d: &Directive) -> (r: Result<bool, Error>)
        requires
            old(self).wf(),
        ensures
            final(self).wf(),
            final(self).tokens == old(self).tokens,
            final(self).pos == old(self).pos,
            final(self).expanded == old(self).expanded,
            final(self).expanded_pos == old(self).expanded_pos,
            final(self).can_directive_start == old(self).can_directive_start,
            final(self).directives == old(self).directives,
            final(self).macro_calls == old(self).macro_calls,
            final(self).tally == old(self).tally,
            final(self).read_before == old(self).read_before,
            directive_effect(old(self).macros@, old(self).branches@, *d, final(self).macros@, final(self).branches@, r),
    {
        let ignore = self.ignore();
        match d {
            Directive::Include(_) | Directive::IncludeLib(_) => Ok(!ignore),
            Directive::Define(x) => {
                if !ignore {
                    self.macros.insert(x.macro_name.value().clone(), MacroDef::Static(x.duplicate()));
                }
                Ok(false)
            },
            Directive::Undef(x) => {
                if !ignore {
                    self.macros.remove(x.macro_name.value());
                }
                Ok(false)
            },
            Directive::Ifdef(x) => {
                let entered = self.macros.contains_key(x.macro_name.value());
                self.branches.push(Branch::new(entered));
                Ok(false)
            },
            Directive::Ifndef(x) => {
                let entered = !self.macros.contains_key(x.macro_name.value());
                self.branches.push(Branch::new(entered));
                Ok(false)
            },
            Directive::Else(_) => {
                let n = self.branches.len();
                if n == 0 {
                    return Err(Error::MissingIfDirective { directive: d.duplicate() });
                }
                let mut b = self.branches[n - 1];
                if !b.switch_to_else_branch() {
                    return Err(Error::MissingIfDirective { directive: d.duplicate() });
                }
                self.branches.set(n - 1, b);
                assert(self.branches@ =~= old(self).branches@.drop_last().push(b));
                Ok(false)
            },
            Directive::Endif(_) => {
                if self.branches.len() == 0 {
                    return Err(Error::MissingIfDirective { directive: d.duplicate() });
                }
                self.branches.pop();
                Ok(false)
            },
            Directive::Error(_) | Directive::Warning(_) => Ok(false),
        }
    }

    /// `self` and `o` hold the same directive and call logs.
    pub open spec fn same_logs(&self, o: &Preprocessor) -> bool {
        self.directive_log() == o.directive_log() && self.call_log() == o.call_log()
    }

    /// A directive may start at the next token, and one does.
    pub open spec fn at_directive(&self) -> bool {
        self.eligible() && directive_at(self.stream(), self.cursor()) is Some
    }

    /// Reading the next token would hand it straight out: nothing is queued, no
    /// conditional masks it, no directive starts at it, and it is not a `?`.
    pub open spec fn passes_next(&self) -> bool {
        &&& self.queued().len() == 0
        &&& !masked(self.open_branches())
        &&& self.cursor() < self.stream().len()
        &&& (!self.eligible() || directive_at(self.stream(), self.cursor()) is None)
        &&& !is_symbol(self.stream()[self.cursor()], Symbol::Question)
    }

    /// Takes one step of preprocessing.
    ///
    /// A token of the last expansion comes first. Else, where a directive may start
    /// and one does, it is read and carried out. Else, where no conditional masks the
    /// tokens and the next token is `?`, a macro call is read and expanded; what it
    /// expands to is queued. Else the next token is read: handed out, or dropped where
    /// a conditional masks it. At the end of the tokens, `End`.
    pub fn step(&mut self) -> (r: Result<Step, Error>)
        requires
            old(self).wf(),
        ensures
            step_post(*old(self), *final(self), r),
            final(self).wf(),
            final(self).stream() == old(self).stream(),
            old(self).cursor() <= final(self).cursor(),
            r matches Ok(Step::End) ==> final(self).queued().len() == 0 && final(self).pending().len() == 0,
            r is Ok && !(r matches Ok(Step::End)) ==> old(self).cursor() < final(self).cursor()
                || final(self).queued().len() < old(self).queued().len(),
    {
        proof {
            reveal(step_post);
        }
        if self.expanded_pos < self.expanded.len() {
            let t = self.expanded[self.expanded_pos].duplicate();
            self.expanded_pos = self.expanded_pos + 1;
            proof {
                assert(self.queued() =~= old(self).queued().drop_first());
            }
            return Ok(Step::Token(t));
        }
        if self.can_directive_start {
            match try_read_directive(&self.tokens, self.pos) {
                Err(e) => return Err(e),
                Ok(Some((d, j))) => {
                    let ghost t = self.tally@;
                    self.tally = Ghost((t.0, t.1 + (j - self.pos) as nat, t.2, t.3));
                    self.pos = j;
                    let resolve = match self.apply_directive(&d) {
                        Ok(b) => b,
                        Err(e) => return Err(e),
                    };
                    let at = d.start_position().duplicate();
                    self.directives.insert(at, d.duplicate());
                    return Ok(Step::Directive(d, resolve));
                },
                Ok(None) => {},
            }
        }
        if !self.ignore() {
            match try_read_macro_call(&self.tokens, self.pos, &self.macros) {
                Err(e) => return Err(e),
                Ok(Some((call, j))) => {
                    let ghost t = self.tally@;
                    self.tally = Ghost((t.0, t.1, t.2 + (j - self.pos) as nat, t.3));
                    self.pos = j;
                    let (v, left) = match expand_macro(&self.macros, &self.predefined, &call, EXPANSION_LIMIT, NESTING_LIMIT) {
                        Ok(x) => x,
                        Err(e) => {
                            proof {
                                assert(call_at(self.macros@, self.tokens@, old(self).pos as int) == Some((call.name, args_view(call))));
                                let f = choose|f: Fault| fault_is(self.macros@, f, e) && #[trigger] call_expands(self.macros@, self.predefined, call.question, call.name, args_view(call), EXPANSION_LIMIT as nat, NESTING_LIMIT as nat, Err(f));
                                assert(call_expands(self.macros@, self.predefined, old(self).tokens@[old(self).pos as int], call.name, args_view(call), EXPANSION_LIMIT as nat, NESTING_LIMIT as nat, Err(f)));
                            }
                            return Err(e);
                        },
                    };
                    let ghost gv = v@;
                    let at = call.start_position().duplicate();
                    self.macro_calls.insert(at, call.duplicate());
                    self.expanded = v;
                    self.expanded_pos = 0;
                    proof {
                        assert(self.queued() =~= self.expanded@);
                        assert(call_expands(self.macros@, self.predefined, call.question, call.name, args_view(call), EXPANSION_LIMIT as nat, NESTING_LIMIT as nat, Ok((self.queued(), left as nat))));
                    }
                    return Ok(Step::Call(call));
                },
                Ok(None) => {},
            }
        }
        if self.pos >= self.tokens.len() {
            return Ok(Step::End);
        }
        let t = self.tokens[self.pos].duplicate();
        self.pos = self.pos + 1;
        let ghost c = self.tally@;
        if self.ignore() {
            self.tally = Ghost((c.0, c.1, c.2, c.3 + 1));
            return Ok(Step::Skipped);
        }
        self.tally = Ghost((c.0 + 1, c.1, c.2, c.3));
        if !t.is_hidden() {
            self.can_directive_start = t.is_symbol(Symbol::Dot);
        }
        Ok(Step::Token(t))
    }

    /// Returns the next event: an output token, an include to resolve, or `None` at
    /// the end of the tokens.
    ///
    /// Tokens of an expansion come out before anything more is read. Otherwise, where
    /// a directive may start, a directive is read and carried out; where no
    /// conditional masks the tokens, a macro call is read and expanded; else the next
    /// token is handed out, unless a conditional masks it.
    pub fn next_event(&mut self) -> (r: Result<Option<Event>, Error>)
        requires
            old(self).wf(),
        ensures
            final(self).wf(),
            old(self).queued().len() > 0 ==> (r matches Ok(Some(Event::Token(t))) && t == old(self).queued()[0])
                && final(self).queued() == old(self).queued().drop_first()
                && final(self).stream() == old(self).stream() && final(self).cursor() == old(self).cursor()
                && final(self).eligible() == old(self).eligible() && final(self).env() == old(self).env()
                && final(self).open_branches() == old(self).open_branches(),
            old(self).passes_next() ==> (r matches Ok(Some(Event::Token(t)))
                && t == old(self).stream()[old(self).cursor()])
                && final(self).stream() == old(self).stream() && final(self).cursor() == old(self).cursor() + 1
                && final(self).queued().len() == 0 && final(self).env() == old(self).env()
                && final(self).open_branches() == old(self).open_branches()
                && final(self).eligible() == if is_hidden(old(self).stream()[old(self).cursor()]) {
                    old(self).eligible()
                } else {
                    is_symbol(old(self).stream()[old(self).cursor()], Symbol::Dot)
                },
            old(self).queued().len() == 0 && old(self).pending().len() == 0 ==> r matches Ok(None),
            r matches Ok(None) ==> final(self).queued().len() == 0 && final(self).pending().len() == 0,
            final(self).stream() == old(self).stream(),
            old(self).cursor() <= final(self).cursor(),
            (r matches Ok(Some(Event::Token(_)))) ==> old(self).cursor() < final(self).cursor()
                || final(self).queued().len() < old(self).queued().len(),
            exists|states: Seq<Preprocessor>, outs: Seq<Step>, res: Result<Step, Error>| {
                &&& run_of(states, outs)
                &&& states[0] == *old(self)
                &&& step_post(states.last(), *final(self), res)
                &&& event_of(res) == Some(r)
                &&& forall|i: int| 0 <= i < outs.len() ==> event_of(Ok(#[trigger] outs[i])) is None
            },
    {
        let ghost mut states: Seq<Preprocessor> = seq![*self];
        let ghost mut outs: Seq<Step> = Seq::empty();
        loop
            invariant
                run_of(states, outs),
                states[0] == *old(self),
                states.last() == *self,
                forall|i: int| 0 <= i < outs.len() ==> event_of(Ok(#[trigger] outs[i])) is None,
                self.wf(),
                self.stream() == old(self).stream(),
                old(self).cursor() <= self.cursor(),
                self.cursor() != old(self).cursor() ==> old(self).queued().len() == 0 && !old(self).passes_next(),
                self.cursor() == old(self).cursor() ==> self.queued() == old(self).queued()
                    && self.eligible() == old(self).eligible() && self.env() == old(self).env()
                    && self.open_branches() == old(self).open_branches(),
            decreases self.stream().len() - self.cursor(), self.queued().len(),
        {
            reveal(step_post);
            let ghost here = *self;
            let r = self.step();
            let ghost rg = r;
            proof {
                assert(step_post(states.last(), *self, rg));
            }
            match r {
                Err(e) => {
                    let res = Err(e);
                    proof {
                        assert(event_of(rg) == Some(res));
                        assert(run_of(states, outs) && states[0] == *old(self) && step_post(states.last(), *self, rg));
                    }
                    return res;
                },
                Ok(Step::Token(t)) => {
                    let res = Ok(Some(Event::Token(t)));
                    proof {
                        assert(event_of(rg) == Some(res));
                        assert(run_of(states, outs) && states[0] == *old(self) && step_post(states.last(), *self, rg));
                    }
                    return res;
                },
                Ok(Step::Directive(d, resolve)) => {
                    if resolve {
                        let res = Ok(Some(Event::Include(d)));
                    proof {
                        assert(event_of(rg) == Some(res));
                        assert(run_of(states, outs) && states[0] == *old(self) && step_post(states.last(), *self, rg));
                    }
                        return res;
                    }
                },
                Ok(Step::End) => {
                    let res = Ok(None);
                    proof {
                        assert(event_of(rg) == Some(res));
                        assert(run_of(states, outs) && states[0] == *old(self) && step_post(states.last(), *self, rg));
                    }
                    return res;
                },
                Ok(Step::Call(_)) => {},
                Ok(Step::Skipped) => {},
            }
            proof {
                let g = rg->Ok_0;
                let next_states = states.push(*self);
                let next_outs = outs.push(g);
                assert(next_states.drop_last() =~= states);
                assert(next_outs.drop_last() =~= outs);
                assert forall|i: int| 0 <= i < next_outs.len() implies step_post(
                    next_states[i],
                    next_states[i + 1],
                    Ok(#[trigger] next_outs[i]),
                ) by {
                    if i < outs.len() {
                        assert(next_states[i] == states[i]);
                        assert(next_states[i + 1] == states[i + 1]);
                        assert(next_outs[i] == outs[i]);
                    }
                }
                assert forall|i: int| 0 <= i < next_outs.len() implies event_of(Ok(#[trigger] next_outs[i])) is None by {
                    if i < outs.len() {
                        assert(next_outs[i] == outs[i]);
                    }
                }
                states = next_states;
                outs = next_outs;
            }
        }
    }

    /// Reads every event to the end and returns the output tokens. It reads no files:
    /// an include is reported as `IncludeFileError`.
    ///
    /// On success the output is what a run of steps from the start hands out, the
    /// last step reaching the end; on failure the error is that of a step of such a
    /// run, or an include that the run reached.
    #[verifier::rlimit(80)]
    pub fn collect_tokens(&mut self) -> (r: Result<Vec<Token>, Error>)
        requires
            old(self).wf(),
        ensures
            final(self).wf(),
            r matches Ok(v) ==> exists|states: Seq<Preprocessor>, outs: Seq<Step>| {
                &&& run_of(states, outs)
                &&& states[0] == *old(self)
                &&& states.last() == *final(self)
                &&& outs.len() > 0 && outs.last() is End
                &&& v@ == handed_out(outs)
            },
            r matches Err(e) ==> exists|states: Seq<Preprocessor>, outs: Seq<Step>, fin: Preprocessor, res: Result<Step, Error>| {
                &&& run_of(states, outs)
                &&& states[0] == *old(self)
                &&& fin == *final(self)
                &&& step_post(states.last(), fin, res)
                &&& res == Err::<Step, Error>(e) || (e is IncludeFileError && res matches Ok(Step::Directive(_, true)))
            },
            old(self).queued().len() == 0 && old(self).open_branches().len() == 0 && plain_run(
                old(self).stream(),
                old(self).cursor(),
                old(self).eligible(),
            ) ==> (r matches Ok(v) && v@ == old(self).pending()) && final(self).same_logs(old(self)),
            r is Ok ==> final(self).queued().len() == 0 && final(self).pending().len() == 0,
    {
        let mut out: Vec<Token> = Vec::new();
        let ghost plain = old(self).queued().len() == 0 && old(self).open_branches().len() == 0 && plain_run(
            old(self).stream(),
            old(self).cursor(),
            old(self).eligible(),
        );
        let ghost mut states: Seq<Preprocessor> = seq![*self];
        let ghost mut outs: Seq<Step> = Seq::empty();
        loop
            invariant
                self.wf(),
                self.stream() == old(self).stream(),
                old(self).cursor() <= self.cursor() <= self.stream().len(),
                plain ==> self.queued().len() == 0 && self.open_branches().len() == 0
                    && out@ + self.pending() == old(self).pending() && self.same_logs(old(self))
                    && plain_run(self.stream(), self.cursor(), self.eligible()),
                plain == (old(self).queued().len() == 0 && old(self).open_branches().len() == 0 && plain_run(
                    old(self).stream(),
                    old(self).cursor(),
                    old(self).eligible(),
                )),
                run_of(states, outs),
                states[0] == *old(self),
                states.last() == *self,
                out@ == handed_out(outs),
            decreases self.stream().len() - self.cursor(), self.queued().len(),
        {
            proof {
                self.lemma_cursor_bounds();
                if plain {
                    assert(!masked(self.open_branches()));
                }
            }
            let ghost before = self.pending();
            let ghost here = *self;
            let r = self.step();
            let ghost rg = r;
            proof {
                if plain {
                    assert(here.cursor() < here.stream().len() ==> !here.at_directive() && !is_symbol(here.stream()[here.cursor()], Symbol::Question));
                    assert(here.cursor() < here.stream().len() ==> (rg matches Ok(Step::Token(t)) && t == here.stream()[here.cursor()])
                        && self.cursor() == here.cursor() + 1 && self.queued().len() == 0
                        && self.open_branches() == here.open_branches() && self.same_logs(&here)
                        && self.eligible() == if is_hidden(here.stream()[here.cursor()]) {
                            here.eligible()
                        } else {
                            is_symbol(here.stream()[here.cursor()], Symbol::Dot)
                        }) by {
                        reveal(step_post);
                    }
                    assert(here.cursor() >= here.stream().len() ==> (rg matches Ok(Step::End)) && self.same_logs(&here)) by {
                        reveal(step_post);
                    }
                }
            }
            match r {
                Err(e) => {
                    proof {
                        assert(step_post(states.last(), *self, Err(e)));
                    }
                    return Err(e);
                },
                Ok(st) => {
                    let ghost g = st;
                    let ghost next_states = states.push(*self);
                    let ghost next_outs = outs.push(g);
                    proof {
                        assert(next_states.drop_last() =~= states);
                        assert(next_outs.drop_last() =~= outs);
                        assert forall|i: int| 0 <= i < next_outs.len() implies step_post(
                            next_states[i],
                            next_states[i + 1],
                            Ok(#[trigger] next_outs[i]),
                        ) by {
                            if i < outs.len() {
                                assert(next_states[i] == states[i]);
                                assert(next_states[i + 1] == states[i + 1]);
                                assert(next_outs[i] == outs[i]);
                            }
                        }
                    }
                    match st {
                        Step::Directive(d, true) => {
                            proof {
                                assert(step_post(states.last(), *self, Ok(g)));
                            }
                            let (path, start, end) = match &d {
                                Directive::Include(x) => (x.path.value.clone(), x.hyphen.position.duplicate(), x.dot.position.duplicate()),
                                Directive::IncludeLib(x) => (x.path.value.clone(), x.hyphen.position.duplicate(), x.dot.position.duplicate()),
                                _ => (String::new(), d.start_position().duplicate(), d.end_position().duplicate()),
                            };
                            return Err(Error::IncludeFileError { directive_start: start, directive_end: end, target_file_path: path });
                        },
                        Step::End => {
                            proof {
                                states = next_states;
                                outs = next_outs;
                                assert(handed_out(outs) =~= handed_out(outs.drop_last()));
                                assert(run_of(states, outs) && states[0] == *old(self) && outs.len() > 0
                                    && outs.last() is End && out@ == handed_out(outs));
                                if plain {
                                    assert(before.len() == 0);
                                    assert(out@ =~= old(self).pending());
                                }
                            }
                            return Ok(out);
                        },
                        Step::Token(t) => {
                            proof {
                                assert(handed_out(next_outs) == handed_out(outs).push(t));
                                if plain {
                                    assert(before =~= seq![t] + self.pending());
                                    assert(out@.push(t) + self.pending() =~= out@ + before);
                                }
                            }
                            out.push(t);
                        },
                        _ => {},
                    }
                    proof {
                        states = next_states;
                        outs = next_outs;
                    }
                },
            }
        }
    }

    proof fn lemma_cursor_bounds(&self)
        requires
            self.wf(),
        ensures
            0 <= self.cursor() <= self.stream().len(),
            self.pending() == self.stream().subrange(self.cursor(), self.stream().len() as int),
            self.cursor() < self.stream().len() ==> self.pending()[0] == self.stream()[self.cursor()],
    {
    }

    /// Scans `text`, the contents of the file `path`, and reads its tokens before the
    /// tokens still to be read.
    pub fn add_included_text(&mut self, path: String, text: &str) -> (r: Result<(), Error>)
        requires
            old(self).wf(),
        ensures
            final(self).wf(),
            r is Ok == lexes(text@),
            r matches Err(e) ==> e is TokenizeError,
            r is Ok ==> final(self).pending().len() >= old(self).pending().len() && token_texts(
                final(self).pending().subrange(0, final(self).pending().len() - old(self).pending().len()),
            ) == text@
                && final(self).pending().subrange(
                final(self).pending().len() - old(self).pending().len(),
                final(self).pending().len() as int,
            ) == old(self).pending()
                && forall|k: int| 0 <= k < final(self).pending().len() - old(self).pending().len()
                ==> (#[trigger] final(self).pending()[k]).position.filepath == Some(path),
            r is Err ==> final(self).pending() == old(self).pending(),
            final(self).queued() == old(self).queued(),
            final(self).eligible() == old(self).eligible(),
            final(self).env() == old(self).env(),
            final(self).open_branches() == old(self).open_branches(),
    {
        let included = match tokenize(text, Some(path)) {
            Ok(v) => v,
            Err(error) => return Err(Error::TokenizeError { error }),
        };
        let mut spliced = included;
        let ghost n = spliced@.len();
        let ghost inc = spliced@;
        let mut m: usize = self.pos;
        while m < self.tokens.len()
            invariant
                self.pos <= m <= self.tokens.len(),
                spliced@.len() == n + (m - self.pos),
                spliced@.subrange(n as int, spliced@.len() as int) == self.tokens@.subrange(self.pos as int, m as int),
                forall|k: int| 0 <= k < n ==> (#[trigger] spliced@[k]).position.filepath == Some(path),
                spliced@.subrange(0, n as int) == inc,
                token_texts(inc) == text@,
            decreases self.tokens.len() - m,
        {
            let ghost before = spliced@;
            spliced.push(self.tokens[m].duplicate());
            assert(spliced@.subrange(n as int, spliced@.len() as int) =~= self.tokens@.subrange(self.pos as int, m + 1));
            assert(forall|k: int| 0 <= k < n ==> spliced@[k] == before[k]);
            assert(spliced@.subrange(0, n as int) =~= before.subrange(0, n as int));
            m = m + 1;
        }
        self.tokens = spliced;
        self.read_before = Ghost((self.read_before@ + self.pos) as nat);
        self.pos = 0;
        assert(self.tokens@.subrange(0, self.tokens.len() as int) =~= self.tokens@);
        assert(self.tokens@.subrange(0, n as int) =~= inc);
        Ok(())
    }

    /// Returns the directories searched for `-include_lib`, in order.
    pub fn code_paths(&self) -> (r: &Vec<String>)
        ensures
            *r == self.spec_code_paths(),
    {
        &self.code_paths
    }

    /// Returns the directories searched for `-include_lib`, to change them.
    pub fn code_paths_mut(&mut self) -> (r: &mut Vec<String>)
        ensures
            *r == old(self).spec_code_paths(),
            final(self).spec_code_paths() == *final(r),
            final(self).same_but_code_paths(old(self)),
    {
        &mut self.code_paths
    }

    /// Returns the directives read so far, keyed by where each starts.
    pub fn directives(&self) -> (r: &PositionMap<Directive>)
        requires
            self.wf(),
        ensures
            r.entries@ == self.directive_log(),
            r.wf(),
    {
        &self.directives
    }

    /// Returns the macro calls read so far, keyed by where each starts; only calls that
    /// stand in the tokens read, not those that expansions produced.
    pub fn macro_calls(&self) -> (r: &PositionMap<MacroCall>)
        requires
            self.wf(),
        ensures
            r.entries@ == self.call_log(),
            r.wf(),
    {
        &self.macro_calls
    }

    /// Returns the macros defined so far.
    pub fn macros(&self) -> (r: &Macros)
        ensures
            r@ == self.env(),
    {
        &self.macros
    }

    /// Returns the macros, to define some before reading (a `-D` option, `?MODULE`).
    pub fn macros_mut(&mut self) -> (r: &mut Macros)
        ensures
            *r == old(self).spec_macros(),
            final(self).spec_macros() == *final(r),
            final(self).same_but_macros(old(self)),
    {
        &mut self.macros
    }

    /// Returns the values of `?MODULE`, `?MODULE_STRING`, `?FUNCTION_NAME` and
    /// `?FUNCTION_ARITY`, to set or clear them.
    pub fn predefined_mut(&mut self) -> (r: &mut PredefinedInputs)
        ensures
            *r == old(self).spec_predefined(),
            final(self).spec_predefined() == *final(r),
            final(self).same_but_predefined(old(self)),
    {
        &mut self.predefined
    }
}

/// A macro defined by `-define(Name, Replacement).` without variables, where no token
/// of the replacement is `?` or `??`, expands to the replacement itself when called as
/// `?Name`, however the call quotes the name: the definition leaves the environment
/// where `step` queues exactly the replacement for such a call. (A predefined name is
/// left out: its predefined meaning comes first.)
pub proof fn law_define_then_call(
    env: Map<Seq<char>, MacroDef>,
    br: Seq<Branch>,
    x: crate::directives::Define,
    env2: Map<Seq<char>, MacroDef>,
    br2: Seq<Branch>,
    call_name: MacroName,
)
    requires
        directive_effect(env, br, Directive::Define(x), env2, br2, Ok(false)),
        !masked(br),
        x.variables is None,
        free_of_calls(x.replacement@),
        !is_predefined(x.macro_name.spec_value()),
        call_name.spec_value() == x.macro_name.spec_value(),
    ensures
        plain_replacement(env2, call_name) == Some(x.replacement@),
{
}

/// In `-ifdef(M). … -else. … -endif.` opened where no conditional masks the tokens,
/// the tokens of the `then` arm are kept exactly when M is defined, those of the
/// `else` arm exactly when it is not, and after `-endif` the macros and the open
/// conditionals are as before. (`step` hands out a token where nothing masks it and
/// drops it where something does.)
pub proof fn law_ifdef_else_endif(
    env: Map<Seq<char>, MacroDef>,
    br: Seq<Branch>,
    i: crate::directives::Ifdef,
    env1: Map<Seq<char>, MacroDef>,
    br1: Seq<Branch>,
    e: crate::directives::Else,
    env2: Map<Seq<char>, MacroDef>,
    br2: Seq<Branch>,
    r2: Result<bool, Error>,
    f: crate::directives::Endif,
    env3: Map<Seq<char>, MacroDef>,
    br3: Seq<Branch>,
    r3: Result<bool, Error>,
)
    requires
        !masked(br),
        directive_effect(env, br, Directive::Ifdef(i), env1, br1, Ok(false)),
        directive_effect(env1, br1, Directive::Else(e), env2, br2, r2),
        directive_effect(env2, br2, Directive::Endif(f), env3, br3, r3),
    ensures
        !masked(br1) <==> env.contains_key(i.macro_name.spec_value()),
        r2 == Ok::<bool, Error>(false),
        !masked(br2) <==> !env.contains_key(i.macro_name.spec_value()),
        r3 == Ok::<bool, Error>(false),
        env3 == env,
        br3 == br,
{
    let b = Branch { then_branch: true, entered: env.contains_key(i.macro_name.spec_value()) };
    assert(br1 == br.push(b));
    assert(br1.last() == b);
    assert(br1.drop_last() =~= br);
    let b2 = Branch { then_branch: false, entered: !b.entered };
    assert(br2 == br.push(b2));
    assert(br2.drop_last() =~= br);
    if !b.entered {
        assert(!br1[br.len() as int].entered);
    }
    if b.entered {
        assert(!br2[br.len() as int].entered);
    }
    if masked(br1) && b.entered {
        let k = choose|k: int| 0 <= k < br1.len() && !(#[trigger] br1[k]).entered;
        assert(k < br.len() ==> br1[k] == br[k]);
    }
    if masked(br2) && !b.entered {
        let k = choose|k: int| 0 <= k < br2.len() && !(#[trigger] br2[k]).entered;
        assert(k < br.len() ==> br2[k] == br[k]);
    }
}

impl Preprocessor {
    /// Every token read so far, from the stream and from included texts, is counted
    /// once: handed out, taken by a directive, taken by a macro call, or dropped in a
    /// masked arm. (Tokens that expansions make are not read, and not counted.)
    pub proof fn law_every_read_token_counted(&self)
        requires
            self.wf(),
        ensures
            self.counts().0 + self.counts().1 + self.counts().2 + self.counts().3 == self.read_count(),
    {
    }

    /// The macro calls recorded so far come in strict source order: of two calls of
    /// one file, the one logged first stands first; no two calls share a place; and
    /// each is recorded under the position of its `?`.
    pub proof fn law_macro_calls_ordered(&self)
        requires
            self.wf(),
        ensures
            forall|i: int, j: int| 0 <= i < j < self.call_log().len() && file_of(#[trigger] self.call_log()[i].0)
                == file_of(#[trigger] self.call_log()[j].0) ==> pos_lt(self.call_log()[i].0, self.call_log()[j].0),
            forall|i: int, j: int| 0 <= i < j < self.call_log().len() ==> !same_place(
                #[trigger] self.call_log()[i].0,
                #[trigger] self.call_log()[j].0,
            ),
            forall|i: int| 0 <= i < self.call_log().len() ==> (#[trigger] self.call_log()[i]).0
                == self.call_log()[i].1.question.position,
    {
        let m = self.macro_calls;
        assert forall|i: int, j: int| 0 <= i < j < self.call_log().len() && file_of(#[trigger] self.call_log()[i].0)
            == file_of(#[trigger] self.call_log()[j].0) implies pos_lt(self.call_log()[i].0, self.call_log()[j].0) by {
            assert(key_lt(m.ranks@[i] as int, m.entries@[i].0, m.ranks@[j] as int, m.entries@[j].0));
            assert(m.ranks@[i] < m.files.len() && m.ranks@[j] < m.files.len());
            if m.ranks@[i] != m.ranks@[j] {
                if m.ranks@[i] < m.ranks@[j] {
                    assert(m.file_view(m.ranks@[i] as int) != m.file_view(m.ranks@[j] as int));
                } else {
                    assert(m.file_view(m.ranks@[j] as int) != m.file_view(m.ranks@[i] as int));
                }
            }
        }
        assert forall|i: int, j: int| 0 <= i < j < self.call_log().len() implies !same_place(
            #[trigger] self.call_log()[i].0,
            #[trigger] self.call_log()[j].0,
        ) by {
            assert(key_lt(m.ranks@[i] as int, m.entries@[i].0, m.ranks@[j] as int, m.entries@[j].0));
            assert(m.ranks@[i] < m.files.len() && m.ranks@[j] < m.files.len());
            if m.ranks@[i] < m.ranks@[j] {
                assert(m.file_view(m.ranks@[i] as int) != m.file_view(m.ranks@[j] as int));
            }
        }
    }
}

/// Preprocesses `tokens`, which must hold no include, and returns the output tokens.
///
/// Tokens that hold no directive (where one may start) and no `?` come out as they went in; so the output
/// holds none either, and preprocessing it again gives it back once more.
///
/// On success the output is what a run of steps of a preprocessor just made over
/// `tokens` hands out, the last step reaching the end; on failure the error is that of
/// a step of such a run, or an include that the run reached.
pub fn preprocess(tokens: Vec<Token>) -> (r: Result<Vec<Token>, Error>)
    ensures
        r matches Ok(v) ==> exists|states: Seq<Preprocessor>, outs: Seq<Step>| {
            &&& run_of(states, outs)
            &&& fresh_over(states[0], tokens@)
            &&& outs.len() > 0 && outs.last() is End
            &&& v@ == handed_out(outs)
        },
        r matches Err(e) ==> exists|states: Seq<Preprocessor>, outs: Seq<Step>, fin: Preprocessor, res: Result<Step, Error>| {
            &&& run_of(states, outs)
            &&& fresh_over(states[0], tokens@)
            &&& step_post(states.last(), fin, res)
            &&& res == Err::<Step, Error>(e) || (e is IncludeFileError && res matches Ok(Step::Directive(_, true)))
        },
        plain_run(tokens@, 0, true) ==> (r matches Ok(v) && v@ == tokens@ && plain_run(v@, 0, true)),
{
    let mut pp = Preprocessor::new(tokens);
    pp.collect_tokens()
}

} // verus!
