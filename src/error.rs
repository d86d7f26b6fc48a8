//! The errors of the preprocessor.
use vstd::prelude::*;
use crate::directive::Directive;
use crate::macros::{MacroCall, MacroDef};
use crate::token::{LexError, Position, Token};

verus! {

/// Possible errors.
#[derive(Clone, Debug)]
pub enum Error {
    /// A token of another kind than the grammar expects.
    UnexpectedToken { token: Token, expected: String },
    /// The tokens ended in the middle of a directive or a macro call.
    UnexpectedEof,
    /// An empty argument before a `,` of a macro call.
    MissingMacroArg { position: Position },
    /// A closing bracket in a macro argument that no opening bracket matches.
    UnbalancedParen { open: Option<Token>, close: Token },
    /// `?FILE` at a position that names no file.
    FileNotSet { macro_call: MacroCall },
    /// A call of a macro that is not defined.
    UndefinedMacro { macro_call: MacroCall },
    /// `??Var` where `Var` is no variable of the macro.
    UndefinedMacroVar { varname: String },
    /// A call whose number of arguments differs from the definition's.
    MacroArgsMismatched { macro_call: MacroCall, macro_def: MacroDef },
    /// A `.` inside the replacement of a `-define`.
    UnexpectedDotInMacroDef { position: Position },
    /// `-else` or `-endif` without an open `-ifdef` or `-ifndef`, or a second `-else`.
    MissingIfDirective { directive: Directive },
    /// The text of a source could not be scanned into tokens.
    TokenizeError { error: LexError },
    /// Expanding a macro call took more nested expansions than the preprocessor allows
    /// (a macro that calls itself, directly or not); the position is where it stopped.
    ExpansionLimit { position: Position },
    /// An `-include` or `-include_lib` that nothing resolved to a file's text.
    IncludeFileError { directive_start: Position, directive_end: Position, target_file_path: String },
}

} // verus!
