//! Erlang source code preprocessor.
//!
//! Takes the tokens of an Erlang source, consumes every preprocessor directive
//! (`-define`, `-undef`, `-ifdef`, `-ifndef`, `-else`, `-endif`, `-include`,
//! `-include_lib`, `-error`, `-warning`) and expands every macro call (`?NAME`,
//! `?NAME(Args)`, `??Arg`), yielding the tokens that a parser reads.
pub mod args;
pub mod directive;
pub mod directive_reader;
pub mod directives;
pub mod error;
pub mod expand;
pub mod format;
pub mod macros;
pub mod position_map;
pub mod preprocessor;
pub mod text;
pub mod token;
pub mod token_reader;
pub mod types;

pub use crate::directive::Directive;
pub use crate::error::Error;
pub use crate::macros::{MacroCall, MacroDef};
pub use crate::preprocessor::Preprocessor;
