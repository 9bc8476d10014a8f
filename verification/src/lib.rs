//! Command-interpretation core of a line-oriented shell.
//!
//! One line of user text is turned into a plan for a chain of operating-system
//! processes: the lexer expands environment variables and splits the text into
//! word and operator tokens, the chain parser turns the token sequence into an
//! ordered list of execution units with resolved stream endpoints, and the
//! engine turns that list into a sequence of spawn steps (or a built-in
//! action) that a thin, unverified front end carries out.

pub mod engine;
pub mod expand;
pub mod parse;
pub mod shellenv;
pub mod strutil;
pub mod token;

pub use engine::Dispatch;
pub use engine::SpawnStep;
pub use engine::StdinPlan;
pub use engine::StdoutPlan;
pub use engine::plan_execution;
pub use expand::expand_env_vars;
pub use parse::CommandPart;
pub use parse::ExecutionSource;
pub use parse::ParseError;
pub use parse::PipeEndpoint;
pub use parse::parse_command_chain;
pub use shellenv::ShellEnv;
pub use token::Token;
pub use token::tokenize;
