//! An interpreter for a small line-oriented prefix language: 64-bit integer
//! arithmetic and comparison, `print`/`printa`, `if`, `while` and counted `for`
//! blocks, scoped variables, and user functions that return through `res`.
//!
//! The meaning of programs is given by spec functions: `semantics` for
//! evaluation, `syntax` and `assembly` for the grammar of expressions and of
//! lines, `layout` for one-line blocks, `folding` for what the optimising pass
//! may do, `printer` for the text of an expression. The parser, the evaluator,
//! the optimiser and the printer are proved to follow them, and `laws` states
//! what holds of every program.
use vstd::prelude::*;

pub mod assembly;
pub mod built_in_functions;
pub mod constructs;
pub mod data_store;
pub mod error;
pub mod expression;
pub mod folding;
pub mod laws;
pub mod layout;
pub mod parser;
pub mod printer;
pub mod program;
pub mod semantics;
pub mod syntax;
pub mod text;
pub mod user_function;

pub use assembly::get_sub_program;
pub use built_in_functions::{BuiltIns, Operator};
pub use constructs::Construct;
pub use data_store::{DataStore, StoreModel};
pub use error::{EvalError, ParseError, ParseErrorKind, RunError};
pub use expression::{is_user_function_call, Expression};
pub use parser::interpret;
pub use program::{Line, Program};
pub use semantics::Budget;
pub use user_function::{FunctionTable, UserFunction};

verus! {

} // verus!
