//! A small embedded scripting language: a parser from source text to a
//! syntax tree and a tree-walking evaluator with lexical scopes, user
//! functions and a table of host functions.
//!
//! A host hands a source text to [`run`] and gets back, on the channels of
//! a [`Host`], the records that the script emitted in order and the spawn
//! requests that it made. A script cannot bring the host down: a text that
//! is no program is reported and not run, a statement that cannot be
//! executed is reported and passed over, and a run that does not end is
//! stopped by its budget.
//!
//! How the language behaves where one might expect otherwise:
//!
//! - An assignment always writes the innermost scope. Inside the body of a
//!   `for` loop, which has a scope for each iteration, it shadows an outer
//!   variable of the same name and does not change it.
//! - A function body sees the scopes of its caller below its own; nothing
//!   is captured where a function is declared.
//! - A call statement hands a value that the function returns on to the
//!   body it stands in, as a `return` would.
//! - The sum of two integers that does not fit in 64 bits has no value.
//! - A decimal number is kept as it was written and printed without its
//!   idle zeros.
//! - Every statement and every iteration of a loop costs one step of the
//!   budget, and no more than [`MAX_DEPTH`] scopes are open at once.

pub mod grammar;
pub mod interpreter;
pub mod laws;
pub mod lexeme;
pub mod native;
pub mod parser;
pub mod resources;
pub mod semantics;
pub mod table;
pub mod text;

pub use interpreter::{run, Callable, Function, Interpreter, DEFAULT_BUDGET};
pub use lexeme::{Decimal, Expr, FunctionDef, NativeFn, Statement, Value, Variable};
pub use native::{build_native_fn_table, call_native, native_spawn_ball};
pub use parser::parse;
pub use resources::{
    BudgetExceeded, Diagnostic, Host, OutputRecord, PrintEvent, SpawnEvent, SyntaxError,
};
pub use semantics::MAX_DEPTH;
pub use table::Table;
