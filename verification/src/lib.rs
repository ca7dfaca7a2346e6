//! A small regular-expression engine: a code generator that lowers a parsed
//! syntax tree into a flat instruction program, and a depth-first backtracking
//! evaluator of that program, together with a recursive-descent parser that
//! produces the tree from a pattern string.

pub mod ast;
pub mod codegen;
pub mod evaluator;
pub mod instruction;
pub mod lang;
pub mod parser;

pub use evaluator::EvalError;
pub use evaluator::MatchError;
pub use evaluator::do_matching;
pub use evaluator::eval;
