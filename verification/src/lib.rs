//! A verified evaluator for arithmetic formulas in Reverse Polish Notation.
//!
//! A formula is a line of text holding whitespace-separated tokens, each a
//! signed 32-bit integer literal or one of the operators `+ - * / %`. The
//! evaluator runs a stack machine over the tokens and returns the single
//! value left on the stack, or an error describing why the formula is
//! malformed or divides by zero.

mod calc;
mod laws;
mod machine;
mod token;

pub use calc::spec_eval_line;
pub use calc::spec_eval_trace;
pub use calc::RpnCalculator;
pub use laws::lemma_ill_formed_fails;
pub use laws::lemma_line_ok_implies_well_formed;
pub use laws::lemma_ok_implies_well_formed;
pub use laws::lemma_well_formed_line_evaluates;
pub use laws::lemma_well_formed_no_syntax_error;
pub use laws::well_formed_rpn;
pub use machine::apply_op;
pub use machine::apply_op_exec;
pub use machine::machine_result;
pub use machine::machine_trace;
pub use machine::run_tokens;
pub use machine::trace_views;
pub use machine::EvalError;
pub use machine::TraceStep;
pub use token::classify;
pub use token::classify_token;
pub use token::parse_i32;
pub use token::parse_token;
pub use token::tokenize;
pub use token::tokenize_line;
pub use token::toks_view;
pub use token::Op;
pub use token::Token;
