//! An interpreter for a small subject-verb-object language of parenthesised
//! lists: a tokenizer, a parser, a symbol table and an evaluator, each with
//! its behaviour stated as a contract.

pub mod number;
pub mod expr;
pub mod tokenizer;
pub mod parser;
pub mod model;
pub mod eval;
pub mod display;
pub mod laws;

pub use number::Decimal;
pub use expr::{Lambda, Native, Oexp, RomeError};
pub use tokenizer::tokenise;
pub use parser::parse;
pub use model::{Model, new_core_model};
pub use eval::eval;

use vstd::prelude::*;
use crate::eval::{eval_spec, evaluated};
use crate::expr::{Fault, Term};
use crate::parser::parse_spec;
use crate::tokenizer::tokens_of;

verus! {

/// What reading one line and evaluating its first expression gives, and the
/// table after; a line that does not read leaves the table as it was.
pub open spec fn read_eval_spec(input: Seq<char>, env: Map<Seq<char>, Term>) -> (
    Result<Term, Fault>,
    Map<Seq<char>, Term>,
) {
    match parse_spec(tokens_of(input)) {
        Err(f) => (Err(f), env),
        Ok((t, _)) => eval_spec(t, env),
    }
}

/// Reads the first expression of a line and evaluates it; the tokens after it
/// are ignored.
pub fn read_eval(input: String, env: &mut Model) -> (r: Result<Oexp, RomeError>)
    requires
        old(env).wf(),
    ensures
        final(env).wf(),
        evaluated(r, final(env)@, read_eval_spec(input@, old(env)@)),
{
    let tokens = tokenise(input);
    let (parsed_exp, _) = parse(tokens.as_slice())?;
    eval(&parsed_exp, env)
}

} // verus!
