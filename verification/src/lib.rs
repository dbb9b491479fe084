//! A compiler for a single arithmetic expression: the input text is scanned
//! into tokens (`token`), parsed into an abstract syntax tree (`node`), and
//! translated into a textual assembly program for a stack machine
//! (`codegen`).  The generated program, once assembled and linked, returns
//! the expression's value as its process exit status; `machine` gives that
//! program its meaning and proves the emission sound.
//!
//! Each stage is a pure function of its input, specified exactly: the whole
//! pipeline is deterministic, and running it twice on the same input yields
//! identical text.

use vstd::prelude::*;

pub mod codegen;
pub mod machine;
pub mod node;
pub mod token;

use crate::codegen::{generate, program_text};
use crate::node::{parse, spec_parse, Node, ParseError};
use crate::token::{lex_from, tokenize, LexError, Token};

verus! {

/// The error of the first failing stage.
#[derive(Debug, PartialEq, Eq)]
pub enum CompileError {
    Lex(LexError),
    Parse(ParseError),
}

/// The whole pipeline: text to tokens to tree to assembly program.
/// Succeeds exactly when scanning and parsing succeed, and then returns
/// exactly the rendered program of the parsed tree — a pure function of the
/// input text.
pub fn compile(input: &str) -> (r: Result<String, CompileError>)
    ensures
        match r {
            Ok(text) => match lex_from(input@, 0) {
                Ok(toks) => match spec_parse(toks) {
                    Ok(node) => text@ == program_text(node),
                    Err(_) => false,
                },
                Err(_) => false,
            },
            Err(CompileError::Lex(e)) => lex_from(input@, 0) == Err::<Seq<Token>, nat>(
                e.offset as nat,
            ) && e.input@ == input@ && e.offset < input@.len(),
            Err(CompileError::Parse(e)) => match lex_from(input@, 0) {
                Ok(toks) => spec_parse(toks) == Err::<Node, ParseError>(e),
                Err(_) => false,
            },
        },
{
    let tokens = match tokenize(input) {
        Ok(t) => t,
        Err(e) => {
            return Err(CompileError::Lex(e));
        },
    };
    let node = match parse(tokens.as_slice()) {
        Ok(n) => n,
        Err(e) => {
            return Err(CompileError::Parse(e));
        },
    };
    Ok(generate(&node))
}

} // verus!
