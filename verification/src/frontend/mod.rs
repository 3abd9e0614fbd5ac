//! The front end: from source text to the syntax tree that the back end
//! consumes.
use vstd::prelude::*;
use crate::frontend::ast::Stmt;
use crate::frontend::grammar::{is_program, reads_program};
use crate::frontend::parser::parse_program;
use crate::frontend::scanner::{scan, scanned};

pub mod ast;
pub mod grammar;
pub mod infer_types;
pub mod parser;
pub mod printer;
pub mod scanner;
pub mod scope;
pub mod tokens;

verus! {

/// Reads a program: the statements of the text, as a block that opens no
/// scope. The call succeeds exactly where the text splits into tokens and
/// the tokens are statements, one after the other; the program that it
/// then hands out is a reading of the tokens in the sense of the grammar.
pub fn run(input: &str) -> (r: Result<Stmt, &'static str>)
    ensures
        match scanned(input@, 0) {
            None => r is Err,
            Some(tokens) => (r is Ok <==> is_program(tokens)) && (r matches Ok(program)
                ==> reads_program(program, tokens)),
        },
{
    let tokens = match scan(input) {
        Err(_) => {
            return Err("Parsing Error");
        },
        Ok(tokens) => tokens,
    };
    match parse_program(&tokens) {
        Some(program) => Ok(program),
        None => Err("Parsing Error"),
    }
}

} // verus!
