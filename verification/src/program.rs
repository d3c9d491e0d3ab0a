//! From cleaned source text to the program it spells: scanning, then
//! parsing.

use vstd::prelude::*;
use crate::ast::{nodes_of, ASTNode, Node};
use crate::grammar::{parse_program_spec, Failure};
use crate::parser::{parse_program, ParseError};
use crate::scanner::{scan, scan_spec, LexError};

verus! {

/// Why source text is not a program.
#[derive(Clone, Copy, Debug, PartialEq, Eq)]
pub enum SyntaxError {
    /// A character that no token can start with.
    Lex(LexError),
    /// Tokens that are not a program.
    Parse(ParseError),
}

/// The mathematical value of a `SyntaxError`.
pub enum SyntaxFailure {
    /// The index of the character that no token can start with.
    Lex(int),
    Parse(Failure),
}

impl View for SyntaxError {
    type V = SyntaxFailure;

    open spec fn view(&self) -> SyntaxFailure {
        match self {
            SyntaxError::Lex(e) => SyntaxFailure::Lex(e.position as int),
            SyntaxError::Parse(e) => SyntaxFailure::Parse(e@),
        }
    }
}

/// The program that the cleaned source text `source` spells: the statements
/// that its tokens parse to, or the first reason why it is not a program.
pub open spec fn program_of(source: Seq<char>) -> Result<Seq<Node>, SyntaxFailure> {
    match scan_spec(source) {
        Err(position) => Err(SyntaxFailure::Lex(position)),
        Ok(tokens) => match parse_program_spec(tokens) {
            Err(failure) => Err(SyntaxFailure::Parse(failure)),
            Ok(nodes) => Ok(nodes),
        },
    }
}

/// Reads cleaned source text as a program: scans it and parses the tokens.
pub fn read_program(source: &str) -> (r: Result<Vec<ASTNode>, SyntaxError>)
    ensures
        match r {
            Ok(nodes) => program_of(source@) == Ok::<Seq<Node>, SyntaxFailure>(nodes_of(nodes@)),
            Err(e) => program_of(source@) == Err::<Seq<Node>, SyntaxFailure>(e@),
        },
{
    match scan(source) {
        Err(e) => Err(SyntaxError::Lex(e)),
        Ok(tokens) => match parse_program(&tokens) {
            Err(e) => Err(SyntaxError::Parse(e)),
            Ok(nodes) => Ok(nodes),
        },
    }
}

} // verus!
