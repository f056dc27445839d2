//! A front end for a small expression language.
//!
//! [`scanner`] turns source text into tokens, [`parser`] turns tokens into an
//! expression tree and renders trees as parenthesised text; [`run`] does the
//! three in a row. [`lexical`] and [`grammar`] hold the mathematical
//! definitions that the contracts are stated over, and what is proved of
//! them; [`text`] holds the string helpers that the scanner rests on.

pub mod text;
pub mod lexical;
pub mod scanner;
pub mod grammar;
pub mod parser;

use vstd::prelude::*;
use crate::grammar::{dump, parse_expression};
use crate::lexical::{scan, scan_errors};
use crate::parser::{ast_dump, ParseError, Parser};
use crate::scanner::{diagnostic_views, token_views, Diagnostic, Scanner};

verus! {

/// The interactive mode. The library has none of its own: a program that
/// offers one supplies it. This does nothing and returns at once.
pub fn start_interactive_mode() {
}

/// Scans `source`, parses its tokens as one expression and renders the
/// tree. Gives the lexical errors of the source, and the text of the tree
/// or the reason why the tokens are no expression. Lexical errors do not
/// keep the tokens from being parsed.
pub fn run(source: &String) -> (outcome: (Vec<Diagnostic>, Result<String, ParseError>))
    requires
        source@.len() < usize::MAX,
    ensures
        diagnostic_views(outcome.0@) == scan_errors(source@),
        match outcome.1 {
            Ok(text) => parse_expression(scan(source@), 0) matches Ok(tree) && text@ == dump(tree),
            Err(error) => parse_expression(scan(source@), 0) matches Err(failure) && failure.error
                == error,
        },
{
    let mut scanner = Scanner::new(source.clone());
    scanner.scan_tokens();
    let diagnostics = scanner.diagnostics;
    proof {
        assert(token_views(scanner.tokens@) =~= scan(source@));
        assert(diagnostic_views(diagnostics@) =~= scan_errors(source@));
    }
    let mut parser = Parser::new(scanner.tokens);
    let tree = match parser.parse() {
        Ok(expr) => Ok(ast_dump(&expr)),
        Err(error) => Err(error),
    };
    (diagnostics, tree)
}

} // verus!
