//! The front end of a small scripting language: a scanner from source bytes
//! to tokens, a recursive-descent parser from tokens to an expression tree,
//! and a printer that renders a tree in fully parenthesized prefix form.
//!
//! Every function is verified against a mathematical model of what it
//! computes: the scanner against the lexical grammar in `lexis`, stated over
//! byte sequences, the parser against the expression grammar in `grammar`,
//! stated over token sequences, and the printer against the printed text of
//! a tree.

use vstd::prelude::*;
use vstd::slice::slice_to_vec;
use crate::ast_printer::printed;
use crate::ast_printer::AstPrinter;
use crate::errors::ParserError;
use crate::errors::TokenError;
use crate::grammar::expression;
use crate::grammar::Parsed;
use crate::lexis::decodable;
use crate::lexis::scanned_faults;
use crate::lexis::scanned_tokens;
use crate::parser::Parser;
use crate::scanner::Scanner;

pub mod ast;
pub mod ast_printer;
pub mod decimal;
pub mod errors;
pub mod grammar;
pub mod laws;
pub mod lexis;
pub mod parser;
pub mod scanner;
pub mod text;
pub mod token;
pub mod token_type;

verus! {

/// What the front end makes of a source: the lexical faults, in order, and
/// the printed form of the expression or the syntax fault.
#[derive(Debug)]
pub struct Report {
    pub faults: Vec<TokenError>,
    pub result: Result<String, ParserError>,
}

/// Scans the bytes, parses one expression from the tokens, and prints it.
///
/// Returns nothing where a string literal of the source is not UTF-8.
pub fn run(bytes: &Vec<u8>) -> (r: Option<Report>)
    requires
        bytes.len() < usize::MAX,
    ensures
        r is Some <==> decodable(bytes@),
        r matches Some(report) ==> {
            &&& report.faults@ == scanned_faults(bytes@)
            &&& match expression(scanned_tokens(bytes@), 0) {
                Parsed::Tree { expr, next } => report.result matches Ok(s) && s@ == printed(expr),
                Parsed::Fault { error, at } => report.result matches Err(e) && e@ == error,
            }
        },
{
    let mut scanner = Scanner::new(slice_to_vec(bytes.as_slice()));
    let tokens = match scanner.try_scan_tokens() {
        Some(tokens) => tokens,
        None => {
            return None;
        },
    };
    let mut faults: Vec<TokenError> = Vec::new();
    let found = scanner.faults();
    let mut i: usize = 0;
    while i < found.len()
        invariant
            i <= found.len(),
            faults@ == found@.take(i as int),
        decreases found.len() - i,
    {
        faults.push(found[i]);
        assert(found@.take(i + 1) =~= found@.take(i as int).push(found@[i as int]));
        i += 1;
    }
    assert(found@.take(found.len() as int) =~= found@);
    let mut parser = Parser::new(tokens);
    let result = match parser.parse() {
        Ok(expr) => {
            match AstPrinter.print(expr) {
                Ok(text) => Ok(text),
                Err(_) => vstd::pervasive::unreached(),
            }
        },
        Err(e) => Err(e),
    };
    Some(Report { faults, result })
}

} // verus!
