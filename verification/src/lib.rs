use vstd::prelude::*;

pub mod ast;
pub mod codegen;
pub mod error;
pub mod laws;
pub mod lexer;
pub mod parser;
pub mod token;

use vstd::string::StringSliceAdditionalSpecFns;
use crate::ast::{Item, ItemV, items_view};
use crate::error::Error;
use crate::lexer::{Lexer, lemma_lex_from_wf, lex_spec};
use crate::parser::{Parser, parse_spec};
use crate::token::{pair_seq_spec, pair_tokens};

verus! {

/// What the whole front end yields on a source text: the word sequence from
/// the scanner, fused into records, parsed into items — or the first error
/// any stage detects.
pub open spec fn compile_spec(s: Seq<u8>) -> Result<Seq<ItemV>, Error> {
    match lex_spec(s) {
        Err(e) => Err(e),
        Ok(ts) => match pair_seq_spec(ts) {
            Err(e) => Err(e),
            Ok(rs) => parse_spec(rs),
        },
    }
}

/// Runs the front end on a source text: scans it into words, pairs the
/// words into records, and parses the records into the item list, stopping
/// at the first error. The result is a function of the source text alone,
/// so two runs on the same text always agree.
pub fn compile(src: &str) -> (r: Result<Vec<Item>, Error>)
    requires
        src.spec_bytes().len() < u32::MAX,
    ensures
        (match compile_spec(src.spec_bytes()) {
            Ok(itsv) => r matches Ok(v) && items_view(v@) == itsv,
            Err(e) => r matches Err(e2) && e2 == e,
        }),
{
    let lexer = Lexer::new(src);
    let tokens = match lexer.lex() {
        Ok(t) => t,
        Err(e) => {
            return Err(e);
        },
    };
    proof {
        lemma_lex_from_wf(src.spec_bytes(), 0, 1, 0);
    }
    let pairs = match pair_tokens(&tokens) {
        Ok(p) => p,
        Err(e) => {
            return Err(e);
        },
    };
    let parser = Parser::new(pairs);
    parser.parse()
}

} // verus!
