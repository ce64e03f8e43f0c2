use vstd::prelude::*;
use crate::codegen::{codegen, spec_codegen};
use crate::error::CompileError;
use crate::grammar::spec_parse;
use crate::parse::parse;
use crate::tokenize::{Lexer, lex_from};

verus! {

/// The whole translation: tokens of the text, their function definitions, and
/// the listing of those; or the first error of whichever stage failed.
pub open spec fn spec_compile(src: Seq<char>) -> Result<Seq<char>, CompileError> {
    match lex_from(src, 0) {
        Err(e) => Err(e),
        Ok(toks) => match spec_parse(toks) {
            Err(e) => Err(e),
            Ok(fs) => spec_codegen(fs),
        },
    }
}

/// Compiles a program's source text into an assembly listing.
pub fn compile(src: &String) -> (r: Result<String, CompileError>)
    ensures
        match spec_compile(src@) {
            Ok(t) => r is Ok && r->Ok_0@ == t,
            Err(e) => r == Err::<String, CompileError>(e),
        },
{
    let lexer = Lexer::new(src);
    let tokens = match lexer.tokenize() {
        Ok(t) => t,
        Err(e) => return Err(e),
    };
    let prog = match parse(tokens) {
        Ok(p) => p,
        Err(e) => return Err(e),
    };
    codegen(&prog)
}

} // verus!
