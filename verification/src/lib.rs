//! Compiler for a small declarative language describing command-line
//! option structures. A source text is lexed, parsed into a spanned
//! syntax tree, checked for semantic validity, and turned into C++
//! source implementing an argument parser for the described structs.
//!
//! Data flows strictly forward: source text, tokens, syntax tree,
//! symbol table, generated text. Each stage fails fast with a rendered
//! diagnostic rather than attempting recovery, and each stage's result
//! is pinned to a mathematical function of its input, so the whole
//! pipeline is deterministic.

pub mod diag;
pub mod generate;
pub mod lexer;
pub mod parse;
pub mod semantic;
pub mod text;
pub mod types;

use crate::generate::cpp::{cli_text, generatable, generate_cli};
use crate::parse::{parse_result, Parser};
use crate::semantic::{check_semantics, check_semantics_spec};
use vstd::prelude::*;

verus! {

/// The ghost value of a compilation outcome.
pub open spec fn result_view(r: Result<String, String>) -> Result<Seq<char>, Seq<char>> {
    match r {
        Ok(s) => Ok(s@),
        Err(e) => Err(e@),
    }
}

/// What compiling a source text yields: the first diagnostic of the
/// parser or the semantic analyzer, or the generated C++ text.
pub open spec fn compile_result(src: Seq<char>) -> Result<Seq<char>, Seq<char>> {
    match parse_result(src) {
        Err(e) => Err(e),
        Ok(sv) => match check_semantics_spec(sv) {
            Err(e) => Err(e),
            Ok(_) => Ok(cli_text(sv)),
        },
    }
}

/// Sources the generator's recursion and counters can handle: if the
/// text parses and passes every semantic check, its flatten references
/// must be acyclic and its sizes within the machine's integers.
/// Semantic analysis does not reject a cycle of `flatten` references,
/// and generation recurses through them.
pub open spec fn compilable(src: Seq<char>) -> bool {
    match parse_result(src) {
        Ok(sv) => check_semantics_spec(sv) is Ok ==> generatable(sv),
        Err(_) => true,
    }
}

/// Runs the whole pipeline over a source text: parse, check, generate.
pub fn compile(source: &str) -> (r: Result<String, String>)
    requires
        compilable(source@),
    ensures
        result_view(r) == compile_result(source@),
{
    let mut parser = Parser::new(source);
    let spec = match parser.parse() {
        Ok(s) => s,
        Err(e) => {
            return Err(e);
        },
    };
    let metadata = match check_semantics(&spec) {
        Ok(m) => m,
        Err(e) => {
            return Err(e);
        },
    };
    let out = generate_cli(&spec, &metadata);
    Ok(out)
}

/// Compiling the same source twice yields byte-identical output: the
/// result is a mathematical function of the source text alone, and the
/// emitted option lists follow declaration order rather than any
/// iteration order of a hashed container.
pub proof fn lemma_compile_deterministic(
    src: Seq<char>,
    r1: Result<Seq<char>, Seq<char>>,
    r2: Result<Seq<char>, Seq<char>>,
)
    requires
        r1 == compile_result(src),
        r2 == compile_result(src),
    ensures
        r1 == r2,
{
}

} // verus!
