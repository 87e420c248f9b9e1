//! A compiler for a small subset of a C-like language, targeting x86-64
//! assembly in GNU-as Intel syntax.
//!
//! The pipeline is strictly linear: source text is lexed into positioned
//! tokens, parsed into an untyped syntax tree, elaborated into a typed tree,
//! and finally lowered to assembly. Each stage owns its output and hands it
//! to the next; the first error aborts compilation.
use vstd::prelude::*;

pub mod emit;
pub mod errors;
pub mod expr;
pub mod function_collector;
pub mod generator;
pub mod lex;
pub mod offset_calculator;
pub mod parser;
pub mod statement;
pub mod strutil;
pub mod top_level;
pub mod token;
pub mod types;
pub mod typing;
pub mod variable_collector;

use crate::emit::calls_aligned;
use crate::emit::distinct_labels;
use crate::emit::render_program;
use crate::emit::AsmLine;
use crate::errors::CompileError;
use crate::errors::LexError;
use crate::lex::spec_tokenize_from;
use crate::lex::tokenize;
use crate::token::SpecToken;

verus! {

/// Runs the pipeline up to assembly lines: lex, parse, collect
/// signatures, elaborate, and generate. In the emitted lines no label is
/// defined twice, and the output splits into chunks — the entry prologue
/// and one chunk per function — each keeping every `call` on a stack
/// offset that is a multiple of sixteen, counted from the chunk's start.
pub fn compile(input: &Vec<char>) -> (r: Result<Vec<AsmLine>, CompileError>)
    ensures
        r matches Ok(lines) ==> distinct_labels(lines@),
        r matches Ok(lines) ==> exists|cs: Seq<Seq<AsmLine>>|
            {
                &&& lines@ == cs.flatten()
                &&& forall|k: int| 0 <= k < cs.len() ==> calls_aligned(#[trigger] cs[k], 0)
            },
        r matches Ok(lines) ==> ({
            &&& lines@.len() >= 7
            &&& lines@[0] is Intel
            &&& lines@[1] == AsmLine::PushReg(crate::emit::Reg::Rbp)
            &&& lines@[2] == AsmLine::MovRegReg(crate::emit::Reg::Rbp, crate::emit::Reg::Rsp)
            &&& lines@[3] == AsmLine::SubRegImm(crate::emit::Reg::Rsp, 8)
            &&& (lines@[4] matches AsmLine::Call(m) && m@ == "main"@)
            &&& lines@[5] == AsmLine::AddRegImm(crate::emit::Reg::Rsp, 8)
            &&& lines@[6] == AsmLine::Epilogue
        }),
        r matches Err(CompileError::Lex(e)) ==> spec_tokenize_from(input@, 0) == Err::<
            Seq<(SpecToken, int)>,
            _,
        >(e.pos as int),
        spec_tokenize_from(input@, 0) matches Err(p) ==> r == Err::<Vec<AsmLine>, _>(
            CompileError::Lex(LexError { pos: p as usize }),
        ),
{
    let tokens = match tokenize(input) {
        Ok(ts) => ts,
        Err(e) => {
            proof {
                assert(e == LexError { pos: e.pos });
            }
            return Err(CompileError::Lex(e));
        },
    };
    let mut parser_state = parser::Parser::new(tokens);
    let program = match parser_state.munch_program() {
        Ok(p) => p,
        Err(e) => {
            return Err(CompileError::Parse(e));
        },
    };
    let function_type_environment = function_collector::collect_functions(&program);
    let typist = typing::Typist::new(function_type_environment);
    let typed_program = match typist.type_program(&program) {
        Ok(tp) => tp,
        Err(k) => {
            return Err(CompileError::Typing(k));
        },
    };
    let mut code_generator = generator::Program::new(typed_program);
    let ghost empty_out = code_generator.out@;
    match code_generator.gen() {
        Ok(_) => {},
        Err(k) => {
            return Err(CompileError::Codegen(k));
        },
    }
    proof {
        let cs = choose|cs: Seq<Seq<AsmLine>>|
            {
                &&& code_generator.out@ == empty_out + cs.flatten()
                &&& forall|k: int| 0 <= k < cs.len() ==> calls_aligned(#[trigger] cs[k], 0)
            };
        assert(empty_out + cs.flatten() =~= cs.flatten());
        assert(code_generator.out@ == cs.flatten());
    }
    Ok(code_generator.out)
}

/// Compiles source text to the finished assembly listing: the rendering
/// of a line sequence with pairwise distinct labels whose chunks keep
/// every `call` aligned.
pub fn process(input: &Vec<char>) -> (r: Result<String, CompileError>)
    ensures
        r matches Err(CompileError::Lex(e)) ==> spec_tokenize_from(input@, 0) == Err::<
            Seq<(SpecToken, int)>,
            _,
        >(e.pos as int),
        spec_tokenize_from(input@, 0) matches Err(p) ==> r == Err::<String, _>(
            CompileError::Lex(LexError { pos: p as usize }),
        ),
        r matches Ok(s) ==> exists|linesv: Seq<AsmLine>|
            {
                &&& s@ == crate::emit::program_text(linesv)
                &&& distinct_labels(linesv)
                &&& exists|cs: Seq<Seq<AsmLine>>|
                    {
                        &&& linesv == cs.flatten()
                        &&& forall|k: int| 0 <= k < cs.len() ==> calls_aligned(#[trigger] cs[k], 0)
                    }
            },
{
    let lines = match compile(input) {
        Ok(lines) => lines,
        Err(e) => {
            return Err(e);
        },
    };
    let rendered = render_program(&lines);
    proof {
        let linesv = lines@;
        assert(rendered@ == crate::emit::program_text(linesv) && distinct_labels(linesv)
            && exists|cs: Seq<Seq<AsmLine>>|
            {
                &&& linesv == cs.flatten()
                &&& forall|k: int| 0 <= k < cs.len() ==> calls_aligned(#[trigger] cs[k], 0)
            });
    }
    Ok(rendered)
}

} // verus!
