//! A small compiler from a tiny imperative language (bindings, arithmetic and
//! comparison expressions, `if`/`elif`/`else`, `while` and `exit`) to x86-64
//! assembly text in NASM syntax.
//!
//! The three stages are a tokenizer ([`lexer`]), a recursive-descent parser
//! ([`parser`]) and a code generator ([`codegen`]). Each stage is specified
//! by spec functions over mathematical models of its input and output.
use vstd::prelude::*;

pub mod ast;
pub mod codegen;
pub mod lexer;
pub mod parser;
pub mod text;
pub mod theorems;

use codegen::{gen_program, initial_state, CodeGen};
use lexer::{lex, Lexer};
use parser::{parse_program, Parser};

verus! {

/// The ways a compilation can fail. The first failure aborts the whole run.
#[derive(Debug, Clone, Copy, PartialEq, Eq, Structural)]
pub enum CompileError {
    /// A `!` that is not followed by `=`.
    Lexical,
    /// A token sequence that matches no production of the grammar.
    Syntax,
    /// An identifier read before any `let` bound it.
    UnboundVariable,
    /// A unary operator other than `-` reached the code generator.
    InvalidUnary,
    /// More stack slots or labels than the 64-bit counters can number.
    Capacity,
}

/// The output for the program that a sequence of token models spells.
pub open spec fn compile_tokens(ts: Seq<lexer::Tok>) -> Result<Seq<char>, CompileError> {
    match parse_program(ts) {
        Ok(ss) => gen_program(initial_state(), ss),
        Err(x) => Err(x),
    }
}

/// The output for a source text: its tokens, their statements, and the
/// code for those statements.
pub open spec fn compile_spec(src: Seq<char>) -> Result<Seq<char>, CompileError> {
    match lex(src) {
        Ok(ts) => compile_tokens(ts),
        Err(x) => Err(x),
    }
}

/// Compiles a source text to assembly text; the first failure of any stage
/// is the result.
pub fn compile(source: &str) -> (r: Result<String, CompileError>)
    ensures
        match compile_spec(source@) {
            Ok(out) => r is Ok && r->Ok_0@ == out,
            Err(x) => r == Err::<String, CompileError>(x),
        },
{
    let mut lexer = Lexer::new(source);
    let tokens = match lexer.tokenize() {
        Ok(ts) => ts,
        Err(x) => {
            return Err(x);
        },
    };
    let mut parser = Parser::new(tokens);
    let stmts = match parser.parse() {
        Ok(ss) => ss,
        Err(x) => {
            return Err(x);
        },
    };
    let r = CodeGen::new().generate(stmts.as_slice());
    proof {
        if r is Ok {
            assert(r->Ok_0@ =~= Seq::<char>::empty() + r->Ok_0@);
        }
    }
    r
}

} // verus!
