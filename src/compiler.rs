//! The pipeline on one source text: lexing and parsing, then folding and
//! emission. Reading the file and resolving imports are the caller's part.
use vstd::prelude::*;
use crate::diag::{CompileError, ErrorKind};
use crate::emitter::{compile_ast, emit_program, is_emit_error, AstCompileArgs};
use crate::lexer::{lex, tokenize, LexErr, TokenV};
use crate::linker::Linker;
use crate::nodes::{Program, StmtV};
use crate::optimizer::{fold_passes, is_fold_error, optimize_passes};
use crate::parser::{g_program, is_parse_error, make_ast, ParseErr};

verus! {

/// How one source file is compiled.
#[derive(Debug)]
pub struct Args {
    pub input_file: String,
    pub no_main: bool,
    pub debug_symbols: bool,
    pub opt_level: u32,
}

/// The emitter's settings for a file compiled with `args`.
pub open spec fn emit_args(args: Args) -> AstCompileArgs {
    AstCompileArgs {
        debug_symbols: args.debug_symbols,
        standalone: args.no_main,
        pop_frame: false,
        opt_level: args.opt_level,
    }
}

/// Lexes and parses a source text.
pub fn parse_source(src: &str) -> (r: Result<Program, CompileError>)
    requires
        src@.len() < usize::MAX,
    ensures
        match r {
            Ok(p) => lex(src@, 0, 0, 0) is Ok && g_program(lex(src@, 0, 0, 0)->Ok_0) == Ok::<Seq<StmtV>, ParseErr>(p@),
            Err(e) => (lex(src@, 0, 0, 0) == Err::<Seq<TokenV>, LexErr>((e.message@, e.lineno as nat))
                && e.kind == ErrorKind::Lex) || (lex(src@, 0, 0, 0) is Ok && g_program(lex(src@, 0, 0, 0)->Ok_0)
                is Err && is_parse_error(e, g_program(lex(src@, 0, 0, 0)->Ok_0)->Err_0)),
        },
{
    let toks = tokenize(src)?;
    make_ast(&toks)
}

/// Folds a parsed program `args.opt_level` times, then emits it. On success
/// the program holds its folded form and the text is its emission.
pub fn compile_program(prog: &mut Program, args: &Args, linker: &mut Linker) -> (r: Result<String, CompileError>)
    requires
        old(linker).wf(),
    ensures
        final(linker).wf(),
        match fold_passes(old(prog)@, args.opt_level as nat) {
            Ok(folded) => match emit_program(folded, emit_args(*args), old(linker)@) {
                Ok((code, fs)) => r is Ok && r->Ok_0@ == code && final(linker)@ == fs && final(prog)@ == folded,
                Err(x) => r is Err && is_emit_error(r->Err_0, x),
            },
            Err((k, line)) => r is Err && is_fold_error(r->Err_0, k, line) && final(linker)@ == old(linker)@,
        },
{
    optimize_passes(prog, args.opt_level)?;
    let eargs = AstCompileArgs {
        debug_symbols: args.debug_symbols,
        standalone: args.no_main,
        pop_frame: false,
        opt_level: args.opt_level,
    };
    compile_ast(prog, eargs, linker)
}

} // verus!
