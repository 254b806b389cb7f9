//! Front end of the Vessel language compiler: lexing, parsing and kappa
//! range inference, with the diagnostics they produce.

pub mod text;
pub mod error;
pub mod decimal;
pub mod constants;
pub mod lexer;
pub mod ast;
pub mod parser;
pub mod fixed;
pub mod kappa_infer;
pub mod laws;
pub mod comments;
pub mod syntax_laws;
pub mod rule_laws;

use vstd::prelude::*;
use crate::ast::{Program, ProgramView};
use crate::error::VesselResult;
use crate::error::VesselError;
use crate::kappa_infer::{FnMap, KappaInfer, VesselMap, err_view, failure_of, inference};
use crate::lexer::{Lexer, SOURCE_LIMIT, Token, lex_error_fits, lex_spec, lexed, lexes_from};
use crate::parser::{Parser, empty_program, error_at, p_program};

verus! {

/// The outcome `r` is what parsing the tokens `toks` and inferring kappa
/// ranges over the program give: the first diagnostic, or the program and
/// the inferred ranges.
pub open spec fn front_end_fits(r: VesselResult<(Program, KappaInfer)>, toks: Seq<Token>) -> bool {
    match p_program(toks, 0, empty_program()) {
        Err((q, m)) => r matches Err(e) && error_at(e, toks, q, m),
        Ok((prog, _)) => match inference(prog, (Seq::empty(), Seq::empty())) {
            (st, Some(ev)) => r matches Err(e) && err_view(e) == ev,
            (st, None) => r matches Ok(x) && x.0@ == prog && x.1@ == st,
        },
    }
}

/// `r` is what compiling `src` gives: the lexer's diagnostic, or, on tokens
/// that lexing the source gives, what parsing and inference give.
pub open spec fn compiles_to(src: Seq<char>, r: VesselResult<(Program, KappaInfer)>) -> bool {
    match lex_spec(src, 0) {
        Err(j) => r matches Err(e) && lex_error_fits(e, src, j),
        Ok(starts) => exists|toks: Seq<Token>|
            #![trigger lexed(toks, src, starts)]
            lexed(toks, src, starts) && front_end_fits(r, toks),
    }
}

/// `r` is what parsing the tokens `toks` from the first one gives: the
/// program, or the diagnostic at the first token that does not fit.
pub open spec fn parses_to(toks: Seq<Token>, r: VesselResult<Program>) -> bool {
    match p_program(toks, 0, empty_program()) {
        Ok((prog, _)) => r matches Ok(p) && p@ == prog,
        Err((q, m)) => r matches Err(e) && error_at(e, toks, q, m),
    }
}

/// `r` is what inferring kappa ranges over `prog` with a fresh inferrer
/// gives, leaving it with the ranges `st`.
pub open spec fn infers_to(prog: ProgramView, r: VesselResult<()>, st: (VesselMap, FnMap)) -> bool {
    (st, failure_of(r)) == inference(prog, (Seq::empty(), Seq::empty()))
}

/// The outcome `r`, after the tokens `toks` were read, is the first
/// diagnostic of parsing them and of inferring ranges over the program that
/// parsing gives; without one, that program and those ranges.
pub open spec fn first_error_after_lexing(toks: Seq<Token>, r: VesselResult<(Program, KappaInfer)>) -> bool {
    forall|pr: VesselResult<Program>| #[trigger] parses_to(toks, pr) ==> match pr {
        Err(e) => r matches Err(x) && err_view(x) == err_view(e),
        Ok(p) => forall|ir: VesselResult<()>, st: (VesselMap, FnMap)| #[trigger] infers_to(p@, ir, st) ==> match ir {
            Err(e) => r matches Err(x) && err_view(x) == err_view(e),
            Ok(()) => r matches Ok(x) && x.0@ == p@ && x.1@ == st,
        },
    }
}

/// `compile` stops at the first diagnostic of the pipeline. A source that
/// fails to tokenize gives the diagnostic that tokenizing gives. Otherwise
/// `compile` reads tokens that tokenizing the source gives, and on them a
/// parse failure gives the parser's diagnostic, a failure of kappa inference
/// over the parsed program gives inference's diagnostic, and without either
/// `compile` gives the parsed program and the inferred ranges.
pub proof fn law_compile_first_error(src: Seq<char>, r: VesselResult<(Program, KappaInfer)>)
    requires
        compiles_to(src, r),
    ensures
        forall|e: VesselError| #[trigger] lexes_from(src, 0, Err(e)) ==> (r matches Err(x) && err_view(x)
            == err_view(e)),
        lex_spec(src, 0) matches Ok(starts) ==> exists|toks: Seq<Token>|
            #![trigger lexed(toks, src, starts)]
            lexed(toks, src, starts) && first_error_after_lexing(toks, r),
{
    if let Ok(starts) = lex_spec(src, 0) {
        let toks = choose|toks: Seq<Token>| #![trigger lexed(toks, src, starts)] lexed(toks, src, starts) && front_end_fits(r, toks);
        assert forall|pr: VesselResult<Program>| #[trigger] parses_to(toks, pr) implies match pr {
            Err(e) => r matches Err(x) && err_view(x) == err_view(e),
            Ok(p) => forall|ir: VesselResult<()>, st: (VesselMap, FnMap)| #[trigger] infers_to(p@, ir, st) ==> match ir {
                Err(e) => r matches Err(x) && err_view(x) == err_view(e),
                Ok(()) => r matches Ok(x) && x.0@ == p@ && x.1@ == st,
            },
        } by {
            if let Ok(p) = pr {
                assert forall|ir: VesselResult<()>, st: (VesselMap, FnMap)| #[trigger] infers_to(p@, ir, st) implies match ir {
                    Err(e) => r matches Err(x) && err_view(x) == err_view(e),
                    Ok(()) => r matches Ok(x) && x.0@ == p@ && x.1@ == st,
                } by {}
            }
        }
        assert(lexed(toks, src, starts) && first_error_after_lexing(toks, r));
    }
}

/// Compiles a Vessel source through the front end: lexing, parsing and kappa
/// inference, stopping at the first diagnostic.
pub fn compile(source: &str) -> (r: VesselResult<(Program, KappaInfer)>)
    requires
        source@.len() <= SOURCE_LIMIT,
    ensures
        compiles_to(source@, r),
{
    // Phase 1: lex
    let mut lex = Lexer::new(source);
    let tokens = match lex.tokenize() {
        Ok(t) => t,
        Err(e) => return Err(e),
    };
    let ghost toks = tokens@;
    let n = tokens.len();
    proof {
        assert(toks.len() == n);
        assert(toks.last() == toks[toks.len() - 1]);
    }
    // Phase 2: parse
    let mut par = Parser::new(tokens);
    let program = match par.parse() {
        Ok(p) => p,
        Err(e) => return Err(e),
    };
    // Phase 3: kappa inference
    let mut ki = KappaInfer::new();
    match ki.infer(&program) {
        Ok(()) => {},
        Err(e) => return Err(e),
    }
    Ok((program, ki))
}

} // verus!
