//! The front end: parsing, then semantic checking.
use vstd::prelude::*;

use crate::frontend::errors::{spec_parse_failure, CompileError, SpecCompileError};
use crate::frontend::parsers::{parse_prog, spec_prog};
use crate::frontend::semantic::scope::errors_wf;
use crate::frontend::semantic::types::errors_view;
use crate::frontend::semantic::{
    lemma_outcome, sem_accepts, sem_errors, semantic_check, semantic_outcome, SemProg,
};

pub mod errors;
pub mod parsers;
pub mod semantic;

verus! {

/// Identifiers as they appear in the source.
pub type Ident = String;

/// The front end accepts `source`.
pub open spec fn frontend_accepts(source: Seq<char>) -> bool {
    match spec_prog(source) {
        Ok(fs) => sem_accepts(fs),
        Err(_) => false,
    }
}

/// `errs` are the errors that the front end reports for `source`.
pub open spec fn frontend_errors(source: Seq<char>, errs: Seq<SpecCompileError>) -> bool {
    match spec_prog(source) {
        Ok(fs) => sem_errors(fs, errs),
        Err(e) => errs == seq![spec_parse_failure(source, e.pos as int, e.expected)],
    }
}

/// Runs the front end on a source text: a parse error gives its one error;
/// otherwise the program is checked as [`semantic_check`] says.
#[verifier::spinoff_prover]
#[verifier::rlimit(40)]
pub fn frontend(input: &str) -> (r: Result<SemProg, Vec<CompileError>>)
    ensures
        match spec_prog(input@) {
            Ok(fs) => semantic_outcome(fs, r),
            Err(e) => r matches Err(es) && es@.len() == 1 && es@[0]@ == spec_parse_failure(
                input@,
                e.pos as int,
                e.expected,
            ) && es@[0].wf(),
        },
        frontend_accepts(input@) <==> r is Ok,
        r matches Err(es) ==> frontend_errors(input@, errors_view(es@)) && errors_wf(es@),
{
    let prog = match parse_prog(input) {
        Ok(p) => p,
        Err(es) => {
            proof {
                assert(errors_view(es@) =~= seq![es@[0]@]);
            }
            return Err(es);
        },
    };
    let r = semantic_check(&prog);
    proof {
        lemma_outcome(prog@, r);
    }
    r
}

} // verus!
