//! The parser: source text to a program of function definitions.
use vstd::prelude::*;

use crate::frontend::errors::{spec_parse_failure, CompileError};
use crate::frontend::parsers::common::{rem, res_bounded, PResult, ParseError, SRes};
use crate::frontend::parsers::func::{func_p, spec_func, Func, SpecFunc};
use crate::text::str_to_chars;

pub mod common;
pub mod expr;
pub mod func;
pub mod lvalue;
pub mod stmt;
pub mod types;

verus! {

/// A program: its function definitions in source order.
#[derive(Debug, PartialEq, Eq)]
pub struct Prog {
    pub funcs: Vec<Func>,
}

pub open spec fn funcs_view(v: Seq<Func>) -> Seq<SpecFunc> {
    Seq::new(v.len(), |i: int| v[i]@)
}

impl View for Prog {
    type V = Seq<SpecFunc>;

    open spec fn view(&self) -> Seq<SpecFunc> {
        funcs_view(self.funcs@)
    }
}

/// A function definition that parses consumes at least one character.
pub proof fn lemma_func_consumes(s: Seq<char>, p: int)
    ensures
        spec_func(s, p) matches Ok((n, _)) ==> n >= 1,
{
}

/// The function definitions that follow the first one, as many as parse;
/// a definition that fails to parse (without a fatal error) ends the list.
pub open spec fn spec_funcs_rest(s: Seq<char>, p: int) -> SRes<Seq<SpecFunc>>
    decreases rem(s, p),
{
    match spec_func(s, p) {
        Err(e) => if e.fatal {
            Err(e)
        } else {
            Ok((0, seq![]))
        },
        Ok((n, f)) => {
            proof {
                lemma_func_consumes(s, p);
            }
            match spec_funcs_rest(s, p + n) {
                Ok((m, fs)) => Ok((n + m, seq![f] + fs)),
                Err(e) => Err(e),
            }
        },
    }
}

/// A program: one or more function definitions from the start of `s`.
/// Whatever follows the last definition that parses is ignored.
pub open spec fn spec_prog(s: Seq<char>) -> Result<Seq<SpecFunc>, ParseError> {
    match spec_func(s, 0) {
        Err(e) => Err(e),
        Ok((n, f)) => match spec_funcs_rest(s, n as int) {
            Ok((_, fs)) => Ok(seq![f] + fs),
            Err(e) => Err(e),
        },
    }
}

proof fn lemma_funcs_view_cons(f: Func, v: Seq<Func>)
    ensures
        funcs_view(v.insert(0, f)) == seq![f@] + funcs_view(v),
{
    assert(funcs_view(v.insert(0, f)) =~= seq![f@] + funcs_view(v));
}

fn funcs_rest_p(s: &Vec<char>, p: usize) -> (r: PResult<Vec<Func>>)
    requires
        p <= s.len(),
    ensures
        match (r, spec_funcs_rest(s@, p as int)) {
            (Ok((q, v)), Ok((n, w))) => q == p + n && funcs_view(v@) == w,
            (Err(e), Err(g)) => e == g,
            _ => false,
        },
        res_bounded(r, p as int, s.len() as int),
    decreases s.len() - p,
{
    let (a, f) = match func_p(s, p) {
        Ok(x) => x,
        Err(e) => {
            if e.fatal {
                return Err(e);
            }
            return Ok((p, Vec::new()));
        },
    };
    match funcs_rest_p(s, a) {
        Err(e) => Err(e),
        Ok((b, mut fs)) => {
            proof {
                lemma_funcs_view_cons(f, fs@);
            }
            fs.insert(0, f);
            Ok((b, fs))
        },
    }
}

/// Parses a whole program. On failure the single error is the one for the
/// parse error, reported against `input`.
pub fn parse_prog(input: &str) -> (r: Result<Prog, Vec<CompileError>>)
    ensures
        match (r, spec_prog(input@)) {
            (Ok(prog), Ok(fs)) => prog@ == fs,
            (Err(es), Err(e)) => es@.len() == 1 && es@[0]@ == spec_parse_failure(input@, e.pos as int, e.expected)
                && es@[0].wf(),
            _ => false,
        },
{
    let s = str_to_chars(input);
    let (a, f) = match func_p(&s, 0) {
        Ok(x) => x,
        Err(e) => {
            return Err(vec![CompileError::from_parse_error(&e, &s)]);
        },
    };
    match funcs_rest_p(&s, a) {
        Err(e) => Err(vec![CompileError::from_parse_error(&e, &s)]),
        Ok((_, mut fs)) => {
            proof {
                lemma_funcs_view_cons(f, fs@);
            }
            fs.insert(0, f);
            Ok(Prog { funcs: fs })
        },
    }
}

} // verus!
