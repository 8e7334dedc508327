//! Function definitions: `fun name(param: type, ...) [-> type] block`.
use vstd::prelude::*;

use crate::frontend::parsers::common::{
    fail, ident_p, res_bounded, res_view, spec_ident, spec_tag, spec_ws_tag, tag_p,
    ws_tag_p, ContextMsg, Expectation, Keyword, PResult, ParseError, SRes, Token,
};
use crate::frontend::parsers::expr::{block_p, expr_view, spec_block, Expr, SpecExpr};
use crate::frontend::parsers::types::{spec_type, type_p, Type};
use crate::frontend::Ident;
use crate::text::str_to_chars;

verus! {

/// A function definition.
#[derive(Debug, PartialEq, Eq)]
pub struct Func {
    pub name: Ident,
    pub parameters: Vec<(Ident, Type)>,
    pub return_type: Type,
    pub block: Expr,
}

/// The mathematical form of a [`Func`].
pub struct SpecFunc {
    pub name: Seq<char>,
    pub parameters: Seq<(Seq<char>, Type)>,
    pub return_type: Type,
    pub block: SpecExpr,
}

pub open spec fn params_view(v: Seq<(Ident, Type)>) -> Seq<(Seq<char>, Type)> {
    Seq::new(v.len(), |i: int| (v[i].0@, v[i].1))
}

impl View for Func {
    type V = SpecFunc;

    open spec fn view(&self) -> SpecFunc {
        SpecFunc {
            name: self.name@,
            parameters: params_view(self.parameters@),
            return_type: self.return_type,
            block: expr_view(self.block),
        }
    }
}

/// `name: type`; a missing `:` is reported as a missing type.
pub open spec fn spec_parameter(s: Seq<char>, p: int) -> SRes<(Seq<char>, Type)> {
    match spec_ident(s, p) {
        Err(e) => Err(e),
        Ok((i, id)) => match spec_ws_tag(s, p + i, Token::Colon) {
            Err(_) => Err(fail(p + i, Expectation::Context(ContextMsg::ParameterType))),
            Ok((c, _)) => match spec_type(s, p + i + c) {
                Err(e) => Err(e),
                Ok((n, t)) => Ok((i + c + n, (id, t))),
            },
        },
    }
}

/// Parameters separated by commas (possibly none).
pub open spec fn spec_parameters(s: Seq<char>, p: int) -> SRes<Seq<(Seq<char>, Type)>> {
    match spec_parameter(s, p) {
        Err(e) => if e.fatal {
            Err(e)
        } else {
            Ok((0, seq![]))
        },
        Ok((n, x)) => match spec_parameters_rest(s, p + n) {
            Ok((m, xs)) => Ok((n + m, seq![x] + xs)),
            Err(e) => Err(e),
        },
    }
}

/// The `, parameter` items after the first parameter.
pub open spec fn spec_parameters_rest(s: Seq<char>, p: int) -> SRes<Seq<(Seq<char>, Type)>>
    decreases crate::frontend::parsers::common::rem(s, p),
{
    match spec_ws_tag(s, p, Token::Comma) {
        Err(_) => Ok((0, seq![])),
        Ok((k, _)) => match spec_parameter(s, p + k) {
            Err(e) => if e.fatal {
                Err(e)
            } else {
                Ok((0, seq![]))
            },
            Ok((n, x)) => match spec_parameters_rest(s, p + k + n) {
                Ok((m, xs)) => Ok((k + n + m, seq![x] + xs)),
                Err(e) => Err(e),
            },
        },
    }
}

/// An optional `-> type` return type.
pub open spec fn spec_return_type(s: Seq<char>, p: int) -> (nat, Option<Type>) {
    match spec_ws_tag(s, p, Token::Arrow) {
        Err(_) => (0, None),
        Ok((k, _)) => match spec_type(s, p + k) {
            Ok((n, t)) => (k + n, Some(t)),
            Err(_) => (0, None),
        },
    }
}

/// A function definition; without a return type the function returns `void`.
pub open spec fn spec_func(s: Seq<char>, p: int) -> SRes<SpecFunc> {
    match spec_ws_tag(s, p, Token::Keyword(Keyword::Func)) {
        Err(e) => Err(e),
        Ok((k, _)) => match spec_ident(s, p + k) {
            Err(e) => Err(e),
            Ok((i, name)) => {
                let a = p + k + i;
                match spec_tag(s, a, Token::LParen) {
                    Err(e) => Err(e),
                    Ok(_) => match spec_parameters(s, a + 1) {
                        Err(e) => Err(e),
                        Ok((m, params)) => match spec_tag(s, a + 1 + m, Token::RParen) {
                            Err(e) => Err(e),
                            Ok(_) => {
                                let c = a + 2 + m;
                                let (t, ret) = spec_return_type(s, c);
                                match spec_block(s, c + t) {
                                    Err(e) => Err(e),
                                    Ok((n, block)) => Ok(
                                        (
                                            (c + t + n - p) as nat,
                                            SpecFunc {
                                                name,
                                                parameters: params,
                                                return_type: match ret {
                                                    Some(x) => x,
                                                    None => Type::Void,
                                                },
                                                block,
                                            },
                                        ),
                                    ),
                                }
                            },
                        },
                    },
                }
            },
        },
    }
}

fn parameter_p(s: &Vec<char>, p: usize) -> (r: PResult<(Ident, Type)>)
    requires
        p <= s.len(),
    ensures
        match (r, spec_parameter(s@, p as int)) {
            (Ok((q, v)), Ok((n, w))) => q == p + n && v.0@ == w.0 && v.1 == w.1,
            (Err(e), Err(g)) => e == g,
            _ => false,
        },
        res_bounded(r, p as int, s.len() as int),
{
    let (a, id) = match ident_p(s, p) {
        Ok(x) => x,
        Err(e) => {
            return Err(e);
        },
    };
    let b = match ws_tag_p(s, a, Token::Colon) {
        Ok((b, _)) => b,
        Err(_) => {
            return Err(
                ParseError {
                    pos: a,
                    expected: Expectation::Context(ContextMsg::ParameterType),
                    fatal: false,
                },
            );
        },
    };
    match type_p(s, b) {
        Err(e) => Err(e),
        Ok((c, t)) => Ok((c, (id, t))),
    }
}

proof fn lemma_params_view_cons(x: (Ident, Type), v: Seq<(Ident, Type)>)
    ensures
        params_view(v.insert(0, x)) == seq![(x.0@, x.1)] + params_view(v),
{
    assert(params_view(v.insert(0, x)) =~= seq![(x.0@, x.1)] + params_view(v));
}

fn parameters_rest_p(s: &Vec<char>, p: usize) -> (r: PResult<Vec<(Ident, Type)>>)
    requires
        p <= s.len(),
    ensures
        match (r, spec_parameters_rest(s@, p as int)) {
            (Ok((q, v)), Ok((n, w))) => q == p + n && params_view(v@) == w,
            (Err(e), Err(g)) => e == g,
            _ => false,
        },
        res_bounded(r, p as int, s.len() as int),
    decreases s.len() - p,
{
    let a = match ws_tag_p(s, p, Token::Comma) {
        Ok((a, _)) => a,
        Err(_) => {
            return Ok((p, Vec::new()));
        },
    };
    let (b, x) = match parameter_p(s, a) {
        Ok(x) => x,
        Err(e) => {
            if e.fatal {
                return Err(e);
            }
            return Ok((p, Vec::new()));
        },
    };
    match parameters_rest_p(s, b) {
        Err(e) => Err(e),
        Ok((c, mut xs)) => {
            proof {
                lemma_params_view_cons(x, xs@);
            }
            xs.insert(0, x);
            Ok((c, xs))
        },
    }
}

fn parameters_p(s: &Vec<char>, p: usize) -> (r: PResult<Vec<(Ident, Type)>>)
    requires
        p <= s.len(),
    ensures
        match (r, spec_parameters(s@, p as int)) {
            (Ok((q, v)), Ok((n, w))) => q == p + n && params_view(v@) == w,
            (Err(e), Err(g)) => e == g,
            _ => false,
        },
        res_bounded(r, p as int, s.len() as int),
{
    let (a, x) = match parameter_p(s, p) {
        Ok(x) => x,
        Err(e) => {
            if e.fatal {
                return Err(e);
            }
            return Ok((p, Vec::new()));
        },
    };
    match parameters_rest_p(s, a) {
        Err(e) => Err(e),
        Ok((c, mut xs)) => {
            proof {
                lemma_params_view_cons(x, xs@);
            }
            xs.insert(0, x);
            Ok((c, xs))
        },
    }
}

fn return_type_p(s: &Vec<char>, p: usize) -> (r: (usize, Option<Type>))
    requires
        p <= s.len(),
    ensures
        r.0 == p + spec_return_type(s@, p as int).0,
        r.1 == spec_return_type(s@, p as int).1,
        r.0 <= s.len(),
{
    match ws_tag_p(s, p, Token::Arrow) {
        Err(_) => (p, None),
        Ok((a, _)) => match type_p(s, a) {
            Ok((b, t)) => (b, Some(t)),
            Err(_) => (p, None),
        },
    }
}

/// A function definition at `p`.
#[verifier::spinoff_prover]
#[verifier::rlimit(100)]
pub fn func_p(s: &Vec<char>, p: usize) -> (r: PResult<Func>)
    requires
        p <= s.len(),
    ensures
        res_view(r, p as int, spec_func(s@, p as int)),
        res_bounded(r, p as int, s.len() as int),
        r matches Ok((q, _)) ==> q > p,
{
    let a = match ws_tag_p(s, p, Token::Keyword(Keyword::Func)) {
        Ok((a, _)) => a,
        Err(e) => {
            return Err(e);
        },
    };
    let (b, name) = match ident_p(s, a) {
        Ok(x) => x,
        Err(e) => {
            return Err(e);
        },
    };
    let c = match tag_p(s, b, Token::LParen) {
        Ok((c, _)) => c,
        Err(e) => {
            return Err(e);
        },
    };
    let (d, parameters) = match parameters_p(s, c) {
        Ok(x) => x,
        Err(e) => {
            return Err(e);
        },
    };
    let e = match tag_p(s, d, Token::RParen) {
        Ok((e, _)) => e,
        Err(x) => {
            return Err(x);
        },
    };
    let (f, ret) = return_type_p(s, e);
    let (g, block) = match block_p(s, f) {
        Ok(x) => x,
        Err(x) => {
            return Err(x);
        },
    };
    let return_type = match ret {
        Some(t) => t,
        None => Type::Void,
    };
    let ghost v = SpecFunc {
        name: name@,
        parameters: params_view(parameters@),
        return_type,
        block: block@,
    };
    let func = Func { name, parameters, return_type, block };
    assert(func@ == v);
    Ok((g, func))
}

/// A function definition at the start of `input`.
pub fn parse_func(input: &str) -> (r: PResult<Func>)
    ensures
        res_view(r, 0, spec_func(input@, 0)),
{
    let s = str_to_chars(input);
    func_p(&s, 0)
}

} // verus!
