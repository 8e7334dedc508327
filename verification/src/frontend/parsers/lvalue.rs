//! Assignable places: a variable, or an element of an array place.
use vstd::prelude::*;

use crate::frontend::parsers::common::{
    char_at, ident_p, rem, res_bounded, res_view, spec_ident, PResult, SRes,
};
use crate::frontend::parsers::expr::{expr_p, expr_view, spec_expr, Expr, SpecExpr};
use crate::text::str_to_chars;

verus! {

/// A place that can be read or assigned: a variable, or `place[index]`.
#[derive(Debug, PartialEq, Eq)]
pub enum LValue {
    Ident(String),
    ArrayElem(Box<LValue>, Box<Expr>),
}

/// The mathematical form of an [`LValue`].
pub enum SpecLValue {
    Ident(Seq<char>),
    ArrayElem(Box<SpecLValue>, Box<SpecExpr>),
}

pub open spec fn lvalue_view(l: LValue) -> SpecLValue
    decreases l,
{
    match l {
        LValue::Ident(id) => SpecLValue::Ident(id@),
        LValue::ArrayElem(inner, e) => SpecLValue::ArrayElem(
            Box::new(lvalue_view(*inner)),
            Box::new(expr_view(*e)),
        ),
    }
}

impl View for LValue {
    type V = SpecLValue;

    open spec fn view(&self) -> SpecLValue {
        lvalue_view(*self)
    }
}

/// A place: a name followed by any number of `[index]`.
pub open spec fn spec_lvalue(s: Seq<char>, p: int) -> SRes<SpecLValue>
    decreases rem(s, p), 13int,
{
    match spec_ident(s, p) {
        Err(e) => Err(e),
        Ok((k, id)) => match spec_lvalue_rest(s, p + k, SpecLValue::Ident(id)) {
            Ok((m, lv)) => Ok((k + m, lv)),
            Err(e) => Err(e),
        },
    }
}

/// The `[index]` suffixes that follow the place `acc` at `p`.
pub open spec fn spec_lvalue_rest(s: Seq<char>, p: int, acc: SpecLValue) -> SRes<SpecLValue>
    decreases rem(s, p), 10int,
{
    if !char_at(s, p, '[') {
        Ok((0, acc))
    } else {
        match spec_expr(s, p + 1) {
            Err(e) => if e.fatal {
                Err(e)
            } else {
                Ok((0, acc))
            },
            Ok((n, e)) => if char_at(s, p + 1 + n, ']') {
                match spec_lvalue_rest(
                    s,
                    p + 2 + n,
                    SpecLValue::ArrayElem(Box::new(acc), Box::new(e)),
                ) {
                    Ok((m, lv)) => Ok((2 + n + m, lv)),
                    Err(x) => Err(x),
                }
            } else {
                Ok((0, acc))
            },
        }
    }
}

/// A place at `p`.
pub fn lvalue_p(s: &Vec<char>, p: usize) -> (r: PResult<LValue>)
    requires
        p <= s.len(),
    ensures
        res_view(r, p as int, spec_lvalue(s@, p as int)),
        res_bounded(r, p as int, s.len() as int),
    decreases s.len() - p, 13int,
{
    match ident_p(s, p) {
        Err(e) => Err(e),
        Ok((a, id)) => lvalue_rest_p(s, a, LValue::Ident(id)),
    }
}

#[verifier::rlimit(100)]
fn lvalue_rest_p(s: &Vec<char>, p: usize, acc: LValue) -> (r: PResult<LValue>)
    requires
        p <= s.len(),
    ensures
        res_view(r, p as int, spec_lvalue_rest(s@, p as int, acc@)),
        res_bounded(r, p as int, s.len() as int),
    decreases s.len() - p, 10int,
{
    if !(p < s.len() && s[p] == '[') {
        return Ok((p, acc));
    }
    match expr_p(s, p + 1) {
        Err(e) => if e.fatal {
            Err(e)
        } else {
            Ok((p, acc))
        },
        Ok((a, e)) => if a < s.len() && s[a] == ']' {
            lvalue_rest_p(s, a + 1, LValue::ArrayElem(Box::new(acc), Box::new(e)))
        } else {
            Ok((p, acc))
        },
    }
}

/// A place at the start of `input`.
pub fn parse_lvalue(input: &str) -> (r: PResult<LValue>)
    ensures
        res_view(r, 0, spec_lvalue(input@, 0)),
{
    let s = str_to_chars(input);
    lvalue_p(&s, 0)
}

} // verus!
