//! Expressions and the expression grammar.
use vstd::prelude::*;

use crate::frontend::parsers::common::string::{spec_string, string_p};
use crate::frontend::parsers::common::{
    char_at, fail, ident_p, rem, res_bounded, res_eq, res_list, res_view, spec_ident, spec_sym, sym_p, tag_at,
    tag_p, ws, ws_len, Expectation, PResult, ParseError, SRes, Token,
};
use crate::frontend::parsers::lvalue::{lvalue_p, lvalue_view, spec_lvalue, LValue, SpecLValue};
use crate::frontend::parsers::stmt::{spec_stmt, stmt_p, stmt_view, SpecStmt, Stmt};
use crate::text::str_to_chars;

verus! {

/// Prefix operators.
#[derive(Copy, Clone, Debug, PartialEq, Eq)]
pub enum UnaryOpMode {
    Neg,
    Not,
}

/// Binary operators.
#[derive(Copy, Clone, Debug, PartialEq, Eq, Hash)]
pub enum BinOpMode {
    Add,
    Sub,
    Mul,
    Div,
}

/// Literal values.
#[derive(Debug, PartialEq, Eq)]
pub enum Literal {
    Int(i32),
    Char(char),
    Bool(bool),
    String(String),
}

/// The mathematical form of a [`Literal`].
pub enum SpecLiteral {
    Int(i32),
    Char(char),
    Bool(bool),
    Str(Seq<char>),
}

pub open spec fn literal_view(l: Literal) -> SpecLiteral {
    match l {
        Literal::Int(i) => SpecLiteral::Int(i),
        Literal::Char(c) => SpecLiteral::Char(c),
        Literal::Bool(b) => SpecLiteral::Bool(b),
        Literal::String(s) => SpecLiteral::Str(s@),
    }
}

impl View for Literal {
    type V = SpecLiteral;

    open spec fn view(&self) -> SpecLiteral {
        literal_view(*self)
    }
}

impl Literal {
    /// A copy of the literal.
    pub fn copy(&self) -> (r: Self)
        ensures
            r@ == self@,
    {
        match self {
            Literal::Int(i) => Literal::Int(*i),
            Literal::Char(c) => Literal::Char(*c),
            Literal::Bool(b) => Literal::Bool(*b),
            Literal::String(s) => Literal::String(s.clone()),
        }
    }
}

/// An expression.
#[derive(Debug, PartialEq, Eq)]
pub enum Expr {
    Literal(Literal),
    LValue(LValue),
    Array(Vec<Expr>),
    Call(String, Vec<Expr>),
    UnaryOp(UnaryOpMode, Box<Expr>),
    BinaryOp(BinOpMode, Box<Expr>, Box<Expr>),
    Stmt(Stmt),
    Block(Vec<Expr>, Option<Box<Expr>>),
}

/// The mathematical form of an [`Expr`].
pub enum SpecExpr {
    Literal(SpecLiteral),
    LValue(SpecLValue),
    Array(Seq<SpecExpr>),
    Call(Seq<char>, Seq<SpecExpr>),
    UnaryOp(UnaryOpMode, Box<SpecExpr>),
    BinaryOp(BinOpMode, Box<SpecExpr>, Box<SpecExpr>),
    Stmt(SpecStmt),
    Block(Seq<SpecExpr>, Option<Box<SpecExpr>>),
}

pub open spec fn expr_view(e: Expr) -> SpecExpr
    decreases e,
{
    match e {
        Expr::Literal(l) => SpecExpr::Literal(literal_view(l)),
        Expr::LValue(lv) => SpecExpr::LValue(lvalue_view(lv)),
        Expr::Array(v) => SpecExpr::Array(exprs_view(v@)),
        Expr::Call(id, v) => SpecExpr::Call(id@, exprs_view(v@)),
        Expr::UnaryOp(m, a) => SpecExpr::UnaryOp(m, Box::new(expr_view(*a))),
        Expr::BinaryOp(m, a, b) => SpecExpr::BinaryOp(
            m,
            Box::new(expr_view(*a)),
            Box::new(expr_view(*b)),
        ),
        Expr::Stmt(st) => SpecExpr::Stmt(stmt_view(st)),
        Expr::Block(v, r) => SpecExpr::Block(
            exprs_view(v@),
            match r {
                Some(x) => Some(Box::new(expr_view(*x))),
                None => None,
            },
        ),
    }
}

pub open spec fn exprs_view(v: Seq<Expr>) -> Seq<SpecExpr>
    decreases v,
{
    if v.len() == 0 {
        seq![]
    } else {
        seq![expr_view(v[0])] + exprs_view(v.drop_first())
    }
}

impl View for Expr {
    type V = SpecExpr;

    open spec fn view(&self) -> SpecExpr {
        expr_view(*self)
    }
}

/// `r`, or, where `r` failed without being fatal, `next`: an alternative.
pub open spec fn or_else<T>(r: SRes<T>, next: SRes<T>) -> SRes<T> {
    match r {
        Ok(v) => Ok(v),
        Err(e) => if e.fatal {
            Err(e)
        } else {
            next
        },
    }
}

/// `opt`: the result of `r` if it succeeded, nothing (consuming nothing)
/// if it failed without being fatal.
pub open spec fn opt<T>(r: SRes<T>) -> SRes<Option<T>> {
    match r {
        Ok((n, v)) => Ok((n, Some(v))),
        Err(e) => if e.fatal {
            Err(e)
        } else {
            Ok((0, None))
        },
    }
}

pub open spec fn is_dec(c: char) -> bool {
    '0' <= c && c <= '9'
}

/// The length of the run of decimal digits at `q`.
pub open spec fn digits_len(s: Seq<char>, q: int) -> nat
    decreases rem(s, q),
{
    if 0 <= q < s.len() && is_dec(s[q]) {
        1 + digits_len(s, q + 1)
    } else {
        0
    }
}

/// The value of the `k` decimal digits at `q`.
pub open spec fn digits_value(s: Seq<char>, q: int, k: nat) -> int
    decreases k,
{
    if k == 0 {
        0
    } else {
        digits_value(s, q, (k - 1) as nat) * 10 + (s[q + k - 1] as int - '0' as int)
    }
}

/// A decimal `i32`: an optional sign and at least one digit; the value must
/// fit in an `i32`.
pub open spec fn spec_i32(s: Seq<char>, p: int) -> SRes<i32> {
    let neg = char_at(s, p, '-');
    let sign_len: nat = if neg || char_at(s, p, '+') {
        1
    } else {
        0
    };
    let k = digits_len(s, p + sign_len);
    let mag = digits_value(s, p + sign_len, k);
    let v = if neg {
        -mag
    } else {
        mag
    };
    if k == 0 {
        Err(fail(p, Expectation::Digit))
    } else if i32::MIN <= v <= i32::MAX {
        Ok((sign_len + k, v as i32))
    } else {
        Err(fail(p, Expectation::Digit))
    }
}

/// `true` or `false`.
pub open spec fn spec_bool(s: Seq<char>, p: int) -> SRes<bool> {
    if tag_at(s, p, Token::True) {
        Ok((4, true))
    } else if tag_at(s, p, Token::False) {
        Ok((5, false))
    } else {
        Err(fail(p, Expectation::Tag(Token::False)))
    }
}

/// A character literal: any character between single quotes.
pub open spec fn spec_char_lit(s: Seq<char>, p: int) -> SRes<char> {
    if !char_at(s, p, '\'') {
        Err(fail(p, Expectation::Char('\'')))
    } else if !(p + 1 < s.len()) {
        Err(fail(p + 1, Expectation::Something))
    } else if !char_at(s, p + 2, '\'') {
        Err(fail(p + 2, Expectation::Char('\'')))
    } else {
        Ok((3, s[p + 1]))
    }
}

/// A literal: an integer, a boolean, a character or a string, tried in
/// that order.
#[verifier::opaque]
pub open spec fn spec_literal(s: Seq<char>, p: int) -> SRes<SpecLiteral> {
    match spec_i32(s, p) {
        Ok((n, v)) => Ok((n, SpecLiteral::Int(v))),
        Err(_) => match spec_bool(s, p) {
            Ok((n, v)) => Ok((n, SpecLiteral::Bool(v))),
            Err(_) => match spec_char_lit(s, p) {
                Ok((n, v)) => Ok((n, SpecLiteral::Char(v))),
                Err(_) => match spec_string(s, p) {
                    Ok((n, v)) => Ok((n, SpecLiteral::Str(v))),
                    Err(e) => Err(e),
                },
            },
        },
    }
}

/// An expression: sums of products of prefixed operands. `*` and `/` bind
/// tighter than `+` and `-`, all four associate to the left, and the prefix
/// operators `-` and `!` bind tightest of all.
pub open spec fn spec_expr(s: Seq<char>, p: int) -> SRes<SpecExpr>
    decreases rem(s, p), 20int,
{
    spec_sum(s, p)
}

pub open spec fn spec_sum(s: Seq<char>, p: int) -> SRes<SpecExpr>
    decreases rem(s, p), 19int,
{
    match spec_term(s, p) {
        Err(e) => Err(e),
        Ok((n, t)) => match spec_sum_rest(s, p + n, t) {
            Ok((m, r)) => Ok((n + m, r)),
            Err(e) => Err(e),
        },
    }
}

pub open spec fn add_op(s: Seq<char>, q: int) -> Option<BinOpMode> {
    if char_at(s, q, '+') {
        Some(BinOpMode::Add)
    } else if char_at(s, q, '-') {
        Some(BinOpMode::Sub)
    } else {
        None
    }
}

pub open spec fn mul_op(s: Seq<char>, q: int) -> Option<BinOpMode> {
    if char_at(s, q, '*') {
        Some(BinOpMode::Mul)
    } else if char_at(s, q, '/') {
        Some(BinOpMode::Div)
    } else {
        None
    }
}

/// The `+`/`-` operations that follow the left operand `acc` at `q`.
pub open spec fn spec_sum_rest(s: Seq<char>, q: int, acc: SpecExpr) -> SRes<SpecExpr>
    decreases rem(s, q), 17int,
{
    match add_op(s, q) {
        None => Ok((0, acc)),
        Some(op) => match spec_term(s, q + 1) {
            Err(e) => Err(e),
            Ok((n, t)) => match spec_sum_rest(
                s,
                q + 1 + n,
                SpecExpr::BinaryOp(op, Box::new(acc), Box::new(t)),
            ) {
                Ok((m, r)) => Ok((1 + n + m, r)),
                Err(e) => Err(e),
            },
        },
    }
}

pub open spec fn spec_term(s: Seq<char>, p: int) -> SRes<SpecExpr>
    decreases rem(s, p), 18int,
{
    match spec_unary(s, p) {
        Err(e) => Err(e),
        Ok((n, u)) => match spec_term_rest(s, p + n, u) {
            Ok((m, r)) => Ok((n + m, r)),
            Err(e) => Err(e),
        },
    }
}

/// The `*`/`/` operations that follow the left operand `acc` at `q`.
pub open spec fn spec_term_rest(s: Seq<char>, q: int, acc: SpecExpr) -> SRes<SpecExpr>
    decreases rem(s, q), 15int,
{
    match mul_op(s, q) {
        None => Ok((0, acc)),
        Some(op) => match spec_unary(s, q + 1) {
            Err(e) => Err(e),
            Ok((n, u)) => match spec_term_rest(
                s,
                q + 1 + n,
                SpecExpr::BinaryOp(op, Box::new(acc), Box::new(u)),
            ) {
                Ok((m, r)) => Ok((1 + n + m, r)),
                Err(e) => Err(e),
            },
        },
    }
}

pub open spec fn prefix_op(s: Seq<char>, p: int) -> Option<UnaryOpMode> {
    if char_at(s, p, '-') {
        Some(UnaryOpMode::Neg)
    } else if char_at(s, p, '!') {
        Some(UnaryOpMode::Not)
    } else {
        None
    }
}

/// An operand with any number of prefix operators directly before it.
pub open spec fn spec_unary(s: Seq<char>, p: int) -> SRes<SpecExpr>
    decreases rem(s, p), 16int,
{
    match prefix_op(s, p) {
        Some(op) => match spec_unary(s, p + 1) {
            Ok((n, e)) => Ok((n + 1, SpecExpr::UnaryOp(op, Box::new(e)))),
            Err(e) => Err(e),
        },
        None => spec_operand(s, p),
    }
}

/// An operand, with whitespace around it: a literal, a call, a
/// parenthesised expression, a block, an array, a statement or a place,
/// tried in that order.
pub open spec fn spec_operand(s: Seq<char>, p: int) -> SRes<SpecExpr>
    decreases rem(s, p), 14int,
{
    let w = ws_len(s, p);
    let q = p + w;
    let lit = match spec_literal(s, q) {
        Ok((n, l)) => Ok((n, SpecExpr::Literal(l))),
        Err(e) => Err(e),
    };
    let st = match spec_stmt(s, q) {
        Ok((n, x)) => Ok((n, SpecExpr::Stmt(x))),
        Err(e) => Err(e),
    };
    let lv = match spec_lvalue(s, q) {
        Ok((n, x)) => Ok((n, SpecExpr::LValue(x))),
        Err(e) => Err(e),
    };
    let alt = or_else(
        lit,
        or_else(
            spec_call(s, q),
            or_else(
                spec_sub_expr(s, q),
                or_else(spec_block(s, q), or_else(spec_array(s, q), or_else(st, lv))),
            ),
        ),
    );
    match alt {
        Ok((n, e)) => Ok((w + n + ws_len(s, q + n), e)),
        Err(e) => Err(e),
    }
}

/// A call: a name, then arguments separated by commas in parentheses.
pub open spec fn spec_call(s: Seq<char>, p: int) -> SRes<SpecExpr>
    decreases rem(s, p), 13int,
{
    match spec_ident(s, p) {
        Err(e) => Err(e),
        Ok((k, id)) => {
            let r = p + k;
            let a = r + ws_len(s, r);
            if !char_at(s, a, '(') {
                Err(fail(a, Expectation::Char('(')))
            } else {
                match spec_expr_list(s, a + 1) {
                    Err(e) => Err(e),
                    Ok((m, args)) => {
                        let c = a + 1 + m;
                        if char_at(s, c, ')') {
                            Ok(((c + 1 + ws_len(s, c + 1) - p) as nat, SpecExpr::Call(id, args)))
                        } else {
                            Err(fail(c, Expectation::Char(')')))
                        }
                    },
                }
            }
        },
    }
}

/// An expression in parentheses; once the opening parenthesis and the
/// expression are read, a missing closing parenthesis is fatal.
pub open spec fn spec_sub_expr(s: Seq<char>, p: int) -> SRes<SpecExpr>
    decreases rem(s, p), 13int,
{
    let a = p + ws_len(s, p);
    if !char_at(s, a, '(') {
        Err(fail(a, Expectation::Char('(')))
    } else {
        let b = a + 1 + ws_len(s, a + 1);
        match spec_expr(s, b) {
            Err(e) => Err(e),
            Ok((n, e)) => {
                let d = b + n + ws_len(s, b + n);
                if char_at(s, d, ')') {
                    Ok(((d + 1 + ws_len(s, d + 1) - p) as nat, e))
                } else {
                    Err(ParseError { pos: d as usize, expected: Expectation::Char(')'), fatal: true })
                }
            },
        }
    }
}

/// A block: expressions each followed by `;`, then an optional final
/// expression (the block's value), in braces.
pub open spec fn spec_block(s: Seq<char>, p: int) -> SRes<SpecExpr>
    decreases rem(s, p), 13int,
{
    let a = p + ws_len(s, p);
    if !char_at(s, a, '{') {
        Err(fail(a, Expectation::Char('{')))
    } else {
        let b = a + 1 + ws_len(s, a + 1);
        match spec_block_items(s, b) {
            Err(e) => Err(e),
            Ok((n, items)) => {
                let c = b + n + ws_len(s, b + n);
                match opt(spec_expr(s, c)) {
                    Err(e) => Err(e),
                    Ok((m, last)) => {
                        let d = c + m + ws_len(s, c + m);
                        if char_at(s, d, '}') {
                            Ok(
                                (
                                    (d + 1 + ws_len(s, d + 1) - p) as nat,
                                    SpecExpr::Block(
                                        items,
                                        match last {
                                            Some(x) => Some(Box::new(x)),
                                            None => None,
                                        },
                                    ),
                                ),
                            )
                        } else {
                            Err(fail(d, Expectation::Char('}')))
                        }
                    },
                }
            },
        }
    }
}

/// The expressions of a block that are each followed by `;`.
pub open spec fn spec_block_items(s: Seq<char>, p: int) -> SRes<Seq<SpecExpr>>
    decreases rem(s, p), 21int,
{
    match spec_expr(s, p) {
        Err(e) => if e.fatal {
            Err(e)
        } else {
            Ok((0, seq![]))
        },
        Ok((n, e)) => match spec_sym(s, p + n, ';') {
            Err(_) => Ok((0, seq![])),
            Ok((k, _)) => match spec_block_items(s, p + n + k) {
                Ok((m, es)) => Ok((n + k + m, seq![e] + es)),
                Err(x) => Err(x),
            },
        },
    }
}

/// An array: expressions separated by commas in brackets.
pub open spec fn spec_array(s: Seq<char>, p: int) -> SRes<SpecExpr>
    decreases rem(s, p), 13int,
{
    let a = p + ws_len(s, p);
    if !char_at(s, a, '[') {
        Err(fail(a, Expectation::Char('[')))
    } else {
        let b = a + 1 + ws_len(s, a + 1);
        match spec_expr_list(s, b) {
            Err(e) => Err(e),
            Ok((m, es)) => {
                let d = b + m + ws_len(s, b + m);
                if char_at(s, d, ']') {
                    Ok(((d + 1 + ws_len(s, d + 1) - p) as nat, SpecExpr::Array(es)))
                } else {
                    Err(fail(d, Expectation::Char(']')))
                }
            },
        }
    }
}

/// Expressions separated by commas (possibly none).
pub open spec fn spec_expr_list(s: Seq<char>, p: int) -> SRes<Seq<SpecExpr>>
    decreases rem(s, p), 21int,
{
    match spec_expr(s, p) {
        Err(e) => if e.fatal {
            Err(e)
        } else {
            Ok((0, seq![]))
        },
        Ok((n, e)) => match spec_expr_list_rest(s, p + n) {
            Ok((m, es)) => Ok((n + m, seq![e] + es)),
            Err(x) => Err(x),
        },
    }
}

/// The `, expression` items after the first expression of a list.
pub open spec fn spec_expr_list_rest(s: Seq<char>, p: int) -> SRes<Seq<SpecExpr>>
    decreases rem(s, p), 9int,
{
    match spec_sym(s, p, ',') {
        Err(_) => Ok((0, seq![])),
        Ok((k, _)) => match spec_expr(s, p + k) {
            Err(e) => if e.fatal {
                Err(e)
            } else {
                Ok((0, seq![]))
            },
            Ok((n, e)) => match spec_expr_list_rest(s, p + k + n) {
                Ok((m, es)) => Ok((k + n + m, seq![e] + es)),
                Err(x) => Err(x),
            },
        },
    }
}

pub proof fn lemma_exprs_view_cons(e: Expr, v: Seq<Expr>)
    ensures
        exprs_view(v.insert(0, e)) == seq![expr_view(e)] + exprs_view(v),
{
    assert(v.insert(0, e).drop_first() =~= v);
}

proof fn lemma_digits_value_monotone(s: Seq<char>, q: int, j: nat, k: nat)
    requires
        j <= k,
        forall|i: int| q <= i < q + k ==> is_dec(#[trigger] s[i]),
    ensures
        0 <= digits_value(s, q, j) <= digits_value(s, q, k),
    decreases k,
{
    if k > j {
        lemma_digits_value_monotone(s, q, j, (k - 1) as nat);
    } else if k > 0 {
        lemma_digits_value_monotone(s, q, (k - 1) as nat, (k - 1) as nat);
    }
}

/// A decimal `i32` at `p`.
fn i32_p(s: &Vec<char>, p: usize) -> (r: PResult<i32>)
    requires
        p <= s.len(),
    ensures
        res_eq(r, p as int, spec_i32(s@, p as int)),
        res_bounded(r, p as int, s.len() as int),
{
    let neg = p < s.len() && s[p] == '-';
    let signed = neg || (p < s.len() && s[p] == '+');
    let q: usize = if signed {
        p + 1
    } else {
        p
    };
    let mut j: usize = q;
    let mut acc: i64 = 0;
    let mut over = false;
    while j < s.len() && '0' <= s[j] && s[j] <= '9'
        invariant
            q <= j <= s.len(),
            digits_len(s@, q as int) == (j - q) + digits_len(s@, j as int),
            forall|i: int| q <= i < j ==> is_dec(#[trigger] s@[i]),
            over ==> digits_value(s@, q as int, (j - q) as nat) > 2147483648,
            !over ==> acc == digits_value(s@, q as int, (j - q) as nat) && 0 <= acc
                <= 2147483648,
        decreases s.len() - j,
    {
        let d = (s[j] as u32 - '0' as u32) as i64;
        proof {
            lemma_digits_value_monotone(s@, q as int, (j - q) as nat, (j - q) as nat);
        }
        if !over {
            acc = acc * 10 + d;
            if acc > 2147483648 {
                over = true;
            }
        }
        j = j + 1;
    }
    if j == q || over {
        return Err(ParseError { pos: p, expected: Expectation::Digit, fatal: false });
    }
    if neg {
        Ok((j, (0 - acc) as i32))
    } else if acc <= 2147483647 {
        Ok((j, acc as i32))
    } else {
        Err(ParseError { pos: p, expected: Expectation::Digit, fatal: false })
    }
}

fn bool_p(s: &Vec<char>, p: usize) -> (r: PResult<bool>)
    requires
        p <= s.len(),
    ensures
        res_eq(r, p as int, spec_bool(s@, p as int)),
        res_bounded(r, p as int, s.len() as int),
{
    if let Ok((q, _)) = tag_p(s, p, Token::True) {
        return Ok((q, true));
    }
    match tag_p(s, p, Token::False) {
        Ok((q, _)) => Ok((q, false)),
        Err(e) => Err(e),
    }
}

fn char_lit_p(s: &Vec<char>, p: usize) -> (r: PResult<char>)
    requires
        p <= s.len(),
    ensures
        res_eq(r, p as int, spec_char_lit(s@, p as int)),
        res_bounded(r, p as int, s.len() as int),
{
    if !(p < s.len() && s[p] == '\'') {
        Err(ParseError { pos: p, expected: Expectation::Char('\''), fatal: false })
    } else if !(p + 1 < s.len()) {
        Err(ParseError { pos: p + 1, expected: Expectation::Something, fatal: false })
    } else if !(p + 2 < s.len() && s[p + 2] == '\'') {
        Err(ParseError { pos: p + 2, expected: Expectation::Char('\''), fatal: false })
    } else {
        Ok((p + 3, s[p + 1]))
    }
}

/// A literal at `p`.
pub fn literal_p(s: &Vec<char>, p: usize) -> (r: PResult<Literal>)
    requires
        p <= s.len(),
    ensures
        res_view(r, p as int, spec_literal(s@, p as int)),
        res_bounded(r, p as int, s.len() as int),
{
    proof {
        reveal(spec_literal);
    }
    if let Ok((q, v)) = i32_p(s, p) {
        return Ok((q, Literal::Int(v)));
    }
    if let Ok((q, v)) = bool_p(s, p) {
        return Ok((q, Literal::Bool(v)));
    }
    if let Ok((q, v)) = char_lit_p(s, p) {
        return Ok((q, Literal::Char(v)));
    }
    match string_p(s, p) {
        Ok((q, v)) => Ok((q, Literal::String(v))),
        Err(e) => Err(e),
    }
}

/// An expression at `p`.
pub fn expr_p(s: &Vec<char>, p: usize) -> (r: PResult<Expr>)
    requires
        p <= s.len(),
    ensures
        res_view(r, p as int, spec_expr(s@, p as int)),
        res_bounded(r, p as int, s.len() as int),
    decreases s.len() - p, 20int,
{
    sum_p(s, p)
}

#[verifier::rlimit(100)]
fn sum_p(s: &Vec<char>, p: usize) -> (r: PResult<Expr>)
    requires
        p <= s.len(),
    ensures
        res_view(r, p as int, spec_sum(s@, p as int)),
        res_bounded(r, p as int, s.len() as int),
    decreases s.len() - p, 19int,
{
    match term_p(s, p) {
        Err(e) => Err(e),
        Ok((a, t)) => sum_rest_p(s, a, t),
    }
}

#[verifier::rlimit(100)]
fn sum_rest_p(s: &Vec<char>, q: usize, acc: Expr) -> (r: PResult<Expr>)
    requires
        q <= s.len(),
    ensures
        res_view(r, q as int, spec_sum_rest(s@, q as int, acc@)),
        res_bounded(r, q as int, s.len() as int),
    decreases s.len() - q, 17int,
{
    let op = if q < s.len() && s[q] == '+' {
        BinOpMode::Add
    } else if q < s.len() && s[q] == '-' {
        BinOpMode::Sub
    } else {
        return Ok((q, acc));
    };
    match term_p(s, q + 1) {
        Err(e) => Err(e),
        Ok((a, t)) => sum_rest_p(s, a, Expr::BinaryOp(op, Box::new(acc), Box::new(t))),
    }
}

fn term_p(s: &Vec<char>, p: usize) -> (r: PResult<Expr>)
    requires
        p <= s.len(),
    ensures
        res_view(r, p as int, spec_term(s@, p as int)),
        res_bounded(r, p as int, s.len() as int),
    decreases s.len() - p, 18int,
{
    match unary_p(s, p) {
        Err(e) => Err(e),
        Ok((a, u)) => term_rest_p(s, a, u),
    }
}

fn term_rest_p(s: &Vec<char>, q: usize, acc: Expr) -> (r: PResult<Expr>)
    requires
        q <= s.len(),
    ensures
        res_view(r, q as int, spec_term_rest(s@, q as int, acc@)),
        res_bounded(r, q as int, s.len() as int),
    decreases s.len() - q, 15int,
{
    let op = if q < s.len() && s[q] == '*' {
        BinOpMode::Mul
    } else if q < s.len() && s[q] == '/' {
        BinOpMode::Div
    } else {
        return Ok((q, acc));
    };
    match unary_p(s, q + 1) {
        Err(e) => Err(e),
        Ok((a, u)) => term_rest_p(s, a, Expr::BinaryOp(op, Box::new(acc), Box::new(u))),
    }
}

fn unary_p(s: &Vec<char>, p: usize) -> (r: PResult<Expr>)
    requires
        p <= s.len(),
    ensures
        res_view(r, p as int, spec_unary(s@, p as int)),
        res_bounded(r, p as int, s.len() as int),
    decreases s.len() - p, 16int,
{
    let op = if p < s.len() && s[p] == '-' {
        UnaryOpMode::Neg
    } else if p < s.len() && s[p] == '!' {
        UnaryOpMode::Not
    } else {
        return operand_p(s, p);
    };
    match unary_p(s, p + 1) {
        Err(e) => Err(e),
        Ok((a, e)) => Ok((a, Expr::UnaryOp(op, Box::new(e)))),
    }
}

fn operand_p(s: &Vec<char>, p: usize) -> (r: PResult<Expr>)
    requires
        p <= s.len(),
    ensures
        res_view(r, p as int, spec_operand(s@, p as int)),
        res_bounded(r, p as int, s.len() as int),
    decreases s.len() - p, 14int,
{
    let q = ws(s, p);
    match literal_p(s, q) {
        Ok((a, l)) => {
            return Ok((ws(s, a), Expr::Literal(l)));
        },
        Err(e) => if e.fatal {
            return Err(e);
        },
    }
    match call_p(s, q) {
        Ok((a, x)) => {
            return Ok((ws(s, a), x));
        },
        Err(e) => if e.fatal {
            return Err(e);
        },
    }
    match sub_expr_p(s, q) {
        Ok((a, x)) => {
            return Ok((ws(s, a), x));
        },
        Err(e) => if e.fatal {
            return Err(e);
        },
    }
    match block_p(s, q) {
        Ok((a, x)) => {
            return Ok((ws(s, a), x));
        },
        Err(e) => if e.fatal {
            return Err(e);
        },
    }
    match array_p(s, q) {
        Ok((a, x)) => {
            return Ok((ws(s, a), x));
        },
        Err(e) => if e.fatal {
            return Err(e);
        },
    }
    match stmt_p(s, q) {
        Ok((a, x)) => {
            return Ok((ws(s, a), Expr::Stmt(x)));
        },
        Err(e) => if e.fatal {
            return Err(e);
        },
    }
    match lvalue_p(s, q) {
        Ok((a, x)) => Ok((ws(s, a), Expr::LValue(x))),
        Err(e) => Err(e),
    }
}

fn call_p(s: &Vec<char>, p: usize) -> (r: PResult<Expr>)
    requires
        p <= s.len(),
    ensures
        res_view(r, p as int, spec_call(s@, p as int)),
        res_bounded(r, p as int, s.len() as int),
    decreases s.len() - p, 13int,
{
    let (r, id) = match ident_p(s, p) {
        Ok(x) => x,
        Err(e) => {
            return Err(e);
        },
    };
    let a = ws(s, r);
    if !(a < s.len() && s[a] == '(') {
        return Err(ParseError { pos: a, expected: Expectation::Char('('), fatal: false });
    }
    let (c, args) = match expr_list_p(s, a + 1) {
        Ok(x) => x,
        Err(e) => {
            return Err(e);
        },
    };
    if !(c < s.len() && s[c] == ')') {
        return Err(ParseError { pos: c, expected: Expectation::Char(')'), fatal: false });
    }
    Ok((ws(s, c + 1), Expr::Call(id, args)))
}

fn sub_expr_p(s: &Vec<char>, p: usize) -> (r: PResult<Expr>)
    requires
        p <= s.len(),
    ensures
        res_view(r, p as int, spec_sub_expr(s@, p as int)),
        res_bounded(r, p as int, s.len() as int),
    decreases s.len() - p, 13int,
{
    let a = ws(s, p);
    if !(a < s.len() && s[a] == '(') {
        return Err(ParseError { pos: a, expected: Expectation::Char('('), fatal: false });
    }
    let b = ws(s, a + 1);
    let (c, e) = match expr_p(s, b) {
        Ok(x) => x,
        Err(e) => {
            return Err(e);
        },
    };
    let d = ws(s, c);
    if !(d < s.len() && s[d] == ')') {
        return Err(ParseError { pos: d, expected: Expectation::Char(')'), fatal: true });
    }
    Ok((ws(s, d + 1), e))
}

/// A block at `p`.
pub fn block_p(s: &Vec<char>, p: usize) -> (r: PResult<Expr>)
    requires
        p <= s.len(),
    ensures
        res_view(r, p as int, spec_block(s@, p as int)),
        res_bounded(r, p as int, s.len() as int),
    decreases s.len() - p, 13int,
{
    let a = ws(s, p);
    if !(a < s.len() && s[a] == '{') {
        return Err(ParseError { pos: a, expected: Expectation::Char('{'), fatal: false });
    }
    let b = ws(s, a + 1);
    let (n, items) = match block_items_p(s, b) {
        Ok(x) => x,
        Err(e) => {
            return Err(e);
        },
    };
    let c = ws(s, n);
    let (m, last) = match expr_p(s, c) {
        Ok((m, x)) => (m, Some(Box::new(x))),
        Err(e) => {
            if e.fatal {
                return Err(e);
            }
            (c, None)
        },
    };
    let d = ws(s, m);
    if !(d < s.len() && s[d] == '}') {
        return Err(ParseError { pos: d, expected: Expectation::Char('}'), fatal: false });
    }
    Ok((ws(s, d + 1), Expr::Block(items, last)))
}

fn block_items_p(s: &Vec<char>, p: usize) -> (r: PResult<Vec<Expr>>)
    requires
        p <= s.len(),
    ensures
        res_list(r, p as int, spec_block_items(s@, p as int)),
        res_bounded(r, p as int, s.len() as int),
    decreases s.len() - p, 21int,
{
    let (a, e) = match expr_p(s, p) {
        Ok(x) => x,
        Err(e) => {
            if e.fatal {
                return Err(e);
            }
            return Ok((p, Vec::new()));
        },
    };
    let b = match sym_p(s, a, ';') {
        Ok((b, _)) => b,
        Err(_) => {
            return Ok((p, Vec::new()));
        },
    };
    match block_items_p(s, b) {
        Ok((c, mut es)) => {
            proof {
                lemma_exprs_view_cons(e, es@);
            }
            es.insert(0, e);
            Ok((c, es))
        },
        Err(x) => Err(x),
    }
}

fn array_p(s: &Vec<char>, p: usize) -> (r: PResult<Expr>)
    requires
        p <= s.len(),
    ensures
        res_view(r, p as int, spec_array(s@, p as int)),
        res_bounded(r, p as int, s.len() as int),
    decreases s.len() - p, 13int,
{
    let a = ws(s, p);
    if !(a < s.len() && s[a] == '[') {
        return Err(ParseError { pos: a, expected: Expectation::Char('['), fatal: false });
    }
    let b = ws(s, a + 1);
    let (m, es) = match expr_list_p(s, b) {
        Ok(x) => x,
        Err(e) => {
            return Err(e);
        },
    };
    let d = ws(s, m);
    if !(d < s.len() && s[d] == ']') {
        return Err(ParseError { pos: d, expected: Expectation::Char(']'), fatal: false });
    }
    Ok((ws(s, d + 1), Expr::Array(es)))
}

fn expr_list_p(s: &Vec<char>, p: usize) -> (r: PResult<Vec<Expr>>)
    requires
        p <= s.len(),
    ensures
        res_list(r, p as int, spec_expr_list(s@, p as int)),
        res_bounded(r, p as int, s.len() as int),
    decreases s.len() - p, 21int,
{
    let (a, e) = match expr_p(s, p) {
        Ok(x) => x,
        Err(e) => {
            if e.fatal {
                return Err(e);
            }
            return Ok((p, Vec::new()));
        },
    };
    match expr_list_rest_p(s, a) {
        Ok((c, mut es)) => {
            proof {
                lemma_exprs_view_cons(e, es@);
            }
            es.insert(0, e);
            Ok((c, es))
        },
        Err(x) => Err(x),
    }
}

fn expr_list_rest_p(s: &Vec<char>, p: usize) -> (r: PResult<Vec<Expr>>)
    requires
        p <= s.len(),
    ensures
        res_list(r, p as int, spec_expr_list_rest(s@, p as int)),
        res_bounded(r, p as int, s.len() as int),
    decreases s.len() - p, 9int,
{
    let a = match sym_p(s, p, ',') {
        Ok((a, _)) => a,
        Err(_) => {
            return Ok((p, Vec::new()));
        },
    };
    let (b, e) = match expr_p(s, a) {
        Ok(x) => x,
        Err(e) => {
            if e.fatal {
                return Err(e);
            }
            return Ok((p, Vec::new()));
        },
    };
    match expr_list_rest_p(s, b) {
        Ok((c, mut es)) => {
            proof {
                lemma_exprs_view_cons(e, es@);
            }
            es.insert(0, e);
            Ok((c, es))
        },
        Err(x) => Err(x),
    }
}

/// A literal at the start of `input`, as an expression.
pub fn parse_literal(input: &str) -> (r: PResult<Expr>)
    ensures
        res_view(
            r,
            0,
            match spec_literal(input@, 0) {
                Ok((n, l)) => Ok((n, SpecExpr::Literal(l))),
                Err(e) => Err(e),
            },
        ),
{
    let s = str_to_chars(input);
    match literal_p(&s, 0) {
        Ok((q, l)) => Ok((q, Expr::Literal(l))),
        Err(e) => Err(e),
    }
}

/// A block at the start of `input`.
pub fn parse_block(input: &str) -> (r: PResult<Expr>)
    ensures
        res_view(r, 0, spec_block(input@, 0)),
{
    let s = str_to_chars(input);
    block_p(&s, 0)
}

/// An expression at the start of `input`.
pub fn parse_expr(input: &str) -> (r: PResult<Expr>)
    ensures
        res_view(r, 0, spec_expr(input@, 0)),
{
    let s = str_to_chars(input);
    expr_p(&s, 0)
}

/// Law: each operator symbol reads as its own operator. At any position,
/// `+` reads as addition, `-` as subtraction, `*` as multiplication and
/// `/` as division, and no other character reads as an infix operator.
/// So two positions read as the same operator only when they hold the
/// same symbol.
pub proof fn law_operator_symbols(s: Seq<char>, q: int, t: Seq<char>, r: int)
    ensures
        char_at(s, q, '+') ==> add_op(s, q) == Some(BinOpMode::Add),
        char_at(s, q, '-') ==> add_op(s, q) == Some(BinOpMode::Sub),
        char_at(s, q, '*') ==> mul_op(s, q) == Some(BinOpMode::Mul),
        char_at(s, q, '/') ==> mul_op(s, q) == Some(BinOpMode::Div),
        add_op(s, q) is Some ==> char_at(s, q, '+') || char_at(s, q, '-'),
        mul_op(s, q) is Some ==> char_at(s, q, '*') || char_at(s, q, '/'),
        add_op(s, q) is Some && add_op(s, q) == add_op(t, r) ==> s[q] == t[r],
        mul_op(s, q) is Some && mul_op(s, q) == mul_op(t, r) ==> s[q] == t[r],
        add_op(s, q) is Some && mul_op(t, r) is Some ==> add_op(s, q) != mul_op(t, r),
{
}

/// No infix operator stands at `q`.
pub open spec fn no_infix_at(s: Seq<char>, q: int) -> bool {
    !char_at(s, q, '+') && !char_at(s, q, '-') && !char_at(s, q, '*') && !char_at(s, q, '/')
}

/// Law: `a * b` and `a / b` read as one product or quotient of the two
/// operands. Where an operand `a` is read at `p`, `*` or `/` follows it,
/// an operand `b` is read right after the symbol, and no infix operator
/// follows `b`, the expression at `p` is `a * b` (for `*`) or `a / b` (for
/// `/`), taking the text of the three.
#[verifier::spinoff_prover]
pub proof fn law_product_of_two(s: Seq<char>, p: int)
    ensures
        match spec_unary(s, p) {
            Ok((n, a)) => (char_at(s, p + n, '*') || char_at(s, p + n, '/')) ==> match spec_unary(
                s,
                p + n + 1,
            ) {
                Ok((m, b)) => no_infix_at(s, p + n + 1 + m) ==> spec_expr(s, p) == Ok::<
                    (nat, SpecExpr),
                    ParseError,
                >(
                    (
                        n + 1 + m,
                        SpecExpr::BinaryOp(
                            if char_at(s, p + n, '*') {
                                BinOpMode::Mul
                            } else {
                                BinOpMode::Div
                            },
                            Box::new(a),
                            Box::new(b),
                        ),
                    ),
                ),
                Err(_) => true,
            },
            Err(_) => true,
        },
{
    match spec_unary(s, p) {
        Ok((n, a)) => {
            if char_at(s, p + n, '*') || char_at(s, p + n, '/') {
                match spec_unary(s, p + n + 1) {
                    Ok((m, b)) => {
                        if no_infix_at(s, p + n + 1 + m) {
                            let op = if char_at(s, p + n, '*') {
                                BinOpMode::Mul
                            } else {
                                BinOpMode::Div
                            };
                            lemma_product_of_two(s, p, n, a, op, m, b);
                        }
                    },
                    Err(_) => {},
                }
            }
        },
        Err(_) => {},
    }
}

#[verifier::spinoff_prover]
proof fn lemma_product_of_two(s: Seq<char>, p: int, n: nat, a: SpecExpr, op: BinOpMode, m: nat, b: SpecExpr)
    requires
        spec_unary(s, p) == Ok::<(nat, SpecExpr), ParseError>((n, a)),
        mul_op(s, p + n) == Some(op),
        spec_unary(s, p + n + 1) == Ok::<(nat, SpecExpr), ParseError>((m, b)),
        mul_op(s, p + n + 1 + m) is None,
        add_op(s, p + n + 1 + m) is None,
    ensures
        spec_expr(s, p) == Ok::<(nat, SpecExpr), ParseError>(
            (n + 1 + m, SpecExpr::BinaryOp(op, Box::new(a), Box::new(b))),
        ),
{
    let e = SpecExpr::BinaryOp(op, Box::new(a), Box::new(b));
    lemma_term_rest_stops(s, p + n + 1 + m, e);
    lemma_term_rest_step(s, p + n, a, op, m, b);
    lemma_term_of(s, p, n, a, 1 + m, e);
    lemma_expr_of_term(s, p, n + 1 + m, e);
}

#[verifier::spinoff_prover]
proof fn lemma_term_rest_stops(s: Seq<char>, q: int, e: SpecExpr)
    requires
        mul_op(s, q) is None,
    ensures
        spec_term_rest(s, q, e) == Ok::<(nat, SpecExpr), ParseError>((0, e)),
{
}

#[verifier::spinoff_prover]
proof fn lemma_term_rest_step(s: Seq<char>, q: int, a: SpecExpr, op: BinOpMode, m: nat, b: SpecExpr)
    requires
        mul_op(s, q) == Some(op),
        spec_unary(s, q + 1) == Ok::<(nat, SpecExpr), ParseError>((m, b)),
        spec_term_rest(s, q + 1 + m, SpecExpr::BinaryOp(op, Box::new(a), Box::new(b))) == Ok::<
            (nat, SpecExpr),
            ParseError,
        >((0, SpecExpr::BinaryOp(op, Box::new(a), Box::new(b)))),
    ensures
        spec_term_rest(s, q, a) == Ok::<(nat, SpecExpr), ParseError>(
            (1 + m, SpecExpr::BinaryOp(op, Box::new(a), Box::new(b))),
        ),
{
}

#[verifier::spinoff_prover]
proof fn lemma_term_of(s: Seq<char>, p: int, n: nat, a: SpecExpr, k: nat, e: SpecExpr)
    requires
        spec_unary(s, p) == Ok::<(nat, SpecExpr), ParseError>((n, a)),
        spec_term_rest(s, p + n, a) == Ok::<(nat, SpecExpr), ParseError>((k, e)),
    ensures
        spec_term(s, p) == Ok::<(nat, SpecExpr), ParseError>((n + k, e)),
{
}

#[verifier::spinoff_prover]
proof fn lemma_expr_of_term(s: Seq<char>, p: int, n: nat, e: SpecExpr)
    requires
        spec_term(s, p) == Ok::<(nat, SpecExpr), ParseError>((n, e)),
        add_op(s, p + n) is None,
    ensures
        spec_expr(s, p) == Ok::<(nat, SpecExpr), ParseError>((n, e)),
{
    assert(spec_sum_rest(s, p + n, e) == Ok::<(nat, SpecExpr), ParseError>((0, e)));
}

/// Law: `a + b` and `a - b` read as one sum or difference of the two
/// terms. Where a term `a` is read at `p`, `+` or `-` follows it, a term
/// `b` is read right after the symbol, and no `+` or `-` follows `b`, the
/// expression at `p` is `a + b` (for `+`) or `a - b` (for `-`), taking the
/// text of the three.
#[verifier::spinoff_prover]
pub proof fn law_sum_of_two(s: Seq<char>, p: int)
    ensures
        match spec_term(s, p) {
            Ok((n, a)) => (char_at(s, p + n, '+') || char_at(s, p + n, '-')) ==> match spec_term(
                s,
                p + n + 1,
            ) {
                Ok((m, b)) => (!char_at(s, p + n + 1 + m, '+') && !char_at(s, p + n + 1 + m, '-'))
                    ==> spec_expr(s, p) == Ok::<(nat, SpecExpr), ParseError>(
                    (
                        n + 1 + m,
                        SpecExpr::BinaryOp(
                            if char_at(s, p + n, '+') {
                                BinOpMode::Add
                            } else {
                                BinOpMode::Sub
                            },
                            Box::new(a),
                            Box::new(b),
                        ),
                    ),
                ),
                Err(_) => true,
            },
            Err(_) => true,
        },
{
    match spec_term(s, p) {
        Ok((n, a)) => {
            if char_at(s, p + n, '+') || char_at(s, p + n, '-') {
                match spec_term(s, p + n + 1) {
                    Ok((m, b)) => {
                        if !char_at(s, p + n + 1 + m, '+') && !char_at(s, p + n + 1 + m, '-') {
                            let op = if char_at(s, p + n, '+') {
                                BinOpMode::Add
                            } else {
                                BinOpMode::Sub
                            };
                            lemma_sum_of_two(s, p, n, a, op, m, b);
                        }
                    },
                    Err(_) => {},
                }
            }
        },
        Err(_) => {},
    }
}

#[verifier::spinoff_prover]
proof fn lemma_sum_of_two(s: Seq<char>, p: int, n: nat, a: SpecExpr, op: BinOpMode, m: nat, b: SpecExpr)
    requires
        spec_term(s, p) == Ok::<(nat, SpecExpr), ParseError>((n, a)),
        add_op(s, p + n) == Some(op),
        spec_term(s, p + n + 1) == Ok::<(nat, SpecExpr), ParseError>((m, b)),
        add_op(s, p + n + 1 + m) is None,
    ensures
        spec_expr(s, p) == Ok::<(nat, SpecExpr), ParseError>(
            (n + 1 + m, SpecExpr::BinaryOp(op, Box::new(a), Box::new(b))),
        ),
{
    let e = SpecExpr::BinaryOp(op, Box::new(a), Box::new(b));
    lemma_sum_rest_stops(s, p + n + 1 + m, e);
    lemma_sum_rest_step(s, p + n, a, op, m, b);
}

#[verifier::spinoff_prover]
proof fn lemma_sum_rest_stops(s: Seq<char>, q: int, e: SpecExpr)
    requires
        add_op(s, q) is None,
    ensures
        spec_sum_rest(s, q, e) == Ok::<(nat, SpecExpr), ParseError>((0, e)),
{
}

#[verifier::spinoff_prover]
proof fn lemma_sum_rest_step(s: Seq<char>, q: int, a: SpecExpr, op: BinOpMode, m: nat, b: SpecExpr)
    requires
        add_op(s, q) == Some(op),
        spec_term(s, q + 1) == Ok::<(nat, SpecExpr), ParseError>((m, b)),
        spec_sum_rest(s, q + 1 + m, SpecExpr::BinaryOp(op, Box::new(a), Box::new(b))) == Ok::<
            (nat, SpecExpr),
            ParseError,
        >((0, SpecExpr::BinaryOp(op, Box::new(a), Box::new(b)))),
    ensures
        spec_sum_rest(s, q, a) == Ok::<(nat, SpecExpr), ParseError>(
            (1 + m, SpecExpr::BinaryOp(op, Box::new(a), Box::new(b))),
        ),
{
}

/// Law: `-` before an operand negates it and `!` before it is its logical
/// negation. Where `-` (or `!`) stands at `p` and an operand with its
/// prefixes reads right after it, the operand at `p` is that one under
/// `Neg` (or `Not`), one character longer; no other character is a prefix
/// operator.
#[verifier::spinoff_prover]
pub proof fn law_prefix_symbols(s: Seq<char>, p: int)
    ensures
        prefix_op(s, p) is Some ==> char_at(s, p, '-') || char_at(s, p, '!'),
        char_at(s, p, '-') ==> match spec_unary(s, p + 1) {
            Ok((n, e)) => spec_unary(s, p) == Ok::<(nat, SpecExpr), ParseError>(
                (n + 1, SpecExpr::UnaryOp(UnaryOpMode::Neg, Box::new(e))),
            ),
            Err(_) => spec_unary(s, p) is Err,
        },
        char_at(s, p, '!') ==> match spec_unary(s, p + 1) {
            Ok((n, e)) => spec_unary(s, p) == Ok::<(nat, SpecExpr), ParseError>(
                (n + 1, SpecExpr::UnaryOp(UnaryOpMode::Not, Box::new(e))),
            ),
            Err(_) => spec_unary(s, p) is Err,
        },
{
}

} // verus!
