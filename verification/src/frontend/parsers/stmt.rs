//! Statements: declarations, assignments, conditionals and loops.
use vstd::prelude::*;

use crate::frontend::parsers::common::{
    ident_p, rem, res_bounded, res_view, spec_ident, spec_sym, spec_ws_tag, sym_p, ws_tag_p,
    Keyword, PResult, SRes, Token,
};
use crate::frontend::parsers::expr::{
    block_p, expr_p, expr_view, opt, or_else, spec_block, spec_expr, Expr, SpecExpr,
};
use crate::frontend::parsers::types::{spec_type, type_p, Type};
use crate::text::str_to_chars;
use crate::frontend::Ident;

verus! {

/// A statement.
#[derive(PartialEq, Eq, Debug)]
pub enum Stmt {
    Declare { id: Ident, ty: Option<Type>, rvalue: Box<Expr> },
    Assign { id: Ident, rvalue: Box<Expr> },
    If { cond: Box<Expr>, tt: Box<Expr>, ff: Option<Box<Expr>> },
    While { cond: Box<Expr>, then: Box<Expr> },
}

/// The mathematical form of a [`Stmt`].
pub enum SpecStmt {
    Declare { id: Seq<char>, ty: Option<Type>, rvalue: Box<SpecExpr> },
    Assign { id: Seq<char>, rvalue: Box<SpecExpr> },
    If { cond: Box<SpecExpr>, tt: Box<SpecExpr>, ff: Option<Box<SpecExpr>> },
    While { cond: Box<SpecExpr>, then: Box<SpecExpr> },
}

pub open spec fn stmt_view(s: Stmt) -> SpecStmt
    decreases s,
{
    match s {
        Stmt::Declare { id, ty, rvalue } => SpecStmt::Declare {
            id: id@,
            ty,
            rvalue: Box::new(expr_view(*rvalue)),
        },
        Stmt::Assign { id, rvalue } => SpecStmt::Assign { id: id@, rvalue: Box::new(expr_view(*rvalue)) },
        Stmt::If { cond, tt, ff } => SpecStmt::If {
            cond: Box::new(expr_view(*cond)),
            tt: Box::new(expr_view(*tt)),
            ff: match ff {
                Some(f) => Some(Box::new(expr_view(*f))),
                None => None,
            },
        },
        Stmt::While { cond, then } => SpecStmt::While {
            cond: Box::new(expr_view(*cond)),
            then: Box::new(expr_view(*then)),
        },
    }
}

impl View for Stmt {
    type V = SpecStmt;

    open spec fn view(&self) -> SpecStmt {
        stmt_view(*self)
    }
}

/// A statement: a declaration, an assignment, a conditional or a loop,
/// tried in that order.
pub open spec fn spec_stmt(s: Seq<char>, p: int) -> SRes<SpecStmt>
    decreases rem(s, p), 12int,
{
    or_else(
        spec_declare(s, p),
        or_else(spec_assign(s, p), or_else(spec_if(s, p), spec_while(s, p))),
    )
}

/// An optional `: type` annotation at `p`.
#[verifier::opaque]
pub open spec fn spec_annotation(s: Seq<char>, p: int) -> (nat, Option<Type>) {
    match spec_sym(s, p, ':') {
        Err(_) => (0, None),
        Ok((c, _)) => match spec_type(s, p + c) {
            Ok((n, t)) => (c + n, Some(t)),
            Err(_) => (0, None),
        },
    }
}

/// `let name [: type] = expression`.
pub open spec fn spec_declare(s: Seq<char>, p: int) -> SRes<SpecStmt>
    decreases rem(s, p), 11int,
{
    match spec_ws_tag(s, p, Token::Keyword(Keyword::Decl)) {
        Err(e) => Err(e),
        Ok((k, _)) => match spec_ident(s, p + k) {
            Err(e) => Err(e),
            Ok((i, id)) => {
                let a = p + k + i;
                let (t, ty) = spec_annotation(s, a);
                match spec_sym(s, a + t, '=') {
                    Err(e) => Err(e),
                    Ok((c, _)) => match spec_expr(s, a + t + c) {
                        Err(e) => Err(e),
                        Ok((n, e)) => Ok(
                            (
                                k + i + t + c + n,
                                SpecStmt::Declare { id, ty, rvalue: Box::new(e) },
                            ),
                        ),
                    },
                }
            },
        },
    }
}

/// `name = expression`.
pub open spec fn spec_assign(s: Seq<char>, p: int) -> SRes<SpecStmt>
    decreases rem(s, p), 11int,
{
    match spec_ident(s, p) {
        Err(e) => Err(e),
        Ok((i, id)) => match spec_sym(s, p + i, '=') {
            Err(e) => Err(e),
            Ok((c, _)) => match spec_expr(s, p + i + c) {
                Err(e) => Err(e),
                Ok((n, e)) => Ok((i + c + n, SpecStmt::Assign { id, rvalue: Box::new(e) })),
            },
        },
    }
}

/// `(expression)` after a keyword: the condition of `if` and `while`.
pub open spec fn spec_condition(s: Seq<char>, p: int) -> SRes<SpecExpr>
    decreases rem(s, p), 21int,
{
    match spec_sym(s, p, '(') {
        Err(e) => Err(e),
        Ok((c1, _)) => match spec_expr(s, p + c1) {
            Err(e) => Err(e),
            Ok((n, e)) => match spec_sym(s, p + c1 + n, ')') {
                Err(x) => Err(x),
                Ok((c2, _)) => Ok((c1 + n + c2, e)),
            },
        },
    }
}

/// `if (condition) block [else block]`.
pub open spec fn spec_if(s: Seq<char>, p: int) -> SRes<SpecStmt>
    decreases rem(s, p), 11int,
{
    match spec_ws_tag(s, p, Token::Keyword(Keyword::Cond)) {
        Err(e) => Err(e),
        Ok((k, _)) => match spec_condition(s, p + k) {
            Err(e) => Err(e),
            Ok((n, cond)) => match spec_if_tail(s, p + k + n, cond) {
                Err(e) => Err(e),
                Ok((m, st)) => Ok((k + n + m, st)),
            },
        },
    }
}

/// The branches of a conditional whose condition `cond` has been read.
pub open spec fn spec_if_tail(s: Seq<char>, p: int, cond: SpecExpr) -> SRes<SpecStmt>
    decreases rem(s, p), 14int,
{
    match spec_block(s, p) {
        Err(e) => Err(e),
        Ok((m, tt)) => match opt(spec_else(s, p + m)) {
            Err(e) => Err(e),
            Ok((l, ff)) => Ok(
                (
                    m + l,
                    SpecStmt::If {
                        cond: Box::new(cond),
                        tt: Box::new(tt),
                        ff: match ff {
                            Some(f) => Some(Box::new(f)),
                            None => None,
                        },
                    },
                ),
            ),
        },
    }
}

/// `else block`.
pub open spec fn spec_else(s: Seq<char>, p: int) -> SRes<SpecExpr>
    decreases rem(s, p), 11int,
{
    match spec_ws_tag(s, p, Token::Keyword(Keyword::CondElse)) {
        Err(e) => Err(e),
        Ok((k, _)) => match spec_block(s, p + k) {
            Err(e) => Err(e),
            Ok((m, b)) => Ok((k + m, b)),
        },
    }
}

/// `while (condition) block`.
pub open spec fn spec_while(s: Seq<char>, p: int) -> SRes<SpecStmt>
    decreases rem(s, p), 11int,
{
    match spec_ws_tag(s, p, Token::Keyword(Keyword::Loop)) {
        Err(e) => Err(e),
        Ok((k, _)) => match spec_condition(s, p + k) {
            Err(e) => Err(e),
            Ok((n, cond)) => match spec_block(s, p + k + n) {
                Err(e) => Err(e),
                Ok((m, then)) => Ok(
                    (k + n + m, SpecStmt::While { cond: Box::new(cond), then: Box::new(then) }),
                ),
            },
        },
    }
}

/// A statement at `p`.
pub fn stmt_p(s: &Vec<char>, p: usize) -> (r: PResult<Stmt>)
    requires
        p <= s.len(),
    ensures
        res_view(r, p as int, spec_stmt(s@, p as int)),
        res_bounded(r, p as int, s.len() as int),
    decreases s.len() - p, 12int,
{
    match declare_p(s, p) {
        Ok(x) => {
            return Ok(x);
        },
        Err(e) => if e.fatal {
            return Err(e);
        },
    }
    match assign_p(s, p) {
        Ok(x) => {
            return Ok(x);
        },
        Err(e) => if e.fatal {
            return Err(e);
        },
    }
    match if_p(s, p) {
        Ok(x) => {
            return Ok(x);
        },
        Err(e) => if e.fatal {
            return Err(e);
        },
    }
    while_p(s, p)
}

fn annotation_p(s: &Vec<char>, p: usize) -> (r: (usize, Option<Type>))
    requires
        p <= s.len(),
    ensures
        r.0 == p + spec_annotation(s@, p as int).0,
        r.1 == spec_annotation(s@, p as int).1,
        r.0 <= s.len(),
{
    proof {
        reveal(spec_annotation);
    }
    match sym_p(s, p, ':') {
        Err(_) => (p, None),
        Ok((a, _)) => match type_p(s, a) {
            Ok((b, t)) => (b, Some(t)),
            Err(_) => (p, None),
        },
    }
}

fn declare_p(s: &Vec<char>, p: usize) -> (r: PResult<Stmt>)
    requires
        p <= s.len(),
    ensures
        res_view(r, p as int, spec_declare(s@, p as int)),
        res_bounded(r, p as int, s.len() as int),
    decreases s.len() - p, 11int,
{
    let a = match ws_tag_p(s, p, Token::Keyword(Keyword::Decl)) {
        Ok((a, _)) => a,
        Err(e) => {
            return Err(e);
        },
    };
    let (b, id) = match ident_p(s, a) {
        Ok(x) => x,
        Err(e) => {
            return Err(e);
        },
    };
    let (c, ty) = annotation_p(s, b);
    let d = match sym_p(s, c, '=') {
        Ok((d, _)) => d,
        Err(e) => {
            return Err(e);
        },
    };
    match expr_p(s, d) {
        Err(e) => Err(e),
        Ok((f, e)) => Ok((f, Stmt::Declare { id, ty, rvalue: Box::new(e) })),
    }
}

fn assign_p(s: &Vec<char>, p: usize) -> (r: PResult<Stmt>)
    requires
        p <= s.len(),
    ensures
        res_view(r, p as int, spec_assign(s@, p as int)),
        res_bounded(r, p as int, s.len() as int),
    decreases s.len() - p, 11int,
{
    let (a, id) = match ident_p(s, p) {
        Ok(x) => x,
        Err(e) => {
            return Err(e);
        },
    };
    let b = match sym_p(s, a, '=') {
        Ok((b, _)) => b,
        Err(e) => {
            return Err(e);
        },
    };
    match expr_p(s, b) {
        Err(e) => Err(e),
        Ok((c, e)) => Ok((c, Stmt::Assign { id, rvalue: Box::new(e) })),
    }
}

fn condition_p(s: &Vec<char>, p: usize) -> (r: PResult<Expr>)
    requires
        p <= s.len(),
    ensures
        res_view(r, p as int, spec_condition(s@, p as int)),
        res_bounded(r, p as int, s.len() as int),
    decreases s.len() - p, 21int,
{
    let a = match sym_p(s, p, '(') {
        Ok((a, _)) => a,
        Err(e) => {
            return Err(e);
        },
    };
    let (b, e) = match expr_p(s, a) {
        Ok(x) => x,
        Err(e) => {
            return Err(e);
        },
    };
    match sym_p(s, b, ')') {
        Ok((c, _)) => Ok((c, e)),
        Err(x) => Err(x),
    }
}

fn else_p(s: &Vec<char>, p: usize) -> (r: PResult<Expr>)
    requires
        p <= s.len(),
    ensures
        res_view(r, p as int, spec_else(s@, p as int)),
        res_bounded(r, p as int, s.len() as int),
    decreases s.len() - p, 11int,
{
    match ws_tag_p(s, p, Token::Keyword(Keyword::CondElse)) {
        Err(e) => Err(e),
        Ok((a, _)) => block_p(s, a),
    }
}

fn if_p(s: &Vec<char>, p: usize) -> (r: PResult<Stmt>)
    requires
        p <= s.len(),
    ensures
        res_view(r, p as int, spec_if(s@, p as int)),
        res_bounded(r, p as int, s.len() as int),
    decreases s.len() - p, 11int,
{
    let a = match ws_tag_p(s, p, Token::Keyword(Keyword::Cond)) {
        Ok((a, _)) => a,
        Err(e) => {
            return Err(e);
        },
    };
    let (b, cond) = match condition_p(s, a) {
        Ok(x) => x,
        Err(e) => {
            return Err(e);
        },
    };
    if_tail_p(s, b, cond)
}

#[verifier::spinoff_prover]
#[verifier::rlimit(100)]
fn if_tail_p(s: &Vec<char>, p: usize, cond: Expr) -> (r: PResult<Stmt>)
    requires
        p <= s.len(),
    ensures
        res_view(r, p as int, spec_if_tail(s@, p as int, cond@)),
        res_bounded(r, p as int, s.len() as int),
    decreases s.len() - p, 14int,
{
    let (c, tt) = match block_p(s, p) {
        Ok(x) => x,
        Err(e) => {
            return Err(e);
        },
    };
    let (d, ff) = match else_p(s, c) {
        Ok((d, f)) => (d, Some(Box::new(f))),
        Err(e) => {
            if e.fatal {
                return Err(e);
            }
            (c, None)
        },
    };
    let ghost sv = SpecStmt::If {
        cond: Box::new(cond@),
        tt: Box::new(tt@),
        ff: match &ff {
            Some(f) => Some(Box::new((**f)@)),
            None => None,
        },
    };
    let st = Stmt::If { cond: Box::new(cond), tt: Box::new(tt), ff };
    assert(st@ == sv);
    Ok((d, st))
}

#[verifier::spinoff_prover]
#[verifier::rlimit(100)]
fn while_p(s: &Vec<char>, p: usize) -> (r: PResult<Stmt>)
    requires
        p <= s.len(),
    ensures
        res_view(r, p as int, spec_while(s@, p as int)),
        res_bounded(r, p as int, s.len() as int),
    decreases s.len() - p, 11int,
{
    let a = match ws_tag_p(s, p, Token::Keyword(Keyword::Loop)) {
        Ok((a, _)) => a,
        Err(e) => {
            return Err(e);
        },
    };
    let (b, cond) = match condition_p(s, a) {
        Ok(x) => x,
        Err(e) => {
            return Err(e);
        },
    };
    let (c, then) = match block_p(s, b) {
        Ok(x) => x,
        Err(e) => {
            return Err(e);
        },
    };
    let ghost sv = SpecStmt::While { cond: Box::new(cond@), then: Box::new(then@) };
    let st = Stmt::While { cond: Box::new(cond), then: Box::new(then) };
    assert(st@ == sv);
    Ok((c, st))
}

/// A statement at the start of `input`.
pub fn parse_stmt(input: &str) -> (r: PResult<Stmt>)
    ensures
        res_view(r, 0, spec_stmt(input@, 0)),
{
    let s = str_to_chars(input);
    stmt_p(&s, 0)
}

/// A conditional statement at the start of `input`.
pub fn parse_if(input: &str) -> (r: PResult<Stmt>)
    ensures
        res_view(r, 0, spec_if(input@, 0)),
{
    let s = str_to_chars(input);
    if_p(&s, 0)
}

/// Law: a loop reads as written. When a statement parses as a loop, it was
/// read as `while (C) B`: the keyword, then the condition `C`, which is
/// what a condition parses to right after the keyword, then the body `B`,
/// which is the block that parses right after the condition; the loop
/// takes exactly the text of the three.
#[verifier::spinoff_prover]
pub proof fn law_while_parts(s: Seq<char>, p: int)
    ensures
        match spec_stmt(s, p) {
            Ok((len, SpecStmt::While { cond, then })) => match spec_ws_tag(
                s,
                p,
                Token::Keyword(Keyword::Loop),
            ) {
                Ok((k, _)) => match spec_condition(s, p + k) {
                    Ok((n, c)) => c == *cond && match spec_block(s, p + k + n) {
                        Ok((m, b)) => b == *then && len == k + n + m && b is Block,
                        Err(_) => false,
                    },
                    Err(_) => false,
                },
                Err(_) => false,
            },
            _ => true,
        },
{
    lemma_block_is_block(s, p);
    match spec_declare(s, p) {
        Ok((_, d)) => assert(d is Declare),
        Err(_) => {},
    }
    match spec_assign(s, p) {
        Ok((_, a)) => assert(a is Assign),
        Err(_) => {},
    }
    match spec_if(s, p) {
        Ok((_, i)) => {
            let (k, _) = spec_ws_tag(s, p, Token::Keyword(Keyword::Cond))->Ok_0;
            let (n, cond) = spec_condition(s, p + k)->Ok_0;
            assert(spec_if_tail(s, p + k + n, cond)->Ok_0.1 is If);
            assert(i is If);
        },
        Err(_) => {},
    }
    match spec_while(s, p) {
        Ok((_, w)) => {
            let (k, _) = spec_ws_tag(s, p, Token::Keyword(Keyword::Loop))->Ok_0;
            let (n, cond) = spec_condition(s, p + k)->Ok_0;
            lemma_block_is_block(s, p + k + n);
        },
        Err(_) => {},
    }
}

/// What a block parses to is a block.
proof fn lemma_block_is_block(s: Seq<char>, p: int)
    ensures
        spec_block(s, p) matches Ok((_, b)) ==> b is Block,
{
}

/// The conditional parts read at `p`, as [`law_if_parts`] states them.
pub open spec fn if_read_as_written(s: Seq<char>, p: int, r: SRes<SpecStmt>) -> bool {
    match r {
        Ok((len, SpecStmt::If { cond, tt, ff })) => match spec_ws_tag(s, p, Token::Keyword(Keyword::Cond)) {
            Ok((k, _)) => match spec_condition(s, p + k) {
                Ok((n, c)) => c == *cond && match spec_block(s, p + k + n) {
                    Ok((m, b)) => b == *tt && b is Block && match ff {
                        None => len == k + n + m,
                        Some(f) => match spec_else(s, p + k + n + m) {
                            Ok((l, e)) => e == *f && e is Block && len == k + n + m + l,
                            Err(_) => false,
                        },
                    },
                    Err(_) => false,
                },
                Err(_) => false,
            },
            Err(_) => false,
        },
        _ => true,
    }
}

/// A statement that parses as a conditional is what the conditional
/// parser reads.
#[verifier::spinoff_prover]
proof fn lemma_stmt_if(s: Seq<char>, p: int)
    ensures
        (spec_stmt(s, p) is Ok && spec_stmt(s, p)->Ok_0.1 is If) ==> spec_stmt(s, p) == spec_if(s, p),
{
    if spec_stmt(s, p) is Ok && spec_stmt(s, p)->Ok_0.1 is If {
        if spec_declare(s, p) is Ok {
            assert(spec_declare(s, p)->Ok_0.1 is Declare);
        }
        if spec_assign(s, p) is Ok {
            assert(spec_assign(s, p)->Ok_0.1 is Assign);
        }
        if spec_while(s, p) is Ok {
            assert(spec_while(s, p)->Ok_0.1 is While);
        }
    }
}

#[verifier::spinoff_prover]
proof fn lemma_if_read_as_written(s: Seq<char>, p: int)
    ensures
        if_read_as_written(s, p, spec_if(s, p)),
{
    match spec_if(s, p) {
        Ok((_, i)) => {
            let (k, _) = spec_ws_tag(s, p, Token::Keyword(Keyword::Cond))->Ok_0;
            let (n, cond) = spec_condition(s, p + k)->Ok_0;
            let q = p + k + n;
            lemma_block_is_block(s, q);
            let (m, tt) = spec_block(s, q)->Ok_0;
            match spec_else(s, q + m) {
                Ok((l, e)) => {
                    let (k2, _) = spec_ws_tag(s, q + m, Token::Keyword(Keyword::CondElse))->Ok_0;
                    lemma_block_is_block(s, q + m + k2);
                },
                Err(_) => {},
            }
        },
        Err(_) => {},
    }
}

/// Law: a conditional reads as written. When a statement parses as a
/// conditional, it was read as `if (C) B [else E]`: its condition is what a
/// condition parses to right after the keyword `if`, its then branch is
/// the block that parses right after the condition, and its else branch,
/// if any, is the block after the keyword `else` that follows; the
/// statement takes exactly their text.
#[verifier::spinoff_prover]
pub proof fn law_if_parts(s: Seq<char>, p: int)
    ensures
        if_read_as_written(s, p, spec_stmt(s, p)),
{
    lemma_stmt_if(s, p);
    lemma_if_read_as_written(s, p);
}

/// A statement that parses as a declaration is what the declaration
/// parser reads.
#[verifier::spinoff_prover]
proof fn lemma_stmt_declare(s: Seq<char>, p: int)
    ensures
        (spec_stmt(s, p) is Ok && spec_stmt(s, p)->Ok_0.1 is Declare) ==> spec_stmt(s, p) == spec_declare(s, p),
{
    if spec_stmt(s, p) is Ok && spec_stmt(s, p)->Ok_0.1 is Declare {
        if spec_assign(s, p) is Ok {
            assert(spec_assign(s, p)->Ok_0.1 is Assign);
        }
        if spec_if(s, p) is Ok {
            let (k, _) = spec_ws_tag(s, p, Token::Keyword(Keyword::Cond))->Ok_0;
            let (n, cond) = spec_condition(s, p + k)->Ok_0;
            assert(spec_if_tail(s, p + k + n, cond)->Ok_0.1 is If);
        }
        if spec_while(s, p) is Ok {
            assert(spec_while(s, p)->Ok_0.1 is While);
        }
    }
}

/// A statement that parses as an assignment is what the assignment parser
/// reads.
#[verifier::spinoff_prover]
proof fn lemma_stmt_assign(s: Seq<char>, p: int)
    ensures
        (spec_stmt(s, p) is Ok && spec_stmt(s, p)->Ok_0.1 is Assign) ==> spec_stmt(s, p) == spec_assign(s, p),
{
    if spec_stmt(s, p) is Ok && spec_stmt(s, p)->Ok_0.1 is Assign {
        if spec_declare(s, p) is Ok {
            assert(spec_declare(s, p)->Ok_0.1 is Declare);
        }
        if spec_if(s, p) is Ok {
            let (k, _) = spec_ws_tag(s, p, Token::Keyword(Keyword::Cond))->Ok_0;
            let (n, cond) = spec_condition(s, p + k)->Ok_0;
            assert(spec_if_tail(s, p + k + n, cond)->Ok_0.1 is If);
        }
        if spec_while(s, p) is Ok {
            assert(spec_while(s, p)->Ok_0.1 is While);
        }
    }
}

/// Law: a declaration and an assignment read as written. A statement that
/// parses as `let name [: type] = value` holds the name read after the
/// keyword, the annotation read after the name, and the value that parses
/// after the `=`; one that parses as `name = value` holds the name read at
/// its start and the value that parses after the `=`.
#[verifier::spinoff_prover]
pub proof fn law_declare_assign_parts(s: Seq<char>, p: int)
    ensures
        match spec_stmt(s, p) {
            Ok((len, SpecStmt::Declare { id, ty, rvalue })) => match spec_ws_tag(
                s,
                p,
                Token::Keyword(Keyword::Decl),
            ) {
                Ok((k, _)) => match spec_ident(s, p + k) {
                    Ok((i, name)) => name == id && spec_annotation(s, p + k + i).1 == ty && match spec_sym(
                        s,
                        p + k + i + spec_annotation(s, p + k + i).0,
                        '=',
                    ) {
                        Ok((c, _)) => spec_expr(
                            s,
                            p + k + i + spec_annotation(s, p + k + i).0 + c,
                        ) matches Ok((_, v)) && v == *rvalue,
                        Err(_) => false,
                    },
                    Err(_) => false,
                },
                Err(_) => false,
            },
            Ok((len, SpecStmt::Assign { id, rvalue })) => match spec_ident(s, p) {
                Ok((i, name)) => name == id && match spec_sym(s, p + i, '=') {
                    Ok((c, _)) => spec_expr(s, p + i + c) matches Ok((_, v)) && v == *rvalue,
                    Err(_) => false,
                },
                Err(_) => false,
            },
            _ => true,
        },
{
    lemma_stmt_declare(s, p);
    lemma_stmt_assign(s, p);
}

} // verus!
