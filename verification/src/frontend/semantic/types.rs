//! Type checking: the constraints a type can satisfy, and the checker that
//! walks a scope-checked program, reporting every expression whose type
//! violates the constraint its context puts on it.
use vstd::prelude::*;

use crate::frontend::errors::{spec_default_error, CompileError, SpecCompileError};
use crate::frontend::parsers::expr::{
    exprs_view, BinOpMode, Expr, Literal, SpecExpr, SpecLiteral, UnaryOpMode,
};
use crate::frontend::parsers::func::{Func, SpecFunc};
use crate::frontend::parsers::lvalue::{LValue, SpecLValue};
use crate::frontend::parsers::stmt::{SpecStmt, Stmt};
use crate::frontend::parsers::types::{basic_equals, type_text, BasicType, Type};
use crate::frontend::parsers::{Prog};
use crate::frontend::semantic::symbol::{FunctionTypeInfo, SymbolTable, UniqueId};
use crate::text::{extend_chars, string_from_chars};

verus! {

/// What a context requires of the type of an expression.
#[derive(Debug, PartialEq, Eq)]
pub enum TypeContraint {
    Any,
    Is(Type),
    IsIndexable,
    IsComparibleTo(Type),
    Or(Box<TypeContraint>, Box<TypeContraint>),
    And(Box<TypeContraint>, Box<TypeContraint>),
}

/// The constraints a basic type satisfies on its own: being itself, being
/// comparable to itself, and (for `int` and `char`) being comparable to
/// the other one.
pub open spec fn basic_satisfies(b: BasicType, c: TypeContraint) -> bool {
    c == TypeContraint::Is(Type::BasicType(b)) || c == TypeContraint::IsComparibleTo(
        Type::BasicType(b),
    ) || (b == BasicType::Int && c == TypeContraint::IsComparibleTo(
        Type::BasicType(BasicType::Char),
    )) || (b == BasicType::Char && c == TypeContraint::IsComparibleTo(
        Type::BasicType(BasicType::Int),
    ))
}

/// Whether the type `t` satisfies the constraint `c`.
pub open spec fn satisfies(t: Type, c: TypeContraint) -> bool
    decreases c,
{
    match c {
        TypeContraint::Any => true,
        TypeContraint::Or(c1, c2) => satisfies(t, *c1) || satisfies(t, *c2),
        TypeContraint::And(c1, c2) => satisfies(t, *c1) && satisfies(t, *c2),
        TypeContraint::IsIndexable => t is Array,
        _ => match t {
            Type::Void => c == TypeContraint::Is(Type::Void),
            Type::BasicType(b) => basic_satisfies(b, c),
            Type::Array(i1) => match c {
                TypeContraint::Is(Type::Array(i2)) => i1 == i2,
                _ => false,
            },
        },
    }
}

/// The element type of an array type.
pub open spec fn indexed_type(t: Type) -> Option<Type> {
    match t {
        Type::Array(inner) => Some(*inner),
        _ => None,
    }
}

impl TypeContraint {
    /// An exact copy of the constraint.
    pub fn copy(&self) -> (r: TypeContraint)
        ensures
            r == *self,
        decreases self,
    {
        match self {
            TypeContraint::Any => TypeContraint::Any,
            TypeContraint::Is(t) => TypeContraint::Is(t.copy()),
            TypeContraint::IsIndexable => TypeContraint::IsIndexable,
            TypeContraint::IsComparibleTo(t) => TypeContraint::IsComparibleTo(t.copy()),
            TypeContraint::Or(a, b) => TypeContraint::Or(Box::new(a.copy()), Box::new(b.copy())),
            TypeContraint::And(a, b) => TypeContraint::And(Box::new(a.copy()), Box::new(b.copy())),
        }
    }
}

fn basic_satisfies_exec(b: BasicType, c: &TypeContraint) -> (r: bool)
    ensures
        r == basic_satisfies(b, *c),
{
    match c {
        TypeContraint::Is(Type::BasicType(x)) => basic_equals(*x, b),
        TypeContraint::IsComparibleTo(Type::BasicType(x)) => basic_equals(*x, b) || (matches!(
            b,
            BasicType::Int
        ) && matches!(x, BasicType::Char)) || (matches!(b, BasicType::Char) && matches!(
            x,
            BasicType::Int
        )),
        _ => false,
    }
}

impl Type {
    /// Whether the type satisfies the constraint `c`.
    pub fn satisfies(&self, c: &TypeContraint) -> (r: bool)
        ensures
            r == satisfies(*self, *c),
        decreases c,
    {
        match c {
            TypeContraint::Any => true,
            TypeContraint::Or(c1, c2) => self.satisfies(c1) || self.satisfies(c2),
            TypeContraint::And(c1, c2) => self.satisfies(c1) && self.satisfies(c2),
            TypeContraint::IsIndexable => self.get_indexed_type().is_some(),
            _ => match self {
                Type::Void => matches!(c, TypeContraint::Is(Type::Void)),
                Type::BasicType(b) => basic_satisfies_exec(*b, c),
                Type::Array(i1) => match c {
                    TypeContraint::Is(Type::Array(i2)) => i1.equals(i2),
                    _ => false,
                },
            },
        }
    }

    /// The type itself if it satisfies `c`.
    pub fn satisfies_then(self, c: &TypeContraint) -> (r: Option<Type>)
        ensures
            r == (if satisfies(self, *c) {
                Some(self)
            } else {
                None
            }),
    {
        if self.satisfies(c) {
            Some(self)
        } else {
            None
        }
    }

    /// The element type, for an array type.
    pub fn get_indexed_type(&self) -> (r: Option<Type>)
        ensures
            r == indexed_type(*self),
    {
        match self {
            Type::Array(t) => Some(t.copy()),
            _ => None,
        }
    }
}

pub open spec fn basic_debug(b: BasicType) -> Seq<char> {
    match b {
        BasicType::Int => "Int"@,
        BasicType::Bool => "Bool"@,
        BasicType::Char => "Char"@,
        BasicType::String => "String"@,
    }
}

/// How the debug form of a type reads, e.g. `Array(BasicType(Int))`.
pub open spec fn type_debug(t: Type) -> Seq<char>
    decreases t,
{
    match t {
        Type::Void => "Void"@,
        Type::BasicType(b) => "BasicType("@ + basic_debug(b) + ")"@,
        Type::Array(i) => "Array("@ + type_debug(*i) + ")"@,
    }
}

/// How the debug form of a constraint reads, e.g. `Is(BasicType(Int))`.
pub open spec fn constraint_debug(c: TypeContraint) -> Seq<char>
    decreases c,
{
    match c {
        TypeContraint::Any => "Any"@,
        TypeContraint::Is(t) => "Is("@ + type_debug(t) + ")"@,
        TypeContraint::IsIndexable => "IsIndexable"@,
        TypeContraint::IsComparibleTo(t) => "IsComparibleTo("@ + type_debug(t) + ")"@,
        TypeContraint::Or(a, b) => "Or("@ + constraint_debug(*a) + ", "@ + constraint_debug(*b)
            + ")"@,
        TypeContraint::And(a, b) => "And("@ + constraint_debug(*a) + ", "@ + constraint_debug(*b)
            + ")"@,
    }
}

/// The error for a type `ty` that does not satisfy the constraint `c`.
pub open spec fn constraint_error(c: TypeContraint, ty: Type) -> SpecCompileError {
    SpecCompileError {
        summary: "contraint: "@ + constraint_debug(c) + " ty: "@ + type_text(ty),
        ..spec_default_error()
    }
}

fn write_basic_debug(b: BasicType, v: &mut Vec<char>)
    ensures
        final(v)@ == old(v)@ + basic_debug(b),
{
    match b {
        BasicType::Int => extend_chars(v, "Int"),
        BasicType::Bool => extend_chars(v, "Bool"),
        BasicType::Char => extend_chars(v, "Char"),
        BasicType::String => extend_chars(v, "String"),
    }
}

fn write_type_debug(t: &Type, v: &mut Vec<char>)
    ensures
        final(v)@ == old(v)@ + type_debug(*t),
    decreases t,
{
    let ghost v0 = v@;
    match t {
        Type::Void => extend_chars(v, "Void"),
        Type::BasicType(b) => {
            extend_chars(v, "BasicType(");
            write_basic_debug(*b, v);
            extend_chars(v, ")");
            assert(v@ =~= v0 + type_debug(*t));
        },
        Type::Array(i) => {
            extend_chars(v, "Array(");
            write_type_debug(i, v);
            extend_chars(v, ")");
            assert(v@ =~= v0 + type_debug(*t));
        },
    }
}

fn write_constraint_debug(c: &TypeContraint, v: &mut Vec<char>)
    ensures
        final(v)@ == old(v)@ + constraint_debug(*c),
    decreases c,
{
    let ghost v0 = v@;
    match c {
        TypeContraint::Any => extend_chars(v, "Any"),
        TypeContraint::Is(t) => {
            extend_chars(v, "Is(");
            write_type_debug(t, v);
            extend_chars(v, ")");
            assert(v@ =~= v0 + constraint_debug(*c));
        },
        TypeContraint::IsIndexable => extend_chars(v, "IsIndexable"),
        TypeContraint::IsComparibleTo(t) => {
            extend_chars(v, "IsComparibleTo(");
            write_type_debug(t, v);
            extend_chars(v, ")");
            assert(v@ =~= v0 + constraint_debug(*c));
        },
        TypeContraint::Or(a, b) => {
            extend_chars(v, "Or(");
            write_constraint_debug(a, v);
            extend_chars(v, ", ");
            write_constraint_debug(b, v);
            extend_chars(v, ")");
            assert(v@ =~= v0 + constraint_debug(*c));
        },
        TypeContraint::And(a, b) => {
            extend_chars(v, "And(");
            write_constraint_debug(a, v);
            extend_chars(v, ", ");
            write_constraint_debug(b, v);
            extend_chars(v, ")");
            assert(v@ =~= v0 + constraint_debug(*c));
        },
    }
}

/// The error for a type `ty` that does not satisfy the constraint `c`.
pub fn constraint_error_exec(c: &TypeContraint, ty: &Type) -> (r: CompileError)
    ensures
        r@ == constraint_error(*c, *ty),
        r.wf(),
{
    let mut v: Vec<char> = Vec::new();
    extend_chars(&mut v, "contraint: ");
    write_constraint_debug(c, &mut v);
    extend_chars(&mut v, " ty: ");
    let text = ty.to_string();
    extend_chars(&mut v, text.as_str());
    CompileError::raw_error(string_from_chars(v.as_slice()))
}

/// Why a check failed: an error was found, or the type could not be
/// decided (the best guess is given).
#[derive(Debug, PartialEq, Eq)]
pub enum TypeCheckError {
    Error,
    Unknown(Type),
}

/// The outcome of checking an expression: its type, or why there is none.
pub type CheckResult = Result<Type, TypeCheckError>;

/// Narrows an undecided result by a constraint: `Is(t)` decides it to `t`;
/// `And` takes whichever side decides (both agreeing, or the first that
/// does); `Or` decides only if both sides decide alike. Anything else is
/// returned unchanged.
pub open spec fn spec_resolve(r: CheckResult, c: TypeContraint) -> CheckResult
    decreases c,
{
    match r {
        Err(TypeCheckError::Unknown(_)) => match c {
            TypeContraint::Is(t) => Ok(t),
            TypeContraint::And(x, y) => {
                let first = spec_resolve(r, *x);
                let second = spec_resolve(r, *y);
                match (first, second) {
                    (Ok(t1), Ok(t2)) => Ok(t1),
                    (Ok(t), _) => Ok(t),
                    (_, Ok(t)) => Ok(t),
                    _ => r,
                }
            },
            TypeContraint::Or(x, y) => {
                let first = spec_resolve(r, *x);
                let second = spec_resolve(r, *y);
                match (first, second) {
                    (Ok(t1), Ok(t2)) => if t1 == t2 {
                        Ok(t1)
                    } else {
                        r
                    },
                    _ => r,
                }
            },
            _ => r,
        },
        _ => r,
    }
}

/// The common type of two results, for the elements of an array: an error
/// wins; a decided type decides an undecided one; two decided types must
/// be equal; two undecided ones unify.
pub open spec fn spec_combine(x: CheckResult, y: CheckResult) -> CheckResult {
    match (x, y) {
        (Err(TypeCheckError::Error), _) => x,
        (_, Err(TypeCheckError::Error)) => y,
        (Err(TypeCheckError::Unknown(_)), Ok(t)) => spec_resolve(x, TypeContraint::Is(t)),
        (Ok(t), Err(TypeCheckError::Unknown(_))) => spec_resolve(y, TypeContraint::Is(t)),
        (Err(TypeCheckError::Unknown(u1)), Err(TypeCheckError::Unknown(u2))) => match spec_unify_unknowns(u1, u2) {
            Some(u) => Err(TypeCheckError::Unknown(u)),
            None => Err(TypeCheckError::Error),
        },
        (Ok(t1), Ok(t2)) => if t1 == t2 {
            Ok(t1)
        } else {
            Err(TypeCheckError::Error)
        },
    }
}

/// Two undecided guesses unify when they are of the same kind, or one of
/// them is `void`.
pub open spec fn spec_unify_unknowns(u1: Type, u2: Type) -> Option<Type> {
    match (u1, u2) {
        (Type::Array(_), Type::Array(_)) => Some(u1),
        (Type::BasicType(_), Type::BasicType(_)) => Some(u1),
        (Type::Void, _) => Some(u2),
        (_, Type::Void) => Some(u1),
        _ => None,
    }
}

/// Results folded from the left with [`spec_combine`].
pub open spec fn spec_fold_from(acc: CheckResult, rest: Seq<CheckResult>) -> CheckResult
    decreases rest.len(),
{
    if rest.len() == 0 {
        acc
    } else {
        spec_fold_from(spec_combine(acc, rest[0]), rest.drop_first())
    }
}

/// The results with repetitions removed, first occurrences kept in order.
pub open spec fn dedup(s: Seq<CheckResult>) -> Seq<CheckResult>
    decreases s.len(),
{
    if s.len() == 0 {
        seq![]
    } else {
        let d = dedup(s.drop_last());
        if d.contains(s.last()) {
            d
        } else {
            d.push(s.last())
        }
    }
}

/// What the checker changes as it goes: the types of variables, the
/// variables of unknown type, and the errors reported so far.
pub struct TcState {
    pub globals: Map<Seq<char>, Type>,
    pub untyped: Set<Seq<char>>,
    pub errors: Seq<SpecCompileError>,
}

/// The signatures of the functions, as (parameter types, return type).
pub type Sigs = Map<Seq<char>, (Seq<Type>, Type)>;

pub open spec fn blank(st: TcState) -> TcState {
    TcState { errors: st.errors.push(spec_default_error()), ..st }
}

pub open spec fn tc_check_type(st: TcState, ty: Type, c: TypeContraint) -> (CheckResult, TcState) {
    if satisfies(ty, c) {
        (Ok(ty), st)
    } else {
        (Err(TypeCheckError::Error), TcState { errors: st.errors.push(constraint_error(c, ty)), ..st })
    }
}

/// An undecided result is reported (with a blank error).
pub open spec fn tc_assert_known(r: CheckResult, st: TcState) -> TcState {
    match r {
        Err(TypeCheckError::Unknown(_)) => blank(st),
        _ => st,
    }
}

pub open spec fn tc_set_untyped(st: TcState, id: Seq<char>, t: Type) -> TcState {
    if st.untyped.contains(id) {
        TcState { globals: st.globals.insert(id, t), untyped: st.untyped.remove(id), ..st }
    } else {
        st
    }
}

/// `x.and(y)`: the first error, or else `y`.
pub open spec fn and_then_result(x: CheckResult, y: CheckResult) -> CheckResult {
    match x {
        Err(e) => Err(e),
        Ok(_) => y,
    }
}

pub open spec fn literal_type(l: SpecLiteral) -> Type {
    match l {
        SpecLiteral::Int(_) => Type::BasicType(BasicType::Int),
        SpecLiteral::Char(_) => Type::BasicType(BasicType::Char),
        SpecLiteral::Bool(_) => Type::BasicType(BasicType::Bool),
        SpecLiteral::Str(_) => Type::BasicType(BasicType::String),
    }
}

/// What a prefix operator needs of its operand, and its result type.
pub open spec fn unary_info(m: UnaryOpMode) -> (Type, Type) {
    match m {
        UnaryOpMode::Neg => (Type::BasicType(BasicType::Int), Type::BasicType(BasicType::Int)),
        UnaryOpMode::Not => (Type::BasicType(BasicType::Bool), Type::BasicType(BasicType::Bool)),
    }
}

/// Checking an expression `e` under the constraint `c`, from the state
/// `st`: the outcome and the state after.
pub open spec fn tc_expr(sigs: Sigs, st: TcState, e: SpecExpr, c: TypeContraint) -> (
    CheckResult,
    TcState,
)
    decreases e, 0int,
{
    match e {
        SpecExpr::Literal(l) => tc_check_type(st, literal_type(l), c),
        SpecExpr::Array(es) => tc_array(sigs, st, es, c),
        SpecExpr::LValue(lv) => tc_lvalue(sigs, st, lv, c),
        SpecExpr::Call(id, ps) => if !sigs.contains_key(id) {
            (Err(TypeCheckError::Error), blank(st))
        } else {
            let params = sigs[id].0;
            let st1 = if params.len() != ps.len() {
                blank(st)
            } else {
                st
            };
            tc_check_type(tc_args(sigs, st1, ps, params), sigs[id].1, c)
        },
        SpecExpr::UnaryOp(m, p) => {
            let (r, st1) = tc_expr(sigs, st, *p, TypeContraint::Is(unary_info(m).0));
            match r {
                Ok(_) => tc_check_type(st1, unary_info(m).1, c),
                Err(x) => (Err(x), st1),
            }
        },
        SpecExpr::BinaryOp(_, p1, p2) => {
            let int_type = Type::BasicType(BasicType::Int);
            let (r1, st1) = tc_expr(sigs, st, *p1, TypeContraint::Is(int_type));
            let (r2, st2) = tc_expr(sigs, st1, *p2, TypeContraint::Is(int_type));
            match and_then_result(r1, r2) {
                Ok(_) => tc_check_type(st2, int_type, c),
                Err(x) => (Err(x), st2),
            }
        },
        SpecExpr::Stmt(s) => tc_stmt(sigs, st, s, c),
        SpecExpr::Block(es, ret) => {
            let st1 = tc_items(sigs, st, es);
            match ret {
                Some(x) => tc_expr(sigs, st1, *x, c),
                None => tc_check_type(st1, Type::Void, c),
            }
        },
    }
}

/// The statements of a block, each checked under `Any`, undecided ones
/// reported.
pub open spec fn tc_items(sigs: Sigs, st: TcState, es: Seq<SpecExpr>) -> TcState
    decreases es, 0int,
{
    if es.len() == 0 {
        st
    } else {
        let (r, st1) = tc_expr(sigs, st, es[0], TypeContraint::Any);
        tc_items(sigs, tc_assert_known(r, st1), es.drop_first())
    }
}

/// The arguments of a call, each checked against its parameter's type
/// (as many as both lists have), undecided ones reported.
pub open spec fn tc_args(sigs: Sigs, st: TcState, ps: Seq<SpecExpr>, params: Seq<Type>) -> TcState
    decreases ps, 0int,
{
    if ps.len() == 0 || params.len() == 0 {
        st
    } else {
        let (r, st1) = tc_expr(sigs, st, ps[0], TypeContraint::Is(params[0]));
        tc_args(sigs, tc_assert_known(r, st1), ps.drop_first(), params.drop_first())
    }
}

/// The elements of an array, each checked under `Any`: their outcomes.
pub open spec fn tc_elems(sigs: Sigs, st: TcState, es: Seq<SpecExpr>) -> (Seq<CheckResult>, TcState)
    decreases es, 0int,
{
    if es.len() == 0 {
        (seq![], st)
    } else {
        let (r, st1) = tc_expr(sigs, st, es[0], TypeContraint::Any);
        let (rs, st2) = tc_elems(sigs, st1, es.drop_first());
        (seq![r] + rs, st2)
    }
}

/// The common type of the distinct element outcomes; an error among them
/// is reported (with a blank error).
pub open spec fn tc_fold(rs: Seq<CheckResult>, st: TcState) -> (CheckResult, TcState) {
    let f = if rs.len() == 0 {
        Err(TypeCheckError::Unknown(Type::Void))
    } else {
        spec_fold_from(rs[0], rs.drop_first())
    };
    (f, if f == Err::<Type, TypeCheckError>(TypeCheckError::Error) {
        blank(st)
    } else {
        st
    })
}

/// An array: empty, it is an undecided array narrowed by `c`; otherwise
/// an array of the elements' common type.
pub open spec fn tc_array(sigs: Sigs, st: TcState, es: Seq<SpecExpr>, c: TypeContraint) -> (
    CheckResult,
    TcState,
)
    decreases es, 1int,
{
    if es.len() == 0 {
        (
            spec_resolve(
                Err(TypeCheckError::Unknown(Type::Array(Box::new(Type::Void)))),
                c,
            ),
            st,
        )
    } else {
        let (rs, st1) = tc_elems(sigs, st, es);
        let (f, st2) = tc_fold(dedup(rs), st1);
        match f {
            Ok(t) => tc_check_type(st2, Type::Array(Box::new(t)), c),
            Err(x) => (Err(x), st2),
        }
    }
}

/// A place: a variable has its recorded type (a variable with none is an
/// error); an element needs an indexable place and an `int` index.
pub open spec fn tc_lvalue(sigs: Sigs, st: TcState, lv: SpecLValue, c: TypeContraint) -> (
    CheckResult,
    TcState,
)
    decreases lv, 0int,
{
    match lv {
        SpecLValue::Ident(id) => if st.globals.contains_key(id) {
            tc_check_type(st, st.globals[id], c)
        } else {
            (Err(TypeCheckError::Error), blank(st))
        },
        SpecLValue::ArrayElem(inner, ex) => {
            let (r1, st1) = tc_lvalue(sigs, st, *inner, TypeContraint::IsIndexable);
            match r1 {
                Err(x) => (Err(x), st1),
                Ok(t) => {
                    let (r2, st2) = tc_expr(
                        sigs,
                        st1,
                        *ex,
                        TypeContraint::Is(Type::BasicType(BasicType::Int)),
                    );
                    match r2 {
                        Err(x) => (Err(x), st2),
                        Ok(_) => tc_check_type(st2, indexed_type(t)->0, c),
                    }
                },
            }
        },
    }
}

/// A statement: a conditional needs a `bool` condition and an else branch
/// of the then branch's type (without one it is `void`); an assignment
/// needs the variable's type (if it has one) and `c`, and gives a variable
/// of unknown type the type found; a loop needs a `bool` condition.
pub open spec fn tc_stmt(sigs: Sigs, st: TcState, s: SpecStmt, c: TypeContraint) -> (
    CheckResult,
    TcState,
)
    decreases s, 0int,
{
    match s {
        SpecStmt::If { cond, tt, ff } => {
            let (rc, st1) = tc_expr(
                sigs,
                st,
                *cond,
                TypeContraint::Is(Type::BasicType(BasicType::Bool)),
            );
            let (rt, st2) = tc_expr(sigs, st1, *tt, c);
            let (rb, st3) = match ff {
                Some(el) => match rt {
                    Ok(t) => tc_expr(sigs, st2, *el, TypeContraint::Is(t)),
                    Err(x) => (Err(x), st2),
                },
                None => tc_check_type(st2, Type::Void, c),
            };
            (and_then_result(rc, rb), st3)
        },
        SpecStmt::Assign { id, rvalue } => {
            let x = if st.globals.contains_key(id) {
                TypeContraint::Is(st.globals[id])
            } else {
                TypeContraint::Any
            };
            let (r, st1) = tc_expr(sigs, st, *rvalue, TypeContraint::And(Box::new(x), Box::new(c)));
            match r {
                Ok(t) => (r, tc_set_untyped(st1, id, t)),
                Err(_) => (r, st1),
            }
        },
        SpecStmt::While { cond, then } => {
            let (rc, st1) = tc_expr(
                sigs,
                st,
                *cond,
                TypeContraint::Is(Type::BasicType(BasicType::Bool)),
            );
            let (rb, st2) = tc_expr(sigs, st1, *then, c);
            (and_then_result(rc, rb), st2)
        },
        SpecStmt::Declare { .. } => (Err(TypeCheckError::Error), st),
    }
}

/// No declaration is left in the expression (scope checking turns them
/// into assignments).
pub open spec fn no_declare(e: SpecExpr) -> bool
    decreases e,
{
    match e {
        SpecExpr::Literal(_) => true,
        SpecExpr::Array(es) => no_declare_seq(es),
        SpecExpr::LValue(lv) => no_declare_lvalue(lv),
        SpecExpr::Call(_, ps) => no_declare_seq(ps),
        SpecExpr::UnaryOp(_, p) => no_declare(*p),
        SpecExpr::BinaryOp(_, p1, p2) => no_declare(*p1) && no_declare(*p2),
        SpecExpr::Stmt(s) => match s {
            SpecStmt::Declare { .. } => false,
            SpecStmt::Assign { rvalue, .. } => no_declare(*rvalue),
            SpecStmt::If { cond, tt, ff } => no_declare(*cond) && no_declare(*tt) && match ff {
                Some(f) => no_declare(*f),
                None => true,
            },
            SpecStmt::While { cond, then } => no_declare(*cond) && no_declare(*then),
        },
        SpecExpr::Block(es, ret) => no_declare_seq(es) && match ret {
            Some(x) => no_declare(*x),
            None => true,
        },
    }
}

pub open spec fn no_declare_seq(es: Seq<SpecExpr>) -> bool
    decreases es,
{
    if es.len() == 0 {
        true
    } else {
        no_declare(es[0]) && no_declare_seq(es.drop_first())
    }
}

pub open spec fn no_declare_lvalue(lv: SpecLValue) -> bool
    decreases lv,
{
    match lv {
        SpecLValue::Ident(_) => true,
        SpecLValue::ArrayElem(inner, ex) => no_declare_lvalue(*inner) && no_declare(*ex),
    }
}

pub proof fn lemma_exprs_view_index(v: Seq<Expr>)
    ensures
        exprs_view(v).len() == v.len(),
        forall|i: int| 0 <= i < v.len() ==> #[trigger] exprs_view(v)[i] == v[i]@,
    decreases v.len(),
{
    if v.len() > 0 {
        lemma_exprs_view_index(v.drop_first());
        assert forall|i: int| 0 <= i < v.len() implies #[trigger] exprs_view(v)[i] == v[i]@ by {
            if i > 0 {
                assert(v.drop_first()[i - 1] == v[i]);
            }
        }
    }
}

pub proof fn lemma_no_declare_seq(es: Seq<SpecExpr>)
    ensures
        no_declare_seq(es) <==> forall|i: int| 0 <= i < es.len() ==> no_declare(#[trigger] es[i]),
    decreases es.len(),
{
    if es.len() > 0 {
        lemma_no_declare_seq(es.drop_first());
        if !no_declare(es[0]) {
            assert(!(forall|i: int| 0 <= i < es.len() ==> no_declare(#[trigger] es[i])));
        }
        if forall|i: int| 0 <= i < es.len() ==> no_declare(#[trigger] es[i]) {
            assert forall|i: int| 0 <= i < es.drop_first().len() implies no_declare(
                #[trigger] es.drop_first()[i],
            ) by {
                assert(es.drop_first()[i] == es[i + 1]);
            }
        }
        if no_declare_seq(es) {
            assert forall|i: int| 0 <= i < es.len() implies no_declare(#[trigger] es[i]) by {
                if i > 0 {
                    assert(es.drop_first()[i - 1] == es[i]);
                }
            }
        }
    }
}

pub open spec fn errors_view(v: Seq<CompileError>) -> Seq<SpecCompileError> {
    Seq::new(v.len(), |i: int| v[i]@)
}

/// The signatures recorded in a symbol table.
pub open spec fn sigs_of(t: SymbolTable) -> Sigs {
    t.funcs@.map_values(|f: FunctionTypeInfo| f@)
}

fn copy_result(r: &CheckResult) -> (o: CheckResult)
    ensures
        o == *r,
{
    match r {
        Ok(t) => Ok(t.copy()),
        Err(TypeCheckError::Error) => Err(TypeCheckError::Error),
        Err(TypeCheckError::Unknown(t)) => Err(TypeCheckError::Unknown(t.copy())),
    }
}

fn result_equals(a: &CheckResult, b: &CheckResult) -> (r: bool)
    ensures
        r == (*a == *b),
{
    match (a, b) {
        (Ok(x), Ok(y)) => x.equals(y),
        (Err(TypeCheckError::Error), Err(TypeCheckError::Error)) => true,
        (Err(TypeCheckError::Unknown(x)), Err(TypeCheckError::Unknown(y))) => x.equals(y),
        _ => false,
    }
}

/// Narrows an undecided result by a constraint.
pub fn resolve(r: &CheckResult, c: &TypeContraint) -> (o: CheckResult)
    ensures
        o == spec_resolve(*r, *c),
    decreases c,
{
    match r {
        Err(TypeCheckError::Unknown(_)) => match c {
            TypeContraint::Is(t) => Ok(t.copy()),
            TypeContraint::And(x, y) => {
                let first = resolve(r, x);
                let second = resolve(r, y);
                match (first, second) {
                    (Ok(t1), Ok(_)) => Ok(t1),
                    (Ok(t), _) => Ok(t),
                    (_, Ok(t)) => Ok(t),
                    _ => copy_result(r),
                }
            },
            TypeContraint::Or(x, y) => {
                let first = resolve(r, x);
                let second = resolve(r, y);
                match (first, second) {
                    (Ok(t1), Ok(t2)) => if t1.equals(&t2) {
                        Ok(t1)
                    } else {
                        copy_result(r)
                    },
                    _ => copy_result(r),
                }
            },
            _ => copy_result(r),
        },
        _ => copy_result(r),
    }
}

/// The equal type of two decided types, if they are equal.
pub fn unify_types(t1: Type, t2: Type) -> (r: Option<Type>)
    ensures
        r == (if t1 == t2 {
            Some(t1)
        } else {
            None
        }),
{
    if t1.equals(&t2) {
        Some(t1)
    } else {
        None
    }
}

/// The unified guess of two undecided types.
pub fn unify_unknowns(u1: Type, u2: Type) -> (r: Option<Type>)
    ensures
        r == spec_unify_unknowns(u1, u2),
{
    match (&u1, &u2) {
        (Type::Array(_), Type::Array(_)) => Some(u1),
        (Type::BasicType(_), Type::BasicType(_)) => Some(u1),
        (Type::Void, _) => Some(u2),
        (_, Type::Void) => Some(u1),
        _ => None,
    }
}

fn combine(x: CheckResult, y: CheckResult) -> (r: CheckResult)
    ensures
        r == spec_combine(x, y),
{
    match (&x, &y) {
        (Err(TypeCheckError::Error), _) => x,
        (_, Err(TypeCheckError::Error)) => y,
        (Err(TypeCheckError::Unknown(_)), Ok(t)) => resolve(&x, &TypeContraint::Is(t.copy())),
        (Ok(t), Err(TypeCheckError::Unknown(_))) => resolve(&y, &TypeContraint::Is(t.copy())),
        (Err(TypeCheckError::Unknown(u1)), Err(TypeCheckError::Unknown(u2))) => match unify_unknowns(
            u1.copy(),
            u2.copy(),
        ) {
            Some(u) => Err(TypeCheckError::Unknown(u)),
            None => Err(TypeCheckError::Error),
        },
        (Ok(t1), Ok(t2)) => match unify_types(t1.copy(), t2.copy()) {
            Some(t) => Ok(t),
            None => Err(TypeCheckError::Error),
        },
    }
}

/// The type checker: the errors it has reported and the symbol table it
/// reads and completes.
pub struct TypeChecker {
    pub errors: Vec<CompileError>,
    pub symbols: SymbolTable,
}

impl TypeChecker {
    pub open spec fn wf(&self) -> bool {
        &&& self.symbols.wf()
        &&& forall|i: int| 0 <= i < self.errors@.len() ==> (#[trigger] self.errors@[i]).wf()
    }

    /// The checker's state as the specification sees it.
    pub open spec fn state(&self) -> TcState {
        TcState {
            globals: self.symbols.globals@,
            untyped: self.symbols.untyped@,
            errors: errors_view(self.errors@),
        }
    }

    /// A checker that adds to `errors` and reads and completes `symbols`.
    pub fn new(errors: Vec<CompileError>, symbols: SymbolTable) -> (r: Self)
        ensures
            r.errors == errors,
            r.symbols == symbols,
    {
        TypeChecker { errors, symbols }
    }

    /// From `old` to `new`, the function table and the undefined functions
    /// are unchanged, and errors are only added after those there were.
    pub open spec fn same_frame(old: TypeChecker, new: TypeChecker) -> bool {
        &&& new.symbols.funcs == old.symbols.funcs
        &&& new.symbols.undefined == old.symbols.undefined
        &&& old.errors@.len() <= new.errors@.len()
        &&& forall|i: int| 0 <= i < old.errors@.len() ==> new.errors@[i] == old.errors@[i]
        &&& new.wf()
    }

    fn push_error(&mut self, e: CompileError)
        requires
            old(self).wf(),
            e.wf(),
        ensures
            Self::same_frame(*old(self), *final(self)),
            final(self).state() == (TcState { errors: old(self).state().errors.push(e@), ..old(self).state() }),
    {
        self.errors.push(e);
        assert(errors_view(self.errors@) =~= errors_view(old(self).errors@).push(e@));
    }

    fn push_blank(&mut self)
        requires
            old(self).wf(),
        ensures
            Self::same_frame(*old(self), *final(self)),
            final(self).state() == blank(old(self).state()),
    {
        self.push_error(CompileError::blank_error());
    }

    /// A copy of the signature of the function `id`, if it is recorded.
    fn get_func_info(&self, id: &UniqueId) -> (r: Option<FunctionTypeInfo>)
        requires
            self.wf(),
        ensures
            r matches Some(info) ==> sigs_of(self.symbols).contains_key(id@) && info@ == sigs_of(
                self.symbols,
            )[id@],
            r is None ==> !sigs_of(self.symbols).contains_key(id@),
    {
        match self.symbols.get_func_info(id) {
            Some(info) => Some(info.copy()),
            None => None,
        }
    }

    /// `ty` if it satisfies `c`; otherwise an error, reported.
    fn check_type(&mut self, ty: Type, c: &TypeContraint) -> (r: CheckResult)
        requires
            old(self).wf(),
        ensures
            Self::same_frame(*old(self), *final(self)),
            (r, final(self).state()) == tc_check_type(old(self).state(), ty, *c),
    {
        if ty.satisfies(c) {
            Ok(ty)
        } else {
            let e = constraint_error_exec(c, &ty);
            self.push_error(e);
            Err(TypeCheckError::Error)
        }
    }

    /// Reports `r` if it is undecided; returns it.
    fn assert_known(&mut self, r: CheckResult) -> (o: CheckResult)
        requires
            old(self).wf(),
        ensures
            Self::same_frame(*old(self), *final(self)),
            o == r,
            final(self).state() == tc_assert_known(r, old(self).state()),
    {
        if let Err(TypeCheckError::Unknown(_)) = r {
            self.push_blank();
        }
        r
    }

    /// Checks `expr` under the constraint `c`.
    pub fn check_expr(&mut self, expr: &Expr, c: &TypeContraint) -> (r: CheckResult)
        requires
            old(self).wf(),
            no_declare(expr@),
        ensures
            Self::same_frame(*old(self), *final(self)),
            (r, final(self).state()) == tc_expr(
                sigs_of(old(self).symbols),
                old(self).state(),
                expr@,
                *c,
            ),
        decreases expr, 1int,
    {
        match expr {
            Expr::Literal(lit) => self.check_literal(lit, c),
            Expr::Array(exs) => {
                proof {
                    assert(expr@ == SpecExpr::Array(exprs_view(exs@)));
                    assert(no_declare_seq(exprs_view(exs@)));
                    lemma_exprs_view_index(exs@);
                    lemma_no_declare_seq(exprs_view(exs@));
                    assert(forall|j: int| 0 <= j < exs@.len() ==> no_declare(#[trigger] exprs_view(exs@)[j]));
                }
                self.check_array(exs, c)
            },
            Expr::LValue(lv) => self.check_lvalue(lv, c),
            Expr::Call(..) => self.check_call(expr, c),
            Expr::UnaryOp(..) => self.check_unary_op(expr, c),
            Expr::BinaryOp(..) => self.check_binary_op(expr, c),
            Expr::Stmt(stmt) => self.check_stmt(stmt, c),
            Expr::Block(..) => self.check_block(expr, c),
        }
    }

    fn check_literal(&mut self, lit: &Literal, c: &TypeContraint) -> (r: CheckResult)
        requires
            old(self).wf(),
        ensures
            Self::same_frame(*old(self), *final(self)),
            (r, final(self).state()) == tc_check_type(old(self).state(), literal_type(lit@), *c),
    {
        let ty = match lit {
            Literal::Int(_) => Type::BasicType(BasicType::Int),
            Literal::Char(_) => Type::BasicType(BasicType::Char),
            Literal::Bool(_) => Type::BasicType(BasicType::Bool),
            Literal::String(_) => Type::BasicType(BasicType::String),
        };
        self.check_type(ty, c)
    }

    fn check_call(&mut self, expr: &Expr, c: &TypeContraint) -> (r: CheckResult)
        requires
            old(self).wf(),
            no_declare(expr@),
            expr is Call,
        ensures
            Self::same_frame(*old(self), *final(self)),
            (r, final(self).state()) == tc_expr(
                sigs_of(old(self).symbols),
                old(self).state(),
                expr@,
                *c,
            ),
        decreases expr, 0int,
    {
        let ghost sigs = sigs_of(self.symbols);
        let ghost st0 = self.state();
        let (id, ps) = match expr {
            Expr::Call(id, ps) => (id, ps),
            _ => {
                return Err(TypeCheckError::Error);
            },
        };
        let info = match self.get_func_info(id) {
            Some(info) => info,
            None => {
                self.push_blank();
                return Err(TypeCheckError::Error);
            },
        };
        let ghost psv = exprs_view(ps@);
        proof {
            lemma_exprs_view_index(ps@);
            lemma_no_declare_seq(psv);
            assert(sigs[id@] == info@);
        }
        if info.params.len() != ps.len() {
            self.push_blank();
        }
        let ghost st1 = self.state();
        proof {
            assert(psv.skip(0) =~= psv);
            assert(info.params@.skip(0) =~= info.params@);
            assert(decreases_to!(expr => ps@));
        }
        let mut i: usize = 0;
        while i < ps.len() && i < info.params.len()
            invariant
                i <= ps.len(),
                i <= info.params.len(),
                psv == exprs_view(ps@),
                psv.len() == ps@.len(),
                forall|j: int| 0 <= j < ps@.len() ==> #[trigger] psv[j] == ps@[j]@,
                forall|j: int| 0 <= j < psv.len() ==> no_declare(#[trigger] psv[j]),
                sigs == sigs_of(self.symbols),
                self.wf(),
                Self::same_frame(*old(self), *self),
                decreases_to!(expr => ps@),
                tc_args(sigs, st1, psv, info.params@) == tc_args(
                    sigs,
                    self.state(),
                    psv.skip(i as int),
                    info.params@.skip(i as int),
                ),
            decreases ps.len() - i,
        {
            let ghost st_i = self.state();
            let want = TypeContraint::Is(info.params[i].copy());
            proof {
                assert(psv[i as int] == ps@[i as int]@);
                assert(decreases_to!(ps@ => ps@[i as int]));
            }
            let r = self.check_expr(&ps[i], &want);
            self.assert_known(r);
            proof {
                assert(psv.skip(i as int)[0] == psv[i as int]);
                assert(psv.skip(i as int).drop_first() =~= psv.skip(i + 1));
                assert(info.params@.skip(i as int).drop_first() =~= info.params@.skip(i + 1));
            }
            i = i + 1;
        }
        proof {
            assert(psv.skip(i as int).len() == 0 || info.params@.skip(i as int).len() == 0);
        }
        self.check_type(info.return_type, c)
    }

    fn check_unary_op(&mut self, expr: &Expr, c: &TypeContraint) -> (r: CheckResult)
        requires
            old(self).wf(),
            no_declare(expr@),
            expr is UnaryOp,
        ensures
            Self::same_frame(*old(self), *final(self)),
            (r, final(self).state()) == tc_expr(
                sigs_of(old(self).symbols),
                old(self).state(),
                expr@,
                *c,
            ),
        decreases expr, 0int,
    {
        let (mode, p) = match expr {
            Expr::UnaryOp(mode, p) => (*mode, p),
            _ => {
                return Err(TypeCheckError::Error);
            },
        };
        let (arg, res) = match mode {
            UnaryOpMode::Neg => (
                TypeContraint::Is(Type::BasicType(BasicType::Int)),
                Type::BasicType(BasicType::Int),
            ),
            UnaryOpMode::Not => (
                TypeContraint::Is(Type::BasicType(BasicType::Bool)),
                Type::BasicType(BasicType::Bool),
            ),
        };
        match self.check_expr(p, &arg) {
            Ok(_) => self.check_type(res, c),
            Err(x) => Err(x),
        }
    }

    fn check_binary_op(&mut self, expr: &Expr, c: &TypeContraint) -> (r: CheckResult)
        requires
            old(self).wf(),
            no_declare(expr@),
            expr is BinaryOp,
        ensures
            Self::same_frame(*old(self), *final(self)),
            (r, final(self).state()) == tc_expr(
                sigs_of(old(self).symbols),
                old(self).state(),
                expr@,
                *c,
            ),
        decreases expr, 0int,
    {
        let (p1, p2) = match expr {
            Expr::BinaryOp(_, p1, p2) => (p1, p2),
            _ => {
                return Err(TypeCheckError::Error);
            },
        };
        let want = TypeContraint::Is(Type::BasicType(BasicType::Int));
        let r1 = self.check_expr(p1, &want);
        let r2 = self.check_expr(p2, &want);
        let both = match r1 {
            Err(x) => Err(x),
            Ok(_) => r2,
        };
        match both {
            Ok(_) => self.check_type(Type::BasicType(BasicType::Int), c),
            Err(x) => Err(x),
        }
    }

    fn check_block(&mut self, expr: &Expr, c: &TypeContraint) -> (r: CheckResult)
        requires
            old(self).wf(),
            no_declare(expr@),
            expr is Block,
        ensures
            Self::same_frame(*old(self), *final(self)),
            (r, final(self).state()) == tc_expr(
                sigs_of(old(self).symbols),
                old(self).state(),
                expr@,
                *c,
            ),
        decreases expr, 0int,
    {
        let ghost sigs = sigs_of(self.symbols);
        let ghost st0 = self.state();
        let (exs, ret) = match expr {
            Expr::Block(exs, ret) => (exs, ret),
            _ => {
                return Err(TypeCheckError::Error);
            },
        };
        let ghost esv = exprs_view(exs@);
        proof {
            lemma_exprs_view_index(exs@);
            lemma_no_declare_seq(esv);
        }
        proof {
            assert(esv.skip(0) =~= esv);
            assert(decreases_to!(expr => exs@));
        }
        let mut i: usize = 0;
        while i < exs.len()
            invariant
                decreases_to!(expr => exs@),
                i <= exs.len(),
                esv == exprs_view(exs@),
                esv.len() == exs@.len(),
                forall|j: int| 0 <= j < exs@.len() ==> #[trigger] esv[j] == exs@[j]@,
                forall|j: int| 0 <= j < esv.len() ==> no_declare(#[trigger] esv[j]),
                sigs == sigs_of(self.symbols),
                self.wf(),
                Self::same_frame(*old(self), *self),
                tc_items(sigs, st0, esv) == tc_items(sigs, self.state(), esv.skip(i as int)),
            decreases exs.len() - i,
        {
            proof {
                assert(esv[i as int] == exs@[i as int]@);
                assert(decreases_to!(exs@ => exs@[i as int]));
            }
            let r = self.check_expr(&exs[i], &TypeContraint::Any);
            self.assert_known(r);
            proof {
                assert(esv.skip(i as int)[0] == esv[i as int]);
                assert(esv.skip(i as int).drop_first() =~= esv.skip(i + 1));
            }
            i = i + 1;
        }
        proof {
            assert(esv.skip(i as int) =~= Seq::<SpecExpr>::empty());
        }
        match ret {
            Some(x) => self.check_expr(x, c),
            None => self.check_type(Type::Void, c),
        }
    }

    /// Checks an array literal under `c`.
    fn check_array(&mut self, exprs: &Vec<Expr>, c: &TypeContraint) -> (r: CheckResult)
        requires
            old(self).wf(),
            forall|j: int| 0 <= j < exprs@.len() ==> no_declare(#[trigger] exprs_view(exprs@)[j]),
        ensures
            Self::same_frame(*old(self), *final(self)),
            (r, final(self).state()) == tc_array(
                sigs_of(old(self).symbols),
                old(self).state(),
                exprs_view(exprs@),
                *c,
            ),
        decreases exprs, 0int,
    {
        let ghost sigs = sigs_of(self.symbols);
        let ghost st0 = self.state();
        let ghost esv = exprs_view(exprs@);
        proof {
            lemma_exprs_view_index(exprs@);
        }
        if exprs.len() == 0 {
            return resolve(
                &Err(TypeCheckError::Unknown(Type::Array(Box::new(Type::Void)))),
                c,
            );
        }
        let mut results: Vec<CheckResult> = Vec::new();
        proof {
            assert(esv.skip(0) =~= esv);
            assert(results@ + tc_elems(sigs, st0, esv.skip(0)).0 =~= tc_elems(sigs, st0, esv).0);
            assert(decreases_to!(exprs => exprs@));
        }
        let mut i: usize = 0;
        while i < exprs.len()
            invariant
                decreases_to!(exprs => exprs@),
                i <= exprs.len(),
                esv == exprs_view(exprs@),
                esv.len() == exprs@.len(),
                forall|j: int| 0 <= j < exprs@.len() ==> #[trigger] esv[j] == exprs@[j]@,
                forall|j: int| 0 <= j < esv.len() ==> no_declare(#[trigger] esv[j]),
                sigs == sigs_of(self.symbols),
                self.wf(),
                Self::same_frame(*old(self), *self),
                tc_elems(sigs, st0, esv) == ({
                    let rest = tc_elems(sigs, self.state(), esv.skip(i as int));
                    (results@ + rest.0, rest.1)
                }),
            decreases exprs.len() - i,
        {
            let ghost st_i = self.state();
            proof {
                assert(esv[i as int] == exprs@[i as int]@);
                assert(decreases_to!(exprs@ => exprs@[i as int]));
            }
            let r = self.check_expr(&exprs[i], &TypeContraint::Any);
            proof {
                assert(esv.skip(i as int)[0] == esv[i as int]);
                assert(esv.skip(i as int).drop_first() =~= esv.skip(i + 1));
                let rest = tc_elems(sigs, self.state(), esv.skip(i + 1));
                assert(results@.push(r) + rest.0 =~= results@ + (seq![r] + rest.0));
            }
            results.push(r);
            i = i + 1;
        }
        proof {
            assert(esv.skip(i as int) =~= Seq::<SpecExpr>::empty());
            assert(results@ + Seq::<CheckResult>::empty() =~= results@);
        }
        let unique = dedup_results(&results);
        let folded = self.fold_types(&unique);
        match folded {
            Ok(t) => self.check_type(Type::Array(Box::new(t)), c),
            Err(x) => Err(x),
        }
    }

    /// Folds the outcomes into their common type; an error is reported.
    fn fold_types(&mut self, rs: &Vec<CheckResult>) -> (r: CheckResult)
        requires
            old(self).wf(),
        ensures
            Self::same_frame(*old(self), *final(self)),
            (r, final(self).state()) == tc_fold(rs@, old(self).state()),
    {
        let f = if rs.len() == 0 {
            Err(TypeCheckError::Unknown(Type::Void))
        } else {
            let mut acc = copy_result(&rs[0]);
            let mut j: usize = 1;
            while j < rs.len()
                invariant
                    1 <= j <= rs.len(),
                    spec_fold_from(rs@[0], rs@.drop_first()) == spec_fold_from(
                        acc,
                        rs@.skip(j as int),
                    ),
                decreases rs.len() - j,
            {
                let next = copy_result(&rs[j]);
                proof {
                    assert(rs@.skip(j as int)[0] == rs@[j as int]);
                    assert(rs@.skip(j as int).drop_first() =~= rs@.skip(j + 1));
                }
                acc = combine(acc, next);
                j = j + 1;
            }
            proof {
                assert(rs@.drop_first() =~= rs@.skip(1));
                assert(rs@.skip(j as int) =~= Seq::<CheckResult>::empty());
            }
            acc
        };
        if let Err(TypeCheckError::Error) = f {
            self.push_blank();
        }
        f
    }

    /// Checks a place under `c`.
    fn check_lvalue(&mut self, lvalue: &LValue, c: &TypeContraint) -> (r: CheckResult)
        requires
            old(self).wf(),
            no_declare_lvalue(lvalue@),
        ensures
            Self::same_frame(*old(self), *final(self)),
            (r, final(self).state()) == tc_lvalue(
                sigs_of(old(self).symbols),
                old(self).state(),
                lvalue@,
                *c,
            ),
        decreases lvalue, 0int,
    {
        match lvalue {
            LValue::Ident(id) => match self.symbols.get_global(id) {
                Some(t) => {
                    let ty = t.copy();
                    self.check_type(ty, c)
                },
                None => {
                    self.push_blank();
                    Err(TypeCheckError::Error)
                },
            },
            LValue::ArrayElem(lv, ex) => {
                let lv_typed = match self.check_lvalue(lv, &TypeContraint::IsIndexable) {
                    Ok(t) => t,
                    Err(x) => {
                        return Err(x);
                    },
                };
                match self.check_expr(ex, &TypeContraint::Is(Type::BasicType(BasicType::Int))) {
                    Ok(_) => {},
                    Err(x) => {
                        return Err(x);
                    },
                }
                match lv_typed.get_indexed_type() {
                    Some(t) => self.check_type(t, c),
                    None => Err(TypeCheckError::Error),
                }
            },
        }
    }

    /// Checks a statement under `c`.
    fn check_stmt(&mut self, stmt: &Stmt, c: &TypeContraint) -> (r: CheckResult)
        requires
            old(self).wf(),
            no_declare(SpecExpr::Stmt(stmt@)),
        ensures
            Self::same_frame(*old(self), *final(self)),
            (r, final(self).state()) == tc_stmt(
                sigs_of(old(self).symbols),
                old(self).state(),
                stmt@,
                *c,
            ),
        decreases stmt, 0int,
    {
        match stmt {
            Stmt::If { cond, tt, ff } => {
                let cond_typed = self.check_expr(
                    cond,
                    &TypeContraint::Is(Type::BasicType(BasicType::Bool)),
                );
                let tt_typed = self.check_expr(tt, c);
                let body_typed = match ff {
                    Some(el) => match tt_typed {
                        Ok(t) => self.check_expr(el, &TypeContraint::Is(t)),
                        Err(x) => Err(x),
                    },
                    None => self.check_type(Type::Void, c),
                };
                match cond_typed {
                    Err(x) => Err(x),
                    Ok(_) => body_typed,
                }
            },
            Stmt::Assign { id, rvalue } => self.with_symbol(id, rvalue, c),
            Stmt::While { cond, then } => {
                let cond_typed = self.check_expr(
                    cond,
                    &TypeContraint::Is(Type::BasicType(BasicType::Bool)),
                );
                let body_typed = self.check_expr(then, c);
                match cond_typed {
                    Err(x) => Err(x),
                    Ok(_) => body_typed,
                }
            },
            Stmt::Declare { .. } => Err(TypeCheckError::Error),
        }
    }

    /// Checks the value `rvalue` assigned to the variable `symbol` against
    /// the variable's type (if it has one) and `c`; a variable of unknown
    /// type gets the type found.
    fn with_symbol(&mut self, symbol: &String, rvalue: &Expr, c: &TypeContraint) -> (r: CheckResult)
        requires
            old(self).wf(),
            no_declare(rvalue@),
        ensures
            Self::same_frame(*old(self), *final(self)),
            (r, final(self).state()) == tc_stmt(
                sigs_of(old(self).symbols),
                old(self).state(),
                SpecStmt::Assign { id: symbol@, rvalue: Box::new(rvalue@) },
                *c,
            ),
        decreases rvalue, 2int,
    {
        let x = match self.symbols.get_global(symbol) {
            Some(t) => TypeContraint::Is(t.copy()),
            None => TypeContraint::Any,
        };
        let want = x & c.copy();
        let res = self.check_expr(rvalue, &want);
        match res {
            Ok(t) => {
                let ghost st1 = self.state();
                let ty = t.copy();
                self.symbols.set_untyped(symbol.clone(), ty);
                proof {
                    if !st1.untyped.contains(symbol@) {
                        assert(self.symbols.untyped@ =~= st1.untyped);
                    }
                }
                Ok(t)
            },
            Err(e) => Err(e),
        }
    }

    /// Checks a function's body against its return type.
    pub fn check_func(&mut self, func: &Func) -> (r: CheckResult)
        requires
            old(self).wf(),
            no_declare(func.block@),
        ensures
            Self::same_frame(*old(self), *final(self)),
            (r, final(self).state()) == tc_expr(
                sigs_of(old(self).symbols),
                old(self).state(),
                func.block@,
                TypeContraint::Is(func.return_type),
            ),
    {
        self.check_expr(&func.block, &TypeContraint::Is(func.return_type.copy()))
    }

    /// Checks every function of the program, reporting any whose body's
    /// type is undecided.
    pub fn check_prog(&mut self, prog: &Prog)
        requires
            old(self).wf(),
            forall|i: int| 0 <= i < prog@.len() ==> no_declare((#[trigger] prog@[i]).block),
        ensures
            Self::same_frame(*old(self), *final(self)),
            final(self).state() == tc_funcs(sigs_of(old(self).symbols), old(self).state(), prog@),
    {
        let ghost sigs = sigs_of(self.symbols);
        let ghost st0 = self.state();
        let ghost fv = prog@;
        proof {
            assert(fv.skip(0) =~= fv);
        }
        let mut i: usize = 0;
        while i < prog.funcs.len()
            invariant
                i <= prog.funcs.len(),
                fv == prog@,
                fv.len() == prog.funcs@.len(),
                forall|j: int| 0 <= j < fv.len() ==> no_declare((#[trigger] fv[j]).block),
                sigs == sigs_of(self.symbols),
                self.wf(),
                Self::same_frame(*old(self), *self),
                tc_funcs(sigs, st0, fv) == tc_funcs(sigs, self.state(), fv.skip(i as int)),
            decreases prog.funcs.len() - i,
        {
            let r = self.check_func(&prog.funcs[i]);
            self.assert_known(r);
            proof {
                assert(fv.skip(i as int)[0] == fv[i as int]);
                assert(fv.skip(i as int).drop_first() =~= fv.skip(i + 1));
            }
            i = i + 1;
        }
        proof {
            assert(fv.skip(i as int) =~= Seq::<SpecFunc>::empty());
        }
    }
}

/// The outcomes with repetitions removed, first occurrences kept in order.
fn dedup_results(rs: &Vec<CheckResult>) -> (u: Vec<CheckResult>)
    ensures
        u@ == dedup(rs@),
{
    let mut u: Vec<CheckResult> = Vec::new();
    let mut i: usize = 0;
    while i < rs.len()
        invariant
            i <= rs.len(),
            u@ == dedup(rs@.take(i as int)),
        decreases rs.len() - i,
    {
        let mut found = false;
        let mut j: usize = 0;
        while j < u.len()
            invariant
                i < rs.len(),
                j <= u.len(),
                found <==> exists|k: int| 0 <= k < j && u@[k] == rs@[i as int],
            decreases u.len() - j,
        {
            if result_equals(&u[j], &rs[i]) {
                found = true;
            }
            j = j + 1;
        }
        proof {
            assert(rs@.take(i + 1).drop_last() =~= rs@.take(i as int));
            assert(rs@.take(i + 1).last() == rs@[i as int]);
            if found {
                let k = choose|k: int| 0 <= k < j && u@[k] == rs@[i as int];
                assert(u@.contains(rs@[i as int]));
            } else {
                assert(!u@.contains(rs@[i as int]));
            }
        }
        if !found {
            u.push(copy_result(&rs[i]));
        }
        i = i + 1;
    }
    proof {
        assert(rs@.take(i as int) =~= rs@);
    }
    u
}

/// Checking every function of a program in order, each against its
/// return type, undecided bodies reported.
pub open spec fn tc_funcs(sigs: Sigs, st: TcState, fs: Seq<SpecFunc>) -> TcState
    decreases fs.len(),
{
    if fs.len() == 0 {
        st
    } else {
        let (r, st1) = tc_expr(sigs, st, fs[0].block, TypeContraint::Is(fs[0].return_type));
        tc_funcs(sigs, tc_assert_known(r, st1), fs.drop_first())
    }
}

/// `a & b`: both constraints.
impl std::ops::BitAnd for TypeContraint {
    type Output = TypeContraint;

    fn bitand(self, rhs: TypeContraint) -> (r: TypeContraint) {
        TypeContraint::And(Box::new(self), Box::new(rhs))
    }
}

impl vstd::std_specs::ops::BitAndSpecImpl for TypeContraint {
    open spec fn obeys_bitand_spec() -> bool {
        true
    }

    open spec fn bitand_req(self, rhs: TypeContraint) -> bool {
        true
    }

    open spec fn bitand_spec(self, rhs: TypeContraint) -> TypeContraint {
        TypeContraint::And(Box::new(self), Box::new(rhs))
    }
}

/// `a | b`: either constraint.
impl std::ops::BitOr for TypeContraint {
    type Output = TypeContraint;

    fn bitor(self, rhs: TypeContraint) -> (r: TypeContraint) {
        TypeContraint::Or(Box::new(self), Box::new(rhs))
    }
}

impl vstd::std_specs::ops::BitOrSpecImpl for TypeContraint {
    open spec fn obeys_bitor_spec() -> bool {
        true
    }

    open spec fn bitor_req(self, rhs: TypeContraint) -> bool {
        true
    }

    open spec fn bitor_spec(self, rhs: TypeContraint) -> TypeContraint {
        TypeContraint::Or(Box::new(self), Box::new(rhs))
    }
}

/// The result of `e` can be that of an empty array literal: `e` is one, or
/// ends in one (the value of a block, a branch, an assignment or a loop).
pub open spec fn empty_array_result(e: SpecExpr) -> bool
    decreases e,
{
    match e {
        SpecExpr::Array(es) => es.len() == 0,
        SpecExpr::Block(_, ret) => match ret {
            Some(x) => empty_array_result(*x),
            None => false,
        },
        SpecExpr::Stmt(s) => match s {
            SpecStmt::If { tt, ff, .. } => empty_array_result(*tt) || match ff {
                Some(f) => empty_array_result(*f),
                None => false,
            },
            SpecStmt::Assign { rvalue, .. } => empty_array_result(*rvalue),
            SpecStmt::While { then, .. } => empty_array_result(*then),
            SpecStmt::Declare { .. } => false,
        },
        _ => false,
    }
}

proof fn lemma_satisfies_is(x: Type, t: Type)
    requires
        satisfies(x, TypeContraint::Is(t)),
    ensures
        x == t,
{
}

/// Law: a type the checker accepts meets the constraint it was checked
/// against. If checking `e` under `c` gives `Ok(t)`, then `t` satisfies
/// `c`, for expressions whose result is not that of an empty array
/// literal (whose undecided type is narrowed by the constraint).
pub proof fn law_accepted_type_satisfies(sigs: Sigs, st: TcState, e: SpecExpr, c: TypeContraint)
    requires
        !empty_array_result(e),
    ensures
        tc_expr(sigs, st, e, c).0 is Ok ==> satisfies(tc_expr(sigs, st, e, c).0->Ok_0, c),
    decreases e,
{
    match e {
        SpecExpr::Block(es, ret) => {
            let st1 = tc_items(sigs, st, es);
            match ret {
                Some(x) => {
                    law_accepted_type_satisfies(sigs, st1, *x, c);
                    assert(tc_expr(sigs, st, e, c) == tc_expr(sigs, st1, *x, c));
                },
                None => {
                    assert(tc_expr(sigs, st, e, c) == tc_check_type(st1, Type::Void, c));
                },
            }
        },
        SpecExpr::Stmt(s) => {
            assert(tc_expr(sigs, st, e, c) == tc_stmt(sigs, st, s, c));
            match s {
                SpecStmt::If { cond, tt, ff } => {
                    let (rc, st1) = tc_expr(sigs, st, *cond, TypeContraint::Is(Type::BasicType(BasicType::Bool)));
                    let (rt, st2) = tc_expr(sigs, st1, *tt, c);
                    law_accepted_type_satisfies(sigs, st1, *tt, c);
                    match ff {
                        Some(el) => match rt {
                            Ok(t) => {
                                law_accepted_type_satisfies(sigs, st2, *el, TypeContraint::Is(t));
                                let rb = tc_expr(sigs, st2, *el, TypeContraint::Is(t)).0;
                                if rb is Ok {
                                    lemma_satisfies_is(rb->Ok_0, t);
                                }
                            },
                            Err(_) => {},
                        },
                        None => {},
                    }
                },
                SpecStmt::Assign { id, rvalue } => {
                    let x = if st.globals.contains_key(id) {
                        TypeContraint::Is(st.globals[id])
                    } else {
                        TypeContraint::Any
                    };
                    law_accepted_type_satisfies(
                        sigs,
                        st,
                        *rvalue,
                        TypeContraint::And(Box::new(x), Box::new(c)),
                    );
                },
                SpecStmt::While { cond, then } => {
                    let (rc, st1) = tc_expr(sigs, st, *cond, TypeContraint::Is(Type::BasicType(BasicType::Bool)));
                    law_accepted_type_satisfies(sigs, st1, *then, c);
                },
                SpecStmt::Declare { .. } => {},
            }
        },
        SpecExpr::LValue(lv) => {
            assert(tc_expr(sigs, st, e, c) == tc_lvalue(sigs, st, lv, c));
            match lv {
                SpecLValue::Ident(_) => {},
                SpecLValue::ArrayElem(inner, ex) => {
                    let (r1, st1) = tc_lvalue(sigs, st, *inner, TypeContraint::IsIndexable);
                    if r1 is Ok {
                        let (r2, st2) = tc_expr(sigs, st1, *ex, TypeContraint::Is(Type::BasicType(BasicType::Int)));
                        assert(r2 is Ok ==> tc_lvalue(sigs, st, lv, c) == tc_check_type(st2, indexed_type(r1->Ok_0)->0, c));
                    }
                },
            }
        },
        SpecExpr::Array(es) => {
            assert(tc_expr(sigs, st, e, c) == tc_array(sigs, st, es, c));
        },
        _ => {},
    }
}

/// Law: an arithmetic operator takes two `int` operands and gives an
/// `int`. Whatever the operator and the constraint, when checking
/// `p1 op p2` succeeds, checking `p1` as an `int` succeeds, checking `p2`
/// as an `int` (after `p1`) succeeds, and the type found is `int`.
pub proof fn law_binary_operands_int(
    sigs: Sigs,
    st: TcState,
    m: BinOpMode,
    p1: SpecExpr,
    p2: SpecExpr,
    c: TypeContraint,
)
    ensures
        tc_expr(sigs, st, SpecExpr::BinaryOp(m, Box::new(p1), Box::new(p2)), c).0 is Ok ==> {
            let int_is = TypeContraint::Is(Type::BasicType(BasicType::Int));
            &&& tc_expr(sigs, st, p1, int_is).0 is Ok
            &&& tc_expr(sigs, tc_expr(sigs, st, p1, int_is).1, p2, int_is).0 is Ok
            &&& tc_expr(sigs, st, SpecExpr::BinaryOp(m, Box::new(p1), Box::new(p2)), c).0 == Ok::<
                Type,
                TypeCheckError,
            >(Type::BasicType(BasicType::Int))
        },
{
}

/// Law: an arithmetic operator with an operand that is a literal other than
/// an integer (a `bool`, `char` or string) is rejected, on either side.
pub proof fn law_binary_rejects_non_int_literal(
    sigs: Sigs,
    st: TcState,
    m: BinOpMode,
    other: SpecExpr,
    l: SpecLiteral,
    c: TypeContraint,
)
    requires
        !(l is Int),
    ensures
        tc_expr(
            sigs,
            st,
            SpecExpr::BinaryOp(m, Box::new(other), Box::new(SpecExpr::Literal(l))),
            c,
        ).0 is Err,
        tc_expr(
            sigs,
            st,
            SpecExpr::BinaryOp(m, Box::new(SpecExpr::Literal(l)), Box::new(other)),
            c,
        ).0 is Err,
{
    let int_is = TypeContraint::Is(Type::BasicType(BasicType::Int));
    let st1 = tc_expr(sigs, st, other, int_is).1;
    assert(tc_expr(sigs, st1, SpecExpr::Literal(l), int_is).0 is Err);
    assert(tc_expr(sigs, st, SpecExpr::Literal(l), int_is).0 is Err);
}

/// Law: `!` takes a `bool` and gives a `bool`. When checking `!p`
/// succeeds, its type is `bool` and `p` checks as a `bool`; and whenever
/// `p` checks as a `bool`, `!p` checks as a `bool` with type `bool`.
pub proof fn law_not_is_bool(sigs: Sigs, st: TcState, p: SpecExpr, c: TypeContraint)
    ensures
        tc_expr(sigs, st, SpecExpr::UnaryOp(UnaryOpMode::Not, Box::new(p)), c).0 is Ok ==> {
            &&& tc_expr(sigs, st, SpecExpr::UnaryOp(UnaryOpMode::Not, Box::new(p)), c).0 == Ok::<
                Type,
                TypeCheckError,
            >(Type::BasicType(BasicType::Bool))
            &&& tc_expr(sigs, st, p, TypeContraint::Is(Type::BasicType(BasicType::Bool))).0 is Ok
        },
        tc_expr(sigs, st, p, TypeContraint::Is(Type::BasicType(BasicType::Bool))).0 is Ok ==> tc_expr(
            sigs,
            st,
            SpecExpr::UnaryOp(UnaryOpMode::Not, Box::new(p)),
            TypeContraint::Is(Type::BasicType(BasicType::Bool)),
        ).0 == Ok::<Type, TypeCheckError>(Type::BasicType(BasicType::Bool)),
{
}

/// Law: `-` takes an `int` and gives an `int`. When checking `-p`
/// succeeds, its type is `int` and `p` checks as an `int`; and whenever
/// `p` checks as an `int`, `-p` checks as an `int` with type `int`.
pub proof fn law_neg_is_int(sigs: Sigs, st: TcState, p: SpecExpr, c: TypeContraint)
    ensures
        tc_expr(sigs, st, SpecExpr::UnaryOp(UnaryOpMode::Neg, Box::new(p)), c).0 is Ok ==> {
            &&& tc_expr(sigs, st, SpecExpr::UnaryOp(UnaryOpMode::Neg, Box::new(p)), c).0 == Ok::<
                Type,
                TypeCheckError,
            >(Type::BasicType(BasicType::Int))
            &&& tc_expr(sigs, st, p, TypeContraint::Is(Type::BasicType(BasicType::Int))).0 is Ok
        },
        tc_expr(sigs, st, p, TypeContraint::Is(Type::BasicType(BasicType::Int))).0 is Ok ==> tc_expr(
            sigs,
            st,
            SpecExpr::UnaryOp(UnaryOpMode::Neg, Box::new(p)),
            TypeContraint::Is(Type::BasicType(BasicType::Int)),
        ).0 == Ok::<Type, TypeCheckError>(Type::BasicType(BasicType::Int)),
{
}

/// Law: a literal has the type of its kind. An integer is an `int`, a
/// character a `char`, `true` and `false` are `bool`, a string literal is
/// a `string`; checking it succeeds exactly when that type meets the
/// constraint, and then gives that type.
pub proof fn law_literal_types(sigs: Sigs, st: TcState, l: SpecLiteral, c: TypeContraint)
    ensures
        ({
            let t = match l {
                SpecLiteral::Int(_) => Type::BasicType(BasicType::Int),
                SpecLiteral::Char(_) => Type::BasicType(BasicType::Char),
                SpecLiteral::Bool(_) => Type::BasicType(BasicType::Bool),
                SpecLiteral::Str(_) => Type::BasicType(BasicType::String),
            };
            &&& tc_expr(sigs, st, SpecExpr::Literal(l), c).0 is Ok <==> satisfies(t, c)
            &&& tc_expr(sigs, st, SpecExpr::Literal(l), c).0 is Ok ==> tc_expr(
                sigs,
                st,
                SpecExpr::Literal(l),
                c,
            ).0 == Ok::<Type, TypeCheckError>(t)
        }),
{
}

/// Law: conditions are `bool`. When a conditional or a loop checks, its
/// condition checks as a `bool`; a loop has the type of its body (checked
/// after the condition), and a conditional without `else` is `void`.
pub proof fn law_conditions_bool(sigs: Sigs, st: TcState, s: SpecStmt, c: TypeContraint)
    ensures
        ({
            let bool_is = TypeContraint::Is(Type::BasicType(BasicType::Bool));
            let r = tc_expr(sigs, st, SpecExpr::Stmt(s), c).0;
            match s {
                SpecStmt::If { cond, tt, ff } => r is Ok ==> {
                    &&& tc_expr(sigs, st, *cond, bool_is).0 is Ok
                    &&& ff is None ==> r == Ok::<Type, TypeCheckError>(Type::Void)
                },
                SpecStmt::While { cond, then } => r is Ok ==> {
                    &&& tc_expr(sigs, st, *cond, bool_is).0 is Ok
                    &&& r == tc_expr(sigs, tc_expr(sigs, st, *cond, bool_is).1, *then, c).0
                },
                _ => true,
            }
        }),
{
    assert(tc_expr(sigs, st, SpecExpr::Stmt(s), c) == tc_stmt(sigs, st, s, c));
}

/// Law: a call has its function's return type. When checking a call
/// succeeds, the function has a signature and the type is its return type.
pub proof fn law_call_returns(sigs: Sigs, st: TcState, id: Seq<char>, ps: Seq<SpecExpr>, c: TypeContraint)
    ensures
        tc_expr(sigs, st, SpecExpr::Call(id, ps), c).0 is Ok ==> sigs.contains_key(id) && tc_expr(
            sigs,
            st,
            SpecExpr::Call(id, ps),
            c,
        ).0 == Ok::<Type, TypeCheckError>(sigs[id].1),
{
}

/// Law: an index is an `int` and only an array is indexed. When checking
/// `place[index]` succeeds, the place checks as something indexable, its
/// type is an array, the index checks as an `int` (after the place), and
/// the element has the array's element type.
pub proof fn law_index_int(sigs: Sigs, st: TcState, inner: SpecLValue, ex: SpecExpr, c: TypeContraint)
    ensures
        ({
            let lv = SpecLValue::ArrayElem(Box::new(inner), Box::new(ex));
            let r = tc_expr(sigs, st, SpecExpr::LValue(lv), c).0;
            let (ri, sti) = tc_lvalue(sigs, st, inner, TypeContraint::IsIndexable);
            r is Ok ==> {
                &&& ri is Ok
                &&& ri->Ok_0 is Array
                &&& tc_expr(sigs, sti, ex, TypeContraint::Is(Type::BasicType(BasicType::Int))).0 is Ok
                &&& r == Ok::<Type, TypeCheckError>(*(ri->Ok_0->Array_0))
            }
        }),
{
    let lv = SpecLValue::ArrayElem(Box::new(inner), Box::new(ex));
    assert(tc_expr(sigs, st, SpecExpr::LValue(lv), c) == tc_lvalue(sigs, st, lv, c));
    lemma_indexable_array(sigs, st, inner);
}

/// What checks as indexable is an array.
proof fn lemma_indexable_array(sigs: Sigs, st: TcState, lv: SpecLValue)
    ensures
        tc_lvalue(sigs, st, lv, TypeContraint::IsIndexable).0 is Ok ==> tc_lvalue(
            sigs,
            st,
            lv,
            TypeContraint::IsIndexable,
        ).0->Ok_0 is Array,
{
}

/// Law: a variable reads as its recorded type. Checking a variable with a
/// recorded type succeeds exactly when that type meets the constraint,
/// and then gives it; a variable without one is an error.
pub proof fn law_variable_type(sigs: Sigs, st: TcState, id: Seq<char>, c: TypeContraint)
    ensures
        st.globals.contains_key(id) ==> (tc_expr(sigs, st, SpecExpr::LValue(SpecLValue::Ident(id)), c).0 is Ok
            <==> satisfies(st.globals[id], c)),
        st.globals.contains_key(id) && satisfies(st.globals[id], c) ==> tc_expr(
            sigs,
            st,
            SpecExpr::LValue(SpecLValue::Ident(id)),
            c,
        ).0 == Ok::<Type, TypeCheckError>(st.globals[id]),
        !st.globals.contains_key(id) ==> tc_expr(sigs, st, SpecExpr::LValue(SpecLValue::Ident(id)), c).0 is Err,
{
    assert(tc_expr(sigs, st, SpecExpr::LValue(SpecLValue::Ident(id)), c) == tc_lvalue(
        sigs,
        st,
        SpecLValue::Ident(id),
        c,
    ));
}

} // verus!
